//! A small PNG writer of its own: eight-bit RGB or RGBA images, stored
//! without compression.

use vstd::prelude::*;
use vstd::slice::slice_subrange;

use crate::chunk::{be32, chunk_bytes, push_be32, write_chunk, IDAT, IEND, IHDR};
use crate::encoder::signature;

verus! {

/// The greatest prime below 65536, by which both sums of the Adler-32
/// checksum are reduced.
pub const ADLER_MODULUS: u32 = 65521;

/// The first sum of the Adler-32 checksum: one more than the sum of the
/// bytes, reduced.
pub open spec fn adler_a(bytes: Seq<u8>) -> int
    decreases bytes.len(),
{
    if bytes.len() == 0 {
        1
    } else {
        (adler_a(bytes.drop_last()) + bytes.last()) % (ADLER_MODULUS as int)
    }
}

/// The second sum of the Adler-32 checksum: the sum of the first sum after
/// each byte, reduced.
pub open spec fn adler_b(bytes: Seq<u8>) -> int
    decreases bytes.len(),
{
    if bytes.len() == 0 {
        0
    } else {
        (adler_b(bytes.drop_last()) + adler_a(bytes)) % (ADLER_MODULUS as int)
    }
}

/// The Adler-32 checksum of `bytes`: the second sum in the upper half, the
/// first in the lower.
pub open spec fn adler32(bytes: Seq<u8>) -> u32 {
    (adler_b(bytes) * 0x1_0000 + adler_a(bytes)) as u32
}

/// The number of bytes of one pixel: four with alpha, three without.
pub open spec fn pixel_bytes(alpha: bool) -> int {
    if alpha {
        4
    } else {
        3
    }
}

/// The number of bytes of a scanline of `width` pixels, without its filter
/// tag.
pub open spec fn row_bytes(width: u32, alpha: bool) -> int {
    width * pixel_bytes(alpha)
}

/// The scanline `y` of the image data.
pub open spec fn row(data: Seq<u8>, len: int, y: int) -> Seq<u8> {
    data.subrange(y * len, (y + 1) * len)
}

/// The first `n` scanlines as the decoder restores them: each with the tag
/// of no filter before it.
pub open spec fn tagged_rows(data: Seq<u8>, len: int, n: nat) -> Seq<u8>
    decreases n,
{
    if n == 0 {
        Seq::<u8>::empty()
    } else {
        tagged_rows(data, len, (n - 1) as nat) + seq![0u8] + row(data, len, n - 1)
    }
}

/// The header of a stored block of `p` bytes: the mark of the last block,
/// the lower sixteen bits of `p`, low byte first, and their complement.
pub open spec fn block_header(p: u32, last: bool) -> Seq<u8> {
    seq![
        if last { 1u8 } else { 0u8 },
        (p % 0x100) as u8,
        ((p / 0x100) % 0x100) as u8,
        (255 - p % 0x100) as u8,
        (255 - (p / 0x100) % 0x100) as u8,
    ]
}

/// The first `n` scanlines as stored blocks, one block for each scanline
/// with its tag; the block of the last scanline of the image is marked.
pub open spec fn stored_rows(data: Seq<u8>, len: int, height: int, n: nat) -> Seq<u8>
    decreases n,
{
    if n == 0 {
        Seq::<u8>::empty()
    } else {
        stored_rows(data, len, height, (n - 1) as nat) + block_header(
            (len + 1) as u32,
            n == height,
        ) + seq![0u8] + row(data, len, n - 1)
    }
}

/// The data of the header chunk: the size, eight bits a sample, RGB with or
/// without alpha, and no interlacing.
pub open spec fn header_data(width: u32, height: u32, alpha: bool) -> Seq<u8> {
    be32(width) + be32(height) + seq![8u8, if alpha { 6u8 } else { 2u8 }, 0u8, 0u8, 0u8]
}

/// The data of the image data chunk: a zlib stream of stored blocks, one for
/// each scanline, with the checksum of what the blocks hold.
pub open spec fn image_data(width: u32, height: u32, data: Seq<u8>, alpha: bool) -> Seq<u8> {
    let len = row_bytes(width, alpha);
    seq![0x78u8, 0x01u8] + stored_rows(data, len, height as int, height as nat) + be32(
        adler32(tagged_rows(data, len, height as nat)),
    )
}

/// The file that `svpng` makes.
pub open spec fn svpng_bytes(width: u32, height: u32, data: Seq<u8>, alpha: bool) -> Seq<u8> {
    signature() + chunk_bytes(IHDR, header_data(width, height, alpha)) + chunk_bytes(
        IDAT,
        image_data(width, height, data, alpha),
    ) + chunk_bytes(IEND, Seq::<u8>::empty())
}

/// Whether an image of the given size can be written: the length of the
/// image data chunk fits into 32 bits, and the data holds all scanlines.
pub open spec fn svpng_fits(width: u32, height: u32, data_len: int, alpha: bool) -> bool {
    &&& 6 + height * (6 + row_bytes(width, alpha)) <= u32::MAX
    &&& row_bytes(width, alpha) + 1 <= u32::MAX
    &&& height * row_bytes(width, alpha) <= data_len
}

/// The bytes of a PNG file for the image `data`: `height` scanlines of
/// `width` pixels of three bytes, or of four with `alpha`. The image is
/// stored as it is, without filtering and without compression.
#[verifier::rlimit(50)]
pub fn svpng(width: u32, height: u32, data: &[u8], alpha: bool) -> (png: Vec<u8>)
    requires
        svpng_fits(width, height, data@.len() as int, alpha),
    ensures
        png@ == svpng_bytes(width, height, data@, alpha),
{
    let unit: u32 = if alpha { 4 } else { 3 };
    assert(width * unit == row_bytes(width, alpha));
    let len: u32 = width * unit;
    let p: u32 = len + 1;
    let ghost l = len as int;

    let mut png: Vec<u8> = Vec::new();
    png.push(137);
    png.push(80);
    png.push(78);
    png.push(71);
    png.push(13);
    png.push(10);
    png.push(26);
    png.push(10);
    assert(png@ =~= signature());

    let mut header: Vec<u8> = Vec::new();
    push_be32(&mut header, width);
    push_be32(&mut header, height);
    header.push(8);
    header.push(if alpha { 6 } else { 2 });
    header.push(0);
    header.push(0);
    header.push(0);
    assert(header@ =~= header_data(width, height, alpha));
    let _ = write_chunk(&mut png, IHDR, header.as_slice());

    let mut body: Vec<u8> = Vec::new();
    body.push(0x78);
    body.push(0x01);
    let available = data.len();
    let mut a: u32 = 1;
    let mut b: u32 = 0;
    let mut y: u32 = 0;
    assert(body@ =~= seq![0x78u8, 0x01u8] + stored_rows(data@, l, height as int, 0));
    while y < height
        invariant
            y <= height,
            l == len,
            p == len + 1,
            len == row_bytes(width, alpha),
            svpng_fits(width, height, data@.len() as int, alpha),
            data@.len() == available,
            body@ == seq![0x78u8, 0x01u8] + stored_rows(data@, l, height as int, y as nat),
            body@.len() == 2 + y * (6 + l),
            a == adler_a(tagged_rows(data@, l, y as nat)),
            b == adler_b(tagged_rows(data@, l, y as nat)),
            a < ADLER_MODULUS,
            b < ADLER_MODULUS,
        decreases height - y,
    {
        proof {
            lemma_row_bounds(l, height as int, y as int);
        }
        let ghost before = body@;
        let ghost done = tagged_rows(data@, l, y as nat);
        body.push(if y == height - 1 { 1 } else { 0 });
        body.push((p % 0x100) as u8);
        body.push(((p / 0x100) % 0x100) as u8);
        body.push((255 - p % 0x100) as u8);
        body.push((255 - (p / 0x100) % 0x100) as u8);
        body.push(0);
        assert(body@ =~= before + block_header(p, y + 1 == height) + seq![0u8]);

        // the tag of the scanline enters the checksum as a zero byte
        a = a % ADLER_MODULUS;
        b = (b + a) % ADLER_MODULUS;
        proof {
            assert((done + seq![0u8]).drop_last() =~= done);
        }

        let start = (y as usize) * (len as usize);
        let line = slice_subrange(data, start, start + len as usize);
        assert(line@ =~= row(data@, l, y as int));
        body.extend_from_slice(line);
        assert(body@ =~= before + block_header(p, y + 1 == height) + seq![0u8] + line@);

        let mut k: usize = 0;
        while k < line.len()
            invariant
                k <= line@.len(),
                a == adler_a(done + seq![0u8] + line@.take(k as int)),
                b == adler_b(done + seq![0u8] + line@.take(k as int)),
                a < ADLER_MODULUS,
                b < ADLER_MODULUS,
            decreases line@.len() - k,
        {
            let x = line[k];
            proof {
                let so_far = done + seq![0u8] + line@.take(k as int);
                let next = done + seq![0u8] + line@.take(k + 1);
                assert(next.drop_last() =~= so_far);
                assert(next.last() == x);
            }
            a = (a + x as u32) % ADLER_MODULUS;
            b = (b + a) % ADLER_MODULUS;
            k += 1;
        }
        proof {
            assert(line@.take(line@.len() as int) =~= line@);
            assert(tagged_rows(data@, l, (y + 1) as nat) =~= done + seq![0u8] + line@);
            assert(stored_rows(data@, l, height as int, (y + 1) as nat) =~= stored_rows(
                data@,
                l,
                height as int,
                y as nat,
            ) + block_header(p, y + 1 == height) + seq![0u8] + line@);
            assert((y + 1) * (6 + l) == y * (6 + l) + (6 + l)) by (nonlinear_arith);
        }
        y += 1;
    }
    push_be32(&mut body, b * 0x1_0000 + a);
    proof {
        assert(body@ =~= image_data(width, height, data@, alpha));
        assert(height * (6 + l) == body@.len() - 6);
    }
    let _ = write_chunk(&mut png, IDAT, body.as_slice());
    let _ = write_chunk(&mut png, IEND, slice_subrange(body.as_slice(), 0, 0));
    proof {
        assert(body@.subrange(0, 0) =~= Seq::<u8>::empty());
    }
    png
}

/// The scanline `y` lies inside image data of `height` scanlines.
proof fn lemma_row_bounds(len: int, height: int, y: int)
    requires
        0 <= y < height,
        0 <= len,
    ensures
        0 <= y * len,
        (y + 1) * len == y * len + len,
        (y + 1) * len <= height * len,
{
    assert(0 <= y * len) by (nonlinear_arith)
        requires
            0 <= y,
            0 <= len,
    ;
    assert((y + 1) * len == y * len + len) by (nonlinear_arith);
    assert((y + 1) * len <= height * len) by (nonlinear_arith)
        requires
            y + 1 <= height,
            0 <= len,
    ;
}

} // verus!
