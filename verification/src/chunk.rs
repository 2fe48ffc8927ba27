//! Chunks: the length-prefixed, checksummed units that a PNG file is made of.

use vstd::prelude::*;
use vstd::slice::slice_subrange;

use crate::error::EncodingError;

verus! {

/// The four-byte name of a chunk.
pub type ChunkType = [u8; 4];

/// Image header.
pub const IHDR: [u8; 4] = [73, 72, 68, 82];

/// Palette.
pub const PLTE: [u8; 4] = [80, 76, 84, 69];

/// Image data.
pub const IDAT: [u8; 4] = [73, 68, 65, 84];

/// Image trailer.
pub const IEND: [u8; 4] = [73, 69, 78, 68];

/// Transparency.
#[allow(non_upper_case_globals)]
pub const tRNS: [u8; 4] = [116, 82, 78, 83];

/// Image gamma.
#[allow(non_upper_case_globals)]
pub const gAMA: [u8; 4] = [103, 65, 77, 65];

/// Primary chromaticities and white point.
#[allow(non_upper_case_globals)]
pub const cHRM: [u8; 4] = [99, 72, 82, 77];

/// Standard RGB colour space.
#[allow(non_upper_case_globals)]
pub const sRGB: [u8; 4] = [115, 82, 71, 66];

/// Animation control.
#[allow(non_upper_case_globals)]
pub const acTL: [u8; 4] = [97, 99, 84, 76];

/// Frame control.
#[allow(non_upper_case_globals)]
pub const fcTL: [u8; 4] = [102, 99, 84, 76];

/// Frame data.
#[allow(non_upper_case_globals)]
pub const fdAT: [u8; 4] = [102, 100, 65, 84];

/// One step of the checksum's shift register: one bit leaves at the low end,
/// and the generator polynomial is folded in when that bit was set.
#[verifier::inline]
pub open spec fn crc_shift(c: u32) -> u32 {
    if c & 1 == 1 {
        (c >> 1) ^ 0xEDB8_8320u32
    } else {
        c >> 1
    }
}

/// The shift register after one more byte.
#[verifier::inline]
pub open spec fn crc_byte(c: u32, b: u8) -> u32 {
    crc_shift(crc_shift(crc_shift(crc_shift(crc_shift(crc_shift(crc_shift(crc_shift(c ^ (b as u32)))))))))
}

/// The shift register after all of `bytes`, started with all bits set.
pub open spec fn crc_register(bytes: Seq<u8>) -> u32
    decreases bytes.len(),
{
    if bytes.len() == 0 {
        0xFFFF_FFFFu32
    } else {
        crc_byte(crc_register(bytes.drop_last()), bytes.last())
    }
}

/// The CRC-32 checksum of `bytes`, as the format defines it: the register's
/// complement.
pub open spec fn crc32(bytes: Seq<u8>) -> u32 {
    !crc_register(bytes)
}

/// `crc32fast::hash` computes the CRC-32 checksum (IEEE) of a byte slice.
pub assume_specification[ crc32fast::hash ](buf: &[u8]) -> (r: u32)
    ensures
        r == crc32(buf@),
;

/// The four bytes of `x`, most significant first.
pub open spec fn be32(x: u32) -> Seq<u8> {
    seq![
        (x / 0x100_0000) as u8,
        ((x / 0x1_0000) % 0x100) as u8,
        ((x / 0x100) % 0x100) as u8,
        (x % 0x100) as u8,
    ]
}

/// The two bytes of `x`, most significant first.
pub open spec fn be16(x: u16) -> Seq<u8> {
    seq![(x / 0x100) as u8, (x % 0x100) as u8]
}

/// The bytes of one chunk: the length of the data, the name, the data, and
/// the checksum of name and data.
#[verifier::opaque]
pub open spec fn chunk_bytes(name: ChunkType, data: Seq<u8>) -> Seq<u8> {
    be32(data.len() as u32) + name@ + data + be32(crc32(name@ + data))
}

/// Appends the four bytes of `x`, most significant first.
pub fn push_be32(w: &mut Vec<u8>, x: u32)
    ensures
        final(w)@ == old(w)@ + be32(x),
{
    w.push((x / 0x100_0000) as u8);
    w.push(((x / 0x1_0000) % 0x100) as u8);
    w.push(((x / 0x100) % 0x100) as u8);
    w.push((x % 0x100) as u8);
    assert(w@ =~= old(w)@ + be32(x));
}

/// Appends the two bytes of `x`, most significant first.
pub fn push_be16(w: &mut Vec<u8>, x: u16)
    ensures
        final(w)@ == old(w)@ + be16(x),
{
    w.push((x / 0x100) as u8);
    w.push((x % 0x100) as u8);
    assert(w@ =~= old(w)@ + be16(x));
}

/// Appends one chunk to `w`: the length of `data`, the name, `data`, and the
/// checksum of name and data.
///
/// A chunk's length is a 32-bit number: longer data is refused, and nothing
/// is written.
pub fn write_chunk(w: &mut Vec<u8>, name: ChunkType, data: &[u8]) -> (r: Result<(), EncodingError>)
    ensures
        data@.len() <= u32::MAX ==> r is Ok && final(w)@ == old(w)@ + chunk_bytes(name, data@),
        data@.len() > u32::MAX ==> r is Err && r->Err_0 is LimitsExceeded && final(w)@ == old(w)@,
{
    if data.len() > u32::MAX as usize {
        return Err(EncodingError::LimitsExceeded);
    }
    reveal(chunk_bytes);
    push_be32(w, data.len() as u32);
    let start = w.len();
    w.extend_from_slice(name.as_slice());
    w.extend_from_slice(data);
    assert(w@ =~= old(w)@ + be32(data@.len() as u32) + name@ + data@);
    let crc = crc32fast::hash(slice_subrange(w.as_slice(), start, w.len()));
    assert(w@.subrange(start as int, w@.len() as int) =~= name@ + data@);
    push_be32(w, crc);
    assert(w@ =~= old(w)@ + chunk_bytes(name, data@));
    Ok(())
}

/// One chunk of a file, as the encoder makes it: a name, the sequence
/// number that the chunk carries in the first four bytes of its data if it
/// carries one, and the rest of its data.
pub struct Chunk {
    pub name: ChunkType,
    pub sequence_number: Option<u32>,
    pub body: Seq<u8>,
}

impl Chunk {
    /// The data of the chunk.
    pub open spec fn data(self) -> Seq<u8> {
        match self.sequence_number {
            Some(n) => be32(n) + self.body,
            None => self.body,
        }
    }

    /// The bytes of the chunk.
    pub open spec fn bytes(self) -> Seq<u8> {
        chunk_bytes(self.name, self.data())
    }
}

/// The bytes of a run of chunks.
pub open spec fn chunks_bytes(chunks: Seq<Chunk>) -> Seq<u8>
    decreases chunks.len(),
{
    if chunks.len() == 0 {
        Seq::<u8>::empty()
    } else {
        chunks.first().bytes() + chunks_bytes(chunks.drop_first())
    }
}

/// The sequence numbers that the chunks of a run carry, in order.
pub open spec fn sequence_numbers(chunks: Seq<Chunk>) -> Seq<u32>
    decreases chunks.len(),
{
    if chunks.len() == 0 {
        Seq::<u32>::empty()
    } else {
        (match chunks.first().sequence_number {
            Some(n) => seq![n],
            None => Seq::<u32>::empty(),
        }) + sequence_numbers(chunks.drop_first())
    }
}

/// The sequence number `n` places after `start`; after the greatest comes 0.
pub open spec fn advance(start: u32, n: int) -> u32 {
    ((start + n) % 0x1_0000_0000) as u32
}

/// The sequence number `n` places after `start`, where there is one.
pub open spec fn advance_opt(start: Option<u32>, n: int) -> Option<u32> {
    match start {
        Some(s) => Some(advance(s, n)),
        None => None,
    }
}

/// The number of pieces of at most `cap` bytes that `len` bytes are cut into.
pub open spec fn pieces(len: int, cap: int) -> int {
    (len + cap - 1) / cap
}

/// The chunks named `name` that `data` is cut into: every chunk but the last
/// holds `cap` bytes of it, and no chunk is empty. Where the chunks carry
/// sequence numbers, the first carries `sequence_number` and each one after
/// it the next number.
pub open spec fn data_chunks(
    name: ChunkType,
    data: Seq<u8>,
    cap: int,
    sequence_number: Option<u32>,
) -> Seq<Chunk>
    decreases data.len(),
{
    if data.len() == 0 || cap <= 0 {
        Seq::<Chunk>::empty()
    } else {
        let n = if data.len() < cap { data.len() as int } else { cap };
        seq![Chunk { name, sequence_number, body: data.take(n) }] + data_chunks(
            name,
            data.skip(n),
            cap,
            advance_opt(sequence_number, 1),
        )
    }
}

/// The number after `n`; after the greatest comes 0.
fn next_sequence_number(n: Option<u32>) -> (r: Option<u32>)
    ensures
        r == advance_opt(n, 1),
{
    match n {
        Some(s) => Some(s.wrapping_add(1)),
        None => None,
    }
}

/// The bytes of the chunks that `data` is cut into are those of the first
/// chunk, then those of the chunks that the rest is cut into.
pub proof fn lemma_data_chunks_step(
    name: ChunkType,
    data: Seq<u8>,
    cap: int,
    sequence_number: Option<u32>,
    n: int,
)
    requires
        data.len() > 0,
        cap >= 1,
        n == if data.len() < cap { data.len() as int } else { cap },
    ensures
        chunks_bytes(data_chunks(name, data, cap, sequence_number)) == (Chunk {
            name,
            sequence_number,
            body: data.take(n),
        }).bytes() + chunks_bytes(
            data_chunks(name, data.skip(n), cap, advance_opt(sequence_number, 1)),
        ),
{
    let chunk = Chunk { name, sequence_number, body: data.take(n) };
    let all = data_chunks(name, data, cap, sequence_number);
    let tail = data_chunks(name, data.skip(n), cap, advance_opt(sequence_number, 1));
    assert(all == seq![chunk] + tail);
    assert(all.first() == chunk);
    assert(all.drop_first() =~= tail);
}

/// Advancing twice is advancing by the sum.
pub proof fn lemma_advance_add(start: u32, a: int, b: int)
    requires
        0 <= a,
        0 <= b,
    ensures
        advance(advance(start, a), b) == advance(start, a + b),
        advance(start, 0) == start,
{
    let m = 0x1_0000_0000int;
    vstd::arithmetic::div_mod::lemma_add_mod_noop_right(b, start + a, m);
    assert((b + (start + a) % m) % m == (b + (start + a)) % m);
}

/// Appends `data` as chunks named `name` of at most `cap` bytes of it each,
/// numbered from `sequence_number` on where that is given, and returns the
/// number after the last.
pub fn write_data_chunks(
    w: &mut Vec<u8>,
    name: ChunkType,
    data: &[u8],
    cap: usize,
    sequence_number: Option<u32>,
) -> (next: Option<u32>)
    requires
        1 <= cap,
        cap + 4 <= u32::MAX,
    ensures
        final(w)@ == old(w)@ + chunks_bytes(data_chunks(name, data@, cap as int, sequence_number)),
        next == advance_opt(sequence_number, pieces(data@.len() as int, cap as int)),
{
    let ghost target = w@ + chunks_bytes(data_chunks(name, data@, cap as int, sequence_number));
    let mut pos: usize = 0;
    let mut number = sequence_number;
    let mut count: Ghost<int> = Ghost(0);
    proof {
        assert(data@.skip(0) =~= data@);
        if sequence_number is Some {
            lemma_advance_add(sequence_number->0, 0, 0);
        }
        if data@.len() == 0 {
            assert((cap - 1) / (cap as int) == 0) by (nonlinear_arith)
                requires
                    cap >= 1,
            ;
        }
    }
    while pos < data.len()
        invariant
            1 <= cap,
            cap + 4 <= u32::MAX,
            pos <= data@.len(),
            target == w@ + chunks_bytes(data_chunks(name, data@.skip(pos as int), cap as int, number)),
            number == advance_opt(sequence_number, count@),
            0 <= count@,
            pos == data@.len() ==> count@ == pieces(data@.len() as int, cap as int),
            pos < data@.len() ==> pos == count@ * cap,
        decreases data@.len() - pos,
    {
        let rest = data.len() - pos;
        let n = if rest < cap { rest } else { cap };
        let piece = slice_subrange(data, pos, pos + n);
        let ghost chunk = Chunk { name, sequence_number: number, body: piece@ };
        let ghost before = w@;
        proof {
            let remaining = data@.skip(pos as int);
            assert(remaining.take(n as int) =~= piece@);
            assert(remaining.skip(n as int) =~= data@.skip(pos + n));
            lemma_data_chunks_step(name, remaining, cap as int, number, n as int);
        }
        match number {
            Some(s) => {
                let mut payload: Vec<u8> = Vec::new();
                push_be32(&mut payload, s);
                payload.extend_from_slice(piece);
                assert(payload@ =~= chunk.data());
                let _ = write_chunk(w, name, payload.as_slice());
            },
            None => {
                let _ = write_chunk(w, name, piece);
            },
        }
        assert(w@ == before + chunk.bytes());
        proof {
            let tail = chunks_bytes(
                data_chunks(name, data@.skip(pos + n), cap as int, advance_opt(number, 1)),
            );
            assert(before + (chunk.bytes() + tail) =~= (before + chunk.bytes()) + tail);
            lemma_pieces_step(data@.len() as int, cap as int, count@, n as int);
            if sequence_number is Some {
                lemma_advance_add(sequence_number->0, count@, 1);
            }
            count@ = count@ + 1;
        }
        number = next_sequence_number(number);
        pos = pos + n;
    }
    proof {
        assert(data@.skip(pos as int) =~= Seq::<u8>::empty());
        assert(target =~= w@);
    }
    number
}

/// After `count` full pieces, one more piece of `n` bytes either ends the
/// data, which then has `count + 1` pieces, or is full itself.
proof fn lemma_pieces_step(len: int, cap: int, count: int, n: int)
    requires
        1 <= cap,
        0 <= count,
        count * cap < len,
        n == if len - count * cap < cap { len - count * cap } else { cap },
    ensures
        count * cap + n == len ==> pieces(len, cap) == count + 1,
        count * cap + n < len ==> count * cap + n == (count + 1) * cap,
{
    assert((count + 1) * cap == count * cap + cap) by (nonlinear_arith);
    if count * cap + n == len {
        let r = len - count * cap;
        assert(1 <= r <= cap);
        assert(len + cap - 1 == (count + 1) * cap + (r - 1));
        assert(((count + 1) * cap + (r - 1)) / cap == count + 1) by (nonlinear_arith)
            requires
                0 <= r - 1 < cap,
                cap >= 1,
        ;
    }
}

/// The `n` sequence numbers from `start` on.
pub open spec fn consecutive(start: u32, n: int) -> Seq<u32> {
    Seq::new(n as nat, |k: int| advance(start, k))
}

/// The bytes of two runs of chunks, one after the other, are the bytes of
/// the one and then the bytes of the other.
pub proof fn lemma_chunks_bytes_concat(a: Seq<Chunk>, b: Seq<Chunk>)
    ensures
        chunks_bytes(a + b) == chunks_bytes(a) + chunks_bytes(b),
    decreases a.len(),
{
    if a.len() == 0 {
        assert(a + b =~= b);
        assert(chunks_bytes(a) + chunks_bytes(b) =~= chunks_bytes(b));
    } else {
        lemma_chunks_bytes_concat(a.drop_first(), b);
        assert((a + b).first() == a.first());
        assert((a + b).drop_first() =~= a.drop_first() + b);
        assert(a.first().bytes() + (chunks_bytes(a.drop_first()) + chunks_bytes(b)) =~= (
        a.first().bytes() + chunks_bytes(a.drop_first())) + chunks_bytes(b));
    }
}

/// The sequence numbers of two runs of chunks, one after the other, are
/// those of the one and then those of the other.
pub proof fn lemma_sequence_numbers_concat(a: Seq<Chunk>, b: Seq<Chunk>)
    ensures
        sequence_numbers(a + b) == sequence_numbers(a) + sequence_numbers(b),
    decreases a.len(),
{
    if a.len() == 0 {
        assert(a + b =~= b);
        assert(sequence_numbers(a) + sequence_numbers(b) =~= sequence_numbers(b));
    } else {
        lemma_sequence_numbers_concat(a.drop_first(), b);
        assert((a + b).first() == a.first());
        assert((a + b).drop_first() =~= a.drop_first() + b);
        let head = match a.first().sequence_number {
            Some(n) => seq![n],
            None => Seq::<u32>::empty(),
        };
        assert(head + (sequence_numbers(a.drop_first()) + sequence_numbers(b)) =~= (head
            + sequence_numbers(a.drop_first())) + sequence_numbers(b));
    }
}

/// A run of consecutive numbers, followed by the run that starts where it
/// ends, is one run of consecutive numbers.
pub proof fn lemma_consecutive_concat(start: u32, a: int, b: int)
    requires
        0 <= a,
        0 <= b,
    ensures
        consecutive(start, a) + consecutive(advance(start, a), b) == consecutive(start, a + b),
{
    let joined = consecutive(start, a) + consecutive(advance(start, a), b);
    assert forall|k: int| 0 <= k < a + b implies joined[k] == advance(start, k) by {
        if k >= a {
            lemma_advance_add(start, a, k - a);
        }
    }
    assert(joined =~= consecutive(start, a + b));
}

/// The number of pieces of the data that is left after one piece is one
/// less.
pub proof fn lemma_pieces_rest(len: int, cap: int, n: int)
    requires
        1 <= cap,
        0 < len,
        n == if len < cap { len } else { cap },
    ensures
        pieces(len, cap) == 1 + pieces(len - n, cap),
        pieces(len - n, cap) >= 0,
{
    if len < cap {
        assert((len + cap - 1) / cap == 1) by (nonlinear_arith)
            requires
                0 < len < cap,
        ;
        assert((cap - 1) / cap == 0) by (nonlinear_arith)
            requires
                1 <= cap,
        ;
    } else {
        assert((len + cap - 1) / cap == 1 + (len - cap + cap - 1) / cap) by (nonlinear_arith)
            requires
                1 <= cap <= len,
        ;
        assert((len - cap + cap - 1) / cap >= 0) by (nonlinear_arith)
            requires
                1 <= cap <= len,
        ;
    }
}

/// The chunks that data is cut into carry consecutive sequence numbers, as
/// many as there are chunks, or none at all.
pub proof fn lemma_data_chunks_numbers(
    name: ChunkType,
    data: Seq<u8>,
    cap: int,
    sequence_number: Option<u32>,
)
    requires
        1 <= cap,
    ensures
        data_chunks(name, data, cap, sequence_number).len() == pieces(data.len() as int, cap),
        sequence_numbers(data_chunks(name, data, cap, sequence_number)) == match sequence_number {
            Some(s) => consecutive(s, pieces(data.len() as int, cap)),
            None => Seq::<u32>::empty(),
        },
    decreases data.len(),
{
    let all = data_chunks(name, data, cap, sequence_number);
    if data.len() == 0 {
        assert((cap - 1) / cap == 0) by (nonlinear_arith)
            requires
                1 <= cap,
        ;
        if sequence_number is Some {
            assert(consecutive(sequence_number->0, 0) =~= Seq::<u32>::empty());
        }
    } else {
        let n = if data.len() < cap { data.len() as int } else { cap };
        let tail = data_chunks(name, data.skip(n), cap, advance_opt(sequence_number, 1));
        lemma_data_chunks_numbers(name, data.skip(n), cap, advance_opt(sequence_number, 1));
        lemma_pieces_rest(data.len() as int, cap, n);
        assert(all.first() == Chunk { name, sequence_number, body: data.take(n) });
        assert(all.drop_first() =~= tail);
        match sequence_number {
            Some(s) => {
                let count = pieces(data.len() as int - n, cap);
                lemma_advance_add(s, 0, 0);
                assert(seq![s] =~= consecutive(s, 1));
                lemma_consecutive_concat(s, 1, count);
            },
            None => {
                assert(Seq::<u32>::empty() + Seq::<u32>::empty() =~= Seq::<u32>::empty());
            },
        }
    }
}

/// Every chunk is its length, its name, its data, and the checksum of name
/// and data: the four bytes of the number of bytes of the data come first,
/// and the four bytes of the CRC-32 of the name followed by the data come
/// last.
pub proof fn lemma_chunk_layout(name: ChunkType, data: Seq<u8>)
    requires
        data.len() <= u32::MAX,
    ensures
        chunk_bytes(name, data).len() == data.len() + 12,
        chunk_bytes(name, data).subrange(0, 4) == be32(data.len() as u32),
        chunk_bytes(name, data).subrange(4, 8) == name@,
        chunk_bytes(name, data).subrange(8, 8 + data.len() as int) == data,
        chunk_bytes(name, data).subrange(8 + data.len() as int, 12 + data.len() as int) == be32(
            crc32(name@ + data),
        ),
{
    reveal(chunk_bytes);
    let bytes = chunk_bytes(name, data);
    assert(bytes.subrange(0, 4) =~= be32(data.len() as u32));
    assert(bytes.subrange(4, 8) =~= name@);
    assert(bytes.subrange(8, 8 + data.len() as int) =~= data);
    assert(bytes.subrange(8 + data.len() as int, 12 + data.len() as int) =~= be32(crc32(name@ + data)));
}

/// The checksum of the trailer chunk, which holds no data, is `0xAE426082`.
pub proof fn lemma_end_checksum()
    ensures
        crc32(IEND@ + Seq::<u8>::empty()) == 0xAE42_6082u32,
{
    let bytes = IEND@ + Seq::<u8>::empty();
    let b3 = bytes;
    let b2 = b3.drop_last();
    let b1 = b2.drop_last();
    let b0 = b1.drop_last();
    assert(b0.drop_last().len() == 0);
    assert(crc_register(b0.drop_last()) == 0xFFFF_FFFFu32);
    assert(b0.last() == 73u8 && b1.last() == 69u8 && b2.last() == 78u8 && b3.last() == 68u8);
    assert(crc_byte(0xFFFF_FFFFu32, 73u8) == 0x22FD_E946u32) by (bit_vector);
    assert(crc_byte(0x22FD_E946u32, 69u8) == 0x992B_AC53u32) by (bit_vector);
    assert(crc_byte(0x992B_AC53u32, 78u8) == 0x639F_4775u32) by (bit_vector);
    assert(crc_byte(0x639F_4775u32, 68u8) == 0x51BD_9F7Du32) by (bit_vector);
    assert(crc_register(b0) == 0x22FD_E946u32);
    assert(crc_register(b1) == 0x992B_AC53u32);
    assert(crc_register(b2) == 0x639F_4775u32);
    assert(crc_register(b3) == 0x51BD_9F7Du32);
    assert(!0x51BD_9F7Du32 == 0xAE42_6082u32) by (bit_vector);
}

/// The trailer chunk is the same twelve bytes in every file.
pub proof fn lemma_end_chunk()
    ensures
        chunk_bytes(IEND, Seq::<u8>::empty()) == seq![
            0u8,
            0u8,
            0u8,
            0u8,
            73u8,
            69u8,
            78u8,
            68u8,
            0xAEu8,
            0x42u8,
            0x60u8,
            0x82u8,
        ],
{
    reveal(chunk_bytes);
    lemma_end_checksum();
    assert(be32(0) =~= seq![0u8, 0u8, 0u8, 0u8]);
    assert(be32(0xAE42_6082u32) =~= seq![0xAEu8, 0x42u8, 0x60u8, 0x82u8]);
    assert(IEND@ =~= seq![73u8, 69u8, 78u8, 68u8]);
    assert(chunk_bytes(IEND, Seq::<u8>::empty()) =~= seq![
        0u8,
        0u8,
        0u8,
        0u8,
        73u8,
        69u8,
        78u8,
        68u8,
        0xAEu8,
        0x42u8,
        0x60u8,
        0x82u8,
    ]);
}

} // verus!
