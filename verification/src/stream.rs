//! The streaming writer: image data arrives in pieces of any size, is put
//! together into scanlines, filtered, compressed, and cut into chunks of a
//! size chosen in advance.

use vstd::prelude::*;
use vstd::slice::{slice_subrange, slice_to_vec};

use crate::chunk::{
    advance, advance_opt, be32, chunk_bytes, chunks_bytes, consecutive, data_chunks, fcTL, fdAT,
    lemma_advance_add, lemma_chunks_bytes_concat, lemma_consecutive_concat,
    lemma_data_chunks_numbers, lemma_data_chunks_step, lemma_pieces_rest,
    lemma_sequence_numbers_concat, pieces, push_be32, sequence_numbers, Chunk, ChunkType, IDAT,
};
use crate::common::{BlendOp, BytesPerPixel, Compression, DisposeOp, FrameControl};
use crate::encoder::{
    animated, dimension_outcome, frame_input, frame_with_dimension, frame_with_position,
    lemma_row_bytes_monotonic, lemma_stride_fits_row, position_outcome, scanline,
    scanline_above, zeros, FrameStep, PartialInfo, Writer, WriterState,
};
use crate::error::{EncodingError, FormatError, FormatErrorKind};
use crate::filter::{chosen_filter, filter, filtered_row, AdaptiveFilterType, FilterType};
use crate::zlib::{
    compressor_finish, compressor_flush, compressor_input, compressor_new, compressor_options,
    compressor_write_all, zlib_finished, zlib_flushes, zlib_stream, zlib_takes, Compressor,
};

verus! {

/// The greatest number of bytes that a chunk writer holds back for one chunk.
pub const MAX_CHUNK_BUFFER: usize = 0x7FFF_FFFF;

/// What a `ChunkWriter` holds: the writer that it emits to, the number of
/// bytes of a full chunk, the bytes held back for the next chunk, and the
/// name of that chunk.
pub struct ChunkWriterState {
    pub writer: WriterState,
    pub capacity: int,
    pub pending: Seq<u8>,
    pub curr_chunk: ChunkType,
}

impl WriterState {
    /// Whether the data of the current image goes out in chunks that carry
    /// sequence numbers: for every image of an animation but the first one
    /// written, and not while a separate default image is marked.
    pub open spec fn numbers_data(self) -> bool {
        !self.sep_def_img && self.info.frame_control is Some && self.written > 0
    }

    /// The same state with the sequence number moved on by `n`.
    pub open spec fn advance_sequence(self, n: int) -> WriterState {
        match self.info.frame_control {
            Some(fc) => self.with_frame_control(
                fc.with_sequence_number(advance(fc.sequence_number, n)),
            ),
            None => self,
        }
    }
}

impl ChunkWriterState {
    /// The writer's parameters are sound, the bytes held back fit into one
    /// chunk, and a chunk has room for at least one byte of data, after its
    /// sequence number if it carries one.
    pub open spec fn wf(self) -> bool {
        &&& self.writer.wf()
        &&& 1 <= self.capacity <= MAX_CHUNK_BUFFER
        &&& self.pending.len() < self.capacity
        &&& (self.writer.info.frame_control is Some && !self.writer.sep_def_img) ==> self.capacity
            >= 5
    }

    /// The state with the bytes held back sent out as one chunk, if there
    /// are any.
    pub open spec fn flushed(self) -> ChunkWriterState {
        if self.pending.len() > 0 {
            ChunkWriterState {
                writer: self.writer.emit(chunk_bytes(self.curr_chunk, self.pending)),
                pending: Seq::<u8>::empty(),
                ..self
            }
        } else {
            self
        }
    }

    /// The state with a chunk opened where none is open: a chunk that
    /// carries a sequence number starts with the writer's number, which
    /// moves on by one.
    pub open spec fn opened(self) -> ChunkWriterState {
        if self.pending.len() == 0 && self.writer.numbers_data() {
            ChunkWriterState {
                writer: self.writer.advance_sequence(1),
                pending: be32(self.writer.info.frame_control->0.sequence_number),
                ..self
            }
        } else {
            self
        }
    }

    /// The number of bytes that one call of `write` takes of `len` bytes:
    /// as many as the open chunk has room for.
    pub open spec fn taken(self, len: int) -> int {
        let room = self.capacity - self.opened().pending.len();
        if len < room {
            len
        } else {
            room
        }
    }

    /// The state after one call of `write` with `data`: nothing changes for
    /// no data; else a chunk is opened where none is open, the bytes taken
    /// are held back, and the chunk is sent out when it is full.
    pub open spec fn written(self, data: Seq<u8>) -> ChunkWriterState {
        if data.len() == 0 {
            self
        } else {
            let open = self.opened();
            let held = ChunkWriterState {
                pending: open.pending + data.take(self.taken(data.len() as int)),
                ..open
            };
            if held.pending.len() == self.capacity {
                held.flushed()
            } else {
                held
            }
        }
    }

    /// The state after all of `data` has been written, call by call.
    pub open spec fn fed(self, data: Seq<u8>) -> ChunkWriterState
        decreases data.len(),
    {
        if data.len() == 0 || self.taken(data.len() as int) <= 0 {
            self
        } else {
            self.written(data).fed(data.skip(self.taken(data.len() as int)))
        }
    }

    /// The state after the header of the next frame has gone out: nothing
    /// is written for a frame that is plain image data; else the frame
    /// control chunk is, and the sequence number moves on by one. The data
    /// of the first image written goes into image data chunks, that of any
    /// other frame of an animation into frame data chunks.
    pub open spec fn with_header(self) -> ChunkWriterState {
        if self.writer.next_is_plain() {
            ChunkWriterState { curr_chunk: IDAT, ..self }
        } else {
            let fc = self.writer.info.frame_control->0;
            ChunkWriterState {
                writer: self.writer.emit(fc.chunk().bytes()).advance_sequence(1),
                curr_chunk: if self.writer.written == 0 {
                    IDAT
                } else {
                    fdAT
                },
                ..self
            }
        }
    }

    /// The state with the frame control `f` for the next frame, under the
    /// writer's own sequence number.
    pub open spec fn with_fctl(self, f: FrameControl) -> ChunkWriterState {
        ChunkWriterState {
            writer: self.writer.with_frame_control(
                f.with_sequence_number(self.writer.info.frame_control->0.sequence_number),
            ),
            ..self
        }
    }

    /// The state before the header of the next frame: the last chunk is
    /// out, and the frame control is that of the next frame, if one is given.
    pub open spec fn prepared(self, fctl: Option<FrameControl>) -> ChunkWriterState {
        match fctl {
            Some(f) => self.flushed().with_fctl(f),
            None => self.flushed(),
        }
    }

    /// The state with one more frame written.
    pub open spec fn counted(self) -> ChunkWriterState {
        ChunkWriterState {
            writer: WriterState { written: (self.writer.written + 1) as u64, ..self.writer },
            ..self
        }
    }

    /// Whether the next frame is more than the machine holds: its size does
    /// not fit into a `usize`, or the count of frames does not fit into 64
    /// bits.
    pub open spec fn frame_overflows(self) -> bool {
        self.writer.info.frame_bytes() > usize::MAX || self.writer.written == u64::MAX
    }
}

/// This writer is used between the actual writer and the compressor and has
/// the job of packaging the compressed data into PNG chunks, based on the
/// image metadata.
///
/// The buffer holds one chunk at a time and takes the incoming data until
/// `flush` is called or the maximum chunk size is reached. The maximum chunk
/// size is the smallest between the selected buffer size and `0x7fffffff`.
pub struct ChunkWriter {
    writer: Writer,
    buffer: Vec<u8>,
    /// keeps track of where the last byte was written
    index: usize,
    curr_chunk: ChunkType,
}

impl View for ChunkWriter {
    type V = ChunkWriterState;

    closed spec fn view(&self) -> ChunkWriterState {
        ChunkWriterState {
            writer: self.writer@,
            capacity: self.buffer@.len() as int,
            pending: self.buffer@.take(self.index as int),
            curr_chunk: self.curr_chunk,
        }
    }
}

impl ChunkWriter {
    /// The buffer holds the bytes held back and has room for more.
    pub closed spec fn inv(&self) -> bool {
        self.index < self.buffer@.len()
    }

    /// A chunk writer on `writer` with chunks of at most `buf_len` bytes,
    /// and of at most `0x7fffffff`.
    pub fn new(writer: Writer, buf_len: usize) -> (r: ChunkWriter)
        requires
            writer@.wf(),
            buf_len >= 1,
            (writer@.info.frame_control is Some && !writer@.sep_def_img) ==> buf_len >= 5,
        ensures
            r.inv(),
            r@.wf(),
            r@ == (ChunkWriterState {
                writer: writer@,
                capacity: if buf_len < MAX_CHUNK_BUFFER {
                    buf_len as int
                } else {
                    MAX_CHUNK_BUFFER as int
                },
                pending: Seq::<u8>::empty(),
                curr_chunk: if writer@.numbers_data() {
                    fdAT
                } else {
                    IDAT
                },
            }),
    {
        let curr_chunk = if writer.numbers_data() {
            fdAT
        } else {
            IDAT
        };
        let cap = if buf_len < MAX_CHUNK_BUFFER {
            buf_len
        } else {
            MAX_CHUNK_BUFFER
        };
        let buffer: Vec<u8> = vec![0u8; cap];
        assert(buffer@.take(0) =~= Seq::<u8>::empty());
        ChunkWriter { writer, buffer, index: 0, curr_chunk }
    }
}

impl ChunkWriter {
    /// Returns the size of each scanline for the next frame
    /// paired with the size of the whole frame.
    ///
    /// This is used by the `StreamWriter` to know when the scanline ends
    /// so it can filter and compress it, and also to know when to start
    /// the next one.
    pub fn next_frame_info(&self) -> (r: (usize, usize))
        requires
            self@.wf(),
            self@.writer.info.frame_bytes() <= usize::MAX,
        ensures
            r.0 == self@.writer.info.frame_row_bytes(),
            r.1 == self@.writer.info.frame_bytes(),
    {
        let info = self.writer.info();
        let (width, height) = match info.frame_control {
            Some(fctl) => (fctl.width, fctl.height),
            None => (info.width, info.height),
        };
        proof {
            lemma_row_bytes_monotonic(
                info.color_type,
                info.bit_depth,
                width as int,
                info.width as int,
            );
        }
        let in_len = info.raw_row_length_from_width(width) - 1;
        let data_size = in_len * height as usize;
        (in_len, data_size)
    }

    /// Whether a `usize` holds the size of the next frame.
    pub fn frame_size_fits(&self) -> (r: bool)
        requires
            self@.wf(),
        ensures
            r == (self@.writer.info.frame_bytes() <= usize::MAX),
    {
        let info = self.writer.info();
        let (width, height) = match info.frame_control {
            Some(fctl) => (fctl.width, fctl.height),
            None => (info.width, info.height),
        };
        proof {
            lemma_row_bytes_monotonic(
                info.color_type,
                info.bit_depth,
                width as int,
                info.width as int,
            );
        }
        let in_len = info.raw_row_length_from_width(width) - 1;
        assert(in_len * height <= 0xFFFF_FFFF_FFFF_FFFF * 0xFFFF_FFFF) by (nonlinear_arith)
            requires
                0 <= in_len <= 0xFFFF_FFFF_FFFF_FFFF,
                0 <= height <= 0xFFFF_FFFF,
        ;
        let data_size: u128 = in_len as u128 * height as u128;
        data_size <= usize::MAX as u128
    }

    /// Writes the header of the next frame, past the buffer: no chunk may
    /// be open.
    pub fn write_header(&mut self)
        requires
            old(self).inv(),
            old(self)@.wf(),
            old(self)@.pending.len() == 0,
        ensures
            final(self).inv(),
            final(self)@.wf(),
            final(self)@ == old(self)@.with_header(),
    {
        let info = self.writer.info();
        match info.frame_control {
            Some(fctl) => {
                if self.writer.sep_def_img() {
                    self.curr_chunk = IDAT;
                } else {
                    let mut data: Vec<u8> = Vec::new();
                    push_be32(&mut data, fctl.sequence_number);
                    fctl.encode_body(&mut data);
                    proof {
                        reveal(chunk_bytes);
                    }
                    let _ = self.writer.write_chunk(fcTL, data.as_slice());
                    self.writer.replace_frame_control(
                        FrameControl {
                            sequence_number: fctl.sequence_number.wrapping_add(1),
                            ..fctl
                        },
                    );
                    proof {
                        lemma_advance_add(fctl.sequence_number, 0, 0);
                    }
                    self.curr_chunk = if self.writer.written() == 0 {
                        IDAT
                    } else {
                        fdAT
                    };
                }
            },
            None => {
                self.curr_chunk = IDAT;
            },
        }
    }

    /// Set the `FrameControl` for the following frame.
    ///
    /// It ignores the sequence number of the parameter, which the writer
    /// keeps itself. The image has to be animated.
    pub fn set_fctl(&mut self, f: FrameControl)
        requires
            old(self).inv(),
            old(self)@.wf(),
            old(self)@.writer.info.frame_control is Some,
            f.fits(old(self)@.writer.info.width, old(self)@.writer.info.height),
        ensures
            final(self).inv(),
            final(self)@.wf(),
            final(self)@ == old(self)@.with_fctl(f),
    {
        let info = self.writer.info();
        if let Some(fctl) = info.frame_control {
            self.writer.replace_frame_control(
                FrameControl { sequence_number: fctl.sequence_number, ..f },
            );
        }
    }

    /// Flushes the current chunk.
    pub fn flush(&mut self)
        requires
            old(self).inv(),
            old(self)@.wf(),
        ensures
            final(self).inv(),
            final(self)@.wf(),
            final(self)@ == old(self)@.flushed(),
    {
        if self.index > 0 {
            let _ = self.writer.write_chunk(
                self.curr_chunk,
                slice_subrange(self.buffer.as_slice(), 0, self.index),
            );
            self.index = 0;
            assert(self.buffer@.take(0) =~= Seq::<u8>::empty());
        }
    }

    /// Takes as many bytes of `data` as the open chunk has room for, and
    /// returns their number. A chunk is opened where none is open, and sent
    /// out when it is full.
    pub fn write(&mut self, data: &[u8]) -> (written: usize)
        requires
            old(self).inv(),
            old(self)@.wf(),
        ensures
            final(self).inv(),
            final(self)@.wf(),
            final(self)@ == old(self)@.written(data@),
            data@.len() > 0 ==> written == old(self)@.taken(data@.len() as int) && written >= 1,
            data@.len() == 0 ==> written == 0,
    {
        if data.len() == 0 {
            return 0;
        }
        // no chunk is open: one that carries a sequence number starts with it
        if self.index == 0 && self.writer.numbers_data() {
            let info = self.writer.info();
            if let Some(fctl) = info.frame_control {
                let number = fctl.sequence_number;
                self.buffer[0] = (number / 0x100_0000) as u8;
                self.buffer[1] = ((number / 0x1_0000) % 0x100) as u8;
                self.buffer[2] = ((number / 0x100) % 0x100) as u8;
                self.buffer[3] = (number % 0x100) as u8;
                self.writer.replace_frame_control(
                    FrameControl { sequence_number: number.wrapping_add(1), ..fctl },
                );
                self.index = 4;
                assert(self.buffer@.take(4) =~= be32(number));
                proof {
                    lemma_advance_add(number, 0, 0);
                }
            }
        }
        let ghost open = old(self)@.opened();
        assert(self@ == open);

        // cap the length to the number of bytes that the chunk can still take
        let room = self.buffer.len() - self.index;
        let written = if data.len() < room {
            data.len()
        } else {
            room
        };
        let start = self.index;
        let mut k: usize = 0;
        while k < written
            invariant
                k <= written,
                start + written <= self.buffer@.len(),
                written <= data@.len(),
                self.index == start,
                self.buffer@.len() <= usize::MAX,
                self.writer@ == open.writer,
                self.curr_chunk == open.curr_chunk,
                self.buffer@.len() == open.capacity,
                self.buffer@.take(start as int) == open.pending,
                forall|j: int| 0 <= j < k ==> self.buffer@[start + j] == data@[j],
            decreases written - k,
        {
            let ghost before = self.buffer@;
            self.buffer[start + k] = data[k];
            assert(self.buffer@.take(start as int) =~= before.take(start as int));
            k += 1;
        }
        self.index = start + written;
        assert(self.buffer@.take(self.index as int) =~= open.pending + data@.take(written as int));

        // a chunk that is full is sent out
        if self.index == self.buffer.len() {
            let _ = self.writer.write_chunk(self.curr_chunk, self.buffer.as_slice());
            assert(self.buffer@.take(self.index as int) =~= self.buffer@);
            self.index = 0;
            assert(self.buffer@.take(0) =~= Seq::<u8>::empty());
        }
        written
    }

    /// Writes all of `data`, call by call.
    pub fn write_all(&mut self, data: &[u8])
        requires
            old(self).inv(),
            old(self)@.wf(),
        ensures
            final(self).inv(),
            final(self)@.wf(),
            final(self)@ == old(self)@.fed(data@),
    {
        let ghost target = self@.fed(data@);
        let mut pos: usize = 0;
        assert(data@.skip(0) =~= data@);
        while pos < data.len()
            invariant
                pos <= data@.len(),
                self.inv(),
                self@.wf(),
                target == self@.fed(data@.skip(pos as int)),
            decreases data@.len() - pos,
        {
            let rest = slice_subrange(data, pos, data.len());
            assert(rest@ =~= data@.skip(pos as int));
            let n = self.write(rest);
            assert(rest@.skip(n as int) =~= data@.skip(pos + n));
            pos = pos + n;
        }
        assert(data@.skip(pos as int) =~= Seq::<u8>::empty());
    }

    /// Gives up the chunk writer for the writer that it emits to; the bytes
    /// held back go out as a last chunk.
    pub fn into_writer(self) -> (writer: Writer)
        requires
            self.inv(),
            self@.wf(),
        ensures
            writer@.wf(),
            writer@ == self@.flushed().writer,
    {
        let mut this = self;
        this.flush();
        this.writer
    }
}

impl ChunkWriter {
    /// The bytes emitted since they were last taken.
    pub fn take_output(&mut self) -> (bytes: Vec<u8>)
        requires
            old(self).inv(),
        ensures
            final(self).inv(),
            bytes@ == old(self)@.writer.out,
            final(self)@ == (ChunkWriterState {
                writer: WriterState { out: Seq::<u8>::empty(), ..old(self)@.writer },
                ..old(self)@
            }),
    {
        self.writer.take_output()
    }
}

/// What stands between a `StreamWriter` and the file.
pub enum Stage {
    /// The chunk sink alone, between two frames.
    Bare(ChunkWriterState),
    /// A compressor made with the given options, on which the given calls
    /// have been made, before the chunk sink.
    Active(deflate::CompressionOptions, Seq<Option<Seq<u8>>>, ChunkWriterState),
    /// The chunk sink after the compressor has failed.
    Poisoned(ChunkWriterState),
    /// Nothing: the stage has been taken.
    Empty,
}

impl Stage {
    /// The chunk sink of the stage.
    pub open spec fn sink(self) -> ChunkWriterState {
        match self {
            Stage::Bare(s) => s,
            Stage::Active(_, _, s) => s,
            Stage::Poisoned(s) => s,
            Stage::Empty => arbitrary(),
        }
    }

    /// The same stage before another chunk sink.
    pub open spec fn with_sink(self, s: ChunkWriterState) -> Stage {
        match self {
            Stage::Bare(_) => Stage::Bare(s),
            Stage::Active(o, i, _) => Stage::Active(o, i, s),
            Stage::Poisoned(_) => Stage::Poisoned(s),
            Stage::Empty => Stage::Empty,
        }
    }
}

/// This enum allows the `StreamWriter` to keep its `ChunkWriter` with or
/// without a compressor before it, and to keep it when the compressor has
/// failed: resuming a compressed stream after a failure would corrupt the
/// output, so that state is final.
pub enum Wrapper {
    Chunk(ChunkWriter),
    Zlib(Compressor, ChunkWriter),
    Unrecoverable(ChunkWriter),
    /// This is used in-between, and never met from outside.
    Empty,
}

impl View for Wrapper {
    type V = Stage;

    closed spec fn view(&self) -> Stage {
        match self {
            Wrapper::Chunk(cw) => Stage::Bare(cw@),
            Wrapper::Zlib(c, cw) => Stage::Active(
                compressor_options(*c),
                compressor_input(*c),
                cw@,
            ),
            Wrapper::Unrecoverable(cw) => Stage::Poisoned(cw@),
            Wrapper::Empty => Stage::Empty,
        }
    }
}

impl Wrapper {
    /// The chunk writer inside holds what it needs to.
    pub closed spec fn inv(&self) -> bool {
        match self {
            Wrapper::Chunk(cw) => cw.inv(),
            Wrapper::Zlib(_, cw) => cw.inv(),
            Wrapper::Unrecoverable(cw) => cw.inv(),
            Wrapper::Empty => true,
        }
    }

    /// Like `Option::take` this returns the `Wrapper` contained
    /// in `self` and replaces it with `Wrapper::Empty`.
    pub fn take(&mut self) -> (r: Wrapper)
        ensures
            r == *old(self),
            *final(self) == Wrapper::Empty,
    {
        let mut swap = Wrapper::Empty;
        core::mem::swap(self, &mut swap);
        swap
    }
}

/// What a `StreamWriter` holds.
pub struct StreamWriterState {
    pub stage: Stage,
    /// The scanline that the next one is filtered against
    pub prev: Seq<u8>,
    /// The scanline that is being put together
    pub curr: Seq<u8>,
    /// The number of bytes of the current scanline that are there
    pub index: int,
    /// The length of a scanline of the current frame
    pub line_len: int,
    /// The number of bytes that the current frame still lacks
    pub to_write: int,
    /// The number of scanlines that the current frame still lacks, with
    /// the one that is being put together
    pub rows: int,
    /// Whether the current frame is the last
    pub end: bool,
    pub width: u32,
    pub height: u32,
    pub bpp: BytesPerPixel,
    pub filter: FilterType,
    pub adaptive_filter: AdaptiveFilterType,
    /// The frame control of the next frame
    pub fctl: Option<FrameControl>,
    pub compression: Compression,
}

impl StreamWriterState {
    /// The stage is there and its chunk sink is sound; the scanline buffers
    /// are as long as a scanline of the current frame, which holds at least
    /// one pixel; what the frame lacks is a whole number of scanlines past
    /// the current one; the frame control is there for an animation only,
    /// for a frame inside the image.
    pub open spec fn wf(self) -> bool {
        let sink = self.stage.sink();
        &&& !(self.stage is Empty)
        &&& sink.wf()
        &&& sink.writer.info.width == self.width
        &&& sink.writer.info.height == self.height
        &&& self.bpp.value() == sink.writer.info.stride()
        &&& self.prev.len() == self.line_len
        &&& self.curr.len() == self.line_len
        &&& 1 <= self.bpp.value() <= self.line_len
        &&& 0 <= self.index < self.line_len
        &&& 0 <= self.to_write <= usize::MAX
        &&& 0 <= self.rows
        &&& self.to_write + self.index == self.rows * self.line_len
        &&& self.fctl is Some <==> sink.writer.info.frame_control is Some
        &&& self.fctl matches Some(f) ==> f.fits(self.width, self.height)
    }
}

/// Streaming PNG writer
///
/// Image data is written to it piece by piece. What it emits goes to the
/// writer that it was made from, and is taken from there with `take_output`.
pub struct StreamWriter {
    writer: Wrapper,
    prev_buf: Vec<u8>,
    curr_buf: Vec<u8>,
    /// Amount of data already written
    index: usize,
    /// length of the current scanline
    line_len: usize,
    /// size of the frame (width * height * sample_size)
    to_write: usize,
    rows: Ghost<int>,
    /// Flag used to signal the end of the image
    end: bool,
    width: u32,
    height: u32,
    bpp: BytesPerPixel,
    filter: FilterType,
    adaptive_filter: AdaptiveFilterType,
    fctl: Option<FrameControl>,
    compression: Compression,
}

impl View for StreamWriter {
    type V = StreamWriterState;

    closed spec fn view(&self) -> StreamWriterState {
        StreamWriterState {
            stage: self.writer@,
            prev: self.prev_buf@,
            curr: self.curr_buf@,
            index: self.index as int,
            line_len: self.line_len as int,
            to_write: self.to_write as int,
            rows: self.rows@,
            end: self.end,
            width: self.width,
            height: self.height,
            bpp: self.bpp,
            filter: self.filter,
            adaptive_filter: self.adaptive_filter,
            fctl: self.fctl,
            compression: self.compression,
        }
    }
}

impl WriterState {
    /// Why no stream writer is made from a writer, if none is: more frames
    /// are written than the image holds, or no `usize` holds the size of the
    /// next frame.
    pub open spec fn stream_refusal(self) -> Option<EncodingError> {
        if self.max_frames() < self.written {
            Some(EncodingError::Format(FormatError::spec_new(FormatErrorKind::EndReached)))
        } else if self.info.frame_bytes() > usize::MAX {
            Some(EncodingError::LimitsExceeded)
        } else {
            None
        }
    }

    /// Whether a chunk of `size` bytes has room for data: for one byte, after
    /// the sequence number where the image is animated.
    pub open spec fn chunk_size_fits(self, size: int) -> bool {
        &&& size >= 1
        &&& (self.info.frame_control is Some && !self.sep_def_img) ==> size >= 5
    }

    /// The state of the stream writer made from the writer, with chunks of at
    /// most `size` bytes: the header of the first frame is out, a compressor
    /// is ready, and the scanline above the first is zeros.
    pub open spec fn streaming(self, size: int) -> StreamWriterState {
        let capacity = if size < MAX_CHUNK_BUFFER { size } else { MAX_CHUNK_BUFFER as int };
        let sink = ChunkWriterState {
            writer: self,
            capacity,
            pending: Seq::<u8>::empty(),
            curr_chunk: if self.numbers_data() { fdAT } else { IDAT },
        };
        StreamWriterState {
            stage: Stage::Active(
                self.info.compression.options(),
                Seq::<Option<Seq<u8>>>::empty(),
                sink.with_header(),
            ),
            prev: zeros(self.info.frame_row_bytes()),
            curr: zeros(self.info.frame_row_bytes()),
            index: 0,
            line_len: self.info.frame_row_bytes(),
            to_write: self.info.frame_bytes(),
            rows: self.info.frame_height() as int,
            end: false,
            width: self.info.width,
            height: self.info.height,
            bpp: BytesPerPixel::of(self.info.stride()),
            filter: self.filter,
            adaptive_filter: self.adaptive_filter,
            fctl: self.info.frame_control,
            compression: self.info.compression,
        }
    }
}

impl ChunkWriter {
    /// The writer that the chunks go to.
    pub(crate) fn writer(&self) -> (w: &Writer)
        ensures
            w@ == self@.writer,
    {
        &self.writer
    }

    /// Counts one more frame as written.
    pub(crate) fn count_frame(&mut self)
        requires
            old(self).inv(),
            old(self)@.wf(),
            old(self)@.writer.written < u64::MAX,
        ensures
            final(self).inv(),
            final(self)@.wf(),
            final(self)@ == (ChunkWriterState {
                writer: WriterState {
                    written: (old(self)@.writer.written + 1) as u64,
                    ..old(self)@.writer
                },
                ..old(self)@
            }),
    {
        self.writer.count_frame();
    }
}

impl ChunkWriter {
    /// Begins the next frame: the last chunk goes out, the frame control
    /// becomes `fctl` where one is given, the frame counts as written, and
    /// its header goes out. Returns the length of a scanline of the frame,
    /// the size of the frame, and whether the frame is the last: whether the
    /// image holds exactly one more frame than are written. Returns nothing,
    /// and goes no further than the frame control, where the frame is more
    /// than the machine holds.
    pub fn begin_frame(&mut self, fctl: Option<FrameControl>) -> (r: Option<(usize, usize, bool)>)
        requires
            old(self).inv(),
            old(self)@.wf(),
            fctl is Some <==> old(self)@.writer.info.frame_control is Some,
            fctl matches Some(f) ==> f.fits(
                old(self)@.writer.info.width,
                old(self)@.writer.info.height,
            ),
        ensures
            final(self).inv(),
            final(self)@.wf(),
            final(self)@.capacity == old(self)@.capacity,
            final(self)@.writer.info.width == old(self)@.writer.info.width,
            final(self)@.writer.info.height == old(self)@.writer.info.height,
            final(self)@.writer.info.color_type == old(self)@.writer.info.color_type,
            final(self)@.writer.info.bit_depth == old(self)@.writer.info.bit_depth,
            final(self)@.writer.info.frame_control is Some <==> fctl is Some,
            match r {
                Some(frame) => {
                    let sink = old(self)@.prepared(fctl);
                    &&& !sink.frame_overflows()
                    &&& final(self)@ == sink.counted().with_header()
                    &&& frame.0 == sink.writer.info.frame_row_bytes()
                    &&& frame.1 == sink.writer.info.frame_bytes()
                    &&& frame.2 == (sink.counted().writer.written + 1
                        == sink.counted().writer.max_frames())
                    &&& 1 <= frame.0 <= sink.writer.info.row_bytes(sink.writer.info.width as int)
                    &&& frame.1 == sink.writer.info.frame_height() * frame.0
                    &&& frame.1 >= 1
                    &&& old(self)@.writer.info.stride() <= frame.0
                    &&& final(self)@.writer.info.frame_height() == sink.writer.info.frame_height()
                },
                None => old(self)@.prepared(fctl).frame_overflows() && final(self)@
                    == old(self)@.prepared(fctl),
            },
    {
        self.flush();
        if let Some(f) = fctl {
            self.set_fctl(f);
        }
        if !self.frame_size_fits() || self.writer.written() == u64::MAX {
            return None;
        }
        let (scansize, size) = self.next_frame_info();
        let ghost info = self@.writer.info;
        proof {
            lemma_row_bytes_monotonic(
                info.color_type,
                info.bit_depth,
                info.frame_width() as int,
                info.width as int,
            );
            assert(info.frame_bytes() == info.frame_height() * info.frame_row_bytes())
                by (nonlinear_arith)
                requires
                    info.frame_bytes() == info.frame_row_bytes() * info.frame_height(),
            ;
            assert(info.frame_height() * info.frame_row_bytes() >= 1) by (nonlinear_arith)
                requires
                    info.frame_height() >= 1,
                    info.frame_row_bytes() >= 1,
            ;
            lemma_stride_fits_row(info, info.frame_width() as int);
        }
        self.count_frame();
        let written = self.writer.written();
        let max_frames = self.writer.max_frames();
        let end = max_frames > 0 && written == max_frames - 1;
        self.write_header();
        Some((scansize, size, end))
    }
}

impl Writer {
    /// Whether a chunk of `size` bytes has room for data: for one byte, after
    /// the sequence number where the image is animated.
    pub fn chunk_size_fits(&self, size: usize) -> (r: bool)
        ensures
            r == self@.chunk_size_fits(size as int),
    {
        let info = self.info();
        size >= 1 && (size >= 5 || info.frame_control.is_none() || self.sep_def_img())
    }

    /// Why no stream writer is made from this writer, if none is.
    pub fn check_stream(&self) -> (r: Result<(), EncodingError>)
        requires
            self@.wf(),
        ensures
            match r {
                Ok(()) => self@.stream_refusal() is None,
                Err(e) => self@.stream_refusal() == Some(e),
            },
    {
        if self.max_frames() < self.written() {
            return Err(EncodingError::format(FormatErrorKind::EndReached));
        }
        let info = self.info();
        let (width, height) = match info.frame_control {
            Some(fctl) => (fctl.width, fctl.height),
            None => (info.width, info.height),
        };
        proof {
            lemma_row_bytes_monotonic(
                info.color_type,
                info.bit_depth,
                width as int,
                info.width as int,
            );
        }
        let in_len = info.raw_row_length_from_width(width) - 1;
        assert(in_len * height <= 0xFFFF_FFFF_FFFF_FFFF * 0xFFFF_FFFF) by (nonlinear_arith)
            requires
                0 <= in_len <= 0xFFFF_FFFF_FFFF_FFFF,
                0 <= height <= 0xFFFF_FFFF,
        ;
        let data_size: u128 = in_len as u128 * height as u128;
        if data_size > usize::MAX as u128 {
            return Err(EncodingError::LimitsExceeded);
        }
        Ok(())
    }

    /// Turn this into a stream writer with custom buffer size.
    ///
    /// The writer is refused as `stream_refusal` says. A chunk has to have
    /// room for data: `size` is at least 1, and at least 5 for an animation.
    pub fn into_stream_writer_with_size(self, size: usize) -> (r: Result<
        StreamWriter,
        EncodingError,
    >)
        requires
            self@.wf(),
            self@.chunk_size_fits(size as int),
        ensures
            match r {
                Ok(stream) => self@.stream_refusal() is None && stream.inv() && stream@.wf()
                    && stream@ == self@.streaming(size as int),
                Err(e) => self@.stream_refusal() == Some(e),
            },
    {
        StreamWriter::new(self, size)
    }

    /// Turn this into a stream writer for image data.
    ///
    /// This allows you to create images that do not fit in memory. The default
    /// chunk size is 4K, use `into_stream_writer_with_size` to set another
    /// chunk size.
    pub fn into_stream_writer(self) -> (r: Result<StreamWriter, EncodingError>)
        requires
            self@.wf(),
        ensures
            match r {
                Ok(stream) => self@.stream_refusal() is None && stream.inv() && stream@.wf()
                    && stream@ == self@.streaming(DEFAULT_BUFFER_LENGTH as int),
                Err(e) => self@.stream_refusal() == Some(e),
            },
    {
        StreamWriter::new(self, DEFAULT_BUFFER_LENGTH)
    }
}

/// The number of bytes of a chunk where no other is asked for.
pub const DEFAULT_BUFFER_LENGTH: usize = 4096;

impl StreamWriter {
    /// The chunk writer inside holds what it needs to.
    pub closed spec fn inv(&self) -> bool {
        self.writer.inv()
    }

    fn new(writer: Writer, buf_len: usize) -> (r: Result<StreamWriter, EncodingError>)
        requires
            writer@.wf(),
            writer@.chunk_size_fits(buf_len as int),
        ensures
            match r {
                Ok(stream) => writer@.stream_refusal() is None && stream.inv() && stream@.wf()
                    && stream@ == writer@.streaming(buf_len as int),
                Err(e) => writer@.stream_refusal() == Some(e),
            },
    {
        match writer.check_stream() {
            Ok(()) => {},
            Err(e) => {
                return Err(e);
            },
        }
        let info = writer.info();
        let width = info.width;
        let height = info.height;
        let fctl = info.frame_control;
        let compression = info.compression;

        let bpp = info.bpp_in_prediction();
        let filter = writer.filter_type();
        let adaptive_filter = writer.adaptive_filter_type();

        let mut chunk_writer = ChunkWriter::new(writer, buf_len);
        let (line_len, to_write) = chunk_writer.next_frame_info();
        let prev_buf: Vec<u8> = vec![0u8; line_len];
        let curr_buf: Vec<u8> = vec![0u8; line_len];
        assert(prev_buf@ =~= zeros(line_len as int));
        assert(curr_buf@ =~= zeros(line_len as int));
        chunk_writer.write_header();
        let zlib = compressor_new(compression.to_options());
        proof {
            lemma_row_bytes_monotonic(
                info.color_type,
                info.bit_depth,
                info.frame_width() as int,
                info.width as int,
            );
            lemma_stride_fits_row(info, info.frame_width() as int);
            assert(info.frame_bytes() == info.frame_height() * info.frame_row_bytes())
                by (nonlinear_arith)
                requires
                    info.frame_bytes() == info.frame_row_bytes() * info.frame_height(),
            ;
        }
        Ok(
            StreamWriter {
                writer: Wrapper::Zlib(zlib, chunk_writer),
                index: 0,
                prev_buf,
                curr_buf,
                end: false,
                bpp,
                filter,
                width,
                height,
                adaptive_filter,
                line_len,
                to_write,
                rows: Ghost(info.frame_height() as int),
                fctl,
                compression,
            },
        )
    }
}

impl StreamWriterState {
    /// The chunk sink after the compressor's stream, if a compressor is
    /// there, has gone into it.
    pub open spec fn drained_sink(self) -> ChunkWriterState {
        match self.stage {
            Stage::Active(o, i, s) => s.fed(zlib_stream(o, i)),
            other => other.sink(),
        }
    }

    /// The chunk sink before the header of the next frame: the compressor's
    /// stream is in, the last chunk is out, and the frame control is that of
    /// the next frame.
    pub open spec fn next_sink(self) -> ChunkWriterState {
        self.drained_sink().prepared(self.fctl)
    }

    /// Whether the next frame is more than the machine holds.
    pub open spec fn frame_overflows(self) -> bool {
        self.next_sink().frame_overflows()
    }

    /// The state after the next frame has been begun: the stream of the
    /// frame before is out, the next frame counts as written, its header is
    /// out, a new compressor is ready, and the scanline above the first is
    /// zeros. The frame is the last if the image holds exactly one more than
    /// are written.
    pub open spec fn begun(self) -> StreamWriterState {
        let sink = self.next_sink();
        let counted = sink.counted();
        StreamWriterState {
            stage: Stage::Active(
                self.compression.options(),
                Seq::<Option<Seq<u8>>>::empty(),
                counted.with_header(),
            ),
            prev: zeros(sink.writer.info.frame_row_bytes()),
            curr: zeros(sink.writer.info.frame_row_bytes()),
            line_len: sink.writer.info.frame_row_bytes(),
            to_write: sink.writer.info.frame_bytes(),
            rows: sink.writer.info.frame_height() as int,
            end: counted.writer.written + 1 == counted.writer.max_frames(),
            ..self
        }
    }

    /// The number of bytes that one call of `write` takes of `len` bytes:
    /// as many as the current scanline lacks.
    pub open spec fn copied(self, len: int) -> int {
        if len < self.line_len - self.index {
            len
        } else {
            self.line_len - self.index
        }
    }

    /// The current scanline with the bytes taken of `data` put into it.
    pub open spec fn line_with(self, data: Seq<u8>) -> Seq<u8> {
        let n = self.copied(data.len() as int);
        self.curr.take(self.index) + data.take(n) + self.curr.skip(self.index + n)
    }

    /// Whether the bytes taken of `data` complete the current scanline.
    pub open spec fn completes(self, data: Seq<u8>) -> bool {
        self.index + self.copied(data.len() as int) == self.line_len
    }

    /// The filter applied to the current scanline once `data` has completed
    /// it.
    pub open spec fn line_filter(self, data: Seq<u8>) -> FilterType {
        chosen_filter(
            self.filter,
            self.adaptive_filter,
            self.bpp.value(),
            self.prev,
            self.line_with(data),
        )
    }

    /// The current scanline, completed by `data`, filtered against the
    /// unfiltered scanline above.
    pub open spec fn line_filtered(self, data: Seq<u8>) -> Seq<u8> {
        filtered_row(self.line_filter(data), self.bpp.value(), self.prev, self.line_with(data))
    }

    /// Whether the compressor, if one is there, takes the scanline that
    /// `data` completes: the tag of its filter, and then the filtered
    /// scanline. This holds also where `data` completes no scanline.
    pub open spec fn takes_scanline(self, data: Seq<u8>) -> bool {
        match self.stage {
            Stage::Active(o, i, _) => self.completes(data) ==> {
                let tag = seq![self.line_filter(data).tag()];
                zlib_takes(o, i, tag) && zlib_takes(o, i.push(Some(tag)), self.line_filtered(data))
            },
            _ => true,
        }
    }

    /// The state after the bytes taken of `data` have been put into the
    /// current scanline. A scanline that is complete is filtered against the
    /// unfiltered scanline above, and the tag of the filter and the filtered
    /// bytes go to the compressor; the scanline, as it was written, then is
    /// the one above.
    pub open spec fn taken_in(self, data: Seq<u8>) -> StreamWriterState {
        let n = self.copied(data.len() as int);
        let line = self.line_with(data);
        if self.completes(data) {
            StreamWriterState {
                stage: match self.stage {
                    Stage::Active(o, i, s) => Stage::Active(
                        o,
                        i.push(Some(seq![self.line_filter(data).tag()])).push(
                            Some(self.line_filtered(data)),
                        ),
                        s,
                    ),
                    other => other,
                },
                prev: line,
                curr: self.prev,
                index: 0,
                to_write: self.to_write - n,
                rows: self.rows - 1,
                ..self
            }
        } else {
            StreamWriterState {
                curr: line,
                index: self.index + n,
                to_write: self.to_write - n,
                ..self
            }
        }
    }

    /// The state after the compressor has failed on the scanline that `data`
    /// completes: the stage is poisoned, and the scanline is dropped.
    pub open spec fn scanline_lost(self, data: Seq<u8>) -> StreamWriterState {
        StreamWriterState {
            stage: Stage::Poisoned(self.stage.sink()),
            curr: self.line_with(data),
            index: 0,
            to_write: self.to_write - self.copied(data.len() as int),
            rows: self.rows - 1,
            ..self
        }
    }

    /// The same state with the stage poisoned.
    pub open spec fn poisoned(self) -> StreamWriterState {
        StreamWriterState { stage: Stage::Poisoned(self.stage.sink()), ..self }
    }

    /// Whether the compressor, if one is there, ends its stream.
    pub open spec fn ends_frame(self) -> bool {
        self.stage matches Stage::Active(o, i, _) ==> zlib_finished(o, i) is Some
    }

    /// Whether the compressor, if one is there, ends its current block when
    /// it is flushed.
    pub open spec fn flushes(self) -> bool {
        self.stage matches Stage::Active(o, i, _) ==> zlib_flushes(o, i)
    }

    /// The state after the compressor, if one is there, has been told to
    /// end its current block.
    pub open spec fn synced(self) -> StreamWriterState {
        StreamWriterState {
            stage: match self.stage {
                Stage::Active(o, i, s) => Stage::Active(o, i.push(None), s),
                other => other,
            },
            ..self
        }
    }

    /// What is left of the stream writer when it is given up: the writer
    /// behind the chunk sink, after the last chunk has gone out. Before that
    /// the compressor, if one is there, is told to end its block and is
    /// finished, and its stream goes into the chunk sink; its stream is left
    /// out only where the compressor fails at one of the two.
    pub open spec fn closed(self) -> WriterState {
        match self.stage {
            Stage::Active(o, i, s) => if zlib_flushes(o, i) && zlib_finished(o, i.push(None))
                is Some {
                s.fed(zlib_stream(o, i.push(None))).flushed().writer
            } else {
                s.flushed().writer
            },
            other => other.sink().flushed().writer,
        }
    }

    /// What becomes of the state when an attribute of the next frames is
    /// set: `change` says what becomes of the frame control. An image that
    /// is not animated has none, and the call fails with `NotAnimated`.
    pub open spec fn frame_change(
        self,
        r: Result<(), EncodingError>,
        after: StreamWriterState,
        change: spec_fn(FrameControl) -> Result<FrameControl, FormatErrorKind>,
    ) -> bool {
        match self.fctl {
            Some(fc) => match change(fc) {
                Ok(next) => r is Ok && after == (StreamWriterState { fctl: Some(next), ..self }),
                Err(kind) => r is Err && r->Err_0.is_format(kind) && after == self,
            },
            None => r is Err && r->Err_0.is_format(FormatErrorKind::NotAnimated) && after == self,
        }
    }
}

impl StreamWriter {
    /// Set the used filter type for the next frame.
    ///
    /// The default filter is [`FilterType::Sub`] which provides a basic prediction algorithm for
    /// sample values based on the previous. For a potentially better compression ratio, at the
    /// cost of more complex processing, try out [`FilterType::Paeth`].
    pub fn set_filter(&mut self, filter: FilterType)
        ensures
            final(self).inv() == old(self).inv(),
            final(self)@ == (StreamWriterState { filter, ..old(self)@ }),
    {
        self.filter = filter;
    }

    /// Set the adaptive filter type for the next frame.
    ///
    /// Adaptive filtering attempts to select the best filter for each line
    /// based on heuristics which minimize the file size for compression rather
    /// than use a single filter for the entire image. The default method is
    /// [`AdaptiveFilterType::NonAdaptive`].
    pub fn set_adaptive_filter(&mut self, adaptive_filter: AdaptiveFilterType)
        ensures
            final(self).inv() == old(self).inv(),
            final(self)@ == (StreamWriterState { adaptive_filter, ..old(self)@ }),
    {
        self.adaptive_filter = adaptive_filter;
    }

    /// Set the fraction of time the following frames are going to be displayed,
    /// in seconds
    ///
    /// If the denominator is 0, it is to be treated as if it were 100
    /// (that is, the numerator then specifies 1/100ths of a second).
    /// If the the value of the numerator is 0 the decoder should render the next frame
    /// as quickly as possible, though viewers may impose a reasonable lower bound.
    ///
    /// This method will return an error if the image is not animated.
    pub fn set_frame_delay(&mut self, numerator: u16, denominator: u16) -> (r: Result<
        (),
        EncodingError,
    >)
        requires
            old(self).inv(),
            old(self)@.wf(),
        ensures
            final(self).inv(),
            final(self)@.wf(),
            old(self)@.frame_change(
                r,
                final(self)@,
                |fc: FrameControl|
                    Ok(FrameControl { delay_num: numerator, delay_den: denominator, ..fc }),
            ),
    {
        let fctl = animated(self.fctl)?;
        self.fctl = Some(FrameControl { delay_num: numerator, delay_den: denominator, ..fctl });
        Ok(())
    }

    /// Set the dimension of the following frames.
    ///
    /// This function will return an error when:
    /// - The image is not an animated;
    ///
    /// - The selected dimension, considering also the current frame position,
    ///   goes outside the image boundaries;
    ///
    /// - One or both the width and height are 0;
    pub fn set_frame_dimension(&mut self, width: u32, height: u32) -> (r: Result<
        (),
        EncodingError,
    >)
        requires
            old(self).inv(),
            old(self)@.wf(),
        ensures
            final(self).inv(),
            final(self)@.wf(),
            old(self)@.frame_change(
                r,
                final(self)@,
                |fc: FrameControl|
                    dimension_outcome(fc, old(self)@.width, old(self)@.height, width, height),
            ),
    {
        let fctl = animated(self.fctl)?;
        let next = frame_with_dimension(fctl, self.width, self.height, width, height)?;
        self.fctl = Some(next);
        Ok(())
    }

    /// Set the position of the following frames.
    ///
    /// An error will be returned if:
    /// - The image is not animated;
    ///
    /// - The selected position, considering also the current frame dimension,
    ///   goes outside the image boundaries;
    pub fn set_frame_position(&mut self, x: u32, y: u32) -> (r: Result<(), EncodingError>)
        requires
            old(self).inv(),
            old(self)@.wf(),
        ensures
            final(self).inv(),
            final(self)@.wf(),
            old(self)@.frame_change(
                r,
                final(self)@,
                |fc: FrameControl| position_outcome(fc, old(self)@.width, old(self)@.height, x, y),
            ),
    {
        let fctl = animated(self.fctl)?;
        let next = frame_with_position(fctl, self.width, self.height, x, y)?;
        self.fctl = Some(next);
        Ok(())
    }

    /// Set the frame dimension to occupy all the image, starting from
    /// the current position.
    ///
    /// To reset the frame to the full image size [`reset_frame_position`]
    /// should be called first.
    ///
    /// This method will return an error if the image is not animated.
    pub fn reset_frame_dimension(&mut self) -> (r: Result<(), EncodingError>)
        requires
            old(self).inv(),
            old(self)@.wf(),
        ensures
            final(self).inv(),
            final(self)@.wf(),
            old(self)@.frame_change(
                r,
                final(self)@,
                |fc: FrameControl|
                    Ok(
                        FrameControl {
                            width: (old(self)@.width - fc.x_offset) as u32,
                            height: (old(self)@.height - fc.y_offset) as u32,
                            ..fc
                        },
                    ),
            ),
    {
        let fctl = animated(self.fctl)?;
        self.fctl = Some(
            FrameControl {
                width: self.width - fctl.x_offset,
                height: self.height - fctl.y_offset,
                ..fctl
            },
        );
        Ok(())
    }

    /// Set the frame position to (0, 0).
    ///
    /// Equivalent to calling [`set_frame_position(0, 0)`].
    ///
    /// This method will return an error if the image is not animated.
    pub fn reset_frame_position(&mut self) -> (r: Result<(), EncodingError>)
        requires
            old(self).inv(),
            old(self)@.wf(),
        ensures
            final(self).inv(),
            final(self)@.wf(),
            old(self)@.frame_change(
                r,
                final(self)@,
                |fc: FrameControl| Ok(FrameControl { x_offset: 0, y_offset: 0, ..fc }),
            ),
    {
        let fctl = animated(self.fctl)?;
        self.fctl = Some(FrameControl { x_offset: 0, y_offset: 0, ..fctl });
        Ok(())
    }

    /// Set the blend operation for the following frames.
    ///
    /// The blend operation specifies whether the frame is to be alpha blended
    /// into the current output buffer content, or whether it should completely
    /// replace its region in the output buffer.
    ///
    /// This method will return an error if the image is not animated.
    pub fn set_blend_op(&mut self, op: BlendOp) -> (r: Result<(), EncodingError>)
        requires
            old(self).inv(),
            old(self)@.wf(),
        ensures
            final(self).inv(),
            final(self)@.wf(),
            old(self)@.frame_change(
                r,
                final(self)@,
                |fc: FrameControl| Ok(FrameControl { blend_op: op, ..fc }),
            ),
    {
        let fctl = animated(self.fctl)?;
        self.fctl = Some(FrameControl { blend_op: op, ..fctl });
        Ok(())
    }

    /// Set the dispose operation for the following frames.
    ///
    /// The dispose operation specifies how the output buffer should be changed
    /// at the end of the delay (before rendering the next frame)
    ///
    /// This method will return an error if the image is not animated.
    pub fn set_dispose_op(&mut self, op: DisposeOp) -> (r: Result<(), EncodingError>)
        requires
            old(self).inv(),
            old(self)@.wf(),
        ensures
            final(self).inv(),
            final(self)@.wf(),
            old(self)@.frame_change(
                r,
                final(self)@,
                |fc: FrameControl| Ok(FrameControl { dispose_op: op, ..fc }),
            ),
    {
        let fctl = animated(self.fctl)?;
        self.fctl = Some(FrameControl { dispose_op: op, ..fctl });
        Ok(())
    }
}

impl StreamWriter {
    /// Whether the compressor has failed.
    fn is_poisoned(&self) -> (r: bool)
        ensures
            r == (self@.stage is Poisoned),
    {
        match &self.writer {
            Wrapper::Unrecoverable(_) => true,
            _ => false,
        }
    }

    /// Puts the given stage in the place of the stage.
    fn install(&mut self, stage: Wrapper)
        ensures
            final(self)@ == (StreamWriterState { stage: stage@, ..old(self)@ }),
            final(self).inv() == stage.inv(),
    {
        self.writer = stage;
    }

    /// Ends the compressor of the frame that is complete, and hands its
    /// stream to the chunk sink. If the compressor fails, the stream writer
    /// is poisoned.
    fn finish_frame(&mut self) -> (r: Result<(), EncodingError>)
        requires
            old(self).inv(),
            old(self)@.wf(),
            !(old(self)@.stage is Poisoned),
        ensures
            final(self).inv(),
            final(self)@.wf(),
            if old(self)@.ends_frame() {
                r is Ok && final(self)@ == (StreamWriterState {
                    stage: Stage::Bare(old(self)@.drained_sink()),
                    ..old(self)@
                })
            } else {
                r is Err && r->Err_0 is IoError && final(self)@ == old(self)@.poisoned()
            },
    {
        match self.writer.take() {
            Wrapper::Zlib(zlib, cw) => match compressor_finish(zlib) {
                Ok(stream) => {
                    let mut cw = cw;
                    cw.write_all(stream.as_slice());
                    proof {
                        lemma_fed_keeps(old(self)@.stage.sink(), stream@);
                    }
                    self.install(Wrapper::Chunk(cw));
                    Ok(())
                },
                Err(err) => {
                    self.install(Wrapper::Unrecoverable(cw));
                    Err(EncodingError::IoError(err))
                },
            },
            other => {
                self.install(other);
                Ok(())
            },
        }
    }

    /// Flushes the buffered chunk, checks if it was the last frame,
    /// writes the next frame header and gets the next frame scanline size
    /// and image size.
    fn new_frame(&mut self) -> (r: Result<(), EncodingError>)
        requires
            old(self).inv(),
            old(self)@.wf(),
            old(self)@.stage is Bare,
            old(self)@.to_write == 0,
        ensures
            final(self).inv(),
            final(self)@.wf(),
            match r {
                Ok(()) => !old(self)@.frame_overflows() && final(self)@ == old(self)@.begun()
                    && final(self)@.to_write > 0,
                Err(e) => e is LimitsExceeded && old(self)@.frame_overflows() && final(self)@ == (
                StreamWriterState { stage: Stage::Bare(old(self)@.next_sink()), ..old(self)@ }),
            },
    {
        proof {
            lemma_no_rows_left(self.rows@, self.line_len as int, self.index as int);
        }
        match self.writer.take() {
            Wrapper::Chunk(cw) => {
                let mut cw = cw;
                match cw.begin_frame(self.fctl) {
                    Some(frame) => {
                        self.prev_buf = vec![0u8; frame.0];
                        self.curr_buf = vec![0u8; frame.0];
                        assert(self.prev_buf@ =~= zeros(frame.0 as int));
                        assert(self.curr_buf@ =~= zeros(frame.0 as int));
                        self.line_len = frame.0;
                        self.to_write = frame.1;
                        self.rows = Ghost(cw@.writer.info.frame_height() as int);
                        self.end = frame.2;
                        let zlib = compressor_new(self.compression.to_options());
                        self.install(Wrapper::Zlib(zlib, cw));
                        Ok(())
                    },
                    None => {
                        self.install(Wrapper::Chunk(cw));
                        Err(EncodingError::LimitsExceeded)
                    },
                }
            },
            _ => vstd::pervasive::unreached(),
        }
    }

    /// Copies into the current scanline as many bytes of `data` as it lacks.
    fn take_in(&mut self, data: &[u8]) -> (n: usize)
        requires
            old(self).inv(),
            old(self)@.wf(),
            old(self)@.to_write > 0,
        ensures
            final(self).inv(),
            n == old(self)@.copied(data@.len() as int),
            n <= old(self)@.to_write,
            final(self)@ == (StreamWriterState {
                curr: old(self)@.line_with(data@),
                index: old(self)@.index + n,
                to_write: old(self)@.to_write - n,
                ..old(self)@
            }),
    {
        proof {
            lemma_scanline_owed(
                self.rows@,
                self.line_len as int,
                self.index as int,
                self.to_write as int,
            );
        }
        let room = self.line_len - self.index;
        let n = if data.len() < room {
            data.len()
        } else {
            room
        };
        let start = self.index;
        let ghost before = self.curr_buf@;
        let mut k: usize = 0;
        while k < n
            invariant
                k <= n,
                n <= data@.len(),
                start + n <= self.curr_buf@.len(),
                self.curr_buf@.len() == before.len(),
                self.curr_buf@.len() <= usize::MAX,
                forall|j: int| 0 <= j < start ==> self.curr_buf@[j] == before[j],
                forall|j: int| 0 <= j < k ==> self.curr_buf@[start + j] == data@[j],
                forall|j: int| start + k <= j < before.len() ==> self.curr_buf@[j] == before[j],
                self.writer == old(self).writer,
                self.prev_buf == old(self).prev_buf,
                self.index == old(self).index,
                self.line_len == old(self).line_len,
                self.to_write == old(self).to_write,
                self.rows == old(self).rows,
                self.end == old(self).end,
                self.width == old(self).width,
                self.height == old(self).height,
                self.bpp == old(self).bpp,
                self.filter == old(self).filter,
                self.adaptive_filter == old(self).adaptive_filter,
                self.fctl == old(self).fctl,
                self.compression == old(self).compression,
            decreases n - k,
        {
            self.curr_buf[start + k] = data[k];
            k += 1;
        }
        assert(self.curr_buf@ =~= old(self)@.line_with(data@));
        self.index = start + n;
        self.to_write = self.to_write - n;
        n
    }

    /// Filters the scanline that is complete against the scanline above and
    /// hands tag and filtered scanline to the compressor; the scanline as it
    /// was written then is the one above. If the compressor fails, the
    /// stream writer is poisoned.
    fn put_scanline(&mut self) -> (r: Result<(), EncodingError>)
        requires
            old(self).inv(),
            !(old(self)@.stage is Empty),
            old(self)@.curr.len() == old(self)@.prev.len(),
            1 <= old(self)@.bpp.value() <= old(self)@.curr.len(),
        ensures
            final(self).inv(),
            ({
                let before = old(self)@;
                let chosen = chosen_filter(
                    before.filter,
                    before.adaptive_filter,
                    before.bpp.value(),
                    before.prev,
                    before.curr,
                );
                let filtered = filtered_row(chosen, before.bpp.value(), before.prev, before.curr);
                let tag = seq![chosen.tag()];
                match before.stage {
                    Stage::Active(o, i, s) => if zlib_takes(o, i, tag) && zlib_takes(
                        o,
                        i.push(Some(tag)),
                        filtered,
                    ) {
                        r is Ok && final(self)@ == (StreamWriterState {
                            stage: Stage::Active(o, i.push(Some(tag)).push(Some(filtered)), s),
                            prev: before.curr,
                            curr: before.prev,
                            index: 0,
                            ..before
                        })
                    } else {
                        r is Err && r->Err_0 is IoError && final(self)@ == (StreamWriterState {
                            stage: Stage::Poisoned(s),
                            index: 0,
                            ..before
                        })
                    },
                    _ => r is Ok && final(self)@ == (StreamWriterState {
                        prev: before.curr,
                        curr: before.prev,
                        index: 0,
                        ..before
                    }),
                }
            }),
    {
        let mut filtered = slice_to_vec(self.curr_buf.as_slice());
        let filter_type = filter(
            self.filter,
            self.adaptive_filter,
            self.bpp,
            self.prev_buf.as_slice(),
            filtered.as_mut_slice(),
        );
        self.index = 0;
        match self.writer.take() {
            Wrapper::Zlib(zlib, cw) => {
                let mut zlib = zlib;
                let tag: Vec<u8> = vec![filter_type.to_u8()];
                assert(tag@ =~= seq![filter_type.tag()]);
                match compressor_write_all(&mut zlib, tag.as_slice()) {
                    Ok(()) => {},
                    Err(err) => {
                        self.install(Wrapper::Unrecoverable(cw));
                        return Err(EncodingError::IoError(err));
                    },
                }
                match compressor_write_all(&mut zlib, filtered.as_slice()) {
                    Ok(()) => {},
                    Err(err) => {
                        self.install(Wrapper::Unrecoverable(cw));
                        return Err(EncodingError::IoError(err));
                    },
                }
                self.install(Wrapper::Zlib(zlib, cw));
            },
            other => {
                self.install(other);
            },
        }
        core::mem::swap(&mut self.prev_buf, &mut self.curr_buf);
        Ok(())
    }
}

/// Feeding a sound chunk sink leaves it sound.
pub proof fn lemma_fed_keeps(sink: ChunkWriterState, data: Seq<u8>)
    requires
        sink.wf(),
    ensures
        sink.fed(data).wf(),
        sink.fed(data).writer.info == (PartialInfo {
            frame_control: sink.fed(data).writer.info.frame_control,
            ..sink.writer.info
        }),
        sink.fed(data).writer.info.frame_control is Some <==> sink.writer.info.frame_control
            is Some,
        sink.fed(data).writer.info.frame_control matches Some(fc)
            ==> fc == sink.writer.info.frame_control->0.with_sequence_number(fc.sequence_number),
    decreases data.len(),
{
    if data.len() == 0 || sink.taken(data.len() as int) <= 0 {
    } else {
        lemma_fed_keeps(sink.written(data), data.skip(sink.taken(data.len() as int)));
    }
}

/// Where a frame lacks no byte, it lacks no scanline, and the current
/// scanline is empty.
proof fn lemma_no_rows_left(rows: int, line_len: int, index: int)
    requires
        0 <= rows,
        0 <= index < line_len,
        index == rows * line_len,
    ensures
        rows == 0,
        index == 0,
{
    if rows >= 1 {
        assert(rows * line_len >= line_len) by (nonlinear_arith)
            requires
                rows >= 1,
                line_len >= 0,
        ;
    }
}

/// Where a frame lacks bytes, it lacks at least the rest of the current
/// scanline.
proof fn lemma_scanline_owed(rows: int, line_len: int, index: int, to_write: int)
    requires
        0 <= rows,
        0 <= index < line_len,
        to_write > 0,
        to_write + index == rows * line_len,
    ensures
        rows >= 1,
        line_len - index <= to_write,
{
    if rows == 0 {
        assert(rows * line_len == 0);
    } else {
        assert(rows * line_len >= line_len) by (nonlinear_arith)
            requires
                rows >= 1,
                line_len >= 0,
        ;
    }
}

impl StreamWriterState {
    /// The state in which `write` takes bytes: the state itself while the
    /// current frame lacks bytes, and else the state after the next frame
    /// has been begun.
    pub open spec fn ready(self) -> StreamWriterState {
        if self.to_write == 0 {
            self.begun()
        } else {
            self
        }
    }
}

impl StreamWriter {
    /// Takes image data: as many bytes of `data` as the current scanline
    /// lacks, and returns their number. Image data is the scanlines of the
    /// frames, unfiltered, one after the other.
    ///
    /// 1. After a failure of the compressor the call fails with
    ///    `Unrecoverable`.
    /// 2. No data is no call: 0 is returned.
    /// 3. Where the current frame lacks no byte, the next frame is begun, or
    ///    the call fails with `EndReached` if the current frame is the last:
    ///    the compressor is finished and its stream goes out in chunks; the
    ///    frame control becomes that of the next frame, and the frame's
    ///    header goes out; a new compressor is made.
    /// 4. The bytes are put into the current scanline.
    /// 5. A scanline that is complete is filtered against the unfiltered
    ///    scanline above, zeros above the first of a frame, and handed to
    ///    the compressor.
    ///
    /// A call that fails in 1 or 3 changes nothing. The call succeeds exactly
    /// when the compressor does what is asked of it and the next frame is no
    /// more than the machine holds: when the compressor fails the stream
    /// writer is poisoned, and the scanline at hand is lost; when the next
    /// frame is too large the call fails with `LimitsExceeded`.
    pub fn write(&mut self, data: &[u8]) -> (r: Result<usize, EncodingError>)
        requires
            old(self).inv(),
            old(self)@.wf(),
        ensures
            final(self).inv(),
            final(self)@.wf(),
            if old(self)@.stage is Poisoned {
                r is Err && r->Err_0.is_format(FormatErrorKind::Unrecoverable) && final(self)@
                    == old(self)@
            } else if data@.len() == 0 {
                r == Ok::<usize, EncodingError>(0) && final(self)@ == old(self)@
            } else if old(self)@.to_write == 0 && old(self)@.end {
                r is Err && r->Err_0.is_format(FormatErrorKind::EndReached) && final(self)@
                    == old(self)@
            } else if old(self)@.to_write == 0 && !old(self)@.ends_frame() {
                r is Err && r->Err_0 is IoError && final(self)@ == old(self)@.poisoned()
            } else if old(self)@.to_write == 0 && old(self)@.frame_overflows() {
                r is Err && r->Err_0 is LimitsExceeded && final(self)@ == (StreamWriterState {
                    stage: Stage::Bare(old(self)@.next_sink()),
                    ..old(self)@
                })
            } else if !old(self)@.ready().takes_scanline(data@) {
                r is Err && r->Err_0 is IoError && final(self)@
                    == old(self)@.ready().scanline_lost(data@)
            } else {
                r is Ok && r->Ok_0 == old(self)@.ready().copied(data@.len() as int)
                    && final(self)@ == old(self)@.ready().taken_in(data@)
            },
    {
        if self.is_poisoned() {
            return Err(EncodingError::format(FormatErrorKind::Unrecoverable));
        }
        if data.len() == 0 {
            return Ok(0);
        }
        if self.to_write == 0 {
            if self.end {
                return Err(EncodingError::format(FormatErrorKind::EndReached));
            }
            self.next_frame()?;
        }
        self.absorb(data)
    }

    /// Ends the frame that is complete and begins the next.
    fn next_frame(&mut self) -> (r: Result<(), EncodingError>)
        requires
            old(self).inv(),
            old(self)@.wf(),
            !(old(self)@.stage is Poisoned),
            old(self)@.to_write == 0,
        ensures
            final(self).inv(),
            final(self)@.wf(),
            if !old(self)@.ends_frame() {
                r is Err && r->Err_0 is IoError && final(self)@ == old(self)@.poisoned()
            } else if old(self)@.frame_overflows() {
                r is Err && r->Err_0 is LimitsExceeded && final(self)@ == (StreamWriterState {
                    stage: Stage::Bare(old(self)@.next_sink()),
                    ..old(self)@
                })
            } else {
                r is Ok && final(self)@ == old(self)@.begun() && final(self)@.to_write > 0
                    && final(self)@.stage is Active
            },
    {
        self.finish_frame()?;
        self.new_frame()
    }

    /// Puts bytes of `data` into the current scanline, and hands the
    /// scanline to the compressor if it is complete.
    fn absorb(&mut self, data: &[u8]) -> (r: Result<usize, EncodingError>)
        requires
            old(self).inv(),
            old(self)@.wf(),
            !(old(self)@.stage is Poisoned),
            old(self)@.to_write > 0,
        ensures
            final(self).inv(),
            final(self)@.wf(),
            if old(self)@.takes_scanline(data@) {
                r is Ok && r->Ok_0 == old(self)@.copied(data@.len() as int) && final(self)@
                    == old(self)@.taken_in(data@)
            } else {
                r is Err && r->Err_0 is IoError && final(self)@ == old(self)@.scanline_lost(data@)
            },
    {
        let ghost ready = self@;
        let written = self.take_in(data);
        if self.index == self.line_len {
            proof {
                lemma_scanline_owed(ready.rows, ready.line_len, ready.index, ready.to_write);
                assert((ready.rows - 1) * ready.line_len == ready.rows * ready.line_len
                    - ready.line_len) by (nonlinear_arith);
            }
            self.rows = Ghost(self.rows@ - 1);
            self.put_scanline()?;
        }
        Ok(written)
    }

    /// Tells the compressor to end its current block, so that all bytes
    /// written so far are in its stream.
    ///
    /// Fails with `Unrecoverable` after a failure of the compressor, and
    /// with `WrittenTooMuch` if a part of a scanline is waiting: then the
    /// data written so far does not end with a scanline. If the compressor
    /// fails, the stream writer is poisoned.
    pub fn flush(&mut self) -> (r: Result<(), EncodingError>)
        requires
            old(self).inv(),
            old(self)@.wf(),
        ensures
            final(self).inv(),
            final(self)@.wf(),
            if old(self)@.stage is Poisoned {
                r is Err && r->Err_0.is_format(FormatErrorKind::Unrecoverable) && final(self)@
                    == old(self)@
            } else if !old(self)@.flushes() {
                r is Err && r->Err_0 is IoError && final(self)@ == old(self)@.poisoned()
            } else if old(self)@.index > 0 {
                r is Err && r->Err_0.is_format(
                    FormatErrorKind::WrittenTooMuch(old(self)@.index as usize),
                ) && final(self)@ == old(self)@.synced()
            } else {
                r is Ok && final(self)@ == old(self)@.synced()
            },
    {
        if self.is_poisoned() {
            return Err(EncodingError::format(FormatErrorKind::Unrecoverable));
        }
        match self.writer.take() {
            Wrapper::Zlib(zlib, cw) => {
                let mut zlib = zlib;
                match compressor_flush(&mut zlib) {
                    Ok(()) => {
                        self.install(Wrapper::Zlib(zlib, cw));
                    },
                    Err(err) => {
                        self.install(Wrapper::Unrecoverable(cw));
                        return Err(EncodingError::IoError(err));
                    },
                }
            },
            other => {
                self.install(other);
            },
        }
        if self.index > 0 {
            return Err(EncodingError::format(FormatErrorKind::WrittenTooMuch(self.index)));
        }
        Ok(())
    }

    /// The bytes emitted since they were last taken.
    pub fn take_output(&mut self) -> (bytes: Vec<u8>)
        requires
            old(self).inv(),
            old(self)@.wf(),
        ensures
            final(self).inv(),
            final(self)@.wf(),
            bytes@ == old(self)@.stage.sink().writer.out,
            final(self)@ == (StreamWriterState {
                stage: old(self)@.stage.with_sink(
                    ChunkWriterState {
                        writer: WriterState {
                            out: Seq::<u8>::empty(),
                            ..old(self)@.stage.sink().writer
                        },
                        ..old(self)@.stage.sink()
                    },
                ),
                ..old(self)@
            }),
    {
        match self.writer.take() {
            Wrapper::Chunk(cw) => {
                let mut cw = cw;
                let bytes = cw.take_output();
                self.install(Wrapper::Chunk(cw));
                bytes
            },
            Wrapper::Zlib(zlib, cw) => {
                let mut cw = cw;
                let bytes = cw.take_output();
                self.install(Wrapper::Zlib(zlib, cw));
                bytes
            },
            Wrapper::Unrecoverable(cw) => {
                let mut cw = cw;
                let bytes = cw.take_output();
                self.install(Wrapper::Unrecoverable(cw));
                bytes
            },
            Wrapper::Empty => vstd::pervasive::unreached(),
        }
    }

    /// Gives up the stream writer for the writer that it was made from, as
    /// `closed` says: the compressor is ended and its stream goes out,
    /// whether the data written so far is complete or not, and the last
    /// chunk goes out.
    pub fn into_writer(self) -> (writer: Writer)
        requires
            self.inv(),
            self@.wf(),
        ensures
            writer@.wf(),
            writer@ == self@.closed(),
    {
        match self.writer {
            Wrapper::Zlib(zlib, cw) => {
                let mut zlib = zlib;
                let mut cw = cw;
                let ghost sink = cw@;
                match compressor_flush(&mut zlib) {
                    Ok(()) => match compressor_finish(zlib) {
                        Ok(stream) => {
                            cw.write_all(stream.as_slice());
                            proof {
                                lemma_fed_keeps(sink, stream@);
                            }
                        },
                        Err(_) => {},
                    },
                    Err(_) => {},
                }
                cw.into_writer()
            },
            Wrapper::Chunk(cw) => cw.into_writer(),
            Wrapper::Unrecoverable(cw) => cw.into_writer(),
            Wrapper::Empty => vstd::pervasive::unreached(),
        }
    }

    /// Ends the image data and gives up the stream writer for the writer
    /// that it was made from.
    ///
    /// Fails with `MissingFrames` if the current frame is not the last, and
    /// with `MissingData` if it lacks bytes; else the compressor is flushed
    /// as by `flush`, and the call succeeds exactly when that succeeds. The
    /// writer is handed out in every case, as by `into_writer`: after a
    /// success it holds the whole stream of the last frame.
    pub fn finish(self) -> (r: (Writer, Result<(), EncodingError>))
        requires
            self.inv(),
            self@.wf(),
        ensures
            r.0@.wf(),
            if !self@.end {
                r.1 is Err && r.1->Err_0.is_format(FormatErrorKind::MissingFrames) && r.0@
                    == self@.closed()
            } else if self@.to_write > 0 {
                r.1 is Err && r.1->Err_0.is_format(
                    FormatErrorKind::MissingData(self@.to_write as usize),
                ) && r.0@ == self@.closed()
            } else if self@.stage is Poisoned {
                r.1 is Err && r.1->Err_0.is_format(FormatErrorKind::Unrecoverable) && r.0@
                    == self@.closed()
            } else if !self@.flushes() {
                r.1 is Err && r.1->Err_0 is IoError && r.0@ == self@.poisoned().closed()
            } else {
                r.1 is Ok && r.0@ == self@.synced().closed()
            },
    {
        let mut this = self;
        let result = if !this.end {
            Err(EncodingError::format(FormatErrorKind::MissingFrames))
        } else if this.to_write > 0 {
            Err(EncodingError::format(FormatErrorKind::MissingData(this.to_write)))
        } else {
            proof {
                lemma_no_rows_left(this.rows@, this.line_len as int, this.index as int);
            }
            this.flush()
        };
        (this.into_writer(), result)
    }
}

impl ChunkWriterState {
    /// The number of bytes of data that one chunk holds: its size, less the
    /// sequence number where the chunks carry one.
    pub open spec fn room(self) -> int {
        if self.writer.numbers_data() {
            self.capacity - 4
        } else {
            self.capacity
        }
    }

    /// The sequence number that the next chunk carries, where the chunks
    /// carry one.
    pub open spec fn next_number(self) -> Option<u32> {
        if self.writer.numbers_data() {
            Some(self.writer.sequence_number())
        } else {
            None
        }
    }

    /// The number of sequence numbers that the chunks of `len` bytes of data
    /// use up.
    pub open spec fn numbers_for(self, len: int) -> int {
        if self.writer.numbers_data() {
            pieces(len, self.room())
        } else {
            0
        }
    }

    /// The chunks that the data `z` of a frame goes out in.
    pub open spec fn chunks_for(self, z: Seq<u8>) -> Seq<Chunk> {
        data_chunks(self.curr_chunk, z, self.room(), self.next_number())
    }

    /// The chunks that a frame goes out in, whose header is due and whose
    /// compressed data is `z`: the frame control chunk, unless the frame is
    /// plain image data, and the chunks of the data.
    pub open spec fn frame_chunks(self, z: Seq<u8>) -> Seq<Chunk> {
        (if self.writer.next_is_plain() {
            Seq::<Chunk>::empty()
        } else {
            seq![self.writer.info.frame_control->0.chunk()]
        }) + self.with_header().chunks_for(z)
    }
}

/// One call of `write` leaves a sound chunk sink sound, takes at least one
/// byte, and changes neither the size of the chunks nor their name nor
/// which chunks carry numbers.
proof fn lemma_written_keeps(sink: ChunkWriterState, data: Seq<u8>)
    requires
        sink.wf(),
        data.len() > 0,
    ensures
        sink.written(data).wf(),
        1 <= sink.taken(data.len() as int) <= data.len(),
        sink.written(data).capacity == sink.capacity,
        sink.written(data).curr_chunk == sink.curr_chunk,
        sink.written(data).writer.numbers_data() == sink.writer.numbers_data(),
{
}

impl ChunkWriterState {
    /// The state after the data `z` of a frame has gone out in its chunks.
    pub open spec fn after_data(self, z: Seq<u8>) -> ChunkWriterState {
        ChunkWriterState {
            writer: self.writer.emit(chunks_bytes(self.chunks_for(z))).advance_sequence(
                self.numbers_for(z.len() as int),
            ),
            ..self
        }
    }
}

/// No data goes out in no chunk.
proof fn lemma_fed_nothing(sink: ChunkWriterState, z: Seq<u8>)
    requires
        sink.wf(),
        sink.pending.len() == 0,
        z.len() == 0,
    ensures
        sink.fed(z).flushed() == sink.after_data(z),
        sink.numbers_for(z.len() as int) == 0,
{
    let room = sink.room();
    if sink.writer.info.frame_control is Some {
        lemma_advance_add(sink.writer.sequence_number(), 0, 0);
    }
    assert((room - 1) / room == 0) by (nonlinear_arith)
        requires
            room >= 1,
    ;
    assert(sink.writer.out + chunks_bytes(sink.chunks_for(z)) =~= sink.writer.out);
    assert(sink.after_data(z).writer.info == sink.writer.info);
    assert(sink.after_data(z).writer == sink.writer);
}

/// Data that does not fill a chunk goes out in one chunk when the sink is
/// flushed.
proof fn lemma_fed_last_piece(sink: ChunkWriterState, z: Seq<u8>)
    requires
        sink.wf(),
        sink.pending.len() == 0,
        0 < z.len() < sink.room(),
    ensures
        sink.fed(z).flushed() == sink.after_data(z),
        sink.numbers_for(z.len() as int) >= 0,
{
    let room = sink.room();
    let number = sink.next_number();
    let name = sink.curr_chunk;
    let n = z.len() as int;
    assert(sink.taken(n) == n);
    let chunk = Chunk { name, sequence_number: number, body: z };
    let open = sink.opened();
    let next = sink.written(z);
    assert(z.take(n) =~= z);
    assert(z.skip(n) =~= Seq::<u8>::empty());
    assert(open.pending + z =~= chunk.data());
    assert(next.pending == chunk.data());
    assert(next.fed(z.skip(n)) == next);
    assert(sink.fed(z) == next);
    lemma_data_chunks_step(name, z, room, number, n);
    lemma_pieces_rest(n, room, n);
    assert((room - 1) / room == 0) by (nonlinear_arith)
        requires
            room >= 1,
    ;
    let tail = data_chunks(name, z.skip(n), room, advance_opt(number, 1));
    assert(chunks_bytes(tail) =~= Seq::<u8>::empty());
    assert(chunk.bytes() + chunks_bytes(tail) =~= chunk.bytes());
    assert(chunks_bytes(sink.chunks_for(z)) == chunk.bytes());
    if sink.writer.info.frame_control is Some {
        lemma_advance_add(sink.writer.sequence_number(), 0, 0);
    }
    assert(next.flushed().writer.out == sink.writer.out + chunk.bytes());
    assert(next.flushed().writer.info == sink.after_data(z).writer.info);
    assert(next.flushed().writer == sink.after_data(z).writer);
    assert(next.flushed().pending =~= sink.pending);
}

/// Data that fills a chunk goes out in that chunk, and the rest follows
/// from a sink that holds nothing back.
proof fn lemma_fed_full_piece(sink: ChunkWriterState, z: Seq<u8>)
    requires
        sink.wf(),
        sink.pending.len() == 0,
        z.len() >= sink.room(),
    ensures
        sink.written(z).wf(),
        sink.written(z).pending.len() == 0,
        sink.fed(z) == sink.written(z).fed(z.skip(sink.room())),
        sink.written(z).after_data(z.skip(sink.room())) == sink.after_data(z),
        sink.numbers_for(z.len() as int - sink.room()) >= 0,
{
    let room = sink.room();
    let number = sink.next_number();
    let name = sink.curr_chunk;
    let n = room;
    lemma_written_keeps(sink, z);
    assert(sink.taken(z.len() as int) == n);
    let chunk = Chunk { name, sequence_number: number, body: z.take(n) };
    let open = sink.opened();
    let next = sink.written(z);
    assert(open.pending + z.take(n) =~= chunk.data());
    assert(next.pending =~= Seq::<u8>::empty());
    assert(next.writer.out == sink.writer.out + chunk.bytes());
    lemma_data_chunks_step(name, z, room, number, n);
    lemma_pieces_rest(z.len() as int, room, n);
    let tail = data_chunks(name, z.skip(n), room, advance_opt(number, 1));
    assert(next.chunks_for(z.skip(n)) == tail);
    assert(sink.writer.out + (chunk.bytes() + chunks_bytes(tail)) =~= (sink.writer.out
        + chunk.bytes()) + chunks_bytes(tail));
    if sink.writer.info.frame_control is Some {
        lemma_advance_add(sink.writer.sequence_number(), 0, 0);
        lemma_advance_add(sink.writer.sequence_number(), 1, pieces(z.len() as int - n, room));
    }
    let left = next.after_data(z.skip(n));
    let right = sink.after_data(z);
    assert(left.writer.out == right.writer.out);
    assert(left.writer.info == right.writer.info);
    assert(left.writer == right.writer);
    assert(left.pending =~= right.pending);
}

/// The data of a frame, written to a chunk sink that holds nothing back and
/// flushed, goes out as the chunks that it is cut into: each holds as much
/// data as a chunk has room for, the last one what is left; where the chunks
/// carry sequence numbers, they carry consecutive ones from the writer's
/// number on, and the writer's number ends up behind them.
pub proof fn lemma_fed_data_chunks(sink: ChunkWriterState, z: Seq<u8>)
    requires
        sink.wf(),
        sink.pending.len() == 0,
    ensures
        sink.fed(z).flushed() == sink.after_data(z),
        sink.numbers_for(z.len() as int) >= 0,
    decreases z.len(),
{
    if z.len() == 0 {
        lemma_fed_nothing(sink, z);
    } else if z.len() < sink.room() {
        lemma_fed_last_piece(sink, z);
    } else {
        lemma_fed_full_piece(sink, z);
        lemma_fed_data_chunks(sink.written(z), z.skip(sink.room()));
        lemma_pieces_rest(z.len() as int, sink.room(), sink.room());
    }
}

/// The chunks of one frame of a stream carry consecutive sequence numbers
/// from the writer's number on, the frame control chunk first and then the
/// chunks of frame data, however many the data is cut into; and the
/// writer's number ends up behind them. What the frame puts out is those
/// chunks: the header when the frame is begun, the data when it is ended.
#[verifier::rlimit(50)]
pub proof fn lemma_stream_frame_numbers(sink: ChunkWriterState, z: Seq<u8>)
    requires
        sink.wf(),
        sink.pending.len() == 0,
    ensures
        sink.with_header().fed(z).flushed().writer.out == sink.writer.out + chunks_bytes(
            sink.frame_chunks(z),
        ),
        sequence_numbers(sink.frame_chunks(z)) == consecutive(
            sink.writer.sequence_number(),
            sequence_numbers(sink.frame_chunks(z)).len() as int,
        ),
        sink.with_header().fed(z).flushed().writer.sequence_number() == advance(
            sink.writer.sequence_number(),
            sequence_numbers(sink.frame_chunks(z)).len() as int,
        ),
{
    let start = sink.writer.sequence_number();
    let headed = sink.with_header();
    lemma_advance_add(start, 0, 0);
    lemma_fed_data_chunks(headed, z);
    lemma_data_chunks_numbers(headed.curr_chunk, z, headed.room(), headed.next_number());
    let body = headed.chunks_for(z);
    let count = headed.numbers_for(z.len() as int);
    if sink.writer.next_is_plain() {
        assert(Seq::<Chunk>::empty() + body =~= body);
        assert(headed.writer == sink.writer);
        assert(!headed.writer.numbers_data());
        assert(consecutive(start, 0) =~= Seq::<u32>::empty());
        assert(sink.writer.out + chunks_bytes(body) == headed.writer.out + chunks_bytes(body));
    } else {
        let fc = sink.writer.info.frame_control->0;
        let head = seq![fc.chunk()];
        assert(head.first() == fc.chunk());
        assert(head.drop_first() =~= Seq::<Chunk>::empty());
        assert(sequence_numbers(head.drop_first()) =~= Seq::<u32>::empty());
        assert(sequence_numbers(head) =~= seq![start]);
        assert(seq![start] =~= consecutive(start, 1));
        assert(chunks_bytes(head.drop_first()) =~= Seq::<u8>::empty());
        assert(chunks_bytes(head) =~= fc.chunk().bytes());
        lemma_sequence_numbers_concat(head, body);
        lemma_chunks_bytes_concat(head, body);
        assert(sink.writer.out + (fc.chunk().bytes() + chunks_bytes(body)) =~= (sink.writer.out
            + fc.chunk().bytes()) + chunks_bytes(body));
        if headed.writer.numbers_data() {
            lemma_consecutive_concat(start, 1, count);
            lemma_advance_add(start, 1, count);
        } else {
            assert(consecutive(start, 1) + Seq::<u32>::empty() =~= consecutive(start, 1));
        }
    }
}

impl ChunkWriterState {
    /// The state after a frame whose header is due, and whose compressed
    /// data is `z`, has gone out.
    pub open spec fn framed(self, z: Seq<u8>) -> ChunkWriterState {
        self.with_header().fed(z).flushed()
    }

    /// The state between two frames, before the header of the next: the
    /// frame control of an animation is that of the next frame, and the next
    /// frame counts as written.
    pub open spec fn turned(self, next: FrameControl) -> ChunkWriterState {
        self.prepared(
            if self.writer.info.frame_control is Some {
                Some(next)
            } else {
                None
            },
        ).counted()
    }

    /// The state after a stream of frames has gone out: a first frame with
    /// the compressed data `first`, and then the frames of `steps`.
    pub open spec fn after_stream(self, first: Seq<u8>, steps: Seq<FrameStep>) -> ChunkWriterState
        decreases steps.len(),
    {
        if steps.len() == 0 {
            self.framed(first)
        } else {
            self.after_stream(first, steps.drop_last()).turned(steps.last().frame_control).framed(
                steps.last().data,
            )
        }
    }

    /// The chunks that such a stream of frames goes out in.
    pub open spec fn chunks_of_stream(self, first: Seq<u8>, steps: Seq<FrameStep>) -> Seq<Chunk>
        decreases steps.len(),
    {
        if steps.len() == 0 {
            self.frame_chunks(first)
        } else {
            self.chunks_of_stream(first, steps.drop_last()) + self.after_stream(
                first,
                steps.drop_last(),
            ).turned(steps.last().frame_control).frame_chunks(steps.last().data)
        }
    }
}

/// A frame that has gone out leaves a sound chunk sink that holds nothing
/// back, for the same image.
proof fn lemma_framed_keeps(sink: ChunkWriterState, z: Seq<u8>)
    requires
        sink.wf(),
        sink.pending.len() == 0,
    ensures
        sink.framed(z).wf(),
        sink.framed(z).pending.len() == 0,
        sink.framed(z).writer.info.width == sink.writer.info.width,
        sink.framed(z).writer.info.height == sink.writer.info.height,
{
    lemma_fed_data_chunks(sink.with_header(), z);
}

/// The turn to the next frame leaves a sound chunk sink that holds nothing
/// back, and changes neither what is emitted nor the sequence number.
proof fn lemma_turned_keeps(sink: ChunkWriterState, next: FrameControl)
    requires
        sink.wf(),
        sink.pending.len() == 0,
        next.fits(sink.writer.info.width, sink.writer.info.height),
    ensures
        sink.turned(next).wf(),
        sink.turned(next).pending.len() == 0,
        sink.turned(next).writer.sequence_number() == sink.writer.sequence_number(),
        sink.turned(next).writer.out == sink.writer.out,
        sink.turned(next).writer.info.width == sink.writer.info.width,
        sink.turned(next).writer.info.height == sink.writer.info.height,
{
    assert(sink.flushed() == sink);
}

/// One more frame of a stream carries the sequence numbers on where the
/// frames before it have left them.
proof fn lemma_stream_step(
    out: Seq<u8>,
    done: Seq<Chunk>,
    rested: ChunkWriterState,
    step: FrameStep,
)
    requires
        rested.wf(),
        rested.pending.len() == 0,
        step.frame_control.fits(rested.writer.info.width, rested.writer.info.height),
        sequence_numbers(done) == consecutive(0, sequence_numbers(done).len() as int),
        rested.writer.sequence_number() == advance(0, sequence_numbers(done).len() as int),
        rested.writer.out == out + chunks_bytes(done),
    ensures
        ({
            let turned = rested.turned(step.frame_control);
            let all = done + turned.frame_chunks(step.data);
            let after = turned.framed(step.data);
            &&& sequence_numbers(all) == consecutive(0, sequence_numbers(all).len() as int)
            &&& after.writer.sequence_number() == advance(0, sequence_numbers(all).len() as int)
            &&& after.writer.out == out + chunks_bytes(all)
            &&& after.wf()
            &&& after.pending.len() == 0
            &&& after.writer.info.width == rested.writer.info.width
            &&& after.writer.info.height == rested.writer.info.height
        }),
{
    let turned = rested.turned(step.frame_control);
    let more = turned.frame_chunks(step.data);
    let count = sequence_numbers(done).len() as int;
    lemma_turned_keeps(rested, step.frame_control);
    lemma_stream_frame_numbers(turned, step.data);
    lemma_framed_keeps(turned, step.data);
    lemma_sequence_numbers_concat(done, more);
    lemma_chunks_bytes_concat(done, more);
    lemma_consecutive_concat(0, count, sequence_numbers(more).len() as int);
    lemma_advance_add(0, count, sequence_numbers(more).len() as int);
    assert(out + (chunks_bytes(done) + chunks_bytes(more)) =~= (out + chunks_bytes(done))
        + chunks_bytes(more));
}

/// Across the frames of a stream, from the first frame on, the frame control
/// chunks and the frame data chunks together carry the sequence numbers 0,
/// 1, 2 and so on, each chunk the number after that of the chunk before it,
/// whatever the frames hold and however small the chunks are; and what the
/// chunk sink has emitted is those chunks, in order. Between the frames the
/// frame control changes as the setters allow: in all but the sequence
/// number, and to a frame inside the image.
pub proof fn lemma_stream_sequence_numbers_contiguous(
    sink: ChunkWriterState,
    first: Seq<u8>,
    steps: Seq<FrameStep>,
)
    requires
        sink.wf(),
        sink.pending.len() == 0,
        sink.writer.sequence_number() == 0,
        forall|i: int|
            0 <= i < steps.len() ==> (#[trigger] steps[i]).frame_control.fits(
                sink.writer.info.width,
                sink.writer.info.height,
            ),
    ensures
        sequence_numbers(sink.chunks_of_stream(first, steps)) == consecutive(
            0,
            sequence_numbers(sink.chunks_of_stream(first, steps)).len() as int,
        ),
        sink.after_stream(first, steps).writer.sequence_number() == advance(
            0,
            sequence_numbers(sink.chunks_of_stream(first, steps)).len() as int,
        ),
        sink.after_stream(first, steps).writer.out == sink.writer.out + chunks_bytes(
            sink.chunks_of_stream(first, steps),
        ),
        sink.after_stream(first, steps).wf(),
        sink.after_stream(first, steps).pending.len() == 0,
        sink.after_stream(first, steps).writer.info.width == sink.writer.info.width,
        sink.after_stream(first, steps).writer.info.height == sink.writer.info.height,
    decreases steps.len(),
{
    if steps.len() == 0 {
        lemma_stream_frame_numbers(sink, first);
        lemma_framed_keeps(sink, first);
    } else {
        let earlier = steps.drop_last();
        assert forall|i: int| 0 <= i < earlier.len() implies (#[trigger] earlier[i]).frame_control.fits(
            sink.writer.info.width,
            sink.writer.info.height,
        ) by {
            assert(earlier[i] == steps[i]);
        }
        lemma_stream_sequence_numbers_contiguous(sink, first, earlier);
        let step = steps.last();
        assert(step == steps[steps.len() - 1]);
        lemma_stream_step(
            sink.writer.out,
            sink.chunks_of_stream(first, earlier),
            sink.after_stream(first, earlier),
            step,
        );
    }
}

/// The frames that `write` begins and ends are the frames that the law on
/// the sequence numbers of a stream speaks of. Where a compressor stands
/// before the chunk sink, and the header of the current frame has gone out
/// from the sink `before`: what ends the frame leaves the sink as
/// `before.framed(..)` of the compressor's stream, once the last chunk is
/// out; and the next frame is begun from that sink, turned to the frame
/// control of the stream writer, with its header out.
pub proof fn lemma_begun_turns_frame(
    st: StreamWriterState,
    before: ChunkWriterState,
    next: FrameControl,
)
    requires
        st.wf(),
        before.wf(),
        st.stage is Active,
        st.stage.sink() == before.with_header(),
        st.fctl matches Some(f) ==> f == next,
    ensures
        ({
            let z = match st.stage {
                Stage::Active(o, i, _) => zlib_stream(o, i),
                _ => Seq::<u8>::empty(),
            };
            &&& st.drained_sink().flushed() == before.framed(z)
            &&& st.next_sink().counted() == before.framed(z).turned(next)
            &&& st.begun().stage == Stage::Active(
                st.compression.options(),
                Seq::<Option<Seq<u8>>>::empty(),
                before.framed(z).turned(next).with_header(),
            )
        }),
{
    let z = match st.stage {
        Stage::Active(o, i, _) => zlib_stream(o, i),
        _ => Seq::<u8>::empty(),
    };
    let drained = st.drained_sink();
    assert(drained == st.stage.sink().fed(z));
    lemma_fed_keeps(st.stage.sink(), z);
    let out = drained.flushed();
    assert(out == before.framed(z));
    assert(out.pending =~= Seq::<u8>::empty());
    assert(out.flushed() == out);
    assert(drained.prepared(st.fctl) == out.prepared(st.fctl));
}

impl StreamWriterState {
    /// The state after the first `n` scanlines of the image data `data` have
    /// been written, each in a call of its own.
    pub open spec fn after_rows(self, data: Seq<u8>, n: nat) -> StreamWriterState
        decreases n,
    {
        if n == 0 {
            self
        } else {
            self.after_rows(data, (n - 1) as nat).taken_in(scanline(data, self.line_len, n - 1))
        }
    }
}

/// A frame written scanline by scanline feeds the compressor what
/// `write_image_data` feeds it for the same image data under the same
/// filter: for each scanline the tag of its filter, and the scanline
/// filtered against the unfiltered scanline above, zeros above the first.
/// So both ways of writing a frame compress the same calls into its stream.
pub proof fn lemma_stream_rows_are_frame_input(st: StreamWriterState, data: Seq<u8>, n: nat)
    requires
        st.index == 0,
        st.line_len >= 1,
        st.prev == zeros(st.line_len),
        st.curr.len() == st.line_len,
        st.stage matches Stage::Active(_, i, _) && i.len() == 0,
        n * st.line_len <= data.len(),
    ensures
        st.after_rows(data, n).stage == Stage::Active(
            st.stage->Active_0,
            frame_input(st.filter, st.adaptive_filter, st.bpp.value(), st.line_len, data, n),
            st.stage->Active_2,
        ),
        st.after_rows(data, n).prev == scanline_above(data, st.line_len, n as int),
        st.after_rows(data, n).curr.len() == st.line_len,
        st.after_rows(data, n) == (StreamWriterState {
            stage: st.after_rows(data, n).stage,
            prev: st.after_rows(data, n).prev,
            curr: st.after_rows(data, n).curr,
            to_write: st.to_write - n * st.line_len,
            rows: st.rows - n,
            ..st
        }),
    decreases n,
{
    let len = st.line_len;
    let after = st.after_rows(data, n);
    if n == 0 {
        assert(st.stage->Active_1 =~= frame_input(
            st.filter,
            st.adaptive_filter,
            st.bpp.value(),
            len,
            data,
            0,
        ));
        assert(n * len == 0) by (nonlinear_arith)
            requires
                n == 0,
        ;
        assert(after == st);
    } else {
        assert((n - 1) * len + len == n * len) by (nonlinear_arith);
        assert(0 <= (n - 1) * len) by (nonlinear_arith)
            requires
                n >= 1,
                len >= 1,
        ;
        lemma_stream_rows_are_frame_input(st, data, (n - 1) as nat);
        let before = st.after_rows(data, (n - 1) as nat);
        let row = scanline(data, len, n - 1);
        assert(after == before.taken_in(row));
        assert(before.line_len == len);
        assert(before.index == 0);
        assert(row.len() == len);
        assert(before.copied(row.len() as int) == len);
        assert(before.line_with(row) =~= row);
        assert(before.completes(row));
        assert(before.prev == scanline_above(data, len, n - 1));
        assert(scanline_above(data, len, n as int) == row);
        assert(after.prev == row);
        assert(after.curr == before.prev);
        assert(before.prev.len() == len) by {
            if n - 1 > 0 {
                assert((n - 2) * len + len == (n - 1) * len) by (nonlinear_arith);
                assert(0 <= (n - 2) * len) by (nonlinear_arith)
                    requires
                        n >= 2,
                        len >= 1,
                ;
            }
        }
        assert(after.to_write == st.to_write - n * len);
    }
}

} // verus!
