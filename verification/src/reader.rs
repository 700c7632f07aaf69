//! The line reader: a fixed staging buffer that is refilled from the decoder
//! on demand, and from which one line at a time is moved out.

use crate::error::LineReadError;
use crate::lines::{
    after_first_line, first_line, lemma_first_line_of_concat, lemma_joined_lines_of,
    lemma_line_len, lemma_lines_of_joined, lines_of, take_line, well_formed_lines, DELIMITER,
};
use crate::source::{
    begins_with_frame_header, decompressed, finished, has_frame_header, open_decoder, opens,
    pending, pull, sound, well_formed,
};
use vstd::prelude::*;
use vstd::slice::slice_subrange;

verus! {

/// Size of the staging buffer of a reader made by `DecoderWrapper::new`.
pub const BUF_SIZE: usize = 0x10000;

/// A line reader over a compressed stream.
pub struct DecoderWrapper {
    buf: Vec<u8>,
    pos: usize,
    cap: usize,
    decoder: zstd::stream::read::Decoder<'static, std::io::BufReader<std::io::Cursor<Vec<u8>>>>,
}

impl DecoderWrapper {
    #[verifier::type_invariant]
    spec fn inv(&self) -> bool {
        &&& self.buf.len() > 0
        &&& self.pos <= self.cap <= self.buf.len()
    }

    /// Size of the staging buffer.
    pub closed spec fn capacity(&self) -> nat {
        self.buf.len() as nat
    }

    /// The bytes that are staged in the buffer and not yet handed out: those
    /// between the cursor and the watermark.
    pub closed spec fn staged(&self) -> Seq<u8> {
        self.buf@.subrange(self.pos as int, self.cap as int)
    }

    /// The decoder that the reader pulls from.
    pub closed spec fn decoder(&self) -> zstd::stream::read::Decoder<
        'static,
        std::io::BufReader<std::io::Cursor<Vec<u8>>>,
    > {
        self.decoder
    }

    /// The bytes that the decoder has yet to deliver.
    pub open spec fn undelivered(&self) -> Seq<u8> {
        pending(self.decoder())
    }

    /// All the bytes that the reader has yet to hand out: those staged,
    /// followed by those that the decoder has yet to deliver.
    pub open spec fn stream(&self) -> Seq<u8> {
        self.staged() + self.undelivered()
    }

    /// No read of the decoder fails, now or later: the stream can be read to
    /// its end.
    pub open spec fn intact(&self) -> bool {
        sound(self.decoder())
    }

    /// The decoder has reported the end of the stream and nothing is staged.
    pub open spec fn at_end(&self) -> bool {
        self.staged().len() == 0 && finished(self.decoder())
    }

    /// All the lines that the reader has yet to hand out.
    pub open spec fn lines(&self) -> Seq<Seq<u8>> {
        lines_of(self.stream())
    }

    /// What one call of `read_line` does: it takes the reader from `pre` to
    /// `post`, leaves `line` in the caller's buffer and returns `r`.
    ///
    /// The call succeeds whenever the reader is intact, a whole line is staged
    /// or the reader is at its end. On success the line is the first line of
    /// the stream, the result its length, and the stream loses that line; a
    /// length of 0 is the end of the stream. With a whole line staged the line
    /// comes from the staged bytes alone and the decoder is not read. A failed
    /// call leaves no line.
    pub open spec fn line_read(
        pre: Self,
        r: Result<usize, LineReadError>,
        line: Seq<u8>,
        post: Self,
    ) -> bool {
        &&& post.capacity() == pre.capacity()
        &&& match r {
            Ok(len) => {
                &&& line == first_line(pre.stream())
                &&& len == line.len()
                &&& len == 0 <==> pre.stream().len() == 0
                &&& post.stream() == after_first_line(pre.stream())
                &&& len > 0 ==> pre.lines() == seq![line] + post.lines()
                &&& (len == 0 || line.last() != DELIMITER) ==> post.at_end()
            },
            Err(e) => {
                &&& e == LineReadError::ReadError
                &&& line.len() == 0
                &&& !pre.intact()
                &&& !pre.staged().contains(DELIMITER)
                &&& !pre.at_end()
            },
        }
        &&& pre.intact() ==> post.intact()
        &&& pre.at_end() ==> post.at_end() && r == Ok::<usize, LineReadError>(0)
        &&& pre.staged().contains(DELIMITER) ==> {
            &&& line == first_line(pre.staged())
            &&& post.staged() == after_first_line(pre.staged())
            &&& post.decoder() == pre.decoder()
        }
    }

    /// The size of the staging buffer changes nothing of what is read. Take
    /// two intact readers with the same bytes yet to hand out, whatever their
    /// capacities and however those bytes fall between buffer and decoder. A
    /// call of `read_line` on each returns the same result and the same line,
    /// and leaves the two readers intact with the same bytes yet to hand out,
    /// so that the same holds of every later call.
    pub proof fn lemma_capacity_is_irrelevant(
        a: Self,
        ra: Result<usize, LineReadError>,
        la: Seq<u8>,
        a_after: Self,
        b: Self,
        rb: Result<usize, LineReadError>,
        lb: Seq<u8>,
        b_after: Self,
    )
        requires
            a.stream() == b.stream(),
            a.intact(),
            b.intact(),
            Self::line_read(a, ra, la, a_after),
            Self::line_read(b, rb, lb, b_after),
        ensures
            ra == rb,
            la == lb,
            a_after.stream() == b_after.stream(),
            a_after.intact(),
            b_after.intact(),
    {
    }

    /// Lines that were written come back one by one. Let `lines` be lines that
    /// a stream can split into, and let an intact reader have exactly those
    /// lines, one after the other, yet to hand out. Then a call of `read_line`
    /// returns the first of them, with its length and with its delimiter if it
    /// has one, and leaves the reader intact with the others; when no line is
    /// left it returns 0, the clean end of the stream.
    pub proof fn lemma_reads_back_what_was_written(
        lines: Seq<Seq<u8>>,
        pre: Self,
        r: Result<usize, LineReadError>,
        line: Seq<u8>,
        post: Self,
    )
        requires
            well_formed_lines(lines),
            pre.stream() == lines.flatten(),
            pre.intact(),
            Self::line_read(pre, r, line, post),
        ensures
            post.intact(),
            lines.len() == 0 ==> r == Ok::<usize, LineReadError>(0) && line.len() == 0
                && post.stream().len() == 0,
            lines.len() > 0 ==> {
                &&& r matches Ok(len)
                &&& len == lines[0].len()
                &&& line == lines[0]
                &&& post.stream() == lines.drop_first().flatten()
                &&& well_formed_lines(lines.drop_first())
            },
            lines.len() == 1 && lines[0].last() != DELIMITER ==> post.at_end(),
    {
        let s = pre.stream();
        lemma_lines_of_joined(lines);
        lemma_line_len(s);
        if lines.len() == 0 {
            assert(s.len() == 0);
        } else {
            assert(s.len() > 0) by {
                assert(lines.first().len() > 0);
                assert(s == lines.first() + lines.drop_first().flatten());
            }
            let rest = after_first_line(s);
            assert(lines_of(s) == seq![first_line(s)] + lines_of(rest));
            assert(lines[0] == first_line(s));
            assert(lines_of(rest) =~= lines.drop_first());
            lemma_joined_lines_of(rest);
        }
    }

    /// A reader can be made over the compressed bytes `source`: they begin
    /// with a valid frame header and zstd makes a decoder over them.
    pub open spec fn can_be_read(source: Seq<u8>) -> bool {
        begins_with_frame_header(source) && opens(source)
    }

    /// Makes a reader out of what opening the compressed file gave: its
    /// bytes, or `None` where it could not be opened or read. Without bytes
    /// the error is `OpenError`; with them the reader is that of `new`.
    pub fn open(contents: Option<Vec<u8>>) -> (r: Result<Self, LineReadError>)
        ensures
            match contents {
                None => r matches Err(e) && e == LineReadError::OpenError,
                Some(source) => {
                    &&& r is Ok <==> Self::can_be_read(source@)
                    &&& match r {
                        Ok(reader) => {
                            &&& reader.capacity() == BUF_SIZE
                            &&& reader.staged().len() == 0
                            &&& reader.stream() == decompressed(source@)
                            &&& reader.intact() == well_formed(source@)
                        },
                        Err(e) => e == LineReadError::DecoderInitError,
                    }
                },
            },
    {
        match contents {
            Some(source) => Self::new(source),
            None => Err(LineReadError::OpenError),
        }
    }

    /// Makes a reader over the compressed bytes `source`, with a staging
    /// buffer of `BUF_SIZE` bytes and nothing staged. Bytes that do not begin
    /// with a valid frame header are refused here, before anything is read.
    pub fn new(source: Vec<u8>) -> (r: Result<Self, LineReadError>)
        ensures
            r is Ok <==> Self::can_be_read(source@),
            match r {
                Ok(reader) => {
                    &&& reader.capacity() == BUF_SIZE
                    &&& reader.staged().len() == 0
                    &&& reader.stream() == decompressed(source@)
                    &&& reader.intact() == well_formed(source@)
                },
                Err(e) => e == LineReadError::DecoderInitError,
            },
    {
        Self::with_capacity(source, BUF_SIZE)
    }

    /// Makes a reader over the compressed bytes `source`, with a staging
    /// buffer of `capacity` bytes and nothing staged. Bytes that do not begin
    /// with a valid frame header are refused. What the reader hands out does
    /// not depend on `capacity`.
    pub fn with_capacity(source: Vec<u8>, capacity: usize) -> (r: Result<Self, LineReadError>)
        requires
            capacity > 0,
        ensures
            r is Ok <==> Self::can_be_read(source@),
            match r {
                Ok(reader) => {
                    &&& reader.capacity() == capacity
                    &&& reader.staged().len() == 0
                    &&& reader.stream() == decompressed(source@)
                    &&& reader.intact() == well_formed(source@)
                },
                Err(e) => e == LineReadError::DecoderInitError,
            },
    {
        if !has_frame_header(&source) {
            return Err(LineReadError::DecoderInitError);
        }
        match open_decoder(source) {
            Ok(decoder) => {
                let reader = DecoderWrapper { buf: vec![0u8; capacity], pos: 0, cap: 0, decoder };
                assert(reader.staged() =~= Seq::<u8>::empty());
                assert(reader.stream() =~= pending(reader.decoder));
                Ok(reader)
            },
            Err(_) => Err(LineReadError::DecoderInitError),
        }
    }

    /// Produces the next line of the stream in `line`, its delimiter included,
    /// and returns its length. A length of 0 is the clean end of the stream. A
    /// line without a delimiter is the last one: the stream did not end in a
    /// delimiter.
    pub fn read_line(&mut self, line: &mut Vec<u8>) -> (r: Result<usize, LineReadError>)
        ensures
            Self::line_read(*old(self), r, final(line)@, *final(self)),
    {
        proof {
            use_type_invariant(&*self);
        }
        line.clear();
        let mut len: usize = 0;
        let ghost start = self.stream();
        let ghost entry = *self;
        assert(line@ + self.stream() =~= start);
        loop
            invariant
                entry == *old(self),
                self.buf.len() > 0,
                self.buf.len() == entry.buf.len(),
                self.pos <= self.cap <= self.buf.len(),
                line@ + self.stream() == start,
                !line@.contains(DELIMITER),
                len == line@.len(),
                start == entry.stream(),
                entry.intact() ==> sound(self.decoder),
                line@.len() > 0 ==> !entry.staged().contains(DELIMITER) && !entry.at_end(),
                line@.len() == 0 ==> *self == entry,
            decreases self.stream().len(),
        {
            if self.pos >= self.cap {
                let ghost before = pending(self.decoder);
                assert(self.staged().len() == 0);
                match pull(&mut self.decoder, &mut self.buf) {
                    Ok(0) => {
                        proof {
                            lemma_line_len(start);
                            assert(self.staged().len() == 0);
                            assert(self.stream() =~= Seq::<u8>::empty());
                            assert(line@ =~= start);
                            assert(first_line(start) =~= start);
                            assert(after_first_line(start) =~= self.stream());
                        }
                        return Ok(len);
                    },
                    Ok(n) => {
                        self.pos = 0;
                        self.cap = n;
                        assert(self.stream() =~= before) by {
                            assert(self.staged() =~= before.take(n as int));
                        }
                    },
                    Err(_) => {
                        line.clear();
                        return Err(LineReadError::ReadError);
                    },
                }
            }
            let ghost staged = self.staged();
            let ghost rest = pending(self.decoder);
            let ghost sofar = line@;
            let window = slice_subrange(self.buf.as_slice(), self.pos, self.cap);
            let (taken, complete) = take_line(window, line);
            proof {
                lemma_line_len(staged);
                lemma_first_line_of_concat(staged, rest);
                lemma_first_line_of_concat(sofar, staged + rest);
            }
            assert(len + taken == line.len());
            self.pos = self.pos + taken;
            len = len + taken;
            assert(self.staged() =~= after_first_line(staged));
            if complete {
                proof {
                    if sofar.len() == 0 {
                        assert(line@ =~= first_line(staged));
                    }
                }
                return Ok(len);
            }
        }
    }
}

} // verus!
