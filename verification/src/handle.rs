//! The reader as a handle with status codes, for callers that do not share
//! the library's memory management: a handle or none, a status and a line.

use crate::lines::{after_first_line, first_line, lemma_line_len, DELIMITER};
use crate::reader::{DecoderWrapper, BUF_SIZE};
use crate::source::{decompressed, well_formed};
use vstd::prelude::*;

verus! {

/// Handle of a line reader. It owns the reader and shows nothing of it.
pub struct ZstdLineReader {
    wrapper: DecoderWrapper,
}

impl View for ZstdLineReader {
    type V = DecoderWrapper;

    /// The reader behind the handle.
    closed spec fn view(&self) -> DecoderWrapper {
        self.wrapper
    }
}

/// Makes a handle for reading the lines of the compressed bytes `source`.
/// `None` stands for the null handle: the bytes do not begin with a valid
/// frame header, or the decoder could not be set up.
pub fn zstd_line_read_new(source: Vec<u8>) -> (r: Option<ZstdLineReader>)
    ensures
        r is Some <==> DecoderWrapper::can_be_read(source@),
        r matches Some(handle) ==> {
            &&& handle@.capacity() == BUF_SIZE
            &&& handle@.staged().len() == 0
            &&& handle@.stream() == decompressed(source@)
            &&& handle@.intact() == well_formed(source@)
        },
{
    handle_of(DecoderWrapper::new(source))
}

/// Reads the next line. The status is 0 when a line was read or the stream
/// has ended cleanly, and -1 when reading failed. With status 0, `line_p` holds
/// the line and `line_len_p` its length, or `None` and 0 at the end of the
/// stream. With status -1 both are left as they were.
///
/// The status is 0 whenever the reader behind the handle is intact, has a
/// whole line staged or is at its end. What is read, and how the reader
/// changes, is what `DecoderWrapper::read_line` says of its success and of its
/// failure.
pub fn zstd_line_read(
    reader: &mut ZstdLineReader,
    line_p: &mut Option<Vec<u8>>,
    line_len_p: &mut usize,
) -> (status: isize)
    ensures
        status == 0 || status == -1,
        status == 0 ==> {
            &&& match *final(line_p) {
                Some(line) => {
                    &&& line@.len() > 0
                    &&& line@ == first_line(old(reader)@.stream())
                    &&& *final(line_len_p) == line@.len()
                    &&& DecoderWrapper::line_read(
                        old(reader)@,
                        Ok(*final(line_len_p)),
                        line@,
                        final(reader)@,
                    )
                },
                None => {
                    &&& old(reader)@.stream().len() == 0
                    &&& *final(line_len_p) == 0
                    &&& DecoderWrapper::line_read(
                        old(reader)@,
                        Ok(0),
                        Seq::empty(),
                        final(reader)@,
                    )
                },
            }
            &&& final(reader)@.stream() == after_first_line(old(reader)@.stream())
        },
        status == -1 ==> {
            &&& *final(line_p) == *old(line_p)
            &&& *final(line_len_p) == *old(line_len_p)
            &&& DecoderWrapper::line_read(
                old(reader)@,
                Err(crate::error::LineReadError::ReadError),
                Seq::empty(),
                final(reader)@,
            )
        },
        old(reader)@.intact() ==> status == 0 && final(reader)@.intact(),
        old(reader)@.staged().contains(DELIMITER) ==> status == 0,
        old(reader)@.at_end() ==> status == 0 && *final(line_p) is None && final(reader)@.at_end(),
{
    proof {
        lemma_line_len(reader@.stream());
    }
    let mut line: Vec<u8> = Vec::with_capacity(BUF_SIZE);
    match reader.wrapper.read_line(&mut line) {
        Ok(len) => {
            if len == 0 {
                assert(line@ =~= Seq::<u8>::empty());
                *line_p = None;
                *line_len_p = 0;
            } else {
                *line_p = Some(line);
                *line_len_p = len;
            }
        },
        Err(_) => {
            assert(line@ =~= Seq::<u8>::empty());
            return -1;
        },
    }
    0
}

/// Turns what making a reader gave into a handle: the handle that owns that
/// reader, or `None`, the null handle, where no reader could be made.
pub fn handle_of(made: Result<DecoderWrapper, crate::error::LineReadError>) -> (r: Option<
    ZstdLineReader,
>)
    ensures
        match made {
            Ok(wrapper) => r matches Some(handle) && handle@ == wrapper,
            Err(_) => r is None,
        },
{
    match made {
        Ok(wrapper) => Some(ZstdLineReader { wrapper }),
        Err(_) => None,
    }
}

} // verus!
