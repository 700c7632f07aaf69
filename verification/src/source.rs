//! The stream source: a zstd decoder that pulls from compressed bytes held in
//! memory. Everything here is believed, not proved.

use vstd::prelude::*;

verus! {

/// `zstd::stream::read::Decoder`, carried through as an opaque value.
#[verifier::external_type_specification]
#[verifier::external_body]
#[verifier::reject_recursive_types(R)]
pub struct ExDecoder<'a, R>(zstd::stream::read::Decoder<'a, R>);

/// `std::io::BufReader`, which `Decoder::new` puts around its input.
#[verifier::external_type_specification]
#[verifier::external_body]
#[verifier::reject_recursive_types(R)]
pub struct ExBufReader<R: ?Sized>(std::io::BufReader<R>);

/// `std::io::Cursor`, the in-memory input of the decoder.
#[verifier::external_type_specification]
#[verifier::external_body]
#[verifier::reject_recursive_types(T)]
pub struct ExCursor<T>(std::io::Cursor<T>);

/// `std::io::Error`, the error of the decoder's calls.
#[verifier::external_type_specification]
#[verifier::external_body]
pub struct ExIoError(std::io::Error);

/// The decompressed bytes that a decoder newly made over `compressed` has to
/// deliver.
pub uninterp spec fn decompressed(compressed: Seq<u8>) -> Seq<u8>;

/// The decompressed bytes that `decoder` has yet to deliver.
pub uninterp spec fn pending(
    decoder: zstd::stream::read::Decoder<'static, std::io::BufReader<std::io::Cursor<Vec<u8>>>>,
) -> Seq<u8>;

/// No read of `decoder` fails, now or later, whatever the size of the buffer
/// that it is given.
pub uninterp spec fn sound(
    decoder: zstd::stream::read::Decoder<'static, std::io::BufReader<std::io::Cursor<Vec<u8>>>>,
) -> bool;

/// A decoder newly made over `compressed` is sound: the bytes are frames
/// that decompress without error to their end.
pub uninterp spec fn well_formed(compressed: Seq<u8>) -> bool;

/// A decoder can be made over `compressed`.
pub uninterp spec fn opens(compressed: Seq<u8>) -> bool;

/// `decoder` has reported the end of its stream.
pub uninterp spec fn finished(
    decoder: zstd::stream::read::Decoder<'static, std::io::BufReader<std::io::Cursor<Vec<u8>>>>,
) -> bool;

/// `compressed` begins with the whole header of a frame, and that header is
/// valid.
pub uninterp spec fn begins_with_frame_header(compressed: Seq<u8>) -> bool;

/// `zstd::zstd_safe::get_frame_content_size`, asked only whether it succeeds.
/// It succeeds when the bytes begin with the whole, valid header of a frame,
/// and fails when they are too short for one or the header is corrupt.
#[verifier::external_body]
pub(crate) fn has_frame_header(compressed: &Vec<u8>) -> (r: bool)
    ensures
        r == begins_with_frame_header(compressed@),
{
    zstd::zstd_safe::get_frame_content_size(compressed.as_slice()).is_ok()
}

/// `zstd::stream::read::Decoder::new` over a `std::io::Cursor` that owns the
/// compressed bytes. Whether the call succeeds is a matter of the bytes alone,
/// which it does not read. What the new decoder has to deliver is the
/// decompressed form of those bytes, and it is sound exactly when the bytes
/// are well formed.
#[verifier::external_body]
pub(crate) fn open_decoder(compressed: Vec<u8>) -> (r: Result<
    zstd::stream::read::Decoder<'static, std::io::BufReader<std::io::Cursor<Vec<u8>>>>,
    std::io::Error,
>)
    ensures
        r is Ok <==> opens(compressed@),
        r matches Ok(decoder) ==> pending(decoder) == decompressed(compressed@),
        r matches Ok(decoder) ==> sound(decoder) == well_formed(compressed@),
{
    zstd::stream::read::Decoder::new(std::io::Cursor::new(compressed))
}

/// `std::io::Read::read` of the decoder, into the whole of `buf`. The buffer
/// keeps its length. A successful call takes the first `n` pending bytes and
/// puts them at the front of `buf`; `n` is 0 only when nothing is pending, and
/// the decoder is then finished. A finished decoder answers 0 and stays
/// finished. A sound decoder succeeds and stays sound. Nothing is said of the
/// bytes of `buf` from `n` on, nor of a call that fails, but that the decoder
/// was neither finished nor sound. An empty buffer is left out: the decoder
/// loops until it has written something. The call is taken not to panic.
#[verifier::external_body]
pub(crate) fn pull(
    decoder: &mut zstd::stream::read::Decoder<
        'static,
        std::io::BufReader<std::io::Cursor<Vec<u8>>>,
    >,
    buf: &mut Vec<u8>,
) -> (r: Result<usize, std::io::Error>)
    requires
        old(buf).len() > 0,
    ensures
        final(buf).len() == old(buf).len(),
        match r {
            Ok(n) => {
                &&& n <= old(buf).len()
                &&& n <= pending(*old(decoder)).len()
                &&& final(buf)@.take(n as int) == pending(*old(decoder)).take(n as int)
                &&& pending(*final(decoder)) == pending(*old(decoder)).skip(n as int)
                &&& n == 0 ==> pending(*old(decoder)).len() == 0 && finished(*final(decoder))
                &&& finished(*old(decoder)) ==> n == 0
            },
            Err(_) => !finished(*old(decoder)),
        },
        sound(*old(decoder)) ==> r is Ok && sound(*final(decoder)),
    no_unwind
{
    std::io::Read::read(decoder, buf.as_mut_slice())
}

/// `memchr::memchr`: the index of the first occurrence of `needle` in
/// `haystack`, or `None` if it does not occur.
pub assume_specification[ memchr::memchr ](needle: u8, haystack: &[u8]) -> (r: Option<usize>)
    ensures
        match r {
            Some(i) => i < haystack@.len() && haystack@[i as int] == needle && forall|j: int|
                0 <= j < i ==> haystack@[j] != needle,
            None => forall|j: int| 0 <= j < haystack@.len() ==> haystack@[j] != needle,
        },
;

} // verus!
