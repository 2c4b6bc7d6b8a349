//! The bytes of a stored page: a compact record layout inside a DEFLATE stream.
//!
//! The record layout is written and read by `postcard`, the stream by `flate2`.
//! The functions that call them are the only unproved items of this module;
//! each states what it takes on trust.

use std::io::Read;
use std::io::Write;
use vstd::prelude::*;

verus! {

/// One entry as it is laid out: layer, neuron, and the four bytes of the score's
/// bit pattern, least significant first.
pub type Record = (u32, u32, u8, u8, u8, u8);

/// The variable-length encoding of an unsigned integer: seven bits per byte from
/// the least significant end, the top bit set on every byte but the last.
pub open spec fn varint(n: nat) -> Seq<u8>
    decreases n,
{
    if n < 128 {
        seq![n as u8]
    } else {
        seq![(n % 128 + 128) as u8] + varint(n / 128)
    }
}

/// The layout of one record: two variable-length integers and four plain bytes.
pub open spec fn record_layout(r: Record) -> Seq<u8> {
    varint(r.0 as nat) + varint(r.1 as nat) + seq![r.2, r.3, r.4, r.5]
}

/// The layouts of the records, one after the other.
pub open spec fn records_layout(records: Seq<Record>) -> Seq<u8>
    decreases records.len(),
{
    if records.len() == 0 {
        Seq::empty()
    } else {
        records_layout(records.drop_last()) + record_layout(records.last())
    }
}

/// The layout of a list of records: their number, then the records.
pub open spec fn list_layout(records: Seq<Record>) -> Seq<u8> {
    varint(records.len()) + records_layout(records)
}

/// What `postcard::from_bytes` reads from the bytes as a list of records, if it
/// accepts them.
pub uninterp spec fn postcard_parse(bytes: Seq<u8>) -> Option<Seq<Record>>;

/// The DEFLATE stream that `flate2` writes for the data at its default level,
/// or `None` where its encoder reports a failure.
pub uninterp spec fn deflated(data: Seq<u8>) -> Option<Seq<u8>>;

/// What `flate2` reads out of a DEFLATE stream, if it accepts the stream.
pub uninterp spec fn inflated(stream: Seq<u8>) -> Option<Seq<u8>>;

#[verifier::external_type_specification]
#[verifier::external_body]
pub struct ExPostcardError(postcard::Error);

#[verifier::external_type_specification]
#[verifier::external_body]
pub struct ExIoError(std::io::Error);

/// Calls `postcard::to_allocvec` on a list of records.
///
/// Taken on trust: the call succeeds, since the growable output buffer accepts
/// every byte and the list knows its length; the bytes follow the postcard wire
/// format for a sequence of tuples, which `list_layout` spells out; and
/// `postcard::from_bytes` reads the same list back from them.
#[verifier::external_body]
pub(crate) fn postcard_to_allocvec(records: &Vec<Record>) -> (written: Result<Vec<u8>, postcard::Error>)
    ensures
        written is Ok,
        written->Ok_0@ == list_layout(records@),
        postcard_parse(written->Ok_0@) == Some(records@),
{
    postcard::to_allocvec(records)
}

/// Calls `postcard::from_bytes` for a list of records.
///
/// Taken on trust: the outcome depends on the bytes alone.
#[verifier::external_body]
pub(crate) fn postcard_from_bytes(bytes: &Vec<u8>) -> (read: Result<Vec<Record>, postcard::Error>)
    ensures
        match read {
            Ok(records) => postcard_parse(bytes@) == Some(records@),
            Err(_) => postcard_parse(bytes@) is None,
        },
{
    postcard::from_bytes::<Vec<Record>>(bytes.as_slice())
}

/// Compresses with `flate2::write::DeflateEncoder` at the default level.
///
/// Taken on trust: whether the encoder reports a failure, and the stream that
/// it writes if it does not, depend on the data alone; and `flate2`'s decoder
/// gives the data back from that stream.
#[verifier::external_body]
pub(crate) fn deflate(data: &Vec<u8>) -> (stream: Result<Vec<u8>, std::io::Error>)
    ensures
        match stream {
            Ok(bytes) => deflated(data@) == Some(bytes@),
            Err(_) => deflated(data@) is None,
        },
        stream is Ok ==> inflated(stream->Ok_0@) == Some(data@),
{
    let mut encoder = flate2::write::DeflateEncoder::new(Vec::new(), flate2::Compression::default());
    encoder.write_all(data.as_slice())?;
    encoder.finish()
}

/// Decompresses with `flate2::bufread::DeflateDecoder`, reading to the end.
///
/// Taken on trust: the outcome depends on the stream alone.
#[verifier::external_body]
pub(crate) fn inflate(stream: &Vec<u8>) -> (data: Result<Vec<u8>, std::io::Error>)
    ensures
        match data {
            Ok(bytes) => inflated(stream@) == Some(bytes@),
            Err(_) => inflated(stream@) is None,
        },
{
    let mut decoder = flate2::bufread::DeflateDecoder::new(stream.as_slice());
    let mut data = Vec::new();
    decoder.read_to_end(&mut data)?;
    Ok(data)
}

} // verus!
