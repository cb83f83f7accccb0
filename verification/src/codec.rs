//! The stored form of a structured value: the MessagePack bytes that
//! `rmp_serde` writes for its document.
use crate::document::{json_model, Json};
use crate::transcode::{
    datum_of, document_of, faithful, json_to_value, lemma_document_round_trip, value_to_json,
};
use crate::value::{Datum, StructuredValue};
use vstd::prelude::*;
use vstd::string::StringExecFns;

verus! {

#[verifier::external_type_specification]
#[verifier::external_body]
pub struct ExEncodeError(rmp_serde::encode::Error);

#[verifier::external_type_specification]
#[verifier::external_body]
pub struct ExDecodeError(rmp_serde::decode::Error);

/// The bytes that `rmp_serde::encode::to_vec` writes for a document where it
/// succeeds.
pub uninterp spec fn msgpack_of(doc: Json) -> Seq<u8>;

/// The document that `rmp_serde::decode::from_read` reads from the front of
/// bytes, together with the number of bytes that it leaves unread; or `None`
/// where it fails.
pub uninterp spec fn msgpack_parse(bytes: Seq<u8>) -> Option<(Json, nat)>;

/// `rmp_serde::encode::to_vec` on a document: where it succeeds, the bytes
/// are those that it writes for what the document holds. Whether it succeeds
/// is not the document's alone to decide (the writer may fail to reserve
/// memory), so nothing is said of a failure.
#[verifier::external_body]
pub(crate) fn pack(doc: &serde_json::Value) -> (r: Result<Vec<u8>, rmp_serde::encode::Error>)
    ensures
        r matches Ok(bytes) ==> bytes@ == msgpack_of(json_model(*doc)),
{
    rmp_serde::encode::to_vec(doc)
}

/// `rmp_serde::decode::from_read` to a document, on a reader over the bytes:
/// the document that it reads from their front, and the number of bytes that
/// the reader is left with.
#[verifier::external_body]
pub(crate) fn unpack(bytes: &Vec<u8>) -> (r: Result<
    (serde_json::Value, usize),
    rmp_serde::decode::Error,
>)
    ensures
        match r {
            Ok((doc, unread)) => msgpack_parse(bytes@) == Some((json_model(doc), unread as nat)),
            Err(_) => msgpack_parse(bytes@).is_none(),
        },
{
    let mut rest: &[u8] = bytes.as_slice();
    let doc = rmp_serde::decode::from_read::<_, serde_json::Value>(&mut rest)?;
    Ok((doc, rest.len()))
}

/// The `Debug` text of a decoding error.
#[verifier::external_body]
pub(crate) fn describe(error: &rmp_serde::decode::Error) -> (text: String) {
    format!("{:?}", error)
}

/// The stored bytes of a datum: those that the encoder writes for its
/// document where it succeeds.
pub open spec fn encoding_of(d: Datum) -> Seq<u8> {
    msgpack_of(document_of(d))
}

/// The datum that stored bytes hold: that of the document that they are read
/// as, where they are read to their end. `None` where no document can be read
/// from them or where bytes are left over.
pub open spec fn decoding_of(bytes: Seq<u8>) -> Option<Datum> {
    match msgpack_parse(bytes) {
        Some((doc, unread)) => if unread == 0 {
            Some(datum_of(doc))
        } else {
            None
        },
        None => None,
    }
}

/// Why bytes could not be decoded: the decoder's complaint, or that bytes
/// were left over after the value.
#[derive(Debug, PartialEq, Eq)]
pub struct DecodeFailure {
    pub detail: String,
}

/// The bytes to store for a value, or `None` where the encoder fails. The
/// encoder decides whether it fails; the bytes that it gives are the stored
/// bytes of the value.
pub fn encode_value(value: &StructuredValue) -> (r: Option<Vec<u8>>)
    ensures
        r matches Some(bytes) ==> bytes@ == encoding_of(value@),
{
    let doc = value_to_json(value);
    match pack(&doc) {
        Ok(bytes) => Some(bytes),
        Err(_) => None,
    }
}

/// The value that stored bytes hold. The bytes must be one document and
/// nothing more: the decoder's complaint is returned where it cannot read
/// one, and a failure that says so where bytes are left over.
pub fn decode_value(bytes: &Vec<u8>) -> (r: Result<StructuredValue, DecodeFailure>)
    ensures
        match r {
            Ok(value) => decoding_of(bytes@) == Some(value@),
            Err(failure) => decoding_of(bytes@).is_none() && (msgpack_parse(bytes@).is_some()
                ==> failure.detail@ == "trailing bytes after the value"@),
        },
{
    match unpack(bytes) {
        Ok((doc, unread)) => if unread == 0 {
            Ok(json_to_value(&doc))
        } else {
            Err(DecodeFailure { detail: String::from_str("trailing bytes after the value") })
        },
        Err(error) => Err(DecodeFailure { detail: describe(&error) }),
    }
}

/// The decoder reads back, from the bytes written for `doc`, the document
/// `doc` itself and leaves no byte unread.
pub open spec fn reads_back(doc: Json) -> bool {
    msgpack_parse(msgpack_of(doc)) == Some((doc, 0nat))
}

/// Round trip: where the decoder reads back the document of a faithful datum,
/// decoding the datum's stored bytes gives the datum.
pub proof fn lemma_round_trip(d: Datum)
    requires
        faithful(d),
    ensures
        reads_back(document_of(d)) ==> decoding_of(encoding_of(d)) == Some(d),
{
    lemma_document_round_trip(d);
}

} // verus!
