//! What a request brings back: the body of the response, taken in part by
//! part, and the text that it holds.

use vstd::prelude::*;
use vstd::utf8::{decode_utf8, valid_utf8};

verus! {

/// The body of a response, as far as it has come in.
#[derive(Debug)]
pub struct Body {
    bytes: Vec<u8>,
}

impl View for Body {
    type V = Seq<u8>;

    closed spec fn view(&self) -> Seq<u8> {
        self.bytes@
    }
}

/// The text that the bytes of a body hold: none where they are not UTF-8.
pub open spec fn text_of_body(bytes: Seq<u8>) -> Option<Seq<char>> {
    if valid_utf8(bytes) {
        Some(decode_utf8(bytes))
    } else {
        None
    }
}

/// Turns the bytes of a response body into text with `String::from_utf8`,
/// which accepts them where they are UTF-8 and then holds exactly the
/// characters that they encode.
#[verifier::external_body]
fn text_from_utf8(bytes: Vec<u8>) -> (r: Option<String>)
    ensures
        r is Some <==> valid_utf8(bytes@),
        r matches Some(text) ==> text@ == decode_utf8(bytes@),
{
    String::from_utf8(bytes).ok()
}

/// The text of a response body: none where the bytes are not UTF-8.
pub fn decode_body(bytes: Vec<u8>) -> (r: Option<String>)
    ensures
        r.deep_view() == text_of_body(bytes@),
{
    text_from_utf8(bytes)
}

impl Body {
    /// A body of which nothing has come in yet.
    pub fn new() -> (r: Body)
        ensures
            r@ == Seq::<u8>::empty(),
    {
        Body { bytes: Vec::new() }
    }

    /// Takes in the next part of the body, and returns how many bytes of it
    /// were taken: all of them.
    pub fn receive(&mut self, part: &[u8]) -> (taken: usize)
        ensures
            final(self)@ == old(self)@ + part@,
            taken == part@.len(),
    {
        self.bytes.extend_from_slice(part);
        assert(self.bytes@ =~= old(self).bytes@ + part@);
        part.len()
    }

    /// The text of the body: none where the bytes are not UTF-8.
    pub fn into_text(self) -> (r: Option<String>)
        ensures
            r.deep_view() == text_of_body(self@),
    {
        decode_body(self.bytes)
    }
}

} // verus!
