//! A decoded message, and the decoding of a payload into text.

use vstd::prelude::*;
use vstd::utf8::{decode_utf8, valid_utf8};
use crate::parser::framing::{first_frame, next_frame, Step, StepModel};

verus! {

/// The text that `String::from_utf8_lossy` makes of a byte sequence: its
/// UTF-8 decoding, with U+FFFD in place of each ill-formed part.
pub uninterp spec fn lossy_utf8(bytes: Seq<u8>) -> Seq<char>;

/// The texts of a sequence of payloads.
pub open spec fn decoded(payloads: Seq<Seq<u8>>) -> Seq<Seq<char>> {
    Seq::new(payloads.len(), |i: int| lossy_utf8(payloads[i]))
}

/// The body of one frame, as text.
#[derive(Debug)]
pub struct Message {
    pub payload: String,
}

impl View for Message {
    type V = Seq<char>;

    open spec fn view(&self) -> Seq<char> {
        self.payload@
    }
}

/// The texts of a sequence of messages.
pub open spec fn texts(messages: Seq<Message>) -> Seq<Seq<char>> {
    Seq::new(messages.len(), |i: int| messages[i]@)
}

/// `text` is what decoding makes of `bytes`: the lossy decoding, which for
/// well-formed UTF-8 is the decoding itself.
pub open spec fn is_text_of(text: Seq<char>, bytes: Seq<u8>) -> bool {
    &&& text == lossy_utf8(bytes)
    &&& valid_utf8(bytes) ==> text == decode_utf8(bytes)
}

/// Each message whose payload is well-formed UTF-8 holds the decoding of
/// that payload.
pub open spec fn plainly_decoded(messages: Seq<Message>, payloads: Seq<Seq<u8>>) -> bool {
    forall|i: int|
        0 <= i < messages.len() && i < payloads.len() && valid_utf8(payloads[i]) ==> (
        #[trigger] messages[i])@ == decode_utf8(payloads[i])
}

/// Decoding goes message by message: one more payload, one more text.
pub proof fn lemma_texts_push(
    messages: Seq<Message>,
    message: Message,
    payloads: Seq<Seq<u8>>,
    payload: Seq<u8>,
)
    requires
        texts(messages) == decoded(payloads),
        plainly_decoded(messages, payloads),
        message@ == lossy_utf8(payload),
        valid_utf8(payload) ==> message@ == decode_utf8(payload),
    ensures
        texts(messages.push(message)) == decoded(payloads.push(payload)),
        plainly_decoded(messages.push(message), payloads.push(payload)),
{
    let longer = texts(messages.push(message));
    let wanted = decoded(payloads.push(payload));
    assert(messages.len() == texts(messages).len());
    assert(payloads.len() == decoded(payloads).len());
    assert forall|i: int| 0 <= i < longer.len() implies longer[i] == wanted[i] by {
        if i < messages.len() {
            assert(texts(messages)[i] == messages[i]@);
            assert(decoded(payloads)[i] == lossy_utf8(payloads[i]));
        }
    }
    assert(longer =~= wanted);
}

/// The texts of two runs of payloads, one after the other, are the texts of
/// the payloads taken as one run.
pub proof fn lemma_decoded_concat(first: Seq<Seq<u8>>, second: Seq<Seq<u8>>)
    ensures
        decoded(first + second) == decoded(first) + decoded(second),
{
    assert(decoded(first + second) =~= decoded(first) + decoded(second));
}

/// Calls `String::from_utf8_lossy` and takes the text as an owned `String`.
///
/// Trusted: the text is a function of the bytes alone, named `lossy_utf8`,
/// and for well-formed UTF-8 it is the decoding of the bytes.
#[verifier::external_body]
pub(crate) fn decode_lossy(bytes: &[u8]) -> (text: String)
    ensures
        text@ == lossy_utf8(bytes@),
        valid_utf8(bytes@) ==> text@ == decode_utf8(bytes@),
{
    String::from_utf8_lossy(bytes).into_owned()
}

impl Message {
    /// Makes the message that a payload stands for.
    pub fn from_payload(payload: &[u8]) -> (message: Message)
        ensures
            message@ == lossy_utf8(payload@),
            valid_utf8(payload@) ==> message@ == decode_utf8(payload@),
    {
        Message { payload: decode_lossy(payload) }
    }

    /// Decodes the first frame of a buffer that is complete in itself.
    ///
    /// Returns the frame's message, alone in a vector, when the first marker
    /// starts a well-formed header and the whole payload is there; `None`
    /// when the buffer has no marker, stops short or has a malformed header.
    pub fn parse(buffer: &[u8]) -> (found: Option<Vec<Message>>)
        ensures
            match first_frame(buffer@) {
                StepModel::Frame { start, end } => found matches Some(messages)
                    && texts(messages@) == seq![lossy_utf8(buffer@.subrange(start, end))]
                    && plainly_decoded(messages@, seq![buffer@.subrange(start, end)]),
                _ => found is None,
            },
    {
        match next_frame(buffer) {
            Step::Frame { start, end } => {
                let message = Message::from_payload(vstd::slice::slice_subrange(buffer, start, end));
                let mut messages: Vec<Message> = Vec::new();
                messages.push(message);
                assert(texts(messages@) =~= seq![lossy_utf8(buffer@.subrange(start as int, end as int))]);
                Some(messages)
            },
            _ => None,
        }
    }
}

} // verus!
