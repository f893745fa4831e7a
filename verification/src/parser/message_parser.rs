//! The incremental parser: it keeps what one call could not settle and
//! takes it up again with the next chunk.

use vstd::prelude::*;
use vstd::slice::{slice_subrange, slice_to_vec};
use crate::parser::framing::{
    find_marker, idle, lemma_first_marker_is_marker, lemma_scan_rest_is_idle, read_frame_at, scan,
    ParseFault, Step,
};
use crate::parser::message::{decoded, lemma_texts_push, plainly_decoded, texts, Message};

verus! {

/// What a parser holds between two calls.
pub struct ParserModel {
    /// The bytes not yet resolved: from the marker of the frame that is not
    /// complete yet, or, without a marker, from the end of the last payload.
    pub leftover: Seq<u8>,
    /// The malformed header that stopped the parser, if one did.
    pub fault: Option<ParseFault>,
}

/// What one call does: the state after it and the payloads it hands out.
pub struct FeedModel {
    pub state: ParserModel,
    pub payloads: Seq<Seq<u8>>,
}

/// The state of a parser that has seen nothing.
pub open spec fn fresh() -> ParserModel {
    ParserModel { leftover: Seq::empty(), fault: None }
}

/// Feeds one chunk to a parser in state `state`.
///
/// A stopped parser stays as it is. Otherwise the leftover and the chunk are
/// scanned as one buffer. Of a frame that is not complete yet everything is
/// kept from its marker on; without a marker, everything behind the last
/// complete frame is kept; nothing is kept once a header is found malformed.
pub open spec fn feed(state: ParserModel, chunk: Seq<u8>) -> FeedModel {
    if state.fault is Some {
        FeedModel { state, payloads: Seq::empty() }
    } else {
        let working = state.leftover + chunk;
        let found = scan(working);
        FeedModel {
            state: ParserModel { leftover: working.skip(found.rest), fault: found.fault },
            payloads: found.payloads,
        }
    }
}

/// The states a parser can be in: its leftover holds no complete frame, no
/// malformed header and no filler before a marker, and a stopped parser
/// holds nothing.
pub open spec fn settled(state: ParserModel) -> bool {
    match state.fault {
        Some(_) => state.leftover.len() == 0,
        None => idle(state.leftover),
    }
}

/// Decoder of one stream of frames, fed chunk by chunk.
#[derive(Debug)]
pub struct MessageParser {
    leftover: Vec<u8>,
    fault: Option<ParseFault>,
}

impl View for MessageParser {
    type V = ParserModel;

    closed spec fn view(&self) -> ParserModel {
        ParserModel { leftover: self.leftover@, fault: self.fault }
    }
}

/// Joins two byte slices into one buffer.
fn joined(head: &[u8], tail: &[u8]) -> (all: Vec<u8>)
    ensures
        all@ == head@ + tail@,
{
    let mut all = slice_to_vec(head);
    let mut i: usize = 0;
    while i < tail.len()
        invariant
            i <= tail@.len(),
            all@ == head@ + tail@.take(i as int),
        decreases tail@.len() - i,
    {
        all.push(tail[i]);
        assert(tail@.take(i + 1) =~= tail@.take(i as int).push(tail@[i as int]));
        i += 1;
    }
    assert(tail@.take(i as int) =~= tail@);
    all
}

impl MessageParser {
    #[verifier::type_invariant]
    spec fn is_settled(self) -> bool {
        settled(self@)
    }

    /// A parser that has seen nothing.
    pub fn new() -> (parser: Self)
        ensures
            parser@ == fresh(),
            settled(parser@),
    {
        MessageParser { leftover: Vec::new(), fault: None }
    }

    /// The bytes kept for the next call.
    pub fn leftover(&self) -> (bytes: &[u8])
        ensures
            bytes@ == self@.leftover,
            settled(self@),
    {
        proof {
            use_type_invariant(self);
        }
        self.leftover.as_slice()
    }

    /// The malformed header that stopped this parser, if one did.
    pub fn fault(&self) -> (fault: Option<ParseFault>)
        ensures
            fault == self@.fault,
    {
        self.fault
    }

    /// Takes the next chunk of the stream and returns the messages whose
    /// frames it completes, in the order of the stream.
    ///
    /// The state moves as `feed` says. An empty chunk changes nothing and
    /// yields nothing.
    pub fn parse(&mut self, buffer: &[u8]) -> (messages: Vec<Message>)
        ensures
            settled(old(self)@),
            settled(final(self)@),
            final(self)@ == feed(old(self)@, buffer@).state,
            messages@.len() == feed(old(self)@, buffer@).payloads.len(),
            texts(messages@) == decoded(feed(old(self)@, buffer@).payloads),
            plainly_decoded(messages@, feed(old(self)@, buffer@).payloads),
            buffer@.len() == 0 ==> final(self)@ == old(self)@ && messages@.len() == 0,
    {
        proof {
            use_type_invariant(&*self);
        }
        let mut messages: Vec<Message> = Vec::new();
        if self.fault.is_some() {
            assert(texts(messages@) =~= decoded(Seq::empty()));
            return messages;
        }
        let working = joined(self.leftover.as_slice(), buffer);
        let n = working.len();
        let ghost w = working@;
        let ghost mut emitted: Seq<Seq<u8>> = Seq::empty();
        let mut rest: usize = 0;
        let mut fault: Option<ParseFault> = None;
        proof {
            assert(w.skip(0) =~= w);
            assert(Seq::<Seq<u8>>::empty() + scan(w).payloads =~= scan(w).payloads);
            assert(texts(messages@) =~= decoded(emitted));
            if buffer@.len() == 0 {
                assert(w =~= old(self)@.leftover);
            }
        }
        loop
            invariant_except_break
                fault is None,
                rest <= n,
                scan(w).payloads == emitted + scan(w.skip(rest as int)).payloads,
                scan(w).rest == rest + scan(w.skip(rest as int)).rest,
                scan(w).fault == scan(w.skip(rest as int)).fault,
            invariant
                working@ == w,
                n == w.len(),
                messages@.len() == emitted.len(),
                texts(messages@) == decoded(emitted),
                plainly_decoded(messages@, emitted),
            ensures
                rest <= n,
                scan(w).payloads == emitted,
                scan(w).fault == fault,
                fault is None ==> scan(w).rest == rest,
                fault is Some ==> scan(w).rest == n,
                messages@.len() == emitted.len(),
                texts(messages@) == decoded(emitted),
                plainly_decoded(messages@, emitted),
            decreases n - rest,
        {
            let tail = slice_subrange(working.as_slice(), rest, n);
            assert(tail@ == w.skip(rest as int));
            assert(emitted + Seq::<Seq<u8>>::empty() =~= emitted);
            let m = match find_marker(tail, 0) {
                None => {
                    break ;
                },
                Some(m) => m,
            };
            proof {
                lemma_first_marker_is_marker(tail@, 0);
            }
            match read_frame_at(tail, m) {
                Step::Pending => {
                    rest = rest + m;
                    break ;
                },
                Step::Fault(found) => {
                    fault = Some(found);
                    break ;
                },
                Step::Frame { start, end } => {
                    let message = Message::from_payload(slice_subrange(tail, start, end));
                    let ghost before = messages@;
                    messages.push(message);
                    proof {
                        let payload = tail@.subrange(start as int, end as int);
                        let behind = scan(tail@.skip(end as int));
                        assert(tail@.skip(end as int) =~= w.skip(rest + end));
                        assert(emitted + (seq![payload] + behind.payloads) =~= emitted.push(payload)
                            + behind.payloads);
                        lemma_texts_push(before, message, emitted, payload);
                        emitted = emitted.push(payload);
                    }
                    rest = rest + end;
                },
            }
        }
        proof {
            lemma_scan_rest_is_idle(w);
        }
        let leftover = match fault {
            None => slice_to_vec(slice_subrange(working.as_slice(), rest, n)),
            Some(_) => Vec::new(),
        };
        proof {
            assert(fault is Some ==> w.skip(n as int) =~= leftover@);
        }
        *self = MessageParser { leftover, fault };
        messages
    }
}

} // verus!
