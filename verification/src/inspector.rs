//! The observer that a relay shows each chunk to before it forwards it.
//!
//! An inspector reads and never writes: it gets the chunk by shared
//! reference and hands back the messages that the chunk completes.

use vstd::prelude::*;
use crate::parser::framing::ParseFault;
use crate::parser::message::{decoded, plainly_decoded, texts, Message};
use crate::parser::message_parser::{feed, fresh, MessageParser, ParserModel};

verus! {

/// What an inspector holds between two chunks.
pub enum InspectorModel {
    /// The state of the parser that follows the stream.
    Parsing(ParserModel),
    /// Nothing: the stream carries no frames.
    Silent,
}

/// What an inspector makes of one chunk.
pub struct Observation {
    pub state: InspectorModel,
    pub payloads: Seq<Seq<u8>>,
}

/// Shows one chunk to an inspector in state `state`.
pub open spec fn observe(state: InspectorModel, chunk: Seq<u8>) -> Observation {
    match state {
        InspectorModel::Parsing(parser) => Observation {
            state: InspectorModel::Parsing(feed(parser, chunk).state),
            payloads: feed(parser, chunk).payloads,
        },
        InspectorModel::Silent => Observation { state, payloads: Seq::empty() },
    }
}

/// The malformed header that stopped an inspector's parser, if one did.
pub open spec fn fault_of(state: InspectorModel) -> Option<ParseFault> {
    match state {
        InspectorModel::Parsing(parser) => parser.fault,
        InspectorModel::Silent => None,
    }
}

/// Per-chunk observer of one stream.
#[derive(Debug)]
pub enum Inspector {
    /// Decodes the frames of the stream.
    Parsing(MessageParser),
    /// Looks at nothing; for streams of free text.
    Silent,
}

impl View for Inspector {
    type V = InspectorModel;

    open spec fn view(&self) -> InspectorModel {
        match self {
            Inspector::Parsing(parser) => InspectorModel::Parsing(parser@),
            Inspector::Silent => InspectorModel::Silent,
        }
    }
}

/// An inspector that decodes frames, with a parser that has seen nothing.
pub fn message_parser_inspector() -> (inspector: Inspector)
    ensures
        inspector@ == InspectorModel::Parsing(fresh()),
{
    Inspector::Parsing(MessageParser::new())
}

/// An inspector that looks at nothing.
pub fn empty_inspector() -> (inspector: Inspector)
    ensures
        inspector@ == InspectorModel::Silent,
{
    Inspector::Silent
}

impl Inspector {
    /// The malformed header that stopped the parser, if one did. A silent
    /// inspector never has one.
    pub fn fault(&self) -> (fault: Option<ParseFault>)
        ensures
            fault == fault_of(self@),
    {
        match self {
            Inspector::Parsing(parser) => parser.fault(),
            Inspector::Silent => None,
        }
    }

    /// Shows the inspector one chunk and returns the messages that the chunk
    /// completes: those of the parser for a parsing inspector, none for a
    /// silent one. The chunk itself is only read.
    pub fn inspect(&mut self, buffer: &[u8]) -> (messages: Vec<Message>)
        ensures
            final(self)@ == observe(old(self)@, buffer@).state,
            messages@.len() == observe(old(self)@, buffer@).payloads.len(),
            texts(messages@) == decoded(observe(old(self)@, buffer@).payloads),
            plainly_decoded(messages@, observe(old(self)@, buffer@).payloads),
            old(self)@ is Silent ==> messages@.len() == 0,
    {
        match self {
            Inspector::Parsing(parser) => parser.parse(buffer),
            Inspector::Silent => {
                let messages: Vec<Message> = Vec::new();
                assert(texts(messages@) =~= decoded(Seq::empty()));
                messages
            },
        }
    }
}

} // verus!
