//! Why the cut of a stream into chunks does not matter.
//!
//! Whatever the scan settles on a buffer stays settled when more bytes are
//! appended, and filler before a marker has no say in what the marker
//! starts. So a parser that keeps the bytes from the marker of the frame in
//! progress, and scans them again with the next chunk, hands out the same
//! payloads as one scan of the whole stream.

use vstd::prelude::*;
use crate::parser::framing::{
    digits_end, first_frame, first_marker, header_at, is_digit, kept_from,
    lemma_digits_end_bounds, lemma_filler_is_inert, lemma_first_marker_is_marker, lemma_frame_at_shifts,
    lemma_frame_bounds, lemma_marker_comes_first, lemma_scan_bounds, lemma_scan_rest_is_idle,
    marker, marker_at, scan, HeaderModel, ScanModel, StepModel,
};
use crate::parser::message::{decoded, lemma_decoded_concat};
use crate::parser::message_parser::{feed, fresh, settled, FeedModel, ParserModel};

verus! {

/// Whether the marker stands at an offset does not depend on what follows
/// the sixteen bytes there.
pub proof fn lemma_marker_at_extends(a: Seq<u8>, b: Seq<u8>, i: int)
    requires
        0 <= i,
        i + 16 <= a.len(),
    ensures
        marker_at(a + b, i) == marker_at(a, i),
{
    if marker_at(a, i) {
        assert forall|j: int| i <= j < i + 16 implies #[trigger] (a + b)[j]
            == marker()[j - i] by {
            assert(a[j] == marker()[j - i]);
        }
    }
    if marker_at(a + b, i) {
        assert forall|j: int| i <= j < i + 16 implies #[trigger] a[j]
            == marker()[j - i] by {
            assert((a + b)[j] == marker()[j - i]);
        }
    }
}

/// A marker found in a buffer is the first one of every longer buffer.
pub proof fn lemma_first_marker_extends(a: Seq<u8>, b: Seq<u8>, from: int)
    requires
        first_marker(a, from) is Some,
    ensures
        first_marker(a + b, from) == first_marker(a, from),
    decreases a.len() - from,
{
    if from < 0 || from + 16 > a.len() {
    } else {
        lemma_marker_at_extends(a, b, from);
        if !marker_at(a, from) {
            lemma_first_marker_extends(a, b, from + 1);
        }
    }
}

/// A run of digits that ends inside a buffer ends there in every longer one.
pub proof fn lemma_digits_end_extends(a: Seq<u8>, b: Seq<u8>, i: int)
    requires
        0 <= i <= a.len(),
        digits_end(a, i) < a.len(),
    ensures
        digits_end(a + b, i) == digits_end(a, i),
    decreases a.len() - i,
{
    if i < a.len() && is_digit(a[i]) {
        assert((a + b)[i] == a[i]);
        lemma_digits_end_extends(a, b, i + 1);
    } else {
        assert((a + b)[i] == a[i]);
    }
}

/// A header that a buffer settles reads the same in every longer buffer.
pub proof fn lemma_header_extends(a: Seq<u8>, b: Seq<u8>, m: int)
    requires
        0 <= m,
        m + 16 <= a.len(),
        !(header_at(a, m) is Pending),
    ensures
        header_at(a + b, m) == header_at(a, m),
{
    let first = m + 16;
    let last = digits_end(a, first);
    lemma_digits_end_bounds(a, first);
    lemma_digits_end_extends(a, b, first);
    assert((a + b).subrange(first, last) =~= a.subrange(first, last));
}

/// A frame or a fault at the front of a buffer stands at the front of every
/// longer buffer.
pub proof fn lemma_first_frame_extends(a: Seq<u8>, b: Seq<u8>)
    requires
        !(first_frame(a) is Pending),
    ensures
        first_frame(a + b) == first_frame(a),
{
    lemma_first_marker_is_marker(a, 0);
    lemma_first_marker_extends(a, b, 0);
    let m = first_marker(a, 0)->Some_0;
    lemma_header_extends(a, b, m);
}

/// Where a buffer settles nothing, a scan of it with more bytes is a scan
/// of what it keeps with those bytes, that much further on.
pub proof fn lemma_pending_scan_extends(a: Seq<u8>, b: Seq<u8>)
    requires
        first_frame(a) is Pending,
    ensures
        scan(a + b) == (ScanModel {
            payloads: scan(a.skip(kept_from(a)) + b).payloads,
            rest: kept_from(a) + scan(a.skip(kept_from(a)) + b).rest,
            fault: scan(a.skip(kept_from(a)) + b).fault,
        }),
{
    match first_marker(a, 0) {
        None => {
            assert(a.skip(0) + b =~= a + b);
        },
        Some(m) => {
            lemma_first_marker_is_marker(a, 0);
            lemma_first_marker_extends(a, b, 0);
            lemma_filler_is_inert(a + b, m);
            assert((a + b).skip(m) =~= a.skip(m) + b);
        },
    }
}

/// Scanning a buffer and then what it left together with more bytes finds
/// what one scan of both finds.
pub proof fn lemma_scan_extends(a: Seq<u8>, b: Seq<u8>)
    ensures
        scan(a).fault is Some ==> scan(a + b) == (ScanModel {
            payloads: scan(a).payloads,
            rest: (a + b).len() as int,
            fault: scan(a).fault,
        }),
        scan(a).fault is None ==> scan(a + b) == (ScanModel {
            payloads: scan(a).payloads + scan(a.skip(scan(a).rest) + b).payloads,
            rest: scan(a).rest + scan(a.skip(scan(a).rest) + b).rest,
            fault: scan(a.skip(scan(a).rest) + b).fault,
        }),
    decreases a.len(),
{
    lemma_frame_bounds(a);
    match first_frame(a) {
        StepModel::Pending => {
            lemma_pending_scan_extends(a, b);
            let kept = a.skip(scan(a).rest);
            assert(Seq::<Seq<u8>>::empty() + scan(kept + b).payloads =~= scan(kept + b).payloads);
        },
        StepModel::Fault(_) => {
            lemma_first_frame_extends(a, b);
        },
        StepModel::Frame { start, end } => {
            lemma_first_frame_extends(a, b);
            let behind = a.skip(end);
            assert((a + b).skip(end) =~= behind + b);
            assert((a + b).subrange(start, end) =~= a.subrange(start, end));
            lemma_scan_extends(behind, b);
            lemma_scan_bounds(behind);
            let first = seq![a.subrange(start, end)];
            if scan(behind).fault is None {
                let kept = behind.skip(scan(behind).rest);
                assert(kept =~= a.skip(end + scan(behind).rest));
                assert(first + (scan(behind).payloads + scan(kept + b).payloads) =~= (first + scan(
                    behind,
                ).payloads) + scan(kept + b).payloads);
            } else {
                assert((behind + b).len() + end == (a + b).len());
            }
        },
    }
}

/// Two chunks fed one after the other leave the parser where their
/// concatenation fed at once leaves it, and hand out the same payloads in
/// the same order.
///
/// The cut may fall anywhere: inside the marker, the digits, the line ends
/// or the payload.
pub proof fn lemma_feed_split(state: ParserModel, a: Seq<u8>, b: Seq<u8>)
    ensures
        feed(feed(state, a).state, b).state == feed(state, a + b).state,
        feed(state, a).payloads + feed(feed(state, a).state, b).payloads == feed(
            state,
            a + b,
        ).payloads,
        decoded(feed(state, a).payloads) + decoded(feed(feed(state, a).state, b).payloads)
            == decoded(feed(state, a + b).payloads),
{
    lemma_decoded_concat(feed(state, a).payloads, feed(feed(state, a).state, b).payloads);
    if state.fault is Some {
        assert(Seq::<Seq<u8>>::empty() + Seq::<Seq<u8>>::empty() =~= Seq::<Seq<u8>>::empty());
    } else {
        let first = state.leftover + a;
        let both = state.leftover + (a + b);
        assert(both =~= first + b);
        lemma_scan_extends(first, b);
        lemma_scan_bounds(first);
        if scan(first).fault is Some {
            assert(first.skip(first.len() as int) =~= both.skip(both.len() as int));
            assert(scan(first).payloads + Seq::<Seq<u8>>::empty() =~= scan(first).payloads);
            lemma_fault_keeps_nothing(first);
        } else {
            let kept = first.skip(scan(first).rest);
            lemma_scan_bounds(kept + b);
            assert((kept + b).skip(scan(kept + b).rest) =~= both.skip(scan(first).rest + scan(
                kept + b,
            ).rest));
        }
    }
}

/// A scan that ends in a fault claims the whole buffer.
pub proof fn lemma_fault_keeps_nothing(s: Seq<u8>)
    ensures
        scan(s).fault is Some ==> scan(s).rest == s.len(),
    decreases s.len(),
{
    lemma_frame_bounds(s);
    if let StepModel::Frame { start, end } = first_frame(s) {
        lemma_fault_keeps_nothing(s.skip(end));
    }
}

/// The bytes of a stream that came in the given chunks.
pub open spec fn concat(chunks: Seq<Seq<u8>>) -> Seq<u8>
    decreases chunks.len(),
{
    if chunks.len() == 0 {
        Seq::empty()
    } else {
        concat(chunks.drop_last()) + chunks.last()
    }
}

/// Feeds the chunks one after the other, and collects the payloads.
pub open spec fn feed_all(state: ParserModel, chunks: Seq<Seq<u8>>) -> FeedModel
    decreases chunks.len(),
{
    if chunks.len() == 0 {
        FeedModel { state, payloads: Seq::empty() }
    } else {
        let before = feed_all(state, chunks.drop_last());
        let last = feed(before.state, chunks.last());
        FeedModel { state: last.state, payloads: before.payloads + last.payloads }
    }
}

/// An empty chunk changes nothing and yields nothing.
pub proof fn lemma_feed_empty(state: ParserModel)
    requires
        settled(state),
    ensures
        feed(state, Seq::empty()) == (FeedModel { state, payloads: Seq::empty() }),
{
    if state.fault is None {
        assert(state.leftover + Seq::<u8>::empty() =~= state.leftover);
        assert(state.leftover.skip(0) =~= state.leftover);
    }
}

/// Chunking invariance: however a stream is cut into chunks, feeding them in
/// order leaves the parser in the state, and hands out the payloads, of one
/// call with the whole stream.
pub proof fn lemma_chunking_invariance(state: ParserModel, chunks: Seq<Seq<u8>>)
    requires
        settled(state),
    ensures
        feed_all(state, chunks) == feed(state, concat(chunks)),
    decreases chunks.len(),
{
    if chunks.len() == 0 {
        lemma_feed_empty(state);
    } else {
        lemma_chunking_invariance(state, chunks.drop_last());
        lemma_feed_split(state, concat(chunks.drop_last()), chunks.last());
    }
}

/// A parser stays settled whatever it is fed.
pub proof fn lemma_feed_settled(state: ParserModel, chunk: Seq<u8>)
    requires
        settled(state),
    ensures
        settled(feed(state, chunk).state),
{
    if state.fault is None {
        let working = state.leftover + chunk;
        lemma_scan_rest_is_idle(working);
        lemma_fault_keeps_nothing(working);
    }
}

/// While the buffer is shorter than the first header says, nothing is handed
/// out, and the bytes from the marker on are kept.
pub proof fn lemma_short_payload_waits(state: ParserModel, chunk: Seq<u8>, m: int)
    requires
        state.fault is None,
        first_marker(state.leftover + chunk, 0) == Some(m),
        header_at(state.leftover + chunk, m) matches HeaderModel::Body { start, len } && (
        state.leftover + chunk).len() < start + len,
    ensures
        feed(state, chunk).payloads.len() == 0,
        feed(state, chunk).state == (ParserModel {
            leftover: (state.leftover + chunk).skip(m),
            fault: None,
        }),
{
}

/// While the buffer ends inside the first header, nothing is handed out, and
/// the bytes from the marker on are kept.
pub proof fn lemma_cut_header_waits(state: ParserModel, chunk: Seq<u8>, m: int)
    requires
        state.fault is None,
        first_marker(state.leftover + chunk, 0) == Some(m),
        header_at(state.leftover + chunk, m) is Pending,
    ensures
        feed(state, chunk).payloads.len() == 0,
        feed(state, chunk).state == (ParserModel {
            leftover: (state.leftover + chunk).skip(m),
            fault: None,
        }),
{
}

/// Once the buffer reaches as far as the first header says, the payload is
/// handed out first, whole and unchanged.
pub proof fn lemma_complete_payload_comes(state: ParserModel, chunk: Seq<u8>, m: int)
    requires
        state.fault is None,
        first_marker(state.leftover + chunk, 0) == Some(m),
        header_at(state.leftover + chunk, m) matches HeaderModel::Body { start, len } && start
            + len <= (state.leftover + chunk).len(),
    ensures
        feed(state, chunk).payloads.len() >= 1,
        header_at(state.leftover + chunk, m) matches HeaderModel::Body { start, len } && feed(
            state,
            chunk,
        ).payloads[0] == (state.leftover + chunk).subrange(start, start + len),
{
}

/// A frame cut by the end of a chunk comes once: not with the chunk that
/// stops short of its last byte, and first with the chunk that brings it.
pub proof fn lemma_split_frame_comes_once(state: ParserModel, a: Seq<u8>, b: Seq<u8>, m: int)
    requires
        state.fault is None,
        first_marker(state.leftover + a, 0) == Some(m),
        header_at(state.leftover + a, m) matches HeaderModel::Body { start, len } && (
        state.leftover + a).len() < start + len <= (state.leftover + a + b).len(),
    ensures
        feed(state, a).payloads.len() == 0,
        feed(feed(state, a).state, b).payloads.len() >= 1,
        header_at(state.leftover + a, m) matches HeaderModel::Body { start, len } && feed(
            feed(state, a).state,
            b,
        ).payloads[0] == (state.leftover + a + b).subrange(start, start + len),
{
    let seen = state.leftover + a;
    let kept = seen.skip(m);
    lemma_short_payload_waits(state, a, m);
    lemma_marker_comes_first(seen, m);
    lemma_first_marker_extends(seen, b, 0);
    lemma_header_extends(seen, b, m);
    lemma_frame_at_shifts(seen + b, m);
    assert((seen + b).skip(m) =~= kept + b);
    if let HeaderModel::Body { start, len } = header_at(seen, m) {
        assert((kept + b).subrange(start - m, start - m + len) =~= (seen + b).subrange(
            start,
            start + len,
        ));
    }
    lemma_marker_comes_first(seen + b, m);
}

/// Without a marker nothing is handed out and every byte is kept.
pub proof fn lemma_filler_is_kept(state: ParserModel, chunk: Seq<u8>)
    requires
        state.fault is None,
        first_marker(state.leftover + chunk, 0) is None,
    ensures
        feed(state, chunk) == (FeedModel {
            state: ParserModel { leftover: state.leftover + chunk, fault: None },
            payloads: Seq::empty(),
        }),
{
    let working = state.leftover + chunk;
    assert(working.skip(0) =~= working);
}

/// A malformed header at the front stops the parser: nothing is handed out,
/// nothing is kept, and nothing that comes later is looked at.
pub proof fn lemma_fault_stops_the_parser(state: ParserModel, chunk: Seq<u8>, later: Seq<u8>)
    requires
        state.fault is None,
        first_frame(state.leftover + chunk) is Fault,
    ensures
        feed(state, chunk).payloads.len() == 0,
        feed(state, chunk).state.fault == Some(first_frame(state.leftover + chunk)->Fault_0),
        feed(state, chunk).state.leftover.len() == 0,
        feed(feed(state, chunk).state, later) == (FeedModel {
            state: feed(state, chunk).state,
            payloads: Seq::empty(),
        }),
{
}

/// The bytes `frame` are one frame with payload `payload`, and nothing else.
pub open spec fn is_frame(frame: Seq<u8>, payload: Seq<u8>) -> bool {
    &&& first_marker(frame, 0) == Some(0int)
    &&& first_frame(frame) matches StepModel::Frame { start, end }
    &&& end == frame.len()
    &&& frame.subrange(start, end) == payload
}

/// Two frames, one behind the other in one buffer, give their two payloads
/// in that order, and nothing is left.
pub proof fn lemma_two_frames(
    first: Seq<u8>,
    first_payload: Seq<u8>,
    second: Seq<u8>,
    second_payload: Seq<u8>,
)
    requires
        is_frame(first, first_payload),
        is_frame(second, second_payload),
    ensures
        scan(first + second) == (ScanModel {
            payloads: seq![first_payload, second_payload],
            rest: (first + second).len() as int,
            fault: None,
        }),
        feed(fresh(), first + second) == (FeedModel {
            state: fresh(),
            payloads: seq![first_payload, second_payload],
        }),
{
    lemma_frame_bounds(first);
    lemma_frame_bounds(second);
    lemma_scan_extends(first, second);
    let nothing = Seq::<u8>::empty();
    assert(first.skip(first.len() as int) =~= nothing);
    assert(second.skip(second.len() as int) =~= nothing);
    assert(first_marker(nothing, 0) is None);
    assert(scan(nothing).payloads =~= Seq::<Seq<u8>>::empty());
    assert(nothing + second =~= second);
    assert(seq![first_payload] + Seq::<Seq<u8>>::empty() =~= seq![first_payload]);
    assert(seq![second_payload] + Seq::<Seq<u8>>::empty() =~= seq![second_payload]);
    assert(seq![first_payload] + seq![second_payload] =~= seq![first_payload, second_payload]);
    let both = first + second;
    assert(nothing + both =~= both);
    assert(both.skip(both.len() as int) =~= nothing);
}

} // verus!
