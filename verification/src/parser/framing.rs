//! The wire format: where a frame starts, how long it is, and when the bytes
//! seen so far settle the question.
//!
//! A frame is the marker `Content-Length: `, a run of ASCII decimal digits,
//! two line ends (each `\n` or `\r\n`) and then as many payload bytes as the
//! digits say. Everything outside a frame is filler.
//!
//! All offsets are relative to the start of the byte sequence that a function
//! is given; the scan moves on by dropping what it has dealt with.

use vstd::prelude::*;

verus! {

/// Number of bytes in the marker.
pub const MARKER_LEN: usize = 16;

/// A header that cannot be the start of any frame, whatever bytes follow.
#[derive(Clone, Copy, Debug, PartialEq, Eq, Structural)]
pub enum ParseFault {
    /// The marker is followed by something that is not a digit.
    MissingLength,
    /// The digits denote a number that does not fit in `usize`.
    LengthOverflow,
    /// The digits are not followed by two line ends.
    MissingSeparator,
}

/// What stands at an offset where a line end is expected.
pub enum LineEndModel {
    /// The buffer stops before the question is settled.
    Pending,
    /// Something else stands there.
    Absent,
    /// A line end; the offset is that of the byte after it.
    At(int),
}

/// What a header says, read from its marker on.
pub enum HeaderModel {
    /// The buffer stops inside the header.
    Pending,
    /// The header is malformed.
    Fault(ParseFault),
    /// The payload starts at `start` and has `len` bytes.
    Body { start: int, len: nat },
}

/// What the front of a buffer holds.
pub enum StepModel {
    /// No frame yet: no marker, or a frame whose end has not arrived.
    Pending,
    /// The first header is malformed.
    Fault(ParseFault),
    /// The first frame is complete; its payload is `start..end`.
    Frame { start: int, end: int },
}

/// The bytes of `Content-Length: `.
pub open spec fn marker() -> Seq<u8> {
    seq![
        67u8, 111u8, 110u8, 116u8, 101u8, 110u8, 116u8, 45u8,
        76u8, 101u8, 110u8, 103u8, 116u8, 104u8, 58u8, 32u8,
    ]
}

/// The marker stands at offset `i` of `s`, wholly inside it.
pub open spec fn marker_at(s: Seq<u8>, i: int) -> bool {
    &&& 0 <= i
    &&& i + 16 <= s.len()
    &&& forall|j: int| i <= j < i + 16 ==> #[trigger] s[j] == marker()[j - i]
}

/// Offset of the first marker at or after `from`, if the buffer holds one.
pub open spec fn first_marker(s: Seq<u8>, from: int) -> Option<int>
    decreases s.len() - from,
{
    if from < 0 || from + 16 > s.len() {
        None
    } else if marker_at(s, from) {
        Some(from)
    } else {
        first_marker(s, from + 1)
    }
}

/// An ASCII decimal digit.
pub open spec fn is_digit(b: u8) -> bool {
    48 <= b && b <= 57
}

/// Offset of the first byte at or after `i` that is not a digit; the length
/// of `s` if the digits run to its end.
pub open spec fn digits_end(s: Seq<u8>, i: int) -> int
    decreases s.len() - i,
{
    if 0 <= i < s.len() && is_digit(s[i]) {
        digits_end(s, i + 1)
    } else {
        i
    }
}

/// The number that a run of decimal digits denotes.
pub open spec fn digits_value(digits: Seq<u8>) -> nat
    decreases digits.len(),
{
    if digits.len() == 0 {
        0
    } else {
        digits_value(digits.drop_last()) * 10 + (digits.last() - 48) as nat
    }
}

/// A number as a length, if it fits.
pub open spec fn as_length(value: nat) -> Option<usize> {
    if value <= usize::MAX {
        Some(value as usize)
    } else {
        None
    }
}

/// The line end expected at offset `i`: `\n`, or `\r\n`.
pub open spec fn line_end(s: Seq<u8>, i: int) -> LineEndModel {
    if i < 0 || i >= s.len() {
        LineEndModel::Pending
    } else if s[i] == 10 {
        LineEndModel::At(i + 1)
    } else if s[i] != 13 {
        LineEndModel::Absent
    } else if i + 1 >= s.len() {
        LineEndModel::Pending
    } else if s[i + 1] == 10 {
        LineEndModel::At(i + 2)
    } else {
        LineEndModel::Absent
    }
}

/// The header whose marker stands at offset `m`.
///
/// Nothing is decided while the digits run to the end of the buffer: the next
/// byte may be one more digit.
pub open spec fn header_at(s: Seq<u8>, m: int) -> HeaderModel {
    let first = m + 16;
    let last = digits_end(s, first);
    let value = digits_value(s.subrange(first, last));
    if last >= s.len() {
        HeaderModel::Pending
    } else if last == first {
        HeaderModel::Fault(ParseFault::MissingLength)
    } else if value > usize::MAX {
        HeaderModel::Fault(ParseFault::LengthOverflow)
    } else {
        match line_end(s, last) {
            LineEndModel::Pending => HeaderModel::Pending,
            LineEndModel::Absent => HeaderModel::Fault(ParseFault::MissingSeparator),
            LineEndModel::At(second) => match line_end(s, second) {
                LineEndModel::Pending => HeaderModel::Pending,
                LineEndModel::Absent => HeaderModel::Fault(ParseFault::MissingSeparator),
                LineEndModel::At(start) => HeaderModel::Body { start, len: value },
            },
        }
    }
}

/// The frame whose marker stands at offset `m`: it counts only once its
/// last payload byte is there.
pub open spec fn frame_at(s: Seq<u8>, m: int) -> StepModel {
    match header_at(s, m) {
        HeaderModel::Pending => StepModel::Pending,
        HeaderModel::Fault(fault) => StepModel::Fault(fault),
        HeaderModel::Body { start, len } => if start + len <= s.len() {
            StepModel::Frame { start, end: start + len }
        } else {
            StepModel::Pending
        },
    }
}

/// What the front of `s` holds: the first marker decides.
pub open spec fn first_frame(s: Seq<u8>) -> StepModel {
    match first_marker(s, 0) {
        None => StepModel::Pending,
        Some(m) => frame_at(s, m),
    }
}

/// Where the bytes worth keeping start while nothing is settled: at the
/// first marker, or at the front when there is no marker.
pub open spec fn kept_from(s: Seq<u8>) -> int {
    match first_marker(s, 0) {
        None => 0,
        Some(m) => m,
    }
}

/// What a whole buffer holds: the payloads of its complete frames in order,
/// how many bytes are dealt with, and the fault that ended the scan, if any.
pub struct ScanModel {
    pub payloads: Seq<Seq<u8>>,
    pub rest: int,
    pub fault: Option<ParseFault>,
}

/// Scans `s` frame by frame.
///
/// After a complete frame the scan goes on behind its payload. It stops
/// where nothing is settled: at the marker of a frame that is not complete
/// yet, the filler before it being dealt with, or, without a marker, behind
/// the last payload. It also stops at a malformed header, with nothing left
/// to keep.
pub open spec fn scan(s: Seq<u8>) -> ScanModel
    decreases s.len(),
    via scan_decreases
{
    match first_frame(s) {
        StepModel::Pending => ScanModel { payloads: Seq::empty(), rest: kept_from(s), fault: None },
        StepModel::Fault(fault) => ScanModel {
            payloads: Seq::empty(),
            rest: s.len() as int,
            fault: Some(fault),
        },
        StepModel::Frame { start, end } => {
            let tail = scan(s.skip(end));
            ScanModel {
                payloads: seq![s.subrange(start, end)] + tail.payloads,
                rest: end + tail.rest,
                fault: tail.fault,
            }
        },
    }
}

/// A buffer in which nothing is settled and nothing can be dropped: it has
/// no marker, or starts with the marker of a frame that is not complete.
pub open spec fn idle(s: Seq<u8>) -> bool {
    first_frame(s) is Pending && kept_from(s) == 0
}

#[via_fn]
proof fn scan_decreases(s: Seq<u8>) {
    lemma_frame_bounds(s);
}

/// What stands where a line end is expected, with machine offsets.
#[derive(Clone, Copy, Debug, PartialEq, Eq, Structural)]
pub enum LineEnd {
    Pending,
    Absent,
    At(usize),
}

impl View for LineEnd {
    type V = LineEndModel;

    open spec fn view(&self) -> LineEndModel {
        match *self {
            LineEnd::Pending => LineEndModel::Pending,
            LineEnd::Absent => LineEndModel::Absent,
            LineEnd::At(p) => LineEndModel::At(p as int),
        }
    }
}

/// What the front of a buffer holds, with machine offsets.
#[derive(Clone, Copy, Debug, PartialEq, Eq, Structural)]
pub enum Step {
    /// No frame yet.
    Pending,
    /// The first header is malformed.
    Fault(ParseFault),
    /// The first frame is complete; its payload is `start..end`.
    Frame { start: usize, end: usize },
}

impl View for Step {
    type V = StepModel;

    open spec fn view(&self) -> StepModel {
        match *self {
            Step::Pending => StepModel::Pending,
            Step::Fault(fault) => StepModel::Fault(fault),
            Step::Frame { start, end } => StepModel::Frame { start: start as int, end: end as int },
        }
    }
}

/// The marker as an array, for comparison with the buffer.
fn marker_bytes() -> (m: [u8; 16])
    ensures
        m@ == marker(),
{
    let m: [u8; 16] = [67, 111, 110, 116, 101, 110, 116, 45, 76, 101, 110, 103, 116, 104, 58, 32];
    assert(m@ =~= marker());
    m
}

/// Tells whether the marker stands at offset `i` of `buffer`.
pub fn has_marker_at(buffer: &[u8], i: usize) -> (found: bool)
    ensures
        found == marker_at(buffer@, i as int),
{
    if buffer.len() < MARKER_LEN || i > buffer.len() - MARKER_LEN {
        return false;
    }
    let m = marker_bytes();
    let mut k: usize = 0;
    while k < MARKER_LEN
        invariant
            0 <= k <= 16,
            i + 16 <= buffer@.len() <= usize::MAX,
            m@ == marker(),
            forall|j: int| i <= j < i + k ==> #[trigger] buffer@[j] == marker()[j - i],
        decreases 16 - k,
    {
        if buffer[i + k] != m[k] {
            assert(buffer@[i + k] != marker()[i + k - i]);
            return false;
        }
        k += 1;
    }
    true
}

/// Finds the first marker at or after `from`.
pub fn find_marker(buffer: &[u8], from: usize) -> (found: Option<usize>)
    ensures
        match found {
            Some(m) => first_marker(buffer@, from as int) == Some(m as int),
            None => first_marker(buffer@, from as int) is None,
        },
{
    let n = buffer.len();
    if n < MARKER_LEN {
        return None;
    }
    let mut i = from;
    while i <= n - MARKER_LEN
        invariant
            n == buffer@.len(),
            n >= 16,
            from <= i,
            first_marker(buffer@, from as int) == first_marker(buffer@, i as int),
        decreases n - i,
    {
        if has_marker_at(buffer, i) {
            return Some(i);
        }
        i += 1;
    }
    None
}

/// Reads the digits that start at `at`: where they end, and the number they
/// denote if it fits in `usize`.
fn read_length(buffer: &[u8], at: usize) -> (r: (usize, Option<usize>))
    requires
        at <= buffer@.len(),
    ensures
        at <= r.0 <= buffer@.len(),
        r.0 == digits_end(buffer@, at as int),
        r.1 == as_length(digits_value(buffer@.subrange(at as int, r.0 as int))),
{
    let n = buffer.len();
    let mut idx = at;
    let mut value: Option<usize> = Some(0);
    assert(buffer@.subrange(at as int, at as int) =~= Seq::<u8>::empty());
    while idx < n && buffer[idx] >= 48 && buffer[idx] <= 57
        invariant
            n == buffer@.len(),
            at <= idx <= n,
            digits_end(buffer@, at as int) == digits_end(buffer@, idx as int),
            value == as_length(digits_value(buffer@.subrange(at as int, idx as int))),
        decreases n - idx,
    {
        let digit: usize = (buffer[idx] - 48) as usize;
        proof {
            let longer = buffer@.subrange(at as int, idx + 1);
            assert(longer.drop_last() =~= buffer@.subrange(at as int, idx as int));
            assert(longer.last() == buffer@[idx as int]);
        }
        value = match value {
            None => None,
            Some(v) => match v.checked_mul(10) {
                None => None,
                Some(tens) => tens.checked_add(digit),
            },
        };
        idx += 1;
    }
    (idx, value)
}

/// Reads the line end expected at `at`.
fn read_line_end(buffer: &[u8], at: usize) -> (r: LineEnd)
    ensures
        r@ == line_end(buffer@, at as int),
        r matches LineEnd::At(p) ==> at < p <= buffer@.len(),
{
    let n = buffer.len();
    if at >= n {
        LineEnd::Pending
    } else if buffer[at] == 10 {
        LineEnd::At(at + 1)
    } else if buffer[at] != 13 {
        LineEnd::Absent
    } else if at + 1 >= n {
        LineEnd::Pending
    } else if buffer[at + 1] == 10 {
        LineEnd::At(at + 2)
    } else {
        LineEnd::Absent
    }
}

/// Reads the frame whose marker stands at offset `m`.
///
/// Returns `Frame` with the payload's range when the header is well formed
/// and the whole payload is there, `Fault` when the header is malformed, and
/// `Pending` when the buffer ends before the frame does.
pub fn read_frame_at(buffer: &[u8], m: usize) -> (step: Step)
    ensures
        step@ == frame_at(buffer@, m as int),
        step matches Step::Frame { start, end } ==> m + 16 < start <= end <= buffer@.len(),
{
    let n = buffer.len();
    if n < MARKER_LEN || m >= n - MARKER_LEN {
        return Step::Pending;
    }
    let first = m + MARKER_LEN;
    let (last, value) = read_length(buffer, first);
    if last >= n {
        return Step::Pending;
    }
    if last == first {
        return Step::Fault(ParseFault::MissingLength);
    }
    let len = match value {
        None => {
            return Step::Fault(ParseFault::LengthOverflow);
        },
        Some(len) => len,
    };
    let second = match read_line_end(buffer, last) {
        LineEnd::Pending => {
            return Step::Pending;
        },
        LineEnd::Absent => {
            return Step::Fault(ParseFault::MissingSeparator);
        },
        LineEnd::At(p) => p,
    };
    let start = match read_line_end(buffer, second) {
        LineEnd::Pending => {
            return Step::Pending;
        },
        LineEnd::Absent => {
            return Step::Fault(ParseFault::MissingSeparator);
        },
        LineEnd::At(p) => p,
    };
    if len <= n - start {
        Step::Frame { start, end: start + len }
    } else {
        Step::Pending
    }
}

/// Looks for the first frame of `buffer`.
///
/// Returns what `read_frame_at` finds at the first marker, and `Pending`
/// when there is no marker.
pub fn next_frame(buffer: &[u8]) -> (step: Step)
    ensures
        step@ == first_frame(buffer@),
        step matches Step::Frame { start, end } ==> 16 < start <= end <= buffer@.len(),
{
    match find_marker(buffer, 0) {
        None => Step::Pending,
        Some(m) => read_frame_at(buffer, m),
    }
}

/// A marker that `first_marker` finds is a marker, at or after `from`, and
/// none stands between `from` and it.
pub proof fn lemma_first_marker_is_marker(s: Seq<u8>, from: int)
    ensures
        first_marker(s, from) matches Some(m) ==> from <= m && marker_at(s, m) && forall|j: int|
            from <= j < m ==> !marker_at(s, j),
        first_marker(s, from) is None && 0 <= from ==> forall|j: int|
            from <= j ==> !marker_at(s, j),
    decreases s.len() - from,
{
    if from < 0 || from + 16 > s.len() {
    } else if marker_at(s, from) {
    } else {
        lemma_first_marker_is_marker(s, from + 1);
    }
}

/// The digits that start at `i` end at or after `i`, and inside the buffer
/// or at its end.
pub proof fn lemma_digits_end_bounds(s: Seq<u8>, i: int)
    requires
        0 <= i <= s.len(),
    ensures
        i <= digits_end(s, i) <= s.len(),
    decreases s.len() - i,
{
    if i < s.len() && is_digit(s[i]) {
        lemma_digits_end_bounds(s, i + 1);
    }
}

/// The payload of a complete frame lies behind its header and inside the
/// buffer.
pub proof fn lemma_frame_bounds(s: Seq<u8>)
    ensures
        first_frame(s) matches StepModel::Frame { start, end } ==> 16 < start <= end <= s.len(),
{
    lemma_first_marker_is_marker(s, 0);
    if let Some(m) = first_marker(s, 0) {
        lemma_digits_end_bounds(s, m + 16);
    }
}

/// The scan never claims more bytes than the buffer holds.
pub proof fn lemma_scan_bounds(s: Seq<u8>)
    ensures
        0 <= scan(s).rest <= s.len(),
    decreases s.len(),
{
    lemma_frame_bounds(s);
    lemma_first_marker_is_marker(s, 0);
    if let StepModel::Frame { start, end } = first_frame(s) {
        lemma_scan_bounds(s.skip(end));
    }
}

/// The digits behind a dropped front end where they ended before.
pub proof fn lemma_digits_end_shifts(s: Seq<u8>, m: int, i: int)
    requires
        0 <= m <= s.len(),
        0 <= i <= s.len() - m,
    ensures
        digits_end(s.skip(m), i) + m == digits_end(s, i + m),
    decreases s.len() - m - i,
{
    let t = s.skip(m);
    if i < t.len() {
        assert(t[i] == s[i + m]);
        if is_digit(t[i]) {
            lemma_digits_end_shifts(s, m, i + 1);
        }
    }
}

/// The frame at a marker does not depend on what stands before the marker:
/// with the front dropped, it is the same frame that much nearer.
pub proof fn lemma_frame_at_shifts(s: Seq<u8>, m: int)
    requires
        0 <= m,
        m + 16 <= s.len(),
    ensures
        match frame_at(s, m) {
            StepModel::Pending => frame_at(s.skip(m), 0) is Pending,
            StepModel::Fault(fault) => frame_at(s.skip(m), 0) == StepModel::Fault(fault),
            StepModel::Frame { start, end } => frame_at(s.skip(m), 0) == (StepModel::Frame {
                start: start - m,
                end: end - m,
            }),
        },
{
    let t = s.skip(m);
    let first = m + 16;
    let last = digits_end(s, first);
    lemma_digits_end_bounds(s, first);
    lemma_digits_end_shifts(s, m, 16);
    assert(t.subrange(16, last - m) =~= s.subrange(first, last));
}

/// With the filler before the first marker dropped, the marker stands at
/// the front.
pub proof fn lemma_marker_comes_first(s: Seq<u8>, m: int)
    requires
        first_marker(s, 0) == Some(m),
    ensures
        0 <= m,
        m + 16 <= s.len(),
        first_marker(s.skip(m), 0) == Some(0int),
{
    lemma_first_marker_is_marker(s, 0);
    let t = s.skip(m);
    assert forall|j: int| 0 <= j < 16 implies #[trigger] t[j] == marker()[j - 0] by {
        assert(s[j + m] == marker()[j + m - m]);
    }
}

/// Filler before the first marker is inert: with it dropped, the scan finds
/// the same payloads and the same fault, and stops at the same byte.
pub proof fn lemma_filler_is_inert(s: Seq<u8>, m: int)
    requires
        first_marker(s, 0) == Some(m),
    ensures
        scan(s) == (ScanModel {
            payloads: scan(s.skip(m)).payloads,
            rest: m + scan(s.skip(m)).rest,
            fault: scan(s.skip(m)).fault,
        }),
{
    let t = s.skip(m);
    lemma_marker_comes_first(s, m);
    lemma_frame_at_shifts(s, m);
    lemma_frame_bounds(s);
    if let StepModel::Frame { start, end } = first_frame(s) {
        assert(t.subrange(start - m, end - m) =~= s.subrange(start, end));
        assert(t.skip(end - m) =~= s.skip(end));
    }
}

/// Where a scan stops without a fault, nothing is settled and nothing more
/// can be dropped.
pub proof fn lemma_scan_rest_is_idle(s: Seq<u8>)
    ensures
        scan(s).fault is None ==> idle(s.skip(scan(s).rest)),
    decreases s.len(),
{
    lemma_frame_bounds(s);
    match first_frame(s) {
        StepModel::Pending => {
            match first_marker(s, 0) {
                None => {
                    assert(s.skip(0) =~= s);
                },
                Some(m) => {
                    lemma_marker_comes_first(s, m);
                    lemma_frame_at_shifts(s, m);
                },
            }
        },
        StepModel::Fault(_) => {},
        StepModel::Frame { start, end } => {
            lemma_scan_rest_is_idle(s.skip(end));
            lemma_scan_bounds(s.skip(end));
            assert(s.skip(end).skip(scan(s.skip(end)).rest) =~= s.skip(end + scan(s.skip(end)).rest));
        },
    }
}

} // verus!
