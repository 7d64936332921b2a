//! The extractor: from the body of a registry page to the records it holds.
//!
//! A record is the token that follows a marker in the markup: a hostname after `/dns/`, a
//! subnet identifier after `/net/`. Where the tokens lie is asked of the pattern engine; what
//! is taken from its answer is decided here. A reported span is kept only if it is not
//! empty, lies inside the document on character boundaries, has the marker of its kind
//! standing immediately before it, and has that marker begin no earlier than the end of the
//! record kept before it. Whatever the engine reports, the records therefore come out in
//! document order, each behind a marker of its own, and a document without the marker has
//! none.
//!
//! Both patterns are a marker followed by one group of one or more characters, so every
//! match of theirs passes these tests: the group begins where the marker ends, it is not
//! empty, and successive matches do not overlap.
//!
//! Offsets count bytes of the document's UTF-8 encoding.

use vstd::prelude::*;
use vstd::string::*;
use vstd::utf8::*;
use crate::engine::{captures, engine_captures};
use crate::text::{occurs, occurs_at, stands_at};

verus! {

/// The kind of record a page is read for.
#[derive(Clone, Copy, Debug, PartialEq, Eq, Structural)]
pub enum RecordKind {
    /// Hostnames, as a subnet page lists them.
    HostnameList,
    /// Subnet identifiers, as an ASN page lists them.
    SubnetList,
}

/// A half-open range of byte offsets into a document.
#[derive(Clone, Copy, Debug, PartialEq, Eq, Structural)]
pub struct Span {
    /// The offset of the first byte.
    pub start: usize,
    /// The offset after the last byte.
    pub end: usize,
}

/// The capture group of a pattern that holds the record.
pub const RECORD_GROUP: usize = 1;

impl RecordKind {
    /// The literal that marks a record of this kind in the markup.
    pub open spec fn marker_text(self) -> Seq<char> {
        match self {
            RecordKind::HostnameList => "/dns/"@,
            RecordKind::SubnetList => "/net/"@,
        }
    }

    /// The bytes of [`Self::marker_text`].
    pub open spec fn marker_bytes(self) -> Seq<u8> {
        encode_utf8(self.marker_text())
    }

    /// The pattern handed to the engine for this kind.
    pub open spec fn pattern_text(self) -> Seq<char> {
        match self {
            RecordKind::HostnameList => "/dns/([^\\s\"]+)"@,
            RecordKind::SubnetList => "/net/([\\w./]+)"@,
        }
    }

    /// The marker: `/dns/` before a hostname, `/net/` before a subnet identifier.
    pub fn marker(self) -> (r: &'static str)
        ensures
            r@ == self.marker_text(),
    {
        match self {
            RecordKind::HostnameList => "/dns/",
            RecordKind::SubnetList => "/net/",
        }
    }

    /// The pattern: the marker, then a group of one or more characters. After `/dns/` any
    /// character but white space and the double quote; after `/net/` word characters, dots
    /// and slashes.
    pub fn pattern(self) -> (r: &'static str)
        ensures
            r@ == self.pattern_text(),
    {
        match self {
            RecordKind::HostnameList => "/dns/([^\\s\"]+)",
            RecordKind::SubnetList => "/net/([\\w./]+)",
        }
    }
}

/// A reported span `start..end` may be kept, given that the record kept before it ended at
/// `floor`: the marker fits between `floor` and `start` and stands there, the span is not
/// empty and ends inside the document, and both its ends are character boundaries.
pub open spec fn admissible(doc: Seq<u8>, marker: Seq<u8>, floor: int, start: int, end: int) -> bool {
    &&& floor + marker.len() <= start
    &&& start < end <= doc.len()
    &&& occurs_at(doc, marker, start - marker.len())
    &&& is_char_boundary(doc, start)
    &&& is_char_boundary(doc, end)
}

/// The spans kept from `candidates`, taken in order, where nothing before `floor` is kept.
pub open spec fn accepted(
    doc: Seq<u8>,
    marker: Seq<u8>,
    floor: int,
    candidates: Seq<Option<(usize, usize)>>,
) -> Seq<Span>
    decreases candidates.len(),
{
    if candidates.len() == 0 {
        Seq::empty()
    } else {
        let rest = candidates.drop_first();
        match candidates[0] {
            Some((start, end)) => if admissible(doc, marker, floor, start as int, end as int) {
                seq![(Span { start, end })] + accepted(doc, marker, end as int, rest)
            } else {
                accepted(doc, marker, floor, rest)
            },
            None => accepted(doc, marker, floor, rest),
        }
    }
}

/// `span` can be cut out of `doc` as text.
pub open spec fn sliceable(doc: Seq<u8>, span: Span) -> bool {
    &&& span.start <= span.end <= doc.len()
    &&& is_char_boundary(doc, span.start as int)
    &&& is_char_boundary(doc, span.end as int)
}

/// The text that `span` covers in `doc`.
pub open spec fn span_text(doc: Seq<u8>, span: Span) -> Seq<char> {
    decode_utf8(doc.subrange(span.start as int, span.end as int))
}

/// The texts that `spans` cover in `doc`, in the order of `spans`.
pub open spec fn span_texts(doc: Seq<u8>, spans: Seq<Span>) -> Seq<Seq<char>> {
    Seq::new(spans.len(), |i: int| span_text(doc, spans[i]))
}

/// Where the records of `kind` lie in a document, given what the engine reported.
pub open spec fn selected(doc: Seq<char>, kind: RecordKind, candidates: Seq<Option<(usize, usize)>>) -> Seq<
    Span,
> {
    accepted(encode_utf8(doc), kind.marker_bytes(), 0, candidates)
}

/// Where the records of `kind` lie in a document. An engine that does not compile the
/// pattern leaves the document without records.
pub open spec fn located(doc: Seq<char>, kind: RecordKind) -> Seq<Span> {
    match engine_captures(kind.pattern_text(), RECORD_GROUP, doc) {
        Some(candidates) => selected(doc, kind, candidates),
        None => Seq::empty(),
    }
}

/// The records of `kind` in a document, in document order.
pub open spec fn extracted(doc: Seq<char>, kind: RecordKind) -> Seq<Seq<char>> {
    span_texts(encode_utf8(doc), located(doc, kind))
}

/// Every kept span is admissible above `floor`, and between the end of one and the start of
/// a later one lies at least the length of the marker.
pub proof fn lemma_accepted_in_order(
    doc: Seq<u8>,
    marker: Seq<u8>,
    floor: int,
    candidates: Seq<Option<(usize, usize)>>,
)
    ensures
        forall|i: int|
            0 <= i < accepted(doc, marker, floor, candidates).len() ==> admissible(
                doc,
                marker,
                floor,
                (#[trigger] accepted(doc, marker, floor, candidates)[i]).start as int,
                accepted(doc, marker, floor, candidates)[i].end as int,
            ),
        forall|i: int, j: int|
            0 <= i < j < accepted(doc, marker, floor, candidates).len() ==> (#[trigger] accepted(
                doc,
                marker,
                floor,
                candidates,
            )[i]).end + marker.len() <= (#[trigger] accepted(doc, marker, floor, candidates)[j]).start,
    decreases candidates.len(),
{
    if candidates.len() > 0 {
        let rest = candidates.drop_first();
        let kept = accepted(doc, marker, floor, candidates);
        match candidates[0] {
            Some((start, end)) if admissible(doc, marker, floor, start as int, end as int) => {
                let later = accepted(doc, marker, end as int, rest);
                lemma_accepted_in_order(doc, marker, end as int, rest);
                assert(kept == seq![(Span { start, end })] + later);
                assert forall|i: int| 0 <= i < kept.len() implies admissible(
                    doc,
                    marker,
                    floor,
                    (#[trigger] kept[i]).start as int,
                    kept[i].end as int,
                ) by {}
                assert forall|i: int, j: int| 0 <= i < j < kept.len() implies (#[trigger] kept[i]).end
                    + marker.len() <= (#[trigger] kept[j]).start by {}
            },
            _ => {
                lemma_accepted_in_order(doc, marker, floor, rest);
                assert(kept == accepted(doc, marker, floor, rest));
            },
        }
    }
}

/// A document in which the marker stands nowhere keeps no span.
pub proof fn lemma_no_marker_no_span(
    doc: Seq<u8>,
    marker: Seq<u8>,
    floor: int,
    candidates: Seq<Option<(usize, usize)>>,
)
    requires
        !occurs(doc, marker),
    ensures
        accepted(doc, marker, floor, candidates).len() == 0,
{
    lemma_accepted_in_order(doc, marker, floor, candidates);
    let kept = accepted(doc, marker, floor, candidates);
    if kept.len() > 0 {
        assert(occurs_at(doc, marker, kept[0].start - marker.len()));
    }
}

/// Idempotence. The records are fixed by the document and the kind: whatever two calls of
/// [`extract`] on the same document and kind return, both meet its contract, and two lists
/// that meet it hold the same records in the same order.
pub proof fn lemma_same_document_same_records(
    doc: Seq<char>,
    kind: RecordKind,
    first: Vec<String>,
    second: Vec<String>,
)
    requires
        first.deep_view() == extracted(doc, kind),
        second.deep_view() == extracted(doc, kind),
    ensures
        first.deep_view() == second.deep_view(),
{
}

/// Where the marker of record `i` begins in the document.
pub open spec fn marker_place(doc: Seq<char>, kind: RecordKind, i: int) -> int {
    located(doc, kind)[i].start - kind.marker_bytes().len()
}

/// Order preservation. Each record is the text of a span of its own; the marker stands in
/// the document immediately before that span; and the markers of the records stand in the
/// document in the order of the records, each after the end of the record before it. So the
/// order of the records is the order of their markers in the document.
pub proof fn lemma_records_in_document_order(doc: Seq<char>, kind: RecordKind)
    ensures
        extracted(doc, kind).len() == located(doc, kind).len(),
        forall|i: int|
            0 <= i < located(doc, kind).len() ==> {
                let span = #[trigger] located(doc, kind)[i];
                &&& extracted(doc, kind)[i] == span_text(encode_utf8(doc), span)
                &&& occurs_at(encode_utf8(doc), kind.marker_bytes(), marker_place(doc, kind, i))
                &&& sliceable(encode_utf8(doc), span)
                &&& span.start < span.end
            },
        forall|i: int, j: int|
            0 <= i < j < located(doc, kind).len() ==> #[trigger] marker_place(doc, kind, i) < located(
                doc,
                kind,
            )[i].end <= #[trigger] marker_place(doc, kind, j),
{
    lemma_located(doc, kind);
}

/// Empty-match safety. A document in which the marker stands nowhere has no records.
pub proof fn lemma_no_marker_no_records(doc: Seq<char>, kind: RecordKind)
    requires
        !occurs(encode_utf8(doc), kind.marker_bytes()),
    ensures
        located(doc, kind) == Seq::<Span>::empty(),
        extracted(doc, kind) == Seq::<Seq<char>>::empty(),
{
    lemma_located(doc, kind);
}

/// The spans of [`located`] are admissible and in order, and there are none where the
/// marker stands nowhere in the document.
proof fn lemma_located(doc: Seq<char>, kind: RecordKind)
    ensures
        forall|i: int|
            0 <= i < located(doc, kind).len() ==> admissible(
                encode_utf8(doc),
                kind.marker_bytes(),
                0,
                (#[trigger] located(doc, kind)[i]).start as int,
                located(doc, kind)[i].end as int,
            ),
        forall|i: int, j: int|
            0 <= i < j < located(doc, kind).len() ==> (#[trigger] located(doc, kind)[i]).end
                + kind.marker_bytes().len() <= (#[trigger] located(doc, kind)[j]).start,
        !occurs(encode_utf8(doc), kind.marker_bytes()) ==> located(doc, kind).len() == 0,
        extracted(doc, kind).len() == located(doc, kind).len(),
{
    match engine_captures(kind.pattern_text(), RECORD_GROUP, doc) {
        Some(candidates) => {
            lemma_accepted_in_order(encode_utf8(doc), kind.marker_bytes(), 0, candidates);
            if !occurs(encode_utf8(doc), kind.marker_bytes()) {
                lemma_no_marker_no_span(encode_utf8(doc), kind.marker_bytes(), 0, candidates);
            }
        },
        None => {},
    }
}

/// A character boundary of a text is one of each prefix that reaches it, where the prefix
/// ends on a boundary too.
proof fn lemma_boundary_of_prefix(bytes: Seq<u8>, index: int, end: int)
    requires
        valid_utf8(bytes),
        0 <= index <= end <= bytes.len(),
        is_char_boundary(bytes, index),
        is_char_boundary(bytes, end),
    ensures
        valid_utf8(bytes.subrange(0, end)),
        is_char_boundary(bytes.subrange(0, end), index),
{
    let prefix = bytes.subrange(0, end);
    valid_utf8_split(bytes, end);
    if index == end {
        is_char_boundary_start_end_of_seq(prefix);
    } else {
        is_char_boundary_iff_not_is_continuation_byte(bytes, index);
        is_char_boundary_iff_not_is_continuation_byte(prefix, index);
    }
}

/// Tests [`admissible`].
fn admits(document: &str, marker: &[u8], floor: usize, start: usize, end: usize) -> (r: bool)
    ensures
        r == admissible(document.spec_bytes(), marker@, floor as int, start as int, end as int),
{
    let doc = document.as_bytes();
    if start >= end || end > doc.len() {
        return false;
    }
    if marker.len() > start || floor > start - marker.len() {
        return false;
    }
    stands_at(doc, marker, start - marker.len()) && document.is_char_boundary(start)
        && document.is_char_boundary(end)
}

/// The spans to keep of those the engine reported for `document`.
///
/// `candidates` holds, for each match in turn, the byte offsets of the group that holds the
/// record, or `None` where the group took no part. Any list is accepted: a candidate that is
/// not [`admissible`] is passed over.
pub fn select(document: &str, kind: RecordKind, candidates: &Vec<Option<(usize, usize)>>) -> (r: Vec<
    Span,
>)
    ensures
        r@ == selected(document@, kind, candidates@),
{
    let marker = kind.marker().as_bytes();
    let ghost doc = document.spec_bytes();
    let mut kept: Vec<Span> = Vec::new();
    let mut floor: usize = 0;
    let mut i: usize = 0;
    assert(candidates@.skip(0) =~= candidates@);
    while i < candidates.len()
        invariant
            i <= candidates.len(),
            doc == document.spec_bytes(),
            marker@ == kind.marker_bytes(),
            accepted(doc, marker@, 0, candidates@) == kept@ + accepted(
                doc,
                marker@,
                floor as int,
                candidates@.skip(i as int),
            ),
        decreases candidates.len() - i,
    {
        assert(candidates@.skip(i as int).drop_first() =~= candidates@.skip(i + 1));
        match candidates[i] {
            Some((start, end)) => {
                if admits(document, marker, floor, start, end) {
                    kept.push(Span { start, end });
                    floor = end;
                }
            },
            None => {},
        }
        i = i + 1;
    }
    kept
}

/// Cuts the text of `span` out of `document`.
fn cut(document: &str, span: Span) -> (text: String)
    requires
        sliceable(document.spec_bytes(), span),
    ensures
        text@ == span_text(document.spec_bytes(), span),
{
    let ghost doc = document.spec_bytes();
    proof {
        encode_utf8_valid_utf8(document@);
        lemma_boundary_of_prefix(doc, span.start as int, span.end as int);
    }
    let (head, _) = document.split_at(span.end);
    let (_, token) = head.split_at(span.start);
    proof {
        assert(token.spec_bytes() =~= doc.subrange(span.start as int, span.end as int));
        encode_utf8_decode_utf8(token@);
    }
    token.to_owned()
}

/// The text that `span` covers in `document`, where it can be cut out: where the span lies
/// inside the document, starts no later than it ends, and both its ends are character
/// boundaries.
pub fn text_at(document: &str, span: Span) -> (r: Option<String>)
    ensures
        r is Some == sliceable(document.spec_bytes(), span),
        r matches Some(text) ==> text@ == span_text(document.spec_bytes(), span),
{
    if span.start <= span.end && span.end <= document.as_bytes().len()
        && document.is_char_boundary(span.start) && document.is_char_boundary(span.end) {
        Some(cut(document, span))
    } else {
        None
    }
}

/// The texts of `spans` in `document`, in order.
fn texts_at(document: &str, spans: &Vec<Span>) -> (r: Vec<String>)
    requires
        forall|i: int| 0 <= i < spans@.len() ==> sliceable(document.spec_bytes(), #[trigger] spans@[i]),
    ensures
        r.deep_view() == span_texts(document.spec_bytes(), spans@),
        r@.len() == spans@.len(),
{
    let mut texts: Vec<String> = Vec::new();
    let mut i: usize = 0;
    while i < spans.len()
        invariant
            i <= spans.len(),
            forall|k: int| 0 <= k < spans@.len() ==> sliceable(document.spec_bytes(), #[trigger] spans@[k]),
            texts@.len() == i,
            forall|k: int| 0 <= k < i ==> (#[trigger] texts@[k])@ == span_text(document.spec_bytes(), spans@[k]),
        decreases spans.len() - i,
    {
        texts.push(cut(document, spans[i]));
        i = i + 1;
    }
    texts
}

/// The records of `kind` in `document`, given what the engine reported for it: the texts of
/// the spans that [`select`] keeps, in the same order.
pub fn records_from(document: &str, kind: RecordKind, candidates: &Vec<Option<(usize, usize)>>) -> (r:
    Vec<String>)
    ensures
        r.deep_view() == span_texts(document.spec_bytes(), selected(document@, kind, candidates@)),
        !occurs(document.spec_bytes(), kind.marker_bytes()) ==> r@.len() == 0,
{
    let spans = select(document, kind, candidates);
    proof {
        lemma_accepted_in_order(document.spec_bytes(), kind.marker_bytes(), 0, candidates@);
        if !occurs(document.spec_bytes(), kind.marker_bytes()) {
            lemma_no_marker_no_span(document.spec_bytes(), kind.marker_bytes(), 0, candidates@);
        }
    }
    texts_at(document, &spans)
}

/// Where the records of `kind` lie in `document`: the spans that [`select`] keeps of those
/// the engine reports, and none where the engine refuses the pattern.
///
/// The spans come in document order and do not overlap: between the end of one and the
/// start of the next lies at least the marker of the latter. Each is cut on character
/// boundaries, is not empty, and has the marker standing immediately before it. Two calls on
/// the same document give the same spans.
pub fn locate(document: &str, kind: RecordKind) -> (r: Vec<Span>)
    ensures
        r@ == located(document@, kind),
        forall|i: int|
            0 <= i < r@.len() ==> admissible(
                document.spec_bytes(),
                kind.marker_bytes(),
                0,
                (#[trigger] r@[i]).start as int,
                r@[i].end as int,
            ),
        forall|i: int, j: int|
            0 <= i < j < r@.len() ==> (#[trigger] r@[i]).end + kind.marker_bytes().len() <= (
            #[trigger] r@[j]).start,
        !occurs(document.spec_bytes(), kind.marker_bytes()) ==> r@.len() == 0,
{
    proof {
        lemma_located(document@, kind);
    }
    match captures(kind.pattern(), RECORD_GROUP, document) {
        Ok(candidates) => select(document, kind, &candidates),
        Err(_) => Vec::new(),
    }
}

/// The records of `kind` in `document`: the text at each span of [`locate`], in document
/// order, duplicates included. A document without the marker holds none, and that is no
/// error. Two calls on the same document give the same records.
pub fn extract(document: &str, kind: RecordKind) -> (r: Vec<String>)
    ensures
        r.deep_view() == extracted(document@, kind),
        r@.len() == located(document@, kind).len(),
        !occurs(document.spec_bytes(), kind.marker_bytes()) ==> r@.len() == 0,
{
    let spans = locate(document, kind);
    texts_at(document, &spans)
}

} // verus!
