//! Correctly nested input: what it is, and that the machine finds exactly its
//! elements.
//!
//! The shape described here is the nesting of braces and quotes that the
//! scanner relies on, and no more: every JSON object has it, as `json_shape`
//! shows, and so has much that is not JSON.

use vstd::prelude::*;
use crate::laws::lemma_scan_concat;
use crate::machine::{
    elements, end_state, escape_run, initial, is_separator, is_whitespace, step, ScanState,
    BACKSLASH, CLOSE_BRACE, CLOSE_BRACKET, OPEN_BRACE, OPEN_BRACKET, QUOTE,
};

verus! {

/// A byte that stands for itself outside strings: no quote, no backslash, no
/// brace.
pub open spec fn is_plain(b: u8) -> bool {
    b != QUOTE && b != BACKSLASH && b != OPEN_BRACE && b != CLOSE_BRACE
}

/// What may stand between the quotes of a string literal: any byte but a
/// quote or a backslash, and a backslash followed by any one byte.
pub open spec fn is_string_body(body: Seq<u8>) -> bool
    decreases body.len(),
{
    if body.len() == 0 {
        true
    } else if body[0] == BACKSLASH {
        body.len() >= 2 && is_string_body(body.skip(2))
    } else {
        body[0] != QUOTE && is_string_body(body.drop_first())
    }
}

/// The string literal with the given body.
pub open spec fn string_literal(body: Seq<u8>) -> Seq<u8> {
    seq![QUOTE] + body + seq![QUOTE]
}

/// What stands between the braces of an object, piece by piece.
pub enum Content {
    /// Nothing more.
    End,
    /// A byte outside strings, then more.
    Plain(u8, Box<Content>),
    /// A string literal with this body, then more.
    Text(Seq<u8>, Box<Content>),
    /// An object with this content, then more.
    Object(Box<Content>, Box<Content>),
}

/// Whether every piece is what it claims to be.
pub open spec fn well_nested(c: Content) -> bool
    decreases c,
{
    match c {
        Content::End => true,
        Content::Plain(b, rest) => is_plain(b) && well_nested(*rest),
        Content::Text(body, rest) => is_string_body(body) && well_nested(*rest),
        Content::Object(inner, rest) => well_nested(*inner) && well_nested(*rest),
    }
}

/// The bytes of an object with the given content.
pub open spec fn object_text(c: Content) -> Seq<u8>
    decreases c, 1nat,
{
    seq![OPEN_BRACE] + rendered(c) + seq![CLOSE_BRACE]
}

/// The bytes of the given content.
pub open spec fn rendered(c: Content) -> Seq<u8>
    decreases c, 0nat,
{
    match c {
        Content::End => Seq::empty(),
        Content::Plain(b, rest) => seq![b] + rendered(*rest),
        Content::Text(body, rest) => string_literal(body) + rendered(*rest),
        Content::Object(inner, rest) => object_text(*inner) + rendered(*rest),
    }
}

/// The state `s` with `more` added to the element being assembled.
pub open spec fn capturing(s: ScanState, more: Seq<u8>) -> ScanState {
    ScanState { text: s.text + more, ..s }
}

/// The state between two elements of the array.
pub open spec fn between_elements() -> ScanState {
    ScanState { depth: 0, in_string: false, array_opened: true, text: Seq::empty() }
}

/// A backslash lengthens the run at the end by one; any other byte ends it.
proof fn lemma_escape_run_push(text: Seq<u8>, b: u8)
    ensures
        escape_run(text.push(b)) == if b == BACKSLASH {
            1 + escape_run(text)
        } else {
            0
        },
{
    assert(text.push(b).last() == b);
    assert(text.push(b).drop_last() == text);
}

/// Scanning one byte is one step.
proof fn lemma_scan_one(s: ScanState, b: u8)
    ensures
        end_state(s, seq![b]) == step(s, b).next,
        elements(s, seq![b]) == match step(s, b).emitted {
            Some(e) => seq![e],
            None => Seq::empty(),
        },
{
    let one = seq![b];
    assert(one[0] == b);
    assert(one.drop_first().len() == 0);
    let next = step(s, b).next;
    assert(end_state(next, one.drop_first()) == next);
    assert(elements(next, one.drop_first()) == Seq::<Seq<u8>>::empty());
}

/// Inside a string, its body is only captured: the depth stays, nothing is
/// completed, and the machine is still inside the string after it.
pub proof fn lemma_string_body_is_captured(s: ScanState, body: Seq<u8>)
    requires
        s.in_string,
        s.depth >= 1,
        escape_run(s.text) % 2 == 0,
        is_string_body(body),
    ensures
        end_state(s, body) == capturing(s, body),
        elements(s, body) == Seq::<Seq<u8>>::empty(),
        escape_run(s.text + body) % 2 == 0,
    decreases body.len(),
{
    if body.len() == 0 {
        assert(s.text + body == s.text);
    } else if body[0] == BACKSLASH {
        let first = step(s, body[0]).next;
        lemma_escape_run_push(s.text, body[0]);
        assert(first == ScanState { text: s.text.push(body[0]), ..s });
        let tail = body.drop_first();
        assert(tail[0] == body[1]);
        let second = step(first, body[1]).next;
        lemma_escape_run_push(first.text, body[1]);
        assert(step(first, body[1]).emitted is None);
        assert(second == ScanState { text: first.text.push(body[1]), ..s });
        assert(tail.drop_first() == body.skip(2));
        lemma_string_body_is_captured(second, body.skip(2));
        assert(second.text + body.skip(2) == s.text + body);
        assert(end_state(s, body) == end_state(first, tail));
        assert(end_state(first, tail) == end_state(second, body.skip(2)));
        assert(elements(s, body) == elements(first, tail));
        assert(elements(first, tail) == elements(second, body.skip(2)));
    } else {
        let first = step(s, body[0]).next;
        lemma_escape_run_push(s.text, body[0]);
        assert(first == ScanState { text: s.text.push(body[0]), ..s });
        lemma_string_body_is_captured(first, body.drop_first());
        assert(first.text + body.drop_first() == s.text + body);
    }
}

/// A string literal inside an element is only captured, whatever braces,
/// brackets, commas and escaped quotes it holds: the depth stays, nothing is
/// completed, and the machine is outside the string again after it.
pub proof fn lemma_string_is_captured(s: ScanState, body: Seq<u8>)
    requires
        !s.in_string,
        s.depth >= 1,
        escape_run(s.text) % 2 == 0,
        is_string_body(body),
    ensures
        end_state(s, string_literal(body)) == capturing(s, string_literal(body)),
        elements(s, string_literal(body)) == Seq::<Seq<u8>>::empty(),
        escape_run(s.text + string_literal(body)) == 0,
{
    let opened = step(s, QUOTE).next;
    lemma_escape_run_push(s.text, QUOTE);
    assert(opened == ScanState { in_string: true, text: s.text.push(QUOTE), ..s });
    lemma_scan_one(s, QUOTE);
    lemma_string_body_is_captured(opened, body);
    let inside = capturing(opened, body);
    let closed = step(inside, QUOTE).next;
    lemma_escape_run_push(inside.text, QUOTE);
    lemma_scan_one(inside, QUOTE);
    assert(closed == ScanState { in_string: false, text: inside.text.push(QUOTE), ..s });
    lemma_scan_concat(s, seq![QUOTE], body);
    lemma_scan_concat(s, seq![QUOTE] + body, seq![QUOTE]);
    assert(closed.text == s.text + string_literal(body));
}

/// Inside an element, correctly nested content is only captured: at its end
/// the machine is as deep as before, and nothing was completed.
pub proof fn lemma_content_is_captured(s: ScanState, c: Content)
    requires
        s.depth >= 1,
        !s.in_string,
        s.array_opened,
        escape_run(s.text) == 0,
        well_nested(c),
    ensures
        end_state(s, rendered(c)) == capturing(s, rendered(c)),
        elements(s, rendered(c)) == Seq::<Seq<u8>>::empty(),
        escape_run(s.text + rendered(c)) == 0,
    decreases c,
{
    match c {
        Content::End => {
            assert(s.text + rendered(c) == s.text);
        },
        Content::Plain(b, rest) => {
            let after = step(s, b).next;
            lemma_escape_run_push(s.text, b);
            lemma_scan_one(s, b);
            assert(s.text.push(b) == s.text + seq![b]);
            assert(after == capturing(s, seq![b]));
            lemma_content_is_captured(after, *rest);
            lemma_scan_concat(s, seq![b], rendered(*rest));
            assert(after.text + rendered(*rest) == s.text + rendered(c));
        },
        Content::Text(body, rest) => {
            lemma_string_is_captured(s, body);
            let after = capturing(s, string_literal(body));
            lemma_content_is_captured(after, *rest);
            lemma_scan_concat(s, string_literal(body), rendered(*rest));
            assert(after.text + rendered(*rest) == s.text + rendered(c));
        },
        Content::Object(inner, rest) => {
            let opened = step(s, OPEN_BRACE).next;
            lemma_escape_run_push(s.text, OPEN_BRACE);
            lemma_scan_one(s, OPEN_BRACE);
            assert(opened == ScanState { depth: s.depth + 1, text: s.text.push(OPEN_BRACE), ..s });
            lemma_content_is_captured(opened, *inner);
            let filled = capturing(opened, rendered(*inner));
            let closed = step(filled, CLOSE_BRACE).next;
            lemma_escape_run_push(filled.text, CLOSE_BRACE);
            lemma_scan_one(filled, CLOSE_BRACE);
            assert(closed == ScanState { text: filled.text.push(CLOSE_BRACE), ..s });
            lemma_scan_concat(s, seq![OPEN_BRACE], rendered(*inner));
            lemma_scan_concat(s, seq![OPEN_BRACE] + rendered(*inner), seq![CLOSE_BRACE]);
            assert(closed.text == s.text + object_text(*inner));
            assert(closed == capturing(s, object_text(*inner)));
            lemma_content_is_captured(closed, *rest);
            lemma_scan_concat(s, object_text(*inner), rendered(*rest));
            assert(closed.text + rendered(*rest) == s.text + rendered(c));
        },
    }
}

/// A correctly nested object that begins between two elements is handed out
/// whole and once, at its closing brace and not before, however deep the
/// objects and strings inside it go. The machine is between elements again
/// after it.
pub proof fn lemma_object_is_one_element(c: Content)
    requires
        well_nested(c),
    ensures
        elements(between_elements(), object_text(c)) == seq![object_text(c)],
        end_state(between_elements(), object_text(c)) == between_elements(),
        elements(between_elements(), object_text(c).drop_last()) == Seq::<Seq<u8>>::empty(),
{
    let s = between_elements();
    let opened = step(s, OPEN_BRACE).next;
    lemma_escape_run_push(s.text, OPEN_BRACE);
    lemma_scan_one(s, OPEN_BRACE);
    assert(opened == ScanState { depth: 1, text: seq![OPEN_BRACE], ..s });
    lemma_content_is_captured(opened, c);
    let filled = capturing(opened, rendered(c));
    lemma_scan_one(filled, CLOSE_BRACE);
    lemma_scan_concat(s, seq![OPEN_BRACE], rendered(c));
    lemma_scan_concat(s, seq![OPEN_BRACE] + rendered(c), seq![CLOSE_BRACE]);
    assert(filled.text.push(CLOSE_BRACE) == object_text(c));
    assert(object_text(c).drop_last() == seq![OPEN_BRACE] + rendered(c));
}

/// Whether `gap` holds separators only.
pub open spec fn is_gap(gap: Seq<u8>) -> bool {
    forall|i: int| 0 <= i < gap.len() ==> is_separator(#[trigger] gap[i])
}

/// Whether `blank` holds whitespace only.
pub open spec fn is_blank(blank: Seq<u8>) -> bool {
    forall|i: int| 0 <= i < blank.len() ==> is_whitespace(#[trigger] blank[i])
}

/// A top-level array of objects, taken apart.
pub struct ArrayShape {
    /// What stands before the opening bracket.
    pub lead: Seq<u8>,
    /// What stands before each object, after the bracket or the object before.
    pub gaps: Seq<Seq<u8>>,
    /// The objects, in order.
    pub objects: Seq<Content>,
    /// What stands between the last object and the closing bracket.
    pub closing: Seq<u8>,
    /// What stands after the closing bracket.
    pub trail: Seq<u8>,
}

/// The objects one after the other, each after its gap.
pub open spec fn listing(gaps: Seq<Seq<u8>>, objects: Seq<Content>) -> Seq<u8>
    decreases objects.len(),
{
    if objects.len() == 0 {
        Seq::empty()
    } else {
        listing(gaps.drop_last(), objects.drop_last()) + gaps.last() + object_text(objects.last())
    }
}

impl ArrayShape {
    /// Whitespace around the brackets, separators between the elements, and
    /// every element a correctly nested object.
    pub open spec fn well_formed(self) -> bool {
        &&& is_blank(self.lead)
        &&& is_blank(self.trail)
        &&& is_gap(self.closing)
        &&& self.gaps.len() == self.objects.len()
        &&& forall|i: int| 0 <= i < self.gaps.len() ==> is_gap(#[trigger] self.gaps[i])
        &&& forall|i: int| 0 <= i < self.objects.len() ==> well_nested(#[trigger] self.objects[i])
    }

    /// The bytes of the array.
    pub open spec fn text(self) -> Seq<u8> {
        self.lead + seq![OPEN_BRACKET] + listing(self.gaps, self.objects) + self.closing
            + seq![CLOSE_BRACKET] + self.trail
    }

    /// The bytes of each element, in order.
    pub open spec fn element_texts(self) -> Seq<Seq<u8>> {
        Seq::new(self.objects.len(), |i: int| object_text(self.objects[i]))
    }
}

/// Between two elements, a run of separators changes nothing and completes
/// nothing.
pub proof fn lemma_gap_is_inert(s: ScanState, gap: Seq<u8>)
    requires
        s.depth == 0,
        is_gap(gap),
    ensures
        end_state(s, gap) == s,
        elements(s, gap) == Seq::<Seq<u8>>::empty(),
    decreases gap.len(),
{
    if gap.len() > 0 {
        assert(is_separator(gap[0]));
        assert forall|i: int| 0 <= i < gap.drop_first().len() implies is_separator(
            #[trigger] gap.drop_first()[i],
        ) by {
            assert(gap.drop_first()[i] == gap[i + 1]);
        }
        lemma_gap_is_inert(s, gap.drop_first());
    }
}

/// Correctly nested objects with separators between them are handed out one
/// by one, in order, each with exactly its own bytes.
pub proof fn lemma_listing_yields_its_objects(gaps: Seq<Seq<u8>>, objects: Seq<Content>)
    requires
        gaps.len() == objects.len(),
        forall|i: int| 0 <= i < gaps.len() ==> is_gap(#[trigger] gaps[i]),
        forall|i: int| 0 <= i < objects.len() ==> well_nested(#[trigger] objects[i]),
    ensures
        end_state(between_elements(), listing(gaps, objects)) == between_elements(),
        elements(between_elements(), listing(gaps, objects)) == Seq::new(
            objects.len(),
            |i: int| object_text(objects[i]),
        ),
    decreases objects.len(),
{
    let s = between_elements();
    if objects.len() > 0 {
        let before = listing(gaps.drop_last(), objects.drop_last());
        lemma_listing_yields_its_objects(gaps.drop_last(), objects.drop_last());
        assert(is_gap(gaps.last()));
        assert(well_nested(objects.last()));
        lemma_gap_is_inert(s, gaps.last());
        lemma_object_is_one_element(objects.last());
        lemma_scan_concat(s, before, gaps.last());
        lemma_scan_concat(s, before + gaps.last(), object_text(objects.last()));
        assert(elements(s, listing(gaps, objects)) =~= Seq::new(
            objects.len(),
            |i: int| object_text(objects[i]),
        ));
    } else {
        assert(elements(s, listing(gaps, objects)) =~= Seq::new(
            objects.len(),
            |i: int| object_text(objects[i]),
        ));
    }
}

/// A well-formed array of objects yields exactly its elements, in their
/// order and with their own bytes: no separator, bracket or whitespace around
/// an element is part of what is handed out, and no element is split or
/// merged with another. The machine ends between elements.
pub proof fn lemma_array_yields_its_elements(a: ArrayShape)
    requires
        a.well_formed(),
    ensures
        elements(initial(), a.text()) == a.element_texts(),
        end_state(initial(), a.text()) == between_elements(),
{
    let s = initial();
    let b = between_elements();
    assert(is_gap(a.lead));
    assert(is_gap(a.trail));
    lemma_gap_is_inert(s, a.lead);
    lemma_scan_one(s, OPEN_BRACKET);
    assert(step(s, OPEN_BRACKET).next == b);
    lemma_listing_yields_its_objects(a.gaps, a.objects);
    lemma_gap_is_inert(b, a.closing);
    lemma_scan_one(b, CLOSE_BRACKET);
    assert(step(b, CLOSE_BRACKET).next == b);
    lemma_gap_is_inert(b, a.trail);
    let t1 = a.lead + seq![OPEN_BRACKET];
    let t2 = t1 + listing(a.gaps, a.objects);
    let t3 = t2 + a.closing;
    let t4 = t3 + seq![CLOSE_BRACKET];
    lemma_scan_concat(s, a.lead, seq![OPEN_BRACKET]);
    lemma_scan_concat(s, t1, listing(a.gaps, a.objects));
    lemma_scan_concat(s, t2, a.closing);
    lemma_scan_concat(s, t3, seq![CLOSE_BRACKET]);
    lemma_scan_concat(s, t4, a.trail);
}

} // verus!
