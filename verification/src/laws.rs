//! What holds of the machine whatever the input and however it is cut into
//! chunks.

use vstd::prelude::*;
use crate::json_stream::{scanned, StreamView};
use crate::machine::{
    elements, end_state, first_element, is_separator, skip_separators, step, ScanState, CLOSE_BRACE,
    OPEN_BRACE,
};

verus! {

/// The element that a scan hands out, as a sequence of zero or one.
pub open spec fn handed_out(s: ScanState, input: Seq<u8>) -> Seq<Seq<u8>> {
    match first_element(s, input).element {
        Some(e) => seq![e],
        None => Seq::empty(),
    }
}

/// Scanning two runs of bytes one after the other is scanning them joined:
/// the state at the end is the same, and the elements are those of the first
/// run followed by those of the second.
pub proof fn lemma_scan_concat(s: ScanState, a: Seq<u8>, b: Seq<u8>)
    ensures
        end_state(s, a + b) == end_state(end_state(s, a), b),
        elements(s, a + b) == elements(s, a) + elements(end_state(s, a), b),
    decreases a.len(),
{
    if a.len() == 0 {
        assert(a + b == b);
    } else {
        let st = step(s, a[0]);
        assert((a + b)[0] == a[0]);
        assert((a + b).drop_first() == a.drop_first() + b);
        lemma_scan_concat(st.next, a.drop_first(), b);
    }
}

/// Between two elements a separator changes nothing.
pub proof fn lemma_separator_is_inert(s: ScanState, b: u8)
    requires
        s.depth == 0,
        is_separator(b),
    ensures
        step(s, b).next == s,
        step(s, b).emitted is None,
{
}

/// Between two elements, the separators at the front of the input can be
/// dropped without changing what the scan yields or where it ends.
pub proof fn lemma_skipped_separators_are_inert(s: ScanState, input: Seq<u8>)
    requires
        s.depth == 0,
    ensures
        end_state(s, skip_separators(input)) == end_state(s, input),
        elements(s, skip_separators(input)) == elements(s, input),
    decreases input.len(),
{
    if input.len() > 0 && is_separator(input[0]) {
        lemma_separator_is_inert(s, input[0]);
        lemma_skipped_separators_are_inert(s, input.drop_first());
    }
}

/// Only a closing brace completes an element. It is the element's last byte,
/// so a completed element is never empty or blank, and it leaves the machine
/// between elements.
pub proof fn lemma_completion_resets(s: ScanState, b: u8)
    requires
        step(s, b).emitted is Some,
    ensures
        b == CLOSE_BRACE,
        step(s, b).next.depth == 0,
        step(s, b).next.text.len() == 0,
        !step(s, b).next.in_string,
        step(s, b).emitted->0.len() > 0,
        step(s, b).emitted->0.last() == b,
{
}

/// A scan up to the first completed element hands out the first of the
/// elements that the input holds and leaves the others: what the state and
/// the input that are left yield is the rest, and they end where the whole
/// input ends. Where it hands out nothing, the input held no complete
/// element and has all been taken into the state.
pub proof fn lemma_first_element_is_first(s: ScanState, input: Seq<u8>)
    ensures
        elements(s, input) == handed_out(s, input) + elements(
            first_element(s, input).state,
            first_element(s, input).rest,
        ),
        end_state(s, input) == end_state(
            first_element(s, input).state,
            first_element(s, input).rest,
        ),
        first_element(s, input).element is None ==> first_element(s, input).rest.len() == 0,
        first_element(s, input).rest.len() <= input.len(),
    decreases input.len(),
{
    if input.len() > 0 {
        let st = step(s, input[0]);
        if st.emitted is Some {
            lemma_completion_resets(s, input[0]);
            lemma_skipped_separators_are_inert(st.next, input.drop_first());
            lemma_skip_separators_shortens(input.drop_first());
        } else {
            lemma_first_element_is_first(st.next, input.drop_first());
        }
    }
}

/// A scan that hands out an element has consumed at least the byte that
/// completed it.
pub proof fn lemma_first_element_consumes(s: ScanState, input: Seq<u8>)
    requires
        first_element(s, input).element is Some,
    ensures
        first_element(s, input).rest.len() < input.len(),
    decreases input.len(),
{
    if input.len() > 0 {
        let st = step(s, input[0]);
        if st.emitted is Some {
            lemma_skip_separators_shortens(input.drop_first());
        } else {
            lemma_first_element_consumes(st.next, input.drop_first());
        }
    }
}

/// Dropping separators does not lengthen the input.
pub proof fn lemma_skip_separators_shortens(input: Seq<u8>)
    ensures
        skip_separators(input).len() <= input.len(),
    decreases input.len(),
{
    if input.len() > 0 && is_separator(input[0]) {
        lemma_skip_separators_shortens(input.drop_first());
    }
}

/// Where the input is cut into chunks does not matter: a pull at any moment
/// hands out the next element of the pending input followed by whatever comes
/// `later`, and leaves a stream that has the remaining ones to yield. A pull
/// that hands out nothing changes nothing of what is to come.
pub proof fn lemma_pull_is_chunk_independent(v: StreamView, later: Seq<u8>)
    ensures
        elements(v.scan, v.pending + later) == handed_out(v.scan, v.pending) + elements(
            scanned(v).scan,
            scanned(v).pending + later,
        ),
        end_state(v.scan, v.pending + later) == end_state(
            scanned(v).scan,
            scanned(v).pending + later,
        ),
{
    let found = first_element(v.scan, v.pending);
    lemma_first_element_is_first(v.scan, v.pending);
    lemma_scan_concat(v.scan, v.pending, later);
    lemma_scan_concat(found.state, found.rest, later);
}

/// Whether the array is open and the accumulator is in order: empty between
/// two elements, and beginning with the element's opening brace inside one.
pub open spec fn is_framed(s: ScanState) -> bool {
    &&& s.array_opened
    &&& s.depth == 0 ==> s.text.len() == 0
    &&& s.depth > 0 ==> s.text.len() > 0 && s.text[0] == OPEN_BRACE
}

/// Whether `element` begins with an opening brace and ends with a closing
/// one.
pub open spec fn is_braced(element: Seq<u8>) -> bool {
    element.len() >= 2 && element.first() == OPEN_BRACE && element.last() == CLOSE_BRACE
}

/// Once the array is open, the accumulator stays in order, and a completed
/// element reaches from its opening brace to its closing brace.
pub proof fn lemma_step_keeps_frame(s: ScanState, b: u8)
    requires
        is_framed(s),
    ensures
        is_framed(step(s, b).next),
        step(s, b).emitted matches Some(element) ==> is_braced(element),
{
}

/// Once the array is open, whatever the input, every element handed out
/// reaches from its opening brace to its closing brace: nothing that stands
/// between two elements is part of either.
pub proof fn lemma_elements_are_braced(s: ScanState, input: Seq<u8>)
    requires
        is_framed(s),
    ensures
        is_framed(end_state(s, input)),
        forall|i: int|
            0 <= i < elements(s, input).len() ==> is_braced(#[trigger] elements(s, input)[i]),
    decreases input.len(),
{
    if input.len() > 0 {
        let st = step(s, input[0]);
        let later = elements(st.next, input.drop_first());
        lemma_step_keeps_frame(s, input[0]);
        lemma_elements_are_braced(st.next, input.drop_first());
        assert forall|i: int| 0 <= i < elements(s, input).len() implies is_braced(
            #[trigger] elements(s, input)[i],
        ) by {
            match st.emitted {
                Some(e) => {
                    if i > 0 {
                        assert(elements(s, input)[i] == later[i - 1]);
                    }
                },
                None => {},
            }
        }
    }
}

} // verus!
