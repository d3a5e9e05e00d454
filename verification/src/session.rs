//! A whole pass over an input: what the owner of a stream is handed when it
//! pulls until the stream is finished, reading a chunk whenever it is asked
//! to, and that this does not depend on how the input is cut into chunks.

use vstd::prelude::*;
use crate::error::JsonError;
use crate::json_stream::{
    extended, fresh, pull_answer, pulled, scanned, supplied, supply_answer, yielded, Pull,
    ReadFailurePolicy, StreamView,
};
use crate::laws::{
    lemma_first_element_consumes, lemma_first_element_is_first, lemma_pull_is_chunk_independent,
};
use crate::machine::{elements, end_state, first_element, ScanState};
use crate::nesting::{lemma_array_yields_its_elements, ArrayShape};
use crate::parse::{element_outcome, parsed};

verus! {

/// The chunks one after the other.
pub open spec fn joined(chunks: Seq<Seq<u8>>) -> Seq<u8>
    decreases chunks.len(),
{
    if chunks.len() == 0 {
        Seq::empty()
    } else {
        chunks[0] + joined(chunks.drop_first())
    }
}

/// Whether no chunk is empty. An empty chunk is how a reader reports the end
/// of its input.
pub open spec fn no_chunk_is_empty(chunks: Seq<Seq<u8>>) -> bool {
    forall|i: int| 0 <= i < chunks.len() ==> (#[trigger] chunks[i]).len() > 0
}

/// What is left to do of a pass, as a number that every step lowers.
pub open spec fn work_left(v: StreamView) -> nat {
    if v.ended {
        0
    } else {
        1 + v.pending.len()
    }
}

/// What the owner is handed from a stream in state `v` when it pulls until
/// the stream is finished, while the reader delivers `chunks` one by one and
/// then reports the end of the input.
pub open spec fn pulls(v: StreamView, chunks: Seq<Seq<u8>>) -> Seq<
    Result<serde_json::Value, JsonError>,
>
    decreases chunks.len(), work_left(v), 1nat,
{
    match pull_answer(v) {
        Pull::Item(item) => {
            proof {
                lemma_first_element_consumes(v.scan, v.pending);
            }
            seq![item] + pulls(pulled(v), chunks)
        },
        Pull::NeedInput => {
            proof {
                lemma_first_element_is_first(v.scan, v.pending);
            }
            reads(pulled(v), chunks)
        },
        Pull::Finished => Seq::empty(),
    }
}

/// What the owner is handed from the moment at which the stream in state `v`
/// has asked for input.
pub open spec fn reads(v: StreamView, chunks: Seq<Seq<u8>>) -> Seq<
    Result<serde_json::Value, JsonError>,
>
    decreases chunks.len(), work_left(v), 0nat,
{
    if chunks.len() == 0 {
        let end = Ok::<Seq<u8>, std::io::Error>(Seq::empty());
        match supply_answer(v, end) {
            Pull::Item(item) => {
                proof {
                    assert(v.pending + Seq::<u8>::empty() == v.pending);
                    if yielded(extended(v, Seq::empty())) is Some {
                        lemma_first_element_consumes(v.scan, v.pending);
                    }
                }
                seq![item] + pulls(supplied(v, end), chunks)
            },
            _ => Seq::empty(),
        }
    } else {
        let read = Ok::<Seq<u8>, std::io::Error>(chunks[0]);
        match supply_answer(v, read) {
            Pull::Item(item) => seq![item] + pulls(supplied(v, read), chunks.drop_first()),
            Pull::NeedInput => reads(supplied(v, read), chunks.drop_first()),
            Pull::Finished => Seq::empty(),
        }
    }
}

/// What the stream yields for each of the given elements.
pub open spec fn items_of(texts: Seq<Seq<u8>>) -> Seq<Result<serde_json::Value, JsonError>> {
    Seq::new(texts.len(), |i: int| element_outcome(parsed(texts[i])))
}

/// The report of an element that the input broke off in, where the machine
/// ended inside one.
pub open spec fn truncation(end: ScanState) -> Seq<Result<serde_json::Value, JsonError>> {
    if end.depth > 0 {
        seq![Err(JsonError::TruncatedInput)]
    } else {
        Seq::empty()
    }
}

/// What a pass over `input` is to yield from state `s`: the parse of each
/// element that the machine completes, in order, and then the report of a
/// broken-off element where the input ends inside one.
pub open spec fn pass(s: ScanState, input: Seq<u8>) -> Seq<Result<serde_json::Value, JsonError>> {
    items_of(elements(s, input)) + truncation(end_state(s, input))
}

/// What a scan hands out takes one place in what a pass yields, and the pass
/// goes on from the state after it: an element that does not parse is one
/// failed item, and the elements after it are yielded as if it had parsed.
pub proof fn lemma_pass_after_pull(v: StreamView, later: Seq<u8>)
    ensures
        pass(v.scan, v.pending + later) == (match yielded(v) {
            Some(item) => seq![item],
            None => Seq::empty(),
        }) + pass(scanned(v).scan, scanned(v).pending + later),
{
    lemma_pull_is_chunk_independent(v, later);
    let left = elements(scanned(v).scan, scanned(v).pending + later);
    match first_element(v.scan, v.pending).element {
        Some(e) => {
            assert(items_of(seq![e] + left) == seq![element_outcome(parsed(e))] + items_of(left));
        },
        None => {
            assert(Seq::<Seq<u8>>::empty() + left == left);
        },
    }
}

/// A pass yields what the machine finds in the pending input followed by all
/// the chunks joined, whatever the chunks are.
pub proof fn lemma_pulls_yield_the_pass(v: StreamView, chunks: Seq<Seq<u8>>)
    requires
        !v.ended,
        no_chunk_is_empty(chunks),
    ensures
        pulls(v, chunks) == pass(v.scan, v.pending + joined(chunks)),
    decreases chunks.len(), work_left(v), 1nat,
{
    lemma_pass_after_pull(v, joined(chunks));
    lemma_first_element_is_first(v.scan, v.pending);
    match pull_answer(v) {
        Pull::Item(_) => {
            lemma_first_element_consumes(v.scan, v.pending);
            lemma_pulls_yield_the_pass(pulled(v), chunks);
        },
        Pull::NeedInput => {
            lemma_reads_yield_the_pass(pulled(v), chunks);
        },
        Pull::Finished => {},
    }
}

/// The same from the moment at which the stream has asked for input.
pub proof fn lemma_reads_yield_the_pass(v: StreamView, chunks: Seq<Seq<u8>>)
    requires
        !v.ended,
        no_chunk_is_empty(chunks),
    ensures
        reads(v, chunks) == pass(v.scan, v.pending + joined(chunks)),
    decreases chunks.len(), work_left(v), 0nat,
{
    if chunks.len() == 0 {
        let nothing = Seq::<u8>::empty();
        let end = Ok::<Seq<u8>, std::io::Error>(nothing);
        assert(v.pending + nothing == v.pending);
        assert(extended(v, nothing) == v);
        assert(joined(chunks) == nothing);
        lemma_pass_after_pull(v, nothing);
        lemma_first_element_is_first(v.scan, v.pending);
        let after = supplied(v, end);
        if yielded(v) is Some {
            lemma_first_element_consumes(v.scan, v.pending);
            assert(after == scanned(v));
            assert(scanned(v).pending + nothing == scanned(v).pending);
            lemma_pulls_yield_the_pass(after, chunks);
        } else {
            assert(after.ended);
            assert(pulls(after, chunks) == Seq::<Result<serde_json::Value, JsonError>>::empty());
            assert(scanned(v).pending + nothing == nothing);
            assert(elements(scanned(v).scan, nothing) == Seq::<Seq<u8>>::empty());
            assert(end_state(scanned(v).scan, nothing) == scanned(v).scan);
        }
    } else {
        let chunk = chunks[0];
        let rest = chunks.drop_first();
        let read = Ok::<Seq<u8>, std::io::Error>(chunk);
        let w = extended(v, chunk);
        assert(no_chunk_is_empty(rest)) by {
            assert forall|i: int| 0 <= i < rest.len() implies (#[trigger] rest[i]).len() > 0 by {
                assert(rest[i] == chunks[i + 1]);
            }
        }
        assert(v.pending + joined(chunks) == w.pending + joined(rest));
        lemma_pass_after_pull(w, joined(rest));
        let after = supplied(v, read);
        assert(after == scanned(w));
        if yielded(w) is Some {
            lemma_pulls_yield_the_pass(after, rest);
        } else {
            lemma_reads_yield_the_pass(after, rest);
        }
    }
}

/// Two ways of cutting the same input into chunks give the same pass: the
/// same items in the same order, whether the input comes byte by byte or
/// all at once, and whatever the input is.
pub proof fn lemma_pass_is_chunk_independent(
    v: StreamView,
    first: Seq<Seq<u8>>,
    second: Seq<Seq<u8>>,
)
    requires
        !v.ended,
        no_chunk_is_empty(first),
        no_chunk_is_empty(second),
        joined(first) == joined(second),
    ensures
        pulls(v, first) == pulls(v, second),
{
    lemma_pulls_yield_the_pass(v, first);
    lemma_pulls_yield_the_pass(v, second);
}

/// However a well-formed array of objects is cut into chunks, a pass over it
/// yields the parse of each of its elements, once and in the array's order,
/// and nothing else.
pub proof fn lemma_array_pass_is_chunk_independent(
    a: ArrayShape,
    chunks: Seq<Seq<u8>>,
    policy: ReadFailurePolicy,
)
    requires
        a.well_formed(),
        no_chunk_is_empty(chunks),
        joined(chunks) == a.text(),
    ensures
        pulls(fresh(policy), chunks) == items_of(a.element_texts()),
{
    let v = fresh(policy);
    lemma_pulls_yield_the_pass(v, chunks);
    lemma_array_yields_its_elements(a);
    assert(v.pending + joined(chunks) == a.text());
}

} // verus!
