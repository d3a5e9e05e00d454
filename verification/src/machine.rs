//! The boundary-finding state machine, as a mathematical model.
//!
//! Nothing here runs: a state, the effect of one byte on it, and the effect
//! of a run of bytes. The executable scanner is proved against these
//! definitions.

use vstd::prelude::*;

verus! {

/// `"`
pub const QUOTE: u8 = 0x22;

/// `\`
pub const BACKSLASH: u8 = 0x5C;

/// `[`
pub const OPEN_BRACKET: u8 = 0x5B;

/// `]`
pub const CLOSE_BRACKET: u8 = 0x5D;

/// `{`
pub const OPEN_BRACE: u8 = 0x7B;

/// `}`
pub const CLOSE_BRACE: u8 = 0x7D;

/// `,`
pub const COMMA: u8 = 0x2C;

/// ASCII whitespace: space, tab, line feed, form feed, carriage return.
pub open spec fn is_whitespace(b: u8) -> bool {
    b == 0x20 || b == 0x09 || b == 0x0A || b == 0x0C || b == 0x0D
}

/// A byte that may stand between two elements: whitespace or a comma.
pub open spec fn is_separator(b: u8) -> bool {
    is_whitespace(b) || b == COMMA
}

/// What the scanner remembers between two bytes.
pub struct ScanState {
    /// Opening braces seen outside strings that have not been closed yet.
    pub depth: nat,
    /// Whether the last byte lay inside a string literal.
    pub in_string: bool,
    /// Whether the bracket that opens the top-level array has been seen.
    pub array_opened: bool,
    /// The bytes of the element being assembled.
    pub text: Seq<u8>,
}

/// The effect of one byte: the state after it and, if the byte completed an
/// element, that element's bytes.
pub struct Step {
    pub next: ScanState,
    pub emitted: Option<Seq<u8>>,
}

/// The state before any input.
pub open spec fn initial() -> ScanState {
    ScanState { depth: 0, in_string: false, array_opened: false, text: Seq::empty() }
}

/// The number of backslashes at the end of `text`.
pub open spec fn escape_run(text: Seq<u8>) -> nat
    decreases text.len(),
{
    if text.len() > 0 && text.last() == BACKSLASH {
        1 + escape_run(text.drop_last())
    } else {
        0
    }
}

/// The accumulator after `b` has been looked at: a byte is kept while an
/// element is open, and the brace that opens one is kept too.
pub open spec fn capture(s: ScanState, b: u8) -> Seq<u8> {
    if s.depth > 0 || (b == OPEN_BRACE && !s.in_string) {
        s.text.push(b)
    } else {
        s.text
    }
}

/// One transition of the machine.
///
/// A quote toggles `in_string` when an even number of backslashes stands
/// directly before it in the accumulator. Outside strings, the first `[`
/// opens the array and empties the accumulator, `{` goes one level down, and
/// `}` goes one level up; the `}` that returns to level zero completes the
/// element, whose bytes are the accumulator including that brace. A `}` at
/// level zero is ignored. Every other byte only is captured or skipped.
pub open spec fn step(s: ScanState, b: u8) -> Step {
    let text = capture(s, b);
    if b == QUOTE {
        let toggles = escape_run(s.text) % 2 == 0;
        Step {
            next: ScanState { in_string: toggles != s.in_string, text, ..s },
            emitted: None,
        }
    } else if s.in_string {
        Step { next: ScanState { text, ..s }, emitted: None }
    } else if b == OPEN_BRACKET && !s.array_opened {
        Step { next: ScanState { array_opened: true, text: Seq::empty(), ..s }, emitted: None }
    } else if b == OPEN_BRACE {
        Step { next: ScanState { depth: s.depth + 1, text, ..s }, emitted: None }
    } else if b == CLOSE_BRACE && s.depth == 1 {
        Step { next: ScanState { depth: 0, text: Seq::empty(), ..s }, emitted: Some(text) }
    } else if b == CLOSE_BRACE && s.depth > 1 {
        Step { next: ScanState { depth: (s.depth - 1) as nat, text, ..s }, emitted: None }
    } else {
        Step { next: ScanState { text, ..s }, emitted: None }
    }
}

/// `input` without the separators it begins with.
pub open spec fn skip_separators(input: Seq<u8>) -> Seq<u8>
    decreases input.len(),
{
    if input.len() > 0 && is_separator(input[0]) {
        skip_separators(input.drop_first())
    } else {
        input
    }
}

/// The outcome of scanning up to the first completed element.
pub struct Found {
    /// The state after the last byte consumed.
    pub state: ScanState,
    /// The element, if one was completed.
    pub element: Option<Seq<u8>>,
    /// The input that is left: what follows the element and the separators
    /// after it, or nothing where no element was completed.
    pub rest: Seq<u8>,
}

/// Scans `input` from `s` up to the first completed element.
pub open spec fn first_element(s: ScanState, input: Seq<u8>) -> Found
    decreases input.len(),
{
    if input.len() == 0 {
        Found { state: s, element: None, rest: input }
    } else {
        let st = step(s, input[0]);
        if st.emitted is Some {
            Found {
                state: st.next,
                element: st.emitted,
                rest: skip_separators(input.drop_first()),
            }
        } else {
            first_element(st.next, input.drop_first())
        }
    }
}

/// The state after all of `input` has been scanned from `s`.
pub open spec fn end_state(s: ScanState, input: Seq<u8>) -> ScanState
    decreases input.len(),
{
    if input.len() == 0 {
        s
    } else {
        end_state(step(s, input[0]).next, input.drop_first())
    }
}

/// The elements completed while all of `input` is scanned from `s`, in the
/// order in which they were completed.
pub open spec fn elements(s: ScanState, input: Seq<u8>) -> Seq<Seq<u8>>
    decreases input.len(),
{
    if input.len() == 0 {
        Seq::empty()
    } else {
        let st = step(s, input[0]);
        let later = elements(st.next, input.drop_first());
        match st.emitted {
            Some(e) => seq![e] + later,
            None => later,
        }
    }
}

} // verus!
