//! The executable scanner: the pending input, the scan state and the bytes of
//! the element being assembled.

use std::collections::VecDeque;
use vstd::prelude::*;
use crate::machine::{
    escape_run, first_element, initial, is_separator, skip_separators, step, ScanState, BACKSLASH,
    CLOSE_BRACE, COMMA, OPEN_BRACE, OPEN_BRACKET, QUOTE,
};

verus! {

/// The bytes of an element that was handed out, if one was.
pub open spec fn bytes_of(element: Option<Vec<u8>>) -> Option<Seq<u8>> {
    match element {
        Some(text) => Some(text@),
        None => None,
    }
}

/// Whether `b` may stand between two elements.
pub fn separates(b: u8) -> (r: bool)
    ensures
        r == is_separator(b),
{
    b == 0x20 || b == 0x09 || b == 0x0A || b == 0x0C || b == 0x0D || b == COMMA
}

/// Counts the backslashes at the end of `text`.
pub fn trailing_backslashes(text: &Vec<u8>) -> (n: usize)
    ensures
        n == escape_run(text@),
{
    let len = text.len();
    let mut n: usize = 0;
    proof {
        assert(text@.take(len as int) == text@);
    }
    while n < len && text[len - 1 - n] == BACKSLASH
        invariant
            len == text@.len(),
            n <= len,
            escape_run(text@) == n + escape_run(text@.take(len - n)),
        decreases len - n,
    {
        proof {
            let head = text@.take(len - n);
            assert(head.last() == text@[len - 1 - n]);
            assert(head.drop_last() == text@.take(len - n - 1));
        }
        n = n + 1;
    }
    proof {
        let head = text@.take(len - n);
        if n < len {
            assert(head.last() == text@[len - 1 - n]);
        }
    }
    n
}

/// The scanner: the machine's state in executable form, and the input that
/// waits to be taken through it.
pub(crate) struct Scanner {
    /// Input that has arrived and has not been scanned.
    pub(crate) pending: VecDeque<u8>,
    pub(crate) in_string: bool,
    /// The number of open braces, in a type wide enough that no input a
    /// machine can hold overflows it.
    pub(crate) depth: u128,
    pub(crate) array_opened: bool,
    /// The bytes of the element being assembled.
    pub(crate) text: Vec<u8>,
}

impl Scanner {
    /// Every open brace is still in the accumulator, except those that were
    /// there when the array's bracket emptied it.
    pub(crate) open spec fn wf(&self) -> bool {
        &&& !self.array_opened ==> self.depth <= self.text@.len()
        &&& self.depth <= self.text@.len() + usize::MAX
    }

    /// The machine's state.
    pub(crate) open spec fn state(&self) -> ScanState {
        ScanState {
            depth: self.depth as nat,
            in_string: self.in_string,
            array_opened: self.array_opened,
            text: self.text@,
        }
    }

    /// A scanner that has seen no input.
    pub(crate) fn new() -> (s: Scanner)
        ensures
            s.wf(),
            s.state() == initial(),
            s.pending@ == Seq::<u8>::empty(),
    {
        Scanner {
            pending: VecDeque::new(),
            in_string: false,
            depth: 0,
            array_opened: false,
            text: Vec::new(),
        }
    }

    /// Appends `chunk` to the pending input. Nothing is scanned.
    pub(crate) fn ingest(&mut self, chunk: &[u8])
        requires
            old(self).wf(),
        ensures
            final(self).wf(),
            final(self).state() == old(self).state(),
            final(self).pending@ == old(self).pending@ + chunk@,
    {
        let mut i: usize = 0;
        while i < chunk.len()
            invariant
                i <= chunk@.len(),
                self.wf(),
                self.state() == old(self).state(),
                self.pending@ == old(self).pending@ + chunk@.take(i as int),
            decreases chunk@.len() - i,
        {
            self.pending.push_back(chunk[i]);
            proof {
                assert(chunk@.take(i + 1) == chunk@.take(i as int).push(chunk@[i as int]));
            }
            i = i + 1;
        }
        proof {
            assert(chunk@.take(i as int) == chunk@);
        }
    }

    /// Takes one byte through the machine.
    pub(crate) fn feed(&mut self, b: u8) -> (out: Option<Vec<u8>>)
        requires
            old(self).wf(),
        ensures
            final(self).wf(),
            final(self).pending@ == old(self).pending@,
            final(self).state() == step(old(self).state(), b).next,
            bytes_of(out) == step(old(self).state(), b).emitted,
    {
        let toggles = b == QUOTE && trailing_backslashes(&self.text) % 2 == 0;
        if self.depth > 0 || (b == OPEN_BRACE && !self.in_string) {
            self.text.push(b);
        }
        proof {
            assert(self.text@.len() == self.text.len());
        }
        if b == QUOTE {
            if toggles {
                self.in_string = !self.in_string;
            }
            None
        } else if self.in_string {
            None
        } else if b == OPEN_BRACKET && !self.array_opened {
            self.array_opened = true;
            self.text.clear();
            None
        } else if b == OPEN_BRACE {
            self.depth = self.depth + 1;
            None
        } else if b == CLOSE_BRACE && self.depth > 0 {
            self.depth = self.depth - 1;
            if self.depth == 0 {
                let mut element: Vec<u8> = Vec::new();
                std::mem::swap(&mut element, &mut self.text);
                Some(element)
            } else {
                None
            }
        } else {
            None
        }
    }

    /// Drops the separators at the front of the pending input.
    pub(crate) fn skip_separators(&mut self)
        requires
            old(self).wf(),
        ensures
            final(self).wf(),
            final(self).state() == old(self).state(),
            final(self).pending@ == skip_separators(old(self).pending@),
    {
        while self.pending.len() > 0 && separates(self.pending[0])
            invariant
                self.wf(),
                self.state() == old(self).state(),
                skip_separators(self.pending@) == skip_separators(old(self).pending@),
            decreases self.pending@.len(),
        {
            let _ = self.pending.pop_front();
        }
    }

    /// Scans the pending input up to the first completed element.
    pub(crate) fn extract(&mut self) -> (out: Option<Vec<u8>>)
        requires
            old(self).wf(),
        ensures
            final(self).wf(),
            final(self).state() == first_element(old(self).state(), old(self).pending@).state,
            final(self).pending@ == first_element(old(self).state(), old(self).pending@).rest,
            bytes_of(out) == first_element(old(self).state(), old(self).pending@).element,
    {
        loop
            invariant
                self.wf(),
                first_element(self.state(), self.pending@) == first_element(
                    old(self).state(),
                    old(self).pending@,
                ),
            decreases self.pending@.len(),
        {
            match self.pending.pop_front() {
                None => {
                    return None;
                },
                Some(b) => {
                    let out = self.feed(b);
                    if out.is_some() {
                        self.skip_separators();
                        return out;
                    }
                },
            }
        }
    }
}

} // verus!
