//! The stream: a scanner, and the pull protocol that a reader drives.

use vstd::prelude::*;
use crate::error::JsonError;
use crate::machine::{first_element, initial, ScanState};
use crate::parse::{element_outcome, parse_element, parsed};
use crate::scanner::{bytes_of, Scanner};

verus! {

/// What becomes of the stream when the input source fails.
#[derive(Clone, Copy, Debug, PartialEq, Eq, Structural)]
pub enum ReadFailurePolicy {
    /// The failure ends the stream: every later pull finds it finished.
    FailFast,
    /// The failure is reported and the stream stays open: the next pull asks
    /// for input again.
    Continue,
}

/// The answer to a pull.
#[derive(Debug)]
pub enum Pull {
    /// The next element of the array, or the failure that stands in its place.
    Item(Result<serde_json::Value, JsonError>),
    /// No element is complete in what has arrived: read one chunk from the
    /// input source and hand the outcome to `supply`.
    NeedInput,
    /// The stream is finished. It stays so.
    Finished,
}

/// The stream as contracts see it.
pub struct StreamView {
    /// The state of the boundary-finding machine.
    pub scan: ScanState,
    /// The input that has arrived and has not been scanned.
    pub pending: Seq<u8>,
    /// Whether the stream is finished.
    pub ended: bool,
    /// What a failed read does to the stream.
    pub policy: ReadFailurePolicy,
}

/// A stream that has seen no input.
pub open spec fn fresh(policy: ReadFailurePolicy) -> StreamView {
    StreamView { scan: initial(), pending: Seq::empty(), ended: false, policy }
}

/// The stream after it has scanned its pending input up to the first
/// completed element.
pub open spec fn scanned(v: StreamView) -> StreamView {
    let found = first_element(v.scan, v.pending);
    StreamView { scan: found.state, pending: found.rest, ..v }
}

/// What a scan of the pending input yields: the parse of the first completed
/// element, if there is one.
pub open spec fn yielded(v: StreamView) -> Option<Result<serde_json::Value, JsonError>> {
    match first_element(v.scan, v.pending).element {
        Some(text) => Some(element_outcome(parsed(text))),
        None => None,
    }
}

/// The stream after a pull.
pub open spec fn pulled(v: StreamView) -> StreamView {
    if v.ended {
        v
    } else {
        scanned(v)
    }
}

/// The answer to a pull.
pub open spec fn pull_answer(v: StreamView) -> Pull {
    if v.ended {
        Pull::Finished
    } else {
        match yielded(v) {
            Some(item) => Pull::Item(item),
            None => Pull::NeedInput,
        }
    }
}

/// A read outcome with the chunk as a sequence of bytes.
pub open spec fn read_view(read: Result<&[u8], std::io::Error>) -> Result<
    Seq<u8>,
    std::io::Error,
> {
    match read {
        Ok(chunk) => Ok(chunk@),
        Err(e) => Err(e),
    }
}

/// The stream with `chunk` added to its pending input.
pub open spec fn extended(v: StreamView, chunk: Seq<u8>) -> StreamView {
    StreamView { pending: v.pending + chunk, ..v }
}

/// The stream after a read outcome was supplied.
pub open spec fn supplied(v: StreamView, read: Result<Seq<u8>, std::io::Error>) -> StreamView {
    if v.ended {
        v
    } else {
        match read {
            Err(_) => StreamView { ended: v.policy == ReadFailurePolicy::FailFast, ..v },
            Ok(chunk) => {
                let after = scanned(extended(v, chunk));
                let at_end = chunk.len() == 0 && yielded(extended(v, chunk)) is None;
                StreamView { ended: at_end, ..after }
            },
        }
    }
}

/// The answer to a supplied read outcome.
///
/// A failed read is reported as it is. A chunk is scanned together with what
/// was pending. An empty chunk is the end of the input: where no element is
/// left to yield, the stream is finished, and it says so at once, or first
/// reports the element that the input broke off in.
pub open spec fn supply_answer(v: StreamView, read: Result<Seq<u8>, std::io::Error>) -> Pull {
    if v.ended {
        Pull::Finished
    } else {
        match read {
            Err(e) => Pull::Item(Err(JsonError::Io(e))),
            Ok(chunk) => match yielded(extended(v, chunk)) {
                Some(item) => Pull::Item(item),
                None => if chunk.len() > 0 {
                    Pull::NeedInput
                } else if scanned(extended(v, chunk)).scan.depth > 0 {
                    Pull::Item(Err(JsonError::TruncatedInput))
                } else {
                    Pull::Finished
                },
            },
        }
    }
}

/// An incremental reader of the elements of one top-level JSON array.
///
/// The stream does no input of its own. Its owner pulls; when the stream
/// answers `Pull::NeedInput`, the owner reads a chunk and supplies it.
pub struct JsonStream {
    scanner: Scanner,
    ended: bool,
    policy: ReadFailurePolicy,
}

impl View for JsonStream {
    type V = StreamView;

    closed spec fn view(&self) -> StreamView {
        StreamView {
            scan: self.scanner.state(),
            pending: self.scanner.pending@,
            ended: self.ended,
            policy: self.policy,
        }
    }
}

impl JsonStream {
    #[verifier::type_invariant]
    spec fn inv(self) -> bool {
        self.scanner.wf()
    }

    /// A stream that has seen no input and stays open after a failed read.
    pub fn new() -> (s: JsonStream)
        ensures
            s@ == fresh(ReadFailurePolicy::Continue),
    {
        JsonStream::with_policy(ReadFailurePolicy::Continue)
    }

    /// A stream that has seen no input, with the given policy on failed reads.
    pub fn with_policy(policy: ReadFailurePolicy) -> (s: JsonStream)
        ensures
            s@ == fresh(policy),
    {
        JsonStream { scanner: Scanner::new(), ended: false, policy }
    }

    /// Adds `chunk` to the pending input. Nothing is scanned.
    pub fn ingest(&mut self, chunk: &[u8])
        ensures
            final(self)@ == extended(old(self)@, chunk@),
    {
        proof {
            use_type_invariant(&*self);
        }
        let mut scanner = Scanner::new();
        std::mem::swap(&mut scanner, &mut self.scanner);
        scanner.ingest(chunk);
        self.scanner = scanner;
    }

    /// Scans the pending input up to the first completed element and hands
    /// out that element's bytes, exactly as they stood in the input.
    pub fn next_element_text(&mut self) -> (text: Option<Vec<u8>>)
        ensures
            final(self)@ == scanned(old(self)@),
            bytes_of(text) == first_element(old(self)@.scan, old(self)@.pending).element,
    {
        proof {
            use_type_invariant(&*self);
        }
        let mut scanner = Scanner::new();
        std::mem::swap(&mut scanner, &mut self.scanner);
        let text = scanner.extract();
        self.scanner = scanner;
        text
    }

    /// Scans the pending input up to the first completed element and parses
    /// it. `None` means that no element is complete yet: all pending input
    /// has been taken into the scan state.
    pub fn find_object_in_buffer(&mut self) -> (item: Option<Result<serde_json::Value, JsonError>>)
        ensures
            final(self)@ == scanned(old(self)@),
            item == yielded(old(self)@),
    {
        match self.next_element_text() {
            Some(text) => Some(parse_element(text.as_slice())),
            None => None,
        }
    }

    /// Pulls the next element out of what has arrived.
    pub fn next(&mut self) -> (pull: Pull)
        ensures
            final(self)@ == pulled(old(self)@),
            pull == pull_answer(old(self)@),
    {
        if self.ended {
            return Pull::Finished;
        }
        match self.find_object_in_buffer() {
            Some(item) => Pull::Item(item),
            None => Pull::NeedInput,
        }
    }

    /// Takes the outcome of the read that `Pull::NeedInput` asked for, and
    /// pulls again.
    pub fn supply(&mut self, read: Result<&[u8], std::io::Error>) -> (pull: Pull)
        ensures
            final(self)@ == supplied(old(self)@, read_view(read)),
            pull == supply_answer(old(self)@, read_view(read)),
    {
        if self.ended {
            return Pull::Finished;
        }
        match read {
            Err(e) => {
                match self.policy {
                    ReadFailurePolicy::FailFast => {
                        proof {
                            use_type_invariant(&*self);
                        }
                        self.ended = true;
                    },
                    ReadFailurePolicy::Continue => {},
                }
                Pull::Item(Err(JsonError::Io(e)))
            },
            Ok(chunk) => {
                self.ingest(chunk);
                match self.find_object_in_buffer() {
                    Some(item) => Pull::Item(item),
                    None => {
                        if chunk.len() > 0 {
                            Pull::NeedInput
                        } else {
                            proof {
                                use_type_invariant(&*self);
                            }
                            self.ended = true;
                            if self.brace_depth() > 0 {
                                Pull::Item(Err(JsonError::TruncatedInput))
                            } else {
                                Pull::Finished
                            }
                        }
                    },
                }
            },
        }
    }

    /// The number of braces that are open.
    pub fn brace_depth(&self) -> (depth: u128)
        ensures
            depth == self@.scan.depth,
    {
        self.scanner.depth
    }

    /// Whether the last byte scanned lay inside a string literal.
    pub fn in_string(&self) -> (inside: bool)
        ensures
            inside == self@.scan.in_string,
    {
        self.scanner.in_string
    }

    /// Whether the bracket that opens the array has been scanned.
    pub fn array_opened(&self) -> (opened: bool)
        ensures
            opened == self@.scan.array_opened,
    {
        self.scanner.array_opened
    }

    /// The number of bytes that have arrived and have not been scanned.
    pub fn pending_len(&self) -> (len: usize)
        ensures
            len == self@.pending.len(),
    {
        self.scanner.pending.len()
    }

    /// Whether the stream is finished.
    pub fn is_finished(&self) -> (ended: bool)
        ensures
            ended == self@.ended,
    {
        self.ended
    }

    /// The policy on failed reads that the stream was made with.
    pub fn policy(&self) -> (policy: ReadFailurePolicy)
        ensures
            policy == self@.policy,
    {
        self.policy
    }
}

} // verus!
