//! The scanner's error taxonomy: a tagged kind plus an explicit cause chain.
//!
//! A failure is reported as the most recent [`ErrorKind`] together with the
//! kinds it wrapped on the way out, newest wrapper first.  Wrapping never
//! loses information: each layer that adds context pushes the previous kind
//! onto the cause list.

use vstd::prelude::*;

verus! {

/// The kinds of failure the scanner distinguishes.
#[derive(Debug, Clone, PartialEq)]
pub enum ErrorKind {
    /// A plain textual message.
    Msg(String),
    /// Input ended where a token was required.
    UnexpectedEOF,
    /// No token class recognises this character.
    UnknownCharacter(char),
    /// A failure at the given byte offset, with a description of the
    /// operation that failed there.
    MessageWithLocation(usize, String),
}

/// Mathematical view of an [`ErrorKind`]: messages become character
/// sequences and offsets become unbounded integers.
pub enum SpecErrorKind {
    Msg(Seq<char>),
    UnexpectedEOF,
    UnknownCharacter(char),
    MessageWithLocation(int, Seq<char>),
}

impl View for ErrorKind {
    type V = SpecErrorKind;

    open spec fn view(&self) -> SpecErrorKind {
        match self {
            ErrorKind::Msg(s) => SpecErrorKind::Msg(s@),
            ErrorKind::UnexpectedEOF => SpecErrorKind::UnexpectedEOF,
            ErrorKind::UnknownCharacter(c) => SpecErrorKind::UnknownCharacter(*c),
            ErrorKind::MessageWithLocation(at, s) => SpecErrorKind::MessageWithLocation(
                *at as int,
                s@,
            ),
        }
    }
}

/// Mathematical view of an [`Error`]: the current kind and the chain of
/// kinds it wrapped, oldest first.
pub struct SpecError {
    pub kind: SpecErrorKind,
    pub causes: Seq<SpecErrorKind>,
}

/// The result of wrapping `e` with the new kind `k`: `k` becomes current
/// and the previous kind joins the end of the cause chain.
pub open spec fn spec_chain(e: SpecError, k: SpecErrorKind) -> SpecError {
    SpecError { kind: k, causes: e.causes.push(e.kind) }
}

/// A chainable scanner error: its current kind plus the kinds that earlier
/// layers reported, oldest first.
#[derive(Debug, Clone, PartialEq)]
pub struct Error {
    kind: ErrorKind,
    causes: Vec<ErrorKind>,
}

impl View for Error {
    type V = SpecError;

    closed spec fn view(&self) -> SpecError {
        SpecError {
            kind: self.kind@,
            causes: self.causes@.map_values(|k: ErrorKind| k@),
        }
    }
}

impl Error {
    /// A fresh error with no causes.
    pub fn from_kind(kind: ErrorKind) -> (e: Error)
        ensures
            e@.kind == kind@,
            e@.causes == Seq::<SpecErrorKind>::empty(),
    {
        let e = Error { kind, causes: Vec::new() };
        proof {
            assert(e@.causes =~= Seq::<SpecErrorKind>::empty());
        }
        e
    }

    /// The current (outermost) kind of this error.
    pub fn kind(&self) -> (k: &ErrorKind)
        ensures
            k@ == self@.kind,
    {
        &self.kind
    }

    /// The kinds this error wrapped on its way out, oldest first.
    pub fn causes(&self) -> (c: &Vec<ErrorKind>)
        ensures
            c@.map_values(|k: ErrorKind| k@) == self@.causes,
    {
        &self.causes
    }

    /// Wrap this error with a new kind describing the operation that was
    /// under way when it occurred.
    pub fn chain_err(self, kind: ErrorKind) -> (e: Error)
        ensures
            e@ == spec_chain(self@, kind@),
    {
        let mut causes = self.causes;
        causes.push(self.kind);
        let e = Error { kind, causes };
        proof {
            assert(e@.causes =~= spec_chain(self@, kind@).causes);
        }
        e
    }
}

} // verus!
