//! Errors raised by aggregate graphics resources built from managed assets,
//! such as a linked program rebuilt when a constituent shader reloads.

use vstd::prelude::*;

verus! {

/// The kinds of failure an aggregate resource can report.
#[derive(Clone, Copy, Debug, Eq, Hash, Ord, PartialEq, PartialOrd, Structural)]
pub enum ProgramErrorKind {
    ShaderAssetPoisoned,
}

/// The mathematical content of a [`ProgramError`].
pub struct ProgramErrorView {
    pub message: Seq<char>,
    pub kind: ProgramErrorKind,
    pub source: Option<Seq<char>>,
}

/// An error raised while assembling or rebuilding a program from its
/// shader assets.
#[derive(Debug)]
pub struct ProgramError {
    message: String,
    kind: ProgramErrorKind,
    source: Option<String>,
}

impl View for ProgramError {
    type V = ProgramErrorView;

    closed spec fn view(&self) -> ProgramErrorView {
        ProgramErrorView {
            message: self.message@,
            kind: self.kind,
            source: match self.source {
                Some(s) => Some(s@),
                None => None,
            },
        }
    }
}

impl ProgramError {
    pub fn new(message: &str, kind: ProgramErrorKind, source: Option<String>) -> (e: ProgramError)
        ensures
            e@.message == message@,
            e@.kind == kind,
            e@.source == (match source {
                Some(s) => Some(s@),
                None => None::<Seq<char>>,
            }),
    {
        ProgramError { message: message.to_owned(), kind, source }
    }

    pub fn kind(&self) -> (k: ProgramErrorKind)
        ensures
            k == self@.kind,
    {
        self.kind
    }

    pub fn message(&self) -> (m: String)
        ensures
            m@ == self@.message,
    {
        self.message.clone()
    }
}

} // verus!
