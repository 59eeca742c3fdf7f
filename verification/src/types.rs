//! The uniform result type that every command returns, and its
//! mathematical view.

use vstd::prelude::*;

verus! {

/// A key into any typed store: an opaque byte sequence.
pub type Key = Vec<u8>;

/// A stored payload element: an opaque byte sequence.
pub type Value = Vec<u8>;

/// A raw index argument; negative values count back from the tail.
pub type Index = i64;

/// A count reported back to the caller (a list length).
pub type Count = usize;

/// The two client errors a list command can report. They are ordinary
/// result values, never process faults.
#[derive(Clone, Copy, PartialEq, Eq, Structural, Debug)]
pub enum ErrMsg {
    /// A normalized index fell outside the container's bounds.
    BadRange,
    /// A command that requires the list to exist found no list at the key.
    NoList,
}

/// The uniform return contract for every command.
#[derive(Debug, Clone, PartialEq, Eq)]
pub enum InteractionRes {
    /// The command succeeded and carries no payload.
    OkRes,
    /// There is no applicable value (absent or drained container).
    Nil,
    /// A numeric result, such as a length.
    IntRes(Count),
    /// A single byte-string payload.
    StringRes(Value),
    /// An ordered sequence of byte-string payloads.
    MultiStringRes(Vec<Value>),
    /// A client error, delivered through the normal response path.
    Error(ErrMsg),
}

/// The mathematical shape of an `InteractionRes`: byte strings become
/// sequences, counts become unbounded integers.
pub enum ResView {
    OkRes,
    Nil,
    IntRes(int),
    StringRes(Seq<u8>),
    MultiStringRes(Seq<Seq<u8>>),
    Error(ErrMsg),
}

impl View for InteractionRes {
    type V = ResView;

    open spec fn view(&self) -> ResView {
        match self {
            InteractionRes::OkRes => ResView::OkRes,
            InteractionRes::Nil => ResView::Nil,
            InteractionRes::IntRes(n) => ResView::IntRes(*n as int),
            InteractionRes::StringRes(v) => ResView::StringRes(v@),
            InteractionRes::MultiStringRes(vs) => ResView::MultiStringRes(vs.deep_view()),
            InteractionRes::Error(e) => ResView::Error(*e),
        }
    }
}

impl ErrMsg {
    /// The wire text of the error, as the protocol adapter reports it.
    pub fn text(&self) -> (r: &'static str)
        ensures
            *self == ErrMsg::BadRange ==> r@ == "Bad Range!"@,
            *self == ErrMsg::NoList ==> r@ == "No list at key!"@,
    {
        match self {
            ErrMsg::BadRange => "Bad Range!",
            ErrMsg::NoList => "No list at key!",
        }
    }
}

} // verus!
