//! The library's error type and its mathematical view.

use vstd::prelude::*;
use crate::dates::Date;

verus! {

/// What went wrong while retrieving or reading a bulletin.
#[derive(Debug)]
pub enum PopoError {
    /// A transport failure, carried through from the fetch collaborator.
    Network(String),
    /// No bulletin is published for the requested date.
    NotFound(Date),
    /// An extraction step failed; the message names the field, marker or date
    /// involved.
    Parse(String),
    /// A selection query could not be built.
    Selector(String),
}

/// The view of an error: the same variants over character sequences.
pub enum ErrView {
    Network(Seq<char>),
    NotFound(Date),
    Parse(Seq<char>),
    Selector(Seq<char>),
}

impl View for PopoError {
    type V = ErrView;

    open spec fn view(&self) -> ErrView {
        match self {
            PopoError::Network(s) => ErrView::Network(s@),
            PopoError::NotFound(d) => ErrView::NotFound(*d),
            PopoError::Parse(s) => ErrView::Parse(s@),
            PopoError::Selector(s) => ErrView::Selector(s@),
        }
    }
}

/// The view of a result whose error side is a `PopoError`.
pub open spec fn res_view<T>(r: Result<T, PopoError>) -> Result<T, ErrView> {
    match r {
        Ok(v) => Ok(v),
        Err(e) => Err(e@),
    }
}

impl PopoError {
    /// A short, stable name for the error kind, for rendering.
    pub fn kind_name(&self) -> (r: &'static str)
        ensures
            r@ == match self@ {
                ErrView::Network(_) => "network"@,
                ErrView::NotFound(_) => "not found"@,
                ErrView::Parse(_) => "parse"@,
                ErrView::Selector(_) => "selector"@,
            },
    {
        match self {
            PopoError::Network(_) => "network",
            PopoError::NotFound(_) => "not found",
            PopoError::Parse(_) => "parse",
            PopoError::Selector(_) => "selector",
        }
    }

    /// The error's message text: the carried description, or the requested
    /// date for a missing bulletin.
    pub fn message(&self) -> (r: String)
        ensures
            r@ == match self@ {
                ErrView::Network(s) => s,
                ErrView::NotFound(d) => crate::dates::iso_seq(d),
                ErrView::Parse(s) => s,
                ErrView::Selector(s) => s,
            },
    {
        match self {
            PopoError::Network(s) => s.clone(),
            PopoError::NotFound(d) => d.to_iso_string(),
            PopoError::Parse(s) => s.clone(),
            PopoError::Selector(s) => s.clone(),
        }
    }
}

} // verus!
