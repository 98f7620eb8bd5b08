//! The answers the daemon gives.

use vstd::prelude::*;
use crate::meta::{IndexStatus, Meta};
use crate::offline_store::Status;
use crate::error::{is_error_message, Error};
use crate::status::StatusResponse;
use crate::text::append_text;

verus! {

/// A highlighted span of a search snippet, from `start` to `stop`.
#[derive(Debug, Clone, Copy, PartialEq, Eq, Structural)]
pub struct HighlightSectionDef {
    pub start: usize,
    pub stop: usize,
}

impl HighlightSectionDef {
    pub fn bounds(&self) -> (r: (usize, usize))
        ensures
            r == (self.start, self.stop),
    {
        (self.start, self.stop)
    }
}

/// A fragment of a found document with its highlighted spans.
#[derive(Debug, PartialEq, Eq)]
pub struct SnippetDef {
    fragment: String,
    highlighted: Vec<HighlightSectionDef>,
}

impl SnippetDef {
    /// A snippet of `fragment` highlighting the spans `bounds`, in order.
    pub fn new(fragment: String, bounds: &Vec<(usize, usize)>) -> (r: SnippetDef)
        ensures
            r.text() == fragment@,
            r.spans().len() == bounds@.len(),
            forall|i: int| 0 <= i < bounds@.len() ==> (#[trigger] r.spans()[i]).bounds_view() == bounds@[i],
    {
        let mut highlighted: Vec<HighlightSectionDef> = Vec::new();
        let n = bounds.len();
        let mut i: usize = 0;
        while i < n
            invariant
                n == bounds@.len(),
                i <= n,
                highlighted@.len() == i,
                forall|j: int| 0 <= j < i ==> (#[trigger] highlighted@[j]).bounds_view() == bounds@[j],
            decreases n - i,
        {
            let (start, stop) = bounds[i];
            highlighted.push(HighlightSectionDef { start, stop });
            i = i + 1;
        }
        SnippetDef { fragment, highlighted }
    }

    /// The text of the fragment.
    pub closed spec fn text(&self) -> Seq<char> {
        self.fragment@
    }

    /// The highlighted spans.
    pub closed spec fn spans(&self) -> Seq<HighlightSectionDef> {
        self.highlighted@
    }

    pub fn highlighted(&self) -> (r: &[HighlightSectionDef])
        ensures
            r@ == self.spans(),
    {
        self.highlighted.as_slice()
    }

    pub fn fragment(&self) -> (r: &str)
        ensures
            r@ == self.text(),
    {
        self.fragment.as_str()
    }
}

impl HighlightSectionDef {
    pub open spec fn bounds_view(&self) -> (usize, usize) {
        (self.start, self.stop)
    }
}

/// An answer of the daemon.
#[derive(Debug, PartialEq, Eq)]
pub enum Response {
    NewId(String),
    Item(Meta),
    List(Vec<Meta>),
    Error(String),
    Custom(String),
    NoAdapterFound(String),
    NotFound(String),
    TooManyMeta(String, Vec<Meta>),
    MetaOfflineStatus(String, Status),
    OpenStatus(String, Status),
    IndexStatus(String, Option<IndexStatus>),
    Indexing(String),
    Status(StatusResponse),
    SearchResult(Vec<Meta>),
    Many(Vec<Response>),
    /// A path or link to open.
    Open(String),
    Unhandled,
    /// The request was carried out.
    Done,
}


/// `r` answers a request that failed with `e`: a duplicate id is reported as
/// "`id` already exists", an ambiguous description with the metas it
/// matched, any other error with its message.
pub open spec fn error_response(e: Error, r: Response) -> bool {
    match e {
        Error::AlreadyExists(id) => r matches Response::Error(t) && t@ == "`"@ + id@ + "` already exists"@,
        Error::TooManyMetas(id, ms) => r == Response::TooManyMeta(id, ms),
        _ => r matches Response::Error(t) && is_error_message(e, t@),
    }
}

impl Response {
    /// The answer to a request that failed with `e`: a duplicate id is
    /// reported as "`id` already exists", an ambiguous description with the
    /// metas it matched, any other error with its message.
    pub fn from_error(e: Error) -> (r: Response)
        ensures
            error_response(e, r),
    {
        match e {
            Error::AlreadyExists(id) => {
                let mut t = String::new();
                append_text(&mut t, "`");
                append_text(&mut t, id.as_str());
                append_text(&mut t, "` already exists");
                proof {
                    assert(Seq::<char>::empty() + "`"@ =~= "`"@);
                }
                Response::Error(t)
            },
            Error::TooManyMetas(id, ms) => Response::TooManyMeta(id, ms),
            e => Response::Error(e.message()),
        }
    }
}

} // verus!
