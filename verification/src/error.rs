//! The errors of the stores and of request handling.

use vstd::prelude::*;
use crate::file_store::{ascending, lemma_ascending, meta_views};
use crate::meta::{opt_text, time_debug, time_debug_of, IndexStatus, Meta, MetaView, Timestamp};
use crate::strset::StrSet;
use crate::text::{append_decimal, append_quoted, append_text, decimal_text, quoted_text, views_of};
use crate::web::{url_debug, url_debug_of, UrlError};

verus! {

/// Why a store operation or request failed.
#[derive(Debug)]
pub enum Error {
    /// A link did not parse as a URL, for this reason.
    UrlParse(UrlError),
    /// The store has no path to write to.
    FileStoreNoPath,
    /// An item with this id exists already.
    AlreadyExists(String),
    /// An update named one id and carried data for another.
    UnequalIds,
    /// No item matches the description.
    IdNotFound(String),
    /// Several offline entries, at these positions, match the description.
    TooManyIds(String, Vec<usize>),
    /// Several items, these, match the description.
    TooManyMetas(String, Vec<Meta>),
    /// The full-text index failed.
    Tantivy(String),
    /// The item has no link.
    NoUrl(String),
    /// Anything else, with a message.
    Custom(String),
}

/// The errors that a client's request caused, as opposed to failures of the daemon.
pub open spec fn spec_is_client_error(e: Error) -> bool {
    match e {
        Error::IdNotFound(_) | Error::AlreadyExists(_) | Error::TooManyIds(_, _)
        | Error::TooManyMetas(_, _) | Error::NoUrl(_) => true,
        _ => false,
    }
}


/// An optional text as `None` or `Some("...")`.
pub open spec fn opt_debug_text(o: Option<Seq<char>>) -> Seq<char> {
    match o {
        Some(t) => "Some("@ + quoted_text(t) + ")"@,
        None => "None"@,
    }
}

/// A link as the derived `Debug` of an optional `url::Url` shows it (a text
/// that does not parse as a URL shows quoted).
pub open spec fn url_field_debug(u: Option<Seq<char>>) -> Seq<char> {
    match u {
        Some(t) => "Some("@ + (match url_debug_of(t) { Some(d) => d, None => quoted_text(t) }) + ")"@,
        None => "None"@,
    }
}

/// An optional point in time, as `None` or `Some(...)` of its `Debug`.
pub open spec fn time_opt_debug(o: Option<Timestamp>) -> Seq<char> {
    match o {
        Some(t) => "Some("@ + time_debug_of(t.secs, t.nanos) + ")"@,
        None => "None"@,
    }
}

/// An optional index status, as its derived `Debug` shows it.
pub open spec fn status_opt_debug(o: Option<IndexStatus>) -> Seq<char> {
    match o {
        Some(IndexStatus::Indexing) => "Some(Indexing)"@,
        Some(IndexStatus::Indexed) => "Some(Indexed)"@,
        Some(IndexStatus::Old) => "Some(Old)"@,
        None => "None"@,
    }
}

/// Texts quoted and separated by `, `.
pub open spec fn quoted_list(s: Seq<Seq<char>>) -> Seq<char>
    decreases s.len(),
{
    if s.len() == 0 {
        Seq::empty()
    } else if s.len() == 1 {
        quoted_text(s[0])
    } else {
        quoted_list(s.drop_last()) + ", "@ + quoted_text(s.last())
    }
}

/// A set of tags as the `Debug` of a `BTreeSet<String>` shows it: quoted, in
/// ascending order, in braces.
pub open spec fn tags_debug_text(tags: Set<Seq<char>>) -> Seq<char> {
    "{"@ + quoted_list(ascending(tags)) + "}"@
}

/// One meta as its derived `Debug` shows it, field by field.
pub open spec fn meta_debug_text(m: MetaView) -> Seq<char> {
    "Meta { id: "@ + quoted_text(m.id) + ", name: "@ + opt_debug_text(m.name)
        + ", url: "@ + url_field_debug(m.url) + ", comment: "@ + opt_debug_text(m.comment)
        + ", found: "@ + time_debug_of(m.found.secs, m.found.nanos)
        + ", last_read: "@ + time_opt_debug(m.last_read)
        + ", last_updated: "@ + time_debug_of(m.last_updated.secs, m.last_updated.nanos)
        + ", index_status: "@ + status_opt_debug(m.index_status)
        + ", tags: "@ + tags_debug_text(m.tags) + " }"@
}

/// The metas, separated by `, `.
pub open spec fn meta_list_text(ms: Seq<MetaView>) -> Seq<char>
    decreases ms.len(),
{
    if ms.len() == 0 {
        Seq::empty()
    } else if ms.len() == 1 {
        meta_debug_text(ms[0])
    } else {
        meta_list_text(ms.drop_last()) + ", "@ + meta_debug_text(ms.last())
    }
}

/// A list of metas in square brackets.
pub open spec fn metas_debug_text(ms: Seq<MetaView>) -> Seq<char> {
    "["@ + meta_list_text(ms) + "]"@
}

fn append_opt_debug(s: &mut String, o: &Option<String>)
    ensures
        final(s)@ == old(s)@ + opt_debug_text(opt_text(*o)),
{
    match o {
        Some(t) => {
            append_text(s, "Some(");
            append_quoted(s, t.as_str());
            append_text(s, ")");
            proof {
                assert(final(s)@ =~= old(s)@ + opt_debug_text(opt_text(*o)));
            }
        },
        None => append_text(s, "None"),
    }
}

fn append_url_field(s: &mut String, u: &Option<String>)
    ensures
        final(s)@ == old(s)@ + url_field_debug(opt_text(*u)),
{
    match u {
        Some(t) => {
            append_text(s, "Some(");
            match url_debug(t.as_str()) {
                Some(d) => append_text(s, d.as_str()),
                None => append_quoted(s, t.as_str()),
            }
            append_text(s, ")");
            proof {
                assert(final(s)@ =~= old(s)@ + url_field_debug(opt_text(*u)));
            }
        },
        None => append_text(s, "None"),
    }
}

fn append_time_opt(s: &mut String, o: &Option<Timestamp>)
    ensures
        final(s)@ == old(s)@ + time_opt_debug(*o),
{
    match o {
        Some(t) => {
            append_text(s, "Some(");
            let d = time_debug(*t);
            append_text(s, d.as_str());
            append_text(s, ")");
            proof {
                assert(final(s)@ =~= old(s)@ + time_opt_debug(*o));
            }
        },
        None => append_text(s, "None"),
    }
}

fn append_status_opt(s: &mut String, o: Option<IndexStatus>)
    ensures
        final(s)@ == old(s)@ + status_opt_debug(o),
{
    match o {
        Some(IndexStatus::Indexing) => append_text(s, "Some(Indexing)"),
        Some(IndexStatus::Indexed) => append_text(s, "Some(Indexed)"),
        Some(IndexStatus::Old) => append_text(s, "Some(Old)"),
        None => append_text(s, "None"),
    }
}

fn append_tags(s: &mut String, tags: &StrSet)
    ensures
        final(s)@ == old(s)@ + tags_debug_text(tags@),
{
    let v = tags.to_vec();
    proof {
        use_type_invariant(tags);
        tags.lemma_wf();
        lemma_ascending(tags.elems());
    }
    let ghost all = views_of(v@);
    append_text(s, "{");
    let ghost start = s@;
    let n = v.len();
    let mut i: usize = 0;
    while i < n
        invariant
            n == v@.len(),
            i <= n,
            all == views_of(v@),
            s@ == start + quoted_list(all.subrange(0, i as int)),
        decreases n - i,
    {
        if i > 0 {
            append_text(s, ", ");
        }
        append_quoted(s, v[i].as_str());
        proof {
            let next = all.subrange(0, i + 1);
            assert(next.drop_last() =~= all.subrange(0, i as int));
            assert(next.last() == v@[i as int]@);
            if i == 0 {
                assert(all.subrange(0, 0) =~= Seq::<Seq<char>>::empty());
            }
            assert(s@ =~= start + quoted_list(next));
        }
        i = i + 1;
    }
    append_text(s, "}");
    proof {
        assert(all.subrange(0, n as int) =~= all);
        assert(s@ =~= old(s)@ + tags_debug_text(tags@));
    }
}

fn append_meta_debug(s: &mut String, m: &Meta)
    ensures
        final(s)@ == old(s)@ + meta_debug_text(m@),
{
    append_text(s, "Meta { id: ");
    append_quoted(s, m.id.as_str());
    append_text(s, ", name: ");
    append_opt_debug(s, &m.name);
    append_text(s, ", url: ");
    append_url_field(s, &m.url);
    append_text(s, ", comment: ");
    append_opt_debug(s, &m.comment);
    append_text(s, ", found: ");
    let f = time_debug(m.found);
    append_text(s, f.as_str());
    append_text(s, ", last_read: ");
    append_time_opt(s, &m.last_read);
    append_text(s, ", last_updated: ");
    let u = time_debug(m.last_updated);
    append_text(s, u.as_str());
    append_text(s, ", index_status: ");
    append_status_opt(s, m.index_status);
    append_text(s, ", tags: ");
    append_tags(s, &m.tags);
    append_text(s, " }");
    proof {
        assert(final(s)@ =~= old(s)@ + meta_debug_text(m@));
    }
}

fn metas_debug(ms: &Vec<Meta>) -> (r: String)
    ensures
        r@ == metas_debug_text(meta_views(ms@)),
{
    let mut r = String::new();
    append_text(&mut r, "[");
    let n = ms.len();
    let mut i: usize = 0;
    while i < n
        invariant
            n == ms@.len(),
            i <= n,
            r@ == "["@ + meta_list_text(meta_views(ms@).subrange(0, i as int)),
        decreases n - i,
    {
        if i > 0 {
            append_text(&mut r, ", ");
        }
        append_meta_debug(&mut r, &ms[i]);
        proof {
            let pre = meta_views(ms@).subrange(0, i as int);
            let next = meta_views(ms@).subrange(0, i + 1);
            assert(next.drop_last() =~= pre);
            assert(next.last() == ms@[i as int]@);
            assert(r@ =~= "["@ + meta_list_text(next));
        }
        i = i + 1;
    }
    proof {
        assert(meta_views(ms@).subrange(0, n as int) =~= meta_views(ms@));
    }
    append_text(&mut r, "]");
    r
}

/// The message the `url` crate's `Display` gives each kind of parse error.
pub open spec fn url_error_message(e: UrlError) -> Seq<char> {
    match e {
        UrlError::EmptyHost => "empty host"@,
        UrlError::IdnaError => "invalid international domain name"@,
        UrlError::InvalidPort => "invalid port number"@,
        UrlError::InvalidIpv4Address => "invalid IPv4 address"@,
        UrlError::InvalidIpv6Address => "invalid IPv6 address"@,
        UrlError::InvalidDomainCharacter => "invalid domain character"@,
        UrlError::RelativeUrlWithoutBase => "relative URL without a base"@,
        UrlError::RelativeUrlWithCannotBeABaseBase => "relative URL with a cannot-be-a-base base"@,
        UrlError::SetHostOnCannotBeABaseUrl => "a cannot-be-a-base URL doesn’t have a host to set"@,
        UrlError::Overflow => "URLs more than 4 GB are not supported"@,
        UrlError::Unlisted => "unlisted URL error"@,
    }
}

/// Appends the message of a kind of URL parse error.
fn append_url_error(s: &mut String, e: UrlError)
    ensures
        final(s)@ == old(s)@ + url_error_message(e),
{
    match e {
        UrlError::EmptyHost => append_text(s, "empty host"),
        UrlError::IdnaError => append_text(s, "invalid international domain name"),
        UrlError::InvalidPort => append_text(s, "invalid port number"),
        UrlError::InvalidIpv4Address => append_text(s, "invalid IPv4 address"),
        UrlError::InvalidIpv6Address => append_text(s, "invalid IPv6 address"),
        UrlError::InvalidDomainCharacter => append_text(s, "invalid domain character"),
        UrlError::RelativeUrlWithoutBase => append_text(s, "relative URL without a base"),
        UrlError::RelativeUrlWithCannotBeABaseBase => append_text(s, "relative URL with a cannot-be-a-base base"),
        UrlError::SetHostOnCannotBeABaseUrl => append_text(s, "a cannot-be-a-base URL doesn’t have a host to set"),
        UrlError::Overflow => append_text(s, "URLs more than 4 GB are not supported"),
        UrlError::Unlisted => append_text(s, "unlisted URL error"),
    }
}

/// The numbers of `v` in decimal, separated by `, `.
pub open spec fn decimal_list(v: Seq<usize>) -> Seq<char>
    decreases v.len(),
{
    if v.len() == 0 {
        Seq::empty()
    } else if v.len() == 1 {
        decimal_text(v[0] as nat)
    } else {
        decimal_list(v.drop_last()) + ", "@ + decimal_text(v.last() as nat)
    }
}

/// `v` as `{:?}` formats a list of numbers: `[1, 2, 3]`.
pub open spec fn usizes_debug_text(v: Seq<usize>) -> Seq<char> {
    "["@ + decimal_list(v) + "]"@
}

fn usizes_debug(v: &Vec<usize>) -> (r: String)
    ensures
        r@ == usizes_debug_text(v@),
{
    let mut r = String::new();
    append_text(&mut r, "[");
    let n = v.len();
    let mut i: usize = 0;
    while i < n
        invariant
            n == v@.len(),
            i <= n,
            r@ == "["@ + decimal_list(v@.subrange(0, i as int)),
        decreases n - i,
    {
        if i > 0 {
            append_text(&mut r, ", ");
        }
        append_decimal(&mut r, v[i]);
        proof {
            let pre = v@.subrange(0, i as int);
            let next = v@.subrange(0, i + 1);
            assert(next.drop_last() =~= pre);
            if i == 0 {
                assert(pre =~= Seq::<usize>::empty());
            }
            assert(r@ =~= "["@ + decimal_list(next));
        }
        i = i + 1;
    }
    proof {
        assert(v@.subrange(0, n as int) =~= v@);
    }
    append_text(&mut r, "]");
    r
}

/// The message of an error, as its `Display` words it.
pub open spec fn error_text(e: Error) -> Seq<char> {
    match e {
        Error::UrlParse(k) => "Url Parsing Error: "@ + url_error_message(k),
        Error::FileStoreNoPath => "Metastore has no path"@,
        Error::AlreadyExists(s) => "Meta with ID already exists: "@ + s@,
        Error::UnequalIds => "Attempted to update with unequal IDs"@,
        Error::IdNotFound(s) => "ID Not found: `"@ + s@ + "`"@,
        Error::TooManyIds(s, v) => "Too many ids for: `"@ + s@ + "`, "@ + usizes_debug_text(v@),
        Error::TooManyMetas(s, ms) => "Too many ids for: `"@ + s@ + "`, "@ + metas_debug_text(meta_views(ms@)),
        Error::Tantivy(s) => "Tantivy Error: "@ + s@,
        Error::NoUrl(s) => "No url for: `"@ + s@ + "`"@,
        Error::Custom(s) => "Custom: "@ + s@,
    }
}

/// `t` is the message of `e`.
pub open spec fn is_error_message(e: Error, t: Seq<char>) -> bool {
    t == error_text(e)
}

impl Error {
    /// Whether the error is the client's: a missing, duplicate or ambiguous
    /// id, or an item without a link.
    pub fn is_client_error(&self) -> (r: bool)
        ensures
            r == spec_is_client_error(*self),
    {
        match self {
            Error::IdNotFound(_) | Error::AlreadyExists(_) | Error::TooManyIds(_, _)
            | Error::TooManyMetas(_, _) | Error::NoUrl(_) => true,
            _ => false,
        }
    }

    /// The error's message.
    pub fn message(&self) -> (r: String)
        ensures
            is_error_message(*self, r@),
    {
        let mut r = String::new();
        match self {
            Error::UrlParse(k) => {
                append_text(&mut r, "Url Parsing Error: ");
                append_url_error(&mut r, *k);
            },
            Error::FileStoreNoPath => append_text(&mut r, "Metastore has no path"),
            Error::AlreadyExists(s) => {
                append_text(&mut r, "Meta with ID already exists: ");
                append_text(&mut r, s.as_str());
            },
            Error::UnequalIds => append_text(&mut r, "Attempted to update with unequal IDs"),
            Error::IdNotFound(s) => {
                append_text(&mut r, "ID Not found: `");
                append_text(&mut r, s.as_str());
                append_text(&mut r, "`");
            },
            Error::TooManyIds(s, v) => {
                append_text(&mut r, "Too many ids for: `");
                append_text(&mut r, s.as_str());
                append_text(&mut r, "`, ");
                let t = usizes_debug(v);
                append_text(&mut r, t.as_str());
            },
            Error::TooManyMetas(s, ms) => {
                append_text(&mut r, "Too many ids for: `");
                append_text(&mut r, s.as_str());
                append_text(&mut r, "`, ");
                let t = metas_debug(ms);
                append_text(&mut r, t.as_str());
            },
            Error::Tantivy(s) => {
                append_text(&mut r, "Tantivy Error: ");
                append_text(&mut r, s.as_str());
            },
            Error::NoUrl(s) => {
                append_text(&mut r, "No url for: `");
                append_text(&mut r, s.as_str());
                append_text(&mut r, "`");
            },
            Error::Custom(s) => {
                append_text(&mut r, "Custom: ");
                append_text(&mut r, s.as_str());
            },
        }
        proof {
            assert(Seq::<char>::empty() + "Url Parsing Error: "@ =~= "Url Parsing Error: "@);
            assert(r@ =~= error_text(*self));
        }
        r
    }
}

} // verus!
