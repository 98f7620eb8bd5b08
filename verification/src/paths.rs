//! Joining file system paths, held as text, with `/` as the separator.

use vstd::prelude::*;
use crate::text::append_text;

verus! {

/// `rel` joined onto `base`, as `std::path::Path::join` does on Unix: an
/// absolute `rel` (one that starts with `/`) replaces `base`; otherwise `rel`
/// follows `base`, with a `/` between them unless `base` is empty or already
/// ends in `/`.
pub open spec fn joined_path(base: Seq<char>, rel: Seq<char>) -> Seq<char> {
    if rel.len() > 0 && rel[0] == '/' {
        rel
    } else if base.len() == 0 || base.last() == '/' {
        base + rel
    } else {
        base + seq!['/'] + rel
    }
}

/// Joins `rel` onto `base`.
pub fn join_path(base: &str, rel: &str) -> (r: String)
    ensures
        r@ == joined_path(base@, rel@),
{
    let nr = rel.unicode_len();
    if nr > 0 && rel.get_char(0) == '/' {
        return rel.to_string();
    }
    let nb = base.unicode_len();
    let mut r = base.to_string();
    if nb > 0 && base.get_char(nb - 1) != '/' {
        append_text(&mut r, "/");
        proof {
            reveal_strlit("/");
        }
    }
    append_text(&mut r, rel);
    proof {
        if nb > 0 && base@.last() != '/' {
            assert(r@ =~= base@ + seq!['/'] + rel@);
        }
    }
    r
}

} // verus!
