//! What the metadata store promises across its operations.

use vstd::prelude::*;
use crate::adapter::{download_plan_view, AdapterType, PlanView};
use crate::daemon::{add_outcome, delete_outcome, edit_outcome, index_outcome, marked_indexing, ActionView};
use crate::error::Error;
use crate::file_store::{
    all_matching, describes, edit_view, import_fold, inter_ids, lemma_matching_bounds, list_view, lookup, matching, push_view,
    remove_id_from_tags, swap_remove_view, text_set, union_ids, union_step, FileStoreView,
};
use crate::meta::{union_view, IndexStatus, MetaView, Timestamp};
use crate::offline_store::{
    data_lookup, data_matching, describes_data, first_above, sorted_by_id, OfflineDataView, OfflineStoreView, StatusView,
};
use crate::text::{is_prefix, views_of, lemma_text_lt_asymmetric, lemma_text_lt_total, lemma_text_lt_transitive, text_lt};
use crate::request::Edit;
use crate::response::Response;

verus! {

/// No two metas share an id.
pub open spec fn distinct_ids(metas: Seq<MetaView>) -> bool {
    forall|i: int, j: int| 0 <= i < metas.len() && 0 <= j < metas.len() && i != j ==> metas[i].id != metas[j].id
}

/// The tag index lists exactly the (tag, id) pairs of the metas: a tag's set
/// holds an id just when a meta with that id carries the tag.
pub open spec fn index_exact(s: FileStoreView) -> bool {
    &&& forall|i: int, t: Seq<char>| 0 <= i < s.metas.len() && #[trigger] s.metas[i].tags.contains(t)
        ==> s.tags.contains_key(t) && s.tags[t].contains(s.metas[i].id)
    &&& forall|t: Seq<char>, x: Seq<char>| s.tags.contains_key(t) && #[trigger] s.tags[t].contains(x)
        ==> exists|i: int| 0 <= i < s.metas.len() && s.metas[i].id == x && #[trigger] s.metas[i].tags.contains(t)
}

/// An empty store's index is exact.
pub proof fn law_empty_index_exact(s: FileStoreView)
    requires
        s.metas.len() == 0,
        s.tags == Map::<Seq<char>, Set<Seq<char>>>::empty(),
    ensures
        index_exact(s),
        distinct_ids(s.metas),
{
}

/// Appending a meta keeps the index exact, and keeps ids distinct when its id is new.
pub proof fn law_push_keeps_index_exact(s: FileStoreView, m: MetaView)
    requires
        index_exact(s),
    ensures
        index_exact(push_view(s, m)),
        distinct_ids(s.metas) && (forall|i: int| 0 <= i < s.metas.len() ==> s.metas[i].id != m.id)
            ==> distinct_ids(push_view(s, m).metas),
{
    let p = push_view(s, m);
    assert forall|t: Seq<char>, x: Seq<char>|
        (p.tags.contains_key(t) && #[trigger] p.tags[t].contains(x)) <==> exists|i: int|
            0 <= i < p.metas.len() && #[trigger] p.metas[i].id == x && p.metas[i].tags.contains(t) by {
        if p.tags.contains_key(t) && p.tags[t].contains(x) {
            if m.tags.contains(t) && x == m.id {
                assert(p.metas[s.metas.len() as int] == m);
            } else {
                assert(s.tags.contains_key(t) && s.tags[t].contains(x));
                let i = choose|i: int| 0 <= i < s.metas.len() && #[trigger] s.metas[i].id == x && s.metas[i].tags.contains(t);
                assert(p.metas[i] == s.metas[i]);
            }
        }
        if exists|i: int| 0 <= i < p.metas.len() && #[trigger] p.metas[i].id == x && p.metas[i].tags.contains(t) {
            let i = choose|i: int| 0 <= i < p.metas.len() && #[trigger] p.metas[i].id == x && p.metas[i].tags.contains(t);
            if i < s.metas.len() {
                assert(s.metas[i] == p.metas[i]);
                assert(s.metas[i].id == x && s.metas[i].tags.contains(t));
                assert(s.tags.contains_key(t) && s.tags[t].contains(x));
            } else {
                assert(p.metas[i] == m);
            }
        }
    }
}

/// Removing the meta at `i` the way `delete` does keeps the index exact and the ids distinct.
pub proof fn law_delete_keeps_index_exact(s: FileStoreView, i: int)
    requires
        index_exact(s),
        distinct_ids(s.metas),
        0 <= i < s.metas.len(),
    ensures
        index_exact(FileStoreView {
            metas: swap_remove_view(s.metas, i),
            dirty: true,
            tags: remove_id_from_tags(s.tags, s.metas[i].tags, s.metas[i].id),
            ..s
        }),
        distinct_ids(swap_remove_view(s.metas, i)),
{
    let r = s.metas[i];
    let nm = swap_remove_view(s.metas, i);
    let last = s.metas.len() - 1;
    let p = FileStoreView { metas: nm, dirty: true, tags: remove_id_from_tags(s.tags, r.tags, r.id), ..s };
    assert(nm.len() == last);
    assert forall|j: int| 0 <= j < nm.len() implies #[trigger] nm[j] == (if j == i { s.metas[last] } else { s.metas[j] }) by {}
    assert forall|t: Seq<char>, x: Seq<char>|
        (p.tags.contains_key(t) && #[trigger] p.tags[t].contains(x)) <==> exists|j: int|
            0 <= j < p.metas.len() && #[trigger] p.metas[j].id == x && p.metas[j].tags.contains(t) by {
        if p.tags.contains_key(t) && p.tags[t].contains(x) {
            assert(s.tags.contains_key(t) && s.tags[t].contains(x));
            let k = choose|k: int| 0 <= k < s.metas.len() && #[trigger] s.metas[k].id == x && s.metas[k].tags.contains(t);
            if k == i {
                assert(r.tags.contains(t) && x == r.id);
                assert(false);
            } else if k == last {
                assert(nm[i] == s.metas[k]);
            } else {
                assert(nm[k] == s.metas[k]);
            }
        }
        if exists|j: int| 0 <= j < p.metas.len() && #[trigger] p.metas[j].id == x && p.metas[j].tags.contains(t) {
            let j = choose|j: int| 0 <= j < p.metas.len() && #[trigger] p.metas[j].id == x && p.metas[j].tags.contains(t);
            let k = if j == i { last } else { j };
            assert(s.metas[k] == nm[j]);
            assert(k != i);
            assert(s.metas[k].id != r.id);
            assert(s.metas[k].id == x && s.metas[k].tags.contains(t));
            assert(s.tags.contains_key(t) && s.tags[t].contains(x));
        }
    }
    assert forall|a: int, b: int| 0 <= a < nm.len() && 0 <= b < nm.len() && a != b implies nm[a].id != nm[b].id by {
        let ka = if a == i { last } else { a };
        let kb = if b == i { last } else { b };
        assert(nm[a] == s.metas[ka]);
        assert(nm[b] == s.metas[kb]);
    }
}

/// Editing the meta at `i` keeps the index exact and the ids distinct.
pub proof fn law_edit_keeps_index_exact(s: FileStoreView, i: int, e: Edit, url: Option<Seq<char>>)
    requires
        index_exact(s),
        distinct_ids(s.metas),
        0 <= i < s.metas.len(),
    ensures
        index_exact(edit_view(s, i, e, url)),
        distinct_ids(edit_view(s, i, e, url).metas),
{
    let p = edit_view(s, i, e, url);
    let x0 = s.metas[i].id;
    let a = text_set(e.add_tags@);
    let rm = text_set(e.remove_tags@);
    assert(p.metas[i].id == x0);
    assert forall|t: Seq<char>, x: Seq<char>|
        (p.tags.contains_key(t) && #[trigger] p.tags[t].contains(x)) <==> exists|j: int|
            0 <= j < p.metas.len() && #[trigger] p.metas[j].id == x && p.metas[j].tags.contains(t) by {
        if x == x0 {
            let lhs = p.tags.contains_key(t) && p.tags[t].contains(x);
            let old_has = s.tags.contains_key(t) && s.tags[t].contains(x);
            assert(old_has <==> s.metas[i].tags.contains(t)) by {
                if s.metas[i].tags.contains(t) {
                    assert(s.metas[i].id == x);
                }
                if old_has {
                    let k = choose|k: int| 0 <= k < s.metas.len() && #[trigger] s.metas[k].id == x && s.metas[k].tags.contains(t);
                    assert(k == i);
                }
            }
            assert(lhs <==> ((old_has || a.contains(t)) && !rm.contains(t)));
            if lhs {
                assert(p.metas[i].tags.contains(t));
                assert(p.metas[i].id == x);
            }
            if exists|j: int| 0 <= j < p.metas.len() && #[trigger] p.metas[j].id == x && p.metas[j].tags.contains(t) {
                let j = choose|j: int| 0 <= j < p.metas.len() && #[trigger] p.metas[j].id == x && p.metas[j].tags.contains(t);
                if j != i {
                    assert(s.metas[j] == p.metas[j]);
                    assert(false);
                }
            }
        } else {
            assert(p.tags.contains_key(t) && p.tags[t].contains(x) <==> s.tags.contains_key(t) && s.tags[t].contains(x));
            if s.tags.contains_key(t) && s.tags[t].contains(x) {
                let k = choose|k: int| 0 <= k < s.metas.len() && #[trigger] s.metas[k].id == x && s.metas[k].tags.contains(t);
                assert(k != i);
                assert(p.metas[k] == s.metas[k]);
                assert(p.metas[k].id == x);
            }
            if exists|j: int| 0 <= j < p.metas.len() && #[trigger] p.metas[j].id == x && p.metas[j].tags.contains(t) {
                let j = choose|j: int| 0 <= j < p.metas.len() && #[trigger] p.metas[j].id == x && p.metas[j].tags.contains(t);
                assert(j != i);
                assert(s.metas[j] == p.metas[j]);
                assert(s.metas[j].id == x && s.metas[j].tags.contains(t));
            }
        }
    }
    assert forall|a1: int, b1: int| 0 <= a1 < p.metas.len() && 0 <= b1 < p.metas.len() && a1 != b1 implies p.metas[a1].id != p.metas[b1].id by {
        assert(p.metas[a1].id == s.metas[a1].id);
        assert(p.metas[b1].id == s.metas[b1].id);
    }
}

/// `matching` depends only on which of the first `n` metas `d` describes.
proof fn lemma_matching_same(a: Seq<MetaView>, b: Seq<MetaView>, d: Seq<char>, n: int)
    requires
        0 <= n <= a.len(),
        n <= b.len(),
        forall|k: int| 0 <= k < n ==> describes(d, a[k]) == describes(d, b[k]),
    ensures
        matching(a, d, n) == matching(b, d, n),
    decreases n,
{
    if n > 0 {
        lemma_matching_same(a, b, d, n - 1);
    }
}

proof fn lemma_describes_self(m: MetaView)
    ensures
        describes(m.id, m),
{
    assert(m.id.subrange(0, m.id.len() as int) =~= m.id);
}

proof fn lemma_matching_none(metas: Seq<MetaView>, d: Seq<char>, n: int)
    requires
        0 <= n <= metas.len(),
        forall|k: int| 0 <= k < n ==> !describes(d, metas[k]),
    ensures
        matching(metas, d, n).len() == 0,
    decreases n,
{
    if n > 0 {
        lemma_matching_none(metas, d, n - 1);
    }
}

/// A meta appended under an id that describes no meta yet is what that id then finds.
pub proof fn law_push_then_get(s: FileStoreView, m: MetaView)
    requires
        forall|k: int| 0 <= k < s.metas.len() ==> !describes(m.id, #[trigger] s.metas[k]),
    ensures
        lookup(push_view(s, m).metas, m.id) == Some(s.metas.len() as int),
        push_view(s, m).metas[s.metas.len() as int] == m,
{
    let p = push_view(s, m).metas;
    let n = s.metas.len() as int;
    lemma_matching_same(s.metas, p, m.id, n);
    lemma_matching_none(s.metas, m.id, n);
    lemma_describes_self(m);
    assert(p[n] == m);
    assert(matching(p, m.id, n + 1) =~= seq![n]);
}

/// After a meta is replaced by data under its own id, that id finds the data.
pub proof fn law_update_then_get(s: FileStoreView, id: Seq<char>, d: MetaView)
    requires
        lookup(s.metas, id).is_some(),
        d.id == id,
    ensures
        lookup(s.metas.update(lookup(s.metas, id).unwrap(), d), id) == lookup(s.metas, id),
        s.metas.update(lookup(s.metas, id).unwrap(), d)[lookup(s.metas, id).unwrap()] == d,
{
    let i = lookup(s.metas, id).unwrap();
    let u = s.metas.update(i, d);
    crate::file_store::lemma_matching_bounds(s.metas, id, s.metas.len() as int);
    assert(matching(s.metas, id, s.metas.len() as int)[0] == i);
    lemma_describes_self(d);
    lemma_matching_same(s.metas, u, id, s.metas.len() as int);
}

proof fn lemma_data_matching_same(a: Seq<OfflineDataView>, b: Seq<OfflineDataView>, d: Seq<char>, n: int)
    requires
        0 <= n <= a.len(),
        n <= b.len(),
        forall|k: int| 0 <= k < n ==> describes_data(d, a[k]) == describes_data(d, b[k]),
    ensures
        data_matching(a, d, n) == data_matching(b, d, n),
    decreases n,
{
    if n > 0 {
        lemma_data_matching_same(a, b, d, n - 1);
    }
}

/// After an offline entry is updated under its own id, that id finds the new
/// entry, unless the id already described several entries (then the entry is
/// appended and the id stays ambiguous).
pub proof fn law_offline_update_then_get(data: Seq<OfflineDataView>, d: OfflineDataView)
    requires
        data_matching(data, d.id, data.len() as int).len() <= 1,
    ensures
        ({
            let after = match data_lookup(data, d.id) {
                Some(i) => data.update(i, d),
                None => data.push(d),
            };
            data_lookup(after, d.id) matches Some(k) && after[k] == d
        }),
{
    let n = data.len() as int;
    assert(d.id.subrange(0, d.id.len() as int) =~= d.id);
    assert(describes_data(d.id, d));
    match data_lookup(data, d.id) {
        Some(i) => {
            let after = data.update(i, d);
            crate::offline_store::lemma_data_matching_bounds(data, d.id, n);
            assert(data_matching(data, d.id, n)[0] == i);
            lemma_data_matching_same(data, after, d.id, n);
        },
        None => {
            let after = data.push(d);
            lemma_data_matching_same(data, after, d.id, n);
            assert(data_matching(after, d.id, n + 1) =~= seq![n]);
        },
    }
}


/// What a description finds is a position of a meta it describes.
proof fn lemma_lookup_bounds(metas: Seq<MetaView>, d: Seq<char>)
    ensures
        lookup(metas, d) matches Some(i) ==> 0 <= i < metas.len() && describes(d, metas[i]),
{
    crate::file_store::lemma_matching_bounds(metas, d, metas.len() as int);
    if lookup(metas, d).is_some() {
        assert(0 <= matching(metas, d, metas.len() as int)[0]);
    }
}

/// Only the meta that a description finds is described by it.
proof fn lemma_only_found(metas: Seq<MetaView>, d: Seq<char>, i: int, j: int)
    requires
        lookup(metas, d) == Some(i),
        0 <= j < metas.len(),
        j != i,
    ensures
        !describes(d, metas[j]),
{
    let n = metas.len() as int;
    crate::file_store::lemma_matching_bounds(metas, d, n);
    let ms = matching(metas, d, n);
    if describes(d, metas[j]) {
        assert(ms.contains(j));
        let k = choose|k: int| 0 <= k < ms.len() && ms[k] == j;
        assert(ms[0] == i);
        assert(k == 0);
    }
}

/// An item added under an id that describes no stored item is what a get
/// request for that id then answers.
pub proof fn law_add_then_get(
    s: FileStoreView,
    download_after_add: bool,
    name: Option<String>,
    url: Option<String>,
    comment: Option<String>,
    s2: FileStoreView,
    x: Response,
    acts: Seq<ActionView>,
)
    requires
        add_outcome(s, download_after_add, name, url, comment, s2, x, acts),
        x matches Response::Item(m) && forall|k: int| 0 <= k < s.metas.len() ==> !describes(m@.id, #[trigger] s.metas[k]),
    ensures
        x matches Response::Item(m) && lookup(s2.metas, m@.id) matches Some(i) && s2.metas[i] == m@
            && crate::daemon::get_answer(s2.metas, m@.id, x),
{
    if let Response::Item(m) = x {
        law_push_then_get(s, m@);
        assert(all_matching(s2.metas, m@.id).len() == 1);
    }
}

/// After a delete request succeeds, the deleted item's id describes no item,
/// so a get request for it answers `NotFound`.
pub proof fn law_delete_then_get(
    s: FileStoreView,
    off: OfflineStoreView,
    d: Seq<char>,
    s2: FileStoreView,
    off2: OfflineStoreView,
    r: Result<Response, Error>,
    acts: Seq<ActionView>,
)
    requires
        delete_outcome(s, off, d, s2, off2, r, acts),
        r is Ok,
    ensures
        r matches Ok(x) && x matches Response::Item(m) && all_matching(s2.metas, m@.id).len() == 0,
{
    lemma_lookup_bounds(s.metas, d);
    let i = lookup(s.metas, d).unwrap();
    let fid = s.metas[i].id;
    lemma_lookup_bounds(s.metas, fid);
    let k = lookup(s.metas, fid).unwrap();
    lemma_describes_self(s.metas[i]);
    if k != i {
        lemma_only_found(s.metas, fid, k, i);
    }
    assert(k == i);
    let after = swap_remove_view(s.metas, i);
    assert(s2.metas == after);
    let n = after.len() as int;
    assert forall|j: int| 0 <= j < n implies !describes(fid, #[trigger] after[j]) by {
        if j == i {
            assert(after[j] == s.metas[s.metas.len() - 1]);
            lemma_only_found(s.metas, fid, i, s.metas.len() - 1);
        } else {
            assert(after[j] == s.metas[j]);
            lemma_only_found(s.metas, fid, i, j);
        }
    }
    lemma_matching_none(after, fid, n);
}

/// After an index request succeeds, the description still finds the same
/// item, now marked "indexing": an index-status request answers so.
pub proof fn law_index_then_status(
    s: FileStoreView,
    off: OfflineStoreView,
    ads: Seq<AdapterType>,
    d: Seq<char>,
    s2: FileStoreView,
    r: Result<Response, Error>,
    acts: Seq<ActionView>,
)
    requires
        index_outcome(s, off, ads, d, s2, r, acts),
        r is Ok,
    ensures
        lookup(s2.metas, d) == lookup(s.metas, d),
        lookup(s2.metas, d) matches Some(i) && s2.metas[i].index_status == Some(IndexStatus::Indexing),
{
    lemma_lookup_bounds(s.metas, d);
    let i = lookup(s.metas, d).unwrap();
    let m = marked_indexing(s.metas[i]);
    let u = s.metas.update(i, m);
    assert(s2.metas == u);
    assert forall|k: int| 0 <= k < s.metas.len() implies describes(d, s.metas[k]) == describes(d, #[trigger] u[k]) by {
        if k == i {
            assert(u[k].id == s.metas[k].id && u[k].name == s.metas[k].name);
        }
    }
    lemma_matching_same(s.metas, u, d, s.metas.len() as int);
}


/// Merging a meta into the meta at `j` under that meta's own id keeps the
/// index exact: the merged meta gains the other's tags and the index gains
/// its id under them.
pub proof fn law_union_keeps_index_exact(s: FileStoreView, j: int, m: MetaView, now: Timestamp)
    requires
        index_exact(s),
        0 <= j < s.metas.len(),
    ensures
        index_exact(union_step(s, j, s.metas[j].id, m, now)),
{
    let cid = s.metas[j].id;
    let p = union_step(s, j, cid, m, now);
    let added = m.tags.difference(s.metas[j].tags);
    assert(p.metas[j].id == cid);
    assert(p.metas[j].tags == s.metas[j].tags.union(m.tags));
    assert forall|i: int, t: Seq<char>| 0 <= i < p.metas.len() && #[trigger] p.metas[i].tags.contains(t)
        implies p.tags.contains_key(t) && p.tags[t].contains(p.metas[i].id) by {
        if i == j {
            if !s.metas[j].tags.contains(t) {
                assert(added.contains(t));
            } else {
                assert(s.tags.contains_key(t) && s.tags[t].contains(cid));
            }
        } else {
            assert(p.metas[i] == s.metas[i]);
            assert(s.metas[i].tags.contains(t));
        }
    }
    assert forall|t: Seq<char>, x: Seq<char>| p.tags.contains_key(t) && #[trigger] p.tags[t].contains(x)
        implies exists|i: int| 0 <= i < p.metas.len() && p.metas[i].id == x && #[trigger] p.metas[i].tags.contains(t) by {
        if added.contains(t) && x == cid {
            assert(p.metas[j].tags.contains(t));
        } else {
            assert(s.tags.contains_key(t) && s.tags[t].contains(x));
            let i = choose|i: int| 0 <= i < s.metas.len() && s.metas[i].id == x && #[trigger] s.metas[i].tags.contains(t);
            if i == j {
                assert(p.metas[j].tags.contains(t));
            } else {
                assert(p.metas[i] == s.metas[i]);
            }
        }
    }
}

/// Replacing the meta at `i` by one with the same id and tags, as `update`
/// does, keeps the index exact (`update` leaves the index as it was).
pub proof fn law_update_keeps_index_exact(s: FileStoreView, i: int, d: MetaView)
    requires
        index_exact(s),
        0 <= i < s.metas.len(),
        d.id == s.metas[i].id,
        d.tags == s.metas[i].tags,
    ensures
        index_exact(FileStoreView { metas: s.metas.update(i, d), dirty: true, ..s }),
{
    let p = FileStoreView { metas: s.metas.update(i, d), dirty: true, ..s };
    assert forall|k: int, t: Seq<char>| 0 <= k < p.metas.len() && #[trigger] p.metas[k].tags.contains(t)
        implies p.tags.contains_key(t) && p.tags[t].contains(p.metas[k].id) by {
        assert(s.metas[k].tags.contains(t));
    }
    assert forall|t: Seq<char>, x: Seq<char>| p.tags.contains_key(t) && #[trigger] p.tags[t].contains(x)
        implies exists|k: int| 0 <= k < p.metas.len() && p.metas[k].id == x && #[trigger] p.metas[k].tags.contains(t) by {
        let k = choose|k: int| 0 <= k < s.metas.len() && s.metas[k].id == x && #[trigger] s.metas[k].tags.contains(t);
        assert(p.metas[k].id == x && p.metas[k].tags.contains(t));
    }
}

/// Importing metas keeps the index exact, whatever the clock reads at each merge.
pub proof fn law_import_keeps_index_exact(s: FileStoreView, ms: Seq<MetaView>, nows: Seq<Timestamp>, n: int)
    requires
        index_exact(s),
        0 <= n <= ms.len(),
        nows.len() == ms.len(),
    ensures
        index_exact(import_fold(s, ms, nows, n).0),
    decreases n,
{
    if n > 0 {
        law_import_keeps_index_exact(s, ms, nows, n - 1);
        let (p, ok) = import_fold(s, ms, nows, n - 1);
        if ok {
            let m = ms[n - 1];
            match crate::file_store::url_match(p.metas, m.url, p.metas.len() as int) {
                None => {
                    law_push_keeps_index_exact(p, m);
                },
                Some(k) => {
                    match lookup(p.metas, p.metas[k].id) {
                        Some(j) => {
                            lemma_lookup_bounds(p.metas, p.metas[k].id);
                            assert(0 <= k < p.metas.len()) by {
                                lemma_url_match_bounds(p.metas, m.url, p.metas.len() as int);
                            }
                            let cid = p.metas[k].id;
                            lemma_describes_self(p.metas[k]);
                            if k != j {
                                lemma_only_found(p.metas, cid, j, k);
                            }
                            law_union_keeps_index_exact(p, j, m, nows[n - 1]);
                        },
                        None => {},
                    }
                },
            }
        }
    }
}

proof fn lemma_url_match_bounds(metas: Seq<MetaView>, u: Option<Seq<char>>, n: int)
    requires
        0 <= n <= metas.len(),
    ensures
        crate::file_store::url_match(metas, u, n) matches Some(k) ==> 0 <= k < n,
    decreases n,
{
    if n > 0 {
        lemma_url_match_bounds(metas, u, n - 1);
    }
}


/// After an edit succeeds, the edited item's id still finds it, now edited,
/// when that id found it alone before: a get request answers the new value.
pub proof fn law_edit_then_get(
    s: FileStoreView,
    off: OfflineStoreView,
    d: Seq<char>,
    e: Edit,
    s2: FileStoreView,
    off2: OfflineStoreView,
    r: Result<Response, Error>,
    acts: Seq<ActionView>,
)
    requires
        edit_outcome(s, off, d, e, s2, off2, r, acts),
        r is Ok,
        lookup(s.metas, d) matches Some(i) && lookup(s.metas, s.metas[i].id) == Some(i),
    ensures
        r matches Ok(x) && x matches Response::Item(m) && lookup(s2.metas, m@.id) matches Some(k) && s2.metas[k] == m@,
{
    lemma_lookup_bounds(s.metas, d);
    let i = lookup(s.metas, d).unwrap();
    let fid = s.metas[i].id;
    assert(s2.metas.len() == s.metas.len());
    assert(s2.metas[i].id == fid);
    lemma_describes_self(s.metas[i]);
    lemma_describes_self(s2.metas[i]);
    assert forall|k: int| 0 <= k < s.metas.len() implies describes(fid, s.metas[k]) == describes(fid, #[trigger] s2.metas[k]) by {
        if k != i {
            assert(s2.metas[k] == s.metas[k]);
        }
    }
    lemma_matching_same(s.metas, s2.metas, fid, s.metas.len() as int);
}


/// Where `first_above` puts a key: after every entry whose id is not above
/// it, and before the first that is.
proof fn lemma_first_above_split(r: Seq<OfflineDataView>, k: Seq<char>)
    ensures
        0 <= first_above(r, k) <= r.len(),
        forall|i: int| 0 <= i < first_above(r, k) ==> !text_lt(k, #[trigger] r[i].id),
        first_above(r, k) < r.len() ==> text_lt(k, r[first_above(r, k)].id),
    decreases r.len(),
{
    if r.len() > 0 && !text_lt(k, r[0].id) {
        let rest = r.drop_first();
        lemma_first_above_split(rest, k);
        assert forall|i: int| 0 <= i < first_above(r, k) implies !text_lt(k, #[trigger] r[i].id) by {
            if i > 0 {
                assert(r[i] == rest[i - 1]);
            }
        }
    }
}

/// Entries read back into the offline store come ordered by id, and are the
/// entries given, each as often as given.
pub proof fn law_sorted_by_id(s: Seq<OfflineDataView>)
    ensures
        forall|a: int, b: int| 0 <= a < b < sorted_by_id(s).len()
            ==> !text_lt(#[trigger] sorted_by_id(s)[b].id, #[trigger] sorted_by_id(s)[a].id),
        sorted_by_id(s).to_multiset() == s.to_multiset(),
    decreases s.len(),
{
    if s.len() > 0 {
        let prev = s.drop_last();
        law_sorted_by_id(prev);
        let r = sorted_by_id(prev);
        let x = s.last();
        let k = x.id;
        crate::offline_store::lemma_sorted_by_id_len(prev);
        lemma_first_above_split(r, k);
        let p = first_above(r, k);
        let t = r.insert(p, x);
        assert(sorted_by_id(s) == t);
        assert forall|a: int, b: int| 0 <= a < b < t.len() implies !text_lt(#[trigger] t[b].id, #[trigger] t[a].id) by {
            if b < p {
                assert(t[a] == r[a] && t[b] == r[b]);
            } else if a > p {
                assert(t[a] == r[a - 1] && t[b] == r[b - 1]);
            } else if a < p && b > p {
                assert(t[a] == r[a] && t[b] == r[b - 1]);
            } else if b == p {
                assert(t[a] == r[a] && t[b] == x);
            } else {
                assert(a == p && b > p);
                assert(t[a] == x && t[b] == r[b - 1]);
                let y = r[b - 1].id;
                let z = r[p].id;
                if b - 1 > p {
                    assert(!text_lt(r[b - 1].id, r[p].id));
                }
                lemma_text_lt_total(z, y);
                if z != y {
                    lemma_text_lt_transitive(k, z, y);
                }
                lemma_text_lt_asymmetric(k, y);
            }
        }
        vstd::seq_lib::to_multiset_insert(r, p, x);
        assert(s =~= prev.push(x));
        vstd::seq_lib::to_multiset_build(prev, x);
    }
}


/// An id common to all the tags has each of them in the index.
proof fn lemma_inter_ids_member(tags: Map<Seq<char>, Set<Seq<char>>>, ts: Seq<Seq<char>>, n: int, x: Seq<char>)
    requires
        0 <= n <= ts.len(),
        inter_ids(tags, ts, n).contains(x),
    ensures
        forall|q: int| 0 <= q < n ==> tags.contains_key(#[trigger] ts[q]) && tags[ts[q]].contains(x),
    decreases n,
{
    if n > 1 {
        lemma_inter_ids_member(tags, ts, n - 1, x);
    }
}

/// Every meta in the list the descriptions `ds` make is the meta one of them finds.
proof fn lemma_list_view_found(metas: Seq<MetaView>, ds: Seq<Seq<char>>, k: int)
    requires
        0 <= k < list_view(metas, ds).len(),
    ensures
        exists|j: int| 0 <= j < ds.len() && (#[trigger] lookup(metas, ds[j])).is_some()
            && list_view(metas, ds)[k] == metas[lookup(metas, ds[j]).unwrap()],
    decreases ds.len(),
{
    let prev = list_view(metas, ds.drop_last());
    if k < prev.len() {
        lemma_list_view_found(metas, ds.drop_last(), k);
        let j = choose|j: int| 0 <= j < ds.drop_last().len() && (#[trigger] lookup(metas, ds.drop_last()[j])).is_some()
            && prev[k] == metas[lookup(metas, ds.drop_last()[j]).unwrap()];
        assert(ds[j] == ds.drop_last()[j]);
    } else {
        assert(lookup(metas, ds[ds.len() - 1]) is Some);
    }
}

/// With the index exact, the metas listed for ids common to all of the tags
/// `ts` carry every one of those tags.
pub proof fn law_intersection_carries_tags(s: FileStoreView, ts: Seq<Seq<char>>, ds: Seq<Seq<char>>)
    requires
        index_exact(s),
        forall|j: int| 0 <= j < ds.len() ==> inter_ids(s.tags, ts, ts.len() as int).contains(#[trigger] ds[j]),
    ensures
        forall|k: int, q: int| 0 <= k < list_view(s.metas, ds).len() && 0 <= q < ts.len()
            ==> (#[trigger] list_view(s.metas, ds)[k]).tags.contains(#[trigger] ts[q]),
{
    assert forall|k: int, q: int| 0 <= k < list_view(s.metas, ds).len() && 0 <= q < ts.len()
        implies (#[trigger] list_view(s.metas, ds)[k]).tags.contains(#[trigger] ts[q]) by {
        lemma_list_view_found(s.metas, ds, k);
        let j = choose|j: int| 0 <= j < ds.len() && (#[trigger] lookup(s.metas, ds[j])).is_some()
            && list_view(s.metas, ds)[k] == s.metas[lookup(s.metas, ds[j]).unwrap()];
        let x = ds[j];
        let i = lookup(s.metas, x).unwrap();
        lemma_lookup_bounds(s.metas, x);
        lemma_inter_ids_member(s.tags, ts, ts.len() as int, x);
        let t = ts[q];
        assert(s.tags.contains_key(t) && s.tags[t].contains(x));
        let m = choose|m: int| 0 <= m < s.metas.len() && s.metas[m].id == x && #[trigger] s.metas[m].tags.contains(t);
        lemma_describes_self(s.metas[m]);
        if m != i {
            lemma_only_found(s.metas, x, i, m);
        }
    }
}

/// `d` begins `t`.
pub open spec fn begins(d: Seq<char>, t: Seq<char>) -> bool {
    d.len() <= t.len() && forall|k: int| 0 <= k < d.len() ==> t[k] == #[trigger] d[k]
}

/// Merging `b` into `a`: when `a` was updated at or after `b`, `a` keeps its
/// own name, comment, last read time and found time, and `b` only fills the
/// ones `a` lacks; when `b` was updated strictly later, `b`'s win wherever `b`
/// has them. The id, link and index status stay `a`'s, the tags are those of
/// either, and the merge is stamped `now`.
pub proof fn law_union_newer_side_wins(a: MetaView, b: MetaView, now: Timestamp)
    ensures
        ({
            let r = union_view(a, b, now);
            let a_newer = b.last_updated.secs < a.last_updated.secs
                || (b.last_updated.secs == a.last_updated.secs && b.last_updated.nanos <= a.last_updated.nanos);
            &&& r.id == a.id && r.url == a.url && r.index_status == a.index_status && r.last_updated == now
            &&& forall|t: Seq<char>| r.tags.contains(t) <==> (a.tags.contains(t) || b.tags.contains(t))
            &&& a_newer ==> {
                &&& r.found == a.found
                &&& r.name == (if a.name is Some { a.name } else { b.name })
                &&& r.comment == (if a.comment is Some { a.comment } else { b.comment })
                &&& r.last_read == (if a.last_read is Some { a.last_read } else { b.last_read })
            }
            &&& !a_newer ==> {
                &&& r.found == b.found
                &&& r.name == (if b.name is Some { b.name } else { a.name })
                &&& r.comment == (if b.comment is Some { b.comment } else { a.comment })
                &&& r.last_read == (if b.last_read is Some { b.last_read } else { a.last_read })
            }
        }),
{
}

/// The ids of a tag union: an id is among them exactly when one of the
/// requested tags that the index holds has it. So every id of every requested
/// tag is found, and nothing else.
pub proof fn law_union_ids_members(tags: Map<Seq<char>, Set<Seq<char>>>, ts: Seq<Seq<char>>, x: Seq<char>)
    ensures
        union_ids(tags, ts).contains(x) <==>
            (exists|k: int| 0 <= k < ts.len() && tags.contains_key(#[trigger] ts[k]) && tags[ts[k]].contains(x)),
    decreases ts.len(),
{
    if ts.len() > 0 {
        law_union_ids_members(tags, ts.drop_last(), x);
        let p = ts.drop_last();
        if exists|k: int| 0 <= k < p.len() && tags.contains_key(#[trigger] p[k]) && tags[p[k]].contains(x) {
            let k = choose|k: int| 0 <= k < p.len() && tags.contains_key(#[trigger] p[k]) && tags[p[k]].contains(x);
            assert(ts[k] == p[k]);
        }
        if exists|k: int| 0 <= k < ts.len() && tags.contains_key(#[trigger] ts[k]) && tags[ts[k]].contains(x) {
            let k = choose|k: int| 0 <= k < ts.len() && tags.contains_key(#[trigger] ts[k]) && tags[ts[k]].contains(x);
            if k < ts.len() - 1 {
                assert(p[k] == ts[k]);
            }
        }
    }
}

/// Editing the meta at `i`: the link, name and comment change only where the
/// edit gives them (to the parsed link, the given name and comment), a tag is
/// kept when it was there or added and is not removed, and every other meta
/// stays as it was.
pub proof fn law_edit_changes_only_given_fields(s: FileStoreView, i: int, e: Edit, url: Option<Seq<char>>)
    requires
        0 <= i < s.metas.len(),
    ensures
        ({
            let m = s.metas[i];
            let r = edit_view(s, i, e, url).metas[i];
            &&& edit_view(s, i, e, url).metas.len() == s.metas.len()
            &&& forall|j: int| 0 <= j < s.metas.len() && j != i ==> #[trigger] edit_view(s, i, e, url).metas[j] == s.metas[j]
            &&& r.id == m.id && r.found == m.found && r.last_read == m.last_read
            &&& r.last_updated == m.last_updated && r.index_status == m.index_status
            &&& r.url == (match e.url { Some(_) => url, None => m.url })
            &&& r.name == (match e.name { Some(n) => Some(n@), None => m.name })
            &&& r.comment == (match e.comment { Some(c) => Some(c@), None => m.comment })
            &&& forall|t: Seq<char>| r.tags.contains(t) <==>
                ((m.tags.contains(t) || exists|k: int| 0 <= k < e.add_tags@.len() && (#[trigger] e.add_tags@[k])@ == t)
                && !exists|k: int| 0 <= k < e.remove_tags@.len() && (#[trigger] e.remove_tags@[k])@ == t)
        }),
{
    let m = s.metas[i];
    let r = edit_view(s, i, e, url).metas[i];
    assert forall|t: Seq<char>| r.tags.contains(t) <==>
        ((m.tags.contains(t) || exists|k: int| 0 <= k < e.add_tags@.len() && (#[trigger] e.add_tags@[k])@ == t)
        && !exists|k: int| 0 <= k < e.remove_tags@.len() && (#[trigger] e.remove_tags@[k])@ == t) by {
        lemma_text_set_member(e.add_tags@, t);
        lemma_text_set_member(e.remove_tags@, t);
    }
}

proof fn lemma_text_set_member(v: Seq<String>, t: Seq<char>)
    ensures
        text_set(v).contains(t) <==> exists|k: int| 0 <= k < v.len() && (#[trigger] v[k])@ == t,
{
    if text_set(v).contains(t) {
        let k = choose|k: int| 0 <= k < views_of(v).len() && views_of(v)[k] == t;
        assert(v[k]@ == t);
    }
    if exists|k: int| 0 <= k < v.len() && (#[trigger] v[k])@ == t {
        let k = choose|k: int| 0 <= k < v.len() && (#[trigger] v[k])@ == t;
        assert(views_of(v)[k] == t);
        assert(views_of(v).contains(t));
    }
}

/// A download request answers that the copy is ready only for an item the
/// adapter takes whose offline entry is ready; for a taken item whose entry is
/// downloading or failed (as a changed link leaves it), it starts a download
/// into that entry; for a taken item without an entry, it starts one.
pub proof fn law_download_ready_only_when_ready(
    meta: Option<MetaView>,
    offline: Option<OfflineDataView>,
    takes: spec_fn(Option<Seq<char>>) -> bool,
    with_name: bool,
)
    ensures
        match download_plan_view(meta, offline, takes, with_name) {
            PlanView::AlreadyReady(x) => meta is Some && takes(meta.unwrap().url) && x == meta.unwrap().id
                && offline is Some && offline.unwrap().status == StatusView::Ready,
            _ => true,
        },
        (meta is Some && takes(meta.unwrap().url) && offline is Some && offline.unwrap().status != StatusView::Ready) ==>
            download_plan_view(meta, offline, takes, with_name) == PlanView::Start(offline.unwrap()),
        (meta is Some && takes(meta.unwrap().url) && offline is None) ==>
            download_plan_view(meta, offline, takes, with_name) is Start,
        (meta is None || !takes(meta.unwrap().url)) ==>
            download_plan_view(meta, offline, takes, with_name) == PlanView::NotHandled,
{
}

/// Looking an item up by description: `d` finds the item at `i` only when
/// `d` begins its id or its name and begins no other item's id or name; it
/// finds none when it begins no id or name, and is ambiguous when it begins
/// those of at least two items.
pub proof fn law_lookup_by_prefix(metas: Seq<MetaView>, d: Seq<char>)
    ensures
        forall|m: MetaView| describes(d, m) <==> (begins(d, m.id) || (m.name matches Some(n) && begins(d, n))),
        lookup(metas, d) matches Some(i) ==> 0 <= i < metas.len()
            && (begins(d, metas[i].id) || (metas[i].name matches Some(n) && begins(d, n)))
            && forall|j: int| 0 <= j < metas.len() && j != i ==>
                !(begins(d, (#[trigger] metas[j]).id) || (metas[j].name matches Some(n) && begins(d, n))),
        all_matching(metas, d).len() == 0 <==> forall|j: int| 0 <= j < metas.len() ==>
                !(begins(d, (#[trigger] metas[j]).id) || (metas[j].name matches Some(n) && begins(d, n))),
        all_matching(metas, d).len() > 1 ==> exists|j1: int, j2: int| 0 <= j1 < j2 < metas.len()
            && (begins(d, (#[trigger] metas[j1]).id) || (metas[j1].name matches Some(n) && begins(d, n)))
            && (begins(d, (#[trigger] metas[j2]).id) || (metas[j2].name matches Some(n) && begins(d, n))),
{
    assert forall|m: MetaView| describes(d, m) <==> (begins(d, m.id) || (m.name matches Some(n) && begins(d, n))) by {
        lemma_begins_prefix(d, m.id);
        if let Some(n) = m.name {
            lemma_begins_prefix(d, n);
        }
    }
    lemma_matching_bounds(metas, d, metas.len() as int);
    let am = all_matching(metas, d);
    if am.len() == 1 {
        let i = am[0];
        assert forall|j: int| 0 <= j < metas.len() && j != i implies
            !(begins(d, (#[trigger] metas[j]).id) || (metas[j].name matches Some(n) && begins(d, n))) by {
            if describes(d, metas[j]) {
                assert(am.contains(j));
            }
        }
    }
    if am.len() == 0 {
        assert forall|j: int| 0 <= j < metas.len() implies
            !(begins(d, (#[trigger] metas[j]).id) || (metas[j].name matches Some(n) && begins(d, n))) by {
            if describes(d, metas[j]) {
                assert(am.contains(j));
            }
        }
    } else {
        assert(describes(d, metas[am[0]]));
    }
    if am.len() > 1 {
        assert(am[0] < am[1]);
        assert(describes(d, metas[am[0]]) && describes(d, metas[am[1]]));
    }
}

proof fn lemma_begins_prefix(d: Seq<char>, t: Seq<char>)
    ensures
        is_prefix(d, t) <==> begins(d, t),
{
    if begins(d, t) {
        assert(t.subrange(0, d.len() as int) =~= d);
    }
    if is_prefix(d, t) {
        assert forall|k: int| 0 <= k < d.len() implies t[k] == #[trigger] d[k] by {
            assert(t.subrange(0, d.len() as int)[k] == t[k]);
        }
    }
}

/// With the index exact, each meta listed for ids of a tag union carries at
/// least one of the requested tags.
pub proof fn law_union_carries_some_tag(s: FileStoreView, ts: Seq<Seq<char>>, ds: Seq<Seq<char>>)
    requires
        index_exact(s),
        forall|j: int| 0 <= j < ds.len() ==> union_ids(s.tags, ts).contains(#[trigger] ds[j]),
    ensures
        forall|k: int| 0 <= k < list_view(s.metas, ds).len() ==>
            exists|q: int| 0 <= q < ts.len() && (#[trigger] list_view(s.metas, ds)[k]).tags.contains(#[trigger] ts[q]),
{
    assert forall|k: int| 0 <= k < list_view(s.metas, ds).len() implies
        exists|q: int| 0 <= q < ts.len() && (#[trigger] list_view(s.metas, ds)[k]).tags.contains(#[trigger] ts[q]) by {
        lemma_list_view_found(s.metas, ds, k);
        let j = choose|j: int| 0 <= j < ds.len() && (#[trigger] lookup(s.metas, ds[j])).is_some()
            && list_view(s.metas, ds)[k] == s.metas[lookup(s.metas, ds[j]).unwrap()];
        let x = ds[j];
        let i = lookup(s.metas, x).unwrap();
        lemma_lookup_bounds(s.metas, x);
        law_union_ids_members(s.tags, ts, x);
        let q = choose|q: int| 0 <= q < ts.len() && s.tags.contains_key(#[trigger] ts[q]) && s.tags[ts[q]].contains(x);
        let t = ts[q];
        let m = choose|m: int| 0 <= m < s.metas.len() && s.metas[m].id == x && #[trigger] s.metas[m].tags.contains(t);
        lemma_describes_self(s.metas[m]);
        if m != i {
            lemma_only_found(s.metas, x, i, m);
        }
        assert(list_view(s.metas, ds)[k].tags.contains(ts[q]));
    }
}

} // verus!
