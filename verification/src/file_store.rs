//! The metadata store: every item's `Meta`, in insertion order, and an index
//! from tag to the ids of the items that carry it.

use vstd::prelude::*;
use crate::error::Error;
use crate::meta::{is_clock_reading, now, opt_text, union_view, Meta, MetaView, Timestamp};
use crate::request::Edit;
use crate::strset::StrSet;
use crate::tagmap::{map_add_id, map_remove_id, TagMap};
use crate::text::{is_prefix, lemma_sorted_unique, sorted_texts, starts_with, views_of};
use crate::web::{parse_url, parsed_url, url_parse_result, UrlError};

verus! {

/// The format version written with new stores.
pub const CURRENT_FILE_STORE_VERSION: &'static str = "0.1.0";

/// The abstract value of a `FileStore`.
pub struct FileStoreView {
    pub version: Seq<char>,
    pub metas: Seq<MetaView>,
    pub file: Seq<char>,
    pub dirty: bool,
    pub tags: Map<Seq<char>, Set<Seq<char>>>,
}

/// The views of a sequence of metas.
pub open spec fn meta_views(v: Seq<Meta>) -> Seq<MetaView> {
    v.map_values(|m: Meta| m@)
}

/// `d` describes `m`: it begins `m`'s id or `m`'s name.
pub open spec fn describes(d: Seq<char>, m: MetaView) -> bool {
    is_prefix(d, m.id) || (m.name matches Some(n) && is_prefix(d, n))
}

/// The positions among the first `n` metas that `d` describes, ascending.
pub open spec fn matching(metas: Seq<MetaView>, d: Seq<char>, n: int) -> Seq<int>
    decreases n,
{
    if n <= 0 {
        Seq::empty()
    } else if describes(d, metas[n - 1]) {
        matching(metas, d, n - 1).push(n - 1)
    } else {
        matching(metas, d, n - 1)
    }
}

/// The positions of all metas that `d` describes, ascending.
pub open spec fn all_matching(metas: Seq<MetaView>, d: Seq<char>) -> Seq<int> {
    matching(metas, d, metas.len() as int)
}

/// The one position `d` describes, if exactly one.
pub open spec fn lookup(metas: Seq<MetaView>, d: Seq<char>) -> Option<int> {
    if all_matching(metas, d).len() == 1 {
        Some(all_matching(metas, d)[0])
    } else {
        None
    }
}

pub proof fn lemma_matching_bounds(metas: Seq<MetaView>, d: Seq<char>, n: int)
    requires
        0 <= n <= metas.len(),
    ensures
        forall|k: int| 0 <= k < matching(metas, d, n).len() ==> 0 <= #[trigger] matching(metas, d, n)[k] < n,
        forall|k: int| 0 <= k < matching(metas, d, n).len() ==> describes(d, metas[#[trigger] matching(metas, d, n)[k]]),
        forall|a: int, b: int| 0 <= a < b < matching(metas, d, n).len() ==> #[trigger] matching(metas, d, n)[a] < #[trigger] matching(metas, d, n)[b],
        forall|i: int| 0 <= i < n && describes(d, metas[i]) ==> #[trigger] matching(metas, d, n).contains(i),
    decreases n,
{
    if n > 0 {
        lemma_matching_bounds(metas, d, n - 1);
        let prev = matching(metas, d, n - 1);
        if describes(d, metas[n - 1]) {
            assert forall|i: int| 0 <= i < n && describes(d, metas[i]) implies #[trigger] matching(metas, d, n).contains(i) by {
                if i < n - 1 {
                    assert(prev.contains(i));
                    let k = choose|k: int| 0 <= k < prev.len() && prev[k] == i;
                    assert(matching(metas, d, n)[k] == i);
                } else {
                    assert(matching(metas, d, n)[prev.len() as int] == i);
                }
            }
        }
    }
}

/// The metas at positions `ks`.
pub open spec fn metas_at(metas: Seq<MetaView>, ks: Seq<int>) -> Seq<MetaView> {
    ks.map_values(|k: int| metas[k])
}

/// What looking `d` up among `metas` gives: the position, or the error.
pub open spec fn find_outcome(metas: Seq<MetaView>, d: Seq<char>, r: Result<usize, Error>) -> bool {
    match r {
        Ok(i) => lookup(metas, d) == Some(i as int),
        Err(Error::IdNotFound(x)) => x@ == d && all_matching(metas, d).len() == 0,
        Err(Error::TooManyMetas(x, ms)) => x@ == d && all_matching(metas, d).len() > 1
            && meta_views(ms@) == metas_at(metas, all_matching(metas, d)),
        Err(_) => false,
    }
}

pub proof fn lemma_meta_views_update(v: Seq<Meta>, i: int, x: Meta)
    requires
        0 <= i < v.len(),
    ensures
        meta_views(v.update(i, x)) == meta_views(v).update(i, x@),
{
    assert(meta_views(v.update(i, x)) =~= meta_views(v).update(i, x@));
}

proof fn lemma_remove_id_step(
    tags: Map<Seq<char>, Set<Seq<char>>>,
    s: Set<Seq<char>>,
    t: Seq<char>,
    id: Seq<char>,
)
    ensures
        map_remove_id(remove_id_from_tags(tags, s, id), t, id) == remove_id_from_tags(tags, s.insert(t), id),
{
    let lhs = map_remove_id(remove_id_from_tags(tags, s, id), t, id);
    let rhs = remove_id_from_tags(tags, s.insert(t), id);
    assert forall|k: Seq<char>| #[trigger] lhs.contains_key(k) implies lhs[k] == rhs[k] by {
        if k == t && s.contains(t) {
            assert(lhs[k] =~= tags[t].remove(id));
        }
    }
    assert(lhs =~= rhs);
}

/// `metas` after `Vec::swap_remove(i)`: the last meta takes position `i`.
pub open spec fn swap_remove_view<T>(metas: Seq<T>, i: int) -> Seq<T> {
    metas.update(i, metas.last()).drop_last()
}

/// The texts of a vector of strings, as a set.
pub open spec fn text_set(v: Seq<String>) -> Set<Seq<char>> {
    views_of(v).to_set()
}

/// A meta after an edit: the parsed link, name and comment where the edit
/// gives them, the edit's tags added and then its tags to remove removed.
pub open spec fn edit_meta(m: MetaView, e: Edit, url: Option<Seq<char>>) -> MetaView {
    MetaView {
        url: if e.url.is_some() { url } else { m.url },
        name: if e.name.is_some() { opt_text(e.name) } else { m.name },
        comment: if e.comment.is_some() { opt_text(e.comment) } else { m.comment },
        tags: m.tags.union(text_set(e.add_tags@)).difference(text_set(e.remove_tags@)),
        ..m
    }
}

/// The store after the meta at `i` is edited.
pub open spec fn edit_view(s: FileStoreView, i: int, e: Edit, url: Option<Seq<char>>) -> FileStoreView {
    FileStoreView {
        metas: s.metas.update(i, edit_meta(s.metas[i], e, url)),
        dirty: true,
        tags: remove_id_from_tags(
            add_id_to_tags(s.tags, text_set(e.add_tags@), s.metas[i].id),
            text_set(e.remove_tags@),
            s.metas[i].id,
        ),
        ..s
    }
}

/// The link an edit sets, parsed: `None` when the edit sets none.
pub open spec fn edit_url(e: Edit) -> Option<Seq<char>> {
    match e.url {
        Some(u) => parsed_url(u@),
        None => None,
    }
}

/// The metas that the descriptions `ds` find, in the order of `ds`; a
/// description that finds none or several contributes nothing.
pub open spec fn list_view(metas: Seq<MetaView>, ds: Seq<Seq<char>>) -> Seq<MetaView>
    decreases ds.len(),
{
    if ds.len() == 0 {
        Seq::empty()
    } else {
        let prev = list_view(metas, ds.drop_last());
        match lookup(metas, ds.last()) {
            Some(i) => prev.push(metas[i]),
            None => prev,
        }
    }
}

/// The ids of every tag in `ts` that the index holds.
pub open spec fn union_ids(tags: Map<Seq<char>, Set<Seq<char>>>, ts: Seq<Seq<char>>) -> Set<Seq<char>>
    decreases ts.len(),
{
    if ts.len() == 0 {
        Set::empty()
    } else {
        let prev = union_ids(tags, ts.drop_last());
        if tags.contains_key(ts.last()) {
            prev.union(tags[ts.last()])
        } else {
            prev
        }
    }
}

/// The ids that the index holds under every one of the first `n` tags of
/// `ts`; a tag that the index does not hold has no ids, and no tags give none.
pub open spec fn inter_ids(tags: Map<Seq<char>, Set<Seq<char>>>, ts: Seq<Seq<char>>, n: int) -> Set<Seq<char>>
    decreases n,
{
    if n <= 0 {
        Set::empty()
    } else {
        let t = ts[n - 1];
        let here = if tags.contains_key(t) { tags[t] } else { Set::empty() };
        if n == 1 {
            here
        } else {
            inter_ids(tags, ts, n - 1).intersect(here)
        }
    }
}

/// The members of a finite set of texts in ascending order.
pub open spec fn ascending(s: Set<Seq<char>>) -> Seq<Seq<char>> {
    choose|q: Seq<Seq<char>>| sorted_texts(q) && q.to_set() == s
}

pub(crate) proof fn lemma_ascending(q: Seq<Seq<char>>)
    requires
        sorted_texts(q),
    ensures
        ascending(q.to_set()) == q,
{
    let c = ascending(q.to_set());
    assert(sorted_texts(c) && c.to_set() == q.to_set());
    lemma_sorted_unique(c, q);
}

/// The first of the first `n` metas whose link is `u` (both absent counts).
pub open spec fn url_match(metas: Seq<MetaView>, u: Option<Seq<char>>, n: int) -> Option<int>
    decreases n,
{
    if n <= 0 {
        None
    } else {
        match url_match(metas, u, n - 1) {
            Some(k) => Some(k),
            None => if metas[n - 1].url == u { Some(n - 1) } else { None },
        }
    }
}

/// The store after `m` is merged into the meta at `j`, whose id is `cid`:
/// `cid` joins the sets of the tags that `m` adds, and the metas are merged at `now`.
pub open spec fn union_step(s: FileStoreView, j: int, cid: Seq<char>, m: MetaView, now: Timestamp) -> FileStoreView {
    FileStoreView {
        metas: s.metas.update(j, union_view(s.metas[j], m, now)),
        dirty: true,
        tags: add_id_to_tags(s.tags, m.tags.difference(s.metas[j].tags), cid),
        ..s
    }
}

/// One imported meta: appended when no meta has its link, else merged
/// (at `now`) into the first that has; `None` when that meta's id does not
/// find exactly one meta.
pub open spec fn import_step(s: FileStoreView, m: MetaView, now: Timestamp) -> Option<FileStoreView> {
    match url_match(s.metas, m.url, s.metas.len() as int) {
        None => Some(push_view(s, m)),
        Some(k) => match lookup(s.metas, s.metas[k].id) {
            Some(j) => Some(union_step(s, j, s.metas[k].id, m, now)),
            None => None,
        },
    }
}

/// The store after importing the first `n` of `ms`, the `i`-th merge made at
/// `nows[i]`, and whether every step succeeded; a failed step stops the import.
pub open spec fn import_fold(s: FileStoreView, ms: Seq<MetaView>, nows: Seq<Timestamp>, n: int) -> (FileStoreView, bool)
    decreases n,
{
    if n <= 0 {
        (s, true)
    } else {
        let (p, ok) = import_fold(s, ms, nows, n - 1);
        if !ok {
            (p, false)
        } else {
            match import_step(p, ms[n - 1], nows[n - 1]) {
                Some(q) => (q, true),
                None => (p, false),
            }
        }
    }
}

proof fn lemma_url_match_stable(metas: Seq<MetaView>, u: Option<Seq<char>>, k: int, n: int)
    requires
        0 <= k <= n,
    ensures
        url_match(metas, u, k) is Some ==> url_match(metas, u, n) == url_match(metas, u, k),
    decreases n - k,
{
    if k < n {
        lemma_url_match_stable(metas, u, k, n - 1);
    }
}

/// Only the first `n` timestamps matter to the first `n` steps.
proof fn lemma_import_fold_prefix(s: FileStoreView, ms: Seq<MetaView>, a: Seq<Timestamp>, b: Seq<Timestamp>, n: int)
    requires
        0 <= n <= a.len(),
        n <= b.len(),
        forall|k: int| 0 <= k < n ==> a[k] == b[k],
    ensures
        import_fold(s, ms, a, n) == import_fold(s, ms, b, n),
    decreases n,
{
    if n > 0 {
        lemma_import_fold_prefix(s, ms, a, b, n - 1);
    }
}

proof fn lemma_import_fold_extend(s: FileStoreView, ms: Seq<MetaView>, a: Seq<Timestamp>, b: Seq<Timestamp>, n: int)
    requires
        0 <= n <= a.len(),
        a.len() <= b.len(),
        forall|k: int| 0 <= k < a.len() ==> a[k] == b[k],
    ensures
        import_fold(s, ms, a, n) == import_fold(s, ms, b, n),
{
    lemma_import_fold_prefix(s, ms, a, b, n);
}

/// Once a step fails, later steps change nothing.
proof fn lemma_import_fold_stops(s: FileStoreView, ms: Seq<MetaView>, nows: Seq<Timestamp>, k: int, n: int)
    requires
        0 <= k <= n,
        !import_fold(s, ms, nows, k).1,
    ensures
        import_fold(s, ms, nows, n) == import_fold(s, ms, nows, k),
    decreases n - k,
{
    if k < n {
        lemma_import_fold_stops(s, ms, nows, k, n - 1);
    }
}

/// Whether two optional texts are equal.
pub fn same_opt_text(a: &Option<String>, b: &Option<String>) -> (r: bool)
    ensures
        r == (opt_text(*a) == opt_text(*b)),
{
    match (a, b) {
        (Some(x), Some(y)) => crate::text::same_text(x.as_str(), y.as_str()),
        (None, None) => true,
        _ => false,
    }
}

/// Whether `d` describes `m`.
pub fn describes_meta(d: &str, m: &Meta) -> (r: bool)
    ensures
        r == describes(d@, m@),
{
    if starts_with(m.id.as_str(), d) {
        return true;
    }
    match &m.name {
        Some(n) => starts_with(n.as_str(), d),
        None => false,
    }
}

/// The store after `meta` is appended: its id joins the set of each of its tags.
pub open spec fn push_view(s: FileStoreView, m: MetaView) -> FileStoreView {
    FileStoreView {
        metas: s.metas.push(m),
        dirty: true,
        tags: add_id_to_tags(s.tags, m.tags, m.id),
        ..s
    }
}

/// `tags` with `id` added to the set of every tag in `ts`.
pub open spec fn add_id_to_tags(
    tags: Map<Seq<char>, Set<Seq<char>>>,
    ts: Set<Seq<char>>,
    id: Seq<char>,
) -> Map<Seq<char>, Set<Seq<char>>> {
    Map::new(
        |k: Seq<char>| tags.contains_key(k) || ts.contains(k),
        |k: Seq<char>|
            if ts.contains(k) {
                if tags.contains_key(k) { tags[k].insert(id) } else { Set::empty().insert(id) }
            } else {
                tags[k]
            },
    )
}

proof fn lemma_add_id_step(
    tags: Map<Seq<char>, Set<Seq<char>>>,
    s: Set<Seq<char>>,
    t: Seq<char>,
    id: Seq<char>,
)
    ensures
        map_add_id(add_id_to_tags(tags, s, id), t, id) == add_id_to_tags(tags, s.insert(t), id),
{
    let lhs = map_add_id(add_id_to_tags(tags, s, id), t, id);
    let rhs = add_id_to_tags(tags, s.insert(t), id);
    assert forall|k: Seq<char>| #[trigger] lhs.contains_key(k) implies lhs[k] == rhs[k] by {
        if k == t {
            if s.contains(t) {
                if tags.contains_key(t) {
                    assert(lhs[k] =~= tags[t].insert(id));
                } else {
                    assert(lhs[k] =~= Set::empty().insert(id));
                }
            }
        }
    }
    assert(lhs =~= rhs);
}

/// `tags` with `id` removed from the set of every tag in `ts` that is indexed.
pub open spec fn remove_id_from_tags(
    tags: Map<Seq<char>, Set<Seq<char>>>,
    ts: Set<Seq<char>>,
    id: Seq<char>,
) -> Map<Seq<char>, Set<Seq<char>>> {
    Map::new(
        |k: Seq<char>| tags.contains_key(k),
        |k: Seq<char>| if ts.contains(k) { tags[k].remove(id) } else { tags[k] },
    )
}

/// Metadata of all saved items with a tag index.
#[derive(Debug)]
pub struct FileStore {
    version: String,
    metadata: Vec<Meta>,
    file: String,
    dirty: bool,
    tags: TagMap,
}

impl View for FileStore {
    type V = FileStoreView;

    closed spec fn view(&self) -> FileStoreView {
        FileStoreView {
            version: self.version@,
            metas: meta_views(self.metadata@),
            file: self.file@,
            dirty: self.dirty,
            tags: self.tags@,
        }
    }
}

impl FileStore {
    /// A clean, empty store of the current version with no file.
    pub fn empty() -> (r: FileStore)
        ensures
            r@.version == CURRENT_FILE_STORE_VERSION@,
            r@.metas == Seq::<MetaView>::empty(),
            r@.file == Seq::<char>::empty(),
            !r@.dirty,
            r@.tags == Map::<Seq<char>, Set<Seq<char>>>::empty(),
    {
        let r = FileStore {
            version: CURRENT_FILE_STORE_VERSION.to_string(),
            metadata: Vec::new(),
            file: String::new(),
            dirty: false,
            tags: TagMap::new(),
        };
        assert(meta_views(r.metadata@) =~= Seq::<MetaView>::empty());
        r
    }

    pub fn file(&self) -> (r: &str)
        ensures
            r@ == self@.file,
    {
        self.file.as_str()
    }

    pub fn version(&self) -> (r: &str)
        ensures
            r@ == self@.version,
    {
        self.version.as_str()
    }

    pub fn tags(&self) -> (r: &TagMap)
        ensures
            r@ == self@.tags,
    {
        &self.tags
    }

    pub fn is_dirty(&self) -> (r: bool)
        ensures
            r == self@.dirty,
    {
        self.dirty
    }

    /// All metas, in store order.
    pub fn data(&self) -> (r: &[Meta])
        ensures
            meta_views(r@) == self@.metas,
    {
        self.metadata.as_slice()
    }

    /// The meta at position `idx`.
    pub fn index(&self, idx: usize) -> (r: &Meta)
        requires
            idx < self@.metas.len(),
        ensures
            r@ == self@.metas[idx as int],
    {
        &self.metadata[idx]
    }

    /// Appends `meta`, indexes its tags, and marks the store dirty.
    pub fn push(&mut self, meta: Meta)
        ensures
            final(self)@ == push_view(old(self)@, meta@),
    {
        self.dirty = true;
        let tags = meta.tags.to_vec();
        let ghost tv = meta.tags@;
        proof { use_type_invariant(&meta.tags); meta.tags.lemma_wf(); }
        let n = tags.len();
        let mut i: usize = 0;
        while i < n
            invariant
                n == tags@.len(),
                i <= n,
                views_of(tags@) == meta.tags.elems(),
                tv == meta.tags.elems().to_set(),
                self.metadata@ == old(self).metadata@,
                self.version == old(self).version,
                self.file == old(self).file,
                self.dirty,
                self.tags@ == add_id_to_tags(old(self).tags@, views_of(tags@).subrange(0, i as int).to_set(), meta.id@),
            decreases n - i,
        {
            let ghost before = self.tags@;
            self.tags.add_id(&tags[i], &meta.id);
            proof {
                crate::text::lemma_prefix_to_set(views_of(tags@), i as int);
                lemma_add_id_step(old(self).tags@, views_of(tags@).subrange(0, i as int).to_set(), tags@[i as int]@, meta.id@);
            }
            i = i + 1;
        }
        proof {
            assert(views_of(tags@).subrange(0, n as int) =~= views_of(tags@));
        }
        let ghost mv = meta@;
        self.metadata.push(meta);
        proof {
            assert(meta_views(self.metadata@) =~= meta_views(old(self).metadata@).push(mv));
            assert(self@ =~= push_view(old(self)@, mv));
        }
    }

    /// The position of the one meta that `description` describes (it begins
    /// the meta's id or name); an error when none or several do.
    fn find_id(&self, description: &str) -> (r: Result<usize, Error>)
        ensures
            find_outcome(self@.metas, description@, r),
            r matches Ok(i) ==> i < self@.metas.len(),
    {
        let n = self.metadata.len();
        let ghost metas = self@.metas;
        let mut ids: Vec<usize> = Vec::new();
        let mut i: usize = 0;
        while i < n
            invariant
                n == metas.len(),
                metas == self@.metas,
                i <= n,
                ids@.map_values(|x: usize| x as int) == matching(metas, description@, i as int),
            decreases n - i,
        {
            let ghost before = ids@;
            if describes_meta(description, &self.metadata[i]) {
                ids.push(i);
                proof {
                    assert(ids@.map_values(|x: usize| x as int) =~= before.map_values(|x: usize| x as int).push(i as int));
                }
            }
            i = i + 1;
        }
        proof {
            lemma_matching_bounds(metas, description@, n as int);
        }
        let ghost ms = all_matching(metas, description@);
        assert(ids@.len() == ms.len());
        if ids.len() > 1 {
            let mut found: Vec<Meta> = Vec::new();
            let mut k: usize = 0;
            while k < ids.len()
                invariant
                    n == metas.len(),
                    metas == self@.metas,
                    ids@.map_values(|x: usize| x as int) == ms,
                    forall|j: int| 0 <= j < ms.len() ==> 0 <= #[trigger] ms[j] < n,
                    k <= ids@.len(),
                    meta_views(found@) == metas_at(metas, ms.subrange(0, k as int)),
                decreases ids@.len() - k,
            {
                let ghost before = found@;
                assert(ids@[k as int] as int == ms[k as int]);
                assert(meta_views(self.metadata@)[ids@[k as int] as int] == self.metadata@[ids@[k as int] as int]@);
                let m = self.metadata[ids[k]].duplicate();
                found.push(m);
                proof {
                    assert(meta_views(found@) =~= meta_views(before).push(found@[k as int]@));
                    assert(ms.subrange(0, k + 1) =~= ms.subrange(0, k as int).push(ms[k as int]));
                    assert(metas_at(metas, ms.subrange(0, k + 1)) =~= metas_at(metas, ms.subrange(0, k as int)).push(metas[ms[k as int]]));
                    assert(meta_views(found@) =~= metas_at(metas, ms.subrange(0, k + 1)));
                }
                k = k + 1;
            }
            proof {
                assert(ms.subrange(0, ms.len() as int) =~= ms);
            }
            return Err(Error::TooManyMetas(description.to_string(), found));
        } else if ids.len() == 0 {
            return Err(Error::IdNotFound(description.to_string()));
        }
        assert(ids@[0] as int == ms[0]);
        Ok(ids[0])
    }

    /// The meta that `description` describes.
    pub fn get(&self, description: &str) -> (r: Result<&Meta, Error>)
        ensures
            match r {
                Ok(m) => lookup(self@.metas, description@) matches Some(i) && m@ == self@.metas[i],
                Err(e) => find_outcome(self@.metas, description@, Err(e)),
            },
    {
        match self.find_id(description) {
            Ok(i) => Ok(&self.metadata[i]),
            Err(e) => Err(e),
        }
    }

    /// The meta that `description` describes, to change in place; marks the store dirty.
    pub fn get_mut(&mut self, description: &str) -> (r: Result<&mut Meta, Error>)
        ensures
            match r {
                Ok(m) => lookup(old(self)@.metas, description@) matches Some(i)
                    && m@ == old(self)@.metas[i]
                    && final(self)@ == (FileStoreView {
                        metas: old(self)@.metas.update(i, final(m)@),
                        dirty: true,
                        ..old(self)@
                    }),
                Err(e) => find_outcome(old(self)@.metas, description@, Err(e))
                    && final(self)@ == old(self)@,
            },
    {
        match self.find_id(description) {
            Ok(i) => {
                self.dirty = true;
                let m = &mut self.metadata[i];
                proof {
                    lemma_meta_views_update(old(self).metadata@, i as int, *final(m));
                }
                Ok(m)
            },
            Err(e) => Err(e),
        }
    }

    /// Replaces the meta that `id` describes with `data`, whose id must be `id`.
    /// The tag index is left as it was.
    pub fn update(&mut self, id: &str, data: Meta) -> (r: Result<(), Error>)
        ensures
            id@ != data.id@ ==> (r matches Err(Error::UnequalIds) && final(self)@ == old(self)@),
            id@ == data.id@ ==> match r {
                Ok(()) => lookup(old(self)@.metas, id@) matches Some(i) && final(self)@ == (FileStoreView {
                    metas: old(self)@.metas.update(i, data@),
                    dirty: true,
                    ..old(self)@
                }),
                Err(e) => find_outcome(old(self)@.metas, id@, Err(e)) && final(self)@ == old(self)@,
            },
    {
        if !crate::text::same_text(id, data.id.as_str()) {
            return Err(Error::UnequalIds);
        }
        match self.find_id(id) {
            Ok(i) => {
                let ghost dv = data@;
                self.metadata.set(i, data);
                self.dirty = true;
                proof {
                    lemma_meta_views_update(old(self).metadata@, i as int, self.metadata@[i as int]);
                }
                Ok(())
            },
            Err(e) => Err(e),
        }
    }

    /// Removes the meta that `description` describes (the last meta takes its
    /// place) and drops its id from the sets of its tags; returns it.
    pub fn delete(&mut self, description: &str) -> (r: Result<Meta, Error>)
        ensures
            match r {
                Ok(m) => lookup(old(self)@.metas, description@) matches Some(i)
                    && m@ == old(self)@.metas[i]
                    && final(self)@ == (FileStoreView {
                        metas: swap_remove_view(old(self)@.metas, i),
                        dirty: true,
                        tags: remove_id_from_tags(old(self)@.tags, m@.tags, m@.id),
                        ..old(self)@
                    }),
                Err(e) => find_outcome(old(self)@.metas, description@, Err(e)) && final(self)@ == old(self)@,
            },
    {
        let i = match self.find_id(description) {
            Ok(i) => i,
            Err(e) => return Err(e),
        };
        self.dirty = true;
        let removed = self.metadata.swap_remove(i);
        proof {
            assert(meta_views(self.metadata@) =~= swap_remove_view(meta_views(old(self).metadata@), i as int));
        }
        let tags = removed.tags.to_vec();
        proof { use_type_invariant(&removed.tags); removed.tags.lemma_wf(); }
        let n = tags.len();
        let mut k: usize = 0;
        proof {
            assert(remove_id_from_tags(old(self).tags@, views_of(tags@).subrange(0, 0).to_set(), removed.id@) =~= old(self).tags@);
        }
        while k < n
            invariant
                n == tags@.len(),
                k <= n,
                views_of(tags@) == removed.tags.elems(),
                removed.tags@ == removed.tags.elems().to_set(),
                meta_views(self.metadata@) == swap_remove_view(meta_views(old(self).metadata@), i as int),
                self.version == old(self).version,
                self.file == old(self).file,
                self.dirty,
                self.tags@ == remove_id_from_tags(old(self).tags@, views_of(tags@).subrange(0, k as int).to_set(), removed.id@),
            decreases n - k,
        {
            self.tags.remove_id(tags[k].as_str(), removed.id.as_str());
            proof {
                crate::text::lemma_prefix_to_set(views_of(tags@), k as int);
                lemma_remove_id_step(old(self).tags@, views_of(tags@).subrange(0, k as int).to_set(), tags@[k as int]@, removed.id@);
            }
            k = k + 1;
        }
        proof {
            assert(views_of(tags@).subrange(0, n as int) =~= views_of(tags@));
        }
        Ok(removed)
    }

    /// Applies `edit` to the meta that `description` describes and returns the
    /// edited meta. The store is marked dirty once the meta is found, also
    /// when the edit's link then fails to parse.
    pub fn edit(&mut self, description: &str, edit: &Edit) -> (r: Result<Meta, Error>)
        ensures
            match r {
                Ok(m) => lookup(old(self)@.metas, description@) matches Some(i)
                    && (edit.url matches Some(u) ==> url_parse_result(u@) is Ok)
                    && final(self)@ == edit_view(old(self)@, i, *edit, edit_url(*edit))
                    && m@ == final(self)@.metas[i],
                Err(Error::UrlParse(er)) => lookup(old(self)@.metas, description@).is_some()
                    && (edit.url matches Some(u) && url_parse_result(u@) == Err::<Seq<char>, UrlError>(er))
                    && final(self)@ == (FileStoreView { dirty: true, ..old(self)@ }),
                Err(e) => find_outcome(old(self)@.metas, description@, Err(e)) && final(self)@ == old(self)@,
            },
    {
        let i = match self.find_id(description) {
            Ok(i) => i,
            Err(e) => return Err(e),
        };
        self.dirty = true;
        let mut meta = self.metadata[i].duplicate();
        let ghost m0 = meta@;
        if let Some(u) = &edit.url {
            match parse_url(u.as_str()) {
                Ok(parsed) => {
                    meta.url = Some(parsed);
                },
                Err(e) => {
                    return Err(Error::UrlParse(e));
                },
            }
        }
        if let Some(n) = &edit.name {
            meta.name = Some(n.clone());
        }
        if let Some(c) = &edit.comment {
            meta.comment = Some(c.clone());
        }
        let ghost m1 = meta@;
        proof {
            assert(views_of(edit.add_tags@).subrange(0, 0).to_set() =~= Set::<Seq<char>>::empty());
            assert(m1.tags.union(Set::<Seq<char>>::empty()) =~= m1.tags);
            assert(add_id_to_tags(old(self).tags@, Set::<Seq<char>>::empty(), m0.id) =~= old(self).tags@);
        }
        let na = edit.add_tags.len();
        let mut k: usize = 0;
        while k < na
            invariant
                na == edit.add_tags@.len(),
                k <= na,
                meta@ == (MetaView { tags: m1.tags.union(views_of(edit.add_tags@).subrange(0, k as int).to_set()), ..m1 }),
                meta.id@ == m0.id,
                self.metadata@ == old(self).metadata@,
                self.version == old(self).version,
                self.file == old(self).file,
                self.dirty,
                self.tags@ == add_id_to_tags(old(self).tags@, views_of(edit.add_tags@).subrange(0, k as int).to_set(), m0.id),
            decreases na - k,
        {
            self.tags.add_id(&edit.add_tags[k], &meta.id);
            meta.tags.insert(edit.add_tags[k].clone());
            proof {
                crate::text::lemma_prefix_to_set(views_of(edit.add_tags@), k as int);
                lemma_add_id_step(old(self).tags@, views_of(edit.add_tags@).subrange(0, k as int).to_set(), edit.add_tags@[k as int]@, m0.id);
                assert(meta@.tags =~= m1.tags.union(views_of(edit.add_tags@).subrange(0, k + 1).to_set()));
            }
            k = k + 1;
        }
        proof {
            assert(views_of(edit.add_tags@).subrange(0, na as int) =~= views_of(edit.add_tags@));
        }
        let ghost m2 = meta@;
        let ghost t2 = self.tags@;
        proof {
            assert(views_of(edit.remove_tags@).subrange(0, 0).to_set() =~= Set::<Seq<char>>::empty());
            assert(m2.tags.difference(Set::<Seq<char>>::empty()) =~= m2.tags);
            assert(remove_id_from_tags(t2, Set::<Seq<char>>::empty(), m0.id) =~= t2);
        }
        let nr = edit.remove_tags.len();
        let mut k: usize = 0;
        while k < nr
            invariant
                nr == edit.remove_tags@.len(),
                k <= nr,
                meta@ == (MetaView { tags: m2.tags.difference(views_of(edit.remove_tags@).subrange(0, k as int).to_set()), ..m2 }),
                meta.id@ == m0.id,
                self.metadata@ == old(self).metadata@,
                self.version == old(self).version,
                self.file == old(self).file,
                self.dirty,
                self.tags@ == remove_id_from_tags(t2, views_of(edit.remove_tags@).subrange(0, k as int).to_set(), m0.id),
            decreases nr - k,
        {
            self.tags.remove_id(edit.remove_tags[k].as_str(), meta.id.as_str());
            meta.tags.remove(edit.remove_tags[k].as_str());
            proof {
                crate::text::lemma_prefix_to_set(views_of(edit.remove_tags@), k as int);
                lemma_remove_id_step(t2, views_of(edit.remove_tags@).subrange(0, k as int).to_set(), edit.remove_tags@[k as int]@, m0.id);
                assert(meta@.tags =~= m2.tags.difference(views_of(edit.remove_tags@).subrange(0, k + 1).to_set()));
            }
            k = k + 1;
        }
        proof {
            assert(views_of(edit.remove_tags@).subrange(0, nr as int) =~= views_of(edit.remove_tags@));
            assert(views_of(edit.remove_tags@).subrange(0, 0).to_set() =~= Set::<Seq<char>>::empty());
        }
        let result = meta.duplicate();
        self.metadata.set(i, meta);
        proof {
            lemma_meta_views_update(old(self).metadata@, i as int, self.metadata@[i as int]);
            assert(self@.metas[i as int] == edit_meta(old(self)@.metas[i as int], *edit, edit_url(*edit)));
        }
        Ok(result)
    }

    /// The metas that the descriptions in `ids` find, in that order; a
    /// description that finds none or several is skipped, and repeats are kept.
    pub fn get_list(&self, ids: &Vec<String>) -> (r: Vec<Meta>)
        ensures
            meta_views(r@) == list_view(self@.metas, views_of(ids@)),
    {
        let mut metas: Vec<Meta> = Vec::new();
        let n = ids.len();
        let mut i: usize = 0;
        proof {
            assert(views_of(ids@).subrange(0, 0) =~= Seq::<Seq<char>>::empty());
            assert(meta_views(metas@) =~= Seq::<MetaView>::empty());
        }
        while i < n
            invariant
                n == ids@.len(),
                i <= n,
                meta_views(metas@) == list_view(self@.metas, views_of(ids@).subrange(0, i as int)),
            decreases n - i,
        {
            let ghost before = metas@;
            let ghost d = views_of(ids@).subrange(0, i + 1);
            assert(d.drop_last() =~= views_of(ids@).subrange(0, i as int));
            assert(d.last() == ids@[i as int]@);
            match self.get(ids[i].as_str()) {
                Ok(m) => {
                    metas.push(m.duplicate());
                    proof {
                        assert(meta_views(metas@) =~= meta_views(before).push(m@));
                    }
                },
                Err(_) => {},
            }
            i = i + 1;
        }
        proof {
            assert(views_of(ids@).subrange(0, n as int) =~= views_of(ids@));
        }
        metas
    }

    /// The metas carrying at least one of `tags`, in ascending id order.
    pub fn get_union_tags(&self, tags: &Vec<String>) -> (r: Vec<Meta>)
        ensures
            meta_views(r@) == list_view(self@.metas, ascending(union_ids(self@.tags, views_of(tags@)))),
            crate::store_laws::index_exact(self@) ==> forall|k: int| 0 <= k < r@.len() ==>
                exists|q: int| 0 <= q < tags@.len() && (#[trigger] r@[k])@.tags.contains((#[trigger] tags@[q])@),
    {
        let mut ids = StrSet::new();
        let n = tags.len();
        let mut i: usize = 0;
        proof {
            assert(views_of(tags@).subrange(0, 0) =~= Seq::<Seq<char>>::empty());
        }
        while i < n
            invariant
                n == tags@.len(),
                i <= n,
                ids@ == union_ids(self@.tags, views_of(tags@).subrange(0, i as int)),
            decreases n - i,
        {
            let ghost d = views_of(tags@).subrange(0, i + 1);
            assert(d.drop_last() =~= views_of(tags@).subrange(0, i as int));
            assert(d.last() == tags@[i as int]@);
            if let Some(m) = self.tags.get(tags[i].as_str()) {
                ids.union_with(m);
            }
            i = i + 1;
        }
        proof {
            assert(views_of(tags@).subrange(0, n as int) =~= views_of(tags@));
            use_type_invariant(&ids);
            ids.lemma_wf();
        }
        let v = ids.to_vec();
        proof {
            lemma_ascending(ids.elems());
        }
        let r = self.get_list(&v);
        proof {
            if crate::store_laws::index_exact(self@) {
                assert forall|j: int| 0 <= j < views_of(v@).len()
                    implies union_ids(self@.tags, views_of(tags@)).contains(#[trigger] views_of(v@)[j]) by {
                    assert(ids.elems().to_set().contains(ids.elems()[j]));
                }
                crate::store_laws::law_union_carries_some_tag(self@, views_of(tags@), views_of(v@));
                assert forall|k: int| 0 <= k < r@.len() implies
                    exists|q: int| 0 <= q < tags@.len() && (#[trigger] r@[k])@.tags.contains((#[trigger] tags@[q])@) by {
                    assert(meta_views(r@)[k] == r@[k]@);
                    let q = choose|q: int| 0 <= q < views_of(tags@).len()
                        && (#[trigger] list_view(self@.metas, views_of(v@))[k]).tags.contains(#[trigger] views_of(tags@)[q]);
                    assert(views_of(tags@)[q] == tags@[q]@);
                }
            }
        }
        r
    }

    /// The metas carrying every one of `tags`, in ascending id order; none
    /// when some tag is carried by no meta, or when no tags are given.
    pub fn get_intersection_tags(&self, tags: &Vec<String>) -> (r: Vec<Meta>)
        ensures
            meta_views(r@) == list_view(self@.metas, ascending(inter_ids(self@.tags, views_of(tags@), tags@.len() as int))),
            crate::store_laws::index_exact(self@) ==> forall|k: int, q: int| 0 <= k < r@.len() && 0 <= q < tags@.len()
                ==> (#[trigger] r@[k])@.tags.contains((#[trigger] tags@[q])@),
    {
        let mut ids = StrSet::new();
        let n = tags.len();
        let mut i: usize = 0;
        while i < n
            invariant
                n == tags@.len(),
                i <= n,
                ids@ == inter_ids(self@.tags, views_of(tags@), i as int),
            decreases n - i,
        {
            let ghost t = views_of(tags@)[i as int];
            assert(t == tags@[i as int]@);
            match self.tags.get(tags[i].as_str()) {
                Some(m) => {
                    if i == 0 {
                        ids = m.duplicate();
                    } else {
                        ids = ids.intersect(m);
                    }
                },
                None => {
                    ids = StrSet::new();
                },
            }
            proof {
                if i > 0 && !self@.tags.contains_key(t) {
                    assert(ids@ =~= inter_ids(self@.tags, views_of(tags@), i as int).intersect(Set::<Seq<char>>::empty()));
                }
            }
            i = i + 1;
        }
        proof {
            use_type_invariant(&ids);
            ids.lemma_wf();
        }
        let v = ids.to_vec();
        proof {
            lemma_ascending(ids.elems());
        }
        let r = self.get_list(&v);
        proof {
            if crate::store_laws::index_exact(self@) {
                assert forall|j: int| 0 <= j < views_of(v@).len()
                    implies inter_ids(self@.tags, views_of(tags@), n as int).contains(#[trigger] views_of(v@)[j]) by {
                    assert(ids.elems().to_set().contains(ids.elems()[j]));
                }
                crate::store_laws::law_intersection_carries_tags(self@, views_of(tags@), views_of(v@));
                assert forall|k: int, q: int| 0 <= k < r@.len() && 0 <= q < tags@.len()
                    implies (#[trigger] r@[k])@.tags.contains((#[trigger] tags@[q])@) by {
                    assert(meta_views(r@)[k] == r@[k]@);
                    assert(views_of(tags@)[q] == tags@[q]@);
                }
            }
        }
        r
    }

    /// Merges `incoming` into the meta that `current_meta_id` finds: the id
    /// joins the sets of the tags that `incoming` adds, and the metas are
    /// merged at `now`.
    fn union_metas(&mut self, current_meta_id: &String, incoming: &Meta, now: Timestamp) -> (r: Result<(), Error>)
        ensures
            match r {
                Ok(()) => lookup(old(self)@.metas, current_meta_id@) matches Some(j)
                    && final(self)@ == union_step(old(self)@, j, current_meta_id@, incoming@, now),
                Err(e) => lookup(old(self)@.metas, current_meta_id@).is_none()
                    && find_outcome(old(self)@.metas, current_meta_id@, Err(e))
                    && final(self)@ == old(self)@,
            },
    {
        let j = match self.find_id(current_meta_id.as_str()) {
            Ok(j) => j,
            Err(e) => return Err(e),
        };
        let diff = incoming.tags.minus(&self.metadata[j].tags);
        proof { use_type_invariant(&diff); diff.lemma_wf(); }
        let new_tags = diff.to_vec();
        let ghost nt = incoming@.tags.difference(self@.metas[j as int].tags);
        assert(views_of(new_tags@).to_set() == nt);
        let n = new_tags.len();
        let mut k: usize = 0;
        proof {
            assert(views_of(new_tags@).subrange(0, 0).to_set() =~= Set::<Seq<char>>::empty());
            assert(add_id_to_tags(old(self).tags@, Set::<Seq<char>>::empty(), current_meta_id@) =~= old(self).tags@);
        }
        while k < n
            invariant
                n == new_tags@.len(),
                k <= n,
                self.metadata@ == old(self).metadata@,
                self.version == old(self).version,
                self.file == old(self).file,
                self.dirty == old(self).dirty,
                self.tags@ == add_id_to_tags(old(self).tags@, views_of(new_tags@).subrange(0, k as int).to_set(), current_meta_id@),
            decreases n - k,
        {
            self.tags.add_id(&new_tags[k], current_meta_id);
            proof {
                crate::text::lemma_prefix_to_set(views_of(new_tags@), k as int);
                lemma_add_id_step(old(self).tags@, views_of(new_tags@).subrange(0, k as int).to_set(), new_tags@[k as int]@, current_meta_id@);
            }
            k = k + 1;
        }
        proof {
            assert(views_of(new_tags@).subrange(0, n as int) =~= views_of(new_tags@));
        }
        let mut merged = self.metadata[j].duplicate();
        merged.union_at(incoming, now);
        self.metadata.set(j, merged);
        self.dirty = true;
        proof {
            lemma_meta_views_update(old(self).metadata@, j as int, self.metadata@[j as int]);
        }
        Ok(())
    }

    /// Imports every meta of `fs`, in order: one whose link no meta here has is
    /// appended, else it is merged into the first meta with that link. Stops at
    /// the first merge whose target id does not find exactly one meta. Each
    /// merge is stamped with the time read from the clock when it is made.
    pub fn import(&mut self, fs: FileStore) -> (r: Result<(), Error>)
        ensures
            exists|nows: Seq<Timestamp>| #![trigger import_fold(old(self)@, fs@.metas, nows, fs@.metas.len() as int)]
                nows.len() == fs@.metas.len() && (forall|k: int| 0 <= k < nows.len() ==> is_clock_reading(#[trigger] nows[k])) && {
                let (f, ok) = import_fold(old(self)@, fs@.metas, nows, fs@.metas.len() as int);
                &&& final(self)@ == f
                &&& (r is Ok <==> ok)
            },
    {
        let n = fs.metadata.len();
        let ghost ms = fs@.metas;
        let ghost mut nows: Seq<Timestamp> = Seq::empty();
        let mut i: usize = 0;
        while i < n
            invariant
                n == ms.len(),
                ms == fs@.metas,
                i <= n,
                nows.len() == i,
                forall|k: int| 0 <= k < nows.len() ==> is_clock_reading(#[trigger] nows[k]),
                import_fold(old(self)@, ms, nows, i as int) == (self@, true),
            decreases n - i,
        {
            let meta = &fs.metadata[i];
            let ghost mv = meta@;
            assert(mv == ms[i as int]);
            // the first meta with the same link
            let len = self.metadata.len();
            let mut k: usize = 0;
            let mut found = false;
            while k < len && !found
                invariant
                    len == self@.metas.len(),
                    mv == meta@,
                    k <= len,
                    !found ==> url_match(self@.metas, mv.url, k as int).is_none(),
                    found ==> k < len && url_match(self@.metas, mv.url, (k + 1) as int) == Some(k as int),
                decreases (len - k) as int + (if found { 0int } else { 1int }),
            {
                assert(self@.metas[k as int] == self.metadata@[k as int]@);
                if same_opt_text(&meta.url, &self.metadata[k].url) {
                    found = true;
                } else {
                    k = k + 1;
                }
            }
            proof {
                lemma_url_match_stable(self@.metas, mv.url, if found { k + 1 } else { k as int }, len as int);
            }
            let t = now();
            let ghost pre = self@;
            proof {
                let nn = nows.push(t);
                assert(nn.subrange(0, i as int) =~= nows);
                lemma_import_fold_prefix(old(self)@, ms, nows, nn, i as int);
            }
            if !found {
                self.push(meta.duplicate());
                proof { nows = nows.push(t); }
            } else {
                let id = self.metadata[k].id.clone();
                match self.union_metas(&id, meta, t) {
                    Ok(()) => {
                        proof { nows = nows.push(t); }
                    },
                    Err(e) => {
                        proof {
                            let nn = nows.push(t);
                            let full = nn + Seq::new((n - i - 1) as nat, |x: int| t);
                            lemma_import_fold_extend(old(self)@, ms, nn, full, (i + 1) as int);
                            lemma_import_fold_stops(old(self)@, ms, full, (i + 1) as int, n as int);
                            assert(full.len() == n);
                        }
                        return Err(e);
                    },
                }
            }
            i = i + 1;
        }
        Ok(())
    }

    /// A store read back from its parts, clean, with `file` as its path.
    pub fn from_parts(version: String, metadata: Vec<Meta>, tags: TagMap, file: String) -> (r: FileStore)
        ensures
            r@ == (FileStoreView {
                version: version@,
                metas: meta_views(metadata@),
                file: file@,
                dirty: false,
                tags: tags@,
            }),
    {
        FileStore { version, metadata, file, dirty: false, tags }
    }

    /// Sets the path the store is written to.
    pub fn set_file(&mut self, file: String)
        ensures
            final(self)@ == (FileStoreView { file: file@, ..old(self)@ }),
    {
        self.file = file;
    }

    /// Records that the store has been written out: it is clean again.
    pub fn mark_clean(&mut self)
        ensures
            final(self)@ == (FileStoreView { dirty: false, ..old(self)@ }),
    {
        self.dirty = false;
    }
}

} // verus!
