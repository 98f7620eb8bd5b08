//! The store of offline copies: for each item, where its downloaded copy is
//! and how the download went.

use vstd::prelude::*;
use crate::error::Error;
use crate::meta::{copy_opt, opt_text};
use crate::request::Edit;
use crate::text::{compare_text, is_prefix, same_text, starts_with, text_lt, Order};
use crate::web::{parse_url, parsed_url, url_parse_result, UrlError};

verus! {

/// How the download of an item's copy stands.
#[derive(Debug, PartialEq, Eq)]
pub enum Status {
    Ready,
    Downloading,
    Error(String),
}

/// The abstract value of a `Status`.
pub enum StatusView {
    Ready,
    Downloading,
    Error(Seq<char>),
}

impl View for Status {
    type V = StatusView;

    open spec fn view(&self) -> StatusView {
        match self {
            Status::Ready => StatusView::Ready,
            Status::Downloading => StatusView::Downloading,
            Status::Error(m) => StatusView::Error(m@),
        }
    }
}

impl Status {
    /// Whether the download failed.
    pub fn is_error(&self) -> (r: bool)
        ensures
            r == (self@ is Error),
    {
        match self {
            Status::Error(_) => true,
            _ => false,
        }
    }

    /// Whether the copy is ready.
    pub fn is_ready(&self) -> (r: bool)
        ensures
            r == (self@ is Ready),
    {
        match self {
            Status::Ready => true,
            _ => false,
        }
    }

    /// A download in progress, the status a new entry starts with.
    pub fn default() -> (r: Status)
        ensures
            r@ is Downloading,
    {
        Status::Downloading
    }

    /// A copy with the same value.
    pub fn duplicate(&self) -> (r: Status)
        ensures
            r@ == self@,
    {
        match self {
            Status::Ready => Status::Ready,
            Status::Downloading => Status::Downloading,
            Status::Error(m) => Status::Error(m.clone()),
        }
    }
}

/// The abstract value of an `OfflineData`.
pub struct OfflineDataView {
    pub id: Seq<char>,
    pub name: Option<Seq<char>>,
    pub url: Option<Seq<char>>,
    pub file: Option<Seq<char>>,
    pub status: StatusView,
}

/// The offline copy of one item: its id and name, its link, the path of the
/// downloaded file once there is one, and the download status.
#[derive(Debug, PartialEq, Eq)]
pub struct OfflineData {
    pub id: String,
    pub name: Option<String>,
    /// The link, as `url::Url` serializes it.
    pub url: Option<String>,
    pub file: Option<String>,
    pub status: Status,
}

impl View for OfflineData {
    type V = OfflineDataView;

    open spec fn view(&self) -> OfflineDataView {
        OfflineDataView {
            id: self.id@,
            name: opt_text(self.name),
            url: opt_text(self.url),
            file: opt_text(self.file),
            status: self.status@,
        }
    }
}

impl OfflineData {
    pub fn id(&self) -> (r: &str)
        ensures
            r@ == self.id@,
    {
        self.id.as_str()
    }

    pub fn name(&self) -> (r: Option<&str>)
        ensures
            match r {
                Some(n) => self.name.is_some() && n@ == self.name.unwrap()@,
                None => self.name.is_none(),
            },
    {
        match &self.name {
            Some(n) => Some(n.as_str()),
            None => None,
        }
    }

    pub fn file(&self) -> (r: Option<&str>)
        ensures
            match r {
                Some(f) => self.file.is_some() && f@ == self.file.unwrap()@,
                None => self.file.is_none(),
            },
    {
        match &self.file {
            Some(f) => Some(f.as_str()),
            None => None,
        }
    }

    /// A copy with the same value.
    pub fn duplicate(&self) -> (r: OfflineData)
        ensures
            r@ == self@,
    {
        OfflineData {
            id: self.id.clone(),
            name: copy_opt(&self.name),
            url: copy_opt(&self.url),
            file: copy_opt(&self.file),
            status: self.status.duplicate(),
        }
    }
}

/// The views of a sequence of entries.
pub open spec fn data_views(v: Seq<OfflineData>) -> Seq<OfflineDataView> {
    v.map_values(|d: OfflineData| d@)
}

/// `d` describes the entry: it begins its id or its name.
pub open spec fn describes_data(d: Seq<char>, o: OfflineDataView) -> bool {
    is_prefix(d, o.id) || (o.name matches Some(n) && is_prefix(d, n))
}

/// The positions among the first `n` entries that `d` describes, ascending.
pub open spec fn data_matching(data: Seq<OfflineDataView>, d: Seq<char>, n: int) -> Seq<int>
    decreases n,
{
    if n <= 0 {
        Seq::empty()
    } else if describes_data(d, data[n - 1]) {
        data_matching(data, d, n - 1).push(n - 1)
    } else {
        data_matching(data, d, n - 1)
    }
}

/// The one position `d` describes, if exactly one.
pub open spec fn data_lookup(data: Seq<OfflineDataView>, d: Seq<char>) -> Option<int> {
    let ms = data_matching(data, d, data.len() as int);
    if ms.len() == 1 {
        Some(ms[0])
    } else {
        None
    }
}

/// What looking `d` up among `data` gives: the position, or the error.
pub open spec fn data_find_outcome(data: Seq<OfflineDataView>, d: Seq<char>, r: Result<usize, Error>) -> bool {
    let ms = data_matching(data, d, data.len() as int);
    match r {
        Ok(i) => data_lookup(data, d) == Some(i as int),
        Err(Error::IdNotFound(x)) => x@ == d && ms.len() == 0,
        Err(Error::TooManyIds(x, ids)) => x@ == d && ms.len() > 1 && ids@.map_values(|k: usize| k as int) == ms,
        Err(_) => false,
    }
}

pub proof fn lemma_data_matching_bounds(data: Seq<OfflineDataView>, d: Seq<char>, n: int)
    requires
        0 <= n <= data.len(),
    ensures
        forall|k: int| 0 <= k < data_matching(data, d, n).len() ==> 0 <= #[trigger] data_matching(data, d, n)[k] < n,
        forall|k: int| 0 <= k < data_matching(data, d, n).len() ==> describes_data(d, data[#[trigger] data_matching(data, d, n)[k]]),
    decreases n,
{
    if n > 0 {
        lemma_data_matching_bounds(data, d, n - 1);
        let prev = data_matching(data, d, n - 1);
        assert forall|k: int| 0 <= k < data_matching(data, d, n).len() implies 0 <= #[trigger] data_matching(data, d, n)[k] < n
            && describes_data(d, data[data_matching(data, d, n)[k]]) by {
            if k < prev.len() {
                assert(data_matching(data, d, n)[k] == prev[k]);
            }
        }
    }
}

/// The position before the first entry whose id is above `k`.
pub open spec fn first_above(r: Seq<OfflineDataView>, k: Seq<char>) -> int
    decreases r.len(),
{
    if r.len() == 0 {
        0
    } else if text_lt(k, r[0].id) {
        0
    } else {
        1 + first_above(r.drop_first(), k)
    }
}

/// `s` sorted by id, entries with equal ids kept in their order (a stable sort).
pub open spec fn sorted_by_id(s: Seq<OfflineDataView>) -> Seq<OfflineDataView>
    decreases s.len(),
{
    if s.len() == 0 {
        s
    } else {
        let r = sorted_by_id(s.drop_last());
        r.insert(first_above(r, s.last().id), s.last())
    }
}

pub(crate) proof fn lemma_first_above_bounds(r: Seq<OfflineDataView>, k: Seq<char>)
    ensures
        0 <= first_above(r, k) <= r.len(),
    decreases r.len(),
{
    if r.len() > 0 {
        lemma_first_above_bounds(r.drop_first(), k);
    }
}

pub(crate) proof fn lemma_sorted_by_id_len(s: Seq<OfflineDataView>)
    ensures
        sorted_by_id(s).len() == s.len(),
    decreases s.len(),
{
    if s.len() > 0 {
        lemma_sorted_by_id_len(s.drop_last());
        lemma_first_above_bounds(sorted_by_id(s.drop_last()), s.last().id);
    }
}

/// The abstract value of an `OfflineStore`.
pub struct OfflineStoreView {
    pub data: Seq<OfflineDataView>,
    pub file: Seq<char>,
    pub dirty: bool,
}

/// The status an entry gets when its link is changed.
pub open spec fn url_changed_status() -> StatusView {
    StatusView::Error("Url Changed, new download required"@)
}

/// An entry after an edit: a new link (and a status asking for a new
/// download) and a new name where the edit gives them.
pub open spec fn edit_data(o: OfflineDataView, e: Edit, url: Option<Seq<char>>) -> OfflineDataView {
    OfflineDataView {
        url: if e.url.is_some() { url } else { o.url },
        status: if e.url.is_some() { url_changed_status() } else { o.status },
        name: if e.name.is_some() { opt_text(e.name) } else { o.name },
        ..o
    }
}

/// The entries of the offline store, with the folder they live in.
#[derive(Debug)]
pub struct OfflineStore {
    data: Vec<OfflineData>,
    pub file: String,
    dirty: bool,
}

impl View for OfflineStore {
    type V = OfflineStoreView;

    closed spec fn view(&self) -> OfflineStoreView {
        OfflineStoreView { data: data_views(self.data@), file: self.file@, dirty: self.dirty }
    }
}

pub proof fn lemma_data_views_update(v: Seq<OfflineData>, i: int, x: OfflineData)
    requires
        0 <= i < v.len(),
    ensures
        data_views(v.update(i, x)) == data_views(v).update(i, x@),
{
    assert(data_views(v.update(i, x)) =~= data_views(v).update(i, x@));
}

/// Whether `d` describes `o`.
pub fn describes_entry(d: &str, o: &OfflineData) -> (r: bool)
    ensures
        r == describes_data(d@, o@),
{
    if starts_with(o.id.as_str(), d) {
        return true;
    }
    match &o.name {
        Some(n) => starts_with(n.as_str(), d),
        None => false,
    }
}

impl OfflineStore {
    /// An empty, clean store with no folder.
    pub fn new() -> (r: OfflineStore)
        ensures
            r@.data == Seq::<OfflineDataView>::empty(),
            r@.file == Seq::<char>::empty(),
            !r@.dirty,
    {
        let r = OfflineStore { data: Vec::new(), file: String::new(), dirty: false };
        assert(data_views(r.data@) =~= Seq::<OfflineDataView>::empty());
        r
    }

    pub fn file(&self) -> (r: &str)
        ensures
            r@ == self@.file,
    {
        self.file.as_str()
    }

    pub fn data(&self) -> (r: &[OfflineData])
        ensures
            data_views(r@) == self@.data,
    {
        self.data.as_slice()
    }

    pub fn is_dirty(&self) -> (r: bool)
        ensures
            r == self@.dirty,
    {
        self.dirty
    }

    /// The position of the one entry that `description` describes.
    fn find_id(&self, description: &str) -> (r: Result<usize, Error>)
        ensures
            data_find_outcome(self@.data, description@, r),
            r matches Ok(i) ==> i < self@.data.len(),
    {
        let n = self.data.len();
        let ghost data = self@.data;
        let mut ids: Vec<usize> = Vec::new();
        let mut i: usize = 0;
        while i < n
            invariant
                n == data.len(),
                data == self@.data,
                i <= n,
                ids@.map_values(|x: usize| x as int) == data_matching(data, description@, i as int),
            decreases n - i,
        {
            let ghost before = ids@;
            if describes_entry(description, &self.data[i]) {
                ids.push(i);
                proof {
                    assert(ids@.map_values(|x: usize| x as int) =~= before.map_values(|x: usize| x as int).push(i as int));
                }
            }
            i = i + 1;
        }
        proof {
            lemma_data_matching_bounds(data, description@, n as int);
        }
        let ghost ms = data_matching(data, description@, n as int);
        assert(ids@.len() == ms.len());
        if ids.len() > 1 {
            return Err(Error::TooManyIds(description.to_string(), ids));
        } else if ids.len() == 0 {
            return Err(Error::IdNotFound(description.to_string()));
        }
        assert(ids@[0] as int == ms[0]);
        Ok(ids[0])
    }

    /// The entry that `description` describes.
    pub fn get(&self, description: &str) -> (r: Result<&OfflineData, Error>)
        ensures
            match r {
                Ok(o) => data_lookup(self@.data, description@) matches Some(i) && o@ == self@.data[i],
                Err(e) => data_find_outcome(self@.data, description@, Err(e)),
            },
    {
        match self.find_id(description) {
            Ok(i) => Ok(&self.data[i]),
            Err(e) => Err(e),
        }
    }

    /// The entry that `description` describes, to change in place; marks the store dirty.
    pub fn get_mut(&mut self, description: &str) -> (r: Result<&mut OfflineData, Error>)
        ensures
            match r {
                Ok(o) => data_lookup(old(self)@.data, description@) matches Some(i)
                    && o@ == old(self)@.data[i]
                    && final(self)@ == (OfflineStoreView {
                        data: old(self)@.data.update(i, final(o)@),
                        dirty: true,
                        ..old(self)@
                    }),
                Err(e) => data_find_outcome(old(self)@.data, description@, Err(e))
                    && final(self)@ == old(self)@,
            },
    {
        match self.find_id(description) {
            Ok(i) => {
                self.dirty = true;
                let o = &mut self.data[i];
                proof {
                    lemma_data_views_update(old(self).data@, i as int, *final(o));
                }
                Ok(o)
            },
            Err(e) => Err(e),
        }
    }

    /// Adds `data` unless its id already finds an entry; marks the store dirty.
    fn push(&mut self, data: OfflineData)
        ensures
            final(self)@ == (OfflineStoreView {
                data: if data_lookup(old(self)@.data, data@.id).is_some() {
                    old(self)@.data
                } else {
                    old(self)@.data.push(data@)
                },
                dirty: true,
                ..old(self)@
            }),
    {
        self.dirty = true;
        let known = self.get(data.id.as_str()).is_ok();
        if !known {
            let ghost dv = data@;
            self.data.push(data);
            proof {
                assert(data_views(self.data@) =~= data_views(old(self).data@).push(dv));
            }
        }
    }

    /// Replaces the entry that `id` finds with `data`, or adds `data` when `id`
    /// finds none or several; `data`'s id must be `id`.
    pub fn update(&mut self, id: &str, data: OfflineData) -> (r: Result<(), Error>)
        ensures
            id@ != data.id@ ==> (r matches Err(Error::UnequalIds) && final(self)@ == old(self)@),
            id@ == data.id@ ==> r is Ok && final(self)@ == (OfflineStoreView {
                data: match data_lookup(old(self)@.data, id@) {
                    Some(i) => old(self)@.data.update(i, data@),
                    None => old(self)@.data.push(data@),
                },
                dirty: true,
                ..old(self)@
            }),
    {
        if !same_text(id, data.id.as_str()) {
            return Err(Error::UnequalIds);
        }
        match self.find_id(id) {
            Ok(i) => {
                self.data.set(i, data);
                proof {
                    lemma_data_views_update(old(self).data@, i as int, self.data@[i as int]);
                }
            },
            Err(_) => {
                self.push(data);
            },
        }
        self.dirty = true;
        Ok(())
    }

    /// Applies the link and name of `edit` to the entry that `description`
    /// describes and returns it. A new link also sets the status asking for a
    /// new download. The store is marked dirty once the entry is found.
    pub fn edit(&mut self, description: &str, edit: &Edit) -> (r: Result<OfflineData, Error>)
        ensures
            match r {
                Ok(o) => data_lookup(old(self)@.data, description@) matches Some(i)
                    && (edit.url matches Some(u) ==> url_parse_result(u@) is Ok)
                    && final(self)@ == (OfflineStoreView {
                        data: old(self)@.data.update(i, edit_data(old(self)@.data[i], *edit, match edit.url {
                            Some(u) => parsed_url(u@),
                            None => None,
                        })),
                        dirty: true,
                        ..old(self)@
                    })
                    && o@ == final(self)@.data[i],
                Err(Error::UrlParse(er)) => data_lookup(old(self)@.data, description@).is_some()
                    && (edit.url matches Some(u) && url_parse_result(u@) == Err::<Seq<char>, UrlError>(er))
                    && final(self)@ == (OfflineStoreView { dirty: true, ..old(self)@ }),
                Err(e) => data_find_outcome(old(self)@.data, description@, Err(e)) && final(self)@ == old(self)@,
            },
    {
        let i = match self.find_id(description) {
            Ok(i) => i,
            Err(e) => return Err(e),
        };
        self.dirty = true;
        let mut entry = self.data[i].duplicate();
        if let Some(u) = &edit.url {
            match parse_url(u.as_str()) {
                Ok(parsed) => {
                    entry.url = Some(parsed);
                    entry.status = Status::Error("Url Changed, new download required".to_string());
                    proof { reveal_strlit("Url Changed, new download required"); }
                },
                Err(e) => {
                    return Err(Error::UrlParse(e));
                },
            }
        }
        if let Some(n) = &edit.name {
            entry.name = Some(n.clone());
        }
        let result = entry.duplicate();
        self.data.set(i, entry);
        proof {
            lemma_data_views_update(old(self).data@, i as int, self.data@[i as int]);
        }
        Ok(result)
    }

    /// Removes the entry that `description` describes (the last entry takes
    /// its place) and returns it; removing its file is left to the caller.
    pub fn delete(&mut self, description: &str) -> (r: Result<OfflineData, Error>)
        ensures
            match r {
                Ok(o) => data_lookup(old(self)@.data, description@) matches Some(i)
                    && o@ == old(self)@.data[i]
                    && final(self)@ == (OfflineStoreView {
                        data: old(self)@.data.update(i, old(self)@.data.last()).drop_last(),
                        dirty: true,
                        ..old(self)@
                    }),
                Err(e) => data_find_outcome(old(self)@.data, description@, Err(e)) && final(self)@ == old(self)@,
            },
    {
        let i = match self.find_id(description) {
            Ok(i) => i,
            Err(e) => return Err(e),
        };
        self.dirty = true;
        let removed = self.data.swap_remove(i);
        proof {
            assert(data_views(self.data@) =~= data_views(old(self).data@).update(i as int, data_views(old(self).data@).last()).drop_last());
        }
        Ok(removed)
    }

    /// Records that the store has been written out: it is clean again.
    pub fn mark_clean(&mut self)
        ensures
            final(self)@ == (OfflineStoreView { dirty: false, ..old(self)@ }),
    {
        self.dirty = false;
    }

    /// A store read back from its entries, sorted by id (entries with equal ids
    /// kept in their order), clean, living in folder `file`.
    pub fn from_parts(data: Vec<OfflineData>, file: String) -> (r: OfflineStore)
        ensures
            r@ == (OfflineStoreView { data: sorted_by_id(data_views(data@)), file: file@, dirty: false }),
    {
        let ghost input = data_views(data@);
        let mut sorted: Vec<OfflineData> = Vec::new();
        let n = data.len();
        let mut i: usize = 0;
        proof {
            assert(input.subrange(0, 0) =~= Seq::<OfflineDataView>::empty());
            assert(data_views(sorted@) =~= Seq::<OfflineDataView>::empty());
        }
        while i < n
            invariant
                n == data@.len(),
                input == data_views(data@),
                i <= n,
                data_views(sorted@) == sorted_by_id(input.subrange(0, i as int)),
            decreases n - i,
        {
            let item = data[i].duplicate();
            let ghost r = data_views(sorted@);
            let ghost k = item@.id;
            let m = sorted.len();
            let mut j: usize = 0;
            let mut stop = false;
            proof {
                assert(r.skip(0) =~= r);
            }
            while j < m && !stop
                invariant
                    m == sorted@.len(),
                    r == data_views(sorted@),
                    k == item@.id,
                    j <= m,
                    first_above(r, k) == j + first_above(r.skip(j as int), k),
                    stop ==> j < m && text_lt(k, r[j as int].id),
                decreases (m - j) as int + (if stop { 0int } else { 1int }),
            {
                match compare_text(item.id.as_str(), sorted[j].id.as_str()) {
                    Order::Less => {
                        stop = true;
                    },
                    _ => {
                        proof {
                            assert(r.skip(j as int).drop_first() =~= r.skip(j + 1));
                            assert(r.skip(j as int)[0] == r[j as int]);
                        }
                        j = j + 1;
                    },
                }
            }
            proof {
                if stop {
                    assert(r.skip(j as int)[0] == r[j as int]);
                } else {
                    assert(r.skip(j as int).len() == 0);
                }
                assert(first_above(r, k) == j);
                let s1 = input.subrange(0, i + 1);
                assert(s1.drop_last() =~= input.subrange(0, i as int));
                assert(s1.last() == input[i as int]);
            }
            let ghost iv = item@;
            sorted.insert(j, item);
            proof {
                assert(data_views(sorted@) =~= r.insert(j as int, iv));
            }
            i = i + 1;
        }
        proof {
            assert(input.subrange(0, n as int) =~= input);
        }
        OfflineStore { data: sorted, file, dirty: false }
    }
}

} // verus!
