//! An index from tag to the set of ids that carry it, kept in ascending tag
//! order the way a `BTreeMap<String, BTreeSet<String>>` keeps it.

use vstd::prelude::*;
use crate::strset::StrSet;
use crate::text::{
    compare_text, lemma_sorted_no_duplicates, lemma_text_lt_asymmetric, lemma_text_lt_irreflexive,
    lemma_text_lt_total, lemma_text_lt_transitive, same_text, sorted_texts, text_lt, Order,
};

verus! {

/// One tag with the ids that carry it.
#[derive(Debug, PartialEq, Eq)]
pub struct TagEntry {
    pub tag: String,
    pub ids: StrSet,
}

/// Tag -> ids, ascending by tag.
#[derive(Debug, PartialEq, Eq)]
pub struct TagMap {
    entries: Vec<TagEntry>,
}

/// The tags of a sequence of entries.
pub open spec fn tags_of(e: Seq<TagEntry>) -> Seq<Seq<char>> {
    e.map_values(|x: TagEntry| x.tag@)
}

/// `s` with `id` added, or `{id}` when there is no set yet.
pub open spec fn with_id(s: Option<Set<Seq<char>>>, id: Seq<char>) -> Set<Seq<char>> {
    match s {
        Some(s) => s.insert(id),
        None => Set::empty().insert(id),
    }
}

/// The map after `add_id`.
pub open spec fn map_add_id(
    m: Map<Seq<char>, Set<Seq<char>>>,
    tag: Seq<char>,
    id: Seq<char>,
) -> Map<Seq<char>, Set<Seq<char>>> {
    m.insert(tag, with_id(if m.contains_key(tag) { Some(m[tag]) } else { None }, id))
}

/// The map after `remove_id`.
pub open spec fn map_remove_id(
    m: Map<Seq<char>, Set<Seq<char>>>,
    tag: Seq<char>,
    id: Seq<char>,
) -> Map<Seq<char>, Set<Seq<char>>> {
    if m.contains_key(tag) {
        m.insert(tag, m[tag].remove(id))
    } else {
        m
    }
}

spec fn index_in(e: Seq<TagEntry>, k: Seq<char>) -> int {
    choose|i: int| 0 <= i < e.len() && e[i].tag@ == k
}

/// Entries read as a map from tag to ids.
spec fn entries_view(e: Seq<TagEntry>) -> Map<Seq<char>, Set<Seq<char>>> {
    Map::new(|k: Seq<char>| tags_of(e).contains(k), |k: Seq<char>| e[index_in(e, k)].ids.view())
}

proof fn lemma_entries_view_at(e: Seq<TagEntry>, i: int)
    requires
        sorted_texts(tags_of(e)),
        0 <= i < e.len(),
    ensures
        entries_view(e).contains_key(e[i].tag@),
        entries_view(e)[e[i].tag@] == e[i].ids.view(),
{
    let k = e[i].tag@;
    assert(tags_of(e)[i] == k);
    assert(tags_of(e).contains(k));
    let j = index_in(e, k);
    lemma_sorted_no_duplicates(tags_of(e));
    assert(tags_of(e)[j] == k);
}

impl TagMap {
    /// The tags, ascending.
    pub closed spec fn keys(&self) -> Seq<Seq<char>> {
        tags_of(self.entries@)
    }

    /// The index as a map from tag to ids.
    pub closed spec fn view(&self) -> Map<Seq<char>, Set<Seq<char>>> {
        entries_view(self.entries@)
    }

    /// Well-formed: tags strictly ascending. Every value of the type is.
    #[verifier::type_invariant]
    pub closed spec fn wf(&self) -> bool {
        sorted_texts(self.keys())
    }

    proof fn lemma_view_at(&self, i: int)
        requires
            self.wf(),
            0 <= i < self.entries@.len(),
        ensures
            self.view().contains_key(self.entries@[i].tag@),
            self.view()[self.entries@[i].tag@] == self.entries@[i].ids.view(),
    {
        lemma_entries_view_at(self.entries@, i);
    }

    /// The number of tags.
    pub fn len(&self) -> (n: usize)
        ensures
            n == self.keys().len(),
    {
        proof { use_type_invariant(self); }
        self.entries.len()
    }

    /// The tag at position `i`, ascending.
    pub fn tag_at(&self, i: usize) -> (t: &String)
        requires
            i < self.keys().len(),
        ensures
            t@ == self.keys()[i as int],
    {
        proof { use_type_invariant(self); }
        &self.entries[i].tag
    }

    /// The ids of the tag at position `i`.
    pub fn ids_at(&self, i: usize) -> (s: &StrSet)
        requires
            i < self.keys().len(),
        ensures
            self.view().contains_key(self.keys()[i as int]),
            s.view() == self.view()[self.keys()[i as int]],
    {
        proof { use_type_invariant(self); }
        proof { self.lemma_view_at(i as int); }
        &self.entries[i].ids
    }

    /// An empty index.
    pub fn new() -> (r: TagMap)
        ensures
            r.view() == Map::<Seq<char>, Set<Seq<char>>>::empty(),
    {
        let r = TagMap { entries: Vec::new() };
        assert(r.keys() =~= Seq::<Seq<char>>::empty());
        assert(r.view() =~= Map::<Seq<char>, Set<Seq<char>>>::empty());
        r
    }

    /// The first position whose tag is not below `tag`, and whether it is `tag`.
    fn locate(&self, tag: &str) -> (r: (usize, bool))
        ensures
            r.0 <= self.keys().len(),
            forall|j: int| 0 <= j < r.0 ==> text_lt(#[trigger] self.keys()[j], tag@),
            r.1 == (r.0 < self.keys().len() && self.keys()[r.0 as int] == tag@),
            r.1 == self.view().contains_key(tag@),
            !r.1 ==> forall|j: int| r.0 <= j < self.keys().len() ==> text_lt(tag@, #[trigger] self.keys()[j]),
    {
        proof { use_type_invariant(self); }
        let n = self.entries.len();
        let mut i: usize = 0;
        let mut stop = false;
        while i < n && !stop
            invariant
                n == self.keys().len(),
                self.wf(),
                i <= n,
                forall|j: int| 0 <= j < i ==> text_lt(#[trigger] self.keys()[j], tag@),
                stop ==> i < n && !text_lt(self.keys()[i as int], tag@),
            decreases (n - i) as int + (if stop { 0int } else { 1int }),
        {
            match compare_text(self.entries[i].tag.as_str(), tag) {
                Order::Less => {
                    i = i + 1;
                },
                _ => {
                    stop = true;
                },
            }
        }
        let found = i < n && same_text(self.entries[i].tag.as_str(), tag);
        proof {
            if !found {
                assert forall|j: int| i <= j < self.keys().len() implies text_lt(tag@, #[trigger] self.keys()[j]) by {
                    lemma_text_lt_total(tag@, self.keys()[j]);
                    if !text_lt(tag@, self.keys()[j]) {
                        // keys()[j] <= tag
                        if j > i {
                            assert(text_lt(self.keys()[i as int], self.keys()[j]));
                            if self.keys()[j] == tag@ {
                                lemma_text_lt_total(tag@, self.keys()[i as int]);
                                if self.keys()[i as int] != tag@ {
                                    lemma_text_lt_asymmetric(self.keys()[i as int], tag@);
                                }
                            } else {
                                lemma_text_lt_transitive(self.keys()[i as int], self.keys()[j], tag@);
                            }
                        } else {
                            if self.keys()[j] != tag@ {
                                assert(j == i);
                            }
                        }
                    }
                }
            }
            if self.view().contains_key(tag@) {
                let k = choose|k: int| 0 <= k < self.keys().len() && self.keys()[k] == tag@;
                lemma_text_lt_irreflexive(tag@);
                if !found {
                    assert(k >= i);
                }
            }
            if found {
                assert(self.keys()[i as int] == tag@);
                assert(self.keys().contains(tag@));
            }
        }
        (i, found)
    }

    /// The ids carrying `tag`, if the tag is present.
    pub fn get(&self, tag: &str) -> (r: Option<&StrSet>)
        ensures
            r.is_some() == self.view().contains_key(tag@),
            r matches Some(s) ==> s.view() == self.view()[tag@],
    {
        proof { use_type_invariant(self); }
        let (i, found) = self.locate(tag);
        if found {
            proof { self.lemma_view_at(i as int); }
            Some(&self.entries[i].ids)
        } else {
            None
        }
    }

    /// Records that `id` carries `tag`, creating the tag when it is new.
    pub fn add_id(&mut self, tag: &String, id: &String)
        ensures
            final(self).view() == map_add_id(old(self).view(), tag@, id@),
    {
        proof { use_type_invariant(&*self); }
        let (i, found) = self.locate(tag.as_str());
        let ghost old_entries = self.entries@;
        let ghost old_view = self.view();
        if found {
            let mut ids = self.entries[i].ids.duplicate();
            ids.insert(id.clone());
            let entry = TagEntry { tag: self.entries[i].tag.clone(), ids };
            proof { self.lemma_view_at(i as int); }
            let mut entries: Vec<TagEntry> = Vec::new();
            std::mem::swap(&mut entries, &mut self.entries);
            entries.set(i, entry);
            proof {
                assert(tags_of(entries@) =~= tags_of(old_entries));
                assert forall|k: Seq<char>| #[trigger] entries_view(entries@).contains_key(k) <==> map_add_id(old_view, tag@, id@).contains_key(k) by {}
                assert forall|k: Seq<char>| #[trigger] entries_view(entries@).contains_key(k) implies entries_view(entries@)[k] == map_add_id(old_view, tag@, id@)[k] by {
                    let j = choose|j: int| 0 <= j < tags_of(entries@).len() && tags_of(entries@)[j] == k;
                    lemma_entries_view_at(entries@, j);
                    if j != i {
                        assert(entries@[j] == old_entries[j]);
                        assert(old_entries[j].tag@ == k);
                        lemma_sorted_no_duplicates(tags_of(old_entries));
                        assert(tags_of(old_entries)[i as int] == tag@);
                        assert(tags_of(old_entries)[j] == k);
                        assert(k != tag@);
                        old(self).lemma_view_at(j);
                    }
                }
                assert(entries_view(entries@) =~= map_add_id(old_view, tag@, id@));
            }
            self.entries = entries;

        } else {
            let mut ids = StrSet::new();
            ids.insert(id.clone());
            let entry = TagEntry { tag: tag.clone(), ids };
            let mut entries: Vec<TagEntry> = Vec::new();
            std::mem::swap(&mut entries, &mut self.entries);
            entries.insert(i, entry);
            proof {
                assert(tags_of(entries@) =~= tags_of(old_entries).insert(i as int, tag@));
                assert forall|a: int, b: int| 0 <= a < b < tags_of(entries@).len() implies text_lt(
                    #[trigger] tags_of(entries@)[a],
                    #[trigger] tags_of(entries@)[b],
                ) by {
                    let ok = tags_of(old_entries);
                    if a < i && b == i {
                    } else if a < i && b > i {
                        assert(tags_of(entries@)[b] == ok[b - 1]);
                    } else if a == i {
                        assert(tags_of(entries@)[b] == ok[b - 1]);
                    } else if a > i {
                        assert(tags_of(entries@)[a] == ok[a - 1]);
                        assert(tags_of(entries@)[b] == ok[b - 1]);
                    }
                }
                assert forall|k: Seq<char>| #[trigger] entries_view(entries@).contains_key(k) <==> map_add_id(old_view, tag@, id@).contains_key(k) by {
                    if tags_of(entries@).contains(k) {
                        let j = choose|j: int| 0 <= j < tags_of(entries@).len() && tags_of(entries@)[j] == k;
                        if j < i {
                            assert(tags_of(old_entries)[j] == k);
                        } else if j > i {
                            assert(tags_of(old_entries)[j - 1] == k);
                        }
                    }
                    if tags_of(old_entries).contains(k) {
                        let j = choose|j: int| 0 <= j < tags_of(old_entries).len() && tags_of(old_entries)[j] == k;
                        if j < i {
                            assert(tags_of(entries@)[j] == k);
                        } else {
                            assert(tags_of(entries@)[j + 1] == k);
                        }
                    }
                    if k == tag@ {
                        assert(tags_of(entries@)[i as int] == k);
                    }
                }
                assert forall|k: Seq<char>| #[trigger] entries_view(entries@).contains_key(k) implies entries_view(entries@)[k] == map_add_id(old_view, tag@, id@)[k] by {
                    let j = choose|j: int| 0 <= j < tags_of(entries@).len() && tags_of(entries@)[j] == k;
                    lemma_entries_view_at(entries@, j);
                    if j < i {
                        assert(entries@[j] == old_entries[j]);
                        old(self).lemma_view_at(j);
                    } else if j > i {
                        assert(entries@[j] == old_entries[j - 1]);
                        old(self).lemma_view_at(j - 1);
                    } else {
                        assert(entries_view(entries@)[k] =~= Set::empty().insert(id@));
                    }
                }
                assert(entries_view(entries@) =~= map_add_id(old_view, tag@, id@));
            }
            self.entries = entries;

        }
    }

    /// Records that `id` no longer carries `tag`; the tag stays even when its set empties.
    pub fn remove_id(&mut self, tag: &str, id: &str)
        ensures
            final(self).view() == map_remove_id(old(self).view(), tag@, id@),
    {
        proof { use_type_invariant(&*self); }
        let (i, found) = self.locate(tag);
        if !found {
            return;
        }
        let ghost old_entries = self.entries@;
        let ghost old_view = self.view();
        let mut ids = self.entries[i].ids.duplicate();
        ids.remove(id);
        let entry = TagEntry { tag: self.entries[i].tag.clone(), ids };
        proof { self.lemma_view_at(i as int); }
        let mut entries: Vec<TagEntry> = Vec::new();
        std::mem::swap(&mut entries, &mut self.entries);
        entries.set(i, entry);
        proof {
            assert(tags_of(entries@) =~= tags_of(old_entries));
            assert forall|k: Seq<char>| #[trigger] entries_view(entries@).contains_key(k) <==> map_remove_id(old_view, tag@, id@).contains_key(k) by {}
            assert forall|k: Seq<char>| #[trigger] entries_view(entries@).contains_key(k) implies entries_view(entries@)[k] == map_remove_id(old_view, tag@, id@)[k] by {
                let j = choose|j: int| 0 <= j < tags_of(entries@).len() && tags_of(entries@)[j] == k;
                lemma_entries_view_at(entries@, j);
                if j != i {
                    assert(entries@[j] == old_entries[j]);
                    lemma_sorted_no_duplicates(tags_of(old_entries));
                    assert(tags_of(old_entries)[i as int] == tag@);
                    assert(tags_of(old_entries)[j] == k);
                    old(self).lemma_view_at(j);
                }
            }
            assert(entries_view(entries@) =~= map_remove_id(old_view, tag@, id@));
        }
        self.entries = entries;

    }

    /// Sets the ids of `tag` to `ids`, replacing any earlier set.
    pub fn put(&mut self, tag: String, ids: StrSet)
        ensures
            final(self).view() == old(self).view().insert(tag@, ids.view()),
    {
        proof { use_type_invariant(&*self); }
        let (i, found) = self.locate(tag.as_str());
        let ghost old_entries = self.entries@;
        let ghost old_view = self.view();
        let ghost tv = tag@;
        let ghost iv = ids.view();
        let entry = TagEntry { tag, ids };
        if found {
            let mut entries: Vec<TagEntry> = Vec::new();
            std::mem::swap(&mut entries, &mut self.entries);
            entries.set(i, entry);
            proof {
                assert(tags_of(entries@) =~= tags_of(old_entries).update(i as int, tv));
                assert(tags_of(old_entries)[i as int] == tv);
                assert(tags_of(entries@) =~= tags_of(old_entries));
                assert forall|k: Seq<char>| #[trigger] entries_view(entries@).contains_key(k) <==> old_view.insert(tv, iv).contains_key(k) by {}
                assert forall|k: Seq<char>| #[trigger] entries_view(entries@).contains_key(k) implies entries_view(entries@)[k] == old_view.insert(tv, iv)[k] by {
                    let j = choose|j: int| 0 <= j < tags_of(entries@).len() && tags_of(entries@)[j] == k;
                    lemma_entries_view_at(entries@, j);
                    if j != i {
                        assert(entries@[j] == old_entries[j]);
                        lemma_sorted_no_duplicates(tags_of(old_entries));
                        assert(tags_of(old_entries)[j] == k);
                        old(self).lemma_view_at(j);
                    }
                }
                assert(entries_view(entries@) =~= old_view.insert(tv, iv));
            }
            self.entries = entries;

        } else {
            let mut entries: Vec<TagEntry> = Vec::new();
            std::mem::swap(&mut entries, &mut self.entries);
            entries.insert(i, entry);
            proof {
                assert(tags_of(entries@) =~= tags_of(old_entries).insert(i as int, tv));
                assert forall|a: int, b: int| 0 <= a < b < tags_of(entries@).len() implies text_lt(
                    #[trigger] tags_of(entries@)[a],
                    #[trigger] tags_of(entries@)[b],
                ) by {
                    let ok = tags_of(old_entries);
                    if a < i && b == i {
                    } else if a < i && b > i {
                        assert(tags_of(entries@)[b] == ok[b - 1]);
                    } else if a == i {
                        assert(tags_of(entries@)[b] == ok[b - 1]);
                    } else if a > i {
                        assert(tags_of(entries@)[a] == ok[a - 1]);
                        assert(tags_of(entries@)[b] == ok[b - 1]);
                    }
                }
                assert forall|k: Seq<char>| #[trigger] entries_view(entries@).contains_key(k) <==> old_view.insert(tv, iv).contains_key(k) by {
                    if tags_of(entries@).contains(k) {
                        let j = choose|j: int| 0 <= j < tags_of(entries@).len() && tags_of(entries@)[j] == k;
                        if j < i {
                            assert(tags_of(old_entries)[j] == k);
                        } else if j > i {
                            assert(tags_of(old_entries)[j - 1] == k);
                        }
                    }
                    if tags_of(old_entries).contains(k) {
                        let j = choose|j: int| 0 <= j < tags_of(old_entries).len() && tags_of(old_entries)[j] == k;
                        if j < i {
                            assert(tags_of(entries@)[j] == k);
                        } else {
                            assert(tags_of(entries@)[j + 1] == k);
                        }
                    }
                    if k == tv {
                        assert(tags_of(entries@)[i as int] == k);
                    }
                }
                assert forall|k: Seq<char>| #[trigger] entries_view(entries@).contains_key(k) implies entries_view(entries@)[k] == old_view.insert(tv, iv)[k] by {
                    let j = choose|j: int| 0 <= j < tags_of(entries@).len() && tags_of(entries@)[j] == k;
                    lemma_entries_view_at(entries@, j);
                    if j < i {
                        assert(entries@[j] == old_entries[j]);
                        old(self).lemma_view_at(j);
                    } else if j > i {
                        assert(entries@[j] == old_entries[j - 1]);
                        old(self).lemma_view_at(j - 1);
                    }
                }
                assert(entries_view(entries@) =~= old_view.insert(tv, iv));
            }
            self.entries = entries;

        }
    }

    /// A copy holding the same index.
    pub fn duplicate(&self) -> (r: TagMap)
        ensures
            r.view() == self.view(),
            r.keys() == self.keys(),
    {
        proof { use_type_invariant(self); }
        let mut entries: Vec<TagEntry> = Vec::new();
        let n = self.entries.len();
        let mut i: usize = 0;
        while i < n
            invariant
                n == self.entries@.len(),
                i <= n,
                self.wf(),
                entries@.len() == i,
                forall|j: int| 0 <= j < i ==> (#[trigger] entries@[j]).tag@ == self.entries@[j].tag@
                    && entries@[j].ids.view() == self.entries@[j].ids.view(),
            decreases n - i,
        {
            let e = TagEntry { tag: self.entries[i].tag.clone(), ids: self.entries[i].ids.duplicate() };
            entries.push(e);
            i = i + 1;
        }
        assert(tags_of(entries@) =~= self.keys());
        let r = TagMap { entries };
        proof {
            assert(r.keys() =~= self.keys());
            assert forall|k: Seq<char>| #[trigger] r.view().contains_key(k) implies r.view()[k] == self.view()[k] by {
                let j = choose|j: int| 0 <= j < r.keys().len() && r.keys()[j] == k;
                r.lemma_view_at(j);
                self.lemma_view_at(j);
            }
            assert(r.view() =~= self.view());
        }
        r
    }
}

} // verus!
