//! A set of strings kept in ascending order, the way a `BTreeSet<String>`
//! holds and yields them.

use vstd::prelude::*;
use crate::text::{compare_text, lemma_sorted_no_duplicates, lemma_text_lt_asymmetric, lemma_text_lt_irreflexive, lemma_text_lt_total, lemma_text_lt_transitive, same_text, sorted_texts, text_lt, views_of, lemma_prefix_to_set, Order};

verus! {

/// A set of strings, stored strictly ascending in `text_lt`.
#[derive(Debug, PartialEq, Eq)]
pub struct StrSet {
    items: Vec<String>,
}

impl StrSet {
    /// The members, in the order they are stored (ascending).
    pub closed spec fn elems(&self) -> Seq<Seq<char>> {
        views_of(self.items@)
    }

    /// The members as a set.
    pub closed spec fn view(&self) -> Set<Seq<char>> {
        self.elems().to_set()
    }

    /// Well-formed: strictly ascending. Every value of the type is.
    #[verifier::type_invariant]
    pub closed spec fn wf(&self) -> bool {
        sorted_texts(self.elems())
    }

    /// What a well-formed set promises about its order and size.
    pub proof fn lemma_wf(&self)
        requires
            self.wf(),
        ensures
            sorted_texts(self.elems()),
            self.elems().no_duplicates(),
            self.view() == self.elems().to_set(),
            self.view().finite(),
            self.view().len() == self.elems().len(),
    {
        lemma_sorted_no_duplicates(self.elems());
        self.elems().unique_seq_to_set();
    }

    /// An empty set.
    pub fn new() -> (r: StrSet)
        ensures
            r.elems() == Seq::<Seq<char>>::empty(),
            r.view() == Set::<Seq<char>>::empty(),
    {
        let r = StrSet { items: Vec::new() };
        assert(r.elems() =~= Seq::<Seq<char>>::empty());
        assert(r.view() =~= Set::<Seq<char>>::empty());
        r
    }

    pub fn len(&self) -> (n: usize)
        ensures
            n == self.elems().len(),
    {
        proof { use_type_invariant(self); }
        self.items.len()
    }

    pub fn is_empty(&self) -> (b: bool)
        ensures
            b == (self.elems().len() == 0),
    {
        proof { use_type_invariant(self); }
        self.items.len() == 0
    }

    /// The member at position `i` in ascending order.
    pub fn get(&self, i: usize) -> (s: &String)
        requires
            i < self.elems().len(),
        ensures
            s@ == self.elems()[i as int],
    {
        proof { use_type_invariant(self); }
        &self.items[i]
    }

    /// The first position whose member is not below `s`, and whether it equals `s`.
    fn locate(&self, s: &str) -> (r: (usize, bool))
        ensures
            r.0 <= self.elems().len(),
            forall|j: int| 0 <= j < r.0 ==> text_lt(#[trigger] self.elems()[j], s@),
            forall|j: int| r.0 <= j < self.elems().len() ==> !text_lt(#[trigger] self.elems()[j], s@),
            r.1 == (r.0 < self.elems().len() && self.elems()[r.0 as int] == s@),
            r.1 == self.view().contains(s@),
            !r.1 ==> forall|j: int| r.0 <= j < self.elems().len() ==> text_lt(s@, #[trigger] self.elems()[j]),
    {
        proof { use_type_invariant(self); }
        let n = self.items.len();
        let mut i: usize = 0;
        let mut stop = false;
        while i < n && !stop
            invariant
                n == self.elems().len(),
                self.wf(),
                i <= n,
                forall|j: int| 0 <= j < i ==> text_lt(#[trigger] self.elems()[j], s@),
                stop ==> i < n && !text_lt(self.elems()[i as int], s@),
            decreases (n - i) as int + (if stop { 0int } else { 1int }),
        {
            match compare_text(self.items[i].as_str(), s) {
                Order::Less => {
                    i = i + 1;
                },
                _ => {
                    stop = true;
                },
            }
        }
        proof {
            assert forall|j: int| i <= j < self.elems().len() implies !text_lt(#[trigger] self.elems()[j], s@) by {
                if j > i && text_lt(self.elems()[j], s@) {
                    assert(text_lt(self.elems()[i as int], self.elems()[j]));
                    lemma_text_lt_transitive(self.elems()[i as int], self.elems()[j], s@);
                }
            }
        }
        let found = i < n && same_text(self.items[i].as_str(), s);
        proof {
            if !found {
                assert forall|j: int| i <= j < self.elems().len() implies text_lt(s@, #[trigger] self.elems()[j]) by {
                    lemma_text_lt_total(s@, self.elems()[j]);
                    if s@ == self.elems()[j] && j > i {
                        assert(text_lt(self.elems()[i as int], self.elems()[j]));
                        lemma_text_lt_total(s@, self.elems()[i as int]);
                        if s@ != self.elems()[i as int] {
                            lemma_text_lt_asymmetric(self.elems()[i as int], s@);
                        }
                    }
                }
            }
            if self.view().contains(s@) {
                let k = choose|k: int| 0 <= k < self.elems().len() && self.elems()[k] == s@;
                lemma_text_lt_irreflexive(s@);
                if !found {
                    assert(k >= i);
                }
            }
            if found {
                assert(self.elems()[i as int] == s@);
                assert(self.elems().contains(s@));
            }
        }
        (i, found)
    }

    /// Whether `s` is a member.
    pub fn contains(&self, s: &str) -> (b: bool)
        ensures
            b == self.view().contains(s@),
    {
        proof { use_type_invariant(self); }
        let (_, found) = self.locate(s);
        found
    }

    /// Adds `s`; returns whether it was absent before.
    pub fn insert(&mut self, s: String) -> (added: bool)
        ensures
            final(self).view() == old(self).view().insert(s@),
            added == !old(self).view().contains(s@),
    {
        proof { use_type_invariant(&*self); }
        let (i, found) = self.locate(s.as_str());
        if found {
            proof {
                assert(self.view() =~= self.view().insert(s@));
            }
            return false;
        }
        let ghost old_elems = self.elems();
        let ghost sv = s@;
        let mut items: Vec<String> = Vec::new();
        std::mem::swap(&mut items, &mut self.items);
        items.insert(i, s);
        proof {
            assert(views_of(items@) =~= old_elems.insert(i as int, sv));
            assert forall|a: int, b: int| 0 <= a < b < views_of(items@).len() implies text_lt(
                #[trigger] views_of(items@)[a],
                #[trigger] views_of(items@)[b],
            ) by {
                if a < i && b == i {
                } else if a < i && b > i {
                    assert(views_of(items@)[b] == old_elems[b - 1]);
                } else if a == i {
                    assert(views_of(items@)[b] == old_elems[b - 1]);
                } else if a > i {
                    assert(views_of(items@)[a] == old_elems[a - 1]);
                    assert(views_of(items@)[b] == old_elems[b - 1]);
                }
            }
            assert forall|x: Seq<char>| views_of(items@).to_set().contains(x) <==> old_elems.to_set().insert(sv).contains(x) by {
                if views_of(items@).to_set().contains(x) {
                    let k = choose|k: int| 0 <= k < views_of(items@).len() && views_of(items@)[k] == x;
                    if k < i {
                        assert(old_elems[k] == x);
                    } else if k > i {
                        assert(old_elems[k - 1] == x);
                    }
                }
                if old_elems.to_set().contains(x) {
                    let k = choose|k: int| 0 <= k < old_elems.len() && old_elems[k] == x;
                    if k < i {
                        assert(views_of(items@)[k] == x);
                    } else {
                        assert(views_of(items@)[k + 1] == x);
                    }
                }
                if x == sv {
                    assert(views_of(items@)[i as int] == x);
                }
            }
            assert(views_of(items@).to_set() =~= old_elems.to_set().insert(sv));
        }
        self.items = items;
        true
    }

    /// Removes `s`; returns whether it was present.
    pub fn remove(&mut self, s: &str) -> (removed: bool)
        ensures
            final(self).view() == old(self).view().remove(s@),
            removed == old(self).view().contains(s@),
    {
        proof { use_type_invariant(&*self); }
        let (i, found) = self.locate(s);
        if !found {
            proof {
                assert(self.view() =~= self.view().remove(s@));
            }
            return false;
        }
        let ghost old_elems = self.elems();
        proof { self.lemma_wf(); }
        let mut items: Vec<String> = Vec::new();
        std::mem::swap(&mut items, &mut self.items);
        items.remove(i);
        proof {
            assert(views_of(items@) =~= old_elems.remove(i as int));
            assert forall|a: int, b: int| 0 <= a < b < views_of(items@).len() implies text_lt(
                #[trigger] views_of(items@)[a],
                #[trigger] views_of(items@)[b],
            ) by {
                if a < i && b >= i {
                    assert(views_of(items@)[b] == old_elems[b + 1]);
                } else if a >= i {
                    assert(views_of(items@)[a] == old_elems[a + 1]);
                    assert(views_of(items@)[b] == old_elems[b + 1]);
                }
            }
            assert forall|x: Seq<char>| views_of(items@).to_set().contains(x) <==> old_elems.to_set().remove(s@).contains(x) by {
                if views_of(items@).to_set().contains(x) {
                    let k = choose|k: int| 0 <= k < views_of(items@).len() && views_of(items@)[k] == x;
                    if k < i {
                        assert(old_elems[k] == x);
                    } else {
                        assert(old_elems[k + 1] == x);
                    }
                    assert(x != s@);
                }
                if old_elems.to_set().remove(s@).contains(x) {
                    let k = choose|k: int| 0 <= k < old_elems.len() && old_elems[k] == x;
                    if k < i {
                        assert(views_of(items@)[k] == x);
                    } else {
                        assert(k != i);
                        assert(views_of(items@)[k - 1] == x);
                    }
                }
            }
            assert(views_of(items@).to_set() =~= old_elems.to_set().remove(s@));
        }
        self.items = items;
        true
    }

    /// A copy with the same members in the same order.
    pub fn duplicate(&self) -> (r: StrSet)
        ensures
            r.elems() == self.elems(),
            r.view() == self.view(),
    {
        proof { use_type_invariant(self); }
        let mut items: Vec<String> = Vec::new();
        let n = self.items.len();
        let mut i: usize = 0;
        while i < n
            invariant
                n == self.items@.len(),
                i <= n,
                items@.len() == i,
                forall|j: int| 0 <= j < i ==> (#[trigger] items@[j])@ == self.items@[j]@,
            decreases n - i,
        {
            items.push(self.items[i].clone());
            i = i + 1;
        }
        assert(views_of(items@) =~= self.elems());
        let r = StrSet { items };
        r
    }

    /// Adds every member of `other`.
    pub fn union_with(&mut self, other: &StrSet)
        ensures
            final(self).view() == old(self).view().union(other.view()),
    {
        proof { use_type_invariant(&*self); }
        let n = other.items.len();
        let mut i: usize = 0;
        while i < n
            invariant
                n == other.elems().len(),
                i <= n,
                self.view() == old(self).view().union(other.elems().subrange(0, i as int).to_set()),
            decreases n - i,
        {
            let ghost before = self.view();
            self.insert(other.items[i].clone());
            proof {
                lemma_prefix_to_set(other.elems(), i as int);
                assert(self.view() =~= old(self).view().union(other.elems().subrange(0, i + 1).to_set()));
            }
            i = i + 1;
        }
        proof {
            assert(other.elems().subrange(0, n as int) =~= other.elems());
        }
    }

    /// The members also in `other`, ascending.
    pub fn intersect(&self, other: &StrSet) -> (r: StrSet)
        ensures
            r.view() == self.view().intersect(other.view()),
    {
        proof { use_type_invariant(self); }
        self.filter_by(other, true)
    }

    /// The members not in `other`, ascending.
    pub fn minus(&self, other: &StrSet) -> (r: StrSet)
        ensures
            r.view() == self.view().difference(other.view()),
    {
        proof { use_type_invariant(self); }
        self.filter_by(other, false)
    }

    /// The members whose membership in `other` is `keep_common`.
    fn filter_by(&self, other: &StrSet, keep_common: bool) -> (r: StrSet)
        ensures
            r.view() == self.view().filter(|x: Seq<char>| other.view().contains(x) == keep_common),
    {
        proof { use_type_invariant(self); use_type_invariant(other); }
        let mut items: Vec<String> = Vec::new();
        let n = self.items.len();
        let mut i: usize = 0;
        let ghost pick = |x: Seq<char>| other.view().contains(x) == keep_common;
        while i < n
            invariant
                n == self.elems().len(),
                i <= n,
                self.wf(),
                other.wf(),
                pick == (|x: Seq<char>| other.view().contains(x) == keep_common),
                sorted_texts(views_of(items@)),
                forall|k: int| 0 <= k < items@.len() ==> exists|j: int| 0 <= j < i && (#[trigger] items@[k])@ == #[trigger] self.elems()[j],
                views_of(items@).to_set() == self.elems().subrange(0, i as int).to_set().filter(pick),
            decreases n - i,
        {
            let keep = other.contains(self.items[i].as_str()) == keep_common;
            let ghost before = views_of(items@);
            let ghost x = self.elems()[i as int];
            if keep {
                items.push(self.items[i].clone());
                proof {
                    assert(views_of(items@) =~= before.push(x));
                    assert forall|a: int, b: int| 0 <= a < b < items@.len() implies text_lt(
                        #[trigger] views_of(items@)[a],
                        #[trigger] views_of(items@)[b],
                    ) by {
                        if b == items@.len() - 1 {
                            let j = choose|j: int| 0 <= j < i && (#[trigger] items@[a])@ == #[trigger] self.elems()[j];
                            assert(text_lt(self.elems()[j], self.elems()[i as int]));
                        } else {
                            assert(before[a] == views_of(items@)[a]);
                            assert(before[b] == views_of(items@)[b]);
                        }
                    }
                    assert forall|k: int| 0 <= k < items@.len() implies exists|j: int| 0 <= j < i + 1 && (#[trigger] items@[k])@ == #[trigger] self.elems()[j] by {
                        if k == items@.len() - 1 {
                            assert(items@[k]@ == self.elems()[i as int]);
                        } else {
                            let j = choose|j: int| 0 <= j < i && (#[trigger] items@[k])@ == #[trigger] self.elems()[j];
                            assert(items@[k]@ == self.elems()[j]);
                        }
                    }
                }
            }
            proof {
                lemma_prefix_to_set(self.elems(), i as int);
                let prev = self.elems().subrange(0, i as int).to_set();
                assert(keep == pick(x));
                if keep {
                    before.lemma_push_to_set_commute(x);
                    assert(views_of(items@).to_set() == before.to_set().insert(x));
                } else {
                    assert(views_of(items@) == before);
                }
                assert forall|y: Seq<char>| views_of(items@).to_set().contains(y) <==> #[trigger] prev.insert(x).filter(pick).contains(y) by {
                    if y != x {
                        assert(prev.insert(x).filter(pick).contains(y) == prev.filter(pick).contains(y));
                    }
                }
                assert(views_of(items@).to_set() =~= self.elems().subrange(0, i + 1).to_set().filter(pick));
            }
            i = i + 1;
        }
        proof {
            assert(self.elems().subrange(0, n as int) =~= self.elems());
        }
        let r = StrSet { items };
        proof {
            assert(r.view() =~= self.view().filter(|x: Seq<char>| other.view().contains(x) == keep_common));
        }
        r
    }

    /// The members as a vector, ascending.
    pub fn to_vec(&self) -> (v: Vec<String>)
        ensures
            views_of(v@) == self.elems(),
    {
        proof { use_type_invariant(self); }
        let r = self.duplicate();
        r.items
    }

    /// A set of the strings in `v`.
    pub fn from_vec(v: Vec<String>) -> (r: StrSet)
        ensures
            r.view() == views_of(v@).to_set(),
    {
        let mut r = StrSet::new();
        let n = v.len();
        let mut i: usize = 0;
        while i < n
            invariant
                n == v@.len(),
                i <= n,
                    r.view() == views_of(v@).subrange(0, i as int).to_set(),
            decreases n - i,
        {
            r.insert(v[i].clone());
            proof {
                let w = views_of(v@);
                lemma_prefix_to_set(w, i as int);
            }
            i = i + 1;
        }
        proof {
            assert(views_of(v@).subrange(0, n as int) =~= views_of(v@));
        }
        r
    }
}

} // verus!
