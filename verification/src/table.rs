//! A table from string keys to values, kept as a vector of entries whose
//! keys are pairwise distinct. It stands in for a hash map; its abstract
//! content is a `Map` from key views to value views. The entry order is
//! exposed through `seq_view` for the one caller whose output depends on it
//! (the dinner listing); it carries no meaning beyond that.

use vstd::prelude::*;

verus! {

pub struct Table<V> {
    pub entries: Vec<(String, V)>,
}

/// The views of a sequence of (key, value) entries.
pub open spec fn pair_views<V: View>(s: Seq<(String, V)>) -> Seq<(Seq<char>, V::V)> {
    s.map_values(|e: (String, V)| (e.0@, e.1@))
}

/// The keys of a sequence of (key, value) pairs are pairwise distinct.
pub open spec fn distinct_keys<T>(s: Seq<(Seq<char>, T)>) -> bool {
    forall|i: int, j: int| 0 <= i < j < s.len() ==> s[i].0 != s[j].0
}

/// The map that results from inserting the pairs of `s` in order into an
/// empty map; a later pair with the same key wins.
pub open spec fn fold_insert<T>(s: Seq<(Seq<char>, T)>) -> Map<Seq<char>, T>
    decreases s.len(),
{
    if s.len() == 0 {
        Map::empty()
    } else {
        fold_insert(s.drop_last()).insert(s.last().0, s.last().1)
    }
}

pub proof fn lemma_distinct_drop_last<T>(s: Seq<(Seq<char>, T)>)
    requires
        distinct_keys(s),
        s.len() > 0,
    ensures
        distinct_keys(s.drop_last()),
{
    assert forall|i: int, j: int| 0 <= i < j < s.drop_last().len() implies s.drop_last()[i].0
        != s.drop_last()[j].0 by {
        assert(s[i].0 != s[j].0);
    }
}

/// A key is in the folded map exactly when some entry carries it.
pub proof fn lemma_fold_insert_dom<T>(s: Seq<(Seq<char>, T)>, k: Seq<char>)
    ensures
        fold_insert(s).dom().contains(k) <==> exists|i: int| 0 <= i < s.len() && s[i].0 == k,
    decreases s.len(),
{
    if s.len() > 0 {
        lemma_fold_insert_dom(s.drop_last(), k);
        if k == s.last().0 {
            assert(s[s.len() - 1].0 == k);
        } else {
            if exists|i: int| 0 <= i < s.len() && s[i].0 == k {
                let i = choose|i: int| 0 <= i < s.len() && s[i].0 == k;
                assert(i < s.len() - 1);
                assert(s.drop_last()[i].0 == k);
            }
        }
    }
}

/// With distinct keys, the folded map sends each entry's key to its value.
pub proof fn lemma_fold_insert_at<T>(s: Seq<(Seq<char>, T)>, i: int)
    requires
        distinct_keys(s),
        0 <= i < s.len(),
    ensures
        fold_insert(s).dom().contains(s[i].0),
        fold_insert(s)[s[i].0] == s[i].1,
    decreases s.len(),
{
    if i < s.len() - 1 {
        lemma_distinct_drop_last(s);
        lemma_fold_insert_at(s.drop_last(), i);
        assert(s.drop_last()[i] == s[i]);
        assert(s[i].0 != s.last().0);
    }
}

/// Appending a pair folds to inserting it.
pub proof fn lemma_fold_insert_push<T>(s: Seq<(Seq<char>, T)>, p: (Seq<char>, T))
    ensures
        fold_insert(s.push(p)) == fold_insert(s).insert(p.0, p.1),
{
    assert(s.push(p).drop_last() =~= s);
    assert(s.push(p).last() == p);
}

/// Replacing the entry at `i` by one with the same key folds to inserting
/// the new value for that key.
pub proof fn lemma_fold_insert_update<T>(s: Seq<(Seq<char>, T)>, i: int, p: (Seq<char>, T))
    requires
        distinct_keys(s),
        0 <= i < s.len(),
        p.0 == s[i].0,
    ensures
        distinct_keys(s.update(i, p)),
        fold_insert(s.update(i, p)) == fold_insert(s).insert(p.0, p.1),
    decreases s.len(),
{
    let t = s.update(i, p);
    assert forall|x: int, y: int| 0 <= x < y < t.len() implies t[x].0 != t[y].0 by {
        assert(s[x].0 != s[y].0);
    }
    lemma_distinct_drop_last(s);
    if i == s.len() - 1 {
        assert(t.drop_last() =~= s.drop_last());
        assert(t.last() == p);
        assert(fold_insert(s.drop_last()).insert(s.last().0, s.last().1).insert(p.0, p.1)
            =~= fold_insert(s.drop_last()).insert(p.0, p.1));
    } else {
        assert(t.drop_last() =~= s.drop_last().update(i, p));
        assert(t.last() == s.last());
        lemma_fold_insert_update(s.drop_last(), i, p);
        assert(p.0 != s.last().0);
        assert(fold_insert(s.drop_last()).insert(p.0, p.1).insert(s.last().0, s.last().1)
            =~= fold_insert(s.drop_last()).insert(s.last().0, s.last().1).insert(p.0, p.1));
    }
}

/// Removing the entry at `i` folds to removing its key.
pub proof fn lemma_fold_insert_remove<T>(s: Seq<(Seq<char>, T)>, i: int)
    requires
        distinct_keys(s),
        0 <= i < s.len(),
    ensures
        distinct_keys(s.remove(i)),
        fold_insert(s.remove(i)) == fold_insert(s).remove(s[i].0),
    decreases s.len(),
{
    let t = s.remove(i);
    s.remove_ensures(i);
    assert forall|x: int, y: int| 0 <= x < y < t.len() implies t[x].0 != t[y].0 by {
        let sx: int = if x < i {
            x
        } else {
            x + 1
        };
        let sy: int = if y < i {
            y
        } else {
            y + 1
        };
        assert(t[x] == s[sx]);
        assert(t[y] == s[sy]);
        assert(s[sx].0 != s[sy].0);
    }
    lemma_distinct_drop_last(s);
    if i == s.len() - 1 {
        assert(t =~= s.drop_last());
        lemma_fold_insert_dom(s.drop_last(), s[i].0);
        assert(!fold_insert(s.drop_last()).dom().contains(s[i].0)) by {
            if exists|j: int| 0 <= j < s.drop_last().len() && s.drop_last()[j].0 == s[i].0 {
                let j = choose|j: int|
                    0 <= j < s.drop_last().len() && s.drop_last()[j].0 == s[i].0;
                assert(s[j].0 == s[i].0);
            }
        }
        assert(fold_insert(s.drop_last()).insert(s[i].0, s[i].1).remove(s[i].0) =~= fold_insert(
            s.drop_last(),
        ));
    } else {
        assert(t.drop_last() =~= s.drop_last().remove(i));
        assert(t.last() == s.last());
        lemma_fold_insert_remove(s.drop_last(), i);
        assert(s.drop_last()[i] == s[i]);
        assert(s[i].0 != s.last().0);
        assert(fold_insert(s.drop_last()).remove(s[i].0).insert(s.last().0, s.last().1)
            =~= fold_insert(s.drop_last()).insert(s.last().0, s.last().1).remove(s[i].0));
    }
}

impl<V: View> Table<V> {
    /// The entries in their stored order, as views.
    pub open spec fn seq_view(&self) -> Seq<(Seq<char>, V::V)> {
        pair_views(self.entries@)
    }

    /// Representation invariant: pairwise-distinct keys.
    pub open spec fn inv(&self) -> bool {
        distinct_keys(self.seq_view())
    }

    pub fn new() -> (r: Self)
        ensures
            r.inv(),
            r@ == Map::<Seq<char>, V::V>::empty(),
            r.seq_view() == Seq::<(Seq<char>, V::V)>::empty(),
    {
        let r = Table { entries: Vec::new() };
        proof {
            assert(r.seq_view() =~= Seq::<(Seq<char>, V::V)>::empty());
        }
        r
    }

    pub fn len(&self) -> (n: usize)
        ensures
            n == self.seq_view().len(),
    {
        self.entries.len()
    }

    /// The entry at position `i` of the stored order.
    pub fn at(&self, i: usize) -> (e: &(String, V))
        requires
            i < self.seq_view().len(),
        ensures
            e.0@ == self.seq_view()[i as int].0,
            e.1@ == self.seq_view()[i as int].1,
    {
        &self.entries[i]
    }

    fn index_of(&self, key: &String) -> (r: Option<usize>)
        ensures
            match r {
                Some(i) => i < self.seq_view().len() && self.seq_view()[i as int].0 == key@,
                None => forall|j: int|
                    0 <= j < self.seq_view().len() ==> self.seq_view()[j].0 != key@,
            },
    {
        let n = self.entries.len();
        let mut i: usize = 0;
        while i < n
            invariant
                n == self.entries@.len(),
                i <= n,
                forall|j: int| 0 <= j < i ==> self.seq_view()[j].0 != key@,
            decreases n - i,
        {
            let e = &self.entries[i];
            if e.0 == *key {
                return Some(i);
            }
            i += 1;
        }
        None
    }

    pub fn contains(&self, key: &String) -> (r: bool)
        requires
            self.inv(),
        ensures
            r == self@.dom().contains(key@),
    {
        proof {
            lemma_fold_insert_dom(self.seq_view(), key@);
        }
        self.index_of(key).is_some()
    }

    pub fn get<'a>(&'a self, key: &String) -> (r: Option<&'a V>)
        requires
            self.inv(),
        ensures
            match r {
                Some(v) => self@.dom().contains(key@) && v@ == self@[key@],
                None => !self@.dom().contains(key@),
            },
    {
        proof {
            lemma_fold_insert_dom(self.seq_view(), key@);
        }
        match self.index_of(key) {
            Some(i) => {
                proof {
                    lemma_fold_insert_at(self.seq_view(), i as int);
                }
                Some(&self.entries[i].1)
            },
            None => None,
        }
    }

    /// Insert, replacing in place any entry with the same key; a fresh key
    /// goes to the end of the stored order.
    pub fn insert(&mut self, key: String, value: V)
        requires
            old(self).inv(),
        ensures
            final(self).inv(),
            final(self)@ == old(self)@.insert(key@, value@),
            final(self).seq_view().len() >= old(self).seq_view().len(),
            !old(self)@.dom().contains(key@) ==> final(self).seq_view() == old(
                self,
            ).seq_view().push((key@, value@)),
    {
        let ghost sv = self.seq_view();
        proof {
            lemma_fold_insert_dom(sv, key@);
        }
        match self.index_of(&key) {
            Some(i) => {
                proof {
                    lemma_fold_insert_update(sv, i as int, (key@, value@));
                }
                let _ = self.entries.remove(i);
                self.entries.insert(i, (key, value));
                proof {
                    assert(self.seq_view() =~= sv.update(i as int, (key@, value@)));
                }
            },
            None => {
                self.entries.push((key, value));
                proof {
                    assert(self.seq_view() =~= sv.push((key@, value@)));
                    lemma_fold_insert_push(sv, (key@, value@));
                    assert forall|x: int, y: int|
                        0 <= x < y < self.seq_view().len() implies self.seq_view()[x].0
                        != self.seq_view()[y].0 by {
                        if y < sv.len() {
                            assert(sv[x].0 != sv[y].0);
                        } else {
                            assert(sv[x].0 != key@);
                        }
                    }
                }
            },
        }
    }

    /// Remove the entry with the given key, if there is one.
    pub fn remove(&mut self, key: &String) -> (r: Option<V>)
        requires
            old(self).inv(),
        ensures
            final(self).inv(),
            final(self)@ == old(self)@.remove(key@),
            match r {
                Some(v) => old(self)@.dom().contains(key@) && v@ == old(self)@[key@],
                None => !old(self)@.dom().contains(key@) && *final(self) == *old(self),
            },
    {
        let ghost sv = self.seq_view();
        proof {
            lemma_fold_insert_dom(sv, key@);
        }
        match self.index_of(key) {
            Some(i) => {
                proof {
                    lemma_fold_insert_at(sv, i as int);
                    lemma_fold_insert_remove(sv, i as int);
                }
                let e = self.entries.remove(i);
                proof {
                    assert(self.seq_view() =~= sv.remove(i as int));
                }
                Some(e.1)
            },
            None => {
                proof {
                    assert(old(self)@.remove(key@) =~= old(self)@);
                }
                None
            },
        }
    }

    /// Replace the value at position `i`, keeping its key.
    pub fn set_at(&mut self, i: usize, value: V)
        requires
            old(self).inv(),
            i < old(self).seq_view().len(),
        ensures
            final(self).inv(),
            final(self).seq_view() == old(self).seq_view().update(
                i as int,
                (old(self).seq_view()[i as int].0, value@),
            ),
            final(self)@ == old(self)@.insert(old(self).seq_view()[i as int].0, value@),
    {
        let ghost sv = self.seq_view();
        let key = self.entries[i].0.clone();
        proof {
            lemma_fold_insert_update(sv, i as int, (key@, value@));
        }
        let _ = self.entries.remove(i);
        self.entries.insert(i, (key, value));
        proof {
            assert(self.seq_view() =~= sv.update(i as int, (key@, value@)));
        }
    }

    /// Build a table by inserting the given entries in order; with distinct
    /// keys the stored order is exactly the given one.
    pub fn from_entries(list: Vec<(String, V)>) -> (r: Self)
        ensures
            r.inv(),
            r@ == fold_insert(pair_views(list@)),
            distinct_keys(pair_views(list@)) ==> r.seq_view() == pair_views(list@),
    {
        let ghost all = pair_views(list@);
        let mut list = list;
        let mut r = Table::new();
        let ghost mut done: int = 0;
        while list.len() > 0
            invariant
                0 <= done <= all.len(),
                pair_views(list@) =~= all.subrange(done, all.len() as int),
                r.inv(),
                r@ == fold_insert(all.subrange(0, done)),
                distinct_keys(all) ==> r.seq_view() == all.subrange(0, done),
            decreases list@.len(),
        {
            let ghost prelist = list@;
            proof {
                assert(pair_views(prelist).len() == prelist.len());
                assert(done < all.len());
                assert(pair_views(prelist)[0] == all[done]);
            }
            let e = list.remove(0);
            proof {
                assert(e == prelist[0]);
                assert(e.0@ == all[done].0 && e.1@ == all[done].1);
            }
            proof {
                if distinct_keys(all) {
                    lemma_fold_insert_dom(all.subrange(0, done), all[done].0);
                    if exists|j: int| 0 <= j < done && all.subrange(0, done)[j].0 == all[done].0 {
                        let j = choose|j: int|
                            0 <= j < done && all.subrange(0, done)[j].0 == all[done].0;
                        assert(all[j].0 == all[done].0);
                        assert(false);
                    }
                }
            }
            r.insert(e.0, e.1);
            proof {
                assert(all.subrange(0, done + 1).drop_last() =~= all.subrange(0, done));
                assert(all.subrange(0, done + 1).last() == all[done]);
                assert(fold_insert(all.subrange(0, done + 1)) == fold_insert(
                    all.subrange(0, done),
                ).insert(all[done].0, all[done].1));
                if distinct_keys(all) {
                    assert(r.seq_view() =~= all.subrange(0, done + 1));
                }
                done = done + 1;
                assert(list@ == prelist.remove(0));
                prelist.remove_ensures(0);
                assert forall|j: int| 0 <= j < list@.len() implies pair_views(list@)[j] == all[
                    done + j
                ] by {
                    assert(prelist.remove(0)[j] == prelist[j + 1]);
                    assert(list@[j] == prelist[j + 1]);
                    assert(pair_views(prelist)[j + 1] == all.subrange(
                        done - 1,
                        all.len() as int,
                    )[j + 1]);
                }
                assert(pair_views(list@) =~= all.subrange(done, all.len() as int));
            }
        }
        proof {
            assert(done == all.len());
            assert(all.subrange(0, done) =~= all);
        }
        r
    }
}

impl<V: View> View for Table<V> {
    type V = Map<Seq<char>, V::V>;

    open spec fn view(&self) -> Map<Seq<char>, V::V> {
        fold_insert(self.seq_view())
    }
}

} // verus!
