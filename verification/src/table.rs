//! A keyed table: rows addressed by a textual key, at most one row per
//! key, last write wins.  The conflict-upsert semantics of every stored
//! entity (tokens, segments, annotations, connections, metadata) reduces
//! to this one structure, whose contracts speak of a `Map` view for
//! contents and a `Seq` view for row order.

use vstd::prelude::*;

verus! {

/// A row with a textual key.
pub trait Row: Sized {
    /// The key under which the row is filed.
    spec fn key(&self) -> Seq<char>;

    /// The key as an executable string.
    fn key_str(&self) -> (r: &String)
        ensures
            r@ == self.key(),
    ;
}

/// First index of a row with the given key, or `-1`.
pub open spec fn first_key_idx<T: Row>(s: Seq<T>, k: Seq<char>) -> int
    decreases s.len(),
{
    if s.len() == 0 {
        -1
    } else if s[0].key() == k {
        0
    } else {
        let r = first_key_idx(s.skip(1), k);
        if r < 0 {
            -1
        } else {
            1 + r
        }
    }
}

/// What a conflict-upsert does to the row order: replace in place when the
/// key exists, append otherwise.
pub open spec fn upsert_seq<T: Row>(s: Seq<T>, x: T) -> Seq<T> {
    let i = first_key_idx(s, x.key());
    if i >= 0 {
        s.update(i, x)
    } else {
        s.push(x)
    }
}

/// The contents of the rows as a map from key to row; a later row wins.
pub open spec fn rows_map<T: Row>(s: Seq<T>) -> Map<Seq<char>, T>
    decreases s.len(),
{
    if s.len() == 0 {
        Map::empty()
    } else {
        rows_map(s.drop_last()).insert(s.last().key(), s.last())
    }
}

/// No two rows share a key.
pub open spec fn unique_keys<T: Row>(s: Seq<T>) -> bool {
    forall|i: int, j: int| 0 <= i < j < s.len() ==> s[i].key() != s[j].key()
}

pub proof fn lemma_first_key_idx_props<T: Row>(s: Seq<T>, k: Seq<char>)
    ensures
        first_key_idx(s, k) == -1 ==> forall|j: int| 0 <= j < s.len() ==> s[j].key() != k,
        first_key_idx(s, k) >= 0 ==> 0 <= first_key_idx(s, k) < s.len() && s[first_key_idx(
            s,
            k,
        )].key() == k && forall|j: int| 0 <= j < first_key_idx(s, k) ==> s[j].key() != k,
    decreases s.len(),
{
    if s.len() > 0 && s[0].key() != k {
        lemma_first_key_idx_props(s.skip(1), k);
        let r = first_key_idx(s.skip(1), k);
        if r == -1 {
            assert forall|j: int| 0 <= j < s.len() implies s[j].key() != k by {
                if j > 0 {
                    assert(s[j] == s.skip(1)[j - 1]);
                }
            }
        } else {
            assert(s[1 + r] == s.skip(1)[r]);
            assert forall|j: int| 0 <= j < 1 + r implies s[j].key() != k by {
                if j > 0 {
                    assert(s[j] == s.skip(1)[j - 1]);
                }
            }
        }
    }
}

/// A first index is determined by its characteristic shape.
pub proof fn lemma_first_key_idx_determined<T: Row>(s: Seq<T>, k: Seq<char>, i: int)
    requires
        0 <= i < s.len(),
        s[i].key() == k,
        forall|j: int| 0 <= j < i ==> s[j].key() != k,
    ensures
        first_key_idx(s, k) == i,
    decreases s.len(),
{
    if i > 0 {
        assert(s[0].key() != k);
        assert(s.skip(1)[i - 1] == s[i]);
        assert forall|j: int| 0 <= j < i - 1 implies s.skip(1)[j].key() != k by {
            assert(s.skip(1)[j] == s[j + 1]);
        }
        lemma_first_key_idx_determined(s.skip(1), k, i - 1);
    }
}

pub proof fn lemma_rows_map_push<T: Row>(s: Seq<T>, x: T)
    ensures
        rows_map(s.push(x)) == rows_map(s).insert(x.key(), x),
{
    assert(s.push(x).drop_last() =~= s);
    assert(s.push(x).last() == x);
}

/// The map contains a key exactly when some row carries it.
pub proof fn lemma_rows_map_contains<T: Row>(s: Seq<T>, k: Seq<char>)
    ensures
        rows_map(s).contains_key(k) <==> exists|j: int| 0 <= j < s.len() && s[j].key() == k,
    decreases s.len(),
{
    if s.len() > 0 {
        lemma_rows_map_contains(s.drop_last(), k);
        if rows_map(s).contains_key(k) {
            if k == s.last().key() {
                assert(s[s.len() - 1].key() == k);
            } else {
                let j = choose|j: int| 0 <= j < s.drop_last().len() && s.drop_last()[j].key() == k;
                assert(s[j] == s.drop_last()[j]);
            }
        }
        if exists|j: int| 0 <= j < s.len() && s[j].key() == k {
            let j = choose|j: int| 0 <= j < s.len() && s[j].key() == k;
            if j < s.len() - 1 {
                assert(s.drop_last()[j] == s[j]);
            }
        }
    }
}

/// With unique keys, the map sends each row's key to that row.
pub proof fn lemma_rows_map_at<T: Row>(s: Seq<T>, i: int)
    requires
        unique_keys(s),
        0 <= i < s.len(),
    ensures
        rows_map(s).contains_key(s[i].key()),
        rows_map(s)[s[i].key()] == s[i],
    decreases s.len(),
{
    if i == s.len() - 1 {
    } else {
        assert(unique_keys(s.drop_last())) by {
            assert(forall|a: int, b: int|
                0 <= a < b < s.drop_last().len() ==> s.drop_last()[a] == s[a] && s.drop_last()[b]
                    == s[b]);
        }
        assert(s.drop_last()[i] == s[i]);
        lemma_rows_map_at(s.drop_last(), i);
        assert(s[i].key() != s.last().key());
    }
}

/// Updating the row that holds a key is, at the map level, an insert.
pub proof fn lemma_rows_map_update<T: Row>(s: Seq<T>, i: int, x: T)
    requires
        unique_keys(s),
        0 <= i < s.len(),
        s[i].key() == x.key(),
    ensures
        rows_map(s.update(i, x)) == rows_map(s).insert(x.key(), x),
    decreases s.len(),
{
    let t = s.update(i, x);
    if i == s.len() - 1 {
        assert(t.drop_last() =~= s.drop_last());
        assert(t.last() == x);
        assert(rows_map(t) == rows_map(s.drop_last()).insert(x.key(), x));
        assert(rows_map(s.drop_last()).insert(s.last().key(), s.last()).insert(x.key(), x)
            =~= rows_map(s.drop_last()).insert(x.key(), x));
    } else {
        assert(unique_keys(s.drop_last())) by {
            assert(forall|a: int, b: int|
                0 <= a < b < s.drop_last().len() ==> s.drop_last()[a] == s[a] && s.drop_last()[b]
                    == s[b]);
        }
        assert(s.drop_last()[i] == s[i]);
        lemma_rows_map_update(s.drop_last(), i, x);
        assert(t.drop_last() =~= s.drop_last().update(i, x));
        assert(t.last() == s.last());
        assert(s[i].key() != s.last().key());
        assert(rows_map(t) == rows_map(s.drop_last()).insert(x.key(), x).insert(
            s.last().key(),
            s.last(),
        ));
        assert(rows_map(s.drop_last()).insert(x.key(), x).insert(s.last().key(), s.last())
            =~= rows_map(s.drop_last()).insert(s.last().key(), s.last()).insert(x.key(), x));
    }
}

/// Removing the row that holds a key is, at the map level, a removal.
pub proof fn lemma_rows_map_remove<T: Row>(s: Seq<T>, i: int)
    requires
        unique_keys(s),
        0 <= i < s.len(),
    ensures
        rows_map(s.remove(i)) == rows_map(s).remove(s[i].key()),
    decreases s.len(),
{
    if i == s.len() - 1 {
        assert(s.remove(i) =~= s.drop_last());
        assert(unique_keys(s.drop_last())) by {
            assert(forall|a: int, b: int|
                0 <= a < b < s.drop_last().len() ==> s.drop_last()[a] == s[a] && s.drop_last()[b]
                    == s[b]);
        }
        lemma_rows_map_contains(s.drop_last(), s.last().key());
        assert(forall|j: int|
            0 <= j < s.drop_last().len() ==> s.drop_last()[j] == s[j]);
        assert(!rows_map(s.drop_last()).contains_key(s.last().key()));
        assert(rows_map(s.drop_last()) =~= rows_map(s.drop_last()).insert(
            s.last().key(),
            s.last(),
        ).remove(s.last().key()));
    } else {
        assert(unique_keys(s.drop_last())) by {
            assert(forall|a: int, b: int|
                0 <= a < b < s.drop_last().len() ==> s.drop_last()[a] == s[a] && s.drop_last()[b]
                    == s[b]);
        }
        assert(s.drop_last()[i] == s[i]);
        lemma_rows_map_remove(s.drop_last(), i);
        assert(s.remove(i).drop_last() =~= s.drop_last().remove(i));
        assert(s.remove(i).last() == s.last());
        assert(rows_map(s.remove(i)) == rows_map(s.drop_last()).remove(s[i].key()).insert(
            s.last().key(),
            s.last(),
        ));
        assert(s[i].key() != s.last().key());
        assert(rows_map(s.drop_last()).remove(s[i].key()).insert(s.last().key(), s.last())
            =~= rows_map(s.drop_last()).insert(s.last().key(), s.last()).remove(s[i].key()));
    }
}

/// A table of rows addressed by a textual key; at most one row per key.
pub struct KTable<T> {
    pub rows: Vec<T>,
}

impl<T: Row> KTable<T> {
    /// The contents: key to row, exactly one row per present key.
    pub open spec fn m(self) -> Map<Seq<char>, T> {
        rows_map(self.rows@)
    }

    /// The rows in storage order.
    pub open spec fn sq(self) -> Seq<T> {
        self.rows@
    }

    /// Well-formedness: no two rows share a key.
    pub open spec fn wf(self) -> bool {
        unique_keys(self.rows@)
    }

    pub fn new() -> (t: Self)
        ensures
            t.wf(),
            t.m() == Map::<Seq<char>, T>::empty(),
            t.sq() == Seq::<T>::empty(),
    {
        KTable { rows: Vec::new() }
    }

    pub fn row_count(&self) -> (n: usize)
        ensures
            n == self.sq().len(),
    {
        self.rows.len()
    }

    pub fn row_at(&self, i: usize) -> (r: &T)
        requires
            i < self.sq().len(),
        ensures
            *r == self.sq()[i as int],
    {
        &self.rows[i]
    }

    /// First index of the key among the rows, with its characteristic shape.
    fn idx_of(&self, k: &String) -> (r: Option<usize>)
        ensures
            match r {
                Some(i) => i < self.sq().len() && self.sq()[i as int].key() == k@ && forall|j: int|
                    0 <= j < i ==> self.sq()[j].key() != k@,
                None => forall|j: int| 0 <= j < self.sq().len() ==> self.sq()[j].key() != k@,
            },
    {
        let n = self.rows.len();
        let mut i: usize = 0;
        while i < n
            invariant
                i <= n,
                n == self.rows@.len(),
                forall|j: int| 0 <= j < i ==> self.rows@[j].key() != k@,
            decreases n - i,
        {
            let row_key = self.rows[i].key_str();
            if *row_key == *k {
                return Some(i);
            }
            i = i + 1;
        }
        None
    }

    /// Looks a row up by key.
    pub fn find(&self, k: &String) -> (r: Option<&T>)
        requires
            self.wf(),
        ensures
            match r {
                Some(x) => self.m().contains_key(k@) && *x == self.m()[k@],
                None => !self.m().contains_key(k@),
            },
    {
        match self.idx_of(k) {
            Some(i) => {
                proof {
                    lemma_rows_map_at(self.rows@, i as int);
                    assert(self.rows@[i as int].key() == k@);
                    assert(self.m().contains_key(k@));
                    assert(self.m()[k@] == self.rows@[i as int]);
                }
                Some(&self.rows[i])
            },
            None => {
                proof {
                    lemma_rows_map_contains(self.rows@, k@);
                    if rows_map(self.rows@).contains_key(k@) {
                        let j = choose|j: int|
                            0 <= j < self.rows@.len() && self.rows@[j].key() == k@;
                        assert(self.sq()[j].key() != k@);
                        assert(false);
                    }
                }
                None
            },
        }
    }

    /// Inserts or replaces the row under its own key: last write wins.
    pub fn upsert(&mut self, x: T) -> (replaced: bool)
        requires
            old(self).wf(),
        ensures
            final(self).wf(),
            final(self).m() == old(self).m().insert(x.key(), x),
            final(self).sq() == upsert_seq(old(self).sq(), x),
            replaced == old(self).m().contains_key(x.key()),
    {
        let k = x.key_str();
        let found = self.idx_of(k);
        proof {
            lemma_rows_map_contains(self.rows@, x.key());
        }
        match found {
            Some(i) => {
                proof {
                    lemma_first_key_idx_determined(self.rows@, x.key(), i as int);
                    lemma_rows_map_update(self.rows@, i as int, x);
                }
                let slot = &mut self.rows[i];
                *slot = x;
                proof {
                    assert(unique_keys(self.rows@)) by {
                        assert(forall|a: int|
                            0 <= a < self.rows@.len() && a != i ==> self.rows@[a]
                                == old(self).rows@[a]);
                    }
                }
                true
            },
            None => {
                proof {
                    assert forall|j: int|
                        0 <= j < self.rows@.len() implies #[trigger] self.rows@[j].key()
                        != x.key() by {
                        assert(self.sq()[j].key() != k@);
                    }
                    lemma_first_key_idx_props(self.rows@, x.key());
                    if first_key_idx(self.rows@, x.key()) >= 0 {
                        assert(self.rows@[first_key_idx(self.rows@, x.key())].key() == x.key());
                        assert(false);
                    }
                    lemma_rows_map_push(self.rows@, x);
                }
                self.rows.push(x);
                proof {
                    assert(unique_keys(self.rows@)) by {
                        assert(forall|a: int|
                            0 <= a < self.rows@.len() - 1 ==> self.rows@[a] == old(self).rows@[a]);
                    }
                }
                false
            },
        }
    }

    /// Removes the row under a key, when present.
    pub fn remove_key(&mut self, k: &String) -> (removed: bool)
        requires
            old(self).wf(),
        ensures
            final(self).wf(),
            final(self).m() == old(self).m().remove(k@),
            removed == old(self).m().contains_key(k@),
            !removed ==> final(self).sq() == old(self).sq(),
            removed ==> exists|i: int|
                0 <= i < old(self).sq().len() && (#[trigger] old(self).sq()[i]).key() == k@
                    && final(self).sq() == old(self).sq().remove(i),
    {
        let found = self.idx_of(k);
        proof {
            lemma_rows_map_contains(self.rows@, k@);
        }
        match found {
            Some(i) => {
                proof {
                    lemma_rows_map_remove(self.rows@, i as int);
                }
                let _ = self.rows.remove(i);
                proof {
                    assert forall|a: int, b: int|
                        0 <= a < b < self.rows@.len() implies self.rows@[a].key()
                        != self.rows@[b].key() by {
                        let a0: int = if a < i { a } else { a + 1 };
                        let b0: int = if b < i { b } else { b + 1 };
                        assert(self.rows@[a] == old(self).rows@[a0]);
                        assert(self.rows@[b] == old(self).rows@[b0]);
                    }
                }
                true
            },
            None => {
                proof {
                    assert forall|j: int|
                        0 <= j < self.rows@.len() implies #[trigger] self.rows@[j].key() != k@ by {
                        assert(self.sq()[j].key() != k@);
                    }
                    if rows_map(self.rows@).contains_key(k@) {
                        let j = choose|j: int|
                            0 <= j < self.rows@.len() && self.rows@[j].key() == k@;
                        assert(false);
                    }
                    assert(rows_map(self.rows@).remove(k@) =~= rows_map(self.rows@));
                }
                false
            },
        }
    }
}

/// Upserting the same row twice leaves exactly what one upsert leaves:
/// both the contents and the row order.
pub proof fn lemma_upsert_idempotent<T: Row>(s: Seq<T>, x: T)
    requires
        unique_keys(s),
    ensures
        upsert_seq(upsert_seq(s, x), x) == upsert_seq(s, x),
        rows_map(upsert_seq(s, x)) == rows_map(s).insert(x.key(), x),
{
    let i = first_key_idx(s, x.key());
    lemma_first_key_idx_props(s, x.key());
    if i >= 0 {
        let t = s.update(i, x);
        lemma_rows_map_update(s, i, x);
        assert(forall|j: int| 0 <= j < i ==> t[j].key() != x.key());
        lemma_first_key_idx_determined(t, x.key(), i);
        assert(t.update(i, x) =~= t);
    } else {
        let t = s.push(x);
        lemma_rows_map_push(s, x);
        assert(forall|j: int| 0 <= j < s.len() ==> t[j].key() != x.key());
        lemma_first_key_idx_determined(t, x.key(), s.len() as int);
        assert(t.update(s.len() as int, x) =~= t);
    }
}

} // verus!
