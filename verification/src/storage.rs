//! A typed key-value table keyed by `(owner, id)` byte strings: the
//! contract's storage for its NFTs. It saves, loads, tests and removes
//! entries by key, and lists the entries under one owner in ascending byte
//! order of their ids, as a prefix range over the chain's store does.

use vstd::prelude::*;
use crate::bytes::{bytes_eq, bytes_lt, lex_lt, lemma_lex_asymmetric, lemma_lex_irreflexive,
    lemma_lex_total, lemma_lex_transitive};

verus! {

/// A value that can be copied exactly.
pub trait Duplicate: Sized {
    /// An exact copy of `self`.
    fn duplicate(&self) -> (r: Self)
        ensures
            r == *self,
    ;
}

/// A storage key: the owner's address bytes and the item's id bytes.
pub type Key = (Seq<u8>, Seq<u8>);

/// The order of keys in a table: by owner, then by id.
pub open spec fn key_lt(a: Key, b: Key) -> bool {
    lex_lt(a.0, b.0) || (a.0 == b.0 && lex_lt(a.1, b.1))
}

/// No key comes before itself, the order is transitive, and any two
/// distinct keys are ordered.
pub proof fn lemma_key_order(a: Key, b: Key, c: Key)
    ensures
        !key_lt(a, a),
        !(key_lt(a, b) && key_lt(b, a)),
        key_lt(a, b) && key_lt(b, c) ==> key_lt(a, c),
        a != b ==> key_lt(a, b) || key_lt(b, a),
{
    lemma_lex_irreflexive(a.0);
    lemma_lex_irreflexive(a.1);
    lemma_lex_asymmetric(a.0, b.0);
    lemma_lex_asymmetric(a.1, b.1);
    if lex_lt(a.0, b.0) && lex_lt(b.0, c.0) {
        lemma_lex_transitive(a.0, b.0, c.0);
    }
    if lex_lt(a.1, b.1) && lex_lt(b.1, c.1) {
        lemma_lex_transitive(a.1, b.1, c.1);
    }
    if a.0 != b.0 {
        lemma_lex_total(a.0, b.0);
    }
    if a.1 != b.1 {
        lemma_lex_total(a.1, b.1);
    }
}

/// `ids` and `vals` list, in ascending byte order of the ids, exactly the
/// entries of `m` whose key has `owner` as its first part.
pub open spec fn is_prefix_listing<V>(
    m: Map<Key, V>,
    owner: Seq<u8>,
    ids: Seq<Seq<u8>>,
    vals: Seq<V>,
) -> bool {
    &&& ids.len() == vals.len()
    &&& forall|i: int, j: int| 0 <= i < j < ids.len() ==> lex_lt(#[trigger] ids[i], #[trigger] ids[j])
    &&& forall|i: int|
        0 <= i < ids.len() ==> m.contains_key((owner, #[trigger] ids[i])) && m[(owner, ids[i])]
            == vals[i]
    &&& forall|id: Seq<u8>|
        #[trigger] m.contains_key((owner, id)) ==> exists|i: int| 0 <= i < ids.len() && ids[i] == id
}

/// One stored entry.
pub struct Row<V> {
    pub owner: Vec<u8>,
    pub id: Vec<u8>,
    pub value: V,
}

impl<V> Row<V> {
    pub open spec fn key(&self) -> Key {
        (self.owner@, self.id@)
    }
}

/// A table of values keyed by `(owner, id)`.
pub struct Table<V> {
    rows: Vec<Row<V>>,
}

impl<V> Table<V> {
    /// The rows are kept in strictly ascending key order, so no key occurs
    /// twice.
    pub closed spec fn wf(&self) -> bool {
        forall|i: int, j: int|
            0 <= i < j < self.rows@.len() ==> key_lt(
                #[trigger] self.rows@[i].key(),
                #[trigger] self.rows@[j].key(),
            )
    }

    pub closed spec fn has_row(&self, k: Key) -> bool {
        exists|i: int| 0 <= i < self.rows@.len() && #[trigger] self.rows@[i].key() == k
    }

    pub closed spec fn row_of(&self, k: Key) -> int {
        choose|i: int| 0 <= i < self.rows@.len() && #[trigger] self.rows@[i].key() == k
    }

    /// The table as a map from keys to values.
    pub closed spec fn view(&self) -> Map<Key, V> {
        Map::new(|k: Key| self.has_row(k), |k: Key| self.rows@[self.row_of(k)].value)
    }

    proof fn lemma_row_in_view(&self, i: int)
        requires
            self.wf(),
            0 <= i < self.rows@.len(),
        ensures
            self.view().contains_key(self.rows@[i].key()),
            self.view()[self.rows@[i].key()] == self.rows@[i].value,
    {
        let k = self.rows@[i].key();
        assert(self.has_row(k));
        let j = self.row_of(k);
        if j != i {
            lemma_key_order(k, k, k);
            if j < i {
                assert(key_lt(self.rows@[j].key(), self.rows@[i].key()));
            } else {
                assert(key_lt(self.rows@[i].key(), self.rows@[j].key()));
            }
        }
    }

    /// A table holds finitely many entries.
    pub proof fn lemma_view_finite(&self)
        ensures
            self.view().dom().finite(),
    {
        let keys = self.rows@.map_values(|r: Row<V>| r.key());
        vstd::seq_lib::seq_to_set_is_finite(keys);
        assert forall|k: Key| #[trigger] self.view().dom().contains(k) implies keys.to_set().contains(k) by {
            let i = self.row_of(k);
            assert(keys[i] == k);
        }
        assert forall|k: Key| #[trigger] keys.to_set().contains(k) implies self.view().dom().contains(k) by {
            let i = choose|i: int| 0 <= i < keys.len() && keys[i] == k;
            assert(self.rows@[i].key() == k);
        }
        assert(self.view().dom() =~= keys.to_set());
    }

    /// An empty table.
    pub fn new() -> (t: Self)
        ensures
            t.wf(),
            t.view() == Map::<Key, V>::empty(),
    {
        let t = Table { rows: Vec::new() };
        assert(t.view() =~= Map::<Key, V>::empty());
        t
    }

    fn row_lt_key(&self, i: usize, owner: &Vec<u8>, id: &Vec<u8>) -> (r: bool)
        requires
            i < self.rows@.len(),
        ensures
            r == key_lt(self.rows@[i as int].key(), (owner@, id@)),
    {
        let row = &self.rows[i];
        bytes_lt(&row.owner, owner) || (bytes_eq(&row.owner, owner) && bytes_lt(&row.id, id))
    }

    /// The position at which the key `(owner, id)` stands or would stand.
    fn find(&self, owner: &Vec<u8>, id: &Vec<u8>) -> (r: (usize, bool))
        requires
            self.wf(),
        ensures
            r.0 <= self.rows@.len(),
            forall|i: int| 0 <= i < r.0 ==> key_lt(#[trigger] self.rows@[i].key(), (owner@, id@)),
            r.1 ==> r.0 < self.rows@.len() && self.rows@[r.0 as int].key() == (owner@, id@),
            forall|i: int|
                r.0 + (if r.1 { 1int } else { 0int }) <= i < self.rows@.len() ==> key_lt(
                    (owner@, id@),
                    #[trigger] self.rows@[i].key(),
                ),
    {
        let ghost k: Key = (owner@, id@);
        let n = self.rows.len();
        let mut i: usize = 0;
        while i < n && self.row_lt_key(i, owner, id)
            invariant
                n == self.rows@.len(),
                i <= n,
                self.wf(),
                k == (owner@, id@),
                forall|j: int| 0 <= j < i ==> key_lt(#[trigger] self.rows@[j].key(), k),
            decreases n - i,
        {
            i = i + 1;
        }
        if i == n {
            return (i, false);
        }
        let found = bytes_eq(&self.rows[i].owner, owner) && bytes_eq(&self.rows[i].id, id);
        proof {
            let ki = self.rows@[i as int].key();
            lemma_key_order(ki, k, ki);
            assert forall|j: int|
                i + (if found { 1int } else { 0int }) <= j < self.rows@.len() implies key_lt(
                k,
                #[trigger] self.rows@[j].key(),
            ) by {
                let kj = self.rows@[j].key();
                if j > i {
                    assert(key_lt(ki, kj));
                    lemma_key_order(k, ki, kj);
                }
            }
        }
        (i, found)
    }

    /// Whether an entry is stored under `(owner, id)`.
    pub fn has(&self, owner: &Vec<u8>, id: &Vec<u8>) -> (r: bool)
        requires
            self.wf(),
        ensures
            r == self.view().contains_key((owner@, id@)),
    {
        let (pos, found) = self.find(owner, id);
        proof {
            let k = (owner@, id@);
            if found {
                self.lemma_row_in_view(pos as int);
            } else if self.has_row(k) {
                let j = self.row_of(k);
                lemma_key_order(k, k, k);
                if j < pos {
                    assert(key_lt(self.rows@[j].key(), k));
                } else {
                    assert(key_lt(k, self.rows@[j].key()));
                }
            }
        }
        found
    }

    /// Stores `value` under `(owner, id)`, in place of any entry that was
    /// there.
    pub fn save(&mut self, owner: Vec<u8>, id: Vec<u8>, value: V)
        requires
            old(self).wf(),
        ensures
            final(self).wf(),
            final(self).view() == old(self).view().insert((owner@, id@), value),
    {
        let ghost k: Key = (owner@, id@);
        let ghost pre: Table<V> = *self;
        let (pos, found) = self.find(&owner, &id);
        let row = Row { owner, id, value };
        assert(row.key() == k);
        if found {
            self.rows.set(pos, row);
            proof {
                assert(self.wf()) by {
                    assert forall|i: int, j: int|
                        0 <= i < j < self.rows@.len() implies key_lt(
                        #[trigger] self.rows@[i].key(),
                        #[trigger] self.rows@[j].key(),
                    ) by {
                        assert(key_lt(pre.rows@[i].key(), pre.rows@[j].key()));
                    }
                }
                assert forall|k2: Key| #[trigger] self.view().contains_key(k2) implies pre.view().insert(k, value).contains_key(k2) && self.view()[k2] == pre.view().insert(k, value)[k2] by {
                    if k2 == k {
                        self.lemma_row_in_view(pos as int);
                    } else {
                        let j = self.row_of(k2);
                        self.lemma_row_in_view(j);
                        pre.lemma_row_in_view(j);
                    }
                }
                assert forall|k2: Key| #[trigger] pre.view().insert(k, value).contains_key(k2) implies self.view().contains_key(k2) by {
                    if k2 == k {
                        self.lemma_row_in_view(pos as int);
                    } else {
                        let j = pre.row_of(k2);
                        self.lemma_row_in_view(j);
                    }
                }
                assert(self.view() =~= pre.view().insert(k, value));
            }
        } else {
            self.rows.insert(pos, row);
            proof {
                assert(self.wf()) by {
                    assert forall|i: int, j: int|
                        0 <= i < j < self.rows@.len() implies key_lt(
                        #[trigger] self.rows@[i].key(),
                        #[trigger] self.rows@[j].key(),
                    ) by {
                        if j < pos {
                            assert(key_lt(pre.rows@[i].key(), pre.rows@[j].key()));
                        } else if j == pos {
                            assert(key_lt(pre.rows@[i].key(), k));
                        } else if i == pos {
                            assert(key_lt(k, pre.rows@[j - 1].key()));
                        } else if i < pos {
                            assert(key_lt(pre.rows@[i].key(), pre.rows@[j - 1].key()));
                        } else {
                            assert(key_lt(pre.rows@[i - 1].key(), pre.rows@[j - 1].key()));
                        }
                    }
                }
                assert forall|k2: Key| #[trigger] self.view().contains_key(k2) implies pre.view().insert(k, value).contains_key(k2) && self.view()[k2] == pre.view().insert(k, value)[k2] by {
                    if k2 == k {
                        self.lemma_row_in_view(pos as int);
                    } else {
                        let j = self.row_of(k2);
                        self.lemma_row_in_view(j);
                        if j < pos {
                            pre.lemma_row_in_view(j);
                        } else {
                            pre.lemma_row_in_view(j - 1);
                        }
                    }
                }
                assert forall|k2: Key| #[trigger] pre.view().insert(k, value).contains_key(k2) implies self.view().contains_key(k2) by {
                    if k2 == k {
                        self.lemma_row_in_view(pos as int);
                    } else {
                        let j = pre.row_of(k2);
                        if j < pos {
                            self.lemma_row_in_view(j);
                        } else {
                            self.lemma_row_in_view(j + 1);
                        }
                    }
                }
                assert(self.view() =~= pre.view().insert(k, value));
            }
        }
    }

    /// Removes the entry stored under `(owner, id)`, if there is one.
    pub fn remove(&mut self, owner: &Vec<u8>, id: &Vec<u8>)
        requires
            old(self).wf(),
        ensures
            final(self).wf(),
            final(self).view() == old(self).view().remove((owner@, id@)),
    {
        let ghost k: Key = (owner@, id@);
        let ghost pre: Table<V> = *self;
        let (pos, found) = self.find(owner, id);
        if found {
            self.rows.remove(pos);
            proof {
                assert(self.wf()) by {
                    assert forall|i: int, j: int|
                        0 <= i < j < self.rows@.len() implies key_lt(
                        #[trigger] self.rows@[i].key(),
                        #[trigger] self.rows@[j].key(),
                    ) by {
                        if j < pos {
                            assert(key_lt(pre.rows@[i].key(), pre.rows@[j].key()));
                        } else if i < pos {
                            assert(key_lt(pre.rows@[i].key(), pre.rows@[j + 1].key()));
                        } else {
                            assert(key_lt(pre.rows@[i + 1].key(), pre.rows@[j + 1].key()));
                        }
                    }
                }
                assert forall|k2: Key| #[trigger] self.view().contains_key(k2) implies pre.view().remove(k).contains_key(k2) && self.view()[k2] == pre.view().remove(k)[k2] by {
                    let j = self.row_of(k2);
                    self.lemma_row_in_view(j);
                    if j < pos {
                        pre.lemma_row_in_view(j);
                        assert(key_lt(pre.rows@[j].key(), pre.rows@[pos as int].key()));
                    } else {
                        pre.lemma_row_in_view(j + 1);
                        assert(key_lt(pre.rows@[pos as int].key(), pre.rows@[j + 1].key()));
                    }
                    lemma_key_order(k2, k2, k2);
                }
                assert forall|k2: Key| #[trigger] pre.view().remove(k).contains_key(k2) implies self.view().contains_key(k2) by {
                    let j = pre.row_of(k2);
                    if j < pos {
                        self.lemma_row_in_view(j);
                    } else {
                        assert(j != pos);
                        self.lemma_row_in_view(j - 1);
                    }
                }
                assert(self.view() =~= pre.view().remove(k));
            }
        } else {
            proof {
                if pre.has_row(k) {
                    let j = pre.row_of(k);
                    lemma_key_order(k, k, k);
                    if j < pos {
                        assert(key_lt(pre.rows@[j].key(), k));
                    } else {
                        assert(key_lt(k, pre.rows@[j].key()));
                    }
                }
                assert(self.view() =~= pre.view().remove(k));
            }
        }
    }
}

impl<V: Duplicate> Table<V> {
    /// The entries stored under `owner`, as `(id, value)` pairs in ascending
    /// byte order of the ids.
    pub fn range_prefix(&self, owner: &Vec<u8>) -> (r: Vec<(Vec<u8>, V)>)
        requires
            self.wf(),
        ensures
            is_prefix_listing(
                self.view(),
                owner@,
                r@.map_values(|e: (Vec<u8>, V)| e.0@),
                r@.map_values(|e: (Vec<u8>, V)| e.1),
            ),
    {
        let n = self.rows.len();
        let mut out: Vec<(Vec<u8>, V)> = Vec::new();
        let ghost mut idx: Seq<int> = Seq::empty();
        let mut i: usize = 0;
        while i < n
            invariant
                n == self.rows@.len(),
                i <= n,
                self.wf(),
                idx.len() == out@.len(),
                forall|p: int, q: int| 0 <= p < q < idx.len() ==> #[trigger] idx[p] < #[trigger] idx[q],
                forall|p: int|
                    0 <= p < idx.len() ==> 0 <= #[trigger] idx[p] < i && self.rows@[idx[p]].owner@
                        == owner@ && out@[p].0@ == self.rows@[idx[p]].id@ && out@[p].1
                        == self.rows@[idx[p]].value,
                forall|j: int|
                    0 <= j < i && #[trigger] self.rows@[j].owner@ == owner@ ==> exists|p: int|
                        0 <= p < idx.len() && idx[p] == j,
            decreases n - i,
        {
            if bytes_eq(&self.rows[i].owner, owner) {
                let id = self.rows[i].id.clone();
                let value = self.rows[i].value.duplicate();
                assert(id@ =~= self.rows@[i as int].id@);
                out.push((id, value));
                proof {
                    let old_idx = idx;
                    idx = idx.push(i as int);
                    assert forall|j: int|
                        0 <= j < i + 1 && #[trigger] self.rows@[j].owner@ == owner@ implies exists|p: int|
                        0 <= p < idx.len() && idx[p] == j by {
                        if j == i {
                            assert(idx[idx.len() - 1] == j);
                        } else {
                            let p = choose|p: int| 0 <= p < old_idx.len() && old_idx[p] == j;
                            assert(idx[p] == j);
                        }
                    }
                }
            }
            i = i + 1;
        }
        proof {
            let ids = out@.map_values(|e: (Vec<u8>, V)| e.0@);
            let vals = out@.map_values(|e: (Vec<u8>, V)| e.1);
            let m = self.view();
            assert forall|p: int, q: int| 0 <= p < q < ids.len() implies lex_lt(
                #[trigger] ids[p],
                #[trigger] ids[q],
            ) by {
                let a = self.rows@[idx[p]].key();
                let b = self.rows@[idx[q]].key();
                assert(idx[p] < idx[q]);
                assert(key_lt(a, b));
                lemma_lex_irreflexive(a.0);
            }
            assert forall|p: int| 0 <= p < ids.len() implies m.contains_key(
                (owner@, #[trigger] ids[p]),
            ) && m[(owner@, ids[p])] == vals[p] by {
                self.lemma_row_in_view(idx[p]);
            }
            assert forall|id: Seq<u8>| #[trigger] m.contains_key((owner@, id)) implies exists|p: int|
                0 <= p < ids.len() && ids[p] == id by {
                let j = self.row_of((owner@, id));
                assert(self.rows@[j].owner@ == owner@);
                let p = choose|p: int| 0 <= p < idx.len() && idx[p] == j;
                assert(ids[p] == id);
            }
        }
        out
    }
}

} // verus!
