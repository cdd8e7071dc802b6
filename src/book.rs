//! A per-token book of lists: to each token that has one, a list of items.
use crate::types::{TokenId, TokenKey};
use vstd::prelude::*;

verus! {

/// In a list without repeats, the index of an item found there is its index.
pub proof fn lemma_index_of_unique<A>(s: Seq<A>, i: int)
    requires
        s.no_duplicates(),
        0 <= i < s.len(),
    ensures
        s.index_of(s[i]) == i,
{
    let x = s[i];
    assert(s[i] == x);
    let j = s.index_of(x);
    assert(s[j] == x);
}

/// Removing one item from a list without repeats leaves a list without
/// repeats, which holds the other items.
pub proof fn lemma_remove_unique<A>(s: Seq<A>, i: int)
    requires
        s.no_duplicates(),
        0 <= i < s.len(),
    ensures
        s.remove(i).no_duplicates(),
        forall|x: A| #[trigger] s.remove(i).contains(x) <==> (s.contains(x) && x != s[i]),
{
    let r = s.remove(i);
    assert forall|x: A| #[trigger] r.contains(x) <==> (s.contains(x) && x != s[i]) by {
        if r.contains(x) {
            let j = choose|j: int| 0 <= j < r.len() && r[j] == x;
            if j < i {
                assert(s[j] == x);
            } else {
                assert(s[j + 1] == x);
            }
        }
        if s.contains(x) && x != s[i] {
            let j = choose|j: int| 0 <= j < s.len() && s[j] == x;
            if j < i {
                assert(r[j] == x);
            } else {
                assert(r[j - 1] == x);
            }
        }
    }
}

/// Appending an item that a list without repeats lacks leaves it without
/// repeats.
pub proof fn lemma_push_unique<A>(s: Seq<A>, a: A)
    requires
        s.no_duplicates(),
        !s.contains(a),
    ensures
        s.push(a).no_duplicates(),
        forall|x: A| #[trigger] s.push(a).contains(x) <==> (s.contains(x) || x == a),
{
    let r = s.push(a);
    assert forall|x: A| #[trigger] r.contains(x) <==> (s.contains(x) || x == a) by {
        if r.contains(x) {
            let j = choose|j: int| 0 <= j < r.len() && r[j] == x;
            if j < s.len() {
                assert(s[j] == x);
            }
        }
        if s.contains(x) {
            let j = choose|j: int| 0 <= j < s.len() && s[j] == x;
            assert(r[j] == x);
        }
        if x == a {
            assert(r[s.len() as int] == x);
        }
    }
    assert forall|i: int, j: int| 0 <= i < r.len() && 0 <= j < r.len() && i != j implies r[i] != r[j] by {
        if i < s.len() && j < s.len() {
        } else if i < s.len() {
            assert(s.contains(r[i]));
        } else if j < s.len() {
            assert(s.contains(r[j]));
        }
    }
}

/// The list of `k` in `m`, or the empty list where `m` has none.
pub open spec fn list_in<V>(m: Map<TokenKey, Seq<V>>, k: TokenKey) -> Seq<V> {
    if m.contains_key(k) {
        m[k]
    } else {
        Seq::empty()
    }
}

/// Lists of items, one for each token that has been given one.
pub struct StatusBook<V> {
    entries: Vec<(TokenId, Vec<V>)>,
    model: Ghost<Map<TokenKey, Seq<V>>>,
}

impl<V> StatusBook<V> {
    /// The list of each token that has one.
    pub closed spec fn lists(&self) -> Map<TokenKey, Seq<V>> {
        self.model@
    }

    /// The list of `k`, or the empty list where `k` has none.
    pub open spec fn list_of(&self, k: TokenKey) -> Seq<V> {
        list_in(self.lists(), k)
    }

    /// The concrete entries stand for the lists, one entry per token.
    pub closed spec fn wf(&self) -> bool {
        &&& forall|i: int|
            0 <= i < self.entries@.len() ==> {
                &&& #[trigger] self.model@.contains_key(self.entries@[i].0@)
                &&& self.model@[self.entries@[i].0@] == self.entries@[i].1@
            }
        &&& forall|k: TokenKey|
            #[trigger] self.model@.contains_key(k) ==> exists|i: int|
                0 <= i < self.entries@.len() && #[trigger] self.entries@[i].0@ == k
        &&& forall|i: int, j: int|
            0 <= i < self.entries@.len() && 0 <= j < self.entries@.len() && #[trigger] self.entries@[i].0@
                == #[trigger] self.entries@[j].0@ ==> i == j
    }

    /// A book with no lists.
    pub fn new() -> (r: StatusBook<V>)
        ensures
            r.wf(),
            r.lists() == Map::<TokenKey, Seq<V>>::empty(),
    {
        StatusBook { entries: Vec::new(), model: Ghost(Map::empty()) }
    }

    fn find(&self, token: &TokenId) -> (r: Option<usize>)
        requires
            self.wf(),
        ensures
            match r {
                Some(i) => {
                    &&& i < self.entries@.len()
                    &&& self.entries@[i as int].0@ == token@
                    &&& self.lists().contains_key(token@)
                    &&& self.lists()[token@] == self.entries@[i as int].1@
                },
                None => !self.lists().contains_key(token@),
            },
    {
        let mut i: usize = 0;
        while i < self.entries.len()
            invariant
                self.wf(),
                0 <= i <= self.entries@.len(),
                forall|j: int| 0 <= j < i ==> self.entries@[j].0@ != token@,
            decreases self.entries@.len() - i,
        {
            if self.entries[i].0.same(token) {
                assert(self.model@.contains_key(self.entries@[i as int].0@));
                return Some(i);
            }
            i = i + 1;
        }
        None
    }

    /// The list of `token`, if it has one.
    pub fn get(&self, token: &TokenId) -> (r: Option<&Vec<V>>)
        requires
            self.wf(),
        ensures
            match r {
                Some(v) => self.lists().contains_key(token@) && self.lists()[token@] == v@,
                None => !self.lists().contains_key(token@),
            },
    {
        match self.find(token) {
            Some(i) => Some(&self.entries[i].1),
            None => None,
        }
    }

    /// Give `token` the list `items`, in place of the one it had.
    pub fn put(&mut self, token: TokenId, items: Vec<V>)
        requires
            old(self).wf(),
        ensures
            final(self).wf(),
            final(self).lists() == old(self).lists().insert(token@, items@),
    {
        let ghost k = token@;
        let ghost v = items@;
        let ghost at: int;
        match self.find(&token) {
            Some(i) => {
                self.entries.set(i, (token, items));
                proof {
                    at = i as int;
                }
            },
            None => {
                self.entries.push((token, items));
                proof {
                    at = self.entries@.len() - 1;
                }
            },
        }
        self.model = Ghost(self.model@.insert(k, v));
        assert(self.entries@[at].0@ == k);
        assert forall|i: int| 0 <= i < self.entries@.len() && i != at implies self.entries@[i] == old(
            self,
        ).entries@[i] && self.entries@[i].0@ != k by {
            assert(old(self).model@.contains_key(old(self).entries@[i].0@));
        }
        assert forall|i: int| 0 <= i < self.entries@.len() implies {
            &&& #[trigger] self.model@.contains_key(self.entries@[i].0@)
            &&& self.model@[self.entries@[i].0@] == self.entries@[i].1@
        } by {
            if i != at {
                assert(old(self).model@.contains_key(old(self).entries@[i].0@));
            }
        }
        assert forall|k2: TokenKey| #[trigger] self.model@.contains_key(k2) implies exists|i: int|
            0 <= i < self.entries@.len() && #[trigger] self.entries@[i].0@ == k2 by {
            if k2 != k {
                let i = choose|i: int|
                    0 <= i < old(self).entries@.len() && #[trigger] old(self).entries@[i].0@ == k2;
                assert(self.entries@[i].0@ == k2);
            }
        }
    }

    /// Append `item` to the list of `token`, giving it a list where it had none.
    pub fn push_item(&mut self, token: TokenId, item: V)
        requires
            old(self).wf(),
        ensures
            final(self).wf(),
            final(self).lists() == old(self).lists().insert(token@, old(self).list_of(token@).push(item)),
    {
        let ghost k = token@;
        match self.find(&token) {
            Some(i) => {
                let ghost before = self.entries@[i as int].1@;
                self.entries[i].1.push(item);
                self.model = Ghost(self.model@.insert(k, before.push(item)));
                proof {
                    self.lemma_wf_after_update(old(self), i as int);
                }
            },
            None => {
                let mut items: Vec<V> = Vec::new();
                items.push(item);
                proof {
                    assert(items@ =~= Seq::<V>::empty().push(item));
                }
                self.put(token, items);
                assert(self.wf());
            },
        }
    }

    /// Remove the item at `j` from the list of `token`.
    pub fn remove_at(&mut self, token: &TokenId, j: usize)
        requires
            old(self).wf(),
            old(self).lists().contains_key(token@),
            j < old(self).lists()[token@].len(),
        ensures
            final(self).wf(),
            final(self).lists() == old(self).lists().insert(token@, old(self).lists()[token@].remove(j as int)),
    {
        let ghost k = token@;
        match self.find(token) {
            Some(i) => {
                let ghost before = self.entries@[i as int].1@;
                self.entries[i].1.remove(j);
                self.model = Ghost(self.model@.insert(k, before.remove(j as int)));
                proof {
                    self.lemma_wf_after_update(old(self), i as int);
                }
            },
            None => {},
        }
    }

    proof fn lemma_wf_after_update(&self, before: &StatusBook<V>, i: int)
        requires
            before.wf(),
            0 <= i < before.entries@.len(),
            self.entries@.len() == before.entries@.len(),
            forall|i2: int| 0 <= i2 < self.entries@.len() && i2 != i ==> self.entries@[i2] == before.entries@[i2],
            self.entries@[i].0 == before.entries@[i].0,
            self.model@ == before.model@.insert(before.entries@[i].0@, self.entries@[i].1@),
        ensures
            self.wf(),
    {
        let k = before.entries@[i].0@;
        assert forall|i2: int| 0 <= i2 < self.entries@.len() implies {
            &&& #[trigger] self.model@.contains_key(self.entries@[i2].0@)
            &&& self.model@[self.entries@[i2].0@] == self.entries@[i2].1@
        } by {
            if i2 != i {
                assert(before.model@.contains_key(before.entries@[i2].0@));
                assert(before.entries@[i2].0@ != k);
            }
        }
        assert forall|k2: TokenKey| #[trigger] self.model@.contains_key(k2) implies exists|i2: int|
            0 <= i2 < self.entries@.len() && #[trigger] self.entries@[i2].0@ == k2 by {
            if k2 == k {
                assert(self.entries@[i].0@ == k2);
            } else {
                let i2 = choose|i2: int| 0 <= i2 < before.entries@.len() && #[trigger] before.entries@[i2].0@ == k2;
                assert(self.entries@[i2].0@ == k2);
            }
        }
        assert forall|i1: int, i2: int|
            0 <= i1 < self.entries@.len() && 0 <= i2 < self.entries@.len() && #[trigger] self.entries@[i1].0@
                == #[trigger] self.entries@[i2].0@ implies i1 == i2 by {
            assert(self.entries@[i1].0 == before.entries@[i1].0);
            assert(self.entries@[i2].0 == before.entries@[i2].0);
        }
    }
}

} // verus!
