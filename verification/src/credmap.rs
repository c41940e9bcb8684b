//! The in-memory credential map: account names to secrets.
//!
//! The map is held as a vector of pairs with pairwise-distinct keys and is
//! viewed as a mathematical `Map` from account name to secret. Insertion
//! order is not significant to callers, but the order of `entries()` is what
//! the canonical JSON form of the map serializes.

use vstd::prelude::*;
use crate::strutil::str_eq;

verus! {

/// The character-level view of a vector of `(String, String)` pairs.
pub open spec fn pairs_view(v: Seq<(String, String)>) -> Seq<(Seq<char>, Seq<char>)> {
    v.map_values(|p: (String, String)| (p.0@, p.1@))
}

/// All keys of the entry sequence are pairwise distinct.
pub open spec fn distinct_keys(ps: Seq<(Seq<char>, Seq<char>)>) -> bool {
    forall|i: int, j: int| 0 <= i < j < ps.len() ==> ps[i].0 != ps[j].0
}

/// The mapping described by an entry sequence; a later entry overrides an
/// earlier one with the same key.
pub open spec fn map_of(ps: Seq<(Seq<char>, Seq<char>)>) -> Map<Seq<char>, Seq<char>>
    decreases ps.len(),
{
    if ps.len() == 0 {
        Map::empty()
    } else {
        map_of(ps.drop_last()).insert(ps.last().0, ps.last().1)
    }
}

/// A key is in the mapping exactly when some entry carries it.
pub proof fn lemma_map_of_contains(ps: Seq<(Seq<char>, Seq<char>)>, k: Seq<char>)
    ensures
        map_of(ps).contains_key(k) <==> exists|i: int| 0 <= i < ps.len() && ps[i].0 == k,
    decreases ps.len(),
{
    if ps.len() > 0 {
        lemma_map_of_contains(ps.drop_last(), k);
        if ps.last().0 == k {
            assert(ps[ps.len() - 1].0 == k);
        } else if map_of(ps).contains_key(k) {
            let i = choose|i: int| 0 <= i < ps.drop_last().len() && ps.drop_last()[i].0 == k;
            assert(ps[i].0 == k);
        } else {
            assert forall|i: int| 0 <= i < ps.len() implies ps[i].0 != k by {
                if i < ps.len() - 1 {
                    assert(ps.drop_last()[i].0 == ps[i].0);
                }
            }
        }
    }
}

/// With distinct keys, the mapping sends each entry's key to that entry's value.
pub proof fn lemma_map_of_index(ps: Seq<(Seq<char>, Seq<char>)>, i: int)
    requires
        distinct_keys(ps),
        0 <= i < ps.len(),
    ensures
        map_of(ps).contains_key(ps[i].0),
        map_of(ps)[ps[i].0] == ps[i].1,
    decreases ps.len(),
{
    lemma_map_of_contains(ps, ps[i].0);
    if i == ps.len() - 1 {
    } else {
        assert(ps.drop_last()[i] == ps[i]);
        assert(distinct_keys(ps.drop_last())) by {
            assert forall|a: int, b: int|
                0 <= a < b < ps.drop_last().len() implies ps.drop_last()[a].0 != ps.drop_last()[b].0 by {
                assert(ps.drop_last()[a] == ps[a]);
                assert(ps.drop_last()[b] == ps[b]);
            }
        }
        lemma_map_of_index(ps.drop_last(), i);
        assert(ps.last().0 != ps[i].0);
    }
}

/// Dropping the last entry keeps the keys distinct.
pub proof fn lemma_distinct_drop_last(ps: Seq<(Seq<char>, Seq<char>)>)
    requires
        distinct_keys(ps),
        ps.len() > 0,
    ensures
        distinct_keys(ps.drop_last()),
{
    assert forall|a: int, b: int|
        0 <= a < b < ps.drop_last().len() implies ps.drop_last()[a].0 != ps.drop_last()[b].0 by {
        assert(ps.drop_last()[a] == ps[a]);
        assert(ps.drop_last()[b] == ps[b]);
    }
}

/// Removing an entry keeps the keys distinct.
pub proof fn lemma_distinct_remove(ps: Seq<(Seq<char>, Seq<char>)>, i: int)
    requires
        distinct_keys(ps),
        0 <= i < ps.len(),
    ensures
        distinct_keys(ps.remove(i)),
{
    let q = ps.remove(i);
    assert forall|a: int, b: int| 0 <= a < b < q.len() implies q[a].0 != q[b].0 by {
        let a0 = if a < i { a } else { a + 1 };
        let b0 = if b < i { b } else { b + 1 };
        assert(q[a] == ps[a0]);
        assert(q[b] == ps[b0]);
    }
}

/// Appending a fresh key inserts it into the mapping.
pub proof fn lemma_map_of_push(ps: Seq<(Seq<char>, Seq<char>)>, k: Seq<char>, v: Seq<char>)
    ensures
        map_of(ps.push((k, v))) == map_of(ps).insert(k, v),
{
    assert(ps.push((k, v)).drop_last() =~= ps);
    assert(ps.push((k, v)).last() == (k, v));
}

/// With distinct keys, removing the entry that carries `k` removes `k` from
/// the mapping.
pub proof fn lemma_map_of_remove(ps: Seq<(Seq<char>, Seq<char>)>, i: int)
    requires
        distinct_keys(ps),
        0 <= i < ps.len(),
    ensures
        map_of(ps.remove(i)) =~= map_of(ps).remove(ps[i].0),
    decreases ps.len(),
{
    let k = ps[i].0;
    if i == ps.len() - 1 {
        assert(ps.remove(i) =~= ps.drop_last());
        lemma_distinct_drop_last(ps);
        lemma_map_of_contains(ps.drop_last(), k);
        assert forall|j: int| 0 <= j < ps.drop_last().len() implies ps.drop_last()[j].0 != k by {
            assert(ps.drop_last()[j] == ps[j]);
        }
        assert(!map_of(ps.drop_last()).contains_key(k));
        assert(map_of(ps) == map_of(ps.drop_last()).insert(k, ps[i].1));
        assert(map_of(ps.drop_last()) =~= map_of(ps.drop_last()).insert(k, ps[i].1).remove(k));
    } else {
        lemma_distinct_drop_last(ps);
        assert(ps.drop_last()[i] == ps[i]);
        lemma_map_of_remove(ps.drop_last(), i);
        assert(ps.remove(i).drop_last() =~= ps.drop_last().remove(i));
        assert(ps.remove(i).last() == ps.last());
        assert(map_of(ps.remove(i)) == map_of(ps.drop_last().remove(i)).insert(
            ps.last().0,
            ps.last().1,
        ));
        assert(ps.last().0 != k);
        assert(map_of(ps.drop_last()).remove(k).insert(ps.last().0, ps.last().1) =~= map_of(
            ps.drop_last(),
        ).insert(ps.last().0, ps.last().1).remove(k));
    }
}

/// With distinct keys, the mapping has exactly one key per entry.
pub proof fn lemma_map_of_len(ps: Seq<(Seq<char>, Seq<char>)>)
    requires
        distinct_keys(ps),
    ensures
        map_of(ps).dom().finite(),
        map_of(ps).dom().len() == ps.len(),
    decreases ps.len(),
{
    if ps.len() == 0 {
        assert(map_of(ps).dom() =~= Set::<Seq<char>>::empty());
    } else {
        lemma_distinct_drop_last(ps);
        lemma_map_of_len(ps.drop_last());
        lemma_map_of_contains(ps.drop_last(), ps.last().0);
        assert forall|j: int|
            0 <= j < ps.drop_last().len() implies ps.drop_last()[j].0 != ps.last().0 by {
            assert(ps.drop_last()[j] == ps[j]);
        }
        assert(!map_of(ps.drop_last()).contains_key(ps.last().0));
        assert(map_of(ps).dom() =~= map_of(ps.drop_last()).dom().insert(ps.last().0));
        vstd::set::axiom_set_insert_len(map_of(ps.drop_last()).dom(), ps.last().0);
    }
}

/// A single secrets vault in memory: account names mapped to secrets.
pub struct CredentialMap {
    pairs: Vec<(String, String)>,
}

impl View for CredentialMap {
    type V = Map<Seq<char>, Seq<char>>;

    closed spec fn view(&self) -> Map<Seq<char>, Seq<char>> {
        map_of(pairs_view(self.pairs@))
    }
}

impl CredentialMap {
    /// The entry sequence, in the order the canonical JSON form serializes.
    pub closed spec fn entries(&self) -> Seq<(Seq<char>, Seq<char>)> {
        pairs_view(self.pairs@)
    }

    /// Well-formed: all account names are pairwise distinct.
    pub open spec fn wf(&self) -> bool {
        distinct_keys(self.entries())
    }

    /// The view is the mapping described by the entries.
    pub proof fn lemma_view_is_map_of_entries(&self)
        ensures
            self@ == map_of(self.entries()),
    {
    }

    /// An empty map.
    pub fn new() -> (r: CredentialMap)
        ensures
            r.wf(),
            r@ =~= Map::<Seq<char>, Seq<char>>::empty(),
            r.entries() =~= Seq::<(Seq<char>, Seq<char>)>::empty(),
    {
        let r = CredentialMap { pairs: Vec::new() };
        proof {
            assert(r.entries() =~= Seq::<(Seq<char>, Seq<char>)>::empty());
        }
        r
    }

    /// The number of stored entries, which is the number of mapped account
    /// names.
    pub fn len(&self) -> (r: usize)
        ensures
            r == self.entries().len(),
            self.wf() ==> r == self@.dom().len(),
    {
        proof {
            if self.wf() {
                lemma_map_of_len(self.entries());
            }
        }
        self.pairs.len()
    }

    /// The position of the entry for `name`, if there is one.
    fn find_index(&self, name: &str) -> (r: Option<usize>)
        ensures
            match r {
                Some(i) => i < self.entries().len() && self.entries()[i as int].0 == name@,
                None => forall|j: int| 0 <= j < self.entries().len() ==> self.entries()[j].0 != name@,
            },
    {
        let n = self.pairs.len();
        let mut i: usize = 0;
        while i < n
            invariant
                n == self.pairs@.len(),
                i <= n,
                forall|j: int| 0 <= j < i ==> self.entries()[j].0 != name@,
            decreases n - i,
        {
            if str_eq(self.pairs[i].0.as_str(), name) {
                assert(self.entries()[i as int].0 == name@);
                return Some(i);
            }
            i += 1;
        }
        None
    }

    /// Whether an entry for `name` exists.
    pub fn contains(&self, name: &str) -> (r: bool)
        requires
            self.wf(),
        ensures
            r == self@.contains_key(name@),
    {
        proof {
            lemma_map_of_contains(self.entries(), name@);
        }
        match self.find_index(name) {
            Some(i) => {
                proof {
                    lemma_map_of_index(self.entries(), i as int);
                }
                true
            },
            None => false,
        }
    }

    /// The secret stored for `name`, if any.
    pub fn get(&self, name: &str) -> (r: Option<String>)
        requires
            self.wf(),
        ensures
            match r {
                Some(v) => self@.contains_key(name@) && v@ == self@[name@],
                None => !self@.contains_key(name@),
            },
    {
        proof {
            lemma_map_of_contains(self.entries(), name@);
        }
        match self.find_index(name) {
            Some(i) => {
                proof {
                    lemma_map_of_index(self.entries(), i as int);
                }
                Some(self.pairs[i].1.clone())
            },
            None => None,
        }
    }

    /// Insert-or-overwrite: afterwards `name` maps to `secret`.
    pub fn add(&mut self, name: String, secret: String)
        requires
            old(self).wf(),
        ensures
            final(self).wf(),
            final(self)@ =~= old(self)@.insert(name@, secret@),
    {
        let ghost ps = self.entries();
        match self.find_index(name.as_str()) {
            Some(i) => {
                proof {
                    lemma_distinct_remove(ps, i as int);
                    lemma_map_of_remove(ps, i as int);
                }
                self.pairs.remove(i);
                let ghost qs = self.entries();
                proof {
                    assert(qs =~= ps.remove(i as int));
                    lemma_map_of_contains(qs, name@);
                    lemma_map_of_push(qs, name@, secret@);
                }
                self.pairs.push((name, secret));
                proof {
                    assert(self.entries() =~= qs.push((self.entries().last().0, self.entries().last().1)));
                    assert(self.entries() =~= qs.push((name@, secret@)));
                    assert(self@ =~= map_of(ps).remove(name@).insert(name@, secret@));
                    assert(self@ =~= old(self)@.insert(name@, secret@));
                    assert forall|a: int, b: int|
                        0 <= a < b < self.entries().len() implies self.entries()[a].0
                        != self.entries()[b].0 by {
                        if b < self.entries().len() - 1 {
                            assert(self.entries()[a] == qs[a]);
                            assert(self.entries()[b] == qs[b]);
                        } else {
                            assert(self.entries()[b].0 == name@);
                            assert(self.entries()[a] == qs[a]);
                        }
                    }
                }
            },
            None => {
                proof {
                    lemma_map_of_push(ps, name@, secret@);
                }
                self.pairs.push((name, secret));
                proof {
                    assert(self.entries() =~= ps.push((name@, secret@)));
                    assert forall|a: int, b: int|
                        0 <= a < b < self.entries().len() implies self.entries()[a].0
                        != self.entries()[b].0 by {
                        if b < self.entries().len() - 1 {
                            assert(self.entries()[a] == ps[a]);
                            assert(self.entries()[b] == ps[b]);
                        } else {
                            assert(self.entries()[b].0 == name@);
                            assert(self.entries()[a] == ps[a]);
                        }
                    }
                }
            },
        }
    }

    /// Overwrite the secret for `name` only if an entry for it already
    /// exists; a missing account leaves the map untouched.
    pub fn edit(&mut self, name: &str, secret: String) -> (r: bool)
        requires
            old(self).wf(),
        ensures
            final(self).wf(),
            r == old(self)@.contains_key(name@),
            r ==> final(self)@ =~= old(self)@.insert(name@, secret@),
            !r ==> *final(self) == *old(self),
    {
        proof {
            lemma_map_of_contains(self.entries(), name@);
        }
        match self.find_index(name) {
            Some(i) => {
                proof {
                    lemma_map_of_index(self.entries(), i as int);
                }
                let key = self.pairs[i].0.clone();
                assert(key@ == name@);
                self.add(key, secret);
                true
            },
            None => false,
        }
    }

    /// Remove the entry for `name`, returning its secret if one was stored.
    pub fn remove(&mut self, name: &str) -> (r: Option<String>)
        requires
            old(self).wf(),
        ensures
            final(self).wf(),
            match r {
                Some(v) => old(self)@.contains_key(name@) && v@ == old(self)@[name@]
                    && final(self)@ =~= old(self)@.remove(name@),
                None => !old(self)@.contains_key(name@) && *final(self) == *old(self),
            },
    {
        let ghost ps = self.entries();
        proof {
            lemma_map_of_contains(ps, name@);
        }
        match self.find_index(name) {
            Some(i) => {
                proof {
                    lemma_map_of_index(ps, i as int);
                    lemma_distinct_remove(ps, i as int);
                    lemma_map_of_remove(ps, i as int);
                }
                let removed = self.pairs.remove(i);
                proof {
                    assert(self.entries() =~= ps.remove(i as int));
                }
                Some(removed.1)
            },
            None => None,
        }
    }

    /// The account name stored at position `i` of the entry order.
    pub fn key_at(&self, i: usize) -> (r: String)
        requires
            i < self.entries().len(),
        ensures
            r@ == self.entries()[i as int].0,
    {
        self.pairs[i].0.clone()
    }

    /// The secret stored at position `i` of the entry order.
    pub fn secret_at(&self, i: usize) -> (r: String)
        requires
            i < self.entries().len(),
        ensures
            r@ == self.entries()[i as int].1,
    {
        self.pairs[i].1.clone()
    }

    /// All account names, in entry order.
    pub fn keys(&self) -> (r: Vec<String>)
        ensures
            r@.len() == self.entries().len(),
            forall|i: int| 0 <= i < r@.len() ==> r@[i]@ == self.entries()[i].0,
    {
        let n = self.pairs.len();
        let mut out: Vec<String> = Vec::new();
        let mut i: usize = 0;
        while i < n
            invariant
                n == self.pairs@.len(),
                i <= n,
                out@.len() == i,
                forall|j: int| 0 <= j < i ==> out@[j]@ == self.entries()[j].0,
            decreases n - i,
        {
            out.push(self.pairs[i].0.clone());
            i += 1;
        }
        out
    }

    /// A checked constructor: accepts the entries only if the keys are
    /// pairwise distinct.
    pub fn from_entries(pairs: Vec<(String, String)>) -> (r: Option<CredentialMap>)
        ensures
            match r {
                Some(m) => distinct_keys(pairs_view(pairs@)) && m.entries() == pairs_view(pairs@)
                    && m.wf(),
                None => !distinct_keys(pairs_view(pairs@)),
            },
    {
        let m = CredentialMap { pairs };
        if m.check_distinct() {
            Some(m)
        } else {
            None
        }
    }

    /// Whether the stored keys are pairwise distinct.
    fn check_distinct(&self) -> (r: bool)
        ensures
            r == distinct_keys(self.entries()),
    {
        let n = self.pairs.len();
        let mut i: usize = 0;
        while i < n
            invariant
                n == self.pairs@.len(),
                i <= n,
                forall|a: int, b: int| 0 <= a < b < i ==> self.entries()[a].0 != self.entries()[b].0,
            decreases n - i,
        {
            let mut j: usize = 0;
            while j < i
                invariant
                    n == self.pairs@.len(),
                    j <= i < n,
                    forall|b: int| 0 <= b < j ==> self.entries()[b].0 != self.entries()[i as int].0,
                decreases i - j,
            {
                if str_eq(self.pairs[j].0.as_str(), self.pairs[i].0.as_str()) {
                    proof {
                        assert(self.entries()[j as int].0 == self.entries()[i as int].0);
                        assert(!distinct_keys(self.entries()));
                    }
                    return false;
                }
                j += 1;
            }
            i += 1;
        }
        true
    }
}

} // verus!
