//! Control and status registers: a finite map from CSR addresses to values, and its
//! listing as pairs in increasing address order.
use std::collections::BTreeMap;
use vstd::prelude::*;
use vstd::std_specs::cmp::OrdSpec;

verus! {

/// The addresses of `e` increase strictly from each pair to the next.
pub open spec fn keys_increasing(e: Seq<(u16, u64)>) -> bool {
    forall|i: int, j: int| 0 <= i < j < e.len() ==> e[i].0 < e[j].0
}

/// The map that results from inserting the pairs of `e` one after another,
/// so that a later pair for an address wins over an earlier one.
pub open spec fn pairs_map(e: Seq<(u16, u64)>) -> Map<u16, u64>
    decreases e.len(),
{
    if e.len() == 0 {
        Map::empty()
    } else {
        pairs_map(e.drop_last()).insert(e.last().0, e.last().1)
    }
}

/// The map of a list in increasing address order holds exactly its pairs.
pub proof fn lemma_pairs_map_increasing(e: Seq<(u16, u64)>)
    requires
        keys_increasing(e),
    ensures
        forall|i: int|
            0 <= i < e.len() ==> pairs_map(e).contains_key(#[trigger] e[i].0) && pairs_map(e)[e[i].0]
                == e[i].1,
        forall|k: u16| pairs_map(e).contains_key(k) ==> exists|i: int| 0 <= i < e.len() && e[i].0 == k,
    decreases e.len(),
{
    if e.len() > 0 {
        let d = e.drop_last();
        lemma_pairs_map_increasing(d);
        assert forall|i: int| 0 <= i < e.len() implies pairs_map(e).contains_key(#[trigger] e[i].0)
            && pairs_map(e)[e[i].0] == e[i].1 by {
            if i < e.len() - 1 {
                assert(d[i] == e[i]);
            }
        }
        assert forall|k: u16| pairs_map(e).contains_key(k) implies exists|i: int|
            0 <= i < e.len() && e[i].0 == k by {
            if k != e.last().0 {
                assert(pairs_map(d).contains_key(k));
                let i = choose|i: int| 0 <= i < d.len() && d[i].0 == k;
                assert(d[i] == e[i]);
                assert(e[i].0 == k);
            } else {
                assert(e[e.len() - 1].0 == k);
            }
        }
    }
}

/// Two lists in increasing address order with the same map are the same list.
pub proof fn lemma_increasing_pairs_unique(a: Seq<(u16, u64)>, b: Seq<(u16, u64)>)
    requires
        keys_increasing(a),
        keys_increasing(b),
        pairs_map(a) == pairs_map(b),
    ensures
        a == b,
    decreases a.len() + b.len(),
{
    lemma_pairs_map_increasing(a);
    lemma_pairs_map_increasing(b);
    if a.len() == 0 || b.len() == 0 {
        if a.len() > 0 {
            assert(pairs_map(b).contains_key(a[0].0));
        }
        if b.len() > 0 {
            assert(pairs_map(a).contains_key(b[0].0));
        }
        assert(a =~= b);
    } else {
        let (la, lb) = (a.last(), b.last());
        assert(pairs_map(b).contains_key(la.0));
        assert(pairs_map(a).contains_key(lb.0));
        let ia = choose|i: int| 0 <= i < a.len() && a[i].0 == lb.0;
        let ib = choose|i: int| 0 <= i < b.len() && b[i].0 == la.0;
        assert(la.0 == lb.0) by {
            if la.0 < lb.0 {
                assert(a[ia].0 <= la.0);
            } else if lb.0 < la.0 {
                assert(b[ib].0 <= lb.0);
            }
        }
        assert(pairs_map(a)[la.0] == la.1);
        assert(pairs_map(b)[lb.0] == lb.1);
        let (da, db) = (a.drop_last(), b.drop_last());
        lemma_pairs_map_increasing(da);
        lemma_pairs_map_increasing(db);
        assert(pairs_map(da) =~= pairs_map(db)) by {
            assert forall|k: u16| pairs_map(da).contains_key(k) implies pairs_map(db).contains_key(k) by {
                let i = choose|i: int| 0 <= i < da.len() && da[i].0 == k;
                assert(a[i].0 < la.0);
                assert(pairs_map(b).contains_key(k));
                let j = choose|j: int| 0 <= j < b.len() && b[j].0 == k;
                assert(j != b.len() - 1);
                assert(db[j].0 == k);
            }
            assert forall|k: u16| pairs_map(db).contains_key(k) implies pairs_map(da).contains_key(k) by {
                let i = choose|i: int| 0 <= i < db.len() && db[i].0 == k;
                assert(b[i].0 < lb.0);
                assert(pairs_map(a).contains_key(k));
                let j = choose|j: int| 0 <= j < a.len() && a[j].0 == k;
                assert(j != a.len() - 1);
                assert(da[j].0 == k);
            }
            assert forall|k: u16| pairs_map(da).contains_key(k) implies pairs_map(da)[k]
                == pairs_map(db)[k] by {
                assert(k != la.0) by {
                    let i = choose|i: int| 0 <= i < da.len() && da[i].0 == k;
                    assert(a[i].0 < la.0);
                }
                assert(pairs_map(a)[k] == pairs_map(da)[k]);
                assert(pairs_map(b)[k] == pairs_map(db)[k]);
            }
        }
        lemma_increasing_pairs_unique(da, db);
        assert(a =~= b) by {
            assert(a == da.push(la));
            assert(b == db.push(lb));
        }
    }
}

/// A map that holds exactly the pairs of a list in increasing address order is the
/// map of that list.
pub proof fn lemma_pairs_map_ext(e: Seq<(u16, u64)>, m: Map<u16, u64>)
    requires
        keys_increasing(e),
        forall|i: int| 0 <= i < e.len() ==> m.contains_key(#[trigger] e[i].0) && m[e[i].0] == e[i].1,
        forall|k: u16| m.contains_key(k) ==> exists|i: int| 0 <= i < e.len() && e[i].0 == k,
    ensures
        pairs_map(e) == m,
{
    lemma_pairs_map_increasing(e);
    assert forall|k: u16| #[trigger] pairs_map(e).contains_key(k) <==> m.contains_key(k) by {
        if pairs_map(e).contains_key(k) {
            let i = choose|i: int| 0 <= i < e.len() && e[i].0 == k;
        }
        if m.contains_key(k) {
            let i = choose|i: int| 0 <= i < e.len() && e[i].0 == k;
        }
    }
    assert forall|k: u16| #[trigger] pairs_map(e).contains_key(k) implies pairs_map(e)[k] == m[k] by {
        let i = choose|i: int| 0 <= i < e.len() && e[i].0 == k;
    }
    assert(pairs_map(e) =~= m);
}

/// A file of control and status registers. An address that was never written reads as
/// missing.
pub struct CsrFile {
    map: BTreeMap<u16, u64>,
}

impl CsrFile {
    /// The registers held, by address.
    pub closed spec fn view(&self) -> Map<u16, u64> {
        self.map@
    }

    pub fn new() -> (f: Self)
        ensures
            f@ == Map::<u16, u64>::empty(),
    {
        Self { map: BTreeMap::new() }
    }

    pub fn get(&self, addr: u16) -> (r: Option<u64>)
        ensures
            r == if self@.contains_key(addr) {
                Some(self@[addr])
            } else {
                None::<u64>
            },
    {
        broadcast use vstd::laws_cmp::group_laws_cmp;

        match self.map.get(&addr) {
            Some(v) => Some(*v),
            None => None,
        }
    }

    pub fn contains_key(&self, addr: u16) -> (r: bool)
        ensures
            r == self@.contains_key(addr),
    {
        broadcast use vstd::laws_cmp::group_laws_cmp;

        self.map.contains_key(&addr)
    }

    pub fn insert(&mut self, addr: u16, value: u64)
        ensures
            final(self)@ == old(self)@.insert(addr, value),
    {
        broadcast use vstd::laws_cmp::group_laws_cmp;

        self.map.insert(addr, value);
    }

    pub fn remove(&mut self, addr: u16)
        ensures
            final(self)@ == old(self)@.remove(addr),
    {
        broadcast use vstd::laws_cmp::group_laws_cmp;

        self.map.remove(&addr);
    }

    /// The registers as a list of pairs in increasing address order.
    pub fn to_pairs(&self) -> (out: Vec<(u16, u64)>)
        ensures
            keys_increasing(out@),
            pairs_map(out@) == self@,
    {
        broadcast use vstd::laws_cmp::group_laws_cmp;

        let mut out: Vec<(u16, u64)> = Vec::new();
        let iter = self.map.iter();
        let ghost items = vstd::std_specs::iter::IteratorSpec::remaining(&iter);
        let ghost keys = items.map_values(|p: (&u16, &u64)| *p.0);
        proof {
            assert(vstd::std_specs::btree::increasing_seq(keys));
        }
        for kv in it: iter
            invariant
                it.seq() == items,
                out@ == it.seq().take(it.index()).map_values(
                    |p: (&u16, &u64)| (*p.0, *p.1),
                ),
        {
            out.push((*kv.0, *kv.1));
        }
        proof {
            let e = out@;
            assert(e =~= items.map_values(|p: (&u16, &u64)| (*p.0, *p.1)));
            vstd::std_specs::btree::axiom_increasing_seq_meaning(keys);
            assert forall|i: int, j: int| 0 <= i < j < e.len() implies e[i].0 < e[j].0 by {
                assert(keys[i] == e[i].0 && keys[j] == e[j].0);
                assert(keys[i].cmp_spec(&keys[j]) is Less);
            }
            assert forall|i: int| 0 <= i < e.len() implies self@.contains_key(#[trigger] e[i].0)
                && self@[e[i].0] == e[i].1 by {
                assert(self.map@.contains_key(*items[i].0));
            }
            assert forall|k: u16| self@.contains_key(k) implies exists|i: int|
                0 <= i < e.len() && e[i].0 == k by {
                assert(self.map@.contains_key(k));
                assert(items.contains((&k, &self.map@[k])));
                let i = choose|i: int| 0 <= i < items.len() && items[i] == (&k, &self.map@[k]);
                assert(e[i].0 == k);
            }
            lemma_pairs_map_ext(e, self@);
        }
        out
    }
}

} // verus!
