//! Snapshots of the processor state, and the differences between two of them.
use vstd::prelude::*;

use crate::csr::{
    keys_increasing, lemma_increasing_pairs_unique, lemma_pairs_map_ext,
    lemma_pairs_map_increasing, pairs_map, CsrFile,
};

verus! {

/// The processor state at one cycle of a recording.
#[derive(Clone, Debug)]
pub struct CpuSnapshot {
    pub cycle: u64,
    pub pc: u64,
    pub registers: [u64; 32],
    pub csrs: Vec<(u16, u64)>,
}

/// What changed between two snapshots.
#[derive(Clone, Debug)]
pub struct SnapshotDiff {
    pub cycle: Option<u64>,
    pub pc: Option<u64>,
    pub registers: Vec<(u8, u64)>,
    pub csrs: Vec<(u16, u64)>,
    pub csrs_removed: Vec<u16>,
}

/// The contents of a snapshot as mathematical values.
pub ghost struct SnapshotView {
    pub cycle: u64,
    pub pc: u64,
    pub registers: Seq<u64>,
    pub csrs: Seq<(u16, u64)>,
}

impl CpuSnapshot {
    pub open spec fn view(&self) -> SnapshotView {
        SnapshotView {
            cycle: self.cycle,
            pc: self.pc,
            registers: self.registers@,
            csrs: self.csrs@,
        }
    }
}

/// `now` when it differs from `before`.
pub open spec fn changed_value(now: u64, before: u64) -> Option<u64> {
    if now != before {
        Some(now)
    } else {
        None
    }
}

/// Whether a (register, value) pair differs from the register file `prev`.
pub open spec fn register_changed(prev: Seq<u64>) -> spec_fn((u8, u64)) -> bool {
    |p: (u8, u64)| p.1 != prev[p.0 as int]
}

/// The (register, value) pairs of the first `n` registers of `next` whose value differs
/// from `prev`, in register order.
pub open spec fn changed_registers_below(next: Seq<u64>, prev: Seq<u64>, n: nat) -> Seq<(u8, u64)> {
    Seq::new(n, |i: int| (i as u8, next[i])).filter(register_changed(prev))
}

/// The (register, value) pairs of `next` whose value differs from `prev`, in register order.
pub open spec fn changed_registers(next: Seq<u64>, prev: Seq<u64>) -> Seq<(u8, u64)> {
    changed_registers_below(next, prev, next.len())
}

/// The CSRs of `next` that `prev` lacks or holds with another value.
pub open spec fn changed_csrs(next: Map<u16, u64>, prev: Map<u16, u64>) -> Map<u16, u64> {
    Map::new(
        |k: u16| next.contains_key(k) && !(prev.contains_key(k) && prev[k] == next[k]),
        |k: u16| next[k],
    )
}

/// Whether a CSR pair is not held by `prev` with that value.
pub open spec fn csr_changed(prev: Map<u16, u64>) -> spec_fn((u16, u64)) -> bool {
    |p: (u16, u64)| !(prev.contains_key(p.0) && prev[p.0] == p.1)
}

/// Whether a CSR pair's address is missing from `next`.
pub open spec fn csr_missing(next: Map<u16, u64>) -> spec_fn((u16, u64)) -> bool {
    |p: (u16, u64)| !next.contains_key(p.0)
}

pub open spec fn addresses_increasing(s: Seq<u16>) -> bool {
    forall|i: int, j: int| 0 <= i < j < s.len() ==> s[i] < s[j]
}

/// `d` records what changed from `prev` to `next`: the cycle and pc when they differ,
/// the registers that differ, in register order, the CSRs of `next` that are new or
/// changed, in address order, and the addresses of the CSRs that `next` no longer holds,
/// in increasing order. A snapshot's CSR list is read as the map of its pairs.
pub open spec fn is_diff(d: SnapshotDiff, next: CpuSnapshot, prev: CpuSnapshot) -> bool {
    let nm = pairs_map(next.csrs@);
    let pm = pairs_map(prev.csrs@);
    &&& d.cycle == changed_value(next.cycle, prev.cycle)
    &&& d.pc == changed_value(next.pc, prev.pc)
    &&& d.registers@ == changed_registers(next.registers@, prev.registers@)
    &&& keys_increasing(d.csrs@)
    &&& pairs_map(d.csrs@) == changed_csrs(nm, pm)
    &&& addresses_increasing(d.csrs_removed@)
    &&& d.csrs_removed@.to_set() == pm.dom().difference(nm.dom())
}

/// The register file `regs` after the (register, value) pairs of `changes` are written in
/// order; pairs for registers that do not exist are skipped.
pub open spec fn apply_registers(regs: Seq<u64>, changes: Seq<(u8, u64)>) -> Seq<u64>
    decreases changes.len(),
{
    if changes.len() == 0 {
        regs
    } else {
        let before = apply_registers(regs, changes.drop_last());
        let (i, v) = changes.last();
        if i < regs.len() {
            before.update(i as int, v)
        } else {
            before
        }
    }
}

/// `r` is `prev` with `d` applied: cycle and pc replaced where `d` has them, registers
/// written, CSRs removed and then written, and the CSRs listed in address order.
pub open spec fn is_applied(r: CpuSnapshot, prev: CpuSnapshot, d: SnapshotDiff) -> bool {
    &&& r.cycle == match d.cycle {
        Some(c) => c,
        None => prev.cycle,
    }
    &&& r.pc == match d.pc {
        Some(p) => p,
        None => prev.pc,
    }
    &&& r.registers@ == apply_registers(prev.registers@, d.registers@)
    &&& keys_increasing(r.csrs@)
    &&& pairs_map(r.csrs@) == pairs_map(prev.csrs@).remove_keys(
        d.csrs_removed@.to_set(),
    ).union_prefer_right(pairs_map(d.csrs@))
}

/// Every item that a filter keeps comes from the list.
proof fn lemma_filter_member<A>(s: Seq<A>, p: spec_fn(A) -> bool)
    ensures
        forall|i: int| 0 <= i < s.filter(p).len() ==> s.contains(#[trigger] s.filter(p)[i]),
    decreases s.len(),
{
    reveal(Seq::filter);
    if s.len() > 0 {
        let d = s.drop_last();
        lemma_filter_member(d, p);
        let g = d.filter(p);
        let f = s.filter(p);
        assert forall|i: int| 0 <= i < f.len() implies s.contains(#[trigger] f[i]) by {
            if i < g.len() {
                assert(f[i] == g[i]);
                let k = choose|k: int| 0 <= k < d.len() && d[k] == g[i];
                assert(s[k] == f[i]);
            } else {
                assert(s[s.len() - 1] == f[i]);
            }
        }
    }
}

/// A list in increasing address order stays in that order when filtered.
proof fn lemma_filter_sub(s: Seq<(u16, u64)>, p: spec_fn((u16, u64)) -> bool)
    ensures
        forall|i: int| 0 <= i < s.filter(p).len() ==> s.contains(#[trigger] s.filter(p)[i]),
        keys_increasing(s) ==> keys_increasing(s.filter(p)),
    decreases s.len(),
{
    reveal(Seq::filter);
    lemma_filter_member(s, p);
    if s.len() > 0 {
        let d = s.drop_last();
        lemma_filter_sub(d, p);
        let g = d.filter(p);
        let f = s.filter(p);
        if keys_increasing(s) {
            assert forall|a: int, b: int| 0 <= a < b < f.len() implies f[a].0 < f[b].0 by {
                assert(f[a] == g[a]);
                if b < g.len() {
                    assert(f[b] == g[b]);
                } else {
                    let k = choose|k: int| 0 <= k < d.len() && d[k] == g[a];
                    assert(s[k] == f[a]);
                    assert(f[b] == s[s.len() - 1]);
                }
            }
        }
    }
}

/// Filtering a list in increasing address order keeps that order and keeps the map's
/// entries that pass the filter.
proof fn lemma_filter_pairs(s: Seq<(u16, u64)>, p: spec_fn((u16, u64)) -> bool)
    requires
        keys_increasing(s),
    ensures
        keys_increasing(s.filter(p)),
        pairs_map(s.filter(p)) == Map::new(
            |k: u16| pairs_map(s).contains_key(k) && p((k, pairs_map(s)[k])),
            |k: u16| pairs_map(s)[k],
        ),
{
    broadcast use vstd::seq_lib::group_filter_ensures;

    let f = s.filter(p);
    lemma_filter_sub(s, p);
    lemma_pairs_map_increasing(s);
    let want = Map::new(
        |k: u16| pairs_map(s).contains_key(k) && p((k, pairs_map(s)[k])),
        |k: u16| pairs_map(s)[k],
    );
    assert forall|i: int| 0 <= i < f.len() implies want.contains_key(#[trigger] f[i].0) && want[f[i].0]
        == f[i].1 by {
        assert(s.contains(f[i]));
        let k = choose|k: int| 0 <= k < s.len() && s[k] == f[i];
        assert(pairs_map(s)[s[k].0] == s[k].1);
        assert(p(f[i]));
    }
    assert forall|x: u16| want.contains_key(x) implies exists|i: int| 0 <= i < f.len() && f[i].0 == x by {
        let k = choose|k: int| 0 <= k < s.len() && s[k].0 == x;
        assert(pairs_map(s)[s[k].0] == s[k].1);
        assert(f.contains(s[k]));
        let i = choose|i: int| 0 <= i < f.len() && f[i] == s[k];
        assert(f[i].0 == x);
    }
    lemma_pairs_map_ext(f, want);
}

/// The CSR file that results from writing the pairs one after another.
fn map_csrs(entries: &[(u16, u64)]) -> (f: CsrFile)
    ensures
        f@ == pairs_map(entries@),
{
    let mut map = CsrFile::new();
    let mut i: usize = 0;
    while i < entries.len()
        invariant
            i <= entries@.len(),
            map@ == pairs_map(entries@.subrange(0, i as int)),
        decreases entries@.len() - i,
    {
        let (addr, value) = entries[i];
        map.insert(addr, value);
        proof {
            assert(entries@.subrange(0, i + 1).drop_last() =~= entries@.subrange(0, i as int));
        }
        i = i + 1;
    }
    proof {
        assert(entries@.subrange(0, i as int) =~= entries@);
    }
    map
}

impl CpuSnapshot {
    /// What changed from `prev` to `self`.
    pub fn diff(&self, prev: &CpuSnapshot) -> (d: SnapshotDiff)
        ensures
            is_diff(d, *self, *prev),
    {
        let cycle = if self.cycle != prev.cycle {
            Some(self.cycle)
        } else {
            None
        };
        let pc = if self.pc != prev.pc {
            Some(self.pc)
        } else {
            None
        };

        let mut registers: Vec<(u8, u64)> = Vec::new();
        let mut idx: usize = 0;
        proof {
            reveal(Seq::filter);
            assert(Seq::new(0, |i: int| (i as u8, self.registers@[i])) =~= Seq::<(u8, u64)>::empty());
        }
        while idx < 32
            invariant
                idx <= 32,
                registers@ == changed_registers_below(self.registers@, prev.registers@, idx as nat),
            decreases 32 - idx,
        {
            let value = self.registers[idx];
            proof {
                let pred = register_changed(prev.registers@);
                let before = Seq::new(idx as nat, |i: int| (i as u8, self.registers@[i]));
                assert(Seq::new((idx + 1) as nat, |i: int| (i as u8, self.registers@[i]))
                    =~= before.push((idx as u8, value)));
                before.lemma_filter_push((idx as u8, value), pred);
            }
            if value != prev.registers[idx] {
                registers.push((idx as u8, value));
            }
            idx = idx + 1;
        }

        let prev_csrs = map_csrs(prev.csrs.as_slice());
        let next_csrs = map_csrs(self.csrs.as_slice());
        let ghost nm = pairs_map(self.csrs@);
        let ghost pm = pairs_map(prev.csrs@);

        let next_pairs = next_csrs.to_pairs();
        let mut csrs: Vec<(u16, u64)> = Vec::new();
        let mut i: usize = 0;
        proof {
            reveal(Seq::filter);
            assert(next_pairs@.subrange(0, 0) =~= Seq::<(u16, u64)>::empty());
        }
        while i < next_pairs.len()
            invariant
                prev_csrs@ == pm,
                i <= next_pairs@.len(),
                csrs@ == next_pairs@.subrange(0, i as int).filter(csr_changed(pm)),
            decreases next_pairs@.len() - i,
        {
            let (addr, value) = next_pairs[i];
            proof {
                assert(next_pairs@.subrange(0, i + 1) =~= next_pairs@.subrange(0, i as int).push(
                    (addr, value),
                ));
                next_pairs@.subrange(0, i as int).lemma_filter_push((addr, value), csr_changed(pm));
            }
            match prev_csrs.get(addr) {
                Some(prev_value) if prev_value == value => {},
                _ => csrs.push((addr, value)),
            }
            i = i + 1;
        }
        proof {
            assert(next_pairs@.subrange(0, i as int) =~= next_pairs@);
            lemma_filter_pairs(next_pairs@, csr_changed(pm));
            assert(pairs_map(csrs@) =~= changed_csrs(nm, pm));
        }

        let prev_pairs = prev_csrs.to_pairs();
        let mut csrs_removed: Vec<u16> = Vec::new();
        let mut j: usize = 0;
        proof {
            reveal(Seq::filter);
            assert(prev_pairs@.subrange(0, 0) =~= Seq::<(u16, u64)>::empty());
            assert(Seq::<(u16, u64)>::empty().map_values(|q: (u16, u64)| q.0) =~= Seq::<
                u16,
            >::empty());
        }
        while j < prev_pairs.len()
            invariant
                next_csrs@ == nm,
                j <= prev_pairs@.len(),
                csrs_removed@ == prev_pairs@.subrange(0, j as int).filter(csr_missing(nm)).map_values(
                    |q: (u16, u64)| q.0,
                ),
            decreases prev_pairs@.len() - j,
        {
            let (addr, value) = prev_pairs[j];
            proof {
                let before = prev_pairs@.subrange(0, j as int);
                assert(prev_pairs@.subrange(0, j + 1) =~= before.push((addr, value)));
                before.lemma_filter_push((addr, value), csr_missing(nm));
                assert(before.filter(csr_missing(nm)).push((addr, value)).map_values(
                    |q: (u16, u64)| q.0,
                ) =~= before.filter(csr_missing(nm)).map_values(|q: (u16, u64)| q.0).push(addr));
            }
            if !next_csrs.contains_key(addr) {
                csrs_removed.push(addr);
            }
            j = j + 1;
        }
        proof {
            assert(prev_pairs@.subrange(0, j as int) =~= prev_pairs@);
            let fp = prev_pairs@.filter(csr_missing(nm));
            lemma_filter_pairs(prev_pairs@, csr_missing(nm));
            lemma_pairs_map_increasing(fp);
            assert forall|x: u16| #[trigger] csrs_removed@.to_set().contains(x) <==> pm.dom().difference(
                nm.dom(),
            ).contains(x) by {
                if csrs_removed@.to_set().contains(x) {
                    assert(csrs_removed@.contains(x));
                    let k = choose|k: int| 0 <= k < csrs_removed@.len() && csrs_removed@[k] == x;
                    assert(fp[k].0 == x);
                }
                if pm.dom().difference(nm.dom()).contains(x) {
                    assert(pairs_map(fp).contains_key(x));
                    let k = choose|k: int| 0 <= k < fp.len() && fp[k].0 == x;
                    assert(csrs_removed@[k] == x);
                }
            }
            assert(csrs_removed@.to_set() =~= pm.dom().difference(nm.dom()));
        }

        SnapshotDiff { cycle, pc, registers, csrs, csrs_removed }
    }
}


/// A list of pairs copied element by element.
pub(crate) fn copy_pairs(pairs: &[(u16, u64)]) -> (out: Vec<(u16, u64)>)
    ensures
        out@ == pairs@,
{
    let mut out: Vec<(u16, u64)> = Vec::new();
    let mut i: usize = 0;
    while i < pairs.len()
        invariant
            i <= pairs@.len(),
            out@ == pairs@.subrange(0, i as int),
        decreases pairs@.len() - i,
    {
        out.push(pairs[i]);
        i = i + 1;
        proof {
            assert(out@ =~= pairs@.subrange(0, i as int));
        }
    }
    proof {
        assert(pairs@.subrange(0, i as int) =~= pairs@);
    }
    out
}

impl CpuSnapshot {
    /// A snapshot with the same contents.
    pub fn copy(&self) -> (r: CpuSnapshot)
        ensures
            r@ == self@,
    {
        CpuSnapshot {
            cycle: self.cycle,
            pc: self.pc,
            registers: self.registers,
            csrs: copy_pairs(self.csrs.as_slice()),
        }
    }
}

impl SnapshotDiff {
    /// The snapshot that `prev` becomes with these changes.
    pub fn apply_to(&self, prev: &CpuSnapshot) -> (r: CpuSnapshot)
        ensures
            is_applied(r, *prev, *self),
    {
        let cycle = match self.cycle {
            Some(c) => c,
            None => prev.cycle,
        };
        let pc = match self.pc {
            Some(p) => p,
            None => prev.pc,
        };

        let mut registers = prev.registers;
        let mut k: usize = 0;
        proof {
            assert(self.registers@.subrange(0, 0) =~= Seq::<(u8, u64)>::empty());
        }
        while k < self.registers.len()
            invariant
                k <= self.registers@.len(),
                registers@ == apply_registers(prev.registers@, self.registers@.subrange(0, k as int)),
            decreases self.registers@.len() - k,
        {
            let (idx, value) = self.registers[k];
            proof {
                assert(self.registers@.subrange(0, k + 1).drop_last() =~= self.registers@.subrange(
                    0,
                    k as int,
                ));
            }
            let reg = idx as usize;
            if reg < registers.len() {
                registers[reg] = value;
            }
            k = k + 1;
        }
        proof {
            assert(self.registers@.subrange(0, k as int) =~= self.registers@);
        }

        let mut csrs = map_csrs(prev.csrs.as_slice());
        let ghost pm = pairs_map(prev.csrs@);
        let mut j: usize = 0;
        proof {
            assert(pm.remove_keys(self.csrs_removed@.subrange(0, 0).to_set()) =~= pm);
        }
        while j < self.csrs_removed.len()
            invariant
                j <= self.csrs_removed@.len(),
                csrs@ == pm.remove_keys(self.csrs_removed@.subrange(0, j as int).to_set()),
            decreases self.csrs_removed@.len() - j,
        {
            let addr = self.csrs_removed[j];
            csrs.remove(addr);
            proof {
                assert(self.csrs_removed@.subrange(0, j + 1) =~= self.csrs_removed@.subrange(
                    0,
                    j as int,
                ).push(addr));
                let s0 = self.csrs_removed@.subrange(0, j as int);
                let s1 = self.csrs_removed@.subrange(0, j + 1);
                assert forall|x: u16| #[trigger] s1.to_set().contains(x) <==> s0.to_set().insert(
                    addr,
                ).contains(x) by {
                    if s1.contains(x) {
                        let k = choose|k: int| 0 <= k < s1.len() && s1[k] == x;
                        if k < j {
                            assert(s0[k] == x);
                        }
                    }
                    if s0.contains(x) {
                        let k = choose|k: int| 0 <= k < s0.len() && s0[k] == x;
                        assert(s1[k] == x);
                    }
                    if x == addr {
                        assert(s1[j as int] == addr);
                    }
                }
                assert(s1.to_set() =~= s0.to_set().insert(addr));
                assert(csrs@ =~= pm.remove_keys(self.csrs_removed@.subrange(0, j + 1).to_set()));
            }
            j = j + 1;
        }
        proof {
            assert(self.csrs_removed@.subrange(0, j as int) =~= self.csrs_removed@);
        }
        let ghost kept = csrs@;
        let mut i: usize = 0;
        proof {
            assert(kept.union_prefer_right(pairs_map(self.csrs@.subrange(0, 0))) =~= kept);
        }
        while i < self.csrs.len()
            invariant
                i <= self.csrs@.len(),
                csrs@ == kept.union_prefer_right(pairs_map(self.csrs@.subrange(0, i as int))),
            decreases self.csrs@.len() - i,
        {
            let (addr, value) = self.csrs[i];
            csrs.insert(addr, value);
            proof {
                assert(self.csrs@.subrange(0, i + 1).drop_last() =~= self.csrs@.subrange(0, i as int));
                assert(csrs@ =~= kept.union_prefer_right(pairs_map(self.csrs@.subrange(0, i + 1))));
            }
            i = i + 1;
        }
        proof {
            assert(self.csrs@.subrange(0, i as int) =~= self.csrs@);
        }
        CpuSnapshot { cycle, pc, registers, csrs: csrs.to_pairs() }
    }
}

/// Writing pairs whose values agree with `next` leaves each register holding `next`'s
/// value where a pair names it and its old value elsewhere.
proof fn lemma_apply_registers(regs: Seq<u64>, next: Seq<u64>, changes: Seq<(u8, u64)>, i: int)
    requires
        regs.len() == next.len(),
        0 <= i < regs.len(),
        forall|k: int| 0 <= k < changes.len() && changes[k].0 < next.len() ==> #[trigger] changes[k].1
            == next[changes[k].0 as int],
    ensures
        apply_registers(regs, changes).len() == regs.len(),
        apply_registers(regs, changes)[i] == if exists|k: int|
            0 <= k < changes.len() && changes[k].0 == i {
            next[i]
        } else {
            regs[i]
        },
    decreases changes.len(),
{
    if changes.len() > 0 {
        let d = changes.drop_last();
        assert forall|k: int| 0 <= k < d.len() && d[k].0 < next.len() implies #[trigger] d[k].1
            == next[d[k].0 as int] by {
            assert(d[k] == changes[k]);
        }
        lemma_apply_registers(regs, next, d, i);
        if exists|k: int| 0 <= k < d.len() && d[k].0 == i {
            let k = choose|k: int| 0 <= k < d.len() && d[k].0 == i;
            assert(changes[k].0 == i);
        }
        if exists|k: int| 0 <= k < changes.len() && changes[k].0 == i {
            let k = choose|k: int| 0 <= k < changes.len() && changes[k].0 == i;
            if k < d.len() {
                assert(d[k].0 == i);
            }
        }
        let last = changes.len() - 1;
        assert(changes[last] == changes.last());
    }
}

/// Applying to `prev` the difference from `prev` to `next` gives back `next`, when the
/// CSRs of `next` are listed in increasing address order, as recorded snapshots are.
pub proof fn lemma_diff_then_apply(
    next: CpuSnapshot,
    prev: CpuSnapshot,
    d: SnapshotDiff,
    r: CpuSnapshot,
)
    requires
        keys_increasing(next.csrs@),
        is_diff(d, next, prev),
        is_applied(r, prev, d),
    ensures
        r@ == next@,
{
    broadcast use vstd::seq_lib::group_filter_ensures;

    let changes = d.registers@;
    let all = Seq::new(32, |i: int| (i as u8, next.registers@[i]));
    lemma_filter_member(all, register_changed(prev.registers@));
    assert forall|k: int| 0 <= k < changes.len() && changes[k].0 < next.registers@.len() implies #[trigger] changes[k].1
        == next.registers@[changes[k].0 as int] by {
        assert(all.contains(changes[k]));
    }
    assert forall|i: int| 0 <= i < 32 implies #[trigger] r.registers@[i] == next.registers@[i] by {
        lemma_apply_registers(prev.registers@, next.registers@, changes, i);
        if next.registers@[i] != prev.registers@[i] {
            assert(register_changed(prev.registers@)(all[i]));
            assert(changes.contains(all[i]));
            let k = choose|k: int| 0 <= k < changes.len() && changes[k] == all[i];
            assert(changes[k].0 == i);
        }
    }
    assert(r.registers@ =~= next.registers@);

    let nm = pairs_map(next.csrs@);
    let pm = pairs_map(prev.csrs@);
    assert(pairs_map(r.csrs@) =~= nm);
    lemma_increasing_pairs_unique(r.csrs@, next.csrs@);
}

} // verus!
