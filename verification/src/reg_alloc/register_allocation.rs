//! Linear-scan register allocation: intervals are swept in `start` order, an
//! active set tracks the registers currently held, and each interval receives
//! the lowest physical register free at its start. Spilling is not supported:
//! running out of registers is a terminal allocation error.

use vstd::prelude::*;

use crate::ir::types_ir::VirtualReg;
use crate::reg_alloc::interval_analysis::{ivs_vregs, Interval};

verus! {

/// Failure of the allocator: more values live at one point than there are
/// physical registers, and spilling is unsupported.
#[derive(Debug, Clone, Copy, PartialEq, Eq, Structural)]
pub enum RegAllocError {
    Spill,
}

impl RegAllocError {
    /// The diagnostic text of the error.
    pub fn message(&self) -> (r: &'static str)
        ensures
            r@ == spill_message(),
    {
        "no handle for spill"
    }
}

/// The allocator's diagnostic text for a spill.
pub open spec fn spill_message() -> Seq<char> {
    "no handle for spill"@
}

/// Two live ranges overlap when neither ends before the other starts.
pub open spec fn overlap(a: Interval, b: Interval) -> bool {
    a.start < b.end && b.start < a.end
}

/// The physical register of an interval, once assigned.
pub open spec fn reg_val(a: Interval) -> usize {
    match a.reg {
        Some(r) => r,
        None => 0,
    }
}

/// Whether interval `a` holds physical register `r`.
pub open spec fn has_reg(a: Interval, r: int) -> bool {
    match a.reg {
        Some(x) => x as int == r,
        None => false,
    }
}

/// Whether any interval of `act` holds physical register `r`.
pub open spec fn reg_used(act: Seq<Interval>, r: int) -> bool {
    exists|k: int| 0 <= k < act.len() && has_reg(#[trigger] act[k], r)
}

pub open spec fn sorted_by_start(s: Seq<Interval>) -> bool {
    forall|i: int, j: int| 0 <= i < j < s.len() ==> (#[trigger] s[i]).start <= (#[trigger] s[j]).start
}

/// `x` inserted after every element of `s` whose start does not exceed
/// `x.start`: the insertion point of a stable sort.
pub open spec fn insert_sorted(x: Interval, s: Seq<Interval>) -> Seq<Interval>
    decreases s.len(),
{
    if s.len() == 0 {
        seq![x]
    } else if s[0].start <= x.start {
        seq![s[0]] + insert_sorted(x, s.drop_first())
    } else {
        seq![x] + s
    }
}

/// Stable sort of intervals by ascending `start`: elements with equal starts
/// keep their input order.
pub open spec fn sort_by_start(s: Seq<Interval>) -> Seq<Interval>
    decreases s.len(),
{
    if s.len() == 0 {
        Seq::empty()
    } else {
        insert_sorted(s.last(), sort_by_start(s.drop_last()))
    }
}

/// The members of `act` still live past `cutoff` (those with `end > cutoff`),
/// in order.
pub open spec fn retain_live(act: Seq<Interval>, cutoff: int) -> Seq<Interval>
    decreases act.len(),
{
    if act.len() == 0 {
        Seq::empty()
    } else {
        let rest = retain_live(act.drop_last(), cutoff);
        if act.last().end > cutoff {
            rest.push(act.last())
        } else {
            rest
        }
    }
}

/// The lowest register index in `[i, reg_count)` not held by any member of
/// `act`; `reg_count` when all are held.
pub open spec fn spec_find_free(act: Seq<Interval>, i: int, reg_count: int) -> int
    decreases reg_count - i,
{
    if i < 0 || i >= reg_count {
        reg_count
    } else if !reg_used(act, i) {
        i
    } else {
        spec_find_free(act, i + 1, reg_count)
    }
}

/// `x` with physical register `r` assigned.
pub open spec fn assign_reg(x: Interval, r: int) -> Interval {
    Interval { vreg: x.vreg, start: x.start, end: x.end, reg: Some(r as usize) }
}

/// The linear scan itself, over intervals already sorted by start: retire the
/// active intervals that end at or before the next start, then give the next
/// interval the lowest free register. `None` means the scan ran out of
/// registers.
pub open spec fn spec_alloc(pending: Seq<Interval>, active: Seq<Interval>, reg_count: int) -> Option<
    Seq<Interval>,
>
    decreases pending.len(),
{
    if pending.len() == 0 {
        Some(Seq::empty())
    } else {
        let x = pending[0];
        let act = retain_live(active, x.start as int);
        if act.len() < reg_count {
            let x2 = assign_reg(x, spec_find_free(act, 0, reg_count));
            match spec_alloc(pending.drop_first(), act.push(x2), reg_count) {
                Some(rest) => Some(seq![x2] + rest),
                None => None,
            }
        } else {
            None
        }
    }
}

/// A well-formed active set: every member holds a register below
/// `reg_count`, and no two members hold the same register.
pub open spec fn wf_active(act: Seq<Interval>, reg_count: int) -> bool {
    &&& forall|k: int|
        0 <= k < act.len() ==> (#[trigger] act[k]).reg is Some && (reg_val(act[k]) as int)
            < reg_count
    &&& forall|k1: int, k2: int| 0 <= k1 < k2 < act.len() ==> act[k1].reg != act[k2].reg
}

proof fn lemma_retain_props(act: Seq<Interval>, cutoff: int)
    ensures
        forall|k: int|
            0 <= k < retain_live(act, cutoff).len() ==> act.contains(
                #[trigger] retain_live(act, cutoff)[k],
            ) && retain_live(act, cutoff)[k].end > cutoff,
    decreases act.len(),
{
    if act.len() == 0 {
    } else {
        lemma_retain_props(act.drop_last(), cutoff);
        let rest = retain_live(act.drop_last(), cutoff);
        assert forall|k: int| 0 <= k < rest.len() implies act.contains(rest[k]) by {
            assert(act.drop_last().contains(rest[k]));
            let m = choose|m: int| 0 <= m < act.drop_last().len() && act.drop_last()[m] == rest[k];
            assert(act[m] == rest[k]);
        }
        if act.last().end > cutoff {
            assert(act.contains(act.last())) by {
                assert(act[act.len() - 1] == act.last());
            }
        }
    }
}

proof fn lemma_retain_keeps(act: Seq<Interval>, cutoff: int, a: Interval)
    requires
        act.contains(a),
        a.end > cutoff,
    ensures
        retain_live(act, cutoff).contains(a),
    decreases act.len(),
{
    if act.len() > 0 {
        let rest = retain_live(act.drop_last(), cutoff);
        if a == act.last() {
            if act.last().end > cutoff {
                assert(rest.push(act.last())[rest.len() as int] == a);
            }
        } else {
            let m = choose|m: int| 0 <= m < act.len() && act[m] == a;
            assert(m < act.len() - 1);
            assert(act.drop_last()[m] == a);
            lemma_retain_keeps(act.drop_last(), cutoff, a);
            if act.last().end > cutoff {
                let q = choose|q: int| 0 <= q < rest.len() && rest[q] == a;
                assert(rest.push(act.last())[q] == a);
            }
        }
    }
}

proof fn lemma_retain_wf(act: Seq<Interval>, cutoff: int, reg_count: int)
    requires
        wf_active(act, reg_count),
    ensures
        wf_active(retain_live(act, cutoff), reg_count),
    decreases act.len(),
{
    if act.len() == 0 {
    } else {
        assert(wf_active(act.drop_last(), reg_count)) by {
            assert(forall|k: int|
                0 <= k < act.drop_last().len() ==> #[trigger] act.drop_last()[k] == act[k]);
        }
        lemma_retain_wf(act.drop_last(), cutoff, reg_count);
        let rest = retain_live(act.drop_last(), cutoff);
        lemma_retain_props(act.drop_last(), cutoff);
        if act.last().end > cutoff {
            let out = rest.push(act.last());
            assert forall|k: int|
                0 <= k < out.len() implies (#[trigger] out[k]).reg is Some && (reg_val(
                out[k],
            ) as int) < reg_count by {
                if k < rest.len() {
                    assert(out[k] == rest[k]);
                } else {
                    assert(out[k] == act.last());
                    assert(act[act.len() - 1] == act.last());
                }
            }
            assert forall|k1: int, k2: int| 0 <= k1 < k2 < out.len() implies out[k1].reg
                != out[k2].reg by {
                if k2 == rest.len() {
                    assert(out[k1] == rest[k1]);
                    assert(act.drop_last().contains(rest[k1]));
                    let m = choose|m: int|
                        0 <= m < act.drop_last().len() && act.drop_last()[m] == rest[k1];
                    assert(act[m] == rest[k1]);
                    assert(act[act.len() - 1] == act.last());
                    assert(act[m].reg != act[act.len() - 1].reg);
                } else {
                    assert(out[k1] == rest[k1]);
                    assert(out[k2] == rest[k2]);
                }
            }
        }
    }
}

/// Pigeonhole: if every register in `[0, r)` is held by some member of
/// `act`, then `act` has at least `r` members.
proof fn lemma_used_count(act: Seq<Interval>, r: int)
    requires
        0 <= r,
        forall|i: int| 0 <= i < r ==> reg_used(act, i),
    ensures
        r <= act.len(),
    decreases r,
{
    if r > 0 {
        assert(reg_used(act, r - 1));
        let k = choose|k: int| 0 <= k < act.len() && has_reg(#[trigger] act[k], r - 1);
        let act2 = act.remove(k);
        assert forall|i: int| 0 <= i < r - 1 implies reg_used(act2, i) by {
            assert(reg_used(act, i));
            let m = choose|m: int| 0 <= m < act.len() && has_reg(#[trigger] act[m], i);
            assert(m != k);
            if m < k {
                assert(act2[m] == act[m]);
                assert(has_reg(act2[m], i));
            } else {
                assert(act2[m - 1] == act[m]);
                assert(has_reg(act2[m - 1], i));
            }
        }
        lemma_used_count(act2, r - 1);
    }
}

/// The free-register search succeeds whenever the active set is smaller than
/// the register pool, and returns the lowest free index.
proof fn lemma_find_free_props(act: Seq<Interval>, i: int, reg_count: int)
    requires
        0 <= i <= reg_count,
    ensures
        spec_find_free(act, i, reg_count) == reg_count ==> forall|j: int|
            i <= j < reg_count ==> reg_used(act, j),
        spec_find_free(act, i, reg_count) < reg_count ==> i <= spec_find_free(act, i, reg_count)
            && !reg_used(act, spec_find_free(act, i, reg_count)),
        i <= spec_find_free(act, i, reg_count) <= reg_count,
    decreases reg_count - i,
{
    if i < reg_count && reg_used(act, i) {
        lemma_find_free_props(act, i + 1, reg_count);
    }
}

proof fn lemma_find_free_some(act: Seq<Interval>, reg_count: int)
    requires
        act.len() < reg_count,
    ensures
        0 <= spec_find_free(act, 0, reg_count) < reg_count,
        !reg_used(act, spec_find_free(act, 0, reg_count)),
{
    lemma_find_free_props(act, 0, reg_count);
    if spec_find_free(act, 0, reg_count) == reg_count {
        lemma_used_count(act, reg_count);
    }
}

/// Soundness of the linear scan: when it succeeds it returns the input
/// intervals in order, each holding a register below the pool size, and no
/// two overlapping intervals (among the results, or between a result and a
/// prior active interval) hold the same register.
proof fn lemma_alloc_props(pending: Seq<Interval>, active: Seq<Interval>, reg_count: int)
    requires
        reg_count <= usize::MAX,
        sorted_by_start(pending),
        wf_active(active, reg_count),
        pending.len() > 0 ==> forall|k: int|
            0 <= k < active.len() ==> (#[trigger] active[k]).start <= pending[0].start,
    ensures
        match spec_alloc(pending, active, reg_count) {
            Some(res) => {
                &&& res.len() == pending.len()
                &&& (forall|k: int|
                    0 <= k < res.len() ==> (#[trigger] res[k]).vreg == pending[k].vreg
                        && res[k].start == pending[k].start && res[k].end == pending[k].end
                        && res[k].reg is Some && (reg_val(res[k]) as int) < reg_count)
                &&& (forall|k1: int, k2: int|
                    0 <= k1 < k2 < res.len() && overlap(res[k1], res[k2]) ==> res[k1].reg
                        != res[k2].reg)
                &&& (forall|k1: int, k2: int|
                    0 <= k1 < active.len() && 0 <= k2 < res.len() && overlap(
                        active[k1],
                        res[k2],
                    ) ==> active[k1].reg != res[k2].reg)
            },
            None => true,
        },
    decreases pending.len(),
{
    if pending.len() == 0 {
    } else {
        let x = pending[0];
        let act = retain_live(active, x.start as int);
        lemma_retain_wf(active, x.start as int, reg_count);
        lemma_retain_props(active, x.start as int);
        if act.len() < reg_count {
            lemma_find_free_some(act, reg_count);
            let f = spec_find_free(act, 0, reg_count);
            let x2 = assign_reg(x, f);
            let active2 = act.push(x2);
            let pending2 = pending.drop_first();
            assert(sorted_by_start(pending2)) by {
                assert(forall|i: int|
                    0 <= i < pending2.len() ==> #[trigger] pending2[i] == pending[i + 1]);
            }
            assert(wf_active(active2, reg_count)) by {
                assert forall|k1: int, k2: int| 0 <= k1 < k2 < active2.len() implies active2[k1].reg
                    != active2[k2].reg by {
                    if k2 == act.len() {
                        assert(active2[k1] == act[k1]);
                        if act[k1].reg == x2.reg {
                            assert(has_reg(act[k1], f));
                            assert(reg_used(act, f));
                        }
                    } else {
                        assert(active2[k1] == act[k1]);
                        assert(active2[k2] == act[k2]);
                    }
                }
                assert forall|k: int|
                    0 <= k < active2.len() implies (#[trigger] active2[k]).reg is Some && (reg_val(
                    active2[k],
                ) as int) < reg_count by {
                    if k < act.len() {
                        assert(active2[k] == act[k]);
                    }
                }
            }
            assert(pending2.len() > 0 ==> forall|k: int|
                0 <= k < active2.len() ==> (#[trigger] active2[k]).start <= pending2[0].start) by {
                if pending2.len() > 0 {
                    assert(pending2[0] == pending[1]);
                    assert(pending[0].start <= pending[1].start);
                    assert forall|k: int| 0 <= k < active2.len() implies (
                    #[trigger] active2[k]).start <= pending2[0].start by {
                        if k < act.len() {
                            assert(active2[k] == act[k]);
                            assert(active.contains(act[k]));
                            let m = choose|m: int|
                                0 <= m < active.len() && active[m] == act[k];
                            assert(active[m].start <= pending[0].start);
                        }
                    }
                }
            }
            lemma_alloc_props(pending2, active2, reg_count);
            match spec_alloc(pending2, active2, reg_count) {
                Some(rest) => {
                    let res = seq![x2] + rest;
                    assert(spec_alloc(pending, active, reg_count) == Some(res));
                    assert forall|k: int|
                        0 <= k < res.len() implies (#[trigger] res[k]).vreg == pending[k].vreg
                            && res[k].start == pending[k].start && res[k].end == pending[k].end
                            && res[k].reg is Some && (reg_val(res[k]) as int) < reg_count by {
                        if k == 0 {
                            assert(res[0] == x2);
                        } else {
                            assert(res[k] == rest[k - 1]);
                            assert(pending2[k - 1] == pending[k]);
                        }
                    }
                    assert forall|k1: int, k2: int|
                        0 <= k1 < k2 < res.len() && overlap(res[k1], res[k2]) implies res[k1].reg
                        != res[k2].reg by {
                        if k1 == 0 {
                            assert(res[0] == x2);
                            assert(res[k2] == rest[k2 - 1]);
                            assert(active2[act.len() as int] == x2);
                            assert(overlap(active2[act.len() as int], rest[k2 - 1]));
                        } else {
                            assert(res[k1] == rest[k1 - 1]);
                            assert(res[k2] == rest[k2 - 1]);
                        }
                    }
                    assert forall|k1: int, k2: int|
                        0 <= k1 < active.len() && 0 <= k2 < res.len() && overlap(
                            active[k1],
                            res[k2],
                        ) implies active[k1].reg != res[k2].reg by {
                        let a = active[k1];
                        if k2 == 0 {
                            assert(res[0] == x2);
                            assert(a.end > x2.start);
                            lemma_retain_keeps(active, x.start as int, a);
                            let m = choose|m: int| 0 <= m < act.len() && act[m] == a;
                            if a.reg == x2.reg {
                                assert(has_reg(act[m], f));
                                assert(reg_used(act, f));
                            }
                        } else {
                            assert(res[k2] == rest[k2 - 1]);
                            if a.end > x.start as int {
                                lemma_retain_keeps(active, x.start as int, a);
                                let m = choose|m: int| 0 <= m < act.len() && act[m] == a;
                                assert(active2[m] == a);
                                assert(overlap(active2[m], rest[k2 - 1]));
                            } else {
                                assert(rest[k2 - 1].start == pending2[k2 - 1].start);
                                assert(pending[0].start <= pending2[k2 - 1].start) by {
                                    assert(pending2[k2 - 1] == pending[k2]);
                                }
                                assert(!overlap(a, res[k2]));
                            }
                        }
                    }
                },
                None => {},
            }
        }
    }
}

proof fn lemma_insert_sorted_props(x: Interval, s: Seq<Interval>)
    requires
        sorted_by_start(s),
    ensures
        sorted_by_start(insert_sorted(x, s)),
        insert_sorted(x, s).len() == s.len() + 1,
        forall|a: Interval|
            (#[trigger] insert_sorted(x, s).contains(a)) <==> (s.contains(a) || a == x),
    decreases s.len(),
{
    let out = insert_sorted(x, s);
    if s.len() == 0 {
        assert(out[0] == x);
        assert forall|a: Interval| out.contains(a) implies (s.contains(a) || a == x) by {
            let i = choose|i: int| 0 <= i < out.len() && out[i] == a;
        }
    } else if s[0].start <= x.start {
        let tail = s.drop_first();
        assert(sorted_by_start(tail)) by {
            assert(forall|i: int| 0 <= i < tail.len() ==> #[trigger] tail[i] == s[i + 1]);
        }
        lemma_insert_sorted_props(x, tail);
        let rec = insert_sorted(x, tail);
        assert(out == seq![s[0]] + rec);
        assert(sorted_by_start(out)) by {
            assert forall|i: int, j: int| 0 <= i < j < out.len() implies (#[trigger] out[i]).start
                <= (#[trigger] out[j]).start by {
                if i == 0 {
                    assert(out[0] == s[0]);
                    assert(out[j] == rec[j - 1]);
                    assert(rec.contains(rec[j - 1])) by {
                        assert(rec[j - 1] == rec[j - 1]);
                    }
                    if rec[j - 1] == x {
                    } else {
                        assert(tail.contains(rec[j - 1]));
                        let m = choose|m: int| 0 <= m < tail.len() && tail[m] == rec[j - 1];
                        assert(tail[m] == s[m + 1]);
                        assert(s[0].start <= s[m + 1].start);
                    }
                } else {
                    assert(out[i] == rec[i - 1]);
                    assert(out[j] == rec[j - 1]);
                }
            }
        }
        assert forall|a: Interval| out.contains(a) <==> (s.contains(a) || a == x) by {
            if out.contains(a) {
                let i = choose|i: int| 0 <= i < out.len() && out[i] == a;
                if i == 0 {
                    assert(s[0] == a);
                    assert(s.contains(a));
                } else {
                    assert(rec[i - 1] == a);
                    assert(rec.contains(a));
                    if tail.contains(a) {
                        let m = choose|m: int| 0 <= m < tail.len() && tail[m] == a;
                        assert(s[m + 1] == a);
                        assert(s.contains(a));
                    }
                }
            }
            if s.contains(a) {
                let i = choose|i: int| 0 <= i < s.len() && s[i] == a;
                if i == 0 {
                    assert(out[0] == a);
                } else {
                    assert(tail[i - 1] == a);
                    assert(tail.contains(a));
                    assert(rec.contains(a));
                    let m = choose|m: int| 0 <= m < rec.len() && rec[m] == a;
                    assert(out[m + 1] == a);
                }
            }
            if a == x {
                assert(rec.contains(a));
                let m = choose|m: int| 0 <= m < rec.len() && rec[m] == a;
                assert(out[m + 1] == a);
            }
        }
    } else {
        assert(out == seq![x] + s);
        assert forall|i: int, j: int| 0 <= i < j < out.len() implies (#[trigger] out[i]).start <= (
        #[trigger] out[j]).start by {
            if i == 0 {
                assert(out[0] == x);
                assert(out[j] == s[j - 1]);
                assert(x.start < s[0].start);
                if j > 1 {
                    assert(s[0].start <= s[j - 1].start);
                }
            } else {
                assert(out[i] == s[i - 1]);
                assert(out[j] == s[j - 1]);
            }
        }
        assert forall|a: Interval| out.contains(a) <==> (s.contains(a) || a == x) by {
            if out.contains(a) {
                let i = choose|i: int| 0 <= i < out.len() && out[i] == a;
                if i > 0 {
                    assert(s[i - 1] == a);
                    assert(s.contains(a));
                }
            }
            if s.contains(a) {
                let i = choose|i: int| 0 <= i < s.len() && s[i] == a;
                assert(out[i + 1] == a);
            }
            assert(out[0] == x);
        }
    }
}

/// The stable sort really sorts, keeps the length, and keeps the members.
pub proof fn lemma_sort_props(s: Seq<Interval>)
    ensures
        sorted_by_start(sort_by_start(s)),
        sort_by_start(s).len() == s.len(),
        forall|a: Interval| (#[trigger] sort_by_start(s).contains(a)) <==> s.contains(a),
    decreases s.len(),
{
    if s.len() > 0 {
        lemma_sort_props(s.drop_last());
        lemma_insert_sorted_props(s.last(), sort_by_start(s.drop_last()));
        assert forall|a: Interval| sort_by_start(s).contains(a) <==> s.contains(a) by {
            if s.contains(a) {
                let i = choose|i: int| 0 <= i < s.len() && s[i] == a;
                if i < s.len() - 1 {
                    assert(s.drop_last()[i] == a);
                    assert(s.drop_last().contains(a));
                } else {
                    assert(a == s.last());
                }
            }
            if s.drop_last().contains(a) {
                let i = choose|i: int| 0 <= i < s.drop_last().len() && s.drop_last()[i] == a;
                assert(s[i] == a);
                assert(s.contains(a));
            }
            if a == s.last() {
                assert(s[s.len() - 1] == a);
                assert(s.contains(a));
            }
        }
    }
}

/// The members of `s` whose interval starts at `c`, in order.
pub open spec fn with_start(s: Seq<Interval>, c: int) -> Seq<Interval>
    decreases s.len(),
{
    if s.len() == 0 {
        Seq::empty()
    } else {
        let rest = with_start(s.drop_first(), c);
        if s[0].start == c {
            seq![s[0]] + rest
        } else {
            rest
        }
    }
}

proof fn lemma_with_start_none(s: Seq<Interval>, c: int)
    requires
        forall|k: int| 0 <= k < s.len() ==> (#[trigger] s[k]).start != c,
    ensures
        with_start(s, c) == Seq::<Interval>::empty(),
    decreases s.len(),
{
    if s.len() > 0 {
        assert(forall|k: int| 0 <= k < s.drop_first().len() ==> #[trigger] s.drop_first()[k] == s[k
            + 1]);
        lemma_with_start_none(s.drop_first(), c);
    }
}

proof fn lemma_with_start_push(s: Seq<Interval>, x: Interval, c: int)
    ensures
        with_start(s.push(x), c) == with_start(s, c) + (if x.start == c {
            seq![x]
        } else {
            Seq::<Interval>::empty()
        }),
    decreases s.len(),
{
    if s.len() == 0 {
        assert(s.push(x)[0] == x);
        assert(s.push(x).drop_first() =~= Seq::<Interval>::empty());
        assert(with_start(Seq::<Interval>::empty(), c) == Seq::<Interval>::empty());
        if x.start == c {
            assert(with_start(s.push(x), c) =~= with_start(s, c) + seq![x]);
        } else {
            assert(with_start(s.push(x), c) =~= with_start(s, c));
        }
    } else {
        assert(s.push(x)[0] == s[0]);
        assert(s.push(x).drop_first() =~= s.drop_first().push(x));
        lemma_with_start_push(s.drop_first(), x, c);
        if x.start == c {
            assert(with_start(s.push(x), c) =~= with_start(s, c) + seq![x]);
        } else {
            assert(with_start(s.push(x), c) =~= with_start(s, c));
        }
    }
}

proof fn lemma_insert_with_start(x: Interval, t: Seq<Interval>, c: int)
    requires
        sorted_by_start(t),
    ensures
        with_start(insert_sorted(x, t), c) == (if x.start == c {
            with_start(t, c).push(x)
        } else {
            with_start(t, c)
        }),
    decreases t.len(),
{
    let out = insert_sorted(x, t);
    if t.len() == 0 {
        assert(out[0] == x);
        assert(out.drop_first() =~= Seq::<Interval>::empty());
        assert(with_start(Seq::<Interval>::empty(), c) == Seq::<Interval>::empty());
        if x.start == c {
            assert(with_start(out, c) =~= with_start(t, c).push(x));
        }
    } else if t[0].start <= x.start {
        let tail = t.drop_first();
        assert(sorted_by_start(tail)) by {
            assert(forall|i: int| 0 <= i < tail.len() ==> #[trigger] tail[i] == t[i + 1]);
        }
        lemma_insert_with_start(x, tail, c);
        assert(out == seq![t[0]] + insert_sorted(x, tail));
        assert(out[0] == t[0]);
        assert(out.drop_first() =~= insert_sorted(x, tail));
        if x.start == c {
            if t[0].start == c {
                assert(with_start(out, c) =~= (seq![t[0]] + with_start(tail, c)).push(x));
                assert(with_start(t, c) =~= seq![t[0]] + with_start(tail, c));
            } else {
                assert(with_start(out, c) =~= with_start(tail, c).push(x));
            }
        } else {
            if t[0].start == c {
                assert(with_start(out, c) =~= seq![t[0]] + with_start(tail, c));
            } else {
                assert(with_start(out, c) =~= with_start(tail, c));
            }
        }
    } else {
        // `x` lands in front; everything behind starts strictly later, so
        // nothing behind shares its start.
        assert(out == seq![x] + t);
        assert(out[0] == x);
        assert(out.drop_first() =~= t);
        if x.start == c {
            assert(forall|k: int| 0 <= k < t.len() ==> (#[trigger] t[k]).start != c) by {
                assert(forall|k: int| 0 <= k < t.len() ==> t[0].start <= (#[trigger] t[k]).start);
            }
            lemma_with_start_none(t, c);
            assert(with_start(out, c) =~= with_start(t, c).push(x));
        } else {
            assert(with_start(out, c) =~= with_start(t, c));
        }
    }
}

/// Re-running the allocator with the same intervals and the same register
/// count yields the same assignment: the contract of `linear_reg_alloc`
/// pins its successful result to `spec_alloc` over the sorted input, a
/// function of the inputs alone, so any two runs agree.
pub proof fn lemma_alloc_deterministic(
    input: Seq<Interval>,
    reg_count: int,
    r1: Seq<Interval>,
    r2: Seq<Interval>,
)
    requires
        spec_alloc(sort_by_start(input), Seq::empty(), reg_count) == Some(r1),
        spec_alloc(sort_by_start(input), Seq::empty(), reg_count) == Some(r2),
    ensures
        r1 == r2,
{
}

/// The sort behind the allocator is stable: every run of intervals with one
/// and the same start keeps its input order, so a tie is broken
/// deterministically by input order after the sort.
pub proof fn lemma_sort_stable(s: Seq<Interval>, c: int)
    ensures
        with_start(sort_by_start(s), c) == with_start(s, c),
    decreases s.len(),
{
    if s.len() > 0 {
        lemma_sort_stable(s.drop_last(), c);
        lemma_sort_props(s.drop_last());
        lemma_insert_with_start(s.last(), sort_by_start(s.drop_last()), c);
        assert(s.drop_last().push(s.last()) =~= s);
        lemma_with_start_push(s.drop_last(), s.last(), c);
        if s.last().start == c {
            assert(with_start(s, c) =~= with_start(s.drop_last(), c).push(s.last()));
        }
    }
}

proof fn lemma_insert_sorted_at(s: Seq<Interval>, x: Interval, p: int)
    requires
        0 <= p <= s.len(),
        forall|i: int| 0 <= i < p ==> (#[trigger] s[i]).start <= x.start,
        p < s.len() ==> s[p].start > x.start,
    ensures
        insert_sorted(x, s) == s.subrange(0, p) + seq![x] + s.subrange(p, s.len() as int),
    decreases p,
{
    if p == 0 {
        if s.len() == 0 {
            assert(insert_sorted(x, s) =~= s.subrange(0, 0) + seq![x] + s.subrange(0, 0));
        } else {
            assert(insert_sorted(x, s) =~= s.subrange(0, 0) + seq![x] + s.subrange(
                0,
                s.len() as int,
            ));
        }
    } else {
        let tail = s.drop_first();
        assert(forall|i: int| 0 <= i < tail.len() ==> #[trigger] tail[i] == s[i + 1]);
        lemma_insert_sorted_at(tail, x, p - 1);
        assert(insert_sorted(x, s) == seq![s[0]] + insert_sorted(x, tail));
        assert(insert_sorted(x, s) =~= s.subrange(0, p) + seq![x] + s.subrange(p, s.len() as int));
    }
}

/// The lowest physical register not held by any member of `active`.
fn find_free_register(active: &Vec<Interval>, reg_count: usize) -> (r: Option<usize>)
    ensures
        match r {
            Some(v) => spec_find_free(active@, 0, reg_count as int) == v as int,
            None => spec_find_free(active@, 0, reg_count as int) == reg_count as int,
        },
{
    let mut i: usize = 0;
    while i < reg_count
        invariant
            i <= reg_count,
            spec_find_free(active@, 0, reg_count as int) == spec_find_free(
                active@,
                i as int,
                reg_count as int,
            ),
            forall|j: int| 0 <= j < i ==> reg_used(active@, j),
        decreases reg_count - i,
    {
        let mut used: bool = false;
        let mut k: usize = 0;
        while k < active.len()
            invariant
                k <= active.len(),
                used <==> reg_used(active@.subrange(0, k as int), i as int),
            decreases active.len() - k,
        {
            let ghost pre = active@.subrange(0, k as int);
            let is_this = match active[k].reg {
                Some(x) => x == i,
                None => false,
            };
            if is_this {
                used = true;
            }
            proof {
                assert(active@.subrange(0, k as int + 1).drop_last() =~= pre);
                assert(active@.subrange(0, k as int + 1).last() == active@[k as int]);
                let cur = active@.subrange(0, k as int + 1);
                if used {
                    if is_this {
                        assert(has_reg(cur[k as int], i as int));
                        assert(reg_used(cur, i as int));
                    } else {
                        let m = choose|m: int| 0 <= m < pre.len() && has_reg(#[trigger] pre[m], i as int);
                        assert(has_reg(cur[m], i as int));
                        assert(reg_used(cur, i as int));
                    }
                } else {
                    if reg_used(cur, i as int) {
                        let m = choose|m: int| 0 <= m < cur.len() && has_reg(#[trigger] cur[m], i as int);
                        if m < k {
                            assert(has_reg(pre[m], i as int));
                            assert(reg_used(pre, i as int));
                        }
                    }
                }
            }
            k += 1;
        }
        proof {
            assert(active@.subrange(0, active@.len() as int) =~= active@);
        }
        if !used {
            return Some(i);
        }
        i += 1;
    }
    None
}

/// Sorts the intervals by ascending start, stably, then sweeps them in
/// order, giving each the lowest free physical register; the result maps
/// each interval's virtual register to its physical register index, and no
/// two overlapping intervals share one. Fails with a spill error, and only
/// then, when more intervals are live at one point than `reg_count`.
pub fn linear_reg_alloc(intervals: &mut Vec<Interval>, reg_count: usize) -> (r: Result<
    Vec<(VirtualReg, usize)>,
    RegAllocError,
>)
    ensures
        match r {
            Ok(map) => {
                &&& spec_alloc(sort_by_start(old(intervals)@), Seq::empty(), reg_count as int)
                    == Some(final(intervals)@)
                &&& final(intervals)@.len() == old(intervals)@.len()
                &&& map@ == final(intervals)@.map_values(|iv: Interval| (iv.vreg, reg_val(iv)))
                &&& (forall|k: int|
                    0 <= k < final(intervals)@.len() ==> (#[trigger] final(intervals)@[k]).vreg
                        == sort_by_start(old(intervals)@)[k].vreg && final(intervals)@[k].start
                        == sort_by_start(old(intervals)@)[k].start && final(intervals)@[k].end
                        == sort_by_start(old(intervals)@)[k].end && final(intervals)@[k].reg
                        is Some && reg_val(final(intervals)@[k]) < reg_count)
                &&& (forall|k1: int, k2: int|
                    0 <= k1 < k2 < final(intervals)@.len() && overlap(
                        final(intervals)@[k1],
                        final(intervals)@[k2],
                    ) ==> final(intervals)@[k1].reg != final(intervals)@[k2].reg)
                &&& sorted_by_start(final(intervals)@)
                &&& (forall|v: VirtualReg|
                    ivs_vregs(final(intervals)@).contains(v) <==> ivs_vregs(
                        old(intervals)@,
                    ).contains(v))
            },
            Err(e) => {
                &&& spec_alloc(sort_by_start(old(intervals)@), Seq::empty(), reg_count as int)
                    is None
                &&& e == RegAllocError::Spill
            },
        },
{
    let ghost input = intervals@;
    // Stable insertion sort by ascending start.
    let mut sorted: Vec<Interval> = Vec::new();
    let mut idx: usize = 0;
    while idx < intervals.len()
        invariant
            idx <= intervals.len(),
            input == intervals@,
            sorted@ == sort_by_start(input.subrange(0, idx as int)),
            sorted@.len() == idx,
            sorted_by_start(sorted@),
        decreases intervals.len() - idx,
    {
        let x = intervals[idx];
        let mut p: usize = 0;
        while p < sorted.len() && sorted[p].start <= x.start
            invariant
                p <= sorted.len(),
                forall|i: int| 0 <= i < p ==> (#[trigger] sorted@[i]).start <= x.start,
            decreases sorted.len() - p,
        {
            p += 1;
        }
        let ghost pre = sorted@;
        sorted.insert(p, x);
        proof {
            lemma_insert_sorted_at(pre, x, p as int);
            assert(sorted@ =~= pre.subrange(0, p as int) + seq![x] + pre.subrange(
                p as int,
                pre.len() as int,
            ));
            assert(input.subrange(0, idx as int + 1).drop_last() =~= input.subrange(0, idx as int));
            assert(input.subrange(0, idx as int + 1).last() == x);
            lemma_insert_sorted_props(x, pre);
        }
        idx += 1;
    }
    proof {
        assert(input.subrange(0, input.len() as int) =~= input);
        lemma_sort_props(input);
    }
    let ghost sseq = sorted@;

    // The linear scan.
    let mut active: Vec<Interval> = Vec::new();
    let mut out: Vec<Interval> = Vec::new();
    let mut map: Vec<(VirtualReg, usize)> = Vec::new();
    proof {
        assert(sseq.subrange(0, sseq.len() as int) =~= sseq);
        match spec_alloc(sseq, Seq::<Interval>::empty(), reg_count as int) {
            Some(rest) => {
                assert(Seq::<Interval>::empty() + rest =~= rest);
            },
            None => {},
        }
        assert(out@ =~= Seq::<Interval>::empty());
        assert(active@ =~= Seq::<Interval>::empty());
        assert(map@ =~= out@.map_values(|iv: Interval| (iv.vreg, reg_val(iv))));
    }
    let mut i: usize = 0;
    while i < sorted.len()
        invariant
            i <= sorted.len(),
            sorted@ == sseq,
            intervals@ == old(intervals)@,
            input == old(intervals)@,
            sseq == sort_by_start(input),
            sorted_by_start(sseq),
            out@.len() == i,
            map@ == out@.map_values(|iv: Interval| (iv.vreg, reg_val(iv))),
            wf_active(active@, reg_count as int),
            forall|k: int|
                0 <= k < active@.len() ==> i < sseq.len() ==> (#[trigger] active@[k]).start
                    <= sseq[i as int].start,
            spec_alloc(sseq, Seq::empty(), reg_count as int) == (match spec_alloc(
                sseq.subrange(i as int, sseq.len() as int),
                active@,
                reg_count as int,
            ) {
                Some(rest) => Some(out@ + rest),
                None => None::<Seq<Interval>>,
            }),
        decreases sorted.len() - i,
    {
        let ghost remaining = sseq.subrange(i as int, sseq.len() as int);
        let x = sorted[i];
        proof {
            assert(remaining[0] == sseq[i as int]);
            assert(remaining.len() > 0);
        }
        // Retire every active interval that ends at or before the new start.
        let mut act2: Vec<Interval> = Vec::new();
        let mut k: usize = 0;
        while k < active.len()
            invariant
                k <= active.len(),
                act2@ == retain_live(active@.subrange(0, k as int), x.start as int),
            decreases active.len() - k,
        {
            let ghost pre = active@.subrange(0, k as int);
            if active[k].end > x.start {
                act2.push(active[k]);
            }
            proof {
                assert(active@.subrange(0, k as int + 1).drop_last() =~= pre);
                assert(active@.subrange(0, k as int + 1).last() == active@[k as int]);
            }
            k += 1;
        }
        proof {
            assert(active@.subrange(0, active@.len() as int) =~= active@);
            assert(act2@ == retain_live(active@, x.start as int));
            lemma_retain_wf(active@, x.start as int, reg_count as int);
            lemma_retain_props(active@, x.start as int);
        }
        let ghost act_g = act2@;
        if act2.len() < reg_count {
            proof {
                lemma_find_free_some(act_g, reg_count as int);
            }
            let f = match find_free_register(&act2, reg_count) {
                Some(f) => f,
                None => {
                    proof {
                        assert(false);
                    }
                    0
                },
            };
            let mut x2 = x;
            x2.reg = Some(f);
            proof {
                assert(x2 == assign_reg(x, spec_find_free(act_g, 0, reg_count as int)));
            }
            act2.push(x2);
            out.push(x2);
            map.push((x2.vreg, f));
            proof {
                let x2g = assign_reg(x, spec_find_free(act_g, 0, reg_count as int));
                assert(act2@ == act_g.push(x2g));
                // One unfolding of the scan on `remaining`.
                assert(spec_alloc(remaining, active@, reg_count as int) == (
                match spec_alloc(remaining.drop_first(), act_g.push(x2g), reg_count as int) {
                    Some(rest) => Some(seq![x2g] + rest),
                    None => None::<Seq<Interval>>,
                }));
                assert(remaining.drop_first() =~= sseq.subrange(i as int + 1, sseq.len() as int));
                assert forall|rest: Seq<Interval>| (out@.drop_last() + (seq![x2g] + rest)) =~= (
                out@ + rest) by {}
                // Well-formedness of the grown active set.
                assert(wf_active(act2@, reg_count as int)) by {
                    assert forall|k1: int, k2: int|
                        0 <= k1 < k2 < act2@.len() implies act2@[k1].reg != act2@[k2].reg by {
                        if k2 == act_g.len() {
                            assert(act2@[k1] == act_g[k1]);
                            if act_g[k1].reg == x2g.reg {
                                assert(has_reg(act_g[k1], spec_find_free(act_g, 0, reg_count as int)));
                                assert(reg_used(act_g, spec_find_free(act_g, 0, reg_count as int)));
                            }
                        } else {
                            assert(act2@[k1] == act_g[k1]);
                            assert(act2@[k2] == act_g[k2]);
                        }
                    }
                    assert forall|k: int|
                        0 <= k < act2@.len() implies (#[trigger] act2@[k]).reg is Some && (reg_val(
                        act2@[k],
                    ) as int) < reg_count as int by {
                        if k < act_g.len() {
                            assert(act2@[k] == act_g[k]);
                        }
                    }
                }
                // Every active start still precedes the next pending start.
                assert forall|k: int|
                    0 <= k < act2@.len() implies i + 1 < sseq.len() ==> (
                #[trigger] act2@[k]).start <= sseq[i as int + 1].start by {
                    if i + 1 < sseq.len() {
                        assert(sseq[i as int].start <= sseq[i as int + 1].start);
                        if k < act_g.len() {
                            assert(act2@[k] == act_g[k]);
                            assert(active@.contains(act_g[k]));
                            let m = choose|m: int| 0 <= m < active@.len() && active@[m] == act_g[k];
                            assert(active@[m].start <= sseq[i as int].start);
                        }
                    }
                }
                assert(map@ =~= out@.map_values(|iv: Interval| (iv.vreg, reg_val(iv))));
            }
            active = act2;
        } else {
            proof {
                assert(spec_alloc(remaining, active@, reg_count as int) is None);
            }
            return Err(RegAllocError::Spill);
        }
        i += 1;
    }
    proof {
        assert(sseq.subrange(sseq.len() as int, sseq.len() as int) =~= Seq::<Interval>::empty());
        assert(out@ + Seq::<Interval>::empty() =~= out@);
        assert(spec_alloc(sseq, Seq::empty(), reg_count as int) == Some(out@));
        lemma_alloc_props(sseq, Seq::empty(), reg_count as int);
        lemma_sort_props(input);
        assert forall|v: VirtualReg| ivs_vregs(out@).contains(v) <==> ivs_vregs(input).contains(
            v,
        ) by {
            if ivs_vregs(out@).contains(v) {
                let k = choose|k: int| 0 <= k < ivs_vregs(out@).len() && ivs_vregs(out@)[k] == v;
                assert(out@[k].vreg == v);
                assert(sseq[k].vreg == v);
                assert(sseq.contains(sseq[k]));
                assert(input.contains(sseq[k]));
                let m = choose|m: int| 0 <= m < input.len() && input[m] == sseq[k];
                assert(ivs_vregs(input)[m] == v);
                assert(ivs_vregs(input).contains(v)) by {
                    assert(ivs_vregs(input)[m] == v);
                }
            }
            if ivs_vregs(input).contains(v) {
                let k = choose|k: int| 0 <= k < ivs_vregs(input).len() && ivs_vregs(input)[k] == v;
                assert(input[k].vreg == v);
                assert(input.contains(input[k]));
                assert(sseq.contains(input[k]));
                let m = choose|m: int| 0 <= m < sseq.len() && sseq[m] == input[k];
                assert(out@[m].vreg == v);
                assert(ivs_vregs(out@).contains(v)) by {
                    assert(ivs_vregs(out@)[m] == v);
                }
            }
        }
    }
    *intervals = out;
    Ok(map)
}

} // verus!
