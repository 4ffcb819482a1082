//! Live-interval analysis: for each virtual register mentioned by the TAC
//! stream, the half-open index range from its first to its last mention.

use vstd::prelude::*;

use crate::ir::types_ir::{
    code_view, lemma_using_regs_view, spec_using_regs, tac_view, using_regs_ins, IrIns,
    ThreeAddressCode, VirtualReg,
};

verus! {

/// The live range of one virtual register: `start` is the smallest TAC index
/// mentioning it, `end` the largest. `reg` is filled in by the allocator and
/// is `None` when the interval leaves the scanner.
#[derive(Debug, Clone, Copy, PartialEq)]
pub struct Interval {
    pub vreg: VirtualReg,
    pub start: usize,
    pub end: usize,
    pub reg: Option<usize>,
}

impl Interval {
    fn new(virtual_reg: VirtualReg, start: usize, end: usize) -> (r: Interval)
        ensures
            r == (Interval { vreg: virtual_reg, start, end, reg: None }),
    {
        Interval { vreg: virtual_reg, start, end, reg: None }
    }
}

/// Whether instruction `t` mentions (defines or uses) `v`.
pub open spec fn tac_mentions(t: ThreeAddressCode, v: VirtualReg) -> bool {
    spec_using_regs(t).contains(v)
}

/// Whether any instruction of `code` mentions `v`.
pub open spec fn code_mentions(code: Seq<ThreeAddressCode>, v: VirtualReg) -> bool {
    exists|i: int| 0 <= i < code.len() && tac_mentions(code[i], v)
}

/// All register mentions of `code`, instruction by instruction, in order.
pub open spec fn all_mentions(code: Seq<ThreeAddressCode>) -> Seq<VirtualReg>
    decreases code.len(),
{
    if code.len() == 0 {
        Seq::empty()
    } else {
        all_mentions(code.drop_last()) + spec_using_regs(code.last())
    }
}

/// `s` with every repetition removed, keeping the first occurrence of each
/// element.
pub open spec fn dedup_first(s: Seq<VirtualReg>) -> Seq<VirtualReg>
    decreases s.len(),
{
    if s.len() == 0 {
        Seq::empty()
    } else {
        let rest = dedup_first(s.drop_last());
        if rest.contains(s.last()) {
            rest
        } else {
            rest.push(s.last())
        }
    }
}

/// The smallest index of `code` whose instruction mentions `v` (meaningful
/// only when `code_mentions(code, v)`).
pub open spec fn first_mention(code: Seq<ThreeAddressCode>, v: VirtualReg) -> int
    decreases code.len(),
{
    if code.len() == 0 {
        0
    } else if tac_mentions(code[0], v) {
        0
    } else {
        1 + first_mention(code.drop_first(), v)
    }
}

/// The largest index of `code` whose instruction mentions `v` (meaningful
/// only when `code_mentions(code, v)`).
pub open spec fn last_mention(code: Seq<ThreeAddressCode>, v: VirtualReg) -> int
    decreases code.len(),
{
    if code.len() == 0 {
        0
    } else if tac_mentions(code.last(), v) {
        code.len() - 1
    } else {
        last_mention(code.drop_last(), v)
    }
}

/// The virtual registers of a run of intervals, in order.
pub open spec fn ivs_vregs(r: Seq<Interval>) -> Seq<VirtualReg> {
    r.map_values(|iv: Interval| iv.vreg)
}

pub proof fn lemma_dedup_contains(s: Seq<VirtualReg>, e: VirtualReg)
    ensures
        dedup_first(s).contains(e) <==> s.contains(e),
    decreases s.len(),
{
    if s.len() == 0 {
    } else {
        lemma_dedup_contains(s.drop_last(), e);
        let rest = dedup_first(s.drop_last());
        if s.contains(e) {
            let i = choose|i: int| 0 <= i < s.len() && s[i] == e;
            if i < s.len() - 1 {
                assert(s.drop_last()[i] == e);
                assert(s.drop_last().contains(e));
                if !rest.contains(s.last()) {
                    let j = choose|j: int| 0 <= j < rest.len() && rest[j] == e;
                    assert(rest.push(s.last())[j] == e);
                }
            } else {
                if !rest.contains(s.last()) {
                    assert(rest.push(s.last()).last() == e);
                }
            }
        } else {
            assert(!s.drop_last().contains(e));
            assert(s.last() != e) by {
                assert(s[s.len() - 1] == s.last());
            }
            if !rest.contains(s.last()) {
                if rest.push(s.last()).contains(e) {
                    let j = choose|j: int|
                        0 <= j < rest.len() + 1 && rest.push(s.last())[j] == e;
                    assert(j < rest.len() ==> rest[j] == e);
                    assert(false);
                }
            }
        }
    }
}

pub proof fn lemma_dedup_distinct(s: Seq<VirtualReg>)
    ensures
        forall|i: int, j: int|
            0 <= i < j < dedup_first(s).len() ==> dedup_first(s)[i] != dedup_first(s)[j],
    decreases s.len(),
{
    if s.len() == 0 {
    } else {
        lemma_dedup_distinct(s.drop_last());
        let rest = dedup_first(s.drop_last());
        if !rest.contains(s.last()) {
            assert forall|i: int, j: int|
                0 <= i < j < rest.push(s.last()).len() implies rest.push(s.last())[i] != rest.push(
                s.last(),
            )[j] by {
                if j == rest.len() {
                    assert(rest[i] == rest.push(s.last())[i]);
                    assert(rest.contains(rest[i]));
                }
            }
        }
    }
}

pub proof fn lemma_all_mentions_push(code: Seq<ThreeAddressCode>, t: ThreeAddressCode)
    ensures
        all_mentions(code.push(t)) == all_mentions(code) + spec_using_regs(t),
{
    assert(code.push(t).drop_last() == code);
    assert(code.push(t).last() == t);
}

pub proof fn lemma_mentions_iff(code: Seq<ThreeAddressCode>, v: VirtualReg)
    ensures
        code_mentions(code, v) <==> all_mentions(code).contains(v),
    decreases code.len(),
{
    if code.len() == 0 {
    } else {
        lemma_mentions_iff(code.drop_last(), v);
        let pre = all_mentions(code.drop_last());
        let tail = spec_using_regs(code.last());
        if code_mentions(code, v) {
            let i = choose|i: int| 0 <= i < code.len() && tac_mentions(code[i], v);
            if i < code.len() - 1 {
                assert(code.drop_last()[i] == code[i]);
                assert(code_mentions(code.drop_last(), v));
                let j = choose|j: int| 0 <= j < pre.len() && pre[j] == v;
                assert((pre + tail)[j] == v);
            } else {
                assert(code[i] == code.last());
                let j = choose|j: int| 0 <= j < tail.len() && tail[j] == v;
                assert((pre + tail)[pre.len() + j] == v);
            }
        }
        if all_mentions(code).contains(v) {
            let j = choose|j: int| 0 <= j < (pre + tail).len() && (pre + tail)[j] == v;
            if j < pre.len() {
                assert(pre[j] == v);
                let i = choose|i: int|
                    0 <= i < code.drop_last().len() && tac_mentions(code.drop_last()[i], v);
                assert(tac_mentions(code[i], v));
            } else {
                assert(tail[j - pre.len()] == v);
                assert(tac_mentions(code.last(), v));
                assert(tac_mentions(code[code.len() - 1], v));
            }
        }
    }
}

pub proof fn lemma_first_mention_push(code: Seq<ThreeAddressCode>, t: ThreeAddressCode, v: VirtualReg)
    ensures
        code_mentions(code, v) ==> first_mention(code.push(t), v) == first_mention(code, v),
        !code_mentions(code, v) && tac_mentions(t, v) ==> first_mention(code.push(t), v)
            == code.len(),
    decreases code.len(),
{
    if code.len() == 0 {
        assert(code.push(t)[0] == t);
    } else {
        lemma_first_mention_push(code.drop_first(), t, v);
        assert(code.push(t)[0] == code[0]);
        assert(code.push(t).drop_first() == code.drop_first().push(t));
        if code_mentions(code, v) {
            if tac_mentions(code[0], v) {
            } else {
                assert(code_mentions(code.drop_first(), v)) by {
                    let i = choose|i: int| 0 <= i < code.len() && tac_mentions(code[i], v);
                    assert(i != 0);
                    assert(code.drop_first()[i - 1] == code[i]);
                }
            }
        } else {
            assert(!tac_mentions(code[0], v));
            assert(!code_mentions(code.drop_first(), v)) by {
                if code_mentions(code.drop_first(), v) {
                    let i = choose|i: int|
                        0 <= i < code.drop_first().len() && tac_mentions(code.drop_first()[i], v);
                    assert(tac_mentions(code[i + 1], v));
                }
            }
        }
    }
}

pub proof fn lemma_last_mention_push(code: Seq<ThreeAddressCode>, t: ThreeAddressCode, v: VirtualReg)
    ensures
        tac_mentions(t, v) ==> last_mention(code.push(t), v) == code.len(),
        !tac_mentions(t, v) ==> last_mention(code.push(t), v) == last_mention(code, v),
{
    assert(code.push(t).drop_last() == code);
    assert(code.push(t).last() == t);
}

/// The first mention really is the smallest mentioning index.
pub proof fn lemma_first_mention_props(code: Seq<ThreeAddressCode>, v: VirtualReg)
    requires
        code_mentions(code, v),
    ensures
        0 <= first_mention(code, v) < code.len(),
        tac_mentions(code[first_mention(code, v)], v),
        forall|m: int| 0 <= m < first_mention(code, v) ==> !tac_mentions(#[trigger] code[m], v),
    decreases code.len(),
{
    if tac_mentions(code[0], v) {
    } else {
        assert(code_mentions(code.drop_first(), v)) by {
            let i = choose|i: int| 0 <= i < code.len() && tac_mentions(code[i], v);
            assert(i != 0);
            assert(code.drop_first()[i - 1] == code[i]);
        }
        lemma_first_mention_props(code.drop_first(), v);
        let f = first_mention(code.drop_first(), v);
        assert(code[1 + f] == code.drop_first()[f]);
        assert forall|m: int| 0 <= m < 1 + f implies !tac_mentions(#[trigger] code[m], v) by {
            if m > 0 {
                assert(code.drop_first()[m - 1] == code[m]);
            }
        }
    }
}

/// The last mention really is the largest mentioning index.
pub proof fn lemma_last_mention_props(code: Seq<ThreeAddressCode>, v: VirtualReg)
    requires
        code_mentions(code, v),
    ensures
        0 <= last_mention(code, v) < code.len(),
        tac_mentions(code[last_mention(code, v)], v),
        forall|m: int| last_mention(code, v) < m < code.len() ==> !tac_mentions(
            #[trigger] code[m],
            v,
        ),
    decreases code.len(),
{
    if tac_mentions(code.last(), v) {
        assert(code[code.len() - 1] == code.last());
    } else {
        assert(code_mentions(code.drop_last(), v)) by {
            let i = choose|i: int| 0 <= i < code.len() && tac_mentions(code[i], v);
            assert(code[code.len() - 1] == code.last());
            assert(i != code.len() - 1);
            assert(code.drop_last()[i] == code[i]);
        }
        lemma_last_mention_props(code.drop_last(), v);
        let l = last_mention(code.drop_last(), v);
        assert(code[l] == code.drop_last()[l]);
        assert forall|m: int| l < m < code.len() implies !tac_mentions(#[trigger] code[m], v) by {
            if m < code.len() - 1 {
                assert(code.drop_last()[m] == code[m]);
            } else {
                assert(code[m] == code.last());
            }
        }
    }
}

/// A mentioned register's first mention does not come after its last.
pub proof fn lemma_mention_bounds(code: Seq<ThreeAddressCode>, v: VirtualReg)
    requires
        code_mentions(code, v),
    ensures
        0 <= first_mention(code, v) <= last_mention(code, v) < code.len(),
{
    lemma_first_mention_props(code, v);
    lemma_last_mention_props(code, v);
    if first_mention(code, v) > last_mention(code, v) {
        assert(!tac_mentions(code[first_mention(code, v)], v));
    }
}

proof fn lemma_push_contains(s: Seq<VirtualReg>, x: VirtualReg, y: VirtualReg)
    ensures
        s.push(x).contains(y) <==> (s.contains(y) || x == y),
{
    if s.push(x).contains(y) {
        let i = choose|i: int| 0 <= i < s.push(x).len() && s.push(x)[i] == y;
        if i < s.len() {
            assert(s[i] == y);
        }
    }
    if s.contains(y) {
        let i = choose|i: int| 0 <= i < s.len() && s[i] == y;
        assert(s.push(x)[i] == y);
    }
    if x == y {
        assert(s.push(x)[s.len() as int] == y);
    }
}

/// All register mentions of a code value, instruction by instruction.
pub open spec fn all_mentions_v(code: Seq<IrIns>) -> Seq<VirtualReg>
    decreases code.len(),
{
    if code.len() == 0 {
        Seq::empty()
    } else {
        all_mentions_v(code.drop_last()) + using_regs_ins(code.last())
    }
}

/// The smallest index of a code value whose instruction mentions `v`.
pub open spec fn first_mention_v(code: Seq<IrIns>, v: VirtualReg) -> int
    decreases code.len(),
{
    if code.len() == 0 {
        0
    } else if using_regs_ins(code[0]).contains(v) {
        0
    } else {
        1 + first_mention_v(code.drop_first(), v)
    }
}

/// The largest index of a code value whose instruction mentions `v`.
pub open spec fn last_mention_v(code: Seq<IrIns>, v: VirtualReg) -> int
    decreases code.len(),
{
    if code.len() == 0 {
        0
    } else if using_regs_ins(code.last()).contains(v) {
        code.len() - 1
    } else {
        last_mention_v(code.drop_last(), v)
    }
}

/// The live intervals of a code value: one per distinct mentioned register,
/// in first-mention order, bounded by the smallest and largest mentioning
/// indices.
pub open spec fn spec_intervals(code: Seq<IrIns>) -> Seq<Interval> {
    Seq::new(
        dedup_first(all_mentions_v(code)).len(),
        |k: int|
            Interval {
                vreg: dedup_first(all_mentions_v(code))[k],
                start: first_mention_v(code, dedup_first(all_mentions_v(code))[k]) as usize,
                end: last_mention_v(code, dedup_first(all_mentions_v(code))[k]) as usize,
                reg: None,
            },
    )
}

proof fn lemma_all_mentions_view(c: Seq<ThreeAddressCode>)
    ensures
        all_mentions_v(code_view(c)) == all_mentions(c),
    decreases c.len(),
{
    if c.len() > 0 {
        assert(code_view(c).drop_last() =~= code_view(c.drop_last()));
        assert(code_view(c).last() == tac_view(c.last()));
        lemma_using_regs_view(c.last());
        lemma_all_mentions_view(c.drop_last());
    }
}

proof fn lemma_first_mention_view(c: Seq<ThreeAddressCode>, v: VirtualReg)
    ensures
        first_mention_v(code_view(c), v) == first_mention(c, v),
    decreases c.len(),
{
    if c.len() > 0 {
        assert(code_view(c)[0] == tac_view(c[0]));
        lemma_using_regs_view(c[0]);
        assert(code_view(c).drop_first() =~= code_view(c.drop_first()));
        lemma_first_mention_view(c.drop_first(), v);
    }
}

proof fn lemma_last_mention_view(c: Seq<ThreeAddressCode>, v: VirtualReg)
    ensures
        last_mention_v(code_view(c), v) == last_mention(c, v),
    decreases c.len(),
{
    if c.len() > 0 {
        assert(code_view(c).last() == tac_view(c.last()));
        lemma_using_regs_view(c.last());
        assert(code_view(c).drop_last() =~= code_view(c.drop_last()));
        lemma_last_mention_view(c.drop_last(), v);
    }
}

/// Records the live interval of every virtual register the TAC mentions:
/// one interval per distinct register, in order of first mention, whose
/// bounds are exactly the smallest and largest mentioning indices.
pub fn scan_interval(codes: &Vec<ThreeAddressCode>) -> (r: Vec<Interval>)
    ensures
        ivs_vregs(r@) == dedup_first(all_mentions(codes@)),
        forall|k: int|
            0 <= k < r@.len() ==> ((#[trigger] r@[k]).reg is None && code_mentions(
                codes@,
                r@[k].vreg,
            ) && r@[k].start as int == first_mention(codes@, r@[k].vreg) && r@[k].end as int
                == last_mention(codes@, r@[k].vreg) && r@[k].start <= r@[k].end && (r@[k].end as int)
                < codes@.len()),
        forall|k1: int, k2: int| 0 <= k1 < k2 < r@.len() ==> r@[k1].vreg != r@[k2].vreg,
        forall|v: VirtualReg| code_mentions(codes@, v) ==> ivs_vregs(r@).contains(v),
        r@ == spec_intervals(code_view(codes@)),
{
    let ghost whole = codes@;
    let mut intervals: Vec<Interval> = Vec::new();
    let mut i: usize = 0;
    while i < codes.len()
        invariant
            i <= codes.len(),
            whole == codes@,
            ivs_vregs(intervals@) == dedup_first(all_mentions(whole.subrange(0, i as int))),
            forall|k: int|
                0 <= k < intervals@.len() ==> ((#[trigger] intervals@[k]).reg is None
                    && code_mentions(whole.subrange(0, i as int), intervals@[k].vreg)
                    && intervals@[k].start as int == first_mention(
                    whole.subrange(0, i as int),
                    intervals@[k].vreg,
                ) && intervals@[k].end as int == last_mention(
                    whole.subrange(0, i as int),
                    intervals@[k].vreg,
                )),
            forall|k1: int, k2: int|
                0 <= k1 < k2 < intervals@.len() ==> intervals@[k1].vreg != intervals@[k2].vreg,
        decreases codes.len() - i,
    {
        let ghost pfx = whole.subrange(0, i as int);
        let ghost t = whole[i as int];
        let regs = codes[i].get_using_regs();
        proof {
            assert(all_mentions(pfx) + spec_using_regs(t).take(0) =~= all_mentions(pfx));
            assert forall|k: int| 0 <= k < intervals@.len() implies all_mentions(pfx).contains(
                (#[trigger] intervals@[k]).vreg,
            ) by {
                lemma_mentions_iff(pfx, intervals@[k].vreg);
            }
        }
        let mut j: usize = 0;
        while j < regs.len()
            invariant
                i < codes.len(),
                j <= regs.len(),
                whole == codes@,
                pfx == whole.subrange(0, i as int),
                t == whole[i as int],
                regs@ == spec_using_regs(t),
                ivs_vregs(intervals@) == dedup_first(
                    all_mentions(pfx) + spec_using_regs(t).take(j as int),
                ),
                forall|k: int|
                    0 <= k < intervals@.len() ==> ((#[trigger] intervals@[k]).reg is None && (
                    intervals@[k].start as int == (if all_mentions(pfx).contains(
                        intervals@[k].vreg,
                    ) {
                        first_mention(pfx, intervals@[k].vreg)
                    } else {
                        i as int
                    })) && (intervals@[k].end as int == (if spec_using_regs(t).take(
                        j as int,
                    ).contains(intervals@[k].vreg) {
                        i as int
                    } else {
                        last_mention(pfx, intervals@[k].vreg)
                    }))),
                forall|k1: int, k2: int|
                    0 <= k1 < k2 < intervals@.len() ==> intervals@[k1].vreg != intervals@[k2].vreg,
            decreases regs.len() - j,
        {
            let v = regs[j];
            let ghost part = spec_using_regs(t).take(j as int);
            let ghost part1 = spec_using_regs(t).take(j as int + 1);
            proof {
                assert(part1.drop_last() =~= part);
                assert(part1.last() == v);
                assert((all_mentions(pfx) + part).push(v) =~= all_mentions(pfx) + part1);
            }
            let mut idx: Option<usize> = None;
            let mut k: usize = 0;
            while k < intervals.len()
                invariant
                    k <= intervals.len(),
                    match idx {
                        Some(m) => m < intervals.len() && intervals@[m as int].vreg == v,
                        None => forall|m: int| 0 <= m < k ==> intervals@[m].vreg != v,
                    },
                decreases intervals.len() - k,
            {
                if idx.is_none() && intervals[k].vreg == v {
                    idx = Some(k);
                }
                k += 1;
            }
            match idx {
                Some(m) => {
                    proof {
                        assert(dedup_first(all_mentions(pfx) + part).contains(v)) by {
                            assert(ivs_vregs(intervals@)[m as int] == v);
                        }
                        lemma_dedup_contains(all_mentions(pfx) + part, v);
                    }
                    let ghost pre = intervals@;
                    let mut cur = intervals[m];
                    cur.end = i;
                    intervals.remove(m);
                    intervals.insert(m, cur);
                    proof {
                        assert(intervals@ =~= pre.update(m as int, cur));
                        assert(ivs_vregs(intervals@) =~= ivs_vregs(pre));
                        assert(dedup_first(all_mentions(pfx) + part1) == dedup_first(
                            all_mentions(pfx) + part,
                        )) by {
                            assert((all_mentions(pfx) + part1).drop_last() =~= all_mentions(pfx)
                                + part);
                            assert((all_mentions(pfx) + part1).last() == v);
                        }
                        assert(part1.contains(v)) by {
                            assert(part1[part1.len() - 1] == v);
                        }
                        assert forall|k: int| 0 <= k < intervals@.len() implies (part1.contains(
                            (#[trigger] intervals@[k]).vreg,
                        ) <==> (part.contains(intervals@[k].vreg) || intervals@[k].vreg == v)) by {
                            lemma_push_contains(part, v, intervals@[k].vreg);
                            assert(part.push(v) =~= part1);
                        }
                    }
                },
                None => {
                    proof {
                        assert(!ivs_vregs(intervals@).contains(v)) by {
                            if ivs_vregs(intervals@).contains(v) {
                                let m = choose|m: int|
                                    0 <= m < ivs_vregs(intervals@).len() && ivs_vregs(
                                        intervals@,
                                    )[m] == v;
                                assert(intervals@[m].vreg == v);
                            }
                        }
                        lemma_dedup_contains(all_mentions(pfx) + part, v);
                        assert(!(all_mentions(pfx) + part).contains(v));
                        assert(!all_mentions(pfx).contains(v)) by {
                            if all_mentions(pfx).contains(v) {
                                let q = choose|q: int|
                                    0 <= q < all_mentions(pfx).len() && all_mentions(pfx)[q] == v;
                                assert((all_mentions(pfx) + part)[q] == v);
                            }
                        }
                    }
                    let ghost pre = intervals@;
                    let iv = Interval::new(v, i, i);
                    intervals.push(iv);
                    proof {
                        assert(ivs_vregs(intervals@) =~= ivs_vregs(pre).push(v));
                        assert(dedup_first(all_mentions(pfx) + part1) == dedup_first(
                            all_mentions(pfx) + part,
                        ).push(v)) by {
                            assert((all_mentions(pfx) + part1).drop_last() =~= all_mentions(pfx)
                                + part);
                            assert((all_mentions(pfx) + part1).last() == v);
                        }
                        assert(part1.contains(v)) by {
                            assert(part1[part1.len() - 1] == v);
                        }
                        assert forall|k: int| 0 <= k < intervals@.len() implies (part1.contains(
                            (#[trigger] intervals@[k]).vreg,
                        ) <==> (part.contains(intervals@[k].vreg) || intervals@[k].vreg == v)) by {
                            lemma_push_contains(part, v, intervals@[k].vreg);
                            assert(part.push(v) =~= part1);
                        }
                        assert forall|k1: int, k2: int|
                            0 <= k1 < k2 < intervals@.len() implies intervals@[k1].vreg
                            != intervals@[k2].vreg by {
                            if k2 == intervals@.len() - 1 {
                                assert(ivs_vregs(pre)[k1] == pre[k1].vreg);
                                assert(pre[k1].vreg != v) by {
                                    if pre[k1].vreg == v {
                                        assert(ivs_vregs(pre).contains(v)) by {
                                            assert(ivs_vregs(pre)[k1] == v);
                                        }
                                    }
                                }
                            }
                        }
                    }
                },
            }
            j += 1;
        }
        proof {
            assert(spec_using_regs(t).take(regs@.len() as int) =~= spec_using_regs(t));
            assert(whole.subrange(0, i as int + 1) =~= pfx.push(t));
            lemma_all_mentions_push(pfx, t);
            assert(all_mentions(pfx.push(t)) == all_mentions(pfx) + spec_using_regs(t));
            assert forall|k: int| 0 <= k < intervals@.len() implies ((
            #[trigger] intervals@[k]).reg is None && code_mentions(
                pfx.push(t),
                intervals@[k].vreg,
            ) && intervals@[k].start as int == first_mention(pfx.push(t), intervals@[k].vreg)
                && intervals@[k].end as int == last_mention(pfx.push(t), intervals@[k].vreg)) by {
                let vk = intervals@[k].vreg;
                lemma_mentions_iff(pfx, vk);
                lemma_first_mention_push(pfx, t, vk);
                lemma_last_mention_push(pfx, t, vk);
                lemma_dedup_contains(all_mentions(pfx) + spec_using_regs(t), vk);
                assert(dedup_first(all_mentions(pfx) + spec_using_regs(t)).contains(vk)) by {
                    assert(ivs_vregs(intervals@)[k] == vk);
                }
                assert((all_mentions(pfx) + spec_using_regs(t)).contains(vk));
                if !all_mentions(pfx).contains(vk) {
                    assert(spec_using_regs(t).contains(vk)) by {
                        let q = choose|q: int|
                            0 <= q < (all_mentions(pfx) + spec_using_regs(t)).len() && (
                            all_mentions(pfx) + spec_using_regs(t))[q] == vk;
                        assert(q >= all_mentions(pfx).len());
                        assert(spec_using_regs(t)[q - all_mentions(pfx).len()] == vk);
                    }
                    assert(tac_mentions(t, vk));
                    assert(code_mentions(pfx.push(t), vk)) by {
                        assert(pfx.push(t)[pfx.len() as int] == t);
                    }
                } else {
                    assert(code_mentions(pfx, vk));
                    assert(code_mentions(pfx.push(t), vk)) by {
                        let q = choose|q: int| 0 <= q < pfx.len() && tac_mentions(pfx[q], vk);
                        assert(pfx.push(t)[q] == pfx[q]);
                    }
                }
            }
        }
        i += 1;
    }
    proof {
        assert(whole.subrange(0, codes@.len() as int) == codes@);
        assert forall|k: int| 0 <= k < intervals@.len() implies (intervals@[k].start
            <= intervals@[k].end && (intervals@[k].end as int) < codes@.len()) by {
            lemma_mention_bounds(codes@, intervals@[k].vreg);
        }
        assert forall|v: VirtualReg| code_mentions(codes@, v) implies ivs_vregs(
            intervals@,
        ).contains(v) by {
            lemma_mentions_iff(codes@, v);
            lemma_dedup_contains(all_mentions(codes@), v);
        }
        lemma_all_mentions_view(codes@);
        assert forall|k: int| 0 <= k < intervals@.len() implies #[trigger] intervals@[k]
            == spec_intervals(code_view(codes@))[k] by {
            assert(ivs_vregs(intervals@)[k] == intervals@[k].vreg);
            lemma_first_mention_view(codes@, intervals@[k].vreg);
            lemma_last_mention_view(codes@, intervals@[k].vreg);
        }
        assert(intervals@ =~= spec_intervals(code_view(codes@)));
    }
    intervals
}

} // verus!
