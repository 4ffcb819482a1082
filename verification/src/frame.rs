//! Stack-frame layout: every named local (parameters included) receives an
//! 8-byte slot, in ascending order of its virtual register's id, with offsets
//! 8, 16, 24, ... from the frame base.

use vstd::multiset::Multiset;
use vstd::prelude::*;

use crate::ir::types_ir::VirtualReg;

verus! {

/// The virtual registers of a local map, in entry order.
pub open spec fn lvar_vregs(m: Seq<(String, VirtualReg)>) -> Seq<VirtualReg> {
    m.map_values(|p: (String, VirtualReg)| p.1)
}

pub open spec fn sorted_by_id(s: Seq<VirtualReg>) -> bool {
    forall|i: int, j: int| 0 <= i < j < s.len() ==> (#[trigger] s[i]).id <= (#[trigger] s[j]).id
}

/// `x` inserted after every element whose id does not exceed `x.id`.
pub open spec fn insert_by_id(x: VirtualReg, s: Seq<VirtualReg>) -> Seq<VirtualReg>
    decreases s.len(),
{
    if s.len() == 0 {
        seq![x]
    } else if s[0].id <= x.id {
        seq![s[0]] + insert_by_id(x, s.drop_first())
    } else {
        seq![x] + s
    }
}

/// Stable sort of virtual registers by ascending id.
pub open spec fn sort_by_id(s: Seq<VirtualReg>) -> Seq<VirtualReg>
    decreases s.len(),
{
    if s.len() == 0 {
        Seq::empty()
    } else {
        insert_by_id(s.last(), sort_by_id(s.drop_last()))
    }
}

proof fn lemma_insert_by_id_props(x: VirtualReg, s: Seq<VirtualReg>)
    requires
        sorted_by_id(s),
    ensures
        sorted_by_id(insert_by_id(x, s)),
        insert_by_id(x, s).len() == s.len() + 1,
        forall|a: VirtualReg|
            (#[trigger] insert_by_id(x, s).contains(a)) <==> (s.contains(a) || a == x),
        insert_by_id(x, s).to_multiset() == s.to_multiset().insert(x),
    decreases s.len(),
{
    broadcast use vstd::seq_lib::group_to_multiset_ensures;
    broadcast use vstd::multiset::group_multiset_axioms;

    let out = insert_by_id(x, s);
    if s.len() == 0 {
        assert(seq![x] =~= Seq::<VirtualReg>::empty().push(x));
        assert(out.to_multiset() =~= s.to_multiset().insert(x));
        assert(out[0] == x);
        assert forall|a: VirtualReg| out.contains(a) implies (s.contains(a) || a == x) by {
            let i = choose|i: int| 0 <= i < out.len() && out[i] == a;
        }
    } else if s[0].id <= x.id {
        let tail = s.drop_first();
        assert(sorted_by_id(tail)) by {
            assert(forall|i: int| 0 <= i < tail.len() ==> #[trigger] tail[i] == s[i + 1]);
        }
        lemma_insert_by_id_props(x, tail);
        let rec = insert_by_id(x, tail);
        assert(out == seq![s[0]] + rec);
        assert(out.to_multiset() == s.to_multiset().insert(x)) by {
            vstd::seq_lib::lemma_multiset_commutative(seq![s[0]], rec);
            vstd::seq_lib::lemma_multiset_commutative(seq![s[0]], tail);
            assert(seq![s[0]] + tail =~= s);
            assert(seq![s[0]].to_multiset() =~= Multiset::<VirtualReg>::empty().insert(s[0])) by {
                assert(seq![s[0]] =~= Seq::<VirtualReg>::empty().push(s[0]));
            }
            assert(out.to_multiset() =~= s.to_multiset().insert(x));
        }
        assert forall|i: int, j: int| 0 <= i < j < out.len() implies (#[trigger] out[i]).id <= (
        #[trigger] out[j]).id by {
            if i == 0 {
                assert(out[0] == s[0]);
                assert(out[j] == rec[j - 1]);
                assert(rec.contains(rec[j - 1])) by {
                    assert(rec[j - 1] == rec[j - 1]);
                }
                if rec[j - 1] == x {
                } else {
                    assert(tail.contains(rec[j - 1]));
                    let m = choose|m: int| 0 <= m < tail.len() && tail[m] == rec[j - 1];
                    assert(tail[m] == s[m + 1]);
                    assert(s[0].id <= s[m + 1].id);
                }
            } else {
                assert(out[i] == rec[i - 1]);
                assert(out[j] == rec[j - 1]);
            }
        }
        assert forall|a: VirtualReg| out.contains(a) <==> (s.contains(a) || a == x) by {
            if out.contains(a) {
                let i = choose|i: int| 0 <= i < out.len() && out[i] == a;
                if i == 0 {
                    assert(s[0] == a);
                    assert(s.contains(a));
                } else {
                    assert(rec[i - 1] == a);
                    assert(rec.contains(a));
                    if tail.contains(a) {
                        let m = choose|m: int| 0 <= m < tail.len() && tail[m] == a;
                        assert(s[m + 1] == a);
                        assert(s.contains(a));
                    }
                }
            }
            if s.contains(a) {
                let i = choose|i: int| 0 <= i < s.len() && s[i] == a;
                if i == 0 {
                    assert(out[0] == a);
                } else {
                    assert(tail[i - 1] == a);
                    assert(tail.contains(a));
                    assert(rec.contains(a));
                    let m = choose|m: int| 0 <= m < rec.len() && rec[m] == a;
                    assert(out[m + 1] == a);
                }
            }
            if a == x {
                assert(rec.contains(a));
                let m = choose|m: int| 0 <= m < rec.len() && rec[m] == a;
                assert(out[m + 1] == a);
            }
        }
    } else {
        assert(out == seq![x] + s);
        assert(out.to_multiset() == s.to_multiset().insert(x)) by {
            vstd::seq_lib::lemma_multiset_commutative(seq![x], s);
            assert(seq![x].to_multiset() =~= Multiset::<VirtualReg>::empty().insert(x)) by {
                assert(seq![x] =~= Seq::<VirtualReg>::empty().push(x));
            }
            assert(out.to_multiset() =~= s.to_multiset().insert(x));
        }
        assert forall|i: int, j: int| 0 <= i < j < out.len() implies (#[trigger] out[i]).id <= (
        #[trigger] out[j]).id by {
            if i == 0 {
                assert(out[j] == s[j - 1]);
                if j > 1 {
                    assert(s[0].id <= s[j - 1].id);
                }
            } else {
                assert(out[i] == s[i - 1]);
                assert(out[j] == s[j - 1]);
            }
        }
        assert forall|a: VirtualReg| out.contains(a) <==> (s.contains(a) || a == x) by {
            if out.contains(a) {
                let i = choose|i: int| 0 <= i < out.len() && out[i] == a;
                if i > 0 {
                    assert(s[i - 1] == a);
                    assert(s.contains(a));
                }
            }
            if s.contains(a) {
                let i = choose|i: int| 0 <= i < s.len() && s[i] == a;
                assert(out[i + 1] == a);
            }
            assert(out[0] == x);
        }
    }
}

/// The sort really sorts, keeps the length, and keeps the members with
/// their multiplicities.
pub proof fn lemma_sort_by_id_props(s: Seq<VirtualReg>)
    ensures
        sorted_by_id(sort_by_id(s)),
        sort_by_id(s).len() == s.len(),
        forall|a: VirtualReg| (#[trigger] sort_by_id(s).contains(a)) <==> s.contains(a),
        sort_by_id(s).to_multiset() == s.to_multiset(),
    decreases s.len(),
{
    broadcast use vstd::seq_lib::group_to_multiset_ensures;

    if s.len() > 0 {
        lemma_sort_by_id_props(s.drop_last());
        lemma_insert_by_id_props(s.last(), sort_by_id(s.drop_last()));
        assert(s.drop_last().push(s.last()) =~= s);
        assert(sort_by_id(s).to_multiset() == s.to_multiset()) by {
            assert(sort_by_id(s).to_multiset() == sort_by_id(s.drop_last()).to_multiset().insert(
                s.last(),
            ));
            assert(s.to_multiset() == s.drop_last().to_multiset().insert(s.last()));
        }
        assert forall|a: VirtualReg| sort_by_id(s).contains(a) <==> s.contains(a) by {
            if s.contains(a) {
                let i = choose|i: int| 0 <= i < s.len() && s[i] == a;
                if i < s.len() - 1 {
                    assert(s.drop_last()[i] == a);
                    assert(s.drop_last().contains(a));
                } else {
                    assert(a == s.last());
                }
            }
            if s.drop_last().contains(a) {
                let i = choose|i: int| 0 <= i < s.drop_last().len() && s.drop_last()[i] == a;
                assert(s[i] == a);
                assert(s.contains(a));
            }
            if a == s.last() {
                assert(s[s.len() - 1] == a);
                assert(s.contains(a));
            }
        }
    }
}

proof fn lemma_insert_by_id_at(s: Seq<VirtualReg>, x: VirtualReg, p: int)
    requires
        0 <= p <= s.len(),
        forall|i: int| 0 <= i < p ==> (#[trigger] s[i]).id <= x.id,
        p < s.len() ==> s[p].id > x.id,
    ensures
        insert_by_id(x, s) == s.subrange(0, p) + seq![x] + s.subrange(p, s.len() as int),
    decreases p,
{
    if p == 0 {
        if s.len() == 0 {
            assert(insert_by_id(x, s) =~= s.subrange(0, 0) + seq![x] + s.subrange(0, 0));
        } else {
            assert(insert_by_id(x, s) =~= s.subrange(0, 0) + seq![x] + s.subrange(
                0,
                s.len() as int,
            ));
        }
    } else {
        let tail = s.drop_first();
        assert(forall|i: int| 0 <= i < tail.len() ==> #[trigger] tail[i] == s[i + 1]);
        lemma_insert_by_id_at(tail, x, p - 1);
        assert(insert_by_id(x, s) == seq![s[0]] + insert_by_id(x, tail));
        assert(insert_by_id(x, s) =~= s.subrange(0, p) + seq![x] + s.subrange(p, s.len() as int));
    }
}

/// The frame map of one function: each named local's virtual register paired
/// with its slot offset from the frame base.
pub struct Frame {
    pub vreg_to_offset: Vec<(VirtualReg, usize)>,
}

impl Frame {
    /// Lays out the frame for the named locals of one function: the locals
    /// are ordered by ascending virtual-register id (the order of first
    /// appearance in the source) and the k-th receives offset `8 * (k + 1)`,
    /// so every local appears exactly once, at a positive multiple of 8.
    pub fn from_lvar_map(lvar_map: Vec<(String, VirtualReg)>) -> (r: Frame)
        requires
            forall|k1: int, k2: int|
                0 <= k1 < k2 < lvar_map@.len() ==> (#[trigger] lvar_map@[k1]).1.id != (
                #[trigger] lvar_map@[k2]).1.id,
            8 * (lvar_map@.len() + 1) <= usize::MAX,
        ensures
            r.vreg_to_offset@.len() == lvar_map@.len(),
            forall|k: int|
                0 <= k < r.vreg_to_offset@.len() ==> (#[trigger] r.vreg_to_offset@[k]).0
                    == sort_by_id(lvar_vregs(lvar_map@))[k] && r.vreg_to_offset@[k].1 == 8 * (k + 1),
            forall|k1: int, k2: int|
                0 <= k1 < k2 < r.vreg_to_offset@.len() ==> (#[trigger] r.vreg_to_offset@[k1]).0.id
                    < (#[trigger] r.vreg_to_offset@[k2]).0.id,
            forall|v: VirtualReg|
                lvar_vregs(lvar_map@).contains(v) <==> sort_by_id(lvar_vregs(lvar_map@)).contains(
                    v,
                ),
    {
        let ghost names = lvar_map@;
        let mut vs: Vec<VirtualReg> = Vec::new();
        let mut idx: usize = 0;
        while idx < lvar_map.len()
            invariant
                idx <= lvar_map.len(),
                names == lvar_map@,
                vs@ == sort_by_id(lvar_vregs(names.subrange(0, idx as int))),
                vs@.len() == idx,
                sorted_by_id(vs@),
            decreases lvar_map.len() - idx,
        {
            let x = lvar_map[idx].1;
            let mut p: usize = 0;
            while p < vs.len() && vs[p].id <= x.id
                invariant
                    p <= vs.len(),
                    forall|i: int| 0 <= i < p ==> (#[trigger] vs@[i]).id <= x.id,
                decreases vs.len() - p,
            {
                p += 1;
            }
            let ghost pre = vs@;
            vs.insert(p, x);
            proof {
                lemma_insert_by_id_at(pre, x, p as int);
                assert(vs@ =~= pre.subrange(0, p as int) + seq![x] + pre.subrange(
                    p as int,
                    pre.len() as int,
                ));
                assert(lvar_vregs(names.subrange(0, idx as int + 1)).drop_last() =~= lvar_vregs(
                    names.subrange(0, idx as int),
                ));
                assert(lvar_vregs(names.subrange(0, idx as int + 1)).last() == x);
                lemma_insert_by_id_props(x, pre);
            }
            idx += 1;
        }
        proof {
            assert(names.subrange(0, names.len() as int) =~= names);
            lemma_sort_by_id_props(lvar_vregs(names));
        }
        let ghost vsg = vs@;
        // Distinct inputs sort to strictly increasing ids.
        proof {
            assert forall|k1: int, k2: int|
                0 <= k1 < k2 < lvar_vregs(names).len() implies (#[trigger] lvar_vregs(
                names,
            )[k1]).id != (#[trigger] lvar_vregs(names)[k2]).id by {
                assert(lvar_vregs(names)[k1] == names[k1].1);
                assert(lvar_vregs(names)[k2] == names[k2].1);
            }
            let vv = lvar_vregs(names);
            assert(vv.no_duplicates()) by {
                assert forall|i1: int, i2: int|
                    0 <= i1 < vv.len() && 0 <= i2 < vv.len() && i1 != i2 implies vv[i1]
                    != vv[i2] by {
                    if i1 < i2 {
                        assert(vv[i1].id != vv[i2].id);
                    } else {
                        assert(vv[i2].id != vv[i1].id);
                    }
                }
            }
            vv.lemma_multiset_has_no_duplicates();
            vsg.lemma_multiset_has_no_duplicates_conv();
            assert(vsg.no_duplicates());
            assert forall|k1: int, k2: int| 0 <= k1 < k2 < vsg.len() implies vsg[k1].id
                < vsg[k2].id by {
                assert(vsg[k1].id <= vsg[k2].id);
                assert(vsg[k1] != vsg[k2]);
            }
        }
        let mut vreg_to_offset: Vec<(VirtualReg, usize)> = Vec::new();
        let mut k: usize = 0;
        while k < vs.len()
            invariant
                k <= vs.len(),
                vs@ == vsg,
                vsg.len() == names.len(),
                names == lvar_map@,
                8 * (names.len() + 1) <= usize::MAX,
                vreg_to_offset@.len() == k,
                forall|m: int|
                    0 <= m < k ==> (#[trigger] vreg_to_offset@[m]).0 == vsg[m]
                        && vreg_to_offset@[m].1 == 8 * (m + 1),
            decreases vs.len() - k,
        {
            let off: usize = 8 * (k + 1);
            vreg_to_offset.push((vs[k], off));
            k += 1;
        }
        Frame { vreg_to_offset }
    }
}

} // verus!
