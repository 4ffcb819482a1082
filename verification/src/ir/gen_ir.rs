//! Lowering from the AST to the three-address code: a per-function context
//! carries the emitted code, the virtual-register and label counters, and
//! the map from named locals to their virtual registers.

use vstd::prelude::*;

use crate::ir::types_ir::{
    code_view, param_view, tac_eq, tac_view, BinOp as IrBinOp, IrIns, Label, Param,
    ThreeAddressCode, VirtualReg,
};
use crate::types::{str_eq, BinOp, CompileError, Expr, Stmt};

verus! {

/// The node count of an expression: an upper bound on the registers its
/// lowering can mint.
pub open spec fn expr_weight(e: Expr) -> nat
    decreases e,
{
    match e {
        Expr::Num(_) => 1,
        Expr::Var(_) => 1,
        Expr::Binary { lhs, rhs, .. } => 1 + expr_weight(*lhs) + expr_weight(*rhs),
        Expr::Assign { lhs, rhs } => 1 + expr_weight(*lhs) + expr_weight(*rhs),
        Expr::Call { args, .. } => 1 + exprs_weight(args@),
        Expr::Addr(inner) => 1 + expr_weight(*inner),
        Expr::Deref(inner) => 1 + expr_weight(*inner),
    }
}

pub open spec fn exprs_weight(es: Seq<Expr>) -> nat
    decreases es,
{
    if es.len() == 0 {
        0
    } else {
        expr_weight(es[0]) + exprs_weight(es.drop_first())
    }
}

pub open spec fn opt_expr_weight(o: Option<Box<Expr>>) -> nat {
    match o {
        Some(b) => expr_weight(*b),
        None => 0,
    }
}

/// The node count of a statement: an upper bound on the registers and on
/// the labels its lowering can mint.
pub open spec fn stmt_weight(s: Stmt) -> nat
    decreases s,
{
    match s {
        Stmt::ExprStmt(e) => 1 + expr_weight(e),
        Stmt::Return(e) => 1 + expr_weight(e),
        Stmt::If { cond, then, els } => 1 + expr_weight(cond) + stmt_weight(*then) + (match els {
            Some(b) => stmt_weight(*b),
            None => 0,
        }),
        Stmt::While { cond, body } => 1 + expr_weight(cond) + stmt_weight(*body),
        Stmt::For { init, cond, update, body } => 2 + opt_expr_weight(init) + opt_expr_weight(
            cond,
        ) + opt_expr_weight(update) + stmt_weight(*body),
        Stmt::Block(stmts) => 1 + stmts_weight(stmts@),
        Stmt::Fn { params, body, .. } => 1 + exprs_weight(params@) + stmts_weight(body@),
        Stmt::VarDecl { .. } => 1,
    }
}

pub open spec fn stmts_weight(ss: Seq<Stmt>) -> nat
    decreases ss,
{
    if ss.len() == 0 {
        0
    } else {
        stmt_weight(ss[0]) + stmts_weight(ss.drop_first())
    }
}

pub proof fn lemma_expr_weight_pos(e: Expr)
    ensures
        expr_weight(e) >= 1,
{
    match e {
        Expr::Num(_) => {},
        Expr::Var(_) => {},
        Expr::Binary { .. } => {},
        Expr::Assign { .. } => {},
        Expr::Call { .. } => {},
        Expr::Addr(_) => {},
        Expr::Deref(_) => {},
    }
}

pub proof fn lemma_stmt_weight_pos(s: Stmt)
    ensures
        stmt_weight(s) >= 1,
{
    match s {
        Stmt::ExprStmt(_) => {},
        Stmt::Return(_) => {},
        Stmt::If { .. } => {},
        Stmt::While { .. } => {},
        Stmt::For { .. } => {},
        Stmt::Block(_) => {},
        Stmt::Fn { .. } => {},
        Stmt::VarDecl { .. } => {},
    }
}

/// The TAC operator of a source operator.
pub open spec fn ir_op_of(op: BinOp) -> IrBinOp {
    match op {
        BinOp::Add => IrBinOp::Add,
        BinOp::Sub => IrBinOp::Sub,
        BinOp::Mul => IrBinOp::Mul,
        BinOp::Div => IrBinOp::Div,
        BinOp::Le => IrBinOp::Le,
        BinOp::Lt => IrBinOp::Lt,
        BinOp::Eq => IrBinOp::Eq,
        BinOp::Ne => IrBinOp::Ne,
    }
}

/// The instruction that closes the lowering of an expression whose value
/// lands in `v`: a literal loads, a variable occurrence marks liveness, an
/// operator computes into a fresh destination, an assignment stores its
/// right-hand side, an address-of takes the address, a dereference loads
/// through it, and a call receives its result.
pub open spec fn expr_emits(e: Expr, t: ThreeAddressCode, v: VirtualReg) -> bool {
    match e {
        Expr::Num(n) => t == (ThreeAddressCode::LoadImm { dest: v, value: n }),
        Expr::Var(name) => t == (ThreeAddressCode::EvalVar { dest: v, name }),
        Expr::Binary { op, .. } => match t {
            ThreeAddressCode::BinOpCode { dest, op: top, .. } => dest == v && top == ir_op_of(op),
            _ => false,
        },
        Expr::Assign { .. } => match t {
            ThreeAddressCode::Assign { src, .. } => src == v,
            ThreeAddressCode::Store { src, .. } => src == v,
            _ => false,
        },
        Expr::Call { fn_name, .. } => match t {
            ThreeAddressCode::Call { fn_name: emitted, ret_reg, .. } => emitted@ == fn_name@
                && ret_reg == v,
            _ => false,
        },
        Expr::Addr(_) => match t {
            ThreeAddressCode::AddrOf { addr, .. } => addr == v,
            _ => false,
        },
        Expr::Deref(_) => match t {
            ThreeAddressCode::LoadVar { dest, .. } => dest == v,
            _ => false,
        },
    }
}

/// The shape a statement's lowering leaves at the end of the code: a return
/// instruction, a closing label for the control-flow forms, the function
/// marker at the point of entry, and at least one instruction for an
/// expression statement.
pub open spec fn stmt_emits(s: Stmt, old_len: int, code: Seq<ThreeAddressCode>) -> bool {
    match s {
        Stmt::Return(_) => code.len() > old_len && code.last() is Return,
        Stmt::While { .. } => code.len() > old_len && code.last() is Label,
        Stmt::For { .. } => code.len() > old_len && code.last() is Label,
        Stmt::If { .. } => code.len() > old_len && code.last() is Label,
        Stmt::ExprStmt(_) => code.len() > old_len,
        Stmt::Fn { .. } => code.len() > old_len && code[old_len] is Fn,
        Stmt::Block(_) => code.len() >= old_len,
        Stmt::VarDecl { .. } => code.len() >= old_len,
    }
}

/// The virtual register bound to `name`, if any.
pub open spec fn lvar_lookup(m: Seq<(String, VirtualReg)>, name: Seq<char>) -> Option<VirtualReg>
    decreases m.len(),
{
    if m.len() == 0 {
        None
    } else if m[0].0@ == name {
        Some(m[0].1)
    } else {
        lvar_lookup(m.drop_first(), name)
    }
}

/// The mathematical value of a lowering context: the emitted code, the two
/// counters, and the local map, all as sequences of plain values.
#[verifier::ext_equal]
pub ghost struct IrState {
    pub code: Seq<crate::ir::types_ir::IrIns>,
    pub rc: int,
    pub lc: int,
    pub lvars: Seq<(Seq<char>, VirtualReg)>,
}

/// The local map as its mathematical value.
pub open spec fn lvars_view(m: Seq<(String, VirtualReg)>) -> Seq<(Seq<char>, VirtualReg)> {
    m.map_values(|p: (String, VirtualReg)| (p.0@, p.1))
}

/// A context as its mathematical value.
pub open spec fn ir_state(c: GenIrContext) -> IrState {
    IrState {
        code: crate::ir::types_ir::code_view(c.code@),
        rc: c.register_count as int,
        lc: c.label_count as int,
        lvars: lvars_view(c.lvar_map@),
    }
}

/// The register bound to `name` in a state's local map, if any.
pub open spec fn st_lookup(lv: Seq<(Seq<char>, VirtualReg)>, name: Seq<char>) -> Option<VirtualReg>
    decreases lv.len(),
{
    if lv.len() == 0 {
        None
    } else if lv[0].0 == name {
        Some(lv[0].1)
    } else {
        st_lookup(lv.drop_first(), name)
    }
}

proof fn lemma_st_lookup_view(m: Seq<(String, VirtualReg)>, name: Seq<char>)
    ensures
        st_lookup(lvars_view(m), name) == lvar_lookup(m, name),
    decreases m.len(),
{
    if m.len() > 0 {
        assert(lvars_view(m)[0] == (m[0].0@, m[0].1));
        assert(lvars_view(m).drop_first() =~= lvars_view(m.drop_first()));
        lemma_st_lookup_view(m.drop_first(), name);
    }
}

/// A fresh virtual register and the state after minting it.
pub open spec fn st_fresh(st: IrState) -> (VirtualReg, IrState) {
    (
        VirtualReg { id: st.rc as usize },
        IrState { code: st.code, rc: st.rc + 1, lc: st.lc, lvars: st.lvars },
    )
}

/// The state after appending one instruction.
pub open spec fn st_emit(st: IrState, ins: crate::ir::types_ir::IrIns) -> IrState {
    IrState { code: st.code.push(ins), rc: st.rc, lc: st.lc, lvars: st.lvars }
}

/// The next label number and the state after drawing it.
pub open spec fn st_label(st: IrState) -> (int, IrState) {
    (st.lc, IrState { code: st.code, rc: st.rc, lc: st.lc + 1, lvars: st.lvars })
}

/// The register of `name`, minting and binding a fresh one on first use.
pub open spec fn st_var_reg(st: IrState, name: Seq<char>) -> (VirtualReg, IrState) {
    match st_lookup(st.lvars, name) {
        Some(v) => (v, st),
        None => {
            let v = VirtualReg { id: st.rc as usize };
            (
                v,
                IrState {
                    code: st.code,
                    rc: st.rc + 1,
                    lc: st.lc,
                    lvars: st.lvars.push((name, v)),
                },
            )
        },
    }
}

/// A place the lowering can store into: a variable, or dereferences ending
/// in one.
pub open spec fn lval_well_formed(e: Expr) -> bool
    decreases e,
{
    match e {
        Expr::Var(_) => true,
        Expr::Deref(inner) => lval_well_formed(*inner),
        _ => false,
    }
}

/// An expression the lowering accepts: assignment left sides are variables
/// or dereference chains, and an address is only taken of a variable.
pub open spec fn expr_well_formed(e: Expr) -> bool
    decreases e,
{
    match e {
        Expr::Num(_) => true,
        Expr::Var(_) => true,
        Expr::Binary { lhs, rhs, .. } => expr_well_formed(*lhs) && expr_well_formed(*rhs),
        Expr::Assign { lhs, rhs } => expr_well_formed(*rhs) && (match *lhs {
            Expr::Var(_) => true,
            Expr::Deref(_) => lval_well_formed(*lhs),
            _ => false,
        }),
        Expr::Call { args, .. } => exprs_well_formed(args@),
        Expr::Addr(inner) => *inner is Var,
        Expr::Deref(inner) => expr_well_formed(*inner),
    }
}

pub open spec fn exprs_well_formed(es: Seq<Expr>) -> bool
    decreases es,
{
    if es.len() == 0 {
        true
    } else {
        expr_well_formed(es[0]) && exprs_well_formed(es.drop_first())
    }
}

/// Every formal parameter is a plain variable.
pub open spec fn params_well_formed(es: Seq<Expr>) -> bool {
    forall|k: int| 0 <= k < es.len() ==> (#[trigger] es[k]) is Var
}

/// A statement the lowering accepts.
pub open spec fn stmt_well_formed(s: Stmt) -> bool
    decreases s,
{
    match s {
        Stmt::ExprStmt(e) => expr_well_formed(e),
        Stmt::Return(e) => expr_well_formed(e),
        Stmt::If { cond, then, els } => expr_well_formed(cond) && stmt_well_formed(*then) && (
        match els {
            Some(b) => stmt_well_formed(*b),
            None => true,
        }),
        Stmt::While { cond, body } => expr_well_formed(cond) && stmt_well_formed(*body),
        Stmt::For { init, cond, update, body } => opt_expr_well_formed(init)
            && opt_expr_well_formed(cond) && opt_expr_well_formed(update) && stmt_well_formed(
            *body,
        ),
        Stmt::Block(stmts) => stmts_well_formed(stmts@),
        Stmt::Fn { params, body, .. } => params_well_formed(params@) && stmts_well_formed(body@),
        Stmt::VarDecl { .. } => true,
    }
}

pub open spec fn opt_expr_well_formed(o: Option<Box<Expr>>) -> bool {
    match o {
        Some(b) => expr_well_formed(*b),
        None => true,
    }
}

pub open spec fn stmts_well_formed(ss: Seq<Stmt>) -> bool
    decreases ss,
{
    if ss.len() == 0 {
        true
    } else {
        stmt_well_formed(ss[0]) && stmts_well_formed(ss.drop_first())
    }
}

/// A run of expressions is well formed exactly when each member is.
pub proof fn lemma_exprs_wf_iff(es: Seq<Expr>)
    ensures
        exprs_well_formed(es) <==> (forall|k: int|
            0 <= k < es.len() ==> expr_well_formed(#[trigger] es[k])),
    decreases es.len(),
{
    if es.len() > 0 {
        lemma_exprs_wf_iff(es.drop_first());
        assert(forall|k: int|
            0 <= k < es.drop_first().len() ==> #[trigger] es.drop_first()[k] == es[k + 1]);
        if exprs_well_formed(es) {
            assert forall|k: int| 0 <= k < es.len() implies expr_well_formed(
                #[trigger] es[k],
            ) by {
                if k > 0 {
                    assert(es.drop_first()[k - 1] == es[k]);
                }
            }
        }
    }
}

/// A run of statements is well formed exactly when each member is.
pub proof fn lemma_stmts_wf_iff(ss: Seq<Stmt>)
    ensures
        stmts_well_formed(ss) <==> (forall|k: int|
            0 <= k < ss.len() ==> stmt_well_formed(#[trigger] ss[k])),
    decreases ss.len(),
{
    if ss.len() > 0 {
        lemma_stmts_wf_iff(ss.drop_first());
        assert(forall|k: int|
            0 <= k < ss.drop_first().len() ==> #[trigger] ss.drop_first()[k] == ss[k + 1]);
        if stmts_well_formed(ss) {
            assert forall|k: int| 0 <= k < ss.len() implies stmt_well_formed(
                #[trigger] ss[k],
            ) by {
                if k > 0 {
                    assert(ss.drop_first()[k - 1] == ss[k]);
                }
            }
        }
    }
}

/// The lowering of a store target, as a function of the state: the register
/// holding the address to store into, and the state after. Nested
/// dereferences load one level short; a variable yields its own register,
/// kept live by an `EvalVar`. Meaningful on well-formed targets.
pub open spec fn spec_lval_ir(e: Expr, st: IrState) -> (VirtualReg, IrState)
    decreases e,
{
    match e {
        Expr::Deref(inner) => {
            let (addr, st1) = spec_lval_ir(*inner, st);
            if *inner is Deref {
                let (value, st2) = st_fresh(st1);
                (value, st_emit(st2, IrIns::LoadVar { dest: value, addr }))
            } else {
                (addr, st1)
            }
        },
        Expr::Var(name) => {
            let (dest, st1) = st_var_reg(st, name@);
            (dest, st_emit(st1, IrIns::EvalVar { dest, name: name@ }))
        },
        _ => (VirtualReg { id: 0 }, st),
    }
}

/// The lowering of one expression, as a function of the state: the register
/// holding its value, and the state after, exactly as §4.1 of the design
/// prescribes (operands left to right, the right-hand side of an assignment
/// first and as the assignment's value, a fresh destination per operator,
/// literal, address and load, a fresh result register per call). Meaningful
/// on well-formed expressions.
pub open spec fn spec_expr_ir(e: Expr, st: IrState) -> (VirtualReg, IrState)
    decreases e,
{
    match e {
        Expr::Assign { lhs, rhs } => {
            let (src, st1) = spec_expr_ir(*rhs, st);
            match *lhs {
                Expr::Deref(_) => {
                    let (addr, st2) = spec_lval_ir(*lhs, st1);
                    (src, st_emit(st2, IrIns::Store { addr, src }))
                },
                Expr::Var(name) => {
                    let (dest, st2) = st_var_reg(st1, name@);
                    (src, st_emit(st2, IrIns::Assign { dest, src }))
                },
                _ => (src, st1),
            }
        },
        Expr::Num(val) => {
            let (reg, st1) = st_fresh(st);
            (reg, st_emit(st1, IrIns::LoadImm { dest: reg, value: val }))
        },
        Expr::Binary { op, lhs, rhs } => {
            let (left, st1) = spec_expr_ir(*lhs, st);
            let (right, st2) = spec_expr_ir(*rhs, st1);
            let (dest, st3) = st_fresh(st2);
            (dest, st_emit(st3, IrIns::BinOpCode { dest, left, op: ir_op_of(op), right }))
        },
        Expr::Var(name) => {
            let (dest, st1) = st_var_reg(st, name@);
            (dest, st_emit(st1, IrIns::EvalVar { dest, name: name@ }))
        },
        Expr::Addr(inner) => {
            match *inner {
                Expr::Var(name) => {
                    let (var, st1) = st_var_reg(st, name@);
                    let (addr, st2) = st_fresh(st1);
                    (addr, st_emit(st2, IrIns::AddrOf { addr, var }))
                },
                _ => (VirtualReg { id: 0 }, st),
            }
        },
        Expr::Deref(inner) => {
            let (dest, st1) = st_fresh(st);
            let (addr, st2) = spec_expr_ir(*inner, st1);
            (dest, st_emit(st2, IrIns::LoadVar { dest, addr }))
        },
        Expr::Call { fn_name, args } => {
            let (arg_regs, st1) = spec_exprs_ir(args@, st);
            let (ret_reg, st2) = st_fresh(st1);
            (ret_reg, st_emit(st2, IrIns::Call { fn_name: fn_name@, args: arg_regs, ret_reg }))
        },
    }
}

/// The lowering of a run of expressions, left to right.
pub open spec fn spec_exprs_ir(es: Seq<Expr>, st: IrState) -> (Seq<VirtualReg>, IrState)
    decreases es,
{
    if es.len() == 0 {
        (Seq::empty(), st)
    } else {
        let (v, st1) = spec_expr_ir(es[0], st);
        let (rest, st2) = spec_exprs_ir(es.drop_first(), st1);
        (seq![v] + rest, st2)
    }
}

/// The eager binding of the formal parameters, in declaration order.
pub open spec fn spec_params_ir(es: Seq<Expr>, st: IrState) -> (
    Seq<(VirtualReg, Seq<char>)>,
    IrState,
)
    decreases es,
{
    if es.len() == 0 {
        (Seq::empty(), st)
    } else {
        match es[0] {
            Expr::Var(name) => {
                let (dest, st1) = st_var_reg(st, name@);
                let (rest, st2) = spec_params_ir(es.drop_first(), st1);
                (seq![(dest, name@)] + rest, st2)
            },
            _ => spec_params_ir(es.drop_first(), st),
        }
    }
}

/// The lowering of one statement, as a function of the state, exactly as
/// §4.1 of the design prescribes: the `while`, `for` and `if` label shapes,
/// blocks in order, the function marker with eagerly bound parameters, and
/// a binding per declaration. Meaningful on well-formed statements.
pub open spec fn spec_stmt_ir(s: Stmt, st: IrState) -> IrState
    decreases s,
{
    match s {
        Stmt::Return(e) => {
            let (src, st1) = spec_expr_ir(e, st);
            st_emit(st1, IrIns::Return { src })
        },
        Stmt::While { cond, body } => {
            let (begin_n, st1) = st_label(st);
            let st2 = st_emit(st1, IrIns::Label { label: Label::Lbegin(begin_n as usize) });
            let (c, st3) = spec_expr_ir(cond, st2);
            let (end_n, st4) = st_label(st3);
            let st5 = st_emit(
                st4,
                IrIns::IfFalse { cond: c, label: Label::Lend(end_n as usize) },
            );
            let st6 = spec_stmt_ir(*body, st5);
            let st7 = st_emit(st6, IrIns::GoTo { label: Label::Lbegin(begin_n as usize) });
            st_emit(st7, IrIns::Label { label: Label::Lend(end_n as usize) })
        },
        Stmt::For { init, cond, update, body } => {
            let st1 = match init {
                Some(e0) => spec_expr_ir(*e0, st).1,
                None => st,
            };
            let (begin_n, st2) = st_label(st1);
            let st3 = st_emit(st2, IrIns::Label { label: Label::Lbegin(begin_n as usize) });
            let (end_n, st4) = st_label(st3);
            let st5 = match cond {
                Some(e0) => {
                    let (c, sta) = spec_expr_ir(*e0, st4);
                    st_emit(sta, IrIns::IfFalse { cond: c, label: Label::Lend(end_n as usize) })
                },
                None => st4,
            };
            let st6 = spec_stmt_ir(*body, st5);
            let st7 = match update {
                Some(e0) => spec_expr_ir(*e0, st6).1,
                None => st6,
            };
            let st8 = st_emit(st7, IrIns::GoTo { label: Label::Lbegin(begin_n as usize) });
            st_emit(st8, IrIns::Label { label: Label::Lend(end_n as usize) })
        },
        Stmt::If { cond, then, els } => {
            let (c, st1) = spec_expr_ir(cond, st);
            match els {
                Some(els_stmt) => {
                    let (else_n, st2) = st_label(st1);
                    let st3 = st_emit(
                        st2,
                        IrIns::IfFalse { cond: c, label: Label::Lelse(else_n as usize) },
                    );
                    let st4 = spec_stmt_ir(*then, st3);
                    let (end_n, st5) = st_label(st4);
                    let st6 = st_emit(st5, IrIns::GoTo { label: Label::Lend(end_n as usize) });
                    let st7 = st_emit(
                        st6,
                        IrIns::Label { label: Label::Lelse(else_n as usize) },
                    );
                    let st8 = spec_stmt_ir(*els_stmt, st7);
                    st_emit(st8, IrIns::Label { label: Label::Lend(end_n as usize) })
                },
                None => {
                    let (end_n, st2) = st_label(st1);
                    let st3 = st_emit(
                        st2,
                        IrIns::IfFalse { cond: c, label: Label::Lend(end_n as usize) },
                    );
                    let st4 = spec_stmt_ir(*then, st3);
                    st_emit(st4, IrIns::Label { label: Label::Lend(end_n as usize) })
                },
            }
        },
        Stmt::Block(stmts) => spec_stmts_ir(stmts@, st),
        Stmt::Fn { fn_name, params, body } => {
            let (ps, st1) = spec_params_ir(params@, st);
            let st2 = st_emit(st1, IrIns::Fn { fn_name: fn_name@, params: ps });
            spec_stmts_ir(body@, st2)
        },
        Stmt::ExprStmt(e) => spec_expr_ir(e, st).1,
        Stmt::VarDecl { name, .. } => st_var_reg(st, name@).1,
    }
}

/// The lowering of a run of statements, in order.
pub open spec fn spec_stmts_ir(ss: Seq<Stmt>, st: IrState) -> IrState
    decreases ss,
{
    if ss.len() == 0 {
        st
    } else {
        spec_stmts_ir(ss.drop_first(), spec_stmt_ir(ss[0], st))
    }
}

/// The number a label was drawn with.
pub open spec fn lnum(l: Label) -> int {
    match l {
        Label::Lelse(n) => n as int,
        Label::Lbegin(n) => n as int,
        Label::Lend(n) => n as int,
    }
}

/// The label an instruction value defines, if it is a label definition.
pub open spec fn def_label(i: IrIns) -> Option<Label> {
    match i {
        IrIns::Label { label } => Some(label),
        _ => None,
    }
}


proof fn lemma_sane_refl(c: Seq<IrIns>, lc0: int, lc1: int)
    requires
        lc0 <= lc1,
    ensures
        labels_sane(c, lc0, c, lc1),
{
}

/// Adjacent lowering segments compose: their label windows are disjoint.
proof fn lemma_sane_trans(
    c0: Seq<IrIns>,
    lc0: int,
    c1: Seq<IrIns>,
    lc1: int,
    c2: Seq<IrIns>,
    lc2: int,
)
    requires
        labels_sane(c0, lc0, c1, lc1),
        labels_sane(c1, lc1, c2, lc2),
    ensures
        labels_sane(c0, lc0, c2, lc2),
{
    assert forall|k: int| c0.len() <= k < c2.len() implies (match def_label(#[trigger] c2[k]) {
        Some(l) => lc0 <= lnum(l) < lc2,
        None => true,
    }) by {
        if k < c1.len() {
            assert(c2[k] == c1[k]);
        }
    }
    assert forall|k1: int, k2: int| c0.len() <= k1 < k2 < c2.len() implies (match (
        def_label(#[trigger] c2[k1]),
        def_label(#[trigger] c2[k2]),
    ) {
        (Some(l1), Some(l2)) => lnum(l1) != lnum(l2),
        _ => true,
    }) by {
        if k2 < c1.len() {
            assert(c2[k1] == c1[k1]);
            assert(c2[k2] == c1[k2]);
        } else if k1 < c1.len() {
            assert(c2[k1] == c1[k1]);
        }
    }
}

/// Appending an instruction that defines no label keeps the claim.
proof fn lemma_sane_emit(c0: Seq<IrIns>, lc0: int, c1: Seq<IrIns>, lc1: int, ins: IrIns)
    requires
        labels_sane(c0, lc0, c1, lc1),
        def_label(ins) is None,
    ensures
        labels_sane(c0, lc0, c1.push(ins), lc1),
{
    let c2 = c1.push(ins);
    assert forall|k1: int, k2: int| c0.len() <= k1 < k2 < c2.len() implies (match (
        def_label(#[trigger] c2[k1]),
        def_label(#[trigger] c2[k2]),
    ) {
        (Some(l1), Some(l2)) => lnum(l1) != lnum(l2),
        _ => true,
    }) by {
        if k2 < c1.len() {
            assert(c2[k1] == c1[k1]);
            assert(c2[k2] == c1[k2]);
        } else {
            assert(c2[k2] == ins);
        }
    }
}

/// Appending a label definition drawn from inside the window keeps the
/// claim, provided no earlier definition of the segment drew that number.
proof fn lemma_sane_label(c0: Seq<IrIns>, lc0: int, c1: Seq<IrIns>, lc1: int, l: Label)
    requires
        labels_sane(c0, lc0, c1, lc1),
        lc0 <= lnum(l) < lc1,
        forall|k: int|
            c0.len() <= k < c1.len() ==> (match def_label(#[trigger] c1[k]) {
                Some(l2) => lnum(l2) != lnum(l),
                None => true,
            }),
    ensures
        labels_sane(c0, lc0, c1.push(IrIns::Label { label: l }), lc1),
{
    let c2 = c1.push(IrIns::Label { label: l });
    assert forall|k1: int, k2: int| c0.len() <= k1 < k2 < c2.len() implies (match (
        def_label(#[trigger] c2[k1]),
        def_label(#[trigger] c2[k2]),
    ) {
        (Some(l1), Some(l2)) => lnum(l1) != lnum(l2),
        _ => true,
    }) by {
        if k2 < c1.len() {
            assert(c2[k1] == c1[k1]);
            assert(c2[k2] == c1[k2]);
        } else {
            assert(c2[k1] == c1[k1]);
        }
    }
}

/// The label counter never decreases across a lowering, and stays
/// non-negative.
proof fn lemma_stmt_lc_mono(s: Stmt, st: IrState)
    ensures
        st.lc <= spec_stmt_ir(s, st).lc,
    decreases s,
{
    match s {
        Stmt::Return(e) => {
            lemma_expr_no_labels(e, st);
        },
        Stmt::ExprStmt(e) => {
            lemma_expr_no_labels(e, st);
        },
        Stmt::VarDecl { .. } => {},
        Stmt::While { cond, body } => {
            let st2 = st_emit(st_label(st).1, IrIns::Label { label: Label::Lbegin(st.lc as usize) });
            lemma_expr_no_labels(cond, st2);
            let st3 = spec_expr_ir(cond, st2).1;
            let st5 = st_emit(
                st_label(st3).1,
                IrIns::IfFalse {
                    cond: spec_expr_ir(cond, st2).0,
                    label: Label::Lend(st3.lc as usize),
                },
            );
            lemma_stmt_lc_mono(*body, st5);
        },
        Stmt::For { init, cond, update, body } => {
            let st1 = match init {
                Some(e0) => {
                    lemma_expr_no_labels(*e0, st);
                    spec_expr_ir(*e0, st).1
                },
                None => st,
            };
            let st3 = st_emit(
                st_label(st1).1,
                IrIns::Label { label: Label::Lbegin(st1.lc as usize) },
            );
            let st4 = st_label(st3).1;
            let st5 = match cond {
                Some(e0) => {
                    lemma_expr_no_labels(*e0, st4);
                    st_emit(
                        spec_expr_ir(*e0, st4).1,
                        IrIns::IfFalse {
                            cond: spec_expr_ir(*e0, st4).0,
                            label: Label::Lend(st3.lc as usize),
                        },
                    )
                },
                None => st4,
            };
            lemma_stmt_lc_mono(*body, st5);
            let st6 = spec_stmt_ir(*body, st5);
            match update {
                Some(e0) => {
                    lemma_expr_no_labels(*e0, st6);
                },
                None => {},
            }
        },
        Stmt::If { cond, then, els } => {
            lemma_expr_no_labels(cond, st);
            let st1 = spec_expr_ir(cond, st).1;
            match els {
                Some(els_stmt) => {
                    let st3 = st_emit(
                        st_label(st1).1,
                        IrIns::IfFalse {
                            cond: spec_expr_ir(cond, st).0,
                            label: Label::Lelse(st1.lc as usize),
                        },
                    );
                    lemma_stmt_lc_mono(*then, st3);
                    let st4 = spec_stmt_ir(*then, st3);
                    let st7 = st_emit(
                        st_emit(
                            st_label(st4).1,
                            IrIns::GoTo { label: Label::Lend(st4.lc as usize) },
                        ),
                        IrIns::Label { label: Label::Lelse(st1.lc as usize) },
                    );
                    lemma_stmt_lc_mono(*els_stmt, st7);
                },
                None => {
                    let st3 = st_emit(
                        st_label(st1).1,
                        IrIns::IfFalse {
                            cond: spec_expr_ir(cond, st).0,
                            label: Label::Lend(st1.lc as usize),
                        },
                    );
                    lemma_stmt_lc_mono(*then, st3);
                },
            }
        },
        Stmt::Block(stmts) => {
            lemma_stmts_lc_mono(stmts@, st);
        },
        Stmt::Fn { fn_name, params, body } => {
            lemma_params_no_code(params@, st);
            let st1 = spec_params_ir(params@, st).1;
            let st2 = st_emit(
                st1,
                IrIns::Fn { fn_name: fn_name@, params: spec_params_ir(params@, st).0 },
            );
            lemma_stmts_lc_mono(body@, st2);
        },
    }
}

proof fn lemma_stmts_lc_mono(ss: Seq<Stmt>, st: IrState)
    ensures
        st.lc <= spec_stmts_ir(ss, st).lc,
    decreases ss,
{
    if ss.len() > 0 {
        lemma_stmt_lc_mono(ss[0], st);
        lemma_stmts_lc_mono(ss.drop_first(), spec_stmt_ir(ss[0], st));
    }
}

/// What a lowering step leaves of labels: old code untouched, every label
/// defined by the new instructions drawn from `[lc0, lc1)`, and no two new
/// label definitions drawn alike.
pub open spec fn labels_sane(code0: Seq<IrIns>, lc0: int, code1: Seq<IrIns>, lc1: int) -> bool {
    &&& lc0 <= lc1
    &&& code1.len() >= code0.len()
    &&& (forall|k: int| 0 <= k < code0.len() ==> code1[k] == code0[k])
    &&& (forall|k: int|
        code0.len() <= k < code1.len() ==> (match def_label(#[trigger] code1[k]) {
            Some(l) => lc0 <= lnum(l) < lc1,
            None => true,
        }))
    &&& (forall|k1: int, k2: int|
        code0.len() <= k1 < k2 < code1.len() ==> (match (
            def_label(#[trigger] code1[k1]),
            def_label(#[trigger] code1[k2]),
        ) {
            (Some(l1), Some(l2)) => lnum(l1) != lnum(l2),
            _ => true,
        }))
}

proof fn lemma_params_no_code(es: Seq<Expr>, st: IrState)
    ensures
        spec_params_ir(es, st).1.code == st.code,
        spec_params_ir(es, st).1.lc == st.lc,
    decreases es,
{
    if es.len() > 0 {
        match es[0] {
            Expr::Var(name) => {
                lemma_params_no_code(es.drop_first(), st_var_reg(st, name@).1);
            },
            _ => {
                lemma_params_no_code(es.drop_first(), st);
            },
        }
    }
}

proof fn lemma_lval_no_labels(e: Expr, st: IrState)
    ensures
        labels_sane(st.code, st.lc, spec_lval_ir(e, st).1.code, spec_lval_ir(e, st).1.lc),
        spec_lval_ir(e, st).1.lc == st.lc,
    decreases e,
{
    match e {
        Expr::Deref(inner) => {
            lemma_lval_no_labels(*inner, st);
        },
        _ => {},
    }
}

proof fn lemma_expr_no_labels(e: Expr, st: IrState)
    ensures
        labels_sane(st.code, st.lc, spec_expr_ir(e, st).1.code, spec_expr_ir(e, st).1.lc),
        spec_expr_ir(e, st).1.lc == st.lc,
    decreases e,
{
    match e {
        Expr::Assign { lhs, rhs } => {
            lemma_expr_no_labels(*rhs, st);
            let st1 = spec_expr_ir(*rhs, st).1;
            match *lhs {
                Expr::Deref(_) => {
                    lemma_lval_no_labels(*lhs, st1);
                },
                _ => {},
            }
        },
        Expr::Binary { lhs, rhs, .. } => {
            lemma_expr_no_labels(*lhs, st);
            lemma_expr_no_labels(*rhs, spec_expr_ir(*lhs, st).1);
        },
        Expr::Deref(inner) => {
            lemma_expr_no_labels(*inner, st_fresh(st).1);
        },
        Expr::Call { args, .. } => {
            lemma_exprs_no_labels(args@, st);
        },
        _ => {},
    }
}

proof fn lemma_exprs_no_labels(es: Seq<Expr>, st: IrState)
    ensures
        labels_sane(st.code, st.lc, spec_exprs_ir(es, st).1.code, spec_exprs_ir(es, st).1.lc),
        spec_exprs_ir(es, st).1.lc == st.lc,
    decreases es,
{
    if es.len() > 0 {
        lemma_expr_no_labels(es[0], st);
        lemma_exprs_no_labels(es.drop_first(), spec_expr_ir(es[0], st).1);
    }
}

/// Labels are unique within a function: every label definition the lowering
/// of a statement adds is drawn from the fresh window of the label counter,
/// and no two definitions are drawn alike.
pub proof fn lemma_stmt_labels(s: Stmt, st: IrState)
    requires
        0 <= st.lc,
        spec_stmt_ir(s, st).lc <= usize::MAX,
    ensures
        labels_sane(st.code, st.lc, spec_stmt_ir(s, st).code, spec_stmt_ir(s, st).lc),
    decreases s,
{
    match s {
        Stmt::Return(e) => {
            lemma_expr_no_labels(e, st);
            let st1 = spec_expr_ir(e, st).1;
            lemma_sane_emit(st.code, st.lc, st1.code, st.lc, IrIns::Return {
                src: spec_expr_ir(e, st).0,
            });
        },
        Stmt::ExprStmt(e) => {
            lemma_expr_no_labels(e, st);
        },
        Stmt::VarDecl { .. } => {},
        Stmt::While { cond, body } => {
            let l0 = st.lc;
            let st2 = st_emit(st_label(st).1, IrIns::Label { label: Label::Lbegin(l0 as usize) });
            lemma_expr_no_labels(cond, st2);
            let st3 = spec_expr_ir(cond, st2).1;
            let iff = IrIns::IfFalse {
                cond: spec_expr_ir(cond, st2).0,
                label: Label::Lend(st3.lc as usize),
            };
            let st5 = st_emit(st_label(st3).1, iff);
            lemma_stmt_lc_mono(*body, st5);
            let st6 = spec_stmt_ir(*body, st5);
            // Chain: the begin label, the condition, the test, the body.
            lemma_sane_refl(st.code, l0, l0 + 1);
            lemma_sane_label(st.code, l0, st.code, l0 + 1, Label::Lbegin(l0 as usize));
            lemma_sane_trans(st.code, l0, st2.code, l0 + 1, st3.code, l0 + 1);
            lemma_sane_refl(st3.code, l0 + 1, l0 + 2);
            lemma_sane_trans(st.code, l0, st3.code, l0 + 1, st3.code, l0 + 2);
            lemma_sane_emit(st.code, l0, st3.code, l0 + 2, iff);
            lemma_stmt_labels(*body, st5);
            lemma_sane_trans(st.code, l0, st5.code, l0 + 2, st6.code, st6.lc);
            // The back edge, then the deferred end label.
            lemma_sane_emit(
                st.code,
                l0,
                st6.code,
                st6.lc,
                IrIns::GoTo { label: Label::Lbegin(l0 as usize) },
            );
            let st7code = st6.code.push(IrIns::GoTo { label: Label::Lbegin(l0 as usize) });
            assert forall|k: int| st.code.len() <= k < st7code.len() implies (match def_label(
                #[trigger] st7code[k],
            ) {
                Some(l2) => lnum(l2) != l0 + 1,
                None => true,
            }) by {
                if k == st.code.len() {
                    assert(st7code[k] == IrIns::Label { label: Label::Lbegin(l0 as usize) });
                } else if k < st3.code.len() {
                    assert(st7code[k] == st3.code[k]);
                } else if k == st3.code.len() {
                    assert(st7code[k] == iff);
                } else if k < st6.code.len() {
                    assert(st7code[k] == st6.code[k]);
                }
            }
            lemma_sane_label(st.code, l0, st7code, st6.lc, Label::Lend((l0 + 1) as usize));
            assert(labels_sane(
                st.code,
                st.lc,
                spec_stmt_ir(s, st).code,
                spec_stmt_ir(s, st).lc,
            ));
        },
        Stmt::For { init, cond, update, body } => {
            let st1 = match init {
                Some(e0) => {
                    lemma_expr_no_labels(*e0, st);
                    spec_expr_ir(*e0, st).1
                },
                None => st,
            };
            let l1 = st1.lc;
            let st3 = st_emit(st_label(st1).1, IrIns::Label { label: Label::Lbegin(l1 as usize) });
            let st4 = st_label(st3).1;
            let st5 = match cond {
                Some(e0) => {
                    lemma_expr_no_labels(*e0, st4);
                    st_emit(
                        spec_expr_ir(*e0, st4).1,
                        IrIns::IfFalse {
                            cond: spec_expr_ir(*e0, st4).0,
                            label: Label::Lend((l1 + 1) as usize),
                        },
                    )
                },
                None => st4,
            };
            lemma_stmt_lc_mono(*body, st5);
            let st6 = spec_stmt_ir(*body, st5);
            let st7 = match update {
                Some(e0) => {
                    lemma_expr_no_labels(*e0, st6);
                    spec_expr_ir(*e0, st6).1
                },
                None => st6,
            };
            // Chain: init, the begin label, the test, the body, the update.
            lemma_sane_refl(st1.code, l1, l1 + 1);
            lemma_sane_trans(st.code, st.lc, st1.code, l1, st1.code, l1 + 1);
            lemma_sane_label(st.code, st.lc, st1.code, l1 + 1, Label::Lbegin(l1 as usize));
            lemma_sane_refl(st3.code, l1 + 1, l1 + 2);
            lemma_sane_trans(st.code, st.lc, st3.code, l1 + 1, st3.code, l1 + 2);
            match cond {
                Some(e0) => {
                    lemma_sane_trans(
                        st.code,
                        st.lc,
                        st3.code,
                        l1 + 2,
                        spec_expr_ir(*e0, st4).1.code,
                        l1 + 2,
                    );
                    lemma_sane_emit(
                        st.code,
                        st.lc,
                        spec_expr_ir(*e0, st4).1.code,
                        l1 + 2,
                        IrIns::IfFalse {
                            cond: spec_expr_ir(*e0, st4).0,
                            label: Label::Lend((l1 + 1) as usize),
                        },
                    );
                },
                None => {},
            }
            lemma_stmt_labels(*body, st5);
            lemma_sane_trans(st.code, st.lc, st5.code, l1 + 2, st6.code, st6.lc);
            lemma_sane_trans(st.code, st.lc, st6.code, st6.lc, st7.code, st6.lc);
            lemma_sane_emit(
                st.code,
                st.lc,
                st7.code,
                st6.lc,
                IrIns::GoTo { label: Label::Lbegin(l1 as usize) },
            );
            let st8code = st7.code.push(IrIns::GoTo { label: Label::Lbegin(l1 as usize) });
            assert forall|k: int| st.code.len() <= k < st8code.len() implies (match def_label(
                #[trigger] st8code[k],
            ) {
                Some(l2) => lnum(l2) != l1 + 1,
                None => true,
            }) by {
                if k < st1.code.len() {
                    assert(st8code[k] == st1.code[k]);
                } else if k == st1.code.len() {
                    assert(st8code[k] == IrIns::Label { label: Label::Lbegin(l1 as usize) });
                } else if k < st5.code.len() {
                    assert(st8code[k] == st5.code[k]);
                } else if k < st6.code.len() {
                    assert(st8code[k] == st6.code[k]);
                } else if k < st7.code.len() {
                    assert(st8code[k] == st7.code[k]);
                }
            }
            lemma_sane_label(st.code, st.lc, st8code, st6.lc, Label::Lend((l1 + 1) as usize));
            assert(labels_sane(
                st.code,
                st.lc,
                spec_stmt_ir(s, st).code,
                spec_stmt_ir(s, st).lc,
            ));
        },
        Stmt::If { cond, then, els } => {
            lemma_expr_no_labels(cond, st);
            let st1 = spec_expr_ir(cond, st).1;
            let c = spec_expr_ir(cond, st).0;
            let l0 = st.lc;
            match els {
                Some(els_stmt) => {
                    let iff = IrIns::IfFalse { cond: c, label: Label::Lelse(l0 as usize) };
                    let st3 = st_emit(st_label(st1).1, iff);
                    lemma_stmt_lc_mono(*then, st3);
                    let st4 = spec_stmt_ir(*then, st3);
                    let goto = IrIns::GoTo { label: Label::Lend(st4.lc as usize) };
                    let lelse = IrIns::Label { label: Label::Lelse(l0 as usize) };
                    let st7 = st_emit(st_emit(st_label(st4).1, goto), lelse);
                    lemma_stmt_lc_mono(*els_stmt, st7);
                    let st8 = spec_stmt_ir(*els_stmt, st7);
                    // Chain: the condition, the test, the then branch.
                    lemma_sane_refl(st1.code, l0, l0 + 1);
                    lemma_sane_trans(st.code, l0, st1.code, l0, st1.code, l0 + 1);
                    lemma_sane_emit(st.code, l0, st1.code, l0 + 1, iff);
                    lemma_stmt_labels(*then, st3);
                    lemma_sane_trans(st.code, l0, st3.code, l0 + 1, st4.code, st4.lc);
                    // The jump over the else branch, the deferred else label.
                    lemma_sane_refl(st4.code, st4.lc, st4.lc + 1);
                    lemma_sane_trans(st.code, l0, st4.code, st4.lc, st4.code, st4.lc + 1);
                    lemma_sane_emit(st.code, l0, st4.code, st4.lc + 1, goto);
                    let st6code = st4.code.push(goto);
                    assert forall|k: int| st.code.len() <= k < st6code.len() implies (
                    match def_label(#[trigger] st6code[k]) {
                        Some(l2) => lnum(l2) != l0,
                        None => true,
                    }) by {
                        if k < st1.code.len() {
                            assert(st6code[k] == st1.code[k]);
                        } else if k == st1.code.len() {
                            assert(st6code[k] == iff);
                        } else if k < st4.code.len() {
                            assert(st6code[k] == st4.code[k]);
                        }
                    }
                    lemma_sane_label(st.code, l0, st6code, st4.lc + 1, Label::Lelse(l0 as usize));
                    // The else branch, the deferred end label.
                    lemma_stmt_labels(*els_stmt, st7);
                    lemma_sane_trans(st.code, l0, st7.code, st4.lc + 1, st8.code, st8.lc);
                    assert forall|k: int| st.code.len() <= k < st8.code.len() implies (
                    match def_label(#[trigger] st8.code[k]) {
                        Some(l2) => lnum(l2) != st4.lc,
                        None => true,
                    }) by {
                        if k < st1.code.len() {
                            assert(st8.code[k] == st1.code[k]);
                        } else if k == st1.code.len() {
                            assert(st8.code[k] == iff);
                        } else if k < st4.code.len() {
                            assert(st8.code[k] == st4.code[k]);
                        } else if k == st4.code.len() {
                            assert(st8.code[k] == goto);
                        } else if k == st4.code.len() + 1 {
                            assert(st8.code[k] == lelse);
                        } else {
                            assert(st8.code[k] == st8.code[k]);
                        }
                    }
                    lemma_sane_label(st.code, l0, st8.code, st8.lc, Label::Lend(st4.lc as usize));
                    assert(labels_sane(
                        st.code,
                        st.lc,
                        spec_stmt_ir(s, st).code,
                        spec_stmt_ir(s, st).lc,
                    ));
                },
                None => {
                    let iff = IrIns::IfFalse { cond: c, label: Label::Lend(l0 as usize) };
                    let st3 = st_emit(st_label(st1).1, iff);
                    lemma_stmt_lc_mono(*then, st3);
                    let st4 = spec_stmt_ir(*then, st3);
                    lemma_sane_refl(st1.code, l0, l0 + 1);
                    lemma_sane_trans(st.code, l0, st1.code, l0, st1.code, l0 + 1);
                    lemma_sane_emit(st.code, l0, st1.code, l0 + 1, iff);
                    lemma_stmt_labels(*then, st3);
                    lemma_sane_trans(st.code, l0, st3.code, l0 + 1, st4.code, st4.lc);
                    assert forall|k: int| st.code.len() <= k < st4.code.len() implies (
                    match def_label(#[trigger] st4.code[k]) {
                        Some(l2) => lnum(l2) != l0,
                        None => true,
                    }) by {
                        if k < st1.code.len() {
                            assert(st4.code[k] == st1.code[k]);
                        } else if k == st1.code.len() {
                            assert(st4.code[k] == iff);
                        }
                    }
                    lemma_sane_label(st.code, l0, st4.code, st4.lc, Label::Lend(l0 as usize));
                    assert(labels_sane(
                        st.code,
                        st.lc,
                        spec_stmt_ir(s, st).code,
                        spec_stmt_ir(s, st).lc,
                    ));
                },
            }
        },
        Stmt::Block(stmts) => {
            lemma_stmts_labels(stmts@, st);
        },
        Stmt::Fn { fn_name, params, body } => {
            lemma_params_no_code(params@, st);
            let st1 = spec_params_ir(params@, st).1;
            let fnins = IrIns::Fn { fn_name: fn_name@, params: spec_params_ir(params@, st).0 };
            let st2 = st_emit(st1, fnins);
            lemma_sane_refl(st.code, st.lc, st.lc);
            lemma_sane_emit(st.code, st.lc, st1.code, st.lc, fnins);
            lemma_stmts_labels(body@, st2);
            lemma_sane_trans(
                st.code,
                st.lc,
                st2.code,
                st.lc,
                spec_stmts_ir(body@, st2).code,
                spec_stmts_ir(body@, st2).lc,
            );
        },
    }
}

proof fn lemma_stmts_labels(ss: Seq<Stmt>, st: IrState)
    requires
        0 <= st.lc,
        spec_stmts_ir(ss, st).lc <= usize::MAX,
    ensures
        labels_sane(st.code, st.lc, spec_stmts_ir(ss, st).code, spec_stmts_ir(ss, st).lc),
    decreases ss,
{
    if ss.len() > 0 {
        let mid = spec_stmt_ir(ss[0], st);
        lemma_stmt_lc_mono(ss[0], st);
        lemma_stmts_lc_mono(ss.drop_first(), mid);
        lemma_stmt_labels(ss[0], st);
        lemma_stmts_labels(ss.drop_first(), mid);
        lemma_sane_trans(
            st.code,
            st.lc,
            mid.code,
            mid.lc,
            spec_stmts_ir(ss.drop_first(), mid).code,
            spec_stmts_ir(ss.drop_first(), mid).lc,
        );
    }
}

/// Labels are unique within a function: in the lowering of a function
/// definition from a fresh context, no two label-definition instructions
/// carry the same label.
pub proof fn lemma_labels_unique(s: Stmt, st: IrState)
    requires
        st.code.len() == 0,
        st.lc == 0,
        spec_stmt_ir(s, st).lc <= usize::MAX,
    ensures
        forall|k1: int, k2: int|
            0 <= k1 < k2 < spec_stmt_ir(s, st).code.len() ==> (match (
                def_label(#[trigger] spec_stmt_ir(s, st).code[k1]),
                def_label(#[trigger] spec_stmt_ir(s, st).code[k2]),
            ) {
                (Some(l1), Some(l2)) => l1 != l2,
                _ => true,
            }),
{
    lemma_stmt_labels(s, st);
}

/// The per-function lowering context.
#[derive(Clone)]
pub struct GenIrContext {
    pub code: Vec<ThreeAddressCode>,
    pub register_count: usize,
    pub label_count: usize,
    pub lvar_map: Vec<(String, VirtualReg)>,
}

impl GenIrContext {
    /// Every named local holds a minted register, distinct locals hold
    /// distinct registers (in minting order), and distinct locals have
    /// distinct names.
    pub open spec fn wf(&self) -> bool {
        &&& forall|k: int|
            0 <= k < self.lvar_map@.len() ==> (#[trigger] self.lvar_map@[k]).1.id
                < self.register_count
        &&& forall|k1: int, k2: int|
            0 <= k1 < k2 < self.lvar_map@.len() ==> self.lvar_map@[k1].1.id
                < self.lvar_map@[k2].1.id
        &&& forall|k1: int, k2: int|
            0 <= k1 < k2 < self.lvar_map@.len() ==> (self.lvar_map@[k1].0)@ != (
            self.lvar_map@[k2].0)@
    }

    pub fn new() -> (r: GenIrContext)
        ensures
            r.code@.len() == 0,
            r.register_count == 0,
            r.label_count == 0,
            r.lvar_map@.len() == 0,
            r.wf(),
    {
        GenIrContext { code: Vec::new(), register_count: 0, label_count: 0, lvar_map: Vec::new() }
    }

    /// A copy of the emitted code, instruction for instruction.
    pub fn get_ir_code(&self) -> (r: Vec<ThreeAddressCode>)
        ensures
            r@.len() == self.code@.len(),
            forall|k: int| 0 <= k < r@.len() ==> tac_eq(#[trigger] r@[k], self.code@[k]),
    {
        let mut out: Vec<ThreeAddressCode> = Vec::new();
        let mut i: usize = 0;
        while i < self.code.len()
            invariant
                i <= self.code.len(),
                out@.len() == i,
                forall|k: int| 0 <= k < i ==> tac_eq(#[trigger] out@[k], self.code@[k]),
            decreases self.code.len() - i,
        {
            out.push(self.code[i].duplicate());
            i += 1;
        }
        out
    }

    /// A copy of the map from local names to virtual registers.
    pub fn get_lvar_map(&self) -> (r: Vec<(String, VirtualReg)>)
        ensures
            r@ == self.lvar_map@,
    {
        let mut out: Vec<(String, VirtualReg)> = Vec::new();
        let mut i: usize = 0;
        while i < self.lvar_map.len()
            invariant
                i <= self.lvar_map.len(),
                out@ == self.lvar_map@.subrange(0, i as int),
            decreases self.lvar_map.len() - i,
        {
            let name = self.lvar_map[i].0.clone();
            let vreg = self.lvar_map[i].1;
            out.push((name, vreg));
            proof {
                assert(out@ =~= self.lvar_map@.subrange(0, i as int + 1));
            }
            i += 1;
        }
        proof {
            assert(self.lvar_map@.subrange(0, self.lvar_map@.len() as int) =~= self.lvar_map@);
        }
        out
    }

    /// Mints a fresh virtual register.
    fn get_new_register(&mut self) -> (r: VirtualReg)
        requires
            old(self).register_count < usize::MAX,
            old(self).wf(),
        ensures
            final(self).wf(),
            final(self).register_count == old(self).register_count + 1,
            final(self).code == old(self).code,
            final(self).label_count == old(self).label_count,
            final(self).lvar_map == old(self).lvar_map,
            r.id == old(self).register_count,
            r == st_fresh(ir_state(*old(self))).0,
            ir_state(*final(self)) == st_fresh(ir_state(*old(self))).1,
    {
        let id = self.register_count;
        self.register_count = self.register_count + 1;
        proof {
            assert(ir_state(*self) =~~= st_fresh(ir_state(*old(self))).1);
        }
        VirtualReg { id }
    }

    /// The register already bound to `name`, or a freshly minted one that is
    /// bound to it now.
    fn get_var_reg(&mut self, name: &str) -> (r: VirtualReg)
        requires
            old(self).register_count < usize::MAX,
            old(self).wf(),
        ensures
            final(self).wf(),
            final(self).code == old(self).code,
            final(self).label_count == old(self).label_count,
            old(self).register_count <= final(self).register_count <= old(self).register_count
                + 1,
            r.id < final(self).register_count,
            r == st_var_reg(ir_state(*old(self)), name@).0,
            ir_state(*final(self)) == st_var_reg(ir_state(*old(self)), name@).1,
            match lvar_lookup(old(self).lvar_map@, name@) {
                Some(v) => r == v && *final(self) == *old(self),
                None => {
                    &&& final(self).register_count == old(self).register_count + 1
                    &&& r.id == old(self).register_count
                    &&& final(self).lvar_map@.len() == old(self).lvar_map@.len() + 1
                    &&& final(self).lvar_map@.drop_last() == old(self).lvar_map@
                    &&& (final(self).lvar_map@.last().0)@ == name@
                    &&& final(self).lvar_map@.last().1 == r
                },
            },
    {
        let mut i: usize = 0;
        proof {
            assert(self.lvar_map@.subrange(0, self.lvar_map@.len() as int) =~= self.lvar_map@);
        }
        while i < self.lvar_map.len()
            invariant
                i <= self.lvar_map.len(),
                self.wf(),
                *self == *old(self),
                forall|k: int| 0 <= k < i ==> ((#[trigger] self.lvar_map@[k]).0)@ != name@,
                lvar_lookup(self.lvar_map@, name@) == lvar_lookup(
                    self.lvar_map@.subrange(i as int, self.lvar_map@.len() as int),
                    name@,
                ),
            decreases self.lvar_map.len() - i,
        {
            let ghost rest = self.lvar_map@.subrange(i as int, self.lvar_map@.len() as int);
            proof {
                assert(rest[0] == self.lvar_map@[i as int]);
                assert(rest.drop_first() =~= self.lvar_map@.subrange(
                    i as int + 1,
                    self.lvar_map@.len() as int,
                ));
            }
            if str_eq(self.lvar_map[i].0.as_str(), name) {
                proof {
                    lemma_st_lookup_view(self.lvar_map@, name@);
                }
                return self.lvar_map[i].1;
            }
            i += 1;
        }
        proof {
            assert(self.lvar_map@.subrange(
                self.lvar_map@.len() as int,
                self.lvar_map@.len() as int,
            ).len() == 0);
        }
        let reg = self.get_new_register();
        let ghost pre = self.lvar_map@;
        self.lvar_map.push((name.to_owned(), reg));
        proof {
            assert(self.lvar_map@.drop_last() =~= pre);
            assert(self.lvar_map@.last().1 == reg);
            lemma_st_lookup_view(old(self).lvar_map@, name@);
            assert(lvars_view(self.lvar_map@) =~= lvars_view(pre).push((name@, reg)));
            assert(ir_state(*self) =~~= st_var_reg(ir_state(*old(self)), name@).1);
        }
        reg
    }

    /// The next label number.
    fn get_label_count(&mut self) -> (r: usize)
        requires
            old(self).label_count < usize::MAX,
            old(self).wf(),
        ensures
            final(self).wf(),
            final(self).code == old(self).code,
            final(self).register_count == old(self).register_count,
            final(self).lvar_map == old(self).lvar_map,
            final(self).label_count == old(self).label_count + 1,
            r == old(self).label_count,
            r as int == st_label(ir_state(*old(self))).0,
            ir_state(*final(self)) == st_label(ir_state(*old(self))).1,
    {
        let i = self.label_count;
        self.label_count = self.label_count + 1;
        proof {
            assert(ir_state(*self) =~~= st_label(ir_state(*old(self))).1);
        }
        i
    }

    fn emit(&mut self, instr: ThreeAddressCode)
        requires
            old(self).wf(),
        ensures
            final(self).wf(),
            final(self).code@ == old(self).code@.push(instr),
            final(self).register_count == old(self).register_count,
            final(self).label_count == old(self).label_count,
            final(self).lvar_map == old(self).lvar_map,
            ir_state(*final(self)) == st_emit(ir_state(*old(self)), tac_view(instr)),
    {
        self.code.push(instr);
        proof {
            assert(code_view(self.code@) =~= code_view(old(self).code@).push(tac_view(instr)));
            assert(ir_state(*self) =~~= st_emit(ir_state(*old(self)), tac_view(instr)));
        }
    }
}

proof fn lemma_exprs_weight_ge_len(es: Seq<Expr>)
    ensures
        exprs_weight(es) >= es.len(),
    decreases es.len(),
{
    if es.len() > 0 {
        lemma_expr_weight_pos(es[0]);
        lemma_exprs_weight_ge_len(es.drop_first());
    }
}

proof fn lemma_exprs_weight_push(es: Seq<Expr>, x: Expr)
    ensures
        exprs_weight(es.push(x)) == exprs_weight(es) + expr_weight(x),
    decreases es.len(),
{
    if es.len() == 0 {
        assert(es.push(x)[0] == x);
        assert(es.push(x).drop_first() =~= Seq::<Expr>::empty());
        assert(exprs_weight(Seq::<Expr>::empty()) == 0);
        assert(es.push(x).drop_first() == Seq::<Expr>::empty());
    } else {
        assert(es.push(x)[0] == es[0]);
        assert(es.push(x).drop_first() =~= es.drop_first().push(x));
        lemma_exprs_weight_push(es.drop_first(), x);
    }
}

proof fn lemma_exprs_weight_split(es: Seq<Expr>, j: int)
    requires
        0 <= j <= es.len(),
    ensures
        exprs_weight(es) == exprs_weight(es.take(j)) + exprs_weight(es.skip(j)),
    decreases j,
{
    if j == 0 {
        assert(es.take(0).len() == 0);
        assert(es.skip(0) =~= es);
    } else {
        lemma_exprs_weight_split(es, j - 1);
        assert(es.take(j) =~= es.take(j - 1).push(es[j - 1]));
        lemma_exprs_weight_push(es.take(j - 1), es[j - 1]);
        assert(es.skip(j - 1)[0] == es[j - 1]);
        assert(es.skip(j - 1).drop_first() =~= es.skip(j));
    }
}

proof fn lemma_stmts_weight_split(ss: Seq<Stmt>, j: int)
    requires
        0 <= j <= ss.len(),
    ensures
        stmts_weight(ss) == stmts_weight(ss.take(j)) + stmts_weight(ss.skip(j)),
    decreases j,
{
    if j == 0 {
        assert(ss.take(0).len() == 0);
        assert(ss.skip(0) =~= ss);
    } else {
        lemma_stmts_weight_split(ss, j - 1);
        assert(ss.take(j) =~= ss.take(j - 1).push(ss[j - 1]));
        lemma_stmts_weight_push(ss.take(j - 1), ss[j - 1]);
        assert(ss.skip(j - 1)[0] == ss[j - 1]);
        assert(ss.skip(j - 1).drop_first() =~= ss.skip(j));
    }
}

proof fn lemma_stmts_weight_push(ss: Seq<Stmt>, x: Stmt)
    ensures
        stmts_weight(ss.push(x)) == stmts_weight(ss) + stmt_weight(x),
    decreases ss.len(),
{
    if ss.len() == 0 {
        assert(ss.push(x)[0] == x);
        assert(ss.push(x).drop_first() =~= Seq::<Stmt>::empty());
        assert(stmts_weight(Seq::<Stmt>::empty()) == 0);
        assert(ss.push(x).drop_first() == Seq::<Stmt>::empty());
    } else {
        assert(ss.push(x)[0] == ss[0]);
        assert(ss.push(x).drop_first() =~= ss.drop_first().push(x));
        lemma_stmts_weight_push(ss.drop_first(), x);
    }
}

/// The weight of an expression as a run-time value; `None` when it does not
/// fit a `u64`.
#[verifier::loop_isolation(false)]
pub fn expr_size(e: &Expr) -> (r: Option<u64>)
    ensures
        r matches Some(w) ==> w as nat == expr_weight(*e),
        r is None ==> expr_weight(*e) > u64::MAX,
    decreases *e,
{
    match e {
        Expr::Num(_) => Some(1),
        Expr::Var(_) => Some(1),
        Expr::Binary { lhs, rhs, .. } => {
            let a = match expr_size(&**lhs) {
                Some(a) => a,
                None => {
                    return None;
                },
            };
            let b = match expr_size(&**rhs) {
                Some(b) => b,
                None => {
                    return None;
                },
            };
            let s = match a.checked_add(b) {
                Some(s) => s,
                None => {
                    return None;
                },
            };
            s.checked_add(1)
        },
        Expr::Assign { lhs, rhs } => {
            let a = match expr_size(&**lhs) {
                Some(a) => a,
                None => {
                    return None;
                },
            };
            let b = match expr_size(&**rhs) {
                Some(b) => b,
                None => {
                    return None;
                },
            };
            let s = match a.checked_add(b) {
                Some(s) => s,
                None => {
                    return None;
                },
            };
            s.checked_add(1)
        },
        Expr::Call { args, .. } => {
            let mut total: u64 = 1;
            let mut i: usize = 0;
            proof {
                assert(args@.take(0) =~= Seq::<Expr>::empty());
            }
            while i < args.len()
                invariant
                    i <= args.len(),
                    *e == (Expr::Call { fn_name: e->fn_name, args: *args }),
                    total as nat == 1 + exprs_weight(args@.take(i as int)),
                decreases args.len() - i,
            {
                proof {
                    let rest = args@.skip(i as int);
                    assert(rest[0] == args@[i as int]);
                    assert(rest.drop_first() =~= args@.skip(i as int + 1));
                    lemma_exprs_weight_split(args@, i as int);
                }
                let a = match expr_size(&args[i]) {
                    Some(a) => a,
                    None => {
                        return None;
                    },
                };
                total = match total.checked_add(a) {
                    Some(t) => t,
                    None => {
                        return None;
                    },
                };
                proof {
                    assert(args@.take(i as int + 1) =~= args@.take(i as int).push(
                        args@[i as int],
                    ));
                    lemma_exprs_weight_push(args@.take(i as int), args@[i as int]);
                }
                i += 1;
            }
            proof {
                assert(args@.take(args@.len() as int) =~= args@);
            }
            Some(total)
        },
        Expr::Addr(inner) => {
            let a = match expr_size(&**inner) {
                Some(a) => a,
                None => {
                    return None;
                },
            };
            a.checked_add(1)
        },
        Expr::Deref(inner) => {
            let a = match expr_size(&**inner) {
                Some(a) => a,
                None => {
                    return None;
                },
            };
            a.checked_add(1)
        },
    }
}

/// The weight of a statement as a run-time value; `None` when it does not
/// fit a `u64`.
#[verifier::loop_isolation(false)]
pub fn stmt_size(s: &Stmt) -> (r: Option<u64>)
    ensures
        r matches Some(w) ==> w as nat == stmt_weight(*s),
        r is None ==> stmt_weight(*s) > u64::MAX,
    decreases *s,
{
    match s {
        Stmt::ExprStmt(e) => {
            let a = match expr_size(e) {
                Some(a) => a,
                None => {
                    return None;
                },
            };
            a.checked_add(1)
        },
        Stmt::Return(e) => {
            let a = match expr_size(e) {
                Some(a) => a,
                None => {
                    return None;
                },
            };
            a.checked_add(1)
        },
        Stmt::If { cond, then, els } => {
            let a = match expr_size(cond) {
                Some(a) => a,
                None => {
                    return None;
                },
            };
            let b = match stmt_size(&**then) {
                Some(b) => b,
                None => {
                    return None;
                },
            };
            let c = match els {
                Some(e0) => {
                    match stmt_size(&**e0) {
                        Some(c) => c,
                        None => {
                            return None;
                        },
                    }
                },
                None => 0,
            };
            let s1 = match a.checked_add(b) {
                Some(x) => x,
                None => {
                    return None;
                },
            };
            let s2 = match s1.checked_add(c) {
                Some(x) => x,
                None => {
                    return None;
                },
            };
            s2.checked_add(1)
        },
        Stmt::While { cond, body } => {
            let a = match expr_size(cond) {
                Some(a) => a,
                None => {
                    return None;
                },
            };
            let b = match stmt_size(&**body) {
                Some(b) => b,
                None => {
                    return None;
                },
            };
            let s1 = match a.checked_add(b) {
                Some(x) => x,
                None => {
                    return None;
                },
            };
            s1.checked_add(1)
        },
        Stmt::For { init, cond, update, body } => {
            let a = match init {
                Some(e0) => {
                    match expr_size(&**e0) {
                        Some(a) => a,
                        None => {
                            return None;
                        },
                    }
                },
                None => 0,
            };
            let b = match cond {
                Some(e0) => {
                    match expr_size(&**e0) {
                        Some(b) => b,
                        None => {
                            return None;
                        },
                    }
                },
                None => 0,
            };
            let c = match update {
                Some(e0) => {
                    match expr_size(&**e0) {
                        Some(c) => c,
                        None => {
                            return None;
                        },
                    }
                },
                None => 0,
            };
            let d = match stmt_size(&**body) {
                Some(d) => d,
                None => {
                    return None;
                },
            };
            let s1 = match a.checked_add(b) {
                Some(x) => x,
                None => {
                    return None;
                },
            };
            let s2 = match s1.checked_add(c) {
                Some(x) => x,
                None => {
                    return None;
                },
            };
            let s3 = match s2.checked_add(d) {
                Some(x) => x,
                None => {
                    return None;
                },
            };
            s3.checked_add(2)
        },
        Stmt::Block(stmts) => {
            let mut total: u64 = 1;
            let mut i: usize = 0;
            proof {
                assert(stmts@.take(0) =~= Seq::<Stmt>::empty());
            }
            while i < stmts.len()
                invariant
                    i <= stmts.len(),
                    *s == Stmt::Block(*stmts),
                    total as nat == 1 + stmts_weight(stmts@.take(i as int)),
                decreases stmts.len() - i,
            {
                proof {
                    let rest = stmts@.skip(i as int);
                    assert(rest[0] == stmts@[i as int]);
                    assert(rest.drop_first() =~= stmts@.skip(i as int + 1));
                    lemma_stmts_weight_split(stmts@, i as int);
                }
                let a = match stmt_size(&stmts[i]) {
                    Some(a) => a,
                    None => {
                        return None;
                    },
                };
                total = match total.checked_add(a) {
                    Some(t) => t,
                    None => {
                        return None;
                    },
                };
                proof {
                    assert(stmts@.take(i as int + 1) =~= stmts@.take(i as int).push(
                        stmts@[i as int],
                    ));
                    lemma_stmts_weight_push(stmts@.take(i as int), stmts@[i as int]);
                }
                i += 1;
            }
            proof {
                assert(stmts@.take(stmts@.len() as int) =~= stmts@);
            }
            Some(total)
        },
        Stmt::Fn { fn_name, params, body } => {
            let mut total: u64 = 1;
            let mut i: usize = 0;
            proof {
                assert(params@.take(0) =~= Seq::<Expr>::empty());
            }
            while i < params.len()
                invariant
                    i <= params.len(),
                    *s == (Stmt::Fn { fn_name: *fn_name, params: *params, body: *body }),
                    total as nat == 1 + exprs_weight(params@.take(i as int)),
                decreases params.len() - i,
            {
                proof {
                    let rest = params@.skip(i as int);
                    assert(rest[0] == params@[i as int]);
                    assert(rest.drop_first() =~= params@.skip(i as int + 1));
                    lemma_exprs_weight_split(params@, i as int);
                }
                let a = match expr_size(&params[i]) {
                    Some(a) => a,
                    None => {
                        return None;
                    },
                };
                total = match total.checked_add(a) {
                    Some(t) => t,
                    None => {
                        return None;
                    },
                };
                proof {
                    assert(params@.take(i as int + 1) =~= params@.take(i as int).push(
                        params@[i as int],
                    ));
                    lemma_exprs_weight_push(params@.take(i as int), params@[i as int]);
                }
                i += 1;
            }
            proof {
                assert(params@.take(params@.len() as int) =~= params@);
            }
            let mut j: usize = 0;
            let ghost base = total as nat;
            proof {
                assert(body@.take(0) =~= Seq::<Stmt>::empty());
            }
            while j < body.len()
                invariant
                    j <= body.len(),
                    *s == (Stmt::Fn { fn_name: *fn_name, params: *params, body: *body }),
                    base == 1 + exprs_weight(params@),
                    total as nat == base + stmts_weight(body@.take(j as int)),
                decreases body.len() - j,
            {
                proof {
                    let rest = body@.skip(j as int);
                    assert(rest[0] == body@[j as int]);
                    assert(rest.drop_first() =~= body@.skip(j as int + 1));
                    lemma_stmts_weight_split(body@, j as int);
                }
                let a = match stmt_size(&body[j]) {
                    Some(a) => a,
                    None => {
                        return None;
                    },
                };
                total = match total.checked_add(a) {
                    Some(t) => t,
                    None => {
                        return None;
                    },
                };
                proof {
                    assert(body@.take(j as int + 1) =~= body@.take(j as int).push(
                        body@[j as int],
                    ));
                    lemma_stmts_weight_push(body@.take(j as int), body@[j as int]);
                }
                j += 1;
            }
            proof {
                assert(body@.take(body@.len() as int) =~= body@);
            }
            Some(total)
        },
        Stmt::VarDecl { .. } => Some(1),
    }
}

/// Lowers one statement, appending its TAC to the context. Statements
/// produce no value register.
#[verifier::rlimit(80)]
pub fn stmt_to_ir(stmt: &Stmt, context: &mut GenIrContext) -> (r: Result<(), CompileError>)
    requires
        old(context).wf(),
        old(context).register_count + stmt_weight(*stmt) <= usize::MAX,
        old(context).label_count + stmt_weight(*stmt) <= usize::MAX,
    ensures
        final(context).wf(),
        old(context).register_count <= final(context).register_count <= old(
            context,
        ).register_count + stmt_weight(*stmt),
        old(context).label_count <= final(context).label_count <= old(context).label_count
            + stmt_weight(*stmt),
        final(context).code@.len() >= old(context).code@.len(),
        forall|k: int|
            0 <= k < old(context).code@.len() ==> final(context).code@[k] == old(
                context,
            ).code@[k],
        r is Ok ==> stmt_emits(*stmt, old(context).code@.len() as int, final(context).code@),
        r is Ok <==> stmt_well_formed(*stmt),
        r is Ok ==> ir_state(*final(context)) == spec_stmt_ir(*stmt, ir_state(*old(context))),
    decreases *stmt,
{
    match stmt {
        Stmt::Return(expr) => {
            let src = match expr_to_ir(expr, context) {
                Ok(v) => v,
                Err(e) => {
                    return Err(e);
                },
            };
            context.emit(ThreeAddressCode::Return { src });
            proof {
                assert(ir_state(*context) =~~= spec_stmt_ir(*stmt, ir_state(*old(context))));
            }
            Ok(())
        },
        Stmt::While { cond, body } => {
            proof {
                lemma_expr_weight_pos(*cond);
                lemma_stmt_weight_pos(**body);
                assert(stmt_weight(*stmt) == 1 + expr_weight(*cond) + stmt_weight(**body));
            }
            let begin_n = context.get_label_count();
            context.emit(ThreeAddressCode::Label { label: Label::Lbegin(begin_n) });
            let cond_reg = match expr_to_ir(cond, context) {
                Ok(v) => v,
                Err(e) => {
                    return Err(e);
                },
            };
            let end_n = context.get_label_count();
            context.emit(ThreeAddressCode::IfFalse { cond: cond_reg, label: Label::Lend(end_n) });
            match stmt_to_ir(&**body, context) {
                Ok(()) => {},
                Err(e) => {
                    return Err(e);
                },
            }
            context.emit(ThreeAddressCode::GoTo { label: Label::Lbegin(begin_n) });
            context.emit(ThreeAddressCode::Label { label: Label::Lend(end_n) });
            proof {
                assert(ir_state(*context) =~~= spec_stmt_ir(*stmt, ir_state(*old(context))));
            }
            Ok(())
        },
        Stmt::For { init, cond, update, body } => {
            proof {
                lemma_stmt_weight_pos(**body);
                assert(stmt_weight(*stmt) == 2 + opt_expr_weight(*init) + opt_expr_weight(*cond)
                    + opt_expr_weight(*update) + stmt_weight(**body));
                match init {
                    Some(b) => lemma_expr_weight_pos(**b),
                    None => (),
                }
                match cond {
                    Some(b) => lemma_expr_weight_pos(**b),
                    None => (),
                }
                match update {
                    Some(b) => lemma_expr_weight_pos(**b),
                    None => (),
                }
            }
            match init {
                Some(e0) => {
                    match expr_to_ir(&**e0, context) {
                        Ok(_) => {},
                        Err(e) => {
                            return Err(e);
                        },
                    }
                },
                None => {},
            }
            let begin_n = context.get_label_count();
            context.emit(ThreeAddressCode::Label { label: Label::Lbegin(begin_n) });
            let end_n = context.get_label_count();
            match cond {
                Some(e0) => {
                    let cond_reg = match expr_to_ir(&**e0, context) {
                        Ok(v) => v,
                        Err(e) => {
                            return Err(e);
                        },
                    };
                    context.emit(
                        ThreeAddressCode::IfFalse { cond: cond_reg, label: Label::Lend(end_n) },
                    );
                },
                None => {},
            }
            match stmt_to_ir(&**body, context) {
                Ok(()) => {},
                Err(e) => {
                    return Err(e);
                },
            }
            match update {
                Some(e0) => {
                    match expr_to_ir(&**e0, context) {
                        Ok(_) => {},
                        Err(e) => {
                            return Err(e);
                        },
                    }
                },
                None => {},
            }
            context.emit(ThreeAddressCode::GoTo { label: Label::Lbegin(begin_n) });
            context.emit(ThreeAddressCode::Label { label: Label::Lend(end_n) });
            proof {
                assert(ir_state(*context) =~~= spec_stmt_ir(*stmt, ir_state(*old(context))));
            }
            Ok(())
        },
        Stmt::If { cond, then, els } => {
            proof {
                lemma_expr_weight_pos(*cond);
                lemma_stmt_weight_pos(**then);
                assert(stmt_weight(*stmt) == 1 + expr_weight(*cond) + stmt_weight(**then) + (
                match *els {
                    Some(b) => stmt_weight(*b),
                    None => 0,
                }));
                match els {
                    Some(b) => lemma_stmt_weight_pos(**b),
                    None => (),
                }
            }
            let cond_reg = match expr_to_ir(cond, context) {
                Ok(v) => v,
                Err(e) => {
                    return Err(e);
                },
            };
            match els {
                Some(els_stmt) => {
                    let else_n = context.get_label_count();
                    context.emit(
                        ThreeAddressCode::IfFalse { cond: cond_reg, label: Label::Lelse(else_n) },
                    );
                    match stmt_to_ir(&**then, context) {
                        Ok(()) => {},
                        Err(e) => {
                            return Err(e);
                        },
                    }
                    let end_n = context.get_label_count();
                    context.emit(ThreeAddressCode::GoTo { label: Label::Lend(end_n) });
                    context.emit(ThreeAddressCode::Label { label: Label::Lelse(else_n) });
                    match stmt_to_ir(&**els_stmt, context) {
                        Ok(()) => {},
                        Err(e) => {
                            return Err(e);
                        },
                    }
                    context.emit(ThreeAddressCode::Label { label: Label::Lend(end_n) });
                    proof {
                        assert(ir_state(*context) =~~= spec_stmt_ir(
                            *stmt,
                            ir_state(*old(context)),
                        ));
                    }
                    Ok(())
                },
                None => {
                    let end_n = context.get_label_count();
                    context.emit(
                        ThreeAddressCode::IfFalse { cond: cond_reg, label: Label::Lend(end_n) },
                    );
                    match stmt_to_ir(&**then, context) {
                        Ok(()) => {},
                        Err(e) => {
                            return Err(e);
                        },
                    }
                    context.emit(ThreeAddressCode::Label { label: Label::Lend(end_n) });
                    proof {
                        assert(ir_state(*context) =~~= spec_stmt_ir(
                            *stmt,
                            ir_state(*old(context)),
                        ));
                    }
                    Ok(())
                },
            }
        },
        Stmt::Block(stmts) => {
            let ghost rc0 = context.register_count;
            let ghost lc0 = context.label_count;
            proof {
                assert(stmts@.skip(0) =~= stmts@);
                assert(stmt_weight(*stmt) == 1 + stmts_weight(stmts@));
            }
            let mut i: usize = 0;
            while i < stmts.len()
                invariant
                    i <= stmts.len(),
                    context.wf(),
                    *stmt == Stmt::Block(*stmts),
                    rc0 == old(context).register_count,
                    lc0 == old(context).label_count,
                    rc0 <= context.register_count,
                    lc0 <= context.label_count,
                    context.code@.len() >= old(context).code@.len(),
                    forall|k: int|
                        0 <= k < old(context).code@.len() ==> context.code@[k] == old(
                            context,
                        ).code@[k],
                    context.register_count + stmts_weight(stmts@.skip(i as int)) <= rc0
                        + stmts_weight(stmts@),
                    context.label_count + stmts_weight(stmts@.skip(i as int)) <= lc0
                        + stmts_weight(stmts@),
                    rc0 + stmt_weight(*stmt) <= usize::MAX,
                    lc0 + stmt_weight(*stmt) <= usize::MAX,
                    stmt_weight(*stmt) == 1 + stmts_weight(stmts@),
                    forall|k: int| 0 <= k < i ==> stmt_well_formed(#[trigger] stmts@[k]),
                    spec_stmts_ir(stmts@, ir_state(*old(context))) == spec_stmts_ir(
                        stmts@.skip(i as int),
                        ir_state(*context),
                    ),
                decreases stmts.len() - i,
            {
                proof {
                    let rest = stmts@.skip(i as int);
                    assert(rest[0] == stmts@[i as int]);
                    assert(rest.drop_first() =~= stmts@.skip(i as int + 1));
                }
                match stmt_to_ir(&stmts[i], context) {
                    Ok(()) => {},
                    Err(e) => {
                        proof {
                            // The failing member breaks the whole block.
                            lemma_stmts_wf_iff(stmts@);
                        }
                        return Err(e);
                    },
                }
                i += 1;
            }
            proof {
                assert(stmts@.skip(stmts@.len() as int).len() == 0);
                lemma_stmts_wf_iff(stmts@);
                assert(ir_state(*context) == spec_stmt_ir(*stmt, ir_state(*old(context))));
            }
            Ok(())
        },
        Stmt::Fn { fn_name, params, body } => {
            let ghost rc0 = context.register_count;
            let ghost lc0 = context.label_count;
            proof {
                lemma_exprs_weight_ge_len(params@);
                assert(stmt_weight(*stmt) == 1 + exprs_weight(params@) + stmts_weight(body@));
            }
            let mut params_ir: Vec<Param> = Vec::new();
            let mut i: usize = 0;
            proof {
                assert(params@.skip(0) =~= params@);
                assert(params_ir@.map_values(|q: Param| param_view(q))
                    =~= Seq::<(VirtualReg, Seq<char>)>::empty());
            }
            while i < params.len()
                invariant
                    i <= params.len(),
                    context.wf(),
                    *stmt == (Stmt::Fn {
                        fn_name: *fn_name,
                        params: *params,
                        body: *body,
                    }),
                    rc0 == old(context).register_count,
                    lc0 == old(context).label_count,
                    rc0 + stmt_weight(*stmt) <= usize::MAX,
                    lc0 + stmt_weight(*stmt) <= usize::MAX,
                    stmt_weight(*stmt) == 1 + exprs_weight(params@) + stmts_weight(body@),
                    rc0 <= context.register_count <= rc0 + i,
                    context.label_count == lc0,
                    context.code == old(context).code,
                    params@.len() <= exprs_weight(params@),
                    rc0 + 1 + exprs_weight(params@) <= usize::MAX,
                    forall|k: int| 0 <= k < i ==> (#[trigger] params@[k]) is Var,
                    spec_params_ir(params@, ir_state(*old(context))).0 == params_ir@.map_values(
                        |q: Param| param_view(q),
                    ) + spec_params_ir(params@.skip(i as int), ir_state(*context)).0,
                    spec_params_ir(params@, ir_state(*old(context))).1 == spec_params_ir(
                        params@.skip(i as int),
                        ir_state(*context),
                    ).1,
                decreases params.len() - i,
            {
                proof {
                    let rest = params@.skip(i as int);
                    assert(rest[0] == params@[i as int]);
                    assert(rest.drop_first() =~= params@.skip(i as int + 1));
                }
                let name = match &params[i] {
                    Expr::Var(name) => name,
                    _ => {
                        proof {
                            assert(!params_well_formed(params@)) by {
                                assert(!(params@[i as int] is Var));
                            }
                        }
                        let e = CompileError::new(0, "parameter should be an identifier");
                        return Err(e);
                    },
                };
                let ghost regs_pre = params_ir@;
                let dest = context.get_var_reg(name.as_str());
                params_ir.push(Param::new(dest, name.clone()));
                proof {
                    assert(params_ir@.map_values(|q: Param| param_view(q)) =~= regs_pre.map_values(
                        |q: Param| param_view(q),
                    ).push((dest, name@)));
                    let rest1 = params@.skip(i as int + 1);
                    assert(regs_pre.map_values(|q: Param| param_view(q)) + (seq![(dest, name@)]
                        + spec_params_ir(rest1, ir_state(*context)).0) =~= params_ir@.map_values(
                        |q: Param| param_view(q),
                    ) + spec_params_ir(rest1, ir_state(*context)).0);
                }
                i += 1;
            }
            proof {
                assert(params@.skip(params@.len() as int).len() == 0);
                assert(spec_params_ir(params@, ir_state(*old(context))).0 =~= params_ir@
                    .map_values(|q: Param| param_view(q)));
            }
            context.emit(ThreeAddressCode::Fn { fn_name: fn_name.clone(), params: params_ir });
            let ghost st_base = ir_state(*context);
            proof {
                assert(st_base =~~= st_emit(
                    spec_params_ir(params@, ir_state(*old(context))).1,
                    IrIns::Fn {
                        fn_name: fn_name@,
                        params: spec_params_ir(params@, ir_state(*old(context))).0,
                    },
                ));
            }
            let ghost rc1 = context.register_count;
            let ghost lc1 = context.label_count;
            let ghost fn_idx = old(context).code@.len() as int;
            proof {
                assert(body@.skip(0) =~= body@);
                assert(context.code@[fn_idx] is Fn);
                assert(params_well_formed(params@));
            }
            let mut j: usize = 0;
            while j < body.len()
                invariant
                    j <= body.len(),
                    context.wf(),
                    *stmt == (Stmt::Fn {
                        fn_name: *fn_name,
                        params: *params,
                        body: *body,
                    }),
                    rc0 == old(context).register_count,
                    lc0 == old(context).label_count,
                    fn_idx == old(context).code@.len() as int,
                    context.code@.len() > fn_idx,
                    context.code@[fn_idx] is Fn,
                    forall|k: int|
                        0 <= k < old(context).code@.len() ==> context.code@[k] == old(
                            context,
                        ).code@[k],
                    rc1 <= context.register_count,
                    lc1 <= context.label_count,
                    rc0 <= rc1,
                    rc1 <= rc0 + exprs_weight(params@),
                    lc1 == lc0,
                    context.register_count + stmts_weight(body@.skip(j as int)) <= rc1
                        + stmts_weight(body@),
                    context.label_count + stmts_weight(body@.skip(j as int)) <= lc1
                        + stmts_weight(body@),
                    rc0 + stmt_weight(*stmt) <= usize::MAX,
                    lc0 + stmt_weight(*stmt) <= usize::MAX,
                    stmt_weight(*stmt) == 1 + exprs_weight(params@) + stmts_weight(body@),
                    params_well_formed(params@),
                    forall|k: int| 0 <= k < j ==> stmt_well_formed(#[trigger] body@[k]),
                    st_base == st_emit(
                        spec_params_ir(params@, ir_state(*old(context))).1,
                        IrIns::Fn {
                            fn_name: fn_name@,
                            params: spec_params_ir(params@, ir_state(*old(context))).0,
                        },
                    ),
                    spec_stmts_ir(body@, st_base) == spec_stmts_ir(
                        body@.skip(j as int),
                        ir_state(*context),
                    ),
                decreases body.len() - j,
            {
                proof {
                    let rest = body@.skip(j as int);
                    assert(rest[0] == body@[j as int]);
                    assert(rest.drop_first() =~= body@.skip(j as int + 1));
                }
                match stmt_to_ir(&body[j], context) {
                    Ok(()) => {},
                    Err(e) => {
                        proof {
                            // The failing member breaks the whole body.
                            lemma_stmts_wf_iff(body@);
                        }
                        return Err(e);
                    },
                }
                j += 1;
            }
            proof {
                assert(body@.skip(body@.len() as int).len() == 0);
                lemma_stmts_wf_iff(body@);
                assert(ir_state(*context) == spec_stmt_ir(*stmt, ir_state(*old(context))));
            }
            Ok(())
        },
        Stmt::ExprStmt(expr) => {
            match expr_to_ir(expr, context) {
                Ok(_) => {
                    proof {
                        assert(ir_state(*context) == spec_stmt_ir(
                            *stmt,
                            ir_state(*old(context)),
                        ));
                    }
                    Ok(())
                },
                Err(e) => Err(e),
            }
        },
        Stmt::VarDecl { name, .. } => {
            let _ = context.get_var_reg(name.as_str());
            proof {
                assert(ir_state(*context) == spec_stmt_ir(*stmt, ir_state(*old(context))));
            }
            Ok(())
        },
    }
}

/// Lowers an l-value to the register holding the address to store into:
/// nested dereferences load one level short, and a named variable yields its
/// own register (kept live by an `EvalVar`).
fn gen_lval_addr(expr: &Expr, context: &mut GenIrContext) -> (r: Result<VirtualReg, CompileError>)
    requires
        old(context).wf(),
        old(context).register_count + expr_weight(*expr) <= usize::MAX,
    ensures
        final(context).wf(),
        old(context).register_count <= final(context).register_count <= old(
            context,
        ).register_count + expr_weight(*expr),
        final(context).label_count == old(context).label_count,
        final(context).code@.len() >= old(context).code@.len(),
        forall|k: int|
            0 <= k < old(context).code@.len() ==> final(context).code@[k] == old(
                context,
            ).code@[k],
        r matches Ok(v) ==> v.id < final(context).register_count,
        r is Ok <==> lval_well_formed(*expr),
        r matches Ok(v) ==> v == spec_lval_ir(*expr, ir_state(*old(context))).0 && ir_state(
            *final(context),
        ) == spec_lval_ir(*expr, ir_state(*old(context))).1,
    decreases *expr,
{
    match expr {
        Expr::Deref(inner) => {
            proof {
                lemma_expr_weight_pos(**inner);
            }
            let addr = match gen_lval_addr(&**inner, context) {
                Ok(a) => a,
                Err(e) => {
                    return Err(e);
                },
            };
            match &**inner {
                Expr::Deref(_) => {
                    // `**pp` first loads `*pp`; the last level is left as
                    // the address to store into.
                    let value = context.get_new_register();
                    context.emit(ThreeAddressCode::LoadVar { dest: value, addr });
                    proof {
                        assert(ir_state(*context) =~~= spec_lval_ir(
                            *expr,
                            ir_state(*old(context)),
                        ).1);
                    }
                    Ok(value)
                },
                _ => {
                    proof {
                        assert(ir_state(*context) =~~= spec_lval_ir(
                            *expr,
                            ir_state(*old(context)),
                        ).1);
                    }
                    Ok(addr)
                },
            }
        },
        Expr::Var(name) => {
            let dest = context.get_var_reg(name.as_str());
            context.emit(ThreeAddressCode::EvalVar { dest, name: name.clone() });
            proof {
                assert(ir_state(*context) =~~= spec_lval_ir(*expr, ir_state(*old(context))).1);
            }
            Ok(dest)
        },
        _ => Err(CompileError::new(0, "not an assignable location")),
    }
}

/// Lowers one expression and returns the virtual register holding its value.
fn expr_to_ir(expr: &Expr, context: &mut GenIrContext) -> (r: Result<VirtualReg, CompileError>)
    requires
        old(context).wf(),
        old(context).register_count + expr_weight(*expr) <= usize::MAX,
    ensures
        final(context).wf(),
        old(context).register_count <= final(context).register_count <= old(
            context,
        ).register_count + expr_weight(*expr),
        final(context).label_count == old(context).label_count,
        final(context).code@.len() >= old(context).code@.len(),
        forall|k: int|
            0 <= k < old(context).code@.len() ==> final(context).code@[k] == old(
                context,
            ).code@[k],
        r matches Ok(v) ==> final(context).code@.len() > old(context).code@.len() && expr_emits(
            *expr,
            final(context).code@.last(),
            v,
        ) && v.id < final(context).register_count,
        r is Ok <==> expr_well_formed(*expr),
        r matches Ok(v) ==> v == spec_expr_ir(*expr, ir_state(*old(context))).0 && ir_state(
            *final(context),
        ) == spec_expr_ir(*expr, ir_state(*old(context))).1,
    decreases *expr,
{
    match expr {
        Expr::Assign { lhs, rhs } => {
            proof {
                lemma_expr_weight_pos(**lhs);
                lemma_expr_weight_pos(**rhs);
            }
            let src = match expr_to_ir(&**rhs, context) {
                Ok(v) => v,
                Err(e) => {
                    return Err(e);
                },
            };
            match &**lhs {
                Expr::Deref(_) => {
                    let addr = match gen_lval_addr(&**lhs, context) {
                        Ok(a) => a,
                        Err(e) => {
                            return Err(e);
                        },
                    };
                    context.emit(ThreeAddressCode::Store { addr, src });
                },
                Expr::Var(name) => {
                    let dest = context.get_var_reg(name.as_str());
                    context.emit(ThreeAddressCode::Assign { dest, src });
                },
                _ => {
                    return Err(CompileError::new(0, "left value is not assignable"));
                },
            }
            proof {
                assert(ir_state(*context) =~~= spec_expr_ir(*expr, ir_state(*old(context))).1);
            }
            // The value of an assignment is its right-hand side.
            Ok(src)
        },
        Expr::Num(val) => {
            let reg = context.get_new_register();
            context.emit(ThreeAddressCode::LoadImm { dest: reg, value: *val });
            proof {
                assert(ir_state(*context) =~~= spec_expr_ir(*expr, ir_state(*old(context))).1);
            }
            Ok(reg)
        },
        Expr::Binary { op, lhs, rhs } => {
            proof {
                lemma_expr_weight_pos(**lhs);
                lemma_expr_weight_pos(**rhs);
            }
            // Left to right, always; no constant folding here.
            let left_operand = match expr_to_ir(&**lhs, context) {
                Ok(v) => v,
                Err(e) => {
                    return Err(e);
                },
            };
            let right_operand = match expr_to_ir(&**rhs, context) {
                Ok(v) => v,
                Err(e) => {
                    return Err(e);
                },
            };
            let dest_vreg = context.get_new_register();
            let ir_op = match op {
                BinOp::Add => IrBinOp::Add,
                BinOp::Sub => IrBinOp::Sub,
                BinOp::Mul => IrBinOp::Mul,
                BinOp::Div => IrBinOp::Div,
                BinOp::Le => IrBinOp::Le,
                BinOp::Lt => IrBinOp::Lt,
                BinOp::Eq => IrBinOp::Eq,
                BinOp::Ne => IrBinOp::Ne,
            };
            context.emit(
                ThreeAddressCode::BinOpCode {
                    dest: dest_vreg,
                    left: left_operand,
                    op: ir_op,
                    right: right_operand,
                },
            );
            proof {
                assert(ir_op == ir_op_of(*op));
                assert(ir_state(*context) =~~= spec_expr_ir(*expr, ir_state(*old(context))).1);
            }
            Ok(dest_vreg)
        },
        Expr::Var(name) => {
            let dest = context.get_var_reg(name.as_str());
            context.emit(ThreeAddressCode::EvalVar { dest, name: name.clone() });
            proof {
                assert(ir_state(*context) =~~= spec_expr_ir(*expr, ir_state(*old(context))).1);
            }
            Ok(dest)
        },
        Expr::Addr(inner) => {
            proof {
                lemma_expr_weight_pos(**inner);
            }
            match &**inner {
                Expr::Var(name) => {
                    let var = context.get_var_reg(name.as_str());
                    let addr = context.get_new_register();
                    context.emit(ThreeAddressCode::AddrOf { addr, var });
                    proof {
                        assert(ir_state(*context) =~~= spec_expr_ir(
                            *expr,
                            ir_state(*old(context)),
                        ).1);
                    }
                    Ok(addr)
                },
                _ => Err(CompileError::new(0, "this cannot be referenced")),
            }
        },
        Expr::Deref(inner) => {
            proof {
                lemma_expr_weight_pos(**inner);
            }
            let dest = context.get_new_register();
            let addr = match expr_to_ir(&**inner, context) {
                Ok(v) => v,
                Err(e) => {
                    return Err(e);
                },
            };
            context.emit(ThreeAddressCode::LoadVar { dest, addr });
            proof {
                assert(ir_state(*context) =~~= spec_expr_ir(*expr, ir_state(*old(context))).1);
            }
            Ok(dest)
        },
        Expr::Call { fn_name, args } => {
            let ghost rc0 = context.register_count;
            proof {
                assert(args@.skip(0) =~= args@);
            }
            let mut arg_regs: Vec<VirtualReg> = Vec::new();
            let mut i: usize = 0;
            while i < args.len()
                invariant
                    i <= args.len(),
                    context.wf(),
                    *expr == (Expr::Call { fn_name: *fn_name, args: *args }),
                    rc0 == old(context).register_count,
                    expr_weight(*expr) == 1 + exprs_weight(args@),
                    rc0 + expr_weight(*expr) <= usize::MAX,
                    rc0 <= context.register_count,
                    context.code@.len() >= old(context).code@.len(),
                    forall|k: int|
                        0 <= k < old(context).code@.len() ==> context.code@[k] == old(
                            context,
                        ).code@[k],
                    context.label_count == old(context).label_count,
                    context.register_count + exprs_weight(args@.skip(i as int)) <= rc0
                        + exprs_weight(args@),
                    rc0 + 1 + exprs_weight(args@) <= usize::MAX,
                    forall|k: int| 0 <= k < i ==> expr_well_formed(#[trigger] args@[k]),
                    spec_exprs_ir(args@, ir_state(*old(context))).0 == arg_regs@ + spec_exprs_ir(
                        args@.skip(i as int),
                        ir_state(*context),
                    ).0,
                    spec_exprs_ir(args@, ir_state(*old(context))).1 == spec_exprs_ir(
                        args@.skip(i as int),
                        ir_state(*context),
                    ).1,
                decreases args.len() - i,
            {
                proof {
                    let rest = args@.skip(i as int);
                    assert(rest[0] == args@[i as int]);
                    assert(rest.drop_first() =~= args@.skip(i as int + 1));
                }
                let ghost pre = ir_state(*context);
                let ghost regs_pre = arg_regs@;
                let a = match expr_to_ir(&args[i], context) {
                    Ok(v) => v,
                    Err(e) => {
                        proof {
                            // The failing argument breaks the whole list.
                            lemma_exprs_wf_iff(args@);
                        }
                        return Err(e);
                    },
                };
                arg_regs.push(a);
                proof {
                    let rest1 = args@.skip(i as int + 1);
                    assert(spec_exprs_ir(args@.skip(i as int), pre).0 =~= seq![a]
                        + spec_exprs_ir(rest1, ir_state(*context)).0);
                    assert(regs_pre + (seq![a] + spec_exprs_ir(rest1, ir_state(*context)).0)
                        =~= arg_regs@ + spec_exprs_ir(rest1, ir_state(*context)).0);
                }
                i += 1;
            }
            proof {
                assert(args@.skip(args@.len() as int).len() == 0);
                assert(spec_exprs_ir(args@, ir_state(*old(context))).0 =~= arg_regs@);
                lemma_exprs_wf_iff(args@);
            }
            let ret_reg = context.get_new_register();
            context.emit(
                ThreeAddressCode::Call { fn_name: fn_name.clone(), args: arg_regs, ret_reg },
            );
            proof {
                assert(ir_state(*context) =~~= spec_expr_ir(*expr, ir_state(*old(context))).1);
            }
            Ok(ret_reg)
        },
    }
}

} // verus!
