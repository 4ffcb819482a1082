//! Instruction forms and operand carriers of the three-address code (TAC)
//! exchanged between the front-end and the back-end.

use vstd::prelude::*;

verus! {

/// A pseudo-register from an unbounded pool, distinguished only by its dense
/// non-negative id. Two virtual registers are equal iff their ids are equal.
#[derive(Debug, Clone, Copy, PartialEq, Eq, Hash, Structural)]
pub struct VirtualReg {
    pub id: usize,
}

impl VirtualReg {
    pub(super) fn new(id: usize) -> (r: VirtualReg)
        ensures
            r.id == id,
    {
        VirtualReg { id }
    }
}

/// The binary operators of the TAC. Comparisons produce 0/1.
#[derive(Debug, Clone, Copy, PartialEq, Eq, Structural)]
pub enum BinOp {
    Add,
    Sub,
    Mul,
    Div,
    Le,
    Lt,
    Eq,
    Ne,
}

/// A jump target, drawn from a per-function monotone counter. Labels render
/// to the textual forms `.Lelse{n}`, `.Lbegin{n}`, `.Lend{n}`.
#[derive(Debug, Clone, Copy, PartialEq, Eq, Structural)]
pub enum Label {
    Lelse(usize),
    Lbegin(usize),
    Lend(usize),
}

/// One formal parameter of a function: its name and the virtual register that
/// receives its value.
#[derive(Debug, PartialEq, Clone)]
pub struct Param {
    pub dest: VirtualReg,
    pub name: String,
}

impl Param {
    pub fn new(dest: VirtualReg, name: String) -> (r: Param)
        ensures
            r.dest == dest,
            r.name == name,
    {
        Param { dest, name }
    }
}

/// The closed set of TAC instructions. Every operand is a virtual register;
/// immediate values travel only inside `LoadImm`.
#[derive(Debug, PartialEq, Clone)]
pub enum ThreeAddressCode {
    /// `dest <- value` (32-bit signed immediate).
    LoadImm { dest: VirtualReg, value: i32 },
    /// `dest <- left op right`.
    BinOpCode { dest: VirtualReg, left: VirtualReg, op: BinOp, right: VirtualReg },
    /// `dest <- src`; a named local also stores through its frame slot.
    Assign { dest: VirtualReg, src: VirtualReg },
    /// No code; keeps a named local's register live at its occurrences.
    EvalVar { dest: VirtualReg, name: String },
    /// `addr <- &var` (address of a local's frame slot).
    AddrOf { addr: VirtualReg, var: VirtualReg },
    /// `dest <- *addr` (indirect load).
    LoadVar { dest: VirtualReg, addr: VirtualReg },
    /// `*addr <- src` (indirect store).
    Store { addr: VirtualReg, src: VirtualReg },
    /// Return `src` and run the epilogue.
    Return { src: VirtualReg },
    /// If `cond == 0`, jump to `label`.
    IfFalse { cond: VirtualReg, label: Label },
    /// Unconditional jump.
    GoTo { label: Label },
    /// Label definition.
    Label { label: Label },
    /// Call by name; the integer result lands in `ret_reg`.
    Call { fn_name: String, args: Vec<VirtualReg>, ret_reg: VirtualReg },
    /// Function entry; the emitter produces the prologue and the
    /// argument-receiving code from it.
    Fn { fn_name: String, params: Vec<Param> },
}

/// The virtual registers an instruction mentions (defines or uses), in the
/// order the instruction's fields name them. The liveness scanner depends on
/// this enumeration being exhaustive per variant.
pub open spec fn spec_using_regs(t: ThreeAddressCode) -> Seq<VirtualReg> {
    match t {
        ThreeAddressCode::LoadImm { dest, .. } => seq![dest],
        ThreeAddressCode::BinOpCode { dest, left, right, .. } => seq![dest, left, right],
        ThreeAddressCode::Assign { dest, src } => seq![dest, src],
        ThreeAddressCode::EvalVar { dest, .. } => seq![dest],
        ThreeAddressCode::AddrOf { addr, var } => seq![addr, var],
        ThreeAddressCode::LoadVar { dest, addr } => seq![dest, addr],
        ThreeAddressCode::Store { addr, src } => seq![addr, src],
        ThreeAddressCode::Return { src } => seq![src],
        ThreeAddressCode::IfFalse { cond, .. } => seq![cond],
        ThreeAddressCode::GoTo { .. } => Seq::empty(),
        ThreeAddressCode::Label { .. } => Seq::empty(),
        ThreeAddressCode::Call { args, ret_reg, .. } => seq![ret_reg] + args@,
        ThreeAddressCode::Fn { params, .. } => params@.map_values(|p: Param| p.dest),
    }
}

/// The mathematical value of one instruction: the same variants as
/// `ThreeAddressCode`, with every string read as its character sequence and
/// every list as its element sequence. Contracts that pin emitted code speak
/// of these, since they carry all the instruction's observable content.
#[verifier::ext_equal]
pub ghost enum IrIns {
    LoadImm { dest: VirtualReg, value: i32 },
    BinOpCode { dest: VirtualReg, left: VirtualReg, op: BinOp, right: VirtualReg },
    Assign { dest: VirtualReg, src: VirtualReg },
    EvalVar { dest: VirtualReg, name: Seq<char> },
    AddrOf { addr: VirtualReg, var: VirtualReg },
    LoadVar { dest: VirtualReg, addr: VirtualReg },
    Store { addr: VirtualReg, src: VirtualReg },
    Return { src: VirtualReg },
    IfFalse { cond: VirtualReg, label: Label },
    GoTo { label: Label },
    Label { label: Label },
    Call { fn_name: Seq<char>, args: Seq<VirtualReg>, ret_reg: VirtualReg },
    Fn { fn_name: Seq<char>, params: Seq<(VirtualReg, Seq<char>)> },
}

/// A parameter as its mathematical value.
pub open spec fn param_view(p: Param) -> (VirtualReg, Seq<char>) {
    (p.dest, p.name@)
}

/// An instruction as its mathematical value.
pub open spec fn tac_view(t: ThreeAddressCode) -> IrIns {
    match t {
        ThreeAddressCode::LoadImm { dest, value } => IrIns::LoadImm { dest, value },
        ThreeAddressCode::BinOpCode { dest, left, op, right } => IrIns::BinOpCode {
            dest,
            left,
            op,
            right,
        },
        ThreeAddressCode::Assign { dest, src } => IrIns::Assign { dest, src },
        ThreeAddressCode::EvalVar { dest, name } => IrIns::EvalVar { dest, name: name@ },
        ThreeAddressCode::AddrOf { addr, var } => IrIns::AddrOf { addr, var },
        ThreeAddressCode::LoadVar { dest, addr } => IrIns::LoadVar { dest, addr },
        ThreeAddressCode::Store { addr, src } => IrIns::Store { addr, src },
        ThreeAddressCode::Return { src } => IrIns::Return { src },
        ThreeAddressCode::IfFalse { cond, label } => IrIns::IfFalse { cond, label },
        ThreeAddressCode::GoTo { label } => IrIns::GoTo { label },
        ThreeAddressCode::Label { label } => IrIns::Label { label },
        ThreeAddressCode::Call { fn_name, args, ret_reg } => IrIns::Call {
            fn_name: fn_name@,
            args: args@,
            ret_reg,
        },
        ThreeAddressCode::Fn { fn_name, params } => IrIns::Fn {
            fn_name: fn_name@,
            params: params@.map_values(|p: Param| param_view(p)),
        },
    }
}

/// The mathematical values of a run of instructions.
pub open spec fn code_view(code: Seq<ThreeAddressCode>) -> Seq<IrIns> {
    code.map_values(|t: ThreeAddressCode| tac_view(t))
}

/// The registers an instruction value mentions, in field order.
pub open spec fn using_regs_ins(i: IrIns) -> Seq<VirtualReg> {
    match i {
        IrIns::LoadImm { dest, .. } => seq![dest],
        IrIns::BinOpCode { dest, left, right, .. } => seq![dest, left, right],
        IrIns::Assign { dest, src } => seq![dest, src],
        IrIns::EvalVar { dest, .. } => seq![dest],
        IrIns::AddrOf { addr, var } => seq![addr, var],
        IrIns::LoadVar { dest, addr } => seq![dest, addr],
        IrIns::Store { addr, src } => seq![addr, src],
        IrIns::Return { src } => seq![src],
        IrIns::IfFalse { cond, .. } => seq![cond],
        IrIns::GoTo { .. } => Seq::empty(),
        IrIns::Label { .. } => Seq::empty(),
        IrIns::Call { args, ret_reg, .. } => seq![ret_reg] + args,
        IrIns::Fn { params, .. } => params.map_values(|p: (VirtualReg, Seq<char>)| p.0),
    }
}

/// An instruction's mentions are read off its value.
pub proof fn lemma_using_regs_view(t: ThreeAddressCode)
    ensures
        spec_using_regs(t) == using_regs_ins(tac_view(t)),
{
    match t {
        ThreeAddressCode::Fn { fn_name, params } => {
            assert(params@.map_values(|p: Param| p.dest) =~= params@.map_values(
                |p: Param| param_view(p),
            ).map_values(|p: (VirtualReg, Seq<char>)| p.0));
        },
        _ => {},
    }
}

/// Equality of instructions up to container identity: scalar fields and
/// strings agree, and register lists agree element for element. Every
/// specification in this crate reads instructions only through these.
pub open spec fn tac_eq(a: ThreeAddressCode, b: ThreeAddressCode) -> bool {
    match (a, b) {
        (
            ThreeAddressCode::Call { fn_name: f1, args: a1, ret_reg: r1 },
            ThreeAddressCode::Call { fn_name: f2, args: a2, ret_reg: r2 },
        ) => f1 == f2 && a1@ == a2@ && r1 == r2,
        (
            ThreeAddressCode::Fn { fn_name: f1, params: p1 },
            ThreeAddressCode::Fn { fn_name: f2, params: p2 },
        ) => f1 == f2 && p1@ == p2@,
        (x, y) => x == y,
    }
}

impl ThreeAddressCode {
    /// A field-for-field copy.
    pub fn duplicate(&self) -> (r: ThreeAddressCode)
        ensures
            tac_eq(r, *self),
    {
        match self {
            ThreeAddressCode::LoadImm { dest, value } => ThreeAddressCode::LoadImm {
                dest: *dest,
                value: *value,
            },
            ThreeAddressCode::BinOpCode { dest, left, op, right } => ThreeAddressCode::BinOpCode {
                dest: *dest,
                left: *left,
                op: *op,
                right: *right,
            },
            ThreeAddressCode::Assign { dest, src } => ThreeAddressCode::Assign {
                dest: *dest,
                src: *src,
            },
            ThreeAddressCode::EvalVar { dest, name } => ThreeAddressCode::EvalVar {
                dest: *dest,
                name: name.clone(),
            },
            ThreeAddressCode::AddrOf { addr, var } => ThreeAddressCode::AddrOf {
                addr: *addr,
                var: *var,
            },
            ThreeAddressCode::LoadVar { dest, addr } => ThreeAddressCode::LoadVar {
                dest: *dest,
                addr: *addr,
            },
            ThreeAddressCode::Store { addr, src } => ThreeAddressCode::Store {
                addr: *addr,
                src: *src,
            },
            ThreeAddressCode::Return { src } => ThreeAddressCode::Return { src: *src },
            ThreeAddressCode::IfFalse { cond, label } => ThreeAddressCode::IfFalse {
                cond: *cond,
                label: *label,
            },
            ThreeAddressCode::GoTo { label } => ThreeAddressCode::GoTo { label: *label },
            ThreeAddressCode::Label { label } => ThreeAddressCode::Label { label: *label },
            ThreeAddressCode::Call { fn_name, args, ret_reg } => {
                let mut copied: Vec<VirtualReg> = Vec::new();
                let mut i: usize = 0;
                while i < args.len()
                    invariant
                        i <= args.len(),
                        copied@ == args@.subrange(0, i as int),
                    decreases args.len() - i,
                {
                    copied.push(args[i]);
                    proof {
                        assert(copied@ =~= args@.subrange(0, i as int + 1));
                    }
                    i += 1;
                }
                proof {
                    assert(args@.subrange(0, args@.len() as int) =~= args@);
                }
                ThreeAddressCode::Call {
                    fn_name: fn_name.clone(),
                    args: copied,
                    ret_reg: *ret_reg,
                }
            },
            ThreeAddressCode::Fn { fn_name, params } => {
                let mut copied: Vec<Param> = Vec::new();
                let mut i: usize = 0;
                while i < params.len()
                    invariant
                        i <= params.len(),
                        copied@ == params@.subrange(0, i as int),
                    decreases params.len() - i,
                {
                    copied.push(Param { dest: params[i].dest, name: params[i].name.clone() });
                    proof {
                        assert(copied@ =~= params@.subrange(0, i as int + 1));
                    }
                    i += 1;
                }
                proof {
                    assert(params@.subrange(0, params@.len() as int) =~= params@);
                }
                ThreeAddressCode::Fn { fn_name: fn_name.clone(), params: copied }
            },
        }
    }

    /// Enumerates the registers the instruction mentions. No variant falls
    /// through to a wildcard: a new instruction must be handled here before
    /// any consumer compiles.
    pub fn get_using_regs(&self) -> (r: Vec<VirtualReg>)
        ensures
            r@ == spec_using_regs(*self),
    {
        match self {
            ThreeAddressCode::LoadImm { dest, .. } => {
                vec![*dest]
            },
            ThreeAddressCode::BinOpCode { dest, left, right, .. } => {
                vec![*dest, *left, *right]
            },
            ThreeAddressCode::Assign { dest, src } => {
                vec![*dest, *src]
            },
            ThreeAddressCode::EvalVar { dest, .. } => {
                vec![*dest]
            },
            ThreeAddressCode::AddrOf { addr, var } => {
                vec![*addr, *var]
            },
            ThreeAddressCode::LoadVar { dest, addr } => {
                vec![*dest, *addr]
            },
            ThreeAddressCode::Store { addr, src } => {
                vec![*addr, *src]
            },
            ThreeAddressCode::Return { src } => {
                vec![*src]
            },
            ThreeAddressCode::IfFalse { cond, .. } => {
                vec![*cond]
            },
            ThreeAddressCode::GoTo { .. } => {
                Vec::new()
            },
            ThreeAddressCode::Label { .. } => {
                Vec::new()
            },
            ThreeAddressCode::Call { ret_reg, args, .. } => {
                let mut vregs: Vec<VirtualReg> = vec![*ret_reg];
                let mut i: usize = 0;
                while i < args.len()
                    invariant
                        i <= args.len(),
                        vregs@ == seq![*ret_reg] + args@.subrange(0, i as int),
                    decreases args.len() - i,
                {
                    vregs.push(args[i]);
                    i += 1;
                }
                assert(args@.subrange(0, args@.len() as int) == args@);
                vregs
            },
            ThreeAddressCode::Fn { params, .. } => {
                let mut vregs: Vec<VirtualReg> = Vec::new();
                let mut i: usize = 0;
                while i < params.len()
                    invariant
                        i <= params.len(),
                        vregs@ == params@.subrange(0, i as int).map_values(|p: Param| p.dest),
                    decreases params.len() - i,
                {
                    vregs.push(params[i].dest);
                    assert(params@.subrange(0, i + 1 as int).drop_last() == params@.subrange(
                        0,
                        i as int,
                    ));
                    i += 1;
                }
                assert(params@.subrange(0, params@.len() as int) == params@);
                vregs
            },
        }
    }
}

} // verus!
