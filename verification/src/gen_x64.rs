//! The x86-64 emitter: renders each TAC instruction as Intel-syntax assembly
//! text, honoring the System V AMD64 calling convention, the dual
//! register/memory residence of named locals, operand aliasing, and the
//! fixed-register care that signed division demands.

use vstd::prelude::*;

use crate::frame::Frame;
use crate::ir::types_ir::{
    lemma_using_regs_view, param_view, spec_using_regs, tac_view, using_regs_ins, BinOp, IrIns,
    Label, Param, ThreeAddressCode, VirtualReg,
};
use crate::ir::types_ir::code_view;
use crate::types::str_eq;

verus! {

/// The decimal digit character for `d` in `0..=9`.
pub open spec fn dec_digit(d: int) -> char {
    if d == 0 {
        '0'
    } else if d == 1 {
        '1'
    } else if d == 2 {
        '2'
    } else if d == 3 {
        '3'
    } else if d == 4 {
        '4'
    } else if d == 5 {
        '5'
    } else if d == 6 {
        '6'
    } else if d == 7 {
        '7'
    } else if d == 8 {
        '8'
    } else {
        '9'
    }
}

/// The decimal rendering of a non-negative number, most significant digit
/// first, without leading zeros (a single `0` for zero).
pub open spec fn dec_seq(n: int) -> Seq<char>
    decreases n,
{
    if n < 10 {
        seq![dec_digit(n)]
    } else {
        dec_seq(n / 10).push(dec_digit(n % 10))
    }
}

/// The decimal rendering of a signed immediate: a minus sign for negatives.
pub open spec fn imm_seq(v: int) -> Seq<char> {
    if v < 0 {
        seq!['-'] + dec_seq(-v)
    } else {
        dec_seq(v)
    }
}

fn digit_str(d: u64) -> (r: &'static str)
    requires
        d < 10,
    ensures
        r@ == seq![dec_digit(d as int)],
{
    proof {
        reveal_strlit("0");
        reveal_strlit("1");
        reveal_strlit("2");
        reveal_strlit("3");
        reveal_strlit("4");
        reveal_strlit("5");
        reveal_strlit("6");
        reveal_strlit("7");
        reveal_strlit("8");
        reveal_strlit("9");
    }
    let r = match d {
        0 => "0",
        1 => "1",
        2 => "2",
        3 => "3",
        4 => "4",
        5 => "5",
        6 => "6",
        7 => "7",
        8 => "8",
        _ => "9",
    };
    proof {
        assert(r@ =~= seq![dec_digit(d as int)]);
    }
    r
}

/// Renders `n` in decimal.
pub fn u64_to_string(n: u64) -> (s: String)
    ensures
        s@ == dec_seq(n as int),
    decreases n,
{
    if n < 10 {
        String::from_str(digit_str(n))
    } else {
        let mut s = u64_to_string(n / 10);
        s.append(digit_str(n % 10));
        proof {
            assert(s@ =~= dec_seq(n as int / 10).push(dec_digit(n as int % 10)));
        }
        s
    }
}

/// Renders a signed 32-bit immediate in decimal.
pub fn i32_to_string(v: i32) -> (s: String)
    ensures
        s@ == imm_seq(v as int),
{
    if v < 0 {
        let n: i64 = -(v as i64);
        let mut s = String::from_str("-");
        proof {
            reveal_strlit("-");
            assert(s@ =~= seq!['-']);
        }
        let digits = u64_to_string(n as u64);
        s.append(digits.as_str());
        proof {
            assert(s@ =~= seq!['-'] + dec_seq(-(v as int)));
        }
        s
    } else {
        u64_to_string(v as u64)
    }
}

/// The textual form of a label: `.Lelse{n}`, `.Lbegin{n}` or `.Lend{n}`.
pub open spec fn label_seq(l: Label) -> Seq<char> {
    match l {
        Label::Lelse(n) => ".Lelse"@ + dec_seq(n as int),
        Label::Lbegin(n) => ".Lbegin"@ + dec_seq(n as int),
        Label::Lend(n) => ".Lend"@ + dec_seq(n as int),
    }
}

/// The first value paired with `v`, searching in entry order.
pub open spec fn spec_lookup(m: Seq<(VirtualReg, usize)>, v: VirtualReg) -> Option<usize>
    decreases m.len(),
{
    if m.len() == 0 {
        None
    } else if m[0].0 == v {
        Some(m[0].1)
    } else {
        spec_lookup(m.drop_first(), v)
    }
}

pub(crate) fn lookup_assoc(m: &Vec<(VirtualReg, usize)>, v: VirtualReg) -> (r: Option<usize>)
    ensures
        r == spec_lookup(m@, v),
{
    proof {
        assert(m@.subrange(0, m@.len() as int) =~= m@);
    }
    let mut i: usize = 0;
    while i < m.len()
        invariant
            i <= m.len(),
            spec_lookup(m@, v) == spec_lookup(m@.subrange(i as int, m@.len() as int), v),
        decreases m.len() - i,
    {
        let ghost rest = m@.subrange(i as int, m@.len() as int);
        proof {
            assert(rest[0] == m@[i as int]);
            assert(rest.drop_first() =~= m@.subrange(i as int + 1, m@.len() as int));
        }
        if m[i].0 == v {
            return Some(m[i].1);
        }
        i += 1;
    }
    proof {
        assert(m@.subrange(m@.len() as int, m@.len() as int).len() == 0);
    }
    None
}

fn cat2(a: &str, b: &str) -> (s: String)
    ensures
        s@ == a@ + b@,
{
    let mut s = String::from_str(a);
    s.append(b);
    s
}

fn cat3(a: &str, b: &str, c: &str) -> (s: String)
    ensures
        s@ == a@ + b@ + c@,
{
    let mut s = String::from_str(a);
    s.append(b);
    s.append(c);
    s
}

fn cat4(a: &str, b: &str, c: &str, d: &str) -> (s: String)
    ensures
        s@ == a@ + b@ + c@ + d@,
{
    let mut s = String::from_str(a);
    s.append(b);
    s.append(c);
    s.append(d);
    s
}

fn cat5(a: &str, b: &str, c: &str, d: &str, e: &str) -> (s: String)
    ensures
        s@ == a@ + b@ + c@ + d@ + e@,
{
    let mut s = String::from_str(a);
    s.append(b);
    s.append(c);
    s.append(d);
    s.append(e);
    s
}

/// The views of a run of strings.
pub open spec fn lines_view(v: Seq<String>) -> Seq<Seq<char>> {
    v.map_values(|s: String| s@)
}

/// The physical register name of `v` under the map `m` and the name pool
/// `regs`.
pub open spec fn reg_str(regs: Seq<Seq<char>>, m: Seq<(VirtualReg, usize)>, v: VirtualReg) -> Seq<
    char,
> {
    match spec_lookup(m, v) {
        Some(i) => if (i as int) < regs.len() {
            regs[i as int]
        } else {
            Seq::empty()
        },
        None => Seq::empty(),
    }
}

/// `v` has a register in `m`, and its index falls inside the name pool.
pub open spec fn lookup_ok(m: Seq<(VirtualReg, usize)>, nregs: int, v: VirtualReg) -> bool {
    match spec_lookup(m, v) {
        Some(i) => (i as int) < nregs,
        None => false,
    }
}

/// The frame offset of `v` (zero when it has no slot; guarded by callers).
pub open spec fn frame_off(fr: Seq<(VirtualReg, usize)>, v: VirtualReg) -> int {
    match spec_lookup(fr, v) {
        Some(o) => o as int,
        None => 0,
    }
}

/// The largest offset of the frame map.
pub open spec fn max_offset(fr: Seq<(VirtualReg, usize)>) -> int
    decreases fr.len(),
{
    if fr.len() == 0 {
        0
    } else {
        let rest = max_offset(fr.drop_last());
        if fr.last().1 as int > rest {
            fr.last().1 as int
        } else {
            rest
        }
    }
}

/// The stack reservation of a function: its largest frame offset aligned up
/// to 16 bytes.
pub open spec fn spec_stack_size(fr: Seq<(VirtualReg, usize)>) -> int {
    ((max_offset(fr) + 15) / 16) * 16
}

/// The stack size is always a multiple of 16, and zero for a function
/// without locals.
pub proof fn lemma_stack_size_props(fr: Seq<(VirtualReg, usize)>)
    ensures
        spec_stack_size(fr) % 16 == 0,
        max_offset(fr) == 0 ==> spec_stack_size(fr) == 0,
        0 <= max_offset(fr) ==> max_offset(fr) <= spec_stack_size(fr) <= max_offset(fr) + 15,
{
    let m = max_offset(fr);
    assert(((m + 15) / 16) * 16 % 16 == 0) by (nonlinear_arith);
    if m >= 0 {
        assert(m <= ((m + 15) / 16) * 16 <= m + 15) by (nonlinear_arith);
    }
}

/// A frame map as the frame builder lays it out: the k-th slot at offset
/// `8 * (k + 1)`, and small enough for the stack-size arithmetic.
pub open spec fn frame_wf(fr: Seq<(VirtualReg, usize)>) -> bool {
    &&& forall|k: int| 0 <= k < fr.len() ==> (#[trigger] fr[k]).1 == 8 * (k + 1)
    &&& 8 * fr.len() + 15 <= usize::MAX
}

proof fn lemma_max_offset_bound(fr: Seq<(VirtualReg, usize)>, bound: int)
    requires
        forall|k: int| 0 <= k < fr.len() ==> (#[trigger] fr[k]).1 as int <= bound,
        0 <= bound,
    ensures
        0 <= max_offset(fr) <= bound,
    decreases fr.len(),
{
    if fr.len() > 0 {
        assert(forall|k: int|
            0 <= k < fr.drop_last().len() ==> #[trigger] fr.drop_last()[k] == fr[k]);
        lemma_max_offset_bound(fr.drop_last(), bound);
        assert(fr[fr.len() - 1] == fr.last());
    }
}

/// The incoming argument-passing registers of the System V convention, in
/// positional order.
pub open spec fn recv_reg(i: int) -> Seq<char> {
    if i == 0 {
        "rdi"@
    } else if i == 1 {
        "rsi"@
    } else if i == 2 {
        "rdx"@
    } else if i == 3 {
        "rcx"@
    } else if i == 4 {
        "r8"@
    } else {
        "r9"@
    }
}

/// The callee-saved temporaries used to stage call arguments.
pub open spec fn save_reg(i: int) -> Seq<char> {
    if i == 0 {
        "rbx"@
    } else if i == 1 {
        "r12"@
    } else if i == 2 {
        "r13"@
    } else if i == 3 {
        "r14"@
    } else {
        "r15"@
    }
}

/// The reload of a named local from its frame slot before a use; nothing for
/// a plain temporary.
pub open spec fn reload_lines(
    regs: Seq<Seq<char>>,
    m: Seq<(VirtualReg, usize)>,
    fr: Seq<(VirtualReg, usize)>,
    v: VirtualReg,
) -> Seq<Seq<char>> {
    match spec_lookup(fr, v) {
        Some(off) => seq![
            "  mov "@ + reg_str(regs, m, v) + ", [rbp - "@ + dec_seq(off as int) + "]"@,
        ],
        None => Seq::empty(),
    }
}

/// The mnemonic of an arithmetic operator.
pub open spec fn op_name(op: BinOp) -> Seq<char> {
    match op {
        BinOp::Add => "add"@,
        BinOp::Sub => "sub"@,
        BinOp::Mul => "imul"@,
        _ => ""@,
    }
}

/// The set-on-condition mnemonic of a comparison operator.
pub open spec fn set_name(op: BinOp) -> Seq<char> {
    match op {
        BinOp::Le => "setle"@,
        BinOp::Lt => "setl"@,
        BinOp::Eq => "sete"@,
        BinOp::Ne => "setne"@,
        _ => ""@,
    }
}

/// The lines of one binary operation, after its operand reloads. `Add`,
/// `Sub` and `Mul` stage through `rbx` when the destination aliases the
/// right operand; `Div` saves `rdx`, sign-extends into `rdx:rax`, divides
/// (by the saved copy when the divisor sits in `rdx`), and restores `rdx`;
/// comparisons set `al` and zero-extend into the destination.
pub open spec fn binop_core(
    regs: Seq<Seq<char>>,
    m: Seq<(VirtualReg, usize)>,
    dest: VirtualReg,
    left: VirtualReg,
    op: BinOp,
    right: VirtualReg,
) -> Seq<Seq<char>> {
    let dr = reg_str(regs, m, dest);
    let lr = reg_str(regs, m, left);
    let rr = reg_str(regs, m, right);
    match op {
        BinOp::Add | BinOp::Sub | BinOp::Mul => if dr == rr {
            seq![
                "  mov rbx, "@ + lr,
                "  "@ + op_name(op) + " rbx, "@ + rr,
                "  mov "@ + dr + ", rbx"@,
            ]
        } else {
            seq!["  mov "@ + dr + ", "@ + lr, "  "@ + op_name(op) + " "@ + dr + ", "@ + rr]
        },
        BinOp::Div => seq![
            "  mov rbx, rdx"@,
            "  mov rax, "@ + lr,
            "  cqo"@,
            if rr == "rdx"@ {
                "  idiv rbx"@
            } else {
                "  idiv "@ + rr
            },
            "  mov "@ + dr + ", rax"@,
            "  mov rdx, rbx"@,
        ],
        BinOp::Le | BinOp::Lt | BinOp::Eq | BinOp::Ne => seq![
            "  cmp "@ + lr + ", "@ + rr,
            "  "@ + set_name(op) + " al"@,
            "  movzb "@ + dr + ", al"@,
        ],
    }
}

/// The caller-state pushes surrounding a call.
pub open spec fn call_pushes() -> Seq<Seq<char>> {
    seq![
        "  push rdi"@,
        "  push rsi"@,
        "  push rdx"@,
        "  push rcx"@,
        "  push r8"@,
        "  push r9"@,
    ]
}

/// The caller-state pops after a call, in reverse order.
pub open spec fn call_pops() -> Seq<Seq<char>> {
    seq!["  pop r9"@, "  pop r8"@, "  pop rcx"@, "  pop rdx"@, "  pop rsi"@, "  pop rdi"@]
}

/// The staging of prepared arguments into callee-saved temporaries (the
/// stack beyond the fifth), so that sourcing from partially overwritten
/// argument registers cannot clobber them.
pub open spec fn stage_lines(
    regs: Seq<Seq<char>>,
    m: Seq<(VirtualReg, usize)>,
    args: Seq<VirtualReg>,
) -> Seq<Seq<char>> {
    Seq::new(
        args.len(),
        |i: int|
            if i < 5 {
                "  mov "@ + save_reg(i) + ", "@ + reg_str(regs, m, args[i])
            } else {
                "  push "@ + reg_str(regs, m, args[i])
            },
    )
}

/// The moves of the staged arguments into the positional argument-passing
/// registers.
pub open spec fn position_lines(n: nat) -> Seq<Seq<char>> {
    Seq::new(
        n,
        |i: int|
            if i < 5 {
                "  mov "@ + recv_reg(i) + ", "@ + save_reg(i)
            } else {
                "  pop "@ + recv_reg(i)
            },
    )
}

/// The lines of a call: save the argument-passing registers, stage each
/// prepared argument into a callee-saved temporary (or the stack beyond the
/// fifth), move the temporaries into the positional argument registers,
/// call, restore, and fetch the result from `rax`.
pub open spec fn call_lines(
    regs: Seq<Seq<char>>,
    m: Seq<(VirtualReg, usize)>,
    fn_name: Seq<char>,
    args: Seq<VirtualReg>,
    ret_reg: VirtualReg,
) -> Seq<Seq<char>> {
    call_pushes() + stage_lines(regs, m, args) + position_lines(args.len()) + seq![
        "  call "@ + fn_name,
    ] + call_pops() + seq!["  mov "@ + reg_str(regs, m, ret_reg) + ", rax"@]
}

/// The two lines that hand one parameter its register and its frame slot.
pub open spec fn recv_group(
    regs: Seq<Seq<char>>,
    m: Seq<(VirtualReg, usize)>,
    fr: Seq<(VirtualReg, usize)>,
    p: Param,
) -> Seq<Seq<char>> {
    seq![
        "  pop "@ + reg_str(regs, m, p.dest),
        "  mov [rbp - "@ + dec_seq(frame_off(fr, p.dest)) + "], "@ + reg_str(regs, m, p.dest),
    ]
}

/// The parameter-receiving pops, last parameter first.
pub open spec fn recv_pops(
    regs: Seq<Seq<char>>,
    m: Seq<(VirtualReg, usize)>,
    fr: Seq<(VirtualReg, usize)>,
    params: Seq<Param>,
) -> Seq<Seq<char>>
    decreases params.len(),
{
    if params.len() == 0 {
        Seq::empty()
    } else {
        recv_group(regs, m, fr, params.last()) + recv_pops(regs, m, fr, params.drop_last())
    }
}

/// The lines of a function entry: label, prologue with the aligned stack
/// reservation, a push of each incoming argument register, then pops in
/// reverse order into each parameter's register and frame slot.
pub open spec fn fn_lines(
    regs: Seq<Seq<char>>,
    m: Seq<(VirtualReg, usize)>,
    fr: Seq<(VirtualReg, usize)>,
    fn_name: Seq<char>,
    params: Seq<Param>,
) -> Seq<Seq<char>> {
    let prologue = seq![
        fn_name + ":"@,
        "  push rbp"@,
        "  mov rbp, rsp"@,
        "  sub rsp, "@ + dec_seq(spec_stack_size(fr)),
    ];
    let pushes = Seq::new(params.len(), |i: int| "  push "@ + recv_reg(i));
    prologue + pushes + recv_pops(regs, m, fr, params)
}

/// The assembly lines of one TAC instruction.
pub open spec fn spec_gen_instr(
    regs: Seq<Seq<char>>,
    m: Seq<(VirtualReg, usize)>,
    fr: Seq<(VirtualReg, usize)>,
    t: ThreeAddressCode,
) -> Seq<Seq<char>> {
    match t {
        ThreeAddressCode::LoadImm { dest, value } => seq![
            "  mov "@ + reg_str(regs, m, dest) + ", "@ + imm_seq(value as int),
        ],
        ThreeAddressCode::BinOpCode { dest, left, op, right } => reload_lines(regs, m, fr, left)
            + reload_lines(regs, m, fr, right) + binop_core(regs, m, dest, left, op, right),
        ThreeAddressCode::Assign { dest, src } => seq![
            "  mov "@ + reg_str(regs, m, dest) + ", "@ + reg_str(regs, m, src),
        ] + (match spec_lookup(fr, dest) {
            Some(off) => seq![
                "  mov [rbp - "@ + dec_seq(off as int) + "], "@ + reg_str(regs, m, src),
            ],
            None => Seq::empty(),
        }),
        ThreeAddressCode::EvalVar { .. } => Seq::empty(),
        ThreeAddressCode::AddrOf { addr, var } => seq![
            "  lea "@ + reg_str(regs, m, addr) + ", [rbp - "@ + dec_seq(frame_off(fr, var))
                + "]"@,
        ],
        ThreeAddressCode::LoadVar { dest, addr } => reload_lines(regs, m, fr, addr) + seq![
            "  mov "@ + reg_str(regs, m, dest) + ", ["@ + reg_str(regs, m, addr) + "]"@,
        ],
        ThreeAddressCode::Store { addr, src } => reload_lines(regs, m, fr, addr) + seq![
            "  mov ["@ + reg_str(regs, m, addr) + "], "@ + reg_str(regs, m, src),
        ],
        ThreeAddressCode::Return { src } => reload_lines(regs, m, fr, src) + seq![
            "  mov rax, "@ + reg_str(regs, m, src),
            "  mov rsp, rbp"@,
            "  pop rbp"@,
            "  ret"@,
        ],
        ThreeAddressCode::IfFalse { cond, label } => seq![
            "  cmp "@ + reg_str(regs, m, cond) + ", 0"@,
            "  je "@ + label_seq(label),
        ],
        ThreeAddressCode::GoTo { label } => seq!["  jmp "@ + label_seq(label)],
        ThreeAddressCode::Label { label } => seq![label_seq(label) + ":"@],
        ThreeAddressCode::Call { fn_name, args, ret_reg } => call_lines(
            regs,
            m,
            fn_name@,
            args@,
            ret_reg,
        ),
        ThreeAddressCode::Fn { fn_name, params } => fn_lines(regs, m, fr, fn_name@, params@),
    }
}

/// The two lines that hand one parameter its register and its frame slot,
/// named by the parameter's register alone.
pub open spec fn recv_group_v(
    regs: Seq<Seq<char>>,
    m: Seq<(VirtualReg, usize)>,
    fr: Seq<(VirtualReg, usize)>,
    d: VirtualReg,
) -> Seq<Seq<char>> {
    seq![
        "  pop "@ + reg_str(regs, m, d),
        "  mov [rbp - "@ + dec_seq(frame_off(fr, d)) + "], "@ + reg_str(regs, m, d),
    ]
}

/// The parameter-receiving pops of a parameter-list value, last first.
pub open spec fn recv_pops_v(
    regs: Seq<Seq<char>>,
    m: Seq<(VirtualReg, usize)>,
    fr: Seq<(VirtualReg, usize)>,
    params: Seq<(VirtualReg, Seq<char>)>,
) -> Seq<Seq<char>>
    decreases params.len(),
{
    if params.len() == 0 {
        Seq::empty()
    } else {
        recv_group_v(regs, m, fr, params.last().0) + recv_pops_v(regs, m, fr, params.drop_last())
    }
}

/// The lines of a function entry, over the parameter-list value.
pub open spec fn fn_lines_v(
    regs: Seq<Seq<char>>,
    m: Seq<(VirtualReg, usize)>,
    fr: Seq<(VirtualReg, usize)>,
    fn_name: Seq<char>,
    params: Seq<(VirtualReg, Seq<char>)>,
) -> Seq<Seq<char>> {
    let prologue = seq![
        fn_name + ":"@,
        "  push rbp"@,
        "  mov rbp, rsp"@,
        "  sub rsp, "@ + dec_seq(spec_stack_size(fr)),
    ];
    let pushes = Seq::new(params.len(), |i: int| "  push "@ + recv_reg(i));
    prologue + pushes + recv_pops_v(regs, m, fr, params)
}

/// The assembly lines of one instruction value.
pub open spec fn gen_ins(
    regs: Seq<Seq<char>>,
    m: Seq<(VirtualReg, usize)>,
    fr: Seq<(VirtualReg, usize)>,
    i: IrIns,
) -> Seq<Seq<char>> {
    match i {
        IrIns::LoadImm { dest, value } => seq![
            "  mov "@ + reg_str(regs, m, dest) + ", "@ + imm_seq(value as int),
        ],
        IrIns::BinOpCode { dest, left, op, right } => reload_lines(regs, m, fr, left)
            + reload_lines(regs, m, fr, right) + binop_core(regs, m, dest, left, op, right),
        IrIns::Assign { dest, src } => seq![
            "  mov "@ + reg_str(regs, m, dest) + ", "@ + reg_str(regs, m, src),
        ] + (match spec_lookup(fr, dest) {
            Some(off) => seq![
                "  mov [rbp - "@ + dec_seq(off as int) + "], "@ + reg_str(regs, m, src),
            ],
            None => Seq::empty(),
        }),
        IrIns::EvalVar { .. } => Seq::empty(),
        IrIns::AddrOf { addr, var } => seq![
            "  lea "@ + reg_str(regs, m, addr) + ", [rbp - "@ + dec_seq(frame_off(fr, var))
                + "]"@,
        ],
        IrIns::LoadVar { dest, addr } => reload_lines(regs, m, fr, addr) + seq![
            "  mov "@ + reg_str(regs, m, dest) + ", ["@ + reg_str(regs, m, addr) + "]"@,
        ],
        IrIns::Store { addr, src } => reload_lines(regs, m, fr, addr) + seq![
            "  mov ["@ + reg_str(regs, m, addr) + "], "@ + reg_str(regs, m, src),
        ],
        IrIns::Return { src } => reload_lines(regs, m, fr, src) + seq![
            "  mov rax, "@ + reg_str(regs, m, src),
            "  mov rsp, rbp"@,
            "  pop rbp"@,
            "  ret"@,
        ],
        IrIns::IfFalse { cond, label } => seq![
            "  cmp "@ + reg_str(regs, m, cond) + ", 0"@,
            "  je "@ + label_seq(label),
        ],
        IrIns::GoTo { label } => seq!["  jmp "@ + label_seq(label)],
        IrIns::Label { label } => seq![label_seq(label) + ":"@],
        IrIns::Call { fn_name, args, ret_reg } => call_lines(regs, m, fn_name, args, ret_reg),
        IrIns::Fn { fn_name, params } => fn_lines_v(regs, m, fr, fn_name, params),
    }
}

/// The assembly lines of a code value, instruction by instruction.
pub open spec fn spec_gen_v(
    regs: Seq<Seq<char>>,
    m: Seq<(VirtualReg, usize)>,
    fr: Seq<(VirtualReg, usize)>,
    code: Seq<IrIns>,
) -> Seq<Seq<char>>
    decreases code.len(),
{
    if code.len() == 0 {
        Seq::empty()
    } else {
        spec_gen_v(regs, m, fr, code.drop_last()) + gen_ins(regs, m, fr, code.last())
    }
}

proof fn lemma_recv_pops_view(
    regs: Seq<Seq<char>>,
    m: Seq<(VirtualReg, usize)>,
    fr: Seq<(VirtualReg, usize)>,
    params: Seq<Param>,
)
    ensures
        recv_pops(regs, m, fr, params) == recv_pops_v(
            regs,
            m,
            fr,
            params.map_values(|p: Param| param_view(p)),
        ),
    decreases params.len(),
{
    let mapped = params.map_values(|p: Param| param_view(p));
    if params.len() > 0 {
        assert(mapped.last() == param_view(params.last()));
        assert(mapped.drop_last() =~= params.drop_last().map_values(
            |p: Param| param_view(p),
        ));
        lemma_recv_pops_view(regs, m, fr, params.drop_last());
    }
}

/// One instruction's lines are read off its value.
pub proof fn lemma_gen_instr_view(
    regs: Seq<Seq<char>>,
    m: Seq<(VirtualReg, usize)>,
    fr: Seq<(VirtualReg, usize)>,
    t: ThreeAddressCode,
)
    ensures
        spec_gen_instr(regs, m, fr, t) == gen_ins(regs, m, fr, tac_view(t)),
{
    match t {
        ThreeAddressCode::Fn { fn_name, params } => {
            lemma_recv_pops_view(regs, m, fr, params@);
            assert(fn_lines(regs, m, fr, fn_name@, params@) =~= fn_lines_v(
                regs,
                m,
                fr,
                fn_name@,
                params@.map_values(|p: Param| param_view(p)),
            ));
        },
        _ => {},
    }
}

/// A stream's lines are read off its value.
pub proof fn lemma_gen_view(
    regs: Seq<Seq<char>>,
    m: Seq<(VirtualReg, usize)>,
    fr: Seq<(VirtualReg, usize)>,
    c: Seq<ThreeAddressCode>,
)
    ensures
        spec_gen(regs, m, fr, c) == spec_gen_v(regs, m, fr, code_view(c)),
    decreases c.len(),
{
    if c.len() > 0 {
        assert(code_view(c).drop_last() =~= code_view(c.drop_last()));
        assert(code_view(c).last() == tac_view(c.last()));
        lemma_gen_instr_view(regs, m, fr, c.last());
        lemma_gen_view(regs, m, fr, c.drop_last());
    }
}

/// The assembly lines of a TAC stream, instruction by instruction.
pub open spec fn spec_gen(
    regs: Seq<Seq<char>>,
    m: Seq<(VirtualReg, usize)>,
    fr: Seq<(VirtualReg, usize)>,
    code: Seq<ThreeAddressCode>,
) -> Seq<Seq<char>>
    decreases code.len(),
{
    if code.len() == 0 {
        Seq::empty()
    } else {
        spec_gen(regs, m, fr, code.drop_last()) + spec_gen_instr(regs, m, fr, code.last())
    }
}

/// What the emitter needs of one instruction: every mentioned register is
/// mapped into the name pool; an `AddrOf` source and every parameter has a
/// frame slot; calls and parameter lists fit the six argument registers.
pub open spec fn instr_wf(
    m: Seq<(VirtualReg, usize)>,
    fr: Seq<(VirtualReg, usize)>,
    nregs: int,
    t: ThreeAddressCode,
) -> bool {
    &&& (forall|v: VirtualReg| spec_using_regs(t).contains(v) ==> lookup_ok(m, nregs, v))
    &&& match t {
        ThreeAddressCode::AddrOf { var, .. } => spec_lookup(fr, var) is Some,
        ThreeAddressCode::Fn { params, .. } => params.len() <= 6 && (forall|i: int|
            0 <= i < params@.len() ==> spec_lookup(fr, (#[trigger] params@[i]).dest) is Some),
        ThreeAddressCode::Call { args, .. } => args.len() <= 6,
        _ => true,
    }
}

/// The number of lines of `lines` equal to `t`.
pub open spec fn line_count(lines: Seq<Seq<char>>, t: Seq<char>) -> int
    decreases lines.len(),
{
    if lines.len() == 0 {
        0
    } else {
        line_count(lines.drop_last(), t) + (if lines.last() == t {
            1int
        } else {
            0
        })
    }
}

/// The number of function-entry instructions of a TAC stream.
pub open spec fn fn_count(code: Seq<ThreeAddressCode>) -> int
    decreases code.len(),
{
    if code.len() == 0 {
        0
    } else {
        fn_count(code.drop_last()) + (if code.last() is Fn {
            1int
        } else {
            0
        })
    }
}

/// The number of return instructions of a TAC stream.
pub open spec fn return_count(code: Seq<ThreeAddressCode>) -> int
    decreases code.len(),
{
    if code.len() == 0 {
        0
    } else {
        return_count(code.drop_last()) + (if code.last() is Return {
            1int
        } else {
            0
        })
    }
}

/// The name pool never hands out the frame-base register.
pub open spec fn pool_avoids_rbp(regs: Seq<Seq<char>>) -> bool {
    forall|k: int| 0 <= k < regs.len() ==> regs[k] != "rbp"@
}

proof fn lemma_count_none(lines: Seq<Seq<char>>, t: Seq<char>)
    requires
        forall|i: int| 0 <= i < lines.len() ==> lines[i] != t,
    ensures
        line_count(lines, t) == 0,
    decreases lines.len(),
{
    if lines.len() > 0 {
        assert(forall|i: int|
            0 <= i < lines.drop_last().len() ==> #[trigger] lines.drop_last()[i] == lines[i]);
        lemma_count_none(lines.drop_last(), t);
        assert(lines.last() == lines[lines.len() - 1]);
    }
}

proof fn lemma_count_concat(a: Seq<Seq<char>>, b: Seq<Seq<char>>, t: Seq<char>)
    ensures
        line_count(a + b, t) == line_count(a, t) + line_count(b, t),
    decreases b.len(),
{
    if b.len() == 0 {
        assert(a + b =~= a);
    } else {
        assert((a + b).drop_last() =~= a + b.drop_last());
        assert((a + b).last() == b.last());
        lemma_count_concat(a, b.drop_last(), t);
    }
}

proof fn lemma_count_single(l: Seq<char>, t: Seq<char>)
    ensures
        line_count(seq![l], t) == (if l == t {
            1int
        } else {
            0
        }),
{
    assert(seq![l].drop_last() =~= Seq::<Seq<char>>::empty());
    assert(line_count(Seq::<Seq<char>>::empty(), t) == 0);
    assert(seq![l].last() == l);
}

/// A line whose third character is not `p` is neither of the frame lines.
proof fn lemma_ne_c2(l: Seq<char>)
    requires
        l.len() > 2,
        l[2] != 'p',
    ensures
        l != "  push rbp"@,
        l != "  pop rbp"@,
{
    reveal_strlit("  push rbp");
    reveal_strlit("  pop rbp");
    if l == "  push rbp"@ {
        assert(l[2] == 'p');
    }
    if l == "  pop rbp"@ {
        assert(l[2] == 'p');
    }
}

/// A line ending in a colon is neither of the frame lines.
proof fn lemma_ne_colon(l: Seq<char>)
    requires
        l.len() > 0,
        l[l.len() - 1] == ':',
    ensures
        l != "  push rbp"@,
        l != "  pop rbp"@,
{
    reveal_strlit("  push rbp");
    reveal_strlit("  pop rbp");
    if l == "  push rbp"@ {
        assert(l[9] == 'p');
    }
    if l == "  pop rbp"@ {
        assert(l[8] == 'p');
    }
}

/// A push of anything but `rbp` is neither of the frame lines.
proof fn lemma_ne_push_of(x: Seq<char>)
    requires
        x != "rbp"@,
    ensures
        "  push "@ + x != "  push rbp"@,
        "  push "@ + x != "  pop rbp"@,
{
    reveal_strlit("  push rbp");
    reveal_strlit("  pop rbp");
    reveal_strlit("  push ");
    reveal_strlit("rbp");
    let l = "  push "@ + x;
    assert("  push rbp"@.len() == 10);
    assert("  push "@.len() == 7);
    assert(l.len() == 7 + x.len());
    if l == "  push rbp"@ {
        assert(x.len() == 3);
        assert(x =~= "rbp"@) by {
            assert(x[0] == l[7] && x[1] == l[8] && x[2] == l[9]);
        }
    }
    if l == "  pop rbp"@ {
        assert(l[4] == 's');
        assert(l[4] == 'p');
    }
}

/// A pop of anything but `rbp` is neither of the frame lines.
proof fn lemma_ne_pop_of(x: Seq<char>)
    requires
        x != "rbp"@,
    ensures
        "  pop "@ + x != "  push rbp"@,
        "  pop "@ + x != "  pop rbp"@,
{
    reveal_strlit("  push rbp");
    reveal_strlit("  pop rbp");
    reveal_strlit("  pop ");
    reveal_strlit("rbp");
    let l = "  pop "@ + x;
    assert("  pop rbp"@.len() == 9);
    assert("  pop "@.len() == 6);
    assert(l.len() == 6 + x.len());
    if l == "  pop rbp"@ {
        assert(x.len() == 3);
        assert(x =~= "rbp"@) by {
            assert(x[0] == l[6] && x[1] == l[7] && x[2] == l[8]);
        }
    }
    if l == "  push rbp"@ {
        assert(l[3] == 'o');
        assert(l[3] == 'u');
    }
}

/// Under a pool without `rbp`, no virtual register renders to `rbp`.
proof fn lemma_reg_ne_rbp(regs: Seq<Seq<char>>, m: Seq<(VirtualReg, usize)>, v: VirtualReg)
    requires
        pool_avoids_rbp(regs),
    ensures
        reg_str(regs, m, v) != "rbp"@,
{
    reveal_strlit("rbp");
    match spec_lookup(m, v) {
        Some(i) => {
            if (i as int) < regs.len() {
            } else {
                assert(reg_str(regs, m, v).len() == 0);
            }
        },
        None => {
            assert(reg_str(regs, m, v).len() == 0);
        },
    }
}

proof fn lemma_reload_counts(
    regs: Seq<Seq<char>>,
    m: Seq<(VirtualReg, usize)>,
    fr: Seq<(VirtualReg, usize)>,
    v: VirtualReg,
)
    ensures
        line_count(reload_lines(regs, m, fr, v), "  push rbp"@) == 0,
        line_count(reload_lines(regs, m, fr, v), "  pop rbp"@) == 0,
{
    reveal_strlit("  mov ");
    let rl = reload_lines(regs, m, fr, v);
    match spec_lookup(fr, v) {
        Some(off) => {
            assert(rl[0][2] == 'm');
            lemma_ne_c2(rl[0]);
            lemma_count_none(rl, "  push rbp"@);
            lemma_count_none(rl, "  pop rbp"@);
        },
        None => {},
    }
}

proof fn lemma_binop_core_counts(
    regs: Seq<Seq<char>>,
    m: Seq<(VirtualReg, usize)>,
    dest: VirtualReg,
    left: VirtualReg,
    op: BinOp,
    right: VirtualReg,
)
    ensures
        line_count(binop_core(regs, m, dest, left, op, right), "  push rbp"@) == 0,
        line_count(binop_core(regs, m, dest, left, op, right), "  pop rbp"@) == 0,
{
    reveal_strlit("  mov ");
    reveal_strlit("  mov rbx, ");
    reveal_strlit("  ");
    reveal_strlit("add");
    reveal_strlit("sub");
    reveal_strlit("imul");
    reveal_strlit("setle");
    reveal_strlit("setl");
    reveal_strlit("sete");
    reveal_strlit("setne");
    reveal_strlit("  mov rbx, rdx");
    reveal_strlit("  mov rax, ");
    reveal_strlit("  cqo");
    reveal_strlit("  idiv rbx");
    reveal_strlit("  idiv ");
    reveal_strlit("  mov rdx, rbx");
    reveal_strlit("  cmp ");
    reveal_strlit("  movzb ");
    let core = binop_core(regs, m, dest, left, op, right);
    assert("  "@.len() == 2);
    assert("  mov "@.len() == 6 && "  mov "@[2] == 'm');
    assert("  mov rbx, "@.len() == 11 && "  mov rbx, "@[2] == 'm');
    assert("  mov rbx, rdx"@.len() == 14 && "  mov rbx, rdx"@[2] == 'm');
    assert("  mov rax, "@.len() == 11 && "  mov rax, "@[2] == 'm');
    assert("  cqo"@.len() == 5 && "  cqo"@[2] == 'c');
    assert("  idiv rbx"@.len() == 10 && "  idiv rbx"@[2] == 'i');
    assert("  idiv "@.len() == 7 && "  idiv "@[2] == 'i');
    assert("  mov rdx, rbx"@.len() == 14 && "  mov rdx, rbx"@[2] == 'm');
    assert("  cmp "@.len() == 6 && "  cmp "@[2] == 'c');
    assert("  movzb "@.len() == 8 && "  movzb "@[2] == 'm');
    assert("add"@.len() == 3 && "add"@[0] == 'a');
    assert("sub"@.len() == 3 && "sub"@[0] == 's');
    assert("imul"@.len() == 4 && "imul"@[0] == 'i');
    assert("setle"@.len() == 5 && "setle"@[0] == 's');
    assert("setl"@.len() == 4 && "setl"@[0] == 's');
    assert("sete"@.len() == 4 && "sete"@[0] == 's');
    assert("setne"@.len() == 5 && "setne"@[0] == 's');
    assert forall|i: int| 0 <= i < core.len() implies core[i] != "  push rbp"@ && core[i]
        != "  pop rbp"@ by {
        match op {
            BinOp::Add | BinOp::Sub | BinOp::Mul => {
                if reg_str(regs, m, dest) == reg_str(regs, m, right) {
                    if i == 0 {
                        assert(core[0][2] == 'm');
                    } else if i == 1 {
                        assert(core[1][2] == op_name(op)[0]);
                    } else {
                        assert(core[2][2] == 'm');
                    }
                } else {
                    if i == 0 {
                        assert(core[0][2] == 'm');
                    } else {
                        assert(core[1][2] == op_name(op)[0]);
                    }
                }
            },
            BinOp::Div => {
                if i == 0 {
                    assert(core[0][2] == 'm');
                } else if i == 1 {
                    assert(core[1][2] == 'm');
                } else if i == 2 {
                    assert(core[2][2] == 'c');
                } else if i == 3 {
                    assert(core[3][2] == 'i');
                } else if i == 4 {
                    assert(core[4][2] == 'm');
                } else {
                    assert(core[5][2] == 'm');
                }
            },
            BinOp::Le | BinOp::Lt | BinOp::Eq | BinOp::Ne => {
                if i == 0 {
                    assert(core[0][2] == 'c');
                } else if i == 1 {
                    assert(core[1][2] == set_name(op)[0]);
                } else {
                    assert(core[2][2] == 'm');
                }
            },
        }
        lemma_ne_c2(core[i]);
    }
    lemma_count_none(core, "  push rbp"@);
    lemma_count_none(core, "  pop rbp"@);
}

/// None of the register names the emitter hands around is `rbp`.
proof fn lemma_regnames_ne_rbp()
    ensures
        "rdi"@ != "rbp"@,
        "rsi"@ != "rbp"@,
        "rdx"@ != "rbp"@,
        "rcx"@ != "rbp"@,
        "r8"@ != "rbp"@,
        "r9"@ != "rbp"@,
        "rbx"@ != "rbp"@,
        "r12"@ != "rbp"@,
        "r13"@ != "rbp"@,
        "r14"@ != "rbp"@,
        "r15"@ != "rbp"@,
{
    reveal_strlit("rdi");
    reveal_strlit("rsi");
    reveal_strlit("rdx");
    reveal_strlit("rcx");
    reveal_strlit("r8");
    reveal_strlit("r9");
    reveal_strlit("rbx");
    reveal_strlit("r12");
    reveal_strlit("r13");
    reveal_strlit("r14");
    reveal_strlit("r15");
    reveal_strlit("rbp");
    assert("rbp"@.len() == 3 && "rbp"@[1] == 'b' && "rbp"@[2] == 'p');
    assert("rdi"@[1] == 'd');
    assert("rsi"@[1] == 's');
    assert("rdx"@[1] == 'd');
    assert("rcx"@[1] == 'c');
    assert("r8"@.len() == 2);
    assert("r9"@.len() == 2);
    assert("rbx"@[2] == 'x');
    assert("r12"@[1] == '1');
    assert("r13"@[1] == '1');
    assert("r14"@[1] == '1');
    assert("r15"@[1] == '1');
}

proof fn lemma_call_counts(
    regs: Seq<Seq<char>>,
    m: Seq<(VirtualReg, usize)>,
    fn_name: Seq<char>,
    args: Seq<VirtualReg>,
    ret_reg: VirtualReg,
)
    requires
        pool_avoids_rbp(regs),
    ensures
        line_count(call_lines(regs, m, fn_name, args, ret_reg), "  push rbp"@) == 0,
        line_count(call_lines(regs, m, fn_name, args, ret_reg), "  pop rbp"@) == 0,
{
    reveal_strlit("  mov ");
    reveal_strlit("  call ");
    reveal_strlit("  push ");
    reveal_strlit("  pop ");
    reveal_strlit("  push rdi");
    reveal_strlit("  push rsi");
    reveal_strlit("  push rdx");
    reveal_strlit("  push rcx");
    reveal_strlit("  push r8");
    reveal_strlit("  push r9");
    reveal_strlit("  pop rdi");
    reveal_strlit("  pop rsi");
    reveal_strlit("  pop rdx");
    reveal_strlit("  pop rcx");
    reveal_strlit("  pop r8");
    reveal_strlit("  pop r9");
    reveal_strlit("rdi");
    reveal_strlit("rsi");
    reveal_strlit("rdx");
    reveal_strlit("rcx");
    reveal_strlit("r8");
    reveal_strlit("r9");
    reveal_strlit("rbx");
    reveal_strlit("r12");
    reveal_strlit("r13");
    reveal_strlit("r14");
    reveal_strlit("r15");
    reveal_strlit("rbp");
    let p = "  push rbp"@;
    let q = "  pop rbp"@;
    lemma_regnames_ne_rbp();
    assert forall|i: int| 0 <= i < call_pushes().len() implies call_pushes()[i] != p
        && call_pushes()[i] != q by {
        assert("  push rdi"@ =~= "  push "@ + "rdi"@);
        assert("  push rsi"@ =~= "  push "@ + "rsi"@);
        assert("  push rdx"@ =~= "  push "@ + "rdx"@);
        assert("  push rcx"@ =~= "  push "@ + "rcx"@);
        assert("  push r8"@ =~= "  push "@ + "r8"@);
        assert("  push r9"@ =~= "  push "@ + "r9"@);
        lemma_ne_push_of("rdi"@);
        lemma_ne_push_of("rsi"@);
        lemma_ne_push_of("rdx"@);
        lemma_ne_push_of("rcx"@);
        lemma_ne_push_of("r8"@);
        lemma_ne_push_of("r9"@);
    }
    lemma_count_none(call_pushes(), p);
    lemma_count_none(call_pushes(), q);
    assert forall|i: int| 0 <= i < call_pops().len() implies call_pops()[i] != p && call_pops()[i]
        != q by {
        assert("  pop rdi"@ =~= "  pop "@ + "rdi"@);
        assert("  pop rsi"@ =~= "  pop "@ + "rsi"@);
        assert("  pop rdx"@ =~= "  pop "@ + "rdx"@);
        assert("  pop rcx"@ =~= "  pop "@ + "rcx"@);
        assert("  pop r8"@ =~= "  pop "@ + "r8"@);
        assert("  pop r9"@ =~= "  pop "@ + "r9"@);
        lemma_ne_pop_of("rdi"@);
        lemma_ne_pop_of("rsi"@);
        lemma_ne_pop_of("rdx"@);
        lemma_ne_pop_of("rcx"@);
        lemma_ne_pop_of("r8"@);
        lemma_ne_pop_of("r9"@);
    }
    lemma_count_none(call_pops(), p);
    lemma_count_none(call_pops(), q);
    let stage = stage_lines(regs, m, args);
    assert forall|i: int| 0 <= i < stage.len() implies stage[i] != p && stage[i] != q by {
        if i < 5 {
            assert(stage[i][2] == 'm');
            lemma_ne_c2(stage[i]);
        } else {
            lemma_reg_ne_rbp(regs, m, args[i]);
            lemma_ne_push_of(reg_str(regs, m, args[i]));
        }
    }
    lemma_count_none(stage, p);
    lemma_count_none(stage, q);
    let position = position_lines(args.len());
    assert forall|i: int| 0 <= i < position.len() implies position[i] != p && position[i] != q by {
        if i < 5 {
            assert(position[i][2] == 'm');
            lemma_ne_c2(position[i]);
        } else {
            assert(recv_reg(i) == "r9"@);
            lemma_ne_pop_of("r9"@);
        }
    }
    lemma_count_none(position, p);
    lemma_count_none(position, q);
    let calll = seq!["  call "@ + fn_name];
    assert(calll[0][2] == 'c');
    assert forall|i: int| 0 <= i < calll.len() implies calll[i] != p && calll[i] != q by {
        lemma_ne_c2(calll[0]);
    }
    lemma_count_none(calll, p);
    lemma_count_none(calll, q);
    let retmv = seq!["  mov "@ + reg_str(regs, m, ret_reg) + ", rax"@];
    assert(retmv[0][2] == 'm');
    assert forall|i: int| 0 <= i < retmv.len() implies retmv[i] != p && retmv[i] != q by {
        lemma_ne_c2(retmv[0]);
    }
    lemma_count_none(retmv, p);
    lemma_count_none(retmv, q);
    lemma_count_concat(call_pushes(), stage, p);
    lemma_count_concat(call_pushes() + stage, position, p);
    lemma_count_concat(call_pushes() + stage + position, calll, p);
    lemma_count_concat(call_pushes() + stage + position + calll, call_pops(), p);
    lemma_count_concat(call_pushes() + stage + position + calll + call_pops(), retmv, p);
    lemma_count_concat(call_pushes(), stage, q);
    lemma_count_concat(call_pushes() + stage, position, q);
    lemma_count_concat(call_pushes() + stage + position, calll, q);
    lemma_count_concat(call_pushes() + stage + position + calll, call_pops(), q);
    lemma_count_concat(call_pushes() + stage + position + calll + call_pops(), retmv, q);
}

proof fn lemma_recv_pops_counts(
    regs: Seq<Seq<char>>,
    m: Seq<(VirtualReg, usize)>,
    fr: Seq<(VirtualReg, usize)>,
    params: Seq<Param>,
)
    requires
        pool_avoids_rbp(regs),
    ensures
        line_count(recv_pops(regs, m, fr, params), "  push rbp"@) == 0,
        line_count(recv_pops(regs, m, fr, params), "  pop rbp"@) == 0,
    decreases params.len(),
{
    reveal_strlit("  mov [rbp - ");
    reveal_strlit("  pop ");
    let p = "  push rbp"@;
    let q = "  pop rbp"@;
    if params.len() > 0 {
        let g = recv_group(regs, m, fr, params.last());
        assert forall|i: int| 0 <= i < g.len() implies g[i] != p && g[i] != q by {
            if i == 0 {
                lemma_reg_ne_rbp(regs, m, params.last().dest);
                lemma_ne_pop_of(reg_str(regs, m, params.last().dest));
            } else {
                assert(g[1][2] == 'm');
                lemma_ne_c2(g[1]);
            }
        }
        lemma_count_none(g, p);
        lemma_count_none(g, q);
        lemma_recv_pops_counts(regs, m, fr, params.drop_last());
        lemma_count_concat(g, recv_pops(regs, m, fr, params.drop_last()), p);
        lemma_count_concat(g, recv_pops(regs, m, fr, params.drop_last()), q);
    }
}

proof fn lemma_fn_counts(
    regs: Seq<Seq<char>>,
    m: Seq<(VirtualReg, usize)>,
    fr: Seq<(VirtualReg, usize)>,
    fn_name: Seq<char>,
    params: Seq<Param>,
)
    requires
        pool_avoids_rbp(regs),
    ensures
        line_count(fn_lines(regs, m, fr, fn_name, params), "  push rbp"@) == 1,
        line_count(fn_lines(regs, m, fr, fn_name, params), "  pop rbp"@) == 0,
{
    reveal_strlit("  push rbp");
    reveal_strlit("  pop rbp");
    reveal_strlit("  mov rbp, rsp");
    reveal_strlit("  sub rsp, ");
    reveal_strlit(":");
    reveal_strlit("  push ");
    reveal_strlit("rdi");
    reveal_strlit("rsi");
    reveal_strlit("rdx");
    reveal_strlit("rcx");
    reveal_strlit("r8");
    reveal_strlit("r9");
    reveal_strlit("rbp");
    let p = "  push rbp"@;
    let q = "  pop rbp"@;
    let e0 = fn_name + ":"@;
    let e2 = "  mov rbp, rsp"@;
    let e3 = "  sub rsp, "@ + dec_seq(spec_stack_size(fr));
    let prologue = seq![e0, p, e2, e3];
    assert(e0[e0.len() - 1] == ':');
    lemma_ne_colon(e0);
    assert(e2[2] == 'm');
    lemma_ne_c2(e2);
    assert(e3[2] == 's');
    lemma_ne_c2(e3);
    assert(p != q) by {
        assert(p.len() == 10 && q.len() == 9);
    }
    // One matching line among the four of the prologue.
    assert(prologue =~= seq![e0] + seq![p] + seq![e2] + seq![e3]);
    lemma_count_single(e0, p);
    lemma_count_single(p, p);
    lemma_count_single(e2, p);
    lemma_count_single(e3, p);
    lemma_count_concat(seq![e0], seq![p], p);
    lemma_count_concat(seq![e0] + seq![p], seq![e2], p);
    lemma_count_concat(seq![e0] + seq![p] + seq![e2], seq![e3], p);
    lemma_count_single(e0, q);
    lemma_count_single(p, q);
    lemma_count_single(e2, q);
    lemma_count_single(e3, q);
    lemma_count_concat(seq![e0], seq![p], q);
    lemma_count_concat(seq![e0] + seq![p], seq![e2], q);
    lemma_count_concat(seq![e0] + seq![p] + seq![e2], seq![e3], q);
    assert(line_count(prologue, p) == 1);
    assert(line_count(prologue, q) == 0);
    lemma_regnames_ne_rbp();
    let pushes = Seq::new(params.len(), |i: int| "  push "@ + recv_reg(i));
    assert forall|i: int| 0 <= i < pushes.len() implies pushes[i] != p && pushes[i] != q by {
        assert(recv_reg(i) != "rbp"@) by {
            if i == 0 {
                assert(recv_reg(i) == "rdi"@);
            } else if i == 1 {
                assert(recv_reg(i) == "rsi"@);
            } else if i == 2 {
                assert(recv_reg(i) == "rdx"@);
            } else if i == 3 {
                assert(recv_reg(i) == "rcx"@);
            } else if i == 4 {
                assert(recv_reg(i) == "r8"@);
            } else {
                assert(recv_reg(i) == "r9"@);
            }
        }
        lemma_ne_push_of(recv_reg(i));
    }
    lemma_count_none(pushes, p);
    lemma_count_none(pushes, q);
    lemma_recv_pops_counts(regs, m, fr, params);
    lemma_count_concat(prologue, pushes, p);
    lemma_count_concat(prologue + pushes, recv_pops(regs, m, fr, params), p);
    lemma_count_concat(prologue, pushes, q);
    lemma_count_concat(prologue + pushes, recv_pops(regs, m, fr, params), q);
}

/// Per instruction: only a function entry emits the prologue's `push rbp`,
/// and only a return emits the epilogue's `pop rbp`.
proof fn lemma_instr_line_counts(
    regs: Seq<Seq<char>>,
    m: Seq<(VirtualReg, usize)>,
    fr: Seq<(VirtualReg, usize)>,
    t: ThreeAddressCode,
)
    requires
        pool_avoids_rbp(regs),
    ensures
        line_count(spec_gen_instr(regs, m, fr, t), "  push rbp"@) == (if t is Fn {
            1int
        } else {
            0
        }),
        line_count(spec_gen_instr(regs, m, fr, t), "  pop rbp"@) == (if t is Return {
            1int
        } else {
            0
        }),
{
    reveal_strlit("  mov ");
    reveal_strlit("  mov [rbp - ");
    reveal_strlit("  mov [");
    reveal_strlit("  lea ");
    reveal_strlit("  mov rax, ");
    reveal_strlit("  mov rsp, rbp");
    reveal_strlit("  pop rbp");
    reveal_strlit("  push rbp");
    reveal_strlit("  ret");
    reveal_strlit("  cmp ");
    reveal_strlit("  je ");
    reveal_strlit("  jmp ");
    reveal_strlit(":");
    let p = "  push rbp"@;
    let q = "  pop rbp"@;
    let lines = spec_gen_instr(regs, m, fr, t);
    match t {
        ThreeAddressCode::LoadImm { dest, value } => {
            assert(lines[0][2] == 'm');
            assert forall|i: int| 0 <= i < lines.len() implies lines[i] != p && lines[i] != q by {
                lemma_ne_c2(lines[0]);
            }
            lemma_count_none(lines, p);
            lemma_count_none(lines, q);
        },
        ThreeAddressCode::BinOpCode { dest, left, op, right } => {
            lemma_reload_counts(regs, m, fr, left);
            lemma_reload_counts(regs, m, fr, right);
            lemma_binop_core_counts(regs, m, dest, left, op, right);
            let a = reload_lines(regs, m, fr, left);
            let b = reload_lines(regs, m, fr, right);
            let c = binop_core(regs, m, dest, left, op, right);
            lemma_count_concat(a, b, p);
            lemma_count_concat(a + b, c, p);
            lemma_count_concat(a, b, q);
            lemma_count_concat(a + b, c, q);
        },
        ThreeAddressCode::Assign { dest, src } => {
            assert forall|i: int| 0 <= i < lines.len() implies lines[i] != p && lines[i] != q by {
                assert(lines[i][2] == 'm') by {
                    match spec_lookup(fr, dest) {
                        Some(off) => {},
                        None => {},
                    }
                }
                lemma_ne_c2(lines[i]);
            }
            lemma_count_none(lines, p);
            lemma_count_none(lines, q);
        },
        ThreeAddressCode::EvalVar { .. } => {},
        ThreeAddressCode::AddrOf { addr, var } => {
            assert(lines[0][2] == 'l');
            assert forall|i: int| 0 <= i < lines.len() implies lines[i] != p && lines[i] != q by {
                lemma_ne_c2(lines[0]);
            }
            lemma_count_none(lines, p);
            lemma_count_none(lines, q);
        },
        ThreeAddressCode::LoadVar { dest, addr } => {
            lemma_reload_counts(regs, m, fr, addr);
            let a = reload_lines(regs, m, fr, addr);
            let b = seq!["  mov "@ + reg_str(regs, m, dest) + ", ["@ + reg_str(regs, m, addr) + "]"@];
            assert(b[0][2] == 'm');
            assert forall|i: int| 0 <= i < b.len() implies b[i] != p && b[i] != q by {
                lemma_ne_c2(b[0]);
            }
            lemma_count_none(b, p);
            lemma_count_none(b, q);
            lemma_count_concat(a, b, p);
            lemma_count_concat(a, b, q);
        },
        ThreeAddressCode::Store { addr, src } => {
            lemma_reload_counts(regs, m, fr, addr);
            let a = reload_lines(regs, m, fr, addr);
            let b = seq!["  mov ["@ + reg_str(regs, m, addr) + "], "@ + reg_str(regs, m, src)];
            assert(b[0][2] == 'm');
            assert forall|i: int| 0 <= i < b.len() implies b[i] != p && b[i] != q by {
                lemma_ne_c2(b[0]);
            }
            lemma_count_none(b, p);
            lemma_count_none(b, q);
            lemma_count_concat(a, b, p);
            lemma_count_concat(a, b, q);
        },
        ThreeAddressCode::Return { src } => {
            lemma_reload_counts(regs, m, fr, src);
            let a = reload_lines(regs, m, fr, src);
            let e0 = "  mov rax, "@ + reg_str(regs, m, src);
            let e1 = "  mov rsp, rbp"@;
            let e3 = "  ret"@;
            let b = seq![e0, e1, q, e3];
            assert(e0[2] == 'm');
            lemma_ne_c2(e0);
            assert(e1[2] == 'm');
            lemma_ne_c2(e1);
            assert(q != p) by {
                assert(p.len() == 10 && q.len() == 9);
            }
            assert(e3 != p && e3 != q) by {
                assert(e3.len() == 5);
            }
            assert(b =~= seq![e0] + seq![e1] + seq![q] + seq![e3]);
            lemma_count_single(e0, p);
            lemma_count_single(e1, p);
            lemma_count_single(q, p);
            lemma_count_single(e3, p);
            lemma_count_concat(seq![e0], seq![e1], p);
            lemma_count_concat(seq![e0] + seq![e1], seq![q], p);
            lemma_count_concat(seq![e0] + seq![e1] + seq![q], seq![e3], p);
            lemma_count_single(e0, q);
            lemma_count_single(e1, q);
            lemma_count_single(q, q);
            lemma_count_single(e3, q);
            lemma_count_concat(seq![e0], seq![e1], q);
            lemma_count_concat(seq![e0] + seq![e1], seq![q], q);
            lemma_count_concat(seq![e0] + seq![e1] + seq![q], seq![e3], q);
            assert(line_count(b, p) == 0);
            assert(line_count(b, q) == 1);
            lemma_count_concat(a, b, p);
            lemma_count_concat(a, b, q);
        },
        ThreeAddressCode::IfFalse { cond, label } => {
            assert(lines[0][2] == 'c');
            assert(lines[1][2] == 'j');
            assert forall|i: int| 0 <= i < lines.len() implies lines[i] != p && lines[i] != q by {
                lemma_ne_c2(lines[0]);
                lemma_ne_c2(lines[1]);
            }
            lemma_count_none(lines, p);
            lemma_count_none(lines, q);
        },
        ThreeAddressCode::GoTo { label } => {
            assert(lines[0][2] == 'j');
            assert forall|i: int| 0 <= i < lines.len() implies lines[i] != p && lines[i] != q by {
                lemma_ne_c2(lines[0]);
            }
            lemma_count_none(lines, p);
            lemma_count_none(lines, q);
        },
        ThreeAddressCode::Label { label } => {
            assert(lines[0][lines[0].len() - 1] == ':');
            assert forall|i: int| 0 <= i < lines.len() implies lines[i] != p && lines[i] != q by {
                lemma_ne_colon(lines[0]);
            }
            lemma_count_none(lines, p);
            lemma_count_none(lines, q);
        },
        ThreeAddressCode::Call { fn_name, args, ret_reg } => {
            lemma_call_counts(regs, m, fn_name@, args@, ret_reg);
        },
        ThreeAddressCode::Fn { fn_name, params } => {
            lemma_fn_counts(regs, m, fr, fn_name@, params@);
        },
    }
}

proof fn lemma_gen_line_counts(
    regs: Seq<Seq<char>>,
    m: Seq<(VirtualReg, usize)>,
    fr: Seq<(VirtualReg, usize)>,
    code: Seq<ThreeAddressCode>,
)
    requires
        pool_avoids_rbp(regs),
    ensures
        line_count(spec_gen(regs, m, fr, code), "  push rbp"@) == fn_count(code),
        line_count(spec_gen(regs, m, fr, code), "  pop rbp"@) == return_count(code),
    decreases code.len(),
{
    if code.len() > 0 {
        lemma_gen_line_counts(regs, m, fr, code.drop_last());
        lemma_instr_line_counts(regs, m, fr, code.last());
        lemma_count_concat(
            spec_gen(regs, m, fr, code.drop_last()),
            spec_gen_instr(regs, m, fr, code.last()),
            "  push rbp"@,
        );
        lemma_count_concat(
            spec_gen(regs, m, fr, code.drop_last()),
            spec_gen_instr(regs, m, fr, code.last()),
            "  pop rbp"@,
        );
    }
}

/// Re-emitting from the same TAC yields byte-identical assembly: the
/// contract of `gen_fn` pins its output to `spec_gen` over the register
/// names, the allocation map, the frame map and the code, a function of the
/// inputs alone, so any two emissions agree line for line.
pub proof fn lemma_emit_deterministic(
    regs: Seq<Seq<char>>,
    m: Seq<(VirtualReg, usize)>,
    fr: Seq<(VirtualReg, usize)>,
    code: Seq<ThreeAddressCode>,
    out1: Seq<Seq<char>>,
    out2: Seq<Seq<char>>,
)
    requires
        out1 == spec_gen(regs, m, fr, code),
        out2 == spec_gen(regs, m, fr, code),
    ensures
        out1 == out2,
{
}

/// For every function: the assembly emitted from a TAC stream holding
/// exactly one function entry and at least one return holds exactly one
/// prologue (its `push rbp` line occurs once) and at least one epilogue
/// (a `pop rbp` line occurs for every return), provided the register name
/// pool never hands out `rbp` itself.
pub proof fn lemma_prologue_epilogue(
    regs: Seq<Seq<char>>,
    m: Seq<(VirtualReg, usize)>,
    fr: Seq<(VirtualReg, usize)>,
    code: Seq<ThreeAddressCode>,
)
    requires
        pool_avoids_rbp(regs),
        fn_count(code) == 1,
        return_count(code) >= 1,
    ensures
        line_count(spec_gen(regs, m, fr, code), "  push rbp"@) == 1,
        line_count(spec_gen(regs, m, fr, code), "  pop rbp"@) >= 1,
{
    lemma_gen_line_counts(regs, m, fr, code);
}

/// What the emitter needs of one instruction value.
pub open spec fn instr_wf_ins(
    m: Seq<(VirtualReg, usize)>,
    fr: Seq<(VirtualReg, usize)>,
    nregs: int,
    i: IrIns,
) -> bool {
    &&& (forall|v: VirtualReg| using_regs_ins(i).contains(v) ==> lookup_ok(m, nregs, v))
    &&& match i {
        IrIns::AddrOf { var, .. } => spec_lookup(fr, var) is Some,
        IrIns::Fn { params, .. } => params.len() <= 6 && (forall|k: int|
            0 <= k < params.len() ==> spec_lookup(fr, (#[trigger] params[k]).0) is Some),
        IrIns::Call { args, .. } => args.len() <= 6,
        _ => true,
    }
}

/// The emitter's obligations are read off the instruction's value.
pub proof fn lemma_instr_wf_view(
    m: Seq<(VirtualReg, usize)>,
    fr: Seq<(VirtualReg, usize)>,
    nregs: int,
    t: ThreeAddressCode,
)
    ensures
        instr_wf(m, fr, nregs, t) == instr_wf_ins(m, fr, nregs, tac_view(t)),
{
    lemma_using_regs_view(t);
    match t {
        ThreeAddressCode::Fn { fn_name, params } => {
            let mapped = params@.map_values(|p: Param| param_view(p));
            if forall|k: int|
                0 <= k < params@.len() ==> spec_lookup(fr, (#[trigger] params@[k]).dest) is Some {
                assert forall|k: int| 0 <= k < mapped.len() implies spec_lookup(
                    fr,
                    (#[trigger] mapped[k]).0,
                ) is Some by {
                    assert(mapped[k].0 == params@[k].dest);
                    assert(spec_lookup(fr, params@[k].dest) is Some);
                }
            }
            if forall|k: int| 0 <= k < mapped.len() ==> spec_lookup(
                fr,
                (#[trigger] mapped[k]).0,
            ) is Some {
                assert forall|k: int| 0 <= k < params@.len() implies spec_lookup(
                    fr,
                    (#[trigger] params@[k]).dest,
                ) is Some by {
                    assert(mapped[k].0 == params@[k].dest);
                    assert(spec_lookup(fr, mapped[k].0) is Some);
                }
            }
        },
        _ => {},
    }
}

fn emit(out: &mut Vec<String>, s: String)
    ensures
        lines_view(final(out)@) == lines_view(old(out)@).push(s@),
{
    let ghost pre = out@;
    out.push(s);
    proof {
        assert(lines_view(out@) =~= lines_view(pre).push(s@));
    }
}

fn cat6(a: &str, b: &str, c: &str, d: &str, e: &str, f: &str) -> (s: String)
    ensures
        s@ == a@ + b@ + c@ + d@ + e@ + f@,
{
    let mut s = String::from_str(a);
    s.append(b);
    s.append(c);
    s.append(d);
    s.append(e);
    s.append(f);
    s
}

fn save_str(i: usize) -> (r: &'static str)
    requires
        i < 5,
    ensures
        r@ == save_reg(i as int),
{
    match i {
        0 => "rbx",
        1 => "r12",
        2 => "r13",
        3 => "r14",
        _ => "r15",
    }
}

fn recv_str(i: usize) -> (r: &'static str)
    requires
        i < 6,
    ensures
        r@ == recv_reg(i as int),
{
    match i {
        0 => "rdi",
        1 => "rsi",
        2 => "rdx",
        3 => "rcx",
        4 => "r8",
        _ => "r9",
    }
}

proof fn lemma_recv_pops_prepend(
    regs: Seq<Seq<char>>,
    m: Seq<(VirtualReg, usize)>,
    fr: Seq<(VirtualReg, usize)>,
    p: Param,
    t: Seq<Param>,
)
    ensures
        recv_pops(regs, m, fr, seq![p] + t) == recv_pops(regs, m, fr, t) + recv_group(
            regs,
            m,
            fr,
            p,
        ),
    decreases t.len(),
{
    let whole = seq![p] + t;
    if t.len() == 0 {
        assert(whole.last() == p);
        assert(whole.drop_last() =~= Seq::<Param>::empty());
        assert(recv_pops(regs, m, fr, Seq::<Param>::empty()) =~= Seq::<Seq<char>>::empty());
        assert(whole.drop_last() == Seq::<Param>::empty());
        assert(recv_pops(regs, m, fr, whole) =~= recv_pops(regs, m, fr, t) + recv_group(
            regs,
            m,
            fr,
            p,
        ));
    } else {
        assert(whole.last() == t.last());
        assert(whole.drop_last() =~= seq![p] + t.drop_last());
        lemma_recv_pops_prepend(regs, m, fr, p, t.drop_last());
        assert(recv_pops(regs, m, fr, whole) =~= recv_pops(regs, m, fr, t) + recv_group(
            regs,
            m,
            fr,
            p,
        ));
    }
}

/// The x86-64 code generator for one function: the physical register name
/// pool, the function's TAC, and its frame map.
pub struct Generator {
    pub regs: Vec<String>,
    pub code: Vec<ThreeAddressCode>,
    pub frame: Frame,
}

impl Generator {
    /// The register name pool, as text.
    pub open spec fn regs_v(&self) -> Seq<Seq<char>> {
        lines_view(self.regs@)
    }

    /// The frame map entries.
    pub open spec fn fr(&self) -> Seq<(VirtualReg, usize)> {
        self.frame.vreg_to_offset@
    }

    pub fn new(regs: Vec<String>, code: Vec<ThreeAddressCode>, frame: Frame) -> (r: Generator)
        ensures
            r.regs == regs,
            r.code == code,
            r.frame == frame,
    {
        Generator { regs, code, frame }
    }

    fn label_to_string(&self, label: Label) -> (r: String)
        ensures
            r@ == label_seq(label),
    {
        match label {
            Label::Lelse(count) => {
                let mut s = String::from_str(".Lelse");
                let num = u64_to_string(count as u64);
                s.append(num.as_str());
                s
            },
            Label::Lbegin(count) => {
                let mut s = String::from_str(".Lbegin");
                let num = u64_to_string(count as u64);
                s.append(num.as_str());
                s
            },
            Label::Lend(count) => {
                let mut s = String::from_str(".Lend");
                let num = u64_to_string(count as u64);
                s.append(num.as_str());
                s
            },
        }
    }

    /// The rendered physical register of `vreg` under the allocation map.
    fn vreg_to_string(&self, vreg: &VirtualReg, vreg_to_reg: &Vec<(VirtualReg, usize)>) -> (r:
        String)
        requires
            lookup_ok(vreg_to_reg@, self.regs@.len() as int, *vreg),
        ensures
            r@ == reg_str(self.regs_v(), vreg_to_reg@, *vreg),
    {
        match lookup_assoc(vreg_to_reg, *vreg) {
            Some(i) => self.regs[i].clone(),
            None => {
                proof {
                    assert(false);
                }
                String::new()
            },
        }
    }

    fn get_offset(&self, vreg: &VirtualReg) -> (r: usize)
        requires
            spec_lookup(self.fr(), *vreg) is Some,
        ensures
            r as int == frame_off(self.fr(), *vreg),
    {
        match lookup_assoc(&self.frame.vreg_to_offset, *vreg) {
            Some(o) => o,
            None => {
                proof {
                    assert(false);
                }
                0
            },
        }
    }

    /// Emits the reload of a named local from its frame slot, so that reads
    /// observe the latest stored value; nothing for a plain temporary.
    fn reload_if_local(
        &self,
        vreg_to_reg: &Vec<(VirtualReg, usize)>,
        v: &VirtualReg,
        out: &mut Vec<String>,
    )
        requires
            lookup_ok(vreg_to_reg@, self.regs@.len() as int, *v),
        ensures
            lines_view(final(out)@) == lines_view(old(out)@) + reload_lines(
                self.regs_v(),
                vreg_to_reg@,
                self.fr(),
                *v,
            ),
    {
        let ghost rl = reload_lines(self.regs_v(), vreg_to_reg@, self.fr(), *v);
        match lookup_assoc(&self.frame.vreg_to_offset, *v) {
            Some(off) => {
                let rname = self.vreg_to_string(v, vreg_to_reg);
                let num = u64_to_string(off as u64);
                let l = cat5("  mov ", rname.as_str(), ", [rbp - ", num.as_str(), "]");
                emit(out, l);
                proof {
                    assert(lines_view(out@) =~= lines_view(old(out)@) + rl);
                }
            },
            None => {
                proof {
                    assert(lines_view(out@) =~= lines_view(old(out)@) + rl);
                }
            },
        }
    }

    fn gen_binop(
        &self,
        vreg_to_reg: &Vec<(VirtualReg, usize)>,
        dest: &VirtualReg,
        left: &VirtualReg,
        op: &BinOp,
        right: &VirtualReg,
        out: &mut Vec<String>,
    )
        requires
            lookup_ok(vreg_to_reg@, self.regs@.len() as int, *dest),
            lookup_ok(vreg_to_reg@, self.regs@.len() as int, *left),
            lookup_ok(vreg_to_reg@, self.regs@.len() as int, *right),
        ensures
            lines_view(final(out)@) == lines_view(old(out)@) + reload_lines(
                self.regs_v(),
                vreg_to_reg@,
                self.fr(),
                *left,
            ) + reload_lines(self.regs_v(), vreg_to_reg@, self.fr(), *right) + binop_core(
                self.regs_v(),
                vreg_to_reg@,
                *dest,
                *left,
                *op,
                *right,
            ),
    {
        let ghost rll = reload_lines(self.regs_v(), vreg_to_reg@, self.fr(), *left);
        let ghost rlr = reload_lines(self.regs_v(), vreg_to_reg@, self.fr(), *right);
        let ghost core = binop_core(self.regs_v(), vreg_to_reg@, *dest, *left, *op, *right);
        self.reload_if_local(vreg_to_reg, left, out);
        self.reload_if_local(vreg_to_reg, right, out);
        let dr = self.vreg_to_string(dest, vreg_to_reg);
        let lr = self.vreg_to_string(left, vreg_to_reg);
        let rr = self.vreg_to_string(right, vreg_to_reg);
        match op {
            BinOp::Add | BinOp::Sub | BinOp::Mul => {
                let nm = match op {
                    BinOp::Add => "add",
                    BinOp::Sub => "sub",
                    _ => "imul",
                };
                proof {
                    assert(nm@ == op_name(*op));
                }
                if dr == rr {
                    emit(out, cat2("  mov rbx, ", lr.as_str()));
                    emit(out, cat4("  ", nm, " rbx, ", rr.as_str()));
                    emit(out, cat3("  mov ", dr.as_str(), ", rbx"));
                } else {
                    emit(out, cat4("  mov ", dr.as_str(), ", ", lr.as_str()));
                    emit(out, cat6("  ", nm, " ", dr.as_str(), ", ", rr.as_str()));
                }
            },
            BinOp::Div => {
                emit(out, String::from_str("  mov rbx, rdx"));
                emit(out, cat2("  mov rax, ", lr.as_str()));
                emit(out, String::from_str("  cqo"));
                if str_eq(rr.as_str(), "rdx") {
                    emit(out, String::from_str("  idiv rbx"));
                } else {
                    emit(out, cat2("  idiv ", rr.as_str()));
                }
                emit(out, cat3("  mov ", dr.as_str(), ", rax"));
                emit(out, String::from_str("  mov rdx, rbx"));
            },
            BinOp::Le | BinOp::Lt | BinOp::Eq | BinOp::Ne => {
                let nm = match op {
                    BinOp::Le => "setle",
                    BinOp::Lt => "setl",
                    BinOp::Eq => "sete",
                    _ => "setne",
                };
                proof {
                    assert(nm@ == set_name(*op));
                }
                emit(out, cat4("  cmp ", lr.as_str(), ", ", rr.as_str()));
                emit(out, cat3("  ", nm, " al"));
                emit(out, cat3("  movzb ", dr.as_str(), ", al"));
            },
        }
        proof {
            assert(lines_view(out@) =~= lines_view(old(out)@) + rll + rlr + core);
        }
    }

    fn gen_call(
        &self,
        vreg_to_reg: &Vec<(VirtualReg, usize)>,
        fn_name: &String,
        args: &Vec<VirtualReg>,
        ret_reg: &VirtualReg,
        out: &mut Vec<String>,
    )
        requires
            args@.len() <= 6,
            lookup_ok(vreg_to_reg@, self.regs@.len() as int, *ret_reg),
            forall|i: int|
                0 <= i < args@.len() ==> lookup_ok(
                    vreg_to_reg@,
                    self.regs@.len() as int,
                    #[trigger] args@[i],
                ),
        ensures
            lines_view(final(out)@) == lines_view(old(out)@) + call_lines(
                self.regs_v(),
                vreg_to_reg@,
                fn_name@,
                args@,
                *ret_reg,
            ),
    {
        emit(out, String::from_str("  push rdi"));
        emit(out, String::from_str("  push rsi"));
        emit(out, String::from_str("  push rdx"));
        emit(out, String::from_str("  push rcx"));
        emit(out, String::from_str("  push r8"));
        emit(out, String::from_str("  push r9"));
        proof {
            assert(lines_view(out@) =~= lines_view(old(out)@) + call_pushes());
        }
        let ghost base1 = lines_view(out@);
        let mut i: usize = 0;
        while i < args.len()
            invariant
                i <= args.len(),
                forall|j: int|
                    0 <= j < args@.len() ==> lookup_ok(
                        vreg_to_reg@,
                        self.regs@.len() as int,
                        #[trigger] args@[j],
                    ),
                lines_view(out@) == base1 + stage_lines(self.regs_v(), vreg_to_reg@, args@).take(
                    i as int,
                ),
            decreases args.len() - i,
        {
            let ghost stage = stage_lines(self.regs_v(), vreg_to_reg@, args@);
            let ar = self.vreg_to_string(&args[i], vreg_to_reg);
            if i < 5 {
                emit(out, cat4("  mov ", save_str(i), ", ", ar.as_str()));
            } else {
                emit(out, cat2("  push ", ar.as_str()));
            }
            proof {
                assert(stage.take(i as int + 1).drop_last() =~= stage.take(i as int));
                assert(stage.take(i as int + 1).last() == stage[i as int]);
                assert(lines_view(out@) =~= base1 + stage.take(i as int + 1));
            }
            i += 1;
        }
        proof {
            let stage = stage_lines(self.regs_v(), vreg_to_reg@, args@);
            assert(stage.take(stage.len() as int) =~= stage);
        }
        let ghost base2 = lines_view(out@);
        let mut i2: usize = 0;
        while i2 < args.len()
            invariant
                i2 <= args.len(),
                args@.len() <= 6,
                lines_view(out@) == base2 + position_lines(args@.len()).take(i2 as int),
            decreases args.len() - i2,
        {
            let ghost position = position_lines(args@.len());
            if i2 < 5 {
                emit(out, cat4("  mov ", recv_str(i2), ", ", save_str(i2)));
            } else {
                emit(out, cat2("  pop ", recv_str(i2)));
            }
            proof {
                assert(position.take(i2 as int + 1).drop_last() =~= position.take(i2 as int));
                assert(position.take(i2 as int + 1).last() == position[i2 as int]);
                assert(lines_view(out@) =~= base2 + position.take(i2 as int + 1));
            }
            i2 += 1;
        }
        proof {
            let position = position_lines(args@.len());
            assert(position.take(position.len() as int) =~= position);
        }
        emit(out, cat2("  call ", fn_name.as_str()));
        emit(out, String::from_str("  pop r9"));
        emit(out, String::from_str("  pop r8"));
        emit(out, String::from_str("  pop rcx"));
        emit(out, String::from_str("  pop rdx"));
        emit(out, String::from_str("  pop rsi"));
        emit(out, String::from_str("  pop rdi"));
        let rname = self.vreg_to_string(ret_reg, vreg_to_reg);
        emit(out, cat3("  mov ", rname.as_str(), ", rax"));
        proof {
            assert(lines_view(out@) =~= lines_view(old(out)@) + call_lines(
                self.regs_v(),
                vreg_to_reg@,
                fn_name@,
                args@,
                *ret_reg,
            ));
        }
    }

    fn gen_fn_entry(
        &self,
        vreg_to_reg: &Vec<(VirtualReg, usize)>,
        fn_name: &String,
        params: &Vec<Param>,
        out: &mut Vec<String>,
    )
        requires
            frame_wf(self.fr()),
            params@.len() <= 6,
            forall|i: int|
                0 <= i < params@.len() ==> spec_lookup(self.fr(), (#[trigger] params@[i]).dest)
                    is Some,
            forall|i: int|
                0 <= i < params@.len() ==> lookup_ok(
                    vreg_to_reg@,
                    self.regs@.len() as int,
                    (#[trigger] params@[i]).dest,
                ),
        ensures
            lines_view(final(out)@) == lines_view(old(out)@) + fn_lines(
                self.regs_v(),
                vreg_to_reg@,
                self.fr(),
                fn_name@,
                params@,
            ),
    {
        // The stack reservation: the largest frame offset, aligned up to 16.
        let fr_vec = &self.frame.vreg_to_offset;
        let mut offset_max: usize = 0;
        let mut k: usize = 0;
        proof {
            assert(self.fr().subrange(0, 0) =~= Seq::<(VirtualReg, usize)>::empty());
        }
        while k < fr_vec.len()
            invariant
                k <= fr_vec.len(),
                fr_vec@ == self.fr(),
                offset_max as int == max_offset(self.fr().subrange(0, k as int)),
            decreases fr_vec.len() - k,
        {
            proof {
                assert(self.fr().subrange(0, k as int + 1).drop_last() =~= self.fr().subrange(
                    0,
                    k as int,
                ));
                assert(self.fr().subrange(0, k as int + 1).last() == self.fr()[k as int]);
            }
            let off = fr_vec[k].1;
            if off > offset_max {
                offset_max = off;
            }
            k += 1;
        }
        proof {
            assert(self.fr().subrange(0, self.fr().len() as int) =~= self.fr());
            assert forall|j: int| 0 <= j < self.fr().len() implies (#[trigger] self.fr()[j]).1 as int
                <= 8 * self.fr().len() by {
                assert(self.fr()[j].1 == 8 * (j + 1));
            }
            lemma_max_offset_bound(self.fr(), 8 * self.fr().len() as int);
            assert(((offset_max + 15) as int / 16) * 16 <= offset_max + 15) by (nonlinear_arith);
        }
        let stack_size: usize = ((offset_max + 15) / 16) * 16;
        proof {
            assert(stack_size as int == spec_stack_size(self.fr()));
        }
        emit(out, cat2(fn_name.as_str(), ":"));
        emit(out, String::from_str("  push rbp"));
        emit(out, String::from_str("  mov rbp, rsp"));
        let num = u64_to_string(stack_size as u64);
        emit(out, cat2("  sub rsp, ", num.as_str()));
        let ghost prologue_done = lines_view(out@);
        let mut i: usize = 0;
        while i < params.len()
            invariant
                i <= params.len(),
                i <= 6,
                params@.len() <= 6,
                lines_view(out@) == prologue_done + Seq::new(
                    params@.len(),
                    |j: int| "  push "@ + recv_reg(j),
                ).take(i as int),
            decreases params.len() - i,
        {
            let ghost pushes = Seq::new(params@.len(), |j: int| "  push "@ + recv_reg(j));
            emit(out, cat2("  push ", recv_str(i)));
            proof {
                assert(pushes.take(i as int + 1).drop_last() =~= pushes.take(i as int));
                assert(pushes.take(i as int + 1).last() == pushes[i as int]);
                assert(lines_view(out@) =~= prologue_done + pushes.take(i as int + 1));
            }
            i += 1;
        }
        proof {
            let pushes = Seq::new(params@.len(), |j: int| "  push "@ + recv_reg(j));
            assert(pushes.take(pushes.len() as int) =~= pushes);
        }
        let ghost pushes_done = lines_view(out@);
        let mut k2: usize = params.len();
        proof {
            assert(params@.subrange(params@.len() as int, params@.len() as int)
                =~= Seq::<Param>::empty());
            assert(pushes_done + Seq::<Seq<char>>::empty() =~= pushes_done);
        }
        while k2 > 0
            invariant
                k2 <= params.len(),
                forall|i: int|
                    0 <= i < params@.len() ==> spec_lookup(self.fr(), (#[trigger] params@[i]).dest)
                        is Some,
                forall|i: int|
                    0 <= i < params@.len() ==> lookup_ok(
                        vreg_to_reg@,
                        self.regs@.len() as int,
                        (#[trigger] params@[i]).dest,
                    ),
                lines_view(out@) == pushes_done + recv_pops(
                    self.regs_v(),
                    vreg_to_reg@,
                    self.fr(),
                    params@.subrange(k2 as int, params@.len() as int),
                ),
            decreases k2,
        {
            let p_dest = params[k2 - 1].dest;
            let pd = self.vreg_to_string(&p_dest, vreg_to_reg);
            let off = self.get_offset(&p_dest);
            let num2 = u64_to_string(off as u64);
            emit(out, cat2("  pop ", pd.as_str()));
            emit(out, cat4("  mov [rbp - ", num2.as_str(), "], ", pd.as_str()));
            proof {
                let suffix = params@.subrange(k2 as int, params@.len() as int);
                let suffix1 = params@.subrange(k2 as int - 1, params@.len() as int);
                assert(suffix1 =~= seq![params@[k2 as int - 1]] + suffix);
                lemma_recv_pops_prepend(
                    self.regs_v(),
                    vreg_to_reg@,
                    self.fr(),
                    params@[k2 as int - 1],
                    suffix,
                );
                assert(lines_view(out@) =~= pushes_done + recv_pops(
                    self.regs_v(),
                    vreg_to_reg@,
                    self.fr(),
                    suffix1,
                ));
            }
            k2 -= 1;
        }
        proof {
            assert(params@.subrange(0, params@.len() as int) =~= params@);
            assert(lines_view(out@) =~= lines_view(old(out)@) + fn_lines(
                self.regs_v(),
                vreg_to_reg@,
                self.fr(),
                fn_name@,
                params@,
            ));
        }
    }

    /// Renders one instruction, appending its assembly lines to `out`.
    fn generate(
        &self,
        vreg_to_reg: &Vec<(VirtualReg, usize)>,
        instr: &ThreeAddressCode,
        out: &mut Vec<String>,
    )
        requires
            frame_wf(self.fr()),
            instr_wf(vreg_to_reg@, self.fr(), self.regs@.len() as int, *instr),
        ensures
            lines_view(final(out)@) == lines_view(old(out)@) + spec_gen_instr(
                self.regs_v(),
                vreg_to_reg@,
                self.fr(),
                *instr,
            ),
    {
        let ghost expected = spec_gen_instr(self.regs_v(), vreg_to_reg@, self.fr(), *instr);
        match instr {
            ThreeAddressCode::LoadImm { dest, value } => {
                proof {
                    assert(spec_using_regs(*instr).contains(*dest)) by {
                        assert(spec_using_regs(*instr)[0] == *dest);
                    }
                }
                let d = self.vreg_to_string(dest, vreg_to_reg);
                let v = i32_to_string(*value);
                emit(out, cat4("  mov ", d.as_str(), ", ", v.as_str()));
                proof {
                    assert(lines_view(out@) =~= lines_view(old(out)@) + expected);
                }
            },
            ThreeAddressCode::BinOpCode { dest, left, op, right } => {
                proof {
                    assert(spec_using_regs(*instr).contains(*dest)) by {
                        assert(spec_using_regs(*instr)[0] == *dest);
                    }
                    assert(spec_using_regs(*instr).contains(*left)) by {
                        assert(spec_using_regs(*instr)[1] == *left);
                    }
                    assert(spec_using_regs(*instr).contains(*right)) by {
                        assert(spec_using_regs(*instr)[2] == *right);
                    }
                }
                self.gen_binop(vreg_to_reg, dest, left, op, right, out);
                proof {
                    assert(lines_view(out@) =~= lines_view(old(out)@) + expected);
                }
            },
            ThreeAddressCode::Assign { dest, src } => {
                proof {
                    assert(spec_using_regs(*instr).contains(*dest)) by {
                        assert(spec_using_regs(*instr)[0] == *dest);
                    }
                    assert(spec_using_regs(*instr).contains(*src)) by {
                        assert(spec_using_regs(*instr)[1] == *src);
                    }
                }
                let d = self.vreg_to_string(dest, vreg_to_reg);
                let s = self.vreg_to_string(src, vreg_to_reg);
                emit(out, cat4("  mov ", d.as_str(), ", ", s.as_str()));
                match lookup_assoc(&self.frame.vreg_to_offset, *dest) {
                    Some(off) => {
                        let num = u64_to_string(off as u64);
                        emit(out, cat4("  mov [rbp - ", num.as_str(), "], ", s.as_str()));
                    },
                    None => {},
                }
                proof {
                    assert(lines_view(out@) =~= lines_view(old(out)@) + expected);
                }
            },
            ThreeAddressCode::EvalVar { .. } => {
                proof {
                    assert(lines_view(out@) =~= lines_view(old(out)@) + expected);
                }
            },
            ThreeAddressCode::AddrOf { addr, var } => {
                proof {
                    assert(spec_using_regs(*instr).contains(*addr)) by {
                        assert(spec_using_regs(*instr)[0] == *addr);
                    }
                }
                let a = self.vreg_to_string(addr, vreg_to_reg);
                let off = self.get_offset(var);
                let num = u64_to_string(off as u64);
                emit(out, cat5("  lea ", a.as_str(), ", [rbp - ", num.as_str(), "]"));
                proof {
                    assert(lines_view(out@) =~= lines_view(old(out)@) + expected);
                }
            },
            ThreeAddressCode::LoadVar { dest, addr } => {
                proof {
                    assert(spec_using_regs(*instr).contains(*dest)) by {
                        assert(spec_using_regs(*instr)[0] == *dest);
                    }
                    assert(spec_using_regs(*instr).contains(*addr)) by {
                        assert(spec_using_regs(*instr)[1] == *addr);
                    }
                }
                self.reload_if_local(vreg_to_reg, addr, out);
                let d = self.vreg_to_string(dest, vreg_to_reg);
                let a = self.vreg_to_string(addr, vreg_to_reg);
                emit(out, cat5("  mov ", d.as_str(), ", [", a.as_str(), "]"));
                proof {
                    assert(lines_view(out@) =~= lines_view(old(out)@) + expected);
                }
            },
            ThreeAddressCode::Store { addr, src } => {
                proof {
                    assert(spec_using_regs(*instr).contains(*addr)) by {
                        assert(spec_using_regs(*instr)[0] == *addr);
                    }
                    assert(spec_using_regs(*instr).contains(*src)) by {
                        assert(spec_using_regs(*instr)[1] == *src);
                    }
                }
                self.reload_if_local(vreg_to_reg, addr, out);
                let a = self.vreg_to_string(addr, vreg_to_reg);
                let s = self.vreg_to_string(src, vreg_to_reg);
                emit(out, cat4("  mov [", a.as_str(), "], ", s.as_str()));
                proof {
                    assert(lines_view(out@) =~= lines_view(old(out)@) + expected);
                }
            },
            ThreeAddressCode::Return { src } => {
                proof {
                    assert(spec_using_regs(*instr).contains(*src)) by {
                        assert(spec_using_regs(*instr)[0] == *src);
                    }
                }
                self.reload_if_local(vreg_to_reg, src, out);
                let s = self.vreg_to_string(src, vreg_to_reg);
                emit(out, cat2("  mov rax, ", s.as_str()));
                emit(out, String::from_str("  mov rsp, rbp"));
                emit(out, String::from_str("  pop rbp"));
                emit(out, String::from_str("  ret"));
                proof {
                    assert(lines_view(out@) =~= lines_view(old(out)@) + expected);
                }
            },
            ThreeAddressCode::IfFalse { cond, label } => {
                proof {
                    assert(spec_using_regs(*instr).contains(*cond)) by {
                        assert(spec_using_regs(*instr)[0] == *cond);
                    }
                }
                let c = self.vreg_to_string(cond, vreg_to_reg);
                let l = self.label_to_string(*label);
                emit(out, cat3("  cmp ", c.as_str(), ", 0"));
                emit(out, cat2("  je ", l.as_str()));
                proof {
                    assert(lines_view(out@) =~= lines_view(old(out)@) + expected);
                }
            },
            ThreeAddressCode::GoTo { label } => {
                let l = self.label_to_string(*label);
                emit(out, cat2("  jmp ", l.as_str()));
                proof {
                    assert(lines_view(out@) =~= lines_view(old(out)@) + expected);
                }
            },
            ThreeAddressCode::Label { label } => {
                let l = self.label_to_string(*label);
                emit(out, cat2(l.as_str(), ":"));
                proof {
                    assert(lines_view(out@) =~= lines_view(old(out)@) + expected);
                }
            },
            ThreeAddressCode::Call { fn_name, args, ret_reg } => {
                proof {
                    assert(spec_using_regs(*instr).contains(*ret_reg)) by {
                        assert(spec_using_regs(*instr)[0] == *ret_reg);
                    }
                    assert forall|i: int| 0 <= i < args@.len() implies lookup_ok(
                        vreg_to_reg@,
                        self.regs@.len() as int,
                        #[trigger] args@[i],
                    ) by {
                        assert(spec_using_regs(*instr).contains(args@[i])) by {
                            assert(spec_using_regs(*instr)[1 + i] == args@[i]);
                        }
                    }
                }
                self.gen_call(vreg_to_reg, fn_name, args, ret_reg, out);
                proof {
                    assert(lines_view(out@) =~= lines_view(old(out)@) + expected);
                }
            },
            ThreeAddressCode::Fn { fn_name, params } => {
                proof {
                    assert forall|i: int| 0 <= i < params@.len() implies lookup_ok(
                        vreg_to_reg@,
                        self.regs@.len() as int,
                        (#[trigger] params@[i]).dest,
                    ) by {
                        assert(spec_using_regs(*instr).contains(params@[i].dest)) by {
                            assert(spec_using_regs(*instr)[i] == params@[i].dest);
                        }
                    }
                }
                self.gen_fn_entry(vreg_to_reg, fn_name, params, out);
                proof {
                    assert(lines_view(out@) =~= lines_view(old(out)@) + expected);
                }
            },
        }
    }

    /// Renders the whole function: every TAC instruction in order, as lines
    /// of assembly text. The output is a function of the inputs alone, so
    /// emitting twice from the same TAC yields byte-identical text.
    pub fn gen_fn(&self, vreg_to_reg: Vec<(VirtualReg, usize)>) -> (r: Vec<String>)
        requires
            frame_wf(self.fr()),
            forall|k: int|
                0 <= k < self.code@.len() ==> instr_wf(
                    vreg_to_reg@,
                    self.fr(),
                    self.regs@.len() as int,
                    #[trigger] self.code@[k],
                ),
        ensures
            lines_view(r@) == spec_gen(self.regs_v(), vreg_to_reg@, self.fr(), self.code@),
    {
        let mut out: Vec<String> = Vec::new();
        proof {
            assert(self.code@.subrange(0, 0) =~= Seq::<ThreeAddressCode>::empty());
            assert(lines_view(out@) =~= Seq::<Seq<char>>::empty());
        }
        let mut i: usize = 0;
        while i < self.code.len()
            invariant
                i <= self.code@.len(),
                frame_wf(self.fr()),
                forall|k: int|
                    0 <= k < self.code@.len() ==> instr_wf(
                        vreg_to_reg@,
                        self.fr(),
                        self.regs@.len() as int,
                        #[trigger] self.code@[k],
                    ),
                lines_view(out@) == spec_gen(
                    self.regs_v(),
                    vreg_to_reg@,
                    self.fr(),
                    self.code@.subrange(0, i as int),
                ),
            decreases self.code@.len() - i,
        {
            self.generate(&vreg_to_reg, &self.code[i], &mut out);
            proof {
                assert(self.code@.subrange(0, i as int + 1).drop_last() =~= self.code@.subrange(
                    0,
                    i as int,
                ));
                assert(self.code@.subrange(0, i as int + 1).last() == self.code@[i as int]);
            }
            i += 1;
        }
        proof {
            assert(self.code@.subrange(0, self.code@.len() as int) =~= self.code@);
        }
        out
    }
}

} // verus!
