//! The driver: tokenizes and parses the source, then wires the verified
//! middle and back end once per function definition — lowering to TAC,
//! interval analysis, linear-scan allocation, frame layout and emission —
//! prefixed by the global preamble. `fn_pipeline` states the whole of that
//! per-function work as one function of the AST, and `compile_fn`'s result
//! is pinned to it.

use vstd::prelude::*;

use crate::frame::{lvar_vregs, sort_by_id, Frame};
use crate::gen_x64::{
    instr_wf, instr_wf_ins, lemma_gen_view, lemma_instr_wf_view, lines_view, lookup_assoc,
    lookup_ok, spec_gen_v, spec_lookup, Generator,
};
use crate::ir::gen_ir::{
    ir_state, lvars_view, spec_stmt_ir, stmt_size, stmt_to_ir, stmt_weight, stmt_well_formed,
    GenIrContext, IrState,
};
use crate::ir::types_ir::{code_view, spec_using_regs, tac_view, ThreeAddressCode, VirtualReg};
use crate::lexer::{TokenStream, Tokenizer};
use crate::parser::Parser;
use crate::reg_alloc::interval_analysis::{scan_interval, spec_intervals, Interval};
use crate::reg_alloc::register_allocation::{linear_reg_alloc, reg_val, sort_by_start, spec_alloc};
use crate::types::{CompileError, Stmt};

verus! {

/// The six caller-saved argument registers, as text, in allocation order.
pub open spec fn reg_pool() -> Seq<Seq<char>> {
    seq!["rdi"@, "rsi"@, "rdx"@, "rcx"@, "r8"@, "r9"@]
}

/// The fresh lowering state of one function.
pub open spec fn init_state() -> IrState {
    IrState { code: Seq::empty(), rc: 0, lc: 0, lvars: Seq::empty() }
}

/// The frame map of a state's locals: ascending register id, 8 bytes each.
pub open spec fn frame_of(lvars: Seq<(Seq<char>, VirtualReg)>) -> Seq<(VirtualReg, usize)> {
    Seq::new(
        lvars.len(),
        |k: int|
            (
                sort_by_id(lvars.map_values(|p: (Seq<char>, VirtualReg)| p.1))[k],
                (8 * (k + 1)) as usize,
            ),
    )
}

/// The register map of an assigned interval run.
pub open spec fn alloc_map(assigned: Seq<Interval>) -> Seq<(VirtualReg, usize)> {
    assigned.map_values(|iv: Interval| (iv.vreg, reg_val(iv)))
}

/// The whole middle and back end on one function definition, as a function
/// of its AST alone: lower to TAC, scan the live intervals, allocate the
/// six-register pool, lay out the frame, and emit. `None` exactly when a
/// stage fails: an ill-formed AST, a function too large for the counters,
/// too many locals for the offset arithmetic, an allocation that would need
/// a spill, or an instruction that misses the emitter's obligations.
pub open spec fn fn_pipeline(s: Stmt) -> Option<Seq<Seq<char>>> {
    if !stmt_well_formed(s) || stmt_weight(s) > 0xffff_ffff {
        None
    } else {
        let st = spec_stmt_ir(s, init_state());
        if st.lvars.len() > (usize::MAX - 15) / 8 {
            None
        } else {
            match spec_alloc(sort_by_start(spec_intervals(st.code)), Seq::empty(), 6) {
                None => None,
                Some(assigned) => {
                    let m = alloc_map(assigned);
                    let fr = frame_of(st.lvars);
                    if !(forall|k: int|
                        0 <= k < st.code.len() ==> instr_wf_ins(m, fr, 6, #[trigger] st.code[k])) {
                        None
                    } else {
                        Some(spec_gen_v(reg_pool(), m, fr, st.code))
                    }
                },
            }
        }
    }
}

/// The pipelines of a run of function definitions, concatenated; `None`
/// when any one fails.
pub open spec fn all_pipelines(nodes: Seq<Stmt>) -> Option<Seq<Seq<char>>>
    decreases nodes.len(),
{
    if nodes.len() == 0 {
        Some(Seq::empty())
    } else {
        match all_pipelines(nodes.drop_last()) {
            Some(pre) => match fn_pipeline(nodes.last()) {
                Some(l) => Some(pre + l),
                None => None,
            },
            None => None,
        }
    }
}

/// Decides whether the emitter's per-instruction obligations hold: every
/// mentioned register is mapped below `nregs`, an address-of source and
/// every parameter has a frame slot, and argument lists fit the six
/// argument-passing registers.
#[verifier::loop_isolation(false)]
fn check_instr(
    m: &Vec<(VirtualReg, usize)>,
    fr: &Vec<(VirtualReg, usize)>,
    nregs: usize,
    t: &ThreeAddressCode,
) -> (b: bool)
    ensures
        b == instr_wf(m@, fr@, nregs as int, *t),
{
    let regs = t.get_using_regs();
    let mut i: usize = 0;
    while i < regs.len()
        invariant
            i <= regs.len(),
            regs@ == spec_using_regs(*t),
            forall|k: int| 0 <= k < i ==> lookup_ok(m@, nregs as int, #[trigger] regs@[k]),
        decreases regs.len() - i,
    {
        let ok = match lookup_assoc(m, regs[i]) {
            Some(x) => x < nregs,
            None => false,
        };
        if !ok {
            proof {
                assert(spec_using_regs(*t).contains(regs@[i as int])) by {
                    assert(spec_using_regs(*t)[i as int] == regs@[i as int]);
                }
            }
            return false;
        }
        i += 1;
    }
    proof {
        assert forall|v: VirtualReg| spec_using_regs(*t).contains(v) implies lookup_ok(
            m@,
            nregs as int,
            v,
        ) by {
            let k = choose|k: int|
                0 <= k < spec_using_regs(*t).len() && spec_using_regs(*t)[k] == v;
            assert(regs@[k] == v);
        }
    }
    match t {
        ThreeAddressCode::LoadImm { .. } => true,
        ThreeAddressCode::BinOpCode { .. } => true,
        ThreeAddressCode::Assign { .. } => true,
        ThreeAddressCode::EvalVar { .. } => true,
        ThreeAddressCode::AddrOf { var, .. } => {
            match lookup_assoc(fr, *var) {
                Some(_) => true,
                None => false,
            }
        },
        ThreeAddressCode::LoadVar { .. } => true,
        ThreeAddressCode::Store { .. } => true,
        ThreeAddressCode::Return { .. } => true,
        ThreeAddressCode::IfFalse { .. } => true,
        ThreeAddressCode::GoTo { .. } => true,
        ThreeAddressCode::Label { .. } => true,
        ThreeAddressCode::Call { args, .. } => args.len() <= 6,
        ThreeAddressCode::Fn { params, .. } => {
            if params.len() > 6 {
                return false;
            }
            let mut j: usize = 0;
            while j < params.len()
                invariant
                    j <= params.len(),
                    forall|k: int|
                        0 <= k < j ==> spec_lookup(fr@, (#[trigger] params@[k]).dest) is Some,
                decreases params.len() - j,
            {
                match lookup_assoc(fr, params[j].dest) {
                    Some(_) => {},
                    None => {
                        return false;
                    },
                }
                j += 1;
            }
            true
        },
    }
}

/// Compiles one function definition to its assembly lines. The result is
/// pinned in full: it succeeds exactly when `fn_pipeline` of the AST does,
/// and then the lines are exactly its value.
#[verifier::loop_isolation(false)]
pub fn compile_fn(node: &Stmt) -> (r: Result<Vec<String>, CompileError>)
    ensures
        r matches Ok(lines) ==> Some(lines_view(lines@)) == fn_pipeline(*node),
        r is Err <==> fn_pipeline(*node) is None,
{
    // Stage bound: the counters must not overflow.
    let w = match stmt_size(node) {
        Some(w) => w,
        None => {
            return Err(CompileError::new(0, "function is too large to compile"));
        },
    };
    if w > 0xffff_ffff {
        return Err(CompileError::new(0, "function is too large to compile"));
    }
    // Lowering to TAC.
    let mut context = GenIrContext::new();
    proof {
        assert(ir_state(context) =~~= init_state());
    }
    match stmt_to_ir(node, &mut context) {
        Ok(()) => {},
        Err(e) => {
            return Err(e);
        },
    }
    let ghost st = spec_stmt_ir(*node, init_state());
    proof {
        assert(ir_state(context) == st);
        assert(code_view(context.code@) == st.code);
        assert(lvars_view(context.lvar_map@) == st.lvars);
        assert(context.lvar_map@.len() == st.lvars.len());
    }
    let GenIrContext { code, lvar_map, .. } = context;
    // Frame bound: every slot offset must fit the address arithmetic.
    if lvar_map.len() > (usize::MAX - 15) / 8 {
        return Err(CompileError::new(0, "too many locals"));
    }
    proof {
        assert(8 * (lvar_map@.len() + 1) <= usize::MAX && 8 * lvar_map@.len() + 15
            <= usize::MAX) by {
            assert(lvar_map@.len() * 8 <= ((usize::MAX - 15) / 8) * 8 <= usize::MAX - 15)
                by (nonlinear_arith)
                requires
                    lvar_map@.len() <= (usize::MAX - 15) / 8,
            ;
        }
    }
    // Live intervals and register allocation.
    let mut intervals = scan_interval(&code);
    proof {
        assert(intervals@ == spec_intervals(st.code));
    }
    let vreg_to_reg = match linear_reg_alloc(&mut intervals, 6) {
        Ok(m) => m,
        Err(e) => {
            let msg = e.message();
            return Err(CompileError::new(0, msg));
        },
    };
    let ghost assigned = intervals@;
    proof {
        assert(spec_alloc(sort_by_start(spec_intervals(st.code)), Seq::empty(), 6) == Some(
            assigned,
        ));
        assert(vreg_to_reg@ =~= alloc_map(assigned));
    }
    // Frame layout.
    let frame = Frame::from_lvar_map(lvar_map);
    proof {
        assert(st.lvars.map_values(|p: (Seq<char>, VirtualReg)| p.1) =~= lvar_vregs(
            lvar_map@,
        ));
        assert(frame.vreg_to_offset@ =~= frame_of(st.lvars));
    }
    // The register names, in allocation-index order.
    let mut regs: Vec<String> = Vec::new();
    regs.push(String::from_str("rdi"));
    regs.push(String::from_str("rsi"));
    regs.push(String::from_str("rdx"));
    regs.push(String::from_str("rcx"));
    regs.push(String::from_str("r8"));
    regs.push(String::from_str("r9"));
    proof {
        assert(lines_view(regs@) =~= reg_pool());
    }
    // The emitter's obligations, checked instruction by instruction: a miss
    // marks a broken compiler invariant, an oversized argument or parameter
    // list its own failure kind.
    let mut ci: usize = 0;
    while ci < code.len()
        invariant
            ci <= code.len(),
            regs@.len() == 6,
            forall|k: int|
                0 <= k < ci ==> instr_wf(
                    vreg_to_reg@,
                    frame.vreg_to_offset@,
                    6,
                    #[trigger] code@[k],
                ),
            code_view(code@) == st.code,
            vreg_to_reg@ == alloc_map(assigned),
            frame.vreg_to_offset@ == frame_of(st.lvars),
            spec_alloc(sort_by_start(spec_intervals(st.code)), Seq::empty(), 6) == Some(
                assigned,
            ),
        decreases code.len() - ci,
    {
        if !check_instr(&vreg_to_reg, &frame.vreg_to_offset, 6, &code[ci]) {
            proof {
                lemma_instr_wf_view(vreg_to_reg@, frame.vreg_to_offset@, 6, code@[ci as int]);
                assert(st.code[ci as int] == tac_view(code@[ci as int]));
                assert(!instr_wf_ins(
                    alloc_map(assigned),
                    frame_of(st.lvars),
                    6,
                    st.code[ci as int],
                ));
            }
            let too_many = match &code[ci] {
                ThreeAddressCode::Call { args, .. } => args.len() > 6,
                ThreeAddressCode::Fn { params, .. } => params.len() > 6,
                _ => false,
            };
            if too_many {
                return Err(CompileError::new(0, "too many call arguments"));
            }
            return Err(CompileError::new(0, "missing map entry during code generation"));
        }
        ci += 1;
    }
    proof {
        assert forall|k: int| 0 <= k < st.code.len() implies instr_wf_ins(
            alloc_map(assigned),
            frame_of(st.lvars),
            6,
            #[trigger] st.code[k],
        ) by {
            lemma_instr_wf_view(vreg_to_reg@, frame.vreg_to_offset@, 6, code@[k]);
            assert(st.code[k] == tac_view(code@[k]));
        }
    }
    // Emission.
    let generator = Generator::new(regs, code, frame);
    let out = generator.gen_fn(vreg_to_reg);
    proof {
        lemma_gen_view(generator.regs_v(), alloc_map(assigned), frame_of(st.lvars), generator.code@);
        assert(Some(lines_view(out@)) == fn_pipeline(*node));
    }
    Ok(out)
}

/// Compiles one source text to assembly lines: tokenize, parse each
/// function definition, and run the pinned per-function pipeline on each.
/// The first two lines are always the global preamble; the lines after them
/// are exactly the concatenated `fn_pipeline` values of the parsed
/// definitions; any failure of any stage surfaces as the error of that
/// stage.
pub fn compile(input: &str) -> (r: Result<Vec<String>, CompileError>)
    ensures
        r matches Ok(lines) ==> lines@.len() >= 2 && lines@[0]@ == ".intel_syntax noprefix"@
            && lines@[1]@ == ".globl main"@ && (exists|nodes: Seq<Stmt>|
            all_pipelines(nodes) == Some(lines_view(lines@).skip(2))),
{
    let mut tokenizer = Tokenizer::new(input);
    let tok_vec = match tokenizer.tokenize() {
        Ok(t) => t,
        Err(e) => {
            return Err(e);
        },
    };
    let stream = TokenStream::new(tok_vec, input);
    proof {
        assert(stream.wf());
    }
    let mut parser = Parser::new(stream);
    let mut nodes: Vec<Stmt> = Vec::new();
    loop
        invariant
            parser.wf(),
        decreases parser.tokens.remaining(),
    {
        if parser.tokens.is_eof() {
            break;
        }
        let node = match parser.defun() {
            Ok(n) => n,
            Err(e) => {
                return Err(e);
            },
        };
        nodes.push(node);
    }
    let mut output: Vec<String> = Vec::new();
    output.push(String::from_str(".intel_syntax noprefix"));
    output.push(String::from_str(".globl main"));
    proof {
        assert(nodes@.subrange(0, 0) =~= Seq::<Stmt>::empty());
        assert(lines_view(output@).skip(2) =~= Seq::<Seq<char>>::empty());
    }
    let mut ni: usize = 0;
    while ni < nodes.len()
        invariant
            ni <= nodes.len(),
            output@.len() >= 2,
            output@[0]@ == ".intel_syntax noprefix"@,
            output@[1]@ == ".globl main"@,
            all_pipelines(nodes@.subrange(0, ni as int)) == Some(lines_view(output@).skip(2)),
        decreases nodes.len() - ni,
    {
        let mut fn_lines = match compile_fn(&nodes[ni]) {
            Ok(l) => l,
            Err(e) => {
                return Err(e);
            },
        };
        let ghost pre = output@;
        let ghost fl = fn_lines@;
        output.append(&mut fn_lines);
        proof {
            assert(output@[0] == pre[0]);
            assert(output@[1] == pre[1]);
            assert(nodes@.subrange(0, ni as int + 1).drop_last() =~= nodes@.subrange(
                0,
                ni as int,
            ));
            assert(nodes@.subrange(0, ni as int + 1).last() == nodes@[ni as int]);
            assert(lines_view(output@).skip(2) =~= lines_view(pre).skip(2) + lines_view(fl));
        }
        ni += 1;
    }
    proof {
        assert(nodes@.subrange(0, nodes@.len() as int) =~= nodes@);
    }
    Ok(output)
}

} // verus!
