use nonicc::driver::compile;
use nonicc::frame::Frame;
use nonicc::gen_x64::Generator;
use nonicc::ir::gen_ir::{stmt_to_ir, GenIrContext};
use nonicc::ir::types_ir::{BinOp, ThreeAddressCode as TAC, VirtualReg};
use nonicc::lexer::{TokenStream, Tokenizer};
use nonicc::parser::Parser;
use nonicc::reg_alloc::interval_analysis::scan_interval;
use nonicc::reg_alloc::register_allocation::linear_reg_alloc;

fn vr(id: usize) -> VirtualReg {
    VirtualReg { id }
}

fn pool() -> Vec<String> {
    vec![
        "rdi".to_string(),
        "rsi".to_string(),
        "rdx".to_string(),
        "rcx".to_string(),
        "r8".to_string(),
        "r9".to_string(),
    ]
}

fn lower(input: &str) -> Vec<TAC> {
    let mut tokenizer = Tokenizer::new(input);
    let tok_vec = tokenizer.tokenize().unwrap();
    let mut parser = Parser::new(TokenStream::new(tok_vec, input));
    let node = parser.defun().unwrap();
    let mut context = GenIrContext::new();
    stmt_to_ir(&node, &mut context).unwrap();
    context.code
}

// The global preamble opens every program.
#[test]
fn preamble_lines() {
    let lines = compile("main(){return 0;}").unwrap();
    assert_eq!(lines[0], ".intel_syntax noprefix");
    assert_eq!(lines[1], ".globl main");
}

// A function with zero locals reserves no stack and writes no slot.
#[test]
fn zero_locals_stack() {
    let lines = compile("main(){return 1;}").unwrap();
    assert!(lines.contains(&"  sub rsp, 0".to_string()));
    for l in &lines {
        assert!(!l.contains("[rbp"));
    }
}

// Two locals land at offsets 8 and 16; the stack reservation is the next
// multiple of 16.
#[test]
fn two_locals_stack() {
    let lines = compile("main(){int a; a=1; int b; b=2; return a+b;}").unwrap();
    assert!(lines.contains(&"  sub rsp, 16".to_string()));
    assert!(lines.contains(&"  mov [rbp - 8], rsi".to_string()) || lines
        .iter()
        .any(|l| l.starts_with("  mov [rbp - 8], ")));
    assert!(lines.iter().any(|l| l.starts_with("  mov [rbp - 16], ")));
}

// Frame slots follow ascending virtual-register id, 8 bytes each.
#[test]
fn frame_offsets() {
    let lvar_map = vec![
        ("a".to_string(), vr(0)),
        ("c".to_string(), vr(5)),
        ("b".to_string(), vr(2)),
    ];
    let frame = Frame::from_lvar_map(lvar_map);
    assert_eq!(
        frame.vreg_to_offset,
        vec![(vr(0), 8), (vr(2), 16), (vr(5), 24)]
    );
}

// Exactly one prologue per function, and an epilogue for each return.
#[test]
fn one_prologue_per_function() {
    let lines =
        compile("one(){return 1;} main(){return one();}").unwrap();
    let prologues = lines.iter().filter(|l| l.as_str() == "  push rbp").count();
    let epilogues = lines.iter().filter(|l| l.as_str() == "  pop rbp").count();
    let rets = lines.iter().filter(|l| l.as_str() == "  ret").count();
    assert_eq!(prologues, 2);
    assert!(epilogues >= 2);
    assert_eq!(rets, 2);
}

// Re-emitting from the same TAC yields byte-identical assembly.
#[test]
fn reemit_identical() {
    let src = "main(){int a; a=3; if (a < 4) a = a + 1; return a;}";
    let first = compile(src).unwrap();
    let second = compile(src).unwrap();
    assert_eq!(first, second);

    let code = lower(" main() {1 + 1;} ");
    let mut intervals = scan_interval(&code);
    let map = linear_reg_alloc(&mut intervals, 6).unwrap();
    let g1 = Generator::new(pool(), code.clone(), Frame { vreg_to_offset: vec![] });
    let g2 = Generator::new(pool(), code, Frame { vreg_to_offset: vec![] });
    assert_eq!(g1.gen_fn(map.clone()), g2.gen_fn(map));
}

// The binary-add scenario: allocation over the lowered TAC with eight
// registers.
#[test]
fn binary_add_allocation() {
    let code = lower(" main() {1 + 1;} ");
    let mut intervals = scan_interval(&code);
    intervals.sort_by_key(|i| i.start);
    assert_eq!(
        intervals.iter().map(|i| (i.vreg.id, i.start, i.end)).collect::<Vec<_>>(),
        vec![(0, 1, 3), (1, 2, 3), (2, 3, 3)]
    );
    let mut map = linear_reg_alloc(&mut intervals, 8).unwrap();
    map.sort_by(|a, b| a.0.id.cmp(&b.0.id));
    assert_eq!(map, vec![(vr(0), 0), (vr(1), 1), (vr(2), 0)]);
}

// The longer-operation scenario: five virtual registers, allocation with
// eight registers.
#[test]
fn longer_op_allocation() {
    let code = lower(" main() {1 + (2 + 3);} ");
    let mut intervals = scan_interval(&code);
    intervals.sort_by_key(|i| i.start);
    assert_eq!(
        intervals.iter().map(|i| (i.vreg.id, i.start, i.end)).collect::<Vec<_>>(),
        vec![(0, 1, 5), (1, 2, 4), (2, 3, 4), (3, 4, 5), (4, 5, 5)]
    );
    let mut map = linear_reg_alloc(&mut intervals, 8).unwrap();
    map.sort_by(|a, b| a.0.id.cmp(&b.0.id));
    assert_eq!(
        map,
        vec![(vr(0), 0), (vr(1), 1), (vr(2), 2), (vr(3), 1), (vr(4), 0)]
    );
}

// Division register care: with the divisor allocated to rdx, the division
// goes through the saved copy in rbx.
#[test]
fn division_register_care() {
    let code = vec![TAC::BinOpCode {
        dest: vr(2),
        left: vr(0),
        op: BinOp::Div,
        right: vr(1),
    }];
    let map = vec![(vr(0), 0), (vr(1), 2), (vr(2), 1)];
    let g = Generator::new(pool(), code, Frame { vreg_to_offset: vec![] });
    let lines = g.gen_fn(map);
    assert_eq!(
        lines,
        vec![
            "  mov rbx, rdx".to_string(),
            "  mov rax, rdi".to_string(),
            "  cqo".to_string(),
            "  idiv rbx".to_string(),
            "  mov rsi, rax".to_string(),
            "  mov rdx, rbx".to_string(),
        ]
    );
}

// A call pushes the argument registers, stages the prepared arguments
// through callee-saved temporaries, moves them into position, calls, pops in
// reverse order, and fetches the result from rax.
#[test]
fn call_preserves_args() {
    let code = vec![TAC::Call {
        fn_name: "g".to_string(),
        args: vec![vr(1), vr(0)],
        ret_reg: vr(2),
    }];
    let map = vec![(vr(0), 0), (vr(1), 1), (vr(2), 0)];
    let g = Generator::new(pool(), code, Frame { vreg_to_offset: vec![] });
    let lines = g.gen_fn(map);
    assert_eq!(
        lines,
        vec![
            "  push rdi".to_string(),
            "  push rsi".to_string(),
            "  push rdx".to_string(),
            "  push rcx".to_string(),
            "  push r8".to_string(),
            "  push r9".to_string(),
            "  mov rbx, rsi".to_string(),
            "  mov r12, rdi".to_string(),
            "  mov rdi, rbx".to_string(),
            "  mov rsi, r12".to_string(),
            "  call g".to_string(),
            "  pop r9".to_string(),
            "  pop r8".to_string(),
            "  pop rcx".to_string(),
            "  pop rdx".to_string(),
            "  pop rsi".to_string(),
            "  pop rdi".to_string(),
            "  mov rdi, rax".to_string(),
        ]
    );
}

// The pointer round trip: address-of, store through the pointer's slot,
// indirect load, return; the pointer is reloaded from its slot before the
// final load.
#[test]
fn pointer_round_trip() {
    let src = "main(){ int a; a=3; int *p; p=&a; return *p; }";
    let code = lower(src);
    assert!(code.iter().any(|t| matches!(t, TAC::AddrOf { .. })));
    assert!(code.iter().any(|t| matches!(t, TAC::Assign { .. })));
    assert!(code.iter().any(|t| matches!(t, TAC::LoadVar { .. })));
    assert!(code.iter().any(|t| matches!(t, TAC::Return { .. })));

    let lines = compile(src).unwrap();
    // Find the indirect load `mov X, [Y]` (not a frame access).
    let mut found = false;
    for (i, l) in lines.iter().enumerate() {
        if l.starts_with("  mov ") && l.ends_with("]") && l.contains(", [") && !l.contains("rbp") {
            let addr_reg = l[l.find(", [").unwrap() + 3..l.len() - 1].to_string();
            // The line before reloads that register from the pointer's slot.
            let prev = &lines[i - 1];
            assert!(prev.starts_with(&format!("  mov {}, [rbp - ", addr_reg)));
            found = true;
        }
    }
    assert!(found);
}

// Immediates render in decimal, negatives with a sign.
#[test]
fn immediate_rendering() {
    let code = vec![
        TAC::LoadImm { dest: vr(0), value: -5 },
        TAC::LoadImm { dest: vr(1), value: 2147483647 },
        TAC::LoadImm { dest: vr(2), value: 0 },
    ];
    let map = vec![(vr(0), 0), (vr(1), 1), (vr(2), 2)];
    let g = Generator::new(pool(), code, Frame { vreg_to_offset: vec![] });
    let lines = g.gen_fn(map);
    assert_eq!(
        lines,
        vec![
            "  mov rdi, -5".to_string(),
            "  mov rsi, 2147483647".to_string(),
            "  mov rdx, 0".to_string(),
        ]
    );
}

// Comparisons set al and zero-extend; control flow uses the labeled forms.
#[test]
fn while_loop_shape() {
    let lines = compile("main(){int i; i=0; while (i < 3) i = i + 1; return i;}").unwrap();
    assert!(lines.contains(&".Lbegin0:".to_string()));
    assert!(lines.contains(&".Lend1:".to_string()));
    assert!(lines.contains(&"  je .Lend1".to_string()));
    assert!(lines.contains(&"  jmp .Lbegin0".to_string()));
    assert!(lines.iter().any(|l| l.as_str() == "  setl al"));
    assert!(lines.iter().any(|l| l.starts_with("  movzb ")));
}

// An if with an else uses a distinct else label and end label.
#[test]
fn if_else_labels() {
    let lines = compile("main(){int a; a=1; if (a==1) a=2; else a=3; return a;}").unwrap();
    assert!(lines.contains(&"  je .Lelse0".to_string()));
    assert!(lines.contains(&".Lelse0:".to_string()));
    assert!(lines.contains(&"  jmp .Lend1".to_string()));
    assert!(lines.contains(&".Lend1:".to_string()));
    assert!(lines.iter().any(|l| l.as_str() == "  sete al"));
}

// A for loop carries the while shape with the update between body and
// back-edge.
#[test]
fn for_loop_shape() {
    let lines =
        compile("main(){int i; int s; s=0; for (i=0; i<3; i=i+1) s=s+i; return s;}").unwrap();
    assert!(lines.contains(&".Lbegin0:".to_string()));
    assert!(lines.contains(&"  je .Lend1".to_string()));
    assert!(lines.contains(&"  jmp .Lbegin0".to_string()));
    assert!(lines.contains(&".Lend1:".to_string()));
}

// `a > b` lowers as `b < a`: the operands swap and the operator narrows to
// the less-than form.
#[test]
fn relational_swap() {
    let code = lower(" main() {2 > 1;} ");
    assert_eq!(
        code,
        vec![
            TAC::Fn { fn_name: "main".to_string(), params: vec![] },
            TAC::LoadImm { dest: vr(0), value: 1 },
            TAC::LoadImm { dest: vr(1), value: 2 },
            TAC::BinOpCode { dest: vr(2), left: vr(0), op: BinOp::Lt, right: vr(1) },
        ]
    );
}

// A negative literal is written `0 - n` for the time being.
#[test]
fn unary_minus() {
    let code = lower(" main() {-5;} ");
    assert_eq!(
        code,
        vec![
            TAC::Fn { fn_name: "main".to_string(), params: vec![] },
            TAC::LoadImm { dest: vr(0), value: 0 },
            TAC::LoadImm { dest: vr(1), value: 5 },
            TAC::BinOpCode { dest: vr(2), left: vr(0), op: BinOp::Sub, right: vr(1) },
        ]
    );
}

// A store through two levels of indirection loads one level and stores
// through the last.
#[test]
fn double_indirection() {
    let src = "main(){ int a; a=1; int *p; p=&a; int **q; q=&p; **q=7; return a; }";
    let code = lower(src);
    assert!(code.iter().any(|t| matches!(t, TAC::Store { .. })));
    assert!(code.iter().any(|t| matches!(t, TAC::LoadVar { .. })));
    assert!(compile(src).is_ok());
}

// Labels are unique within a function: every label-definition line of a
// function with nested control flow appears exactly once.
#[test]
fn labels_unique_within_function() {
    let src = "main(){int i; int s; s=0; for (i=0; i<3; i=i+1) { if (s == 2) s = s + 2; else s = s + 1; while (s > 9) s = s - 1; } return s;}";
    let lines = compile(src).unwrap();
    let defs: Vec<&String> = lines.iter().filter(|l| l.starts_with(".L")).collect();
    for a in 0..defs.len() {
        for b in (a + 1)..defs.len() {
            assert_ne!(defs[a], defs[b]);
        }
    }
    assert!(defs.len() >= 6);
}

// The per-function pipeline produces exactly the lines that follow the
// preamble, function by function.
#[test]
fn compile_fn_matches_compile() {
    let src = "one(){return 1;} main(){return one();}";
    let mut tokenizer = Tokenizer::new(src);
    let tok_vec = tokenizer.tokenize().unwrap();
    let mut parser = Parser::new(TokenStream::new(tok_vec, src));
    let mut per_fn: Vec<String> = Vec::new();
    while !parser.tokens.is_eof() {
        let node = parser.defun().unwrap();
        per_fn.extend(nonicc::driver::compile_fn(&node).unwrap());
    }
    let whole = compile(src).unwrap();
    assert_eq!(&whole[2..], &per_fn[..]);
}

// An argument list beyond the six argument-passing registers is its own
// failure kind.
#[test]
fn error_too_many_arguments() {
    let src = "g(a,b,c,d,e,f,h){return a;} main(){return g(1,2,3,4,5,6,7);}";
    let e = compile(src).unwrap_err();
    assert_eq!(e.msg, "too many call arguments");
}

// Error cases: each rejected input names its stage.
#[test]
fn error_cannot_tokenize() {
    let e = compile("main(){ @ }").unwrap_err();
    // The diagnostic points at the offending character.
    assert_eq!(e.pos, 8);
}

#[test]
fn error_missing_semicolon() {
    assert!(compile("main(){1}").is_err());
}

#[test]
fn error_undefined_call() {
    assert!(compile("main(){foo(1);}").is_err());
}

#[test]
fn error_unassignable_left_value() {
    assert!(compile("main(){1=2;}").is_err());
}

#[test]
fn error_literal_too_large() {
    assert!(compile("main(){return 99999999999;}").is_err());
}

#[test]
fn error_duplicate_function() {
    assert!(compile("f(){return 1;} f(){return 2;}").is_err());
}
