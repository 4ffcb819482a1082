use nonicc::ir::types_ir::{BinOp, ThreeAddressCode as TAC, VirtualReg};
use nonicc::reg_alloc::interval_analysis::{scan_interval, Interval};
use nonicc::reg_alloc::register_allocation::linear_reg_alloc;

#[test]
fn test_scan_imm_interval() {
    let ir = vec![
        TAC::LoadImm { dest: VirtualReg { id: 0 }, value: 1 },
        TAC::LoadImm { dest: VirtualReg { id: 1 }, value: 2 },
    ];

    let mut intervals = scan_interval(&ir);
    intervals.sort_by_key(|i| i.start);

    let expected = vec![
        Interval { vreg: VirtualReg { id: 0 }, start: 0, end: 0, reg: None },
        Interval { vreg: VirtualReg { id: 1 }, start: 1, end: 1, reg: None },
    ];
    assert_eq!(intervals, expected);
}

#[test]
fn test_scan_adding_interval() {
    let ir = vec![
        TAC::LoadImm { dest: VirtualReg { id: 0 }, value: 1 },
        TAC::LoadImm { dest: VirtualReg { id: 1 }, value: 1 },
        TAC::BinOpCode {
            dest: VirtualReg { id: 2 },
            left: VirtualReg { id: 0 },
            op: BinOp::Add,
            right: VirtualReg { id: 1 },
        },
    ];

    let mut intervals = scan_interval(&ir);
    intervals.sort_by_key(|i| i.start);

    let expected = vec![
        Interval { vreg: VirtualReg { id: 0 }, start: 0, end: 2, reg: None },
        Interval { vreg: VirtualReg { id: 1 }, start: 1, end: 2, reg: None },
        Interval { vreg: VirtualReg { id: 2 }, start: 2, end: 2, reg: None },
    ];

    assert_eq!(intervals, expected);
}

// Example: 1 + 1;
#[test]
fn test_alloc_binop() {
    let mut intervals = vec![
        Interval { vreg: VirtualReg { id: 0 }, start: 0, end: 2, reg: None },
        Interval { vreg: VirtualReg { id: 1 }, start: 1, end: 2, reg: None },
        Interval { vreg: VirtualReg { id: 2 }, start: 2, end: 2, reg: None },
    ];

    let mut result: Vec<(VirtualReg, usize)> = linear_reg_alloc(&mut intervals, 8).unwrap();
    result.sort_by(|a, b| a.0.id.cmp(&b.0.id));

    let expected = vec![
        (VirtualReg { id: 0 }, 0),
        (VirtualReg { id: 1 }, 1),
        (VirtualReg { id: 2 }, 0),
    ];

    assert_eq!(result, expected);
}

// Example: 1 + (2 + 3);
#[test]
fn test_alloc_longer_op() {
    let mut intervals = vec![
        Interval { vreg: VirtualReg { id: 0 }, start: 0, end: 4, reg: None },
        Interval { vreg: VirtualReg { id: 1 }, start: 1, end: 3, reg: None },
        Interval { vreg: VirtualReg { id: 2 }, start: 2, end: 3, reg: None },
        Interval { vreg: VirtualReg { id: 3 }, start: 3, end: 4, reg: None },
        Interval { vreg: VirtualReg { id: 4 }, start: 4, end: 4, reg: None },
    ];

    let mut result: Vec<(VirtualReg, usize)> = linear_reg_alloc(&mut intervals, 8).unwrap();
    result.sort_by(|a, b| a.0.id.cmp(&b.0.id));

    let expected = vec![
        (VirtualReg { id: 0 }, 0),
        (VirtualReg { id: 1 }, 1),
        (VirtualReg { id: 2 }, 2),
        (VirtualReg { id: 3 }, 1),
        (VirtualReg { id: 4 }, 0),
    ];

    assert_eq!(result, expected);
}

// An immediate sequence: the first interval ends exactly where the second
// starts, so it is retired and its register is reused.
#[test]
fn alloc_imm_sequence() {
    let ir = vec![
        TAC::LoadImm { dest: VirtualReg { id: 0 }, value: 1 },
        TAC::LoadImm { dest: VirtualReg { id: 1 }, value: 2 },
    ];
    let mut intervals = scan_interval(&ir);
    let mut result = linear_reg_alloc(&mut intervals, 2).unwrap();
    result.sort_by(|a, b| a.0.id.cmp(&b.0.id));
    assert_eq!(result, vec![(VirtualReg { id: 0 }, 0), (VirtualReg { id: 1 }, 0)]);
}

// Exactly as many simultaneously live values as registers succeeds; one more
// fails with the spill error.
#[test]
fn alloc_full_pool_succeeds_overfull_fails() {
    let mut two_live = vec![
        Interval { vreg: VirtualReg { id: 0 }, start: 0, end: 5, reg: None },
        Interval { vreg: VirtualReg { id: 1 }, start: 1, end: 5, reg: None },
    ];
    let ok = linear_reg_alloc(&mut two_live, 2);
    assert!(ok.is_ok());

    let mut three_live = vec![
        Interval { vreg: VirtualReg { id: 0 }, start: 0, end: 5, reg: None },
        Interval { vreg: VirtualReg { id: 1 }, start: 1, end: 5, reg: None },
        Interval { vreg: VirtualReg { id: 2 }, start: 2, end: 5, reg: None },
    ];
    let err = linear_reg_alloc(&mut three_live, 2);
    assert!(err.is_err());
    assert_eq!(err.unwrap_err().message(), "no handle for spill");
}

// A tie on start is broken deterministically by input order after the sort.
#[test]
fn alloc_tie_broken_by_input_order() {
    let mut intervals = vec![
        Interval { vreg: VirtualReg { id: 7 }, start: 2, end: 4, reg: None },
        Interval { vreg: VirtualReg { id: 3 }, start: 2, end: 5, reg: None },
    ];
    let result = linear_reg_alloc(&mut intervals, 8).unwrap();
    // The first entry of the input keeps its place and takes the lower index.
    assert_eq!(result, vec![(VirtualReg { id: 7 }, 0), (VirtualReg { id: 3 }, 1)]);
}

// Re-running the allocator with the same intervals and register count yields
// the same mapping.
#[test]
fn alloc_rerun_same_mapping() {
    let intervals = vec![
        Interval { vreg: VirtualReg { id: 0 }, start: 0, end: 4, reg: None },
        Interval { vreg: VirtualReg { id: 1 }, start: 1, end: 3, reg: None },
        Interval { vreg: VirtualReg { id: 2 }, start: 2, end: 3, reg: None },
    ];
    let mut first = intervals.clone();
    let mut second = intervals.clone();
    let a = linear_reg_alloc(&mut first, 8).unwrap();
    let b = linear_reg_alloc(&mut second, 8).unwrap();
    assert_eq!(a, b);
    assert_eq!(first, second);
}

// No two overlapping intervals receive the same physical register.
#[test]
fn alloc_no_overlap_shares_register() {
    let mut intervals = vec![
        Interval { vreg: VirtualReg { id: 0 }, start: 0, end: 3, reg: None },
        Interval { vreg: VirtualReg { id: 1 }, start: 1, end: 4, reg: None },
        Interval { vreg: VirtualReg { id: 2 }, start: 2, end: 6, reg: None },
        Interval { vreg: VirtualReg { id: 3 }, start: 3, end: 6, reg: None },
        Interval { vreg: VirtualReg { id: 4 }, start: 5, end: 7, reg: None },
    ];
    linear_reg_alloc(&mut intervals, 6).unwrap();
    for a in intervals.iter() {
        for b in intervals.iter() {
            if a.vreg != b.vreg && a.start < b.end && b.start < a.end {
                assert_ne!(a.reg.unwrap(), b.reg.unwrap());
            }
        }
    }
}
