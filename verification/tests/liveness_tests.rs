use std::collections::HashSet;

use rlang::liveness::build_liveness_set;
use rlang::liveness::build_liveness_set_for_block;
use rlang::liveness::check_jumps_resolve;
use rlang::liveness::find_block;
use rlang::liveness::LiveSet;
use rlang::x64_def::Arg;
use rlang::x64_def::Block;
use rlang::x64_def::Instr;
use rlang::x64_def::LabelBlockPair;
use rlang::x64_def::Reg;

fn set(args: Vec<Arg>) -> HashSet<Arg> {
    args.into_iter().collect()
}

fn sets(ls: &Vec<LiveSet>) -> Vec<HashSet<Arg>> {
    ls.iter()
        .map(|live| {
            let items = live.to_vec();
            assert_eq!(items.len(), live.len());
            for item in &items {
                assert!(live.contains(item));
            }
            items.into_iter().collect()
        })
        .collect()
}

fn all_sets(all: &Vec<(String, Vec<LiveSet>)>) -> Vec<(String, Vec<HashSet<Arg>>)> {
    all.iter().map(|(label, ls)| (label.clone(), sets(ls))).collect()
}

fn block(label: &str, instr: Vec<Instr>) -> LabelBlockPair {
    LabelBlockPair { label: label.to_owned(), block: Block { info: (), instr } }
}

#[test]
fn x64_build_liveness_set_for_block_one_var() {
    let v_var = Arg::Var("v.1".to_owned());
    let rax = Arg::Reg(Reg::Rax);

    let instr: Vec<Instr> = vec![
        Instr::Mov64(v_var.clone(), Arg::Imm(1)),
        Instr::Mov64(rax.clone(), v_var.clone()),
        Instr::Add64(rax.clone(), Arg::Imm(6)),
        Instr::Ret,
        // {}
    ];

    let expected: Vec<HashSet<Arg>> = vec![set(vec![]), set(vec![v_var]), set(vec![rax]), set(vec![])];

    // no jump instructions in this block
    let (ls, jumps) = build_liveness_set_for_block(&instr);

    assert_eq!(sets(&ls), expected);
    assert!(jumps.is_empty());
}

#[test]
fn x64_build_liveness_set_read_test() {
    let v_var = Arg::Var("v.1".to_owned());
    let rax = Arg::Reg(Reg::Rax);

    let instr: Vec<Instr> = vec![
        Instr::Mov64(v_var.clone(), Arg::Imm(1)),
        Instr::Add64(v_var.clone(), Arg::Imm(23)),
        Instr::Add64(v_var.clone(), Arg::Imm(6)),
        Instr::Mov64(rax.clone(), v_var.clone()),
        Instr::Jmp(".conclusion".to_owned()),
        // {}
    ];

    let expected: Vec<HashSet<Arg>> = vec![
        set(vec![]),
        set(vec![v_var.clone()]),
        set(vec![v_var.clone()]),
        set(vec![v_var.clone()]),
        set(vec![]),
    ];

    let (ls, jumps) = build_liveness_set_for_block(&instr);

    assert_eq!(sets(&ls), expected);
    assert_eq!(jumps, vec![(4, ".conclusion".to_owned())]);
}

#[test]
fn x64_build_liveness_set_for_block_six_vars() {
    let v_var = Arg::Var("v.1".to_owned());
    let w_var = Arg::Var("w.1".to_owned());
    let x_var = Arg::Var("x.1".to_owned());
    let y_var = Arg::Var("y.1".to_owned());
    let z_var = Arg::Var("z.1".to_owned());
    let t_var = Arg::Var("t.1".to_owned());
    let rax = Arg::Reg(Reg::Rax);
    let conclusion = ".conclusion".to_owned();

    let instr: Vec<Instr> = vec![
        Instr::Mov64(v_var.clone(), Arg::Imm(1)),
        // {v}
        Instr::Mov64(w_var.clone(), Arg::Imm(42)),
        // {v, w}
        Instr::Mov64(x_var.clone(), v_var.clone()),
        // {w, x}
        Instr::Add64(x_var.clone(), Arg::Imm(7)),
        // {w, x}
        Instr::Mov64(y_var.clone(), x_var.clone()),
        // {w, x, y}
        Instr::Mov64(z_var.clone(), x_var.clone()),
        // {w, y, z}
        Instr::Add64(z_var.clone(), w_var.clone()),
        // {y, z}
        Instr::Mov64(t_var.clone(), y_var.clone()),
        // {t, z}
        Instr::Neg64(t_var.clone()),
        // {t, z}
        Instr::Mov64(rax.clone(), z_var.clone()),
        // {t}
        Instr::Add64(rax.clone(), t_var.clone()),
        // {}
        Instr::Jmp(conclusion),
    ];

    let expected: Vec<HashSet<Arg>> = vec![
        set(vec![]),
        set(vec![v_var.clone()]),
        set(vec![v_var.clone(), w_var.clone()]),
        set(vec![w_var.clone(), x_var.clone()]),
        set(vec![w_var.clone(), x_var.clone()]),
        set(vec![w_var.clone(), x_var.clone(), y_var.clone()]),
        set(vec![w_var.clone(), y_var.clone(), z_var.clone()]),
        set(vec![y_var.clone(), z_var.clone()]),
        set(vec![t_var.clone(), z_var.clone()]),
        set(vec![t_var.clone(), z_var.clone()]),
        set(vec![t_var.clone(), rax]),
        set(vec![]),
    ];

    let (ls, _) = build_liveness_set_for_block(&instr);

    assert_eq!(sets(&ls), expected);
}

#[test]
fn x64_build_liveness_set_one_label() {
    let l1 = ".l1".to_owned();

    let v_var = Arg::Var("v.1".to_owned());
    let rax = Arg::Reg(Reg::Rax);

    let lbp = vec![LabelBlockPair {
        label: l1.clone(),
        block: Block {
            info: (),
            instr: vec![
                Instr::Mov64(v_var.clone(), Arg::Imm(1)),
                Instr::Mov64(rax.clone(), v_var.clone()),
                Instr::Add64(rax.clone(), Arg::Imm(6)),
                Instr::Ret,
                // {}
            ],
        },
    }];

    let expected = vec![(
        l1.clone(),
        vec![set(vec![]), set(vec![v_var]), set(vec![rax]), set(vec![])],
    )];

    let result = build_liveness_set(&lbp);

    assert_eq!(all_sets(&result), expected);
}

#[test]
fn x64_build_liveness_set_two_labels() {
    let l1 = ".l1".to_owned();
    let l2 = ".l2".to_owned();

    let v_var = Arg::Var("v.1".to_owned());
    let w_var = Arg::Var("w.1".to_owned());
    let t_var = Arg::Var("t.1".to_owned());

    let rax = Arg::Reg(Reg::Rax);

    let lbps = vec![
        LabelBlockPair {
            label: l1.clone(),
            block: Block {
                info: (),
                instr: vec![
                    Instr::Mov64(t_var.clone(), Arg::Imm(230)),
                    Instr::Mov64(v_var.clone(), Arg::Imm(1)),
                    Instr::Jmp(l2.clone()),
                    Instr::Neg64(v_var.clone()),
                    Instr::Add64(v_var.clone(), Arg::Imm(6)),
                    Instr::Add64(t_var.clone(), v_var.clone()),
                ],
            },
        },
        LabelBlockPair {
            label: l2.clone(),
            block: Block {
                info: (),
                instr: vec![
                    Instr::Mov64(w_var.clone(), Arg::Imm(200)),
                    Instr::Add64(w_var.clone(), t_var.clone()),
                    Instr::Neg64(w_var.clone()),
                    Instr::Mov64(rax.clone(), w_var.clone()),
                    Instr::Add64(rax.clone(), t_var.clone()),
                    Instr::Ret,
                ],
            },
        },
    ];

    let expected = vec![
        (
            l1.clone(),
            vec![
                set(vec![]),
                set(vec![t_var.clone()]),
                // below is the jump instruction
                // its liveness set should be that of the first
                // instruction in the target block/label
                set(vec![t_var.clone()]),
                set(vec![v_var.clone(), t_var.clone()]),
                set(vec![v_var.clone(), t_var.clone()]),
                set(vec![v_var.clone(), t_var.clone()]),
            ],
        ),
        (
            l2.clone(),
            vec![
                set(vec![t_var.clone()]),
                set(vec![w_var.clone(), t_var.clone()]),
                set(vec![w_var.clone(), t_var.clone()]),
                set(vec![w_var.clone(), t_var.clone()]),
                set(vec![rax, t_var]),
                set(vec![]),
            ],
        ),
    ];

    let result = build_liveness_set(&lbps);

    assert_eq!(all_sets(&result), expected);
}

#[test]
fn x64_build_liveness_const_complete() {
    let rax = Arg::Reg(Reg::Rax);
    let rbp = Arg::Reg(Reg::Rbp);
    let rsp = Arg::Reg(Reg::Rsp);

    let prelude = ".prelude".to_owned();
    let l1 = ".l1".to_owned();
    let conclusion = ".conclusion".to_owned();

    let lbps = vec![
        LabelBlockPair {
            label: prelude.clone(),
            block: Block {
                info: (),
                instr: vec![
                    Instr::Push(rbp.clone()),
                    Instr::Mov64(rbp.clone(), rsp.clone()),
                    Instr::Jmp(l1.clone()),
                ],
            },
        },
        LabelBlockPair {
            label: l1.clone(),
            block: Block {
                info: (),
                instr: vec![
                    Instr::Mov64(rax.clone(), Arg::Imm(2)),
                    Instr::Jmp(conclusion.clone()),
                ],
            },
        },
        LabelBlockPair {
            label: conclusion.clone(),
            block: Block {
                info: (),
                instr: vec![
                    Instr::Mov64(rsp.clone(), rbp.clone()),
                    Instr::Pop(rbp.clone()),
                    Instr::Ret,
                ],
            },
        },
    ];

    // each block is taken alone; a jump then gets what is live before the
    // first instruction of the block it jumps to
    let expected = vec![
        (prelude.clone(), vec![set(vec![rsp.clone()]), set(vec![rsp.clone()]), set(vec![])]),
        (l1.clone(), vec![set(vec![]), set(vec![rbp.clone()])]),
        (conclusion.clone(), vec![set(vec![rbp]), set(vec![]), set(vec![])]),
    ];

    let result = build_liveness_set(&lbps);

    assert_eq!(all_sets(&result), expected);
    assert!(!result[1].1[1].contains(&rax));
}

#[test]
fn liveness_ignores_immediates_and_memory_operands() {
    let instr = vec![
        Instr::Mov64(Arg::Deref(Reg::Rbp, -8), Arg::Imm(1)),
        Instr::Add64(Arg::Reg(Reg::Rbx), Arg::Deref(Reg::Rbp, -8)),
        Instr::Sub64(Arg::Reg(Reg::Rcx), Arg::Reg(Reg::Rdx)),
        Instr::Push(Arg::Reg(Reg::Rsi)),
        Instr::Call("read_int".to_owned(), 0),
    ];
    let (ls, _) = build_liveness_set_for_block(&instr);
    let rbx = set(vec![Arg::Reg(Reg::Rbx)]);
    assert_eq!(sets(&ls), vec![rbx.clone(), rbx, set(vec![]), set(vec![]), set(vec![])]);
}

#[test]
fn liveness_reads_are_live_before_their_instruction() {
    let a = Arg::Var("a".to_owned());
    let b = Arg::Var("b".to_owned());
    let instr = vec![
        Instr::Mov64(a.clone(), b.clone()),
        Instr::Add64(a.clone(), b.clone()),
        Instr::Neg64(b.clone()),
    ];
    let (ls, _) = build_liveness_set_for_block(&instr);
    assert!(ls[0].contains(&b) && !ls[0].contains(&a));
    assert!(ls[1].contains(&a) && ls[1].contains(&b));
    assert!(ls[2].contains(&b) && !ls[2].contains(&a));
    assert_eq!(ls[1].len(), 2);
}

#[test]
fn liveness_jumps_are_listed_last_first() {
    let instr = vec![
        Instr::Jmp("a".to_owned()),
        Instr::Ret,
        Instr::Jmp("b".to_owned()),
    ];
    let (_, jumps) = build_liveness_set_for_block(&instr);
    assert_eq!(jumps, vec![(2, "b".to_owned()), (0, "a".to_owned())]);
}

#[test]
fn liveness_jump_targets_must_be_there() {
    let lonely = vec![block("a", vec![Instr::Jmp("b".to_owned())])];
    assert!(!check_jumps_resolve(&lonely));
    let empty_target = vec![block("a", vec![Instr::Jmp("b".to_owned())]), block("b", vec![])];
    assert!(!check_jumps_resolve(&empty_target));
    let fine = vec![block("a", vec![Instr::Jmp("b".to_owned())]), block("b", vec![Instr::Ret])];
    assert!(check_jumps_resolve(&fine));
    assert_eq!(find_block(&fine, &"b".to_owned()), Some(1));
    assert_eq!(find_block(&fine, &"c".to_owned()), None);
}

#[test]
fn live_set_is_a_set() {
    let mut live = LiveSet::new();
    assert_eq!(live.len(), 0);
    live.insert(Arg::Reg(Reg::Rax));
    live.insert(Arg::Var("x".to_owned()));
    live.insert(Arg::Reg(Reg::Rax));
    assert_eq!(live.len(), 2);
    live.remove(&Arg::Reg(Reg::Rbx));
    assert_eq!(live.len(), 2);
    live.remove(&Arg::Reg(Reg::Rax));
    assert_eq!(live.to_vec(), vec![Arg::Var("x".to_owned())]);
    let copy = live.clone();
    live.remove(&Arg::Var("x".to_owned()));
    assert!(copy.contains(&Arg::Var("x".to_owned())));
    assert!(!live.contains(&Arg::Var("x".to_owned())));
}

#[test]
fn liveness_written_operands_were_live_before() {
    let a = Arg::Var("a".to_owned());
    let b = Arg::Var("b".to_owned());
    let rax = Arg::Reg(Reg::Rax);
    // no instruction overwrites, without reading it, what the next one changes in place
    let instr = vec![
        Instr::Neg64(a.clone()),
        Instr::Add64(a.clone(), b.clone()),
        Instr::Neg64(a.clone()),
        Instr::Mov64(rax.clone(), a.clone()),
        Instr::Add64(rax.clone(), b.clone()),
        Instr::Ret,
    ];
    let written: Vec<Option<Arg>> = vec![
        Some(a.clone()),
        Some(a.clone()),
        Some(a.clone()),
        Some(rax.clone()),
        Some(rax.clone()),
        None,
    ];
    let (ls, _) = build_liveness_set_for_block(&instr);
    for k in 1..instr.len() {
        if let Some(w) = &written[k] {
            if ls[k].contains(w) {
                assert!(ls[k - 1].contains(w) || *w == rax);
            }
        }
    }
    assert!(ls[4].contains(&rax) && !ls[3].contains(&rax));
}
