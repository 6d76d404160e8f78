use codegen_clr::assembly::{Assembly, BranchCond, CILNode, CILRoot};
use codegen_clr::basic_block::{BasicBlock, V1Block};

#[test]
fn is_direct_jump() {
    let assembly = &mut Assembly::default();
    let block = BasicBlock::new(vec![], 0, None);
    // A Block which is empty is not a direwct jump anywhere.'
    assert!(block.is_direct_jump(assembly).is_none());
}

#[test]
fn is_only_rethrow() {
    let assembly = &mut Assembly::default();
    let block = BasicBlock::new(vec![], 0, None);
    // A Block which is empty is not a rethrow.
    assert!(!block.is_only_rethrow(assembly));
    let rethrow = assembly.alloc_root(CILRoot::ReThrow);
    let block = BasicBlock::new(vec![rethrow], 0, None);
    // A Block which is just a rethrow is, well, a rethrow.
    assert!(block.is_only_rethrow(assembly));
    let dbg_break = assembly.alloc_root(CILRoot::Break);
    let block = BasicBlock::new(vec![dbg_break, rethrow], 0, None);
    // A dbg break has side effects, this should return false
    assert!(!block.is_only_rethrow(assembly));
    let dbg_break = assembly.alloc_root(CILRoot::Break);
    let block = BasicBlock::new(vec![rethrow, dbg_break], 0, None);
    // A dbf break has side effects, this should return false
    assert!(!block.is_only_rethrow(assembly));
}

fn branch(target: u32) -> CILRoot {
    CILRoot::Branch { target, sub_target: 0, cond: None }
}

#[test]
fn direct_jump_after_nop() {
    let assembly = &mut Assembly::default();
    let nop = assembly.alloc_root(CILRoot::Nop);
    let jump = assembly.alloc_root(branch(7));
    let block = BasicBlock::new(vec![nop, jump], 1, None);
    assert_eq!(block.is_direct_jump(assembly), Some((7, 0)));
}

#[test]
fn direct_jump_after_source_info() {
    let assembly = &mut Assembly::default();
    let info = assembly.alloc_root(CILRoot::SourceFileInfo { line: 3, column: 9 });
    let jump = assembly.alloc_root(branch(4));
    let block = BasicBlock::new(vec![info, jump], 1, None);
    assert_eq!(block.is_direct_jump(assembly), Some((4, 0)));
}

#[test]
fn no_direct_jump_after_break() {
    let assembly = &mut Assembly::default();
    let brk = assembly.alloc_root(CILRoot::Break);
    let jump = assembly.alloc_root(branch(7));
    let block = BasicBlock::new(vec![brk, jump], 1, None);
    assert_eq!(block.is_direct_jump(assembly), None);
}

#[test]
fn no_direct_jump_when_conditional() {
    let assembly = &mut Assembly::default();
    let cond = assembly.alloc_node(CILNode::LdFalse);
    let jump = assembly.alloc_root(CILRoot::Branch { target: 2, sub_target: 0, cond: Some(BranchCond::True(cond)) });
    let block = BasicBlock::new(vec![jump], 1, None);
    assert_eq!(block.is_direct_jump(assembly), None);
}

#[test]
fn handler_statements_count_for_jump() {
    let assembly = &mut Assembly::default();
    let jump = assembly.alloc_root(branch(3));
    let rethrow = assembly.alloc_root(CILRoot::ReThrow);
    let handler = vec![BasicBlock::new(vec![rethrow], 2, None)];
    let block = BasicBlock::new(vec![jump], 1, Some(handler));
    assert_eq!(block.is_direct_jump(assembly), None);
}

#[test]
fn interning_is_canonical() {
    let assembly = &mut Assembly::default();
    let a = assembly.alloc_root(branch(5));
    let b = assembly.alloc_root(CILRoot::Nop);
    let c = assembly.alloc_root(branch(5));
    assert_eq!(a, c);
    assert_ne!(a, b);
    assert_eq!(*assembly.get_root(a), branch(5));
    let n1 = assembly.alloc_node(CILNode::LdLoc(1));
    let n2 = assembly.alloc_node(CILNode::LdLoc(2));
    let n3 = assembly.alloc_node(CILNode::LdLoc(1));
    assert_eq!(n1, n3);
    assert_ne!(n1, n2);
    assert_eq!(*assembly.get_node(n2), CILNode::LdLoc(2));
}

#[test]
fn traversal_counts_nested_handlers() {
    let assembly = &mut Assembly::default();
    let r: Vec<_> = (0..6u32).map(|i| assembly.alloc_root(CILRoot::SourceFileInfo { line: i, column: 0 })).collect();
    let inner = vec![BasicBlock::new(vec![r[4], r[5]], 4, None)];
    let handler = vec![
        BasicBlock::new(vec![r[2]], 2, Some(inner)),
        BasicBlock::new(vec![r[3]], 3, None),
    ];
    let block = BasicBlock::new(vec![r[0], r[1]], 1, Some(handler));
    let all = block.iter_roots();
    assert_eq!(all.len(), 2 + 4);
    assert_eq!(all, vec![r[0], r[1], r[2], r[4], r[5], r[3]]);
    assert!(block.meaningfull_roots(assembly).is_empty());
}

#[test]
fn remove_handler_detaches_region() {
    let assembly = &mut Assembly::default();
    let a = assembly.alloc_root(CILRoot::Nop);
    let b = assembly.alloc_root(CILRoot::ReThrow);
    let mut block = BasicBlock::new(vec![a], 9, Some(vec![BasicBlock::new(vec![b], 10, None)]));
    assert!(block.handler().is_some());
    assert!(block.is_only_rethrow(assembly));
    block.remove_handler();
    assert!(block.handler().is_none());
    assert_eq!(block.iter_roots(), vec![a]);
    assert_eq!(block.block_id(), 9);
    assert!(!block.is_only_rethrow(assembly));
}

#[test]
fn roots_mut_rewrites_own_list() {
    let assembly = &mut Assembly::default();
    let a = assembly.alloc_root(CILRoot::Nop);
    let b = assembly.alloc_root(CILRoot::Break);
    let mut block = BasicBlock::new(vec![a], 0, None);
    block.roots_mut().push(b);
    assert_eq!(block.roots(), &[a, b]);
    if let (None, roots) = block.handler_and_root_mut() {
        roots.clear();
    }
    assert!(block.roots().is_empty());
    assert!(block.handler_mut().is_none());
}

#[test]
fn map_roots_rewrites_every_statement() {
    let assembly = &mut Assembly::default();
    let brk = assembly.alloc_root(CILRoot::Break);
    let nop = assembly.alloc_root(CILRoot::Nop);
    let inner = vec![BasicBlock::new(vec![brk], 2, None)];
    let mut block = BasicBlock::new(vec![brk, nop], 1, Some(inner));
    let to_nop = |r: CILRoot| if r == CILRoot::Break { CILRoot::Nop } else { r };
    block.map_roots(assembly, &to_nop, &|n: CILNode| n);
    assert_eq!(block.iter_roots(), vec![nop, nop, nop]);
    assert_eq!(block.block_id(), 1);
    assert_eq!(block.handler().map(|h| h.len()), Some(1));
}

#[test]
fn from_v1_interns_statements() {
    let assembly = &mut Assembly::default();
    let existing = assembly.alloc_root(CILRoot::ReThrow);
    let v1 = V1Block {
        trees: vec![CILRoot::Nop, CILRoot::ReThrow],
        id: 5,
        handler: Some(vec![V1Block { trees: vec![CILRoot::Break], id: 6, handler: None }]),
    };
    let block = BasicBlock::from_v1(&v1, assembly);
    assert_eq!(block.block_id(), 5);
    let all = block.iter_roots();
    assert_eq!(all.len(), 3);
    assert_eq!(all[1], existing);
    assert_eq!(*assembly.get_root(all[0]), CILRoot::Nop);
    assert_eq!(*assembly.get_root(all[2]), CILRoot::Break);
    assert_eq!(block.handler().unwrap()[0].block_id(), 6);
}

#[test]
fn identity_map_keeps_handles() {
    let assembly = &mut Assembly::default();
    let a = assembly.alloc_root(CILRoot::Break);
    let b = assembly.alloc_root(CILRoot::ReThrow);
    let mut block = BasicBlock::new(vec![a], 3, Some(vec![BasicBlock::new(vec![b, a], 4, None)]));
    block.map_roots(assembly, &|r: CILRoot| r, &|n: CILNode| n);
    assert_eq!(block.iter_roots(), vec![a, b, a]);
    assert_eq!(block.handler().unwrap()[0].block_id(), 4);
}

#[test]
fn map_roots_rewrites_nodes_under_statements() {
    let assembly = &mut Assembly::default();
    let one = assembly.alloc_node(CILNode::LdLoc(1));
    let neg = assembly.alloc_node(CILNode::Neg(one));
    let pop = assembly.alloc_root(CILRoot::Pop(neg));
    let mut block = BasicBlock::new(vec![pop], 0, None);
    let renumber = |n: CILNode| if n == CILNode::LdLoc(1) { CILNode::LdLoc(2) } else { n };
    block.map_roots(assembly, &|r: CILRoot| r, &renumber);
    let roots = block.iter_roots();
    assert_eq!(roots.len(), 1);
    assert_ne!(roots[0], pop);
    let new_neg = match *assembly.get_root(roots[0]) {
        CILRoot::Pop(n) => n,
        other => panic!("unexpected {other:?}"),
    };
    let new_one = match *assembly.get_node(new_neg) {
        CILNode::Neg(n) => n,
        other => panic!("unexpected {other:?}"),
    };
    assert_eq!(*assembly.get_node(new_one), CILNode::LdLoc(2));
    let two = assembly.alloc_node(CILNode::LdLoc(2));
    assert_eq!(two, new_one);
}
