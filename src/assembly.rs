//! The arena that owns interned statements and instruction nodes.
use crate::cil_node::IndKind;
use vstd::prelude::*;

verus! {

/// A handle to an interned statement.
#[derive(Clone, Copy, Debug, PartialEq, Eq, Structural, Hash)]
pub struct RootIdx {
    idx: usize,
}

/// A handle to an interned instruction node.
#[derive(Clone, Copy, Debug, PartialEq, Eq, Structural, Hash)]
pub struct NodeIdx {
    idx: usize,
}

impl RootIdx {
    pub closed spec fn index(self) -> int {
        self.idx as int
    }
}

impl NodeIdx {
    pub closed spec fn index(self) -> int {
        self.idx as int
    }
}

/// An interned value-producing instruction; operands are handles.
#[derive(Clone, Copy, Debug, PartialEq, Eq, Structural, Hash)]
pub enum CILNode {
    LdLoc(u32),
    LdLocA(u32),
    LdConstU64(u64),
    LdFalse,
    Neg(NodeIdx),
    Not(NodeIdx),
    Eq(NodeIdx, NodeIdx),
    LdInd { addr: NodeIdx, kind: IndKind },
}

/// The condition of a conditional branch.
#[derive(Clone, Copy, Debug, PartialEq, Eq, Structural, Hash)]
pub enum BranchCond {
    True(NodeIdx),
    False(NodeIdx),
    Eq(NodeIdx, NodeIdx),
}

/// An interned statement.
#[derive(Clone, Copy, Debug, PartialEq, Eq, Structural, Hash)]
pub enum CILRoot {
    Nop,
    /// A debugger break: it has an effect.
    Break,
    /// Re-raises the exception being handled.
    ReThrow,
    /// Source-location metadata with no effect on execution.
    SourceFileInfo { line: u32, column: u32 },
    /// A jump to block `target` (and `sub_target` within it), taken when
    /// `cond` holds, or always when there is none.
    Branch { target: u32, sub_target: u32, cond: Option<BranchCond> },
    StLoc(u32, NodeIdx),
    Pop(NodeIdx),
    Ret(NodeIdx),
    VoidRet,
}

/// The operand handles of a node, in order.
pub open spec fn children(n: CILNode) -> Seq<NodeIdx> {
    match n {
        CILNode::Neg(a) | CILNode::Not(a) => seq![a],
        CILNode::Eq(a, b) => seq![a, b],
        CILNode::LdInd { addr, .. } => seq![addr],
        _ => Seq::empty(),
    }
}

/// `n` with its operand handles replaced, in order, by `cs`.
pub open spec fn with_children(n: CILNode, cs: Seq<NodeIdx>) -> CILNode {
    match n {
        CILNode::Neg(_) => CILNode::Neg(cs[0]),
        CILNode::Not(_) => CILNode::Not(cs[0]),
        CILNode::Eq(_, _) => CILNode::Eq(cs[0], cs[1]),
        CILNode::LdInd { kind, .. } => CILNode::LdInd { addr: cs[0], kind },
        _ => n,
    }
}

/// The node handles a statement reads, in order.
pub open spec fn operands(r: CILRoot) -> Seq<NodeIdx> {
    match r {
        CILRoot::StLoc(_, x) | CILRoot::Pop(x) | CILRoot::Ret(x) => seq![x],
        CILRoot::Branch { cond, .. } => match cond {
            Some(BranchCond::True(a)) | Some(BranchCond::False(a)) => seq![a],
            Some(BranchCond::Eq(a, b)) => seq![a, b],
            None => Seq::empty(),
        },
        _ => Seq::empty(),
    }
}

/// `r` with its node handles replaced, in order, by `os`.
pub open spec fn with_operands(r: CILRoot, os: Seq<NodeIdx>) -> CILRoot {
    match r {
        CILRoot::StLoc(l, _) => CILRoot::StLoc(l, os[0]),
        CILRoot::Pop(_) => CILRoot::Pop(os[0]),
        CILRoot::Ret(_) => CILRoot::Ret(os[0]),
        CILRoot::Branch { target, sub_target, cond } => CILRoot::Branch {
            target,
            sub_target,
            cond: match cond {
                Some(BranchCond::True(_)) => Some(BranchCond::True(os[0])),
                Some(BranchCond::False(_)) => Some(BranchCond::False(os[0])),
                Some(BranchCond::Eq(_, _)) => Some(BranchCond::Eq(os[0], os[1])),
                None => None,
            },
        },
        _ => r,
    }
}

/// No value occurs twice in `s`.
pub open spec fn no_duplicates<T>(s: Seq<T>) -> bool {
    forall|i: int, j: int| 0 <= i < s.len() && 0 <= j < s.len() && i != j ==> s[i] != s[j]
}

/// Interning `v` into `before` gave `after` and handle `idx`: an equal value
/// already present keeps its handle and the table is unchanged; otherwise `v`
/// is appended and gets the next handle.
pub open spec fn interned<T>(before: Seq<T>, v: T, after: Seq<T>, idx: int) -> bool {
    if before.contains(v) {
        &&& after == before
        &&& 0 <= idx < before.len()
        &&& before[idx] == v
    } else {
        &&& after == before.push(v)
        &&& idx == before.len()
    }
}

/// The nodes `f` returns read only handles that its argument read.
pub open spec fn keeps_operands<F: Fn(CILNode) -> CILNode>(f: &F) -> bool {
    forall|v: CILNode, w: CILNode, k: int|
        #![trigger f.ensures((v,), w), children(w)[k]]
        f.ensures((v,), w) && 0 <= k < children(w).len() ==> children(v).contains(children(w)[k])
}

/// `new` in `a1` is the rewrite of the tree under `old` in `a0`: each operand
/// rewritten first, then `f` applied to the node rebuilt over the rewritten
/// operands, and the result interned.
pub open spec fn node_mapped<F: Fn(CILNode) -> CILNode>(
    f: &F,
    a0: Assembly,
    old: NodeIdx,
    a1: Assembly,
    new: NodeIdx,
) -> bool
    decreases old.index(),
{
    if a0.wf() && a0.has_node(old) {
        &&& a1.has_node(new)
        &&& exists|cs: Seq<NodeIdx>|
            #[trigger] f.ensures((with_children(a0.node(old), cs),), a1.node(new))
                && cs.len() == children(a0.node(old)).len()
                && forall|k: int| 0 <= k < cs.len() ==> node_mapped(f, a0, children(a0.node(old))[k], a1, cs[k])
    } else {
        false
    }
}

/// `new` in `a1` is the rewrite of the statement `old` in `a0`: the tree
/// under each operand rewritten by `nf`, then `rf` applied to the statement
/// rebuilt over the rewritten operands, and the result interned.
pub open spec fn root_mapped<R: Fn(CILRoot) -> CILRoot, F: Fn(CILNode) -> CILNode>(
    rf: &R,
    nf: &F,
    a0: Assembly,
    old: RootIdx,
    a1: Assembly,
    new: RootIdx,
) -> bool {
    &&& a1.has_root(new)
    &&& exists|os: Seq<NodeIdx>|
        #[trigger] rf.ensures((with_operands(a0.root(old), os),), a1.root(new))
            && os.len() == operands(a0.root(old)).len()
            && forall|k: int| 0 <= k < os.len() ==> node_mapped(nf, a0, operands(a0.root(old))[k], a1, os[k])
}

/// Owns the interned statements and nodes of one compilation unit.
#[derive(Debug)]
pub struct Assembly {
    roots: Vec<CILRoot>,
    nodes: Vec<CILNode>,
}

impl Assembly {
    /// The statements, in handle order.
    pub closed spec fn root_seq(&self) -> Seq<CILRoot> {
        self.roots@
    }

    /// The nodes, in handle order.
    pub closed spec fn node_seq(&self) -> Seq<CILNode> {
        self.nodes@
    }

    /// Each statement and each node is interned once, and every node's
    /// operands were interned before it.
    pub open spec fn wf(&self) -> bool {
        &&& no_duplicates(self.root_seq())
        &&& no_duplicates(self.node_seq())
        &&& forall|i: int, k: int|
            0 <= i < self.node_seq().len() && 0 <= k < children(self.node_seq()[i]).len()
                ==> (#[trigger] children(self.node_seq()[i])[k]).index() < i
    }

    /// `n` is a live node handle of this assembly.
    pub open spec fn has_node(&self, n: NodeIdx) -> bool {
        0 <= n.index() < self.node_seq().len()
    }

    pub open spec fn node(&self, n: NodeIdx) -> CILNode {
        self.node_seq()[n.index()]
    }

    /// `r` is a live statement handle of this assembly.
    pub open spec fn has_root(&self, r: RootIdx) -> bool {
        0 <= r.index() < self.root_seq().len()
    }

    pub open spec fn root(&self, r: RootIdx) -> CILRoot {
        self.root_seq()[r.index()]
    }

    /// `r` is live and so is every node it reads.
    pub open spec fn root_live(&self, r: RootIdx) -> bool {
        &&& self.has_root(r)
        &&& forall|k: int| 0 <= k < operands(self.root(r)).len() ==> self.has_node(#[trigger] operands(self.root(r))[k])
    }

    /// `later` keeps every statement and node of `self` under its handle.
    pub open spec fn grows(&self, later: Assembly) -> bool {
        &&& self.root_seq().len() <= later.root_seq().len()
        &&& forall|i: int| 0 <= i < self.root_seq().len() ==> later.root_seq()[i] == #[trigger] self.root_seq()[i]
        &&& self.node_seq().len() <= later.node_seq().len()
        &&& forall|i: int| 0 <= i < self.node_seq().len() ==> later.node_seq()[i] == #[trigger] self.node_seq()[i]
    }

    pub fn new() -> (r: Self)
        ensures
            r.wf(),
            r.root_seq().len() == 0,
            r.node_seq().len() == 0,
    {
        Assembly { roots: Vec::new(), nodes: Vec::new() }
    }

    /// Interns a statement.
    pub fn alloc_root(&mut self, val: CILRoot) -> (r: RootIdx)
        requires
            old(self).wf(),
        ensures
            final(self).wf(),
            final(self).node_seq() == old(self).node_seq(),
            old(self).grows(*final(self)),
            interned(old(self).root_seq(), val, final(self).root_seq(), r.index()),
            final(self).has_root(r),
            final(self).root(r) == val,
    {
        let n = self.roots.len();
        let mut i: usize = 0;
        while i < n
            invariant
                n == self.roots@.len(),
                *self == *old(self),
                self.wf(),
                i <= n,
                forall|j: int| 0 <= j < i ==> self.roots@[j] != val,
            decreases n - i,
        {
            if self.roots[i] == val {
                return RootIdx { idx: i };
            }
            i += 1;
        }
        proof {
            assert(!self.roots@.contains(val));
        }
        self.roots.push(val);
        RootIdx { idx: n }
    }

    /// Interns an instruction node.
    pub fn alloc_node(&mut self, val: CILNode) -> (r: NodeIdx)
        requires
            old(self).wf(),
            forall|k: int| 0 <= k < children(val).len() ==> old(self).has_node(#[trigger] children(val)[k]),
        ensures
            final(self).wf(),
            final(self).root_seq() == old(self).root_seq(),
            old(self).grows(*final(self)),
            interned(old(self).node_seq(), val, final(self).node_seq(), r.index()),
            0 <= r.index() < final(self).node_seq().len(),
            final(self).node_seq()[r.index()] == val,
    {
        let n = self.nodes.len();
        let mut i: usize = 0;
        while i < n
            invariant
                n == self.nodes@.len(),
                *self == *old(self),
                self.wf(),
                i <= n,
                forall|j: int| 0 <= j < i ==> self.nodes@[j] != val,
            decreases n - i,
        {
            if self.nodes[i] == val {
                return NodeIdx { idx: i };
            }
            i += 1;
        }
        proof {
            assert(!self.nodes@.contains(val));
        }
        self.nodes.push(val);
        NodeIdx { idx: n }
    }


    /// Rewrites the tree under `idx`: operands first, then the node rebuilt
    /// over them through `node_map`, interning each result.
    pub fn map_node<F: Fn(CILNode) -> CILNode>(&mut self, idx: NodeIdx, node_map: &F) -> (r: NodeIdx)
        requires
            old(self).wf(),
            old(self).has_node(idx),
            forall|v: CILNode| node_map.requires((v,)),
            keeps_operands(node_map),
        ensures
            final(self).wf(),
            old(self).grows(*final(self)),
            final(self).root_seq() == old(self).root_seq(),
            node_mapped(node_map, *old(self), idx, *final(self), r),
        decreases idx.index(),
    {
        let ghost a0 = *self;
        let n = *self.get_node(idx);
        proof {
            assert(forall|k: int| 0 <= k < children(n).len() ==> (#[trigger] children(n)[k]).index() < idx.index());
        }
        let rebuilt = match n {
            CILNode::Neg(a) => {
                assert(children(n)[0] == a);
                CILNode::Neg(self.map_node(a, node_map))
            },
            CILNode::Not(a) => {
                assert(children(n)[0] == a);
                CILNode::Not(self.map_node(a, node_map))
            },
            CILNode::LdInd { addr, kind } => {
                assert(children(n)[0] == addr);
                CILNode::LdInd { addr: self.map_node(addr, node_map), kind }
            },
            CILNode::Eq(a, b) => {
                assert(children(n)[0] == a && children(n)[1] == b);
                let a2 = self.map_node(a, node_map);
                let ghost a1 = *self;
                let b2 = self.map_node(b, node_map);
                proof {
                    lemma_node_mapped_grows(node_map, a0, a, a1, a2, *self);
                    lemma_node_mapped_base(node_map, a0, a1, b, *self, b2);
                    lemma_grows_trans(a0, a1, *self);
                }
                CILNode::Eq(a2, b2)
            },
            other => other,
        };
        let ghost before = *self;
        let w = node_map(rebuilt);
        proof {
            assert forall|k: int| 0 <= k < children(w).len() implies self.has_node(#[trigger] children(w)[k]) by {
                assert(children(rebuilt).contains(children(w)[k]));
            }
        }
        let r = self.alloc_node(w);
        proof {
            let cs = children(rebuilt);
            assert(with_children(n, cs) == rebuilt);
            assert forall|k: int| 0 <= k < cs.len() implies node_mapped(node_map, a0, children(n)[k], *self, cs[k]) by {
                lemma_node_mapped_grows(node_map, a0, children(n)[k], before, cs[k], *self);
            }
            lemma_grows_trans(a0, before, *self);
            assert(node_map.ensures((with_children(a0.node(idx), cs),), self.node(r)));
        }
        r
    }


    /// Rewrites the statement `root`: the tree under each of its operands
    /// through `node_map`, then the rebuilt statement through `root_map`,
    /// interning each result.
    pub fn map_root<R: Fn(CILRoot) -> CILRoot, F: Fn(CILNode) -> CILNode>(
        &mut self,
        root: RootIdx,
        root_map: &R,
        node_map: &F,
    ) -> (r: RootIdx)
        requires
            old(self).wf(),
            old(self).root_live(root),
            forall|v: CILRoot| root_map.requires((v,)),
            forall|v: CILNode| node_map.requires((v,)),
            keeps_operands(node_map),
        ensures
            final(self).wf(),
            old(self).grows(*final(self)),
            root_mapped(root_map, node_map, *old(self), root, *final(self), r),
    {
        let ghost a0 = *self;
        let v = *self.get_root(root);
        let rebuilt = match v {
            CILRoot::StLoc(l, x) => {
                assert(operands(v)[0] == x);
                CILRoot::StLoc(l, self.map_node(x, node_map))
            },
            CILRoot::Pop(x) => {
                assert(operands(v)[0] == x);
                CILRoot::Pop(self.map_node(x, node_map))
            },
            CILRoot::Ret(x) => {
                assert(operands(v)[0] == x);
                CILRoot::Ret(self.map_node(x, node_map))
            },
            CILRoot::Branch { target, sub_target, cond } => match cond {
                Some(BranchCond::True(a)) => {
                    assert(operands(v)[0] == a);
                    CILRoot::Branch { target, sub_target, cond: Some(BranchCond::True(self.map_node(a, node_map))) }
                },
                Some(BranchCond::False(a)) => {
                    assert(operands(v)[0] == a);
                    CILRoot::Branch { target, sub_target, cond: Some(BranchCond::False(self.map_node(a, node_map))) }
                },
                Some(BranchCond::Eq(a, b)) => {
                    assert(operands(v)[0] == a && operands(v)[1] == b);
                    let a2 = self.map_node(a, node_map);
                    let ghost a1 = *self;
                    let b2 = self.map_node(b, node_map);
                    proof {
                        lemma_node_mapped_grows(node_map, a0, a, a1, a2, *self);
                        lemma_node_mapped_base(node_map, a0, a1, b, *self, b2);
                        lemma_grows_trans(a0, a1, *self);
                    }
                    CILRoot::Branch { target, sub_target, cond: Some(BranchCond::Eq(a2, b2)) }
                },
                None => v,
            },
            other => other,
        };
        let ghost before = *self;
        let w = root_map(rebuilt);
        let r = self.alloc_root(w);
        proof {
            let os = operands(rebuilt);
            assert(with_operands(v, os) == rebuilt);
            assert forall|k: int| 0 <= k < os.len() implies node_mapped(node_map, a0, operands(v)[k], *self, os[k]) by {
                lemma_node_mapped_grows(node_map, a0, operands(v)[k], before, os[k], *self);
            }
            lemma_grows_trans(a0, before, *self);
            assert(root_map.ensures((with_operands(a0.root(root), os),), self.root(r)));
        }
        r
    }

    /// The statement behind a handle.
    pub fn get_root(&self, root: RootIdx) -> (r: &CILRoot)
        requires
            self.has_root(root),
        ensures
            *r == self.root(root),
    {
        &self.roots[root.idx]
    }

    /// The node behind a handle.
    pub fn get_node(&self, node: NodeIdx) -> (r: &CILNode)
        requires
            0 <= node.index() < self.node_seq().len(),
        ensures
            *r == self.node_seq()[node.index()],
    {
        &self.nodes[node.idx]
    }
}

impl Default for Assembly {
    fn default() -> (r: Self)
        ensures
            r.wf(),
            r.root_seq().len() == 0,
            r.node_seq().len() == 0,
    {
        Assembly::new()
    }
}

/// A statement handle is its slot: two handles are equal exactly when they
/// index the same slot.
pub broadcast proof fn lemma_root_handle_eq(a: RootIdx, b: RootIdx)
    ensures
        #![trigger a.index(), b.index()]
        (a.index() == b.index()) <==> (a == b),
{
}

/// A node handle is its slot: two handles are equal exactly when they index
/// the same slot.
pub broadcast proof fn lemma_node_handle_eq(a: NodeIdx, b: NodeIdx)
    ensures
        #![trigger a.index(), b.index()]
        (a.index() == b.index()) <==> (a == b),
{
}

/// In a well-formed assembly, equal statements sit behind one shared handle.
pub proof fn lemma_equal_roots_share_handle(assembly: Assembly, a: RootIdx, b: RootIdx)
    requires
        assembly.wf(),
        assembly.has_root(a),
        assembly.has_root(b),
        assembly.root(a) == assembly.root(b),
    ensures
        a == b,
{
    lemma_root_handle_eq(a, b);
}

/// Interning an equal statement again, into the assembly that the first
/// interning produced, returns the same handle.
pub proof fn lemma_alloc_root_canonical(
    a0: Assembly,
    s1: CILRoot,
    a1: Assembly,
    r1: RootIdx,
    s2: CILRoot,
    a2: Assembly,
    r2: RootIdx,
)
    requires
        a0.wf(),
        interned(a0.root_seq(), s1, a1.root_seq(), r1.index()),
        interned(a1.root_seq(), s2, a2.root_seq(), r2.index()),
        s1 == s2,
    ensures
        r1 == r2,
{
    lemma_interning_canonical(a0.root_seq(), s1, a1.root_seq(), r1.index(), s2, a2.root_seq(), r2.index());
    lemma_root_handle_eq(r1, r2);
}

/// A node rewrite stays valid as the assembly grows.
pub proof fn lemma_node_mapped_grows<F: Fn(CILNode) -> CILNode>(
    f: &F,
    a0: Assembly,
    old: NodeIdx,
    a1: Assembly,
    new: NodeIdx,
    a2: Assembly,
)
    requires
        node_mapped(f, a0, old, a1, new),
        a1.grows(a2),
    ensures
        node_mapped(f, a0, old, a2, new),
    decreases old.index(),
{
    let n = a0.node(old);
    let cs = choose|cs: Seq<NodeIdx>|
        #[trigger] f.ensures((with_children(n, cs),), a1.node(new))
            && cs.len() == children(n).len()
            && forall|k: int| 0 <= k < cs.len() ==> node_mapped(f, a0, children(n)[k], a1, cs[k]);
    assert(a2.node_seq()[new.index()] == a1.node_seq()[new.index()]);
    assert forall|k: int| 0 <= k < cs.len() implies node_mapped(f, a0, children(n)[k], a2, cs[k]) by {
        assert(children(a0.node_seq()[old.index()])[k].index() < old.index());
        lemma_node_mapped_grows(f, a0, children(n)[k], a1, cs[k], a2);
    }
    assert(f.ensures((with_children(n, cs),), a2.node(new)));
}

/// A node rewrite read from a grown assembly reads the same from the
/// assembly it grew from, where the node already was.
pub proof fn lemma_node_mapped_base<F: Fn(CILNode) -> CILNode>(
    f: &F,
    a0: Assembly,
    amid: Assembly,
    old: NodeIdx,
    a1: Assembly,
    new: NodeIdx,
)
    requires
        node_mapped(f, amid, old, a1, new),
        a0.wf(),
        a0.has_node(old),
        a0.grows(amid),
    ensures
        node_mapped(f, a0, old, a1, new),
    decreases old.index(),
{
    let n = amid.node(old);
    assert(a0.node(old) == n);
    let cs = choose|cs: Seq<NodeIdx>|
        #[trigger] f.ensures((with_children(n, cs),), a1.node(new))
            && cs.len() == children(n).len()
            && forall|k: int| 0 <= k < cs.len() ==> node_mapped(f, amid, children(n)[k], a1, cs[k]);
    assert forall|k: int| 0 <= k < cs.len() implies node_mapped(f, a0, children(n)[k], a1, cs[k]) by {
        assert(children(a0.node_seq()[old.index()])[k].index() < old.index());
        lemma_node_mapped_base(f, a0, amid, children(n)[k], a1, cs[k]);
    }
    assert(f.ensures((with_children(a0.node(old), cs),), a1.node(new)));
}

/// A statement rewrite stays valid as the assembly grows.
pub proof fn lemma_root_mapped_grows<R: Fn(CILRoot) -> CILRoot, F: Fn(CILNode) -> CILNode>(
    rf: &R,
    nf: &F,
    a0: Assembly,
    old: RootIdx,
    a1: Assembly,
    new: RootIdx,
    a2: Assembly,
)
    requires
        root_mapped(rf, nf, a0, old, a1, new),
        a1.grows(a2),
    ensures
        root_mapped(rf, nf, a0, old, a2, new),
{
    let v = a0.root(old);
    let os = choose|os: Seq<NodeIdx>|
        #[trigger] rf.ensures((with_operands(v, os),), a1.root(new))
            && os.len() == operands(v).len()
            && forall|k: int| 0 <= k < os.len() ==> node_mapped(nf, a0, operands(v)[k], a1, os[k]);
    assert(a2.root_seq()[new.index()] == a1.root_seq()[new.index()]);
    assert forall|k: int| 0 <= k < os.len() implies node_mapped(nf, a0, operands(v)[k], a2, os[k]) by {
        lemma_node_mapped_grows(nf, a0, operands(v)[k], a1, os[k], a2);
    }
    assert(rf.ensures((with_operands(v, os),), a2.root(new)));
}

/// A statement rewrite read from a grown assembly reads the same from the
/// assembly it grew from, where the statement and its nodes already were.
pub proof fn lemma_root_mapped_base<R: Fn(CILRoot) -> CILRoot, F: Fn(CILNode) -> CILNode>(
    rf: &R,
    nf: &F,
    a0: Assembly,
    amid: Assembly,
    old: RootIdx,
    a1: Assembly,
    new: RootIdx,
)
    requires
        root_mapped(rf, nf, amid, old, a1, new),
        a0.wf(),
        a0.root_live(old),
        a0.grows(amid),
    ensures
        root_mapped(rf, nf, a0, old, a1, new),
{
    let v = amid.root(old);
    assert(a0.root(old) == v);
    let os = choose|os: Seq<NodeIdx>|
        #[trigger] rf.ensures((with_operands(v, os),), a1.root(new))
            && os.len() == operands(v).len()
            && forall|k: int| 0 <= k < os.len() ==> node_mapped(nf, amid, operands(v)[k], a1, os[k]);
    assert forall|k: int| 0 <= k < os.len() implies node_mapped(nf, a0, operands(v)[k], a1, os[k]) by {
        assert(a0.has_node(operands(a0.root(old))[k]));
        lemma_node_mapped_base(nf, a0, amid, operands(v)[k], a1, os[k]);
    }
    assert(rf.ensures((with_operands(a0.root(old), os),), a1.root(new)));
}

/// In a well-formed assembly, equal nodes sit behind one shared handle.
pub proof fn lemma_equal_nodes_share_handle(assembly: Assembly, a: NodeIdx, b: NodeIdx)
    requires
        assembly.wf(),
        assembly.has_node(a),
        assembly.has_node(b),
        assembly.node(a) == assembly.node(b),
    ensures
        a == b,
{
    lemma_node_handle_eq(a, b);
}

/// Rewriting a node tree through a function that returns its argument gives
/// back the handle it started from.
pub proof fn lemma_node_identity<F: Fn(CILNode) -> CILNode>(
    f: &F,
    a0: Assembly,
    old: NodeIdx,
    a1: Assembly,
    new: NodeIdx,
)
    requires
        node_mapped(f, a0, old, a1, new),
        a0.grows(a1),
        a1.wf(),
        forall|v: CILNode, w: CILNode| f.ensures((v,), w) ==> w == v,
    ensures
        new == old,
    decreases old.index(),
{
    let n = a0.node(old);
    let cs = choose|cs: Seq<NodeIdx>|
        #[trigger] f.ensures((with_children(n, cs),), a1.node(new))
            && cs.len() == children(n).len()
            && forall|k: int| 0 <= k < cs.len() ==> node_mapped(f, a0, children(n)[k], a1, cs[k]);
    assert forall|k: int| 0 <= k < cs.len() implies cs[k] == children(n)[k] by {
        assert(children(a0.node_seq()[old.index()])[k].index() < old.index());
        lemma_node_identity(f, a0, children(n)[k], a1, cs[k]);
    }
    assert(cs =~= children(n));
    assert(with_children(n, cs) == n);
    assert(a1.node_seq()[old.index()] == a0.node_seq()[old.index()]);
    lemma_equal_nodes_share_handle(a1, new, old);
}

/// Rewriting a statement through functions that return their argument gives
/// back the handle it started from.
pub proof fn lemma_root_identity<R: Fn(CILRoot) -> CILRoot, F: Fn(CILNode) -> CILNode>(
    rf: &R,
    nf: &F,
    a0: Assembly,
    old: RootIdx,
    a1: Assembly,
    new: RootIdx,
)
    requires
        root_mapped(rf, nf, a0, old, a1, new),
        a0.root_live(old),
        a0.wf(),
        a0.grows(a1),
        a1.wf(),
        forall|v: CILRoot, w: CILRoot| rf.ensures((v,), w) ==> w == v,
        forall|v: CILNode, w: CILNode| nf.ensures((v,), w) ==> w == v,
    ensures
        new == old,
{
    let v = a0.root(old);
    let os = choose|os: Seq<NodeIdx>|
        #[trigger] rf.ensures((with_operands(v, os),), a1.root(new))
            && os.len() == operands(v).len()
            && forall|k: int| 0 <= k < os.len() ==> node_mapped(nf, a0, operands(v)[k], a1, os[k]);
    assert forall|k: int| 0 <= k < os.len() implies os[k] == operands(v)[k] by {
        lemma_node_identity(nf, a0, operands(v)[k], a1, os[k]);
    }
    assert(os =~= operands(v));
    assert(with_operands(v, os) == v);
    assert(a1.root_seq()[old.index()] == a0.root_seq()[old.index()]);
    lemma_equal_roots_share_handle(a1, new, old);
}

/// Growth is transitive.
pub proof fn lemma_grows_trans(a: Assembly, b: Assembly, c: Assembly)
    requires
        a.grows(b),
        b.grows(c),
    ensures
        a.grows(c),
{
}

/// Interning is canonical: once a value has a handle, interning an equal
/// value into any table that grew from it by interning returns that handle.
pub proof fn lemma_interning_canonical<T>(
    t0: Seq<T>,
    s1: T,
    t1: Seq<T>,
    i1: int,
    s2: T,
    t2: Seq<T>,
    i2: int,
)
    requires
        no_duplicates(t0),
        interned(t0, s1, t1, i1),
        interned(t1, s2, t2, i2),
        s1 == s2,
    ensures
        i1 == i2,
{
    assert(t1[i1] == s1);
    assert(t1.contains(s2));
    if i1 != i2 {
        assert(no_duplicates(t1));
    }
}

} // verus!
