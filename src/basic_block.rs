//! Basic blocks: ordered statement handles with optional nested handler
//! regions.
use crate::assembly::{
    lemma_grows_trans, lemma_root_identity, lemma_root_mapped_base, lemma_root_mapped_grows, keeps_operands, operands,
    root_mapped, Assembly, CILNode, CILRoot, RootIdx,
};
use vstd::prelude::*;

verus! {

/// A block's own statements, its id, and the blocks of the exception handler
/// attached to it, if any. Each block owns its handler's blocks.
#[derive(Debug)]
pub struct BasicBlock {
    roots: Vec<RootIdx>,
    block_id: u32,
    handler: Option<Vec<BasicBlock>>,
}

impl BasicBlock {
    pub closed spec fn spec_roots(&self) -> Seq<RootIdx> {
        self.roots@
    }

    pub closed spec fn spec_block_id(&self) -> u32 {
        self.block_id
    }

    pub closed spec fn spec_handler(&self) -> Option<Seq<BasicBlock>> {
        match self.handler {
            Some(h) => Some(h@),
            None => None,
        }
    }
}

/// The statements of `b` in traversal order: its own, then those of each
/// handler block in order, each with its own handlers.
pub closed spec fn all_roots(b: BasicBlock) -> Seq<RootIdx>
    decreases b, 0nat,
{
    b.roots@ + match b.handler {
        Some(h) => blocks_roots(h, h@.len()),
        None => Seq::empty(),
    }
}

/// The statements of the first `n` blocks of `h`, in traversal order.
pub closed spec fn blocks_roots(h: Vec<BasicBlock>, n: nat) -> Seq<RootIdx>
    decreases h, n,
{
    if n == 0 || n > h@.len() {
        Seq::empty()
    } else {
        blocks_roots(h, (n - 1) as nat) + all_roots(h@[n - 1])
    }
}

/// The statements of the handler region of `b`, nested handlers included.
pub closed spec fn handler_roots(b: BasicBlock) -> Seq<RootIdx> {
    match b.handler {
        Some(h) => blocks_roots(h, h@.len()),
        None => Seq::empty(),
    }
}

/// A statement that has an effect on execution: neither a no-op nor
/// source-location metadata.
pub open spec fn is_meaningful(assembly: Assembly, r: RootIdx) -> bool {
    !(assembly.root(r) is Nop || assembly.root(r) is SourceFileInfo)
}

/// The meaningful statements of `s`, in order.
pub open spec fn meaningful_of(assembly: Assembly, s: Seq<RootIdx>) -> Seq<RootIdx>
    decreases s.len(),
{
    if s.len() == 0 {
        Seq::empty()
    } else {
        meaningful_of(assembly, s.drop_last()) + if is_meaningful(assembly, s.last()) {
            seq![s.last()]
        } else {
            Seq::empty()
        }
    }
}

/// The branch target of a block whose only meaningful statement is an
/// unconditional branch.
pub open spec fn direct_jump_of(assembly: Assembly, m: Seq<RootIdx>) -> Option<(u32, u32)> {
    if m.len() == 1 {
        match assembly.root(m[0]) {
            CILRoot::Branch { target, sub_target, cond } => if cond is None {
                Some((target, sub_target))
            } else {
                None
            },
            _ => None,
        }
    } else {
        None
    }
}

impl BasicBlock {
    /// Every statement handle of the block and its handlers is live in
    /// `assembly`.
    pub open spec fn roots_in(&self, assembly: Assembly) -> bool {
        forall|i: int| 0 <= i < all_roots(*self).len() ==> assembly.has_root(#[trigger] all_roots(*self)[i])
    }

    pub fn new(roots: Vec<RootIdx>, block_id: u32, handler: Option<Vec<Self>>) -> (r: Self)
        ensures
            r.spec_roots() == roots@,
            r.spec_block_id() == block_id,
            match handler {
                Some(h) => r.spec_handler() == Some(h@),
                None => r.spec_handler() is None,
            },
            all_roots(r) == roots@ + match handler {
                Some(h) => blocks_roots(h, h@.len()),
                None => Seq::<RootIdx>::empty(),
            },
    {
        BasicBlock { roots, block_id, handler }
    }

    pub fn roots(&self) -> (r: &[RootIdx])
        ensures
            r@ == self.spec_roots(),
    {
        self.roots.as_slice()
    }

    pub fn block_id(&self) -> (r: u32)
        ensures
            r == self.spec_block_id(),
    {
        self.block_id
    }

    pub fn handler(&self) -> (r: Option<&[BasicBlock]>)
        ensures
            match self.spec_handler() {
                Some(h) => r matches Some(s) && s@ == h,
                None => r is None,
            },
    {
        match &self.handler {
            Some(h) => Some(h.as_slice()),
            None => None,
        }
    }

    /// Detaches the handler region.
    pub fn remove_handler(&mut self)
        ensures
            final(self).spec_handler() is None,
            final(self).spec_roots() == old(self).spec_roots(),
            final(self).spec_block_id() == old(self).spec_block_id(),
            all_roots(*final(self)) == old(self).spec_roots(),
    {
        self.handler = None;
        proof {
            assert(all_roots(*self) =~= self.roots@);
        }
    }

    /// The block's own statements followed by those of its handler region,
    /// each handler block walked in order with its own handlers.
    pub fn iter_roots(&self) -> (r: Vec<RootIdx>)
        ensures
            r@ == all_roots(*self),
            r@ == self.spec_roots() + handler_traversal(*self),
        decreases self,
    {
        let mut r: Vec<RootIdx> = Vec::new();
        let n = self.roots.len();
        let mut i: usize = 0;
        while i < n
            invariant
                n == self.roots@.len(),
                i <= n,
                r@ == self.roots@.take(i as int),
            decreases n - i,
        {
            r.push(self.roots[i]);
            i += 1;
            proof {
                assert(r@ =~= self.roots@.take(i as int));
            }
        }
        proof {
            assert(self.roots@.take(n as int) =~= self.roots@);
        }
        match &self.handler {
            Some(h) => {
                let m = h.len();
                let mut j: usize = 0;
                while j < m
                    invariant
                        self.handler == Some(*h),
                        m == h@.len(),
                        j <= m,
                        r@ == self.roots@ + blocks_roots(*h, j as nat),
                    decreases m - j,
                {
                    proof {
                        assert(decreases_to!(*self => self.handler));
                        assert(decreases_to!(self.handler => self.handler->Some_0));
                        assert(decreases_to!(*h => h@[j as int]));
                        assert(decreases_to!(*self => h@[j as int]));
                    }
                    let mut sub = h[j].iter_roots();
                    let ghost before = r@;
                    r.append(&mut sub);
                    proof {
                        assert(blocks_roots(*h, (j + 1) as nat) == blocks_roots(*h, j as nat) + all_roots(h@[j as int]));
                        assert(r@ =~= self.roots@ + blocks_roots(*h, (j + 1) as nat));
                    }
                    j += 1;
                }
            },
            None => {
                proof {
                    assert(r@ =~= self.roots@ + Seq::<RootIdx>::empty());
                }
            },
        }
        proof {
            lemma_traversal_complete(*self);
        }
        r
    }

    /// The statements of `iter_roots` that have an effect.
    pub fn meaningfull_roots(&self, assembly: &Assembly) -> (r: Vec<RootIdx>)
        requires
            self.roots_in(*assembly),
        ensures
            r@ == meaningful_of(*assembly, all_roots(*self)),
    {
        let all = self.iter_roots();
        let n = all.len();
        let mut r: Vec<RootIdx> = Vec::new();
        let mut i: usize = 0;
        while i < n
            invariant
                n == all@.len(),
                all@ == all_roots(*self),
                self.roots_in(*assembly),
                i <= n,
                r@ == meaningful_of(*assembly, all@.take(i as int)),
            decreases n - i,
        {
            let root = all[i];
            proof {
                assert(all@.take(i + 1).drop_last() =~= all@.take(i as int));
                assert(all@.take(i + 1).last() == root);
                assert(assembly.has_root(all_roots(*self)[i as int]));
            }
            match assembly.get_root(root) {
                CILRoot::Nop | CILRoot::SourceFileInfo { .. } => {
                    proof {
                        assert(r@ =~= meaningful_of(*assembly, all@.take(i + 1)));
                    }
                },
                _ => {
                    r.push(root);
                    proof {
                        assert(r@ =~= meaningful_of(*assembly, all@.take(i + 1)));
                    }
                },
            }
            i += 1;
        }
        proof {
            assert(all@.take(n as int) =~= all@);
        }
        r
    }

    /// The target of this block when it does nothing but jump unconditionally
    /// to another block.
    pub fn is_direct_jump(&self, assembly: &Assembly) -> (r: Option<(u32, u32)>)
        requires
            self.roots_in(*assembly),
        ensures
            r == direct_jump_of(*assembly, meaningful_of(*assembly, all_roots(*self))),
    {
        let meaningful = self.meaningfull_roots(assembly);
        if meaningful.len() != 1 {
            return None;
        }
        proof {
            lemma_meaningful_in(*assembly, all_roots(*self));
            assert(self.roots_in(*assembly));
        }
        match assembly.get_root(meaningful[0]) {
            CILRoot::Branch { target, sub_target, cond } => {
                if cond.is_none() {
                    Some((*target, *sub_target))
                } else {
                    None
                }
            },
            _ => None,
        }
    }

    /// Whether this block does nothing but re-raise the current exception.
    pub fn is_only_rethrow(&self, assembly: &Assembly) -> (r: bool)
        requires
            self.roots_in(*assembly),
        ensures
            r == ({
                let m = meaningful_of(*assembly, all_roots(*self));
                m.len() == 1 && assembly.root(m[0]) is ReThrow
            }),
    {
        let meaningful = self.meaningfull_roots(assembly);
        if meaningful.len() != 1 {
            return false;
        }
        proof {
            lemma_meaningful_in(*assembly, all_roots(*self));
        }
        match assembly.get_root(meaningful[0]) {
            CILRoot::ReThrow => true,
            _ => false,
        }
    }
}

impl BasicBlock {
    /// The block's own statement list, for rewriting in place.
    pub fn roots_mut(&mut self) -> (r: &mut Vec<RootIdx>)
        ensures
            r@ == old(self).spec_roots(),
            final(self).spec_roots() == final(r)@,
            final(self).spec_block_id() == old(self).spec_block_id(),
            final(self).spec_handler() == old(self).spec_handler(),
    {
        &mut self.roots
    }

    /// The handler's blocks, for rewriting in place.
    pub fn handler_mut(&mut self) -> (r: Option<&mut Vec<BasicBlock>>)
        ensures
            r is Some <==> old(self).spec_handler() is Some,
            r matches Some(h) ==> h@ == old(self).spec_handler()->Some_0,
            final(self).spec_roots() == old(self).spec_roots(),
            final(self).spec_block_id() == old(self).spec_block_id(),
            old(self).spec_handler() is None ==> final(self).spec_handler() is None,
            r matches Some(h) ==> final(self).spec_handler() == Some(final(h)@),
    {
        self.handler.as_mut()
    }

    /// The handler's blocks and the block's own statements, both for
    /// rewriting in place.
    pub fn handler_and_root_mut(&mut self) -> (r: (Option<&mut [BasicBlock]>, &mut Vec<RootIdx>))
        ensures
            r.0 is Some <==> old(self).spec_handler() is Some,
            r.0 matches Some(h) ==> h@ == old(self).spec_handler()->Some_0,
            r.1@ == old(self).spec_roots(),
            final(self).spec_roots() == final(r.1)@,
            r.0 matches Some(h) ==> final(self).spec_handler() == Some(final(h)@),
            final(self).spec_block_id() == old(self).spec_block_id(),
            old(self).spec_handler() is None ==> final(self).spec_handler() is None,
    {
        let handler = match &mut self.handler {
            Some(h) => Some(h.as_mut_slice()),
            None => None,
        };
        (handler, &mut self.roots)
    }
}

/// A block of the older form, whose statements are values not yet interned.
#[derive(Debug)]
pub struct V1Block {
    pub trees: Vec<CILRoot>,
    pub id: u32,
    pub handler: Option<Vec<V1Block>>,
}

/// The statements of `v` in traversal order, as for `all_roots`.
pub open spec fn v1_trees(v: V1Block) -> Seq<CILRoot>
    decreases v, 0nat,
{
    v.trees@ + match v.handler {
        Some(h) => v1_blocks_trees(h, h@.len()),
        None => Seq::empty(),
    }
}

pub open spec fn v1_blocks_trees(h: Vec<V1Block>, n: nat) -> Seq<CILRoot>
    decreases h, n,
{
    if n == 0 || n > h@.len() {
        Seq::empty()
    } else {
        v1_blocks_trees(h, (n - 1) as nat) + v1_trees(h@[n - 1])
    }
}

/// Each handle of `rs` is live in `assembly` and holds the matching value of
/// `ts`.
pub open spec fn resolves(assembly: Assembly, rs: Seq<RootIdx>, ts: Seq<CILRoot>) -> bool {
    &&& rs.len() == ts.len()
    &&& forall|i: int| 0 <= i < rs.len() ==> assembly.has_root(#[trigger] rs[i]) && assembly.root(rs[i]) == ts[i]
}

/// `b` is the conversion of `v` in `assembly`: same id, own statements
/// resolving position by position to `v`'s trees, and handler blocks that
/// are, in number and order, the conversions of `v`'s.
pub open spec fn converted(assembly: Assembly, b: BasicBlock, v: V1Block) -> bool
    decreases v,
{
    &&& b.spec_block_id() == v.id
    &&& resolves(assembly, b.spec_roots(), v.trees@)
    &&& match (v.handler, b.spec_handler()) {
        (None, None) => true,
        (Some(h), Some(hs)) => hs.len() == h@.len() && forall|i: int|
            0 <= i < h@.len() ==> converted(assembly, hs[i], #[trigger] h@[i]),
        _ => false,
    }
}

proof fn lemma_converted_grows(a: Assembly, c: Assembly, b: BasicBlock, v: V1Block)
    requires
        converted(a, b, v),
        a.grows(c),
    ensures
        converted(c, b, v),
    decreases v,
{
    lemma_resolves_grows(a, c, b.spec_roots(), v.trees@);
    if let Some(h) = v.handler {
        let hs = b.spec_handler()->Some_0;
        assert forall|i: int| 0 <= i < h@.len() implies converted(c, hs[i], #[trigger] h@[i]) by {
            assert(decreases_to!(v => v.handler));
            assert(decreases_to!(v.handler => v.handler->Some_0));
            assert(decreases_to!(h => h@[i]));
            lemma_converted_grows(a, c, hs[i], h@[i]);
        }
    }
}

proof fn lemma_resolves_grows(a: Assembly, b: Assembly, rs: Seq<RootIdx>, ts: Seq<CILRoot>)
    requires
        resolves(a, rs, ts),
        a.grows(b),
    ensures
        resolves(b, rs, ts),
{
    assert forall|i: int| 0 <= i < rs.len() implies b.has_root(#[trigger] rs[i]) && b.root(rs[i]) == ts[i] by {
        assert(a.has_root(rs[i]));
        assert(a.root_seq()[rs[i].index()] == ts[i]);
    }
}

proof fn lemma_resolves_concat(a: Assembly, r1: Seq<RootIdx>, t1: Seq<CILRoot>, r2: Seq<RootIdx>, t2: Seq<CILRoot>)
    requires
        resolves(a, r1, t1),
        resolves(a, r2, t2),
    ensures
        resolves(a, r1 + r2, t1 + t2),
{
    assert forall|i: int| 0 <= i < (r1 + r2).len() implies a.has_root(#[trigger] (r1 + r2)[i]) && a.root((r1 + r2)[i]) == (t1 + t2)[i] by {
        if i < r1.len() {
            assert(a.has_root(r1[i]));
        } else {
            assert(a.has_root(r2[i - r1.len()]));
        }
    }
}

proof fn lemma_blocks_roots_prefix(h1: Vec<BasicBlock>, h2: Vec<BasicBlock>, n: nat)
    requires
        n <= h1@.len(),
        n <= h2@.len(),
        forall|i: int| 0 <= i < n ==> h1@[i] == h2@[i],
    ensures
        blocks_roots(h1, n) == blocks_roots(h2, n),
    decreases n,
{
    if n > 0 {
        lemma_blocks_roots_prefix(h1, h2, (n - 1) as nat);
    }
}

impl BasicBlock {
    /// Converts a block of the older form, interning its statements and those
    /// of its handler region into `assembly`.
    pub fn from_v1(v1: &V1Block, assembly: &mut Assembly) -> (r: Self)
        requires
            old(assembly).wf(),
        ensures
            final(assembly).wf(),
            old(assembly).grows(*final(assembly)),
            r.spec_block_id() == v1.id,
            r.spec_handler() is Some <==> v1.handler is Some,
            resolves(*final(assembly), all_roots(r), v1_trees(*v1)),
            converted(*final(assembly), r, *v1),
        decreases v1,
    {
        let ghost start = *assembly;
        let handler: Option<Vec<Self>> = match &v1.handler {
            Some(h) => {
                let mut blocks: Vec<Self> = Vec::new();
                let m = h.len();
                let mut j: usize = 0;
                proof {
                    assert(resolves(*assembly, blocks_roots(blocks, 0), v1_blocks_trees(*h, 0)));
                }
                while j < m
                    invariant
                        v1.handler == Some(*h),
                        m == h@.len(),
                        j <= m,
                        blocks@.len() == j,
                        forall|k: int| 0 <= k < j ==> converted(*assembly, blocks@[k], #[trigger] h@[k]),
                        assembly.wf(),
                        start.grows(*assembly),
                        resolves(*assembly, blocks_roots(blocks, j as nat), v1_blocks_trees(*h, j as nat)),
                    decreases m - j,
                {
                    proof {
                        assert(decreases_to!(*v1 => v1.handler));
                        assert(decreases_to!(v1.handler => v1.handler->Some_0));
                        assert(decreases_to!(*h => h@[j as int]));
                        assert(decreases_to!(*v1 => h@[j as int]));
                    }
                    let ghost mid = *assembly;
                    let ghost old_blocks = blocks;
                    let b = Self::from_v1(&h[j], assembly);
                    blocks.push(b);
                    proof {
                        assert forall|k: int| 0 <= k < j + 1 implies converted(*assembly, blocks@[k], #[trigger] h@[k]) by {
                            if k < j {
                                assert(blocks@[k] == old_blocks@[k]);
                                lemma_converted_grows(mid, *assembly, old_blocks@[k], h@[k]);
                            } else {
                                assert(blocks@[k] == b);
                            }
                        }
                        lemma_grows_trans(start, mid, *assembly);
                        lemma_blocks_roots_prefix(old_blocks, blocks, j as nat);
                        lemma_resolves_grows(mid, *assembly, blocks_roots(old_blocks, j as nat), v1_blocks_trees(*h, j as nat));
                        assert(blocks@[j as int] == b);
                        lemma_resolves_concat(
                            *assembly,
                            blocks_roots(blocks, j as nat),
                            v1_blocks_trees(*h, j as nat),
                            all_roots(b),
                            v1_trees(h@[j as int]),
                        );
                    }
                    j += 1;
                }
                Some(blocks)
            },
            None => None,
        };
        let ghost after_handler = *assembly;
        let n = v1.trees.len();
        let mut roots: Vec<RootIdx> = Vec::new();
        let mut i: usize = 0;
        while i < n
            invariant
                n == v1.trees@.len(),
                i <= n,
                assembly.wf(),
                start.grows(after_handler),
                after_handler.grows(*assembly),
                resolves(*assembly, roots@, v1.trees@.take(i as int)),
            decreases n - i,
        {
            let ghost mid = *assembly;
            let idx = assembly.alloc_root(v1.trees[i]);
            proof {
                lemma_grows_trans(after_handler, mid, *assembly);
                lemma_resolves_grows(mid, *assembly, roots@, v1.trees@.take(i as int));
            }
            roots.push(idx);
            proof {
                assert(v1.trees@.take(i + 1) =~= v1.trees@.take(i as int).push(v1.trees@[i as int]));
                assert(resolves(*assembly, roots@, v1.trees@.take(i + 1)));
            }
            i += 1;
        }
        proof {
            assert(v1.trees@.take(n as int) =~= v1.trees@);
            lemma_grows_trans(start, after_handler, *assembly);
        }
        let ghost hv = handler;
        let r = Self::new(roots, v1.id, handler);
        proof {
            match hv {
                Some(blocks) => {
                    let h = v1.handler->Some_0;
                    lemma_resolves_grows(after_handler, *assembly, blocks_roots(blocks, blocks@.len()), v1_blocks_trees(h, h@.len()));
                    assert forall|k: int| 0 <= k < h@.len() implies converted(*assembly, blocks@[k], #[trigger] h@[k]) by {
                        lemma_converted_grows(after_handler, *assembly, blocks@[k], h@[k]);
                    }
                    lemma_resolves_concat(*assembly, roots@, v1.trees@, blocks_roots(blocks, blocks@.len()), v1_blocks_trees(h, h@.len()));
                },
                None => {
                    assert(all_roots(r) =~= roots@);
                    assert(v1_trees(*v1) =~= v1.trees@);
                },
            }
        }
        r
    }
}

/// `b` has the form of `a`: the same block id and number of own statements
/// and, at every level, the same handler blocks in number and form.
pub open spec fn same_shape(a: BasicBlock, b: BasicBlock) -> bool
    decreases a,
{
    &&& a.spec_block_id() == b.spec_block_id()
    &&& a.spec_roots().len() == b.spec_roots().len()
    &&& match (a.spec_handler(), b.spec_handler()) {
        (None, None) => true,
        (Some(x), Some(y)) => x.len() == y.len() && forall|i: int|
            0 <= i < x.len() ==> same_shape(#[trigger] x[i], y[i]),
        _ => false,
    }
}

/// Every handle of `s` is live in `assembly`, and so is every node it reads.
pub open spec fn all_live(assembly: Assembly, s: Seq<RootIdx>) -> bool {
    forall|i: int| 0 <= i < s.len() ==> assembly.root_live(#[trigger] s[i])
}

/// `after` holds, position by position, the rewrites of the statements that
/// `before` held in `a0`: operand trees through `nf`, then statements through
/// `rf`, all re-interned.
pub open spec fn mapped<R: Fn(CILRoot) -> CILRoot, F: Fn(CILNode) -> CILNode>(
    rf: &R,
    nf: &F,
    a0: Assembly,
    before: Seq<RootIdx>,
    a1: Assembly,
    after: Seq<RootIdx>,
) -> bool {
    &&& after.len() == before.len()
    &&& forall|i: int| 0 <= i < before.len() ==> root_mapped(rf, nf, a0, #[trigger] before[i], a1, after[i])
}

proof fn lemma_mapped_grows<R: Fn(CILRoot) -> CILRoot, F: Fn(CILNode) -> CILNode>(
    rf: &R,
    nf: &F,
    a0: Assembly,
    before: Seq<RootIdx>,
    a1: Assembly,
    after: Seq<RootIdx>,
    a2: Assembly,
)
    requires
        mapped(rf, nf, a0, before, a1, after),
        a1.grows(a2),
    ensures
        mapped(rf, nf, a0, before, a2, after),
{
    assert forall|i: int| 0 <= i < before.len() implies root_mapped(rf, nf, a0, #[trigger] before[i], a2, after[i]) by {
        lemma_root_mapped_grows(rf, nf, a0, before[i], a1, after[i], a2);
    }
}

proof fn lemma_mapped_base<R: Fn(CILRoot) -> CILRoot, F: Fn(CILNode) -> CILNode>(
    rf: &R,
    nf: &F,
    a0: Assembly,
    amid: Assembly,
    before: Seq<RootIdx>,
    a1: Assembly,
    after: Seq<RootIdx>,
)
    requires
        mapped(rf, nf, amid, before, a1, after),
        a0.wf(),
        a0.grows(amid),
        all_live(a0, before),
    ensures
        mapped(rf, nf, a0, before, a1, after),
{
    assert forall|i: int| 0 <= i < before.len() implies root_mapped(rf, nf, a0, #[trigger] before[i], a1, after[i]) by {
        lemma_root_mapped_base(rf, nf, a0, amid, before[i], a1, after[i]);
    }
}

proof fn lemma_mapped_concat<R: Fn(CILRoot) -> CILRoot, F: Fn(CILNode) -> CILNode>(
    rf: &R,
    nf: &F,
    a0: Assembly,
    b1: Seq<RootIdx>,
    b2: Seq<RootIdx>,
    a1: Assembly,
    c1: Seq<RootIdx>,
    c2: Seq<RootIdx>,
)
    requires
        mapped(rf, nf, a0, b1, a1, c1),
        mapped(rf, nf, a0, b2, a1, c2),
    ensures
        mapped(rf, nf, a0, b1 + b2, a1, c1 + c2),
{
    assert forall|i: int| 0 <= i < (b1 + b2).len() implies root_mapped(rf, nf, a0, #[trigger] (b1 + b2)[i], a1, (c1 + c2)[i]) by {
        if i < b1.len() {
            assert(root_mapped(rf, nf, a0, b1[i], a1, c1[i]));
        } else {
            assert(root_mapped(rf, nf, a0, b2[i - b1.len()], a1, c2[i - b1.len()]));
        }
    }
}

proof fn lemma_root_live_grows(a: Assembly, b: Assembly, r: RootIdx)
    requires
        a.root_live(r),
        a.grows(b),
    ensures
        b.root_live(r),
{
    assert(b.root_seq()[r.index()] == a.root_seq()[r.index()]);
    assert forall|k: int| 0 <= k < operands(b.root(r)).len() implies b.has_node(#[trigger] operands(b.root(r))[k]) by {
        assert(a.has_node(operands(a.root(r))[k]));
    }
}

proof fn lemma_live_split(a: Assembly, s1: Seq<RootIdx>, s2: Seq<RootIdx>)
    requires
        all_live(a, s1 + s2),
    ensures
        all_live(a, s1),
        all_live(a, s2),
{
    assert forall|i: int| 0 <= i < s1.len() implies a.root_live(#[trigger] s1[i]) by {
        assert((s1 + s2)[i] == s1[i]);
    }
    assert forall|i: int| 0 <= i < s2.len() implies a.root_live(#[trigger] s2[i]) by {
        assert((s1 + s2)[i + s1.len()] == s2[i]);
    }
}

proof fn lemma_block_live(a: Assembly, h: Vec<BasicBlock>, j: nat, n: nat)
    requires
        j < n <= h@.len(),
        all_live(a, blocks_roots(h, n)),
    ensures
        all_live(a, all_roots(h@[j as int])),
    decreases n,
{
    lemma_live_split(a, blocks_roots(h, (n - 1) as nat), all_roots(h@[n - 1]));
    if j < n - 1 {
        lemma_block_live(a, h, j, (n - 1) as nat);
    }
}

/// Maps every statement of `b` and of its handler region through `root_map`
/// and interns the results.
fn map_block<R: Fn(CILRoot) -> CILRoot, F: Fn(CILNode) -> CILNode>(
    b: BasicBlock,
    assembly: &mut Assembly,
    root_map: &R,
    node_map: &F,
) -> (r: BasicBlock)
    requires
        old(assembly).wf(),
        all_live(*old(assembly), all_roots(b)),
        forall|v: CILRoot| root_map.requires((v,)),
        forall|v: CILNode| node_map.requires((v,)),
        keeps_operands(node_map),
    ensures
        final(assembly).wf(),
        old(assembly).grows(*final(assembly)),
        same_shape(b, r),
        mapped(root_map, node_map, *old(assembly), all_roots(b), *final(assembly), all_roots(r)),
    decreases b,
{
    let ghost start = *assembly;
    let ghost whole = b;
    let BasicBlock { roots, block_id, handler } = b;
    proof {
        lemma_live_split(start, roots@, handler_roots(whole));
    }
    let n = roots.len();
    let mut new_roots: Vec<RootIdx> = Vec::new();
    let mut i: usize = 0;
    while i < n
        invariant
            n == roots@.len(),
            i <= n,
            assembly.wf(),
            start.grows(*assembly),
            all_live(start, roots@),
            forall|v: CILRoot| root_map.requires((v,)),
        forall|v: CILNode| node_map.requires((v,)),
        keeps_operands(node_map),
            mapped(root_map, node_map, start, roots@.take(i as int), *assembly, new_roots@),
        decreases n - i,
    {
        let ghost mid = *assembly;
        proof {
            lemma_root_live_grows(start, mid, roots@[i as int]);
        }
        let idx = assembly.map_root(roots[i], root_map, node_map);
        proof {
            lemma_grows_trans(start, mid, *assembly);
            lemma_mapped_grows(root_map, node_map, start, roots@.take(i as int), mid, new_roots@, *assembly);
        }
        new_roots.push(idx);
        proof {
            assert(roots@.take(i + 1) =~= roots@.take(i as int).push(roots@[i as int]));
            lemma_root_mapped_base(root_map, node_map, start, mid, roots@[i as int], *assembly, idx);
            assert(new_roots@[i as int] == idx);
            assert(mapped(root_map, node_map, start, roots@.take(i + 1), *assembly, new_roots@));
        }
        i += 1;
    }
    proof {
        assert(roots@.take(n as int) =~= roots@);
    }
    let ghost after_roots = *assembly;
    let new_handler: Option<Vec<BasicBlock>> = match handler {
        Some(h) => {
            let ghost orig = h;
            let mut rest = h;
            let mut out: Vec<BasicBlock> = Vec::new();
            let m = rest.len();
            let mut j: usize = 0;
            proof {
                assert(mapped(root_map, node_map, start, blocks_roots(orig, 0), *assembly, blocks_roots(out, 0)));
            }
            while j < m
                invariant
                    whole.handler == Some(orig),
                    whole == b,
                    m == orig@.len(),
                    j <= m,
                    rest@ == orig@.subrange(j as int, m as int),
                    out@.len() == j,
                    forall|k: int| 0 <= k < j ==> same_shape(#[trigger] orig@[k], out@[k]),
                    assembly.wf(),
                    start.grows(after_roots),
                    after_roots.grows(*assembly),
                    all_live(start, blocks_roots(orig, m as nat)),
                    forall|v: CILRoot| root_map.requires((v,)),
        forall|v: CILNode| node_map.requires((v,)),
        keeps_operands(node_map),
                    mapped(root_map, node_map, start, blocks_roots(orig, j as nat), *assembly, blocks_roots(out, j as nat)),
                decreases m - j,
            {
                let blk = rest.remove(0);
                proof {
                    assert(blk == orig@[j as int]);
                    assert(decreases_to!(whole => whole.handler));
                    assert(decreases_to!(whole.handler => whole.handler->Some_0));
                    assert(decreases_to!(orig => orig@[j as int]));
                    assert(decreases_to!(whole => blk));
                    lemma_block_live(start, orig, j as nat, m as nat);
                    lemma_grows_trans(start, after_roots, *assembly);
                    assert forall|k: int| 0 <= k < all_roots(blk).len() implies assembly.root_live(#[trigger] all_roots(blk)[k]) by {
                        lemma_root_live_grows(start, *assembly, all_roots(blk)[k]);
                    }
                }
                let ghost mid = *assembly;
                let ghost old_out = out;
                let mb = map_block(blk, assembly, root_map, node_map);
                out.push(mb);
                proof {
                    assert forall|k: int| 0 <= k < j + 1 implies same_shape(#[trigger] orig@[k], out@[k]) by {
                        if k < j {
                            assert(out@[k] == old_out@[k]);
                        } else {
                            assert(out@[k] == mb);
                        }
                    }
                    assert(rest@ =~= orig@.subrange(j + 1, m as int));
                    lemma_grows_trans(after_roots, mid, *assembly);
                    lemma_grows_trans(start, mid, *assembly);
                    lemma_mapped_base(root_map, node_map, start, mid, all_roots(blk), *assembly, all_roots(mb));
                    lemma_blocks_roots_prefix(old_out, out, j as nat);
                    lemma_mapped_grows(root_map, node_map, start, blocks_roots(orig, j as nat), mid, blocks_roots(old_out, j as nat), *assembly);
                    assert(out@[j as int] == mb);
                    lemma_mapped_concat(
                        root_map,
                        node_map,
                        start,
                        blocks_roots(orig, j as nat),
                        all_roots(blk),
                        *assembly,
                        blocks_roots(out, j as nat),
                        all_roots(mb),
                    );
                }
                j += 1;
            }
            Some(out)
        },
        None => None,
    };
    proof {
        lemma_grows_trans(start, after_roots, *assembly);
        lemma_mapped_grows(root_map, node_map, start, roots@, after_roots, new_roots@, *assembly);
    }
    let ghost nh = new_handler;
    let r = BasicBlock { roots: new_roots, block_id, handler: new_handler };
    proof {
        assert(new_roots@.len() == roots@.len());
        match nh {
            Some(out) => {
                let orig = whole.handler->Some_0;
                lemma_mapped_concat(
                    root_map,
                    node_map,
                    start,
                    roots@,
                    blocks_roots(orig, orig@.len()),
                    *assembly,
                    new_roots@,
                    blocks_roots(out, out@.len()),
                );
            },
            None => {
                assert(all_roots(r) =~= new_roots@);
                assert(all_roots(whole) =~= roots@);
            },
        }
    }
    r
}

impl BasicBlock {
    /// Rewrites every statement of this block and of its handler region
    /// through `root_map`, re-interning each result and replacing its handle
    /// in place.
    pub fn map_roots<R: Fn(CILRoot) -> CILRoot, F: Fn(CILNode) -> CILNode>(
        &mut self,
        assembly: &mut Assembly,
        root_map: &R,
        node_map: &F,
    )
        requires
            old(assembly).wf(),
            all_live(*old(assembly), all_roots(*old(self))),
            forall|v: CILRoot| root_map.requires((v,)),
        forall|v: CILNode| node_map.requires((v,)),
        keeps_operands(node_map),
        ensures
            final(assembly).wf(),
            old(assembly).grows(*final(assembly)),
            same_shape(*old(self), *final(self)),
            mapped(root_map, node_map, *old(assembly), all_roots(*old(self)), *final(assembly), all_roots(*final(self))),
            (forall|v: CILRoot, w: CILRoot| root_map.ensures((v,), w) ==> w == v) && (forall|v: CILNode, w: CILNode|
                node_map.ensures((v,), w) ==> w == v) ==> all_roots(*final(self)) == all_roots(*old(self)),
    {
        let ghost a0 = *assembly;
        let mut b = BasicBlock::new(Vec::new(), 0, None);
        std::mem::swap(self, &mut b);
        *self = map_block(b, assembly, root_map, node_map);
        proof {
            if (forall|v: CILRoot, w: CILRoot| root_map.ensures((v,), w) ==> w == v) && (forall|v: CILNode, w: CILNode|
                node_map.ensures((v,), w) ==> w == v) {
                lemma_identity_map_keeps_roots(root_map, node_map, a0, all_roots(b), *assembly, all_roots(*self));
            }
        }
    }
}

/// Mapping through functions that return their argument re-interns every
/// statement to the handle it already had.
pub proof fn lemma_identity_map_keeps_roots<R: Fn(CILRoot) -> CILRoot, F: Fn(CILNode) -> CILNode>(
    rf: &R,
    nf: &F,
    a0: Assembly,
    before: Seq<RootIdx>,
    a1: Assembly,
    after: Seq<RootIdx>,
)
    requires
        a0.grows(a1),
        a1.wf(),
        all_live(a0, before),
        mapped(rf, nf, a0, before, a1, after),
        forall|v: CILRoot, w: CILRoot| rf.ensures((v,), w) ==> w == v,
        forall|v: CILNode, w: CILNode| nf.ensures((v,), w) ==> w == v,
    ensures
        after == before,
{
    assert forall|i: int| 0 <= i < before.len() implies after[i] == before[i] by {
        assert(a0.root_live(before[i]));
        lemma_root_identity(rf, nf, a0, before[i], a1, after[i]);
    }
    assert(after =~= before);
}

/// Filtering keeps only handles drawn from the sequence.
proof fn lemma_meaningful_in(assembly: Assembly, s: Seq<RootIdx>)
    ensures
        forall|i: int| 0 <= i < meaningful_of(assembly, s).len() ==> s.contains(
            #[trigger] meaningful_of(assembly, s)[i],
        ),
    decreases s.len(),
{
    if s.len() > 0 {
        lemma_meaningful_in(assembly, s.drop_last());
        let m = meaningful_of(assembly, s);
        let m0 = meaningful_of(assembly, s.drop_last());
        assert forall|i: int| 0 <= i < m.len() implies s.contains(#[trigger] m[i]) by {
            if i < m0.len() {
                assert(m[i] == m0[i]);
                let k = choose|k: int| 0 <= k < s.drop_last().len() && s.drop_last()[k] == m0[i];
                assert(s[k] == m[i]);
            } else {
                assert(m[i] == s.last());
                assert(s[s.len() - 1] == m[i]);
            }
        }
    }
}

/// The traversals of `hs`, one after the other, in order.
pub open spec fn concat_traversals(hs: Seq<BasicBlock>) -> Seq<RootIdx>
    decreases hs.len(),
{
    if hs.len() == 0 {
        Seq::empty()
    } else {
        concat_traversals(hs.drop_last()) + all_roots(hs.last())
    }
}

/// The traversal of the handler region of `b`: each handler block's own
/// traversal, in block order.
pub open spec fn handler_traversal(b: BasicBlock) -> Seq<RootIdx> {
    match b.spec_handler() {
        Some(hs) => concat_traversals(hs),
        None => Seq::empty(),
    }
}

proof fn lemma_blocks_roots_concat(h: Vec<BasicBlock>, n: nat)
    requires
        n <= h@.len(),
    ensures
        blocks_roots(h, n) == concat_traversals(h@.take(n as int)),
    decreases n,
{
    if n > 0 {
        lemma_blocks_roots_concat(h, (n - 1) as nat);
        assert(h@.take(n as int).drop_last() =~= h@.take(n - 1));
    } else {
        assert(h@.take(0) =~= Seq::<BasicBlock>::empty());
    }
}

/// Traversal is complete and ordered: a block yields its own statements and
/// then, block by block, the whole traversal of each handler block. Its
/// length is the number of own statements plus that of the handler region.
pub proof fn lemma_traversal_complete(b: BasicBlock)
    ensures
        all_roots(b) == b.spec_roots() + handler_traversal(b),
        all_roots(b).len() == b.spec_roots().len() + handler_traversal(b).len(),
{
    if let Some(h) = b.handler {
        lemma_blocks_roots_concat(h, h@.len());
        assert(h@.take(h@.len() as int) =~= h@);
    } else {
        assert(all_roots(b) =~= b.spec_roots() + handler_traversal(b));
    }
}

} // verus!
