//! The control-flow graph: basic blocks keyed by integer labels, edges
//! carrying a branch weight, and the builder that splits an instruction
//! stream at its leaders.
use vstd::prelude::*;
use crate::errors::Error;
use crate::instructions::{Instruction, Jump, JumpCondition};
use crate::unit::Code;

verus! {

broadcast use vstd::std_specs::vec::group_vec_axioms;

/// A node key of the graph.
pub type Label = usize;

/// The weight of an edge: which way a branch went.
pub type Edge = bool;

/// A straight-line run of statements, with the branch condition that
/// ends it, if any.  A block with a terminator has two outgoing edges,
/// `true` and `false`; one without has at most one, weighted `false`.
#[derive(Debug, PartialEq)]
pub struct BasicBlock<S, C> {
    pub stmts: Vec<S>,
    pub terminator: Option<C>,
}

impl<S, C> BasicBlock<S, C> {
    /// An empty block without terminator.
    pub fn empty() -> (r: BasicBlock<S, C>)
        ensures
            r.stmts@.len() == 0,
            r.terminator is None,
    {
        BasicBlock { stmts: Vec::new(), terminator: None }
    }
}

/// An adjacency-list digraph: node weights in `nodes`, and edges as
/// `(source, target, weight)` triples in insertion order.
#[derive(Debug, PartialEq)]
pub struct CfgGraph<S, C> {
    pub nodes: Vec<BasicBlock<S, C>>,
    pub edges: Vec<(usize, usize, bool)>,
}

/// The outgoing edges of `v`, as `(target, weight)` pairs in order.
pub open spec fn out_edges_spec(edges: Seq<(usize, usize, bool)>, v: usize) -> Seq<(usize, bool)>
    decreases edges.len(),
{
    if edges.len() == 0 {
        Seq::empty()
    } else {
        let rest = out_edges_spec(edges.drop_last(), v);
        if edges.last().0 == v {
            rest.push((edges.last().1, edges.last().2))
        } else {
            rest
        }
    }
}

/// The sources of the incoming edges of `v`, in order.
pub open spec fn in_sources_spec(edges: Seq<(usize, usize, bool)>, v: usize) -> Seq<usize>
    decreases edges.len(),
{
    if edges.len() == 0 {
        Seq::empty()
    } else {
        let rest = in_sources_spec(edges.drop_last(), v);
        if edges.last().1 == v {
            rest.push(edges.last().0)
        } else {
            rest
        }
    }
}

impl<S, C> CfgGraph<S, C> {
    /// Both endpoints of every edge name a node.
    pub open spec fn wf(&self) -> bool {
        forall|k: int| 0 <= k < self.edges@.len() ==> (#[trigger] self.edges@[k]).0 < self.nodes@.len()
            && self.edges@[k].1 < self.nodes@.len()
    }

    pub fn new() -> (r: CfgGraph<S, C>)
        ensures
            r.nodes@.len() == 0,
            r.edges@.len() == 0,
            r.wf(),
    {
        CfgGraph { nodes: Vec::new(), edges: Vec::new() }
    }

    pub fn node_count(&self) -> (r: usize)
        ensures
            r == self.nodes@.len(),
    {
        self.nodes.len()
    }

    /// Append a node; its label is the previous node count.
    pub fn add_node(&mut self, bb: BasicBlock<S, C>) -> (r: Label)
        requires
            old(self).nodes@.len() < usize::MAX,
        ensures
            r == old(self).nodes@.len(),
            final(self).nodes@ == old(self).nodes@.push(bb),
            final(self).edges@ == old(self).edges@,
            old(self).wf() ==> final(self).wf(),
    {
        let label = self.nodes.len();
        self.nodes.push(bb);
        label
    }

    /// Append an edge from `a` to `b` with weight `w`.
    pub fn add_edge(&mut self, a: Label, b: Label, w: bool)
        requires
            a < old(self).nodes@.len(),
            b < old(self).nodes@.len(),
        ensures
            final(self).nodes@ == old(self).nodes@,
            final(self).edges@ == old(self).edges@.push((a, b, w)),
            old(self).wf() ==> final(self).wf(),
    {
        self.edges.push((a, b, w));
    }

    /// The outgoing edges of `v`, as `(target, weight)` pairs.
    pub fn out_edges(&self, v: Label) -> (r: Vec<(usize, bool)>)
        ensures
            r@ == out_edges_spec(self.edges@, v),
    {
        let mut r: Vec<(usize, bool)> = Vec::new();
        let mut k: usize = 0;
        let n = self.edges.len();
        while k < n
            invariant
                n == self.edges@.len(),
                0 <= k <= n,
                r@ == out_edges_spec(self.edges@.subrange(0, k as int), v),
            decreases n - k,
        {
            let e = self.edges[k];
            proof {
                assert(self.edges@.subrange(0, k + 1).drop_last() =~= self.edges@.subrange(0, k as int));
                assert(self.edges@.subrange(0, k + 1).last() == self.edges@[k as int]);
            }
            if e.0 == v {
                r.push((e.1, e.2));
            }
            k = k + 1;
        }
        proof {
            assert(self.edges@.subrange(0, n as int) =~= self.edges@);
        }
        r
    }

    /// The sources of the incoming edges of `v`.
    pub fn in_sources(&self, v: Label) -> (r: Vec<usize>)
        ensures
            r@ == in_sources_spec(self.edges@, v),
    {
        let mut r: Vec<usize> = Vec::new();
        let mut k: usize = 0;
        let n = self.edges.len();
        while k < n
            invariant
                n == self.edges@.len(),
                0 <= k <= n,
                r@ == in_sources_spec(self.edges@.subrange(0, k as int), v),
            decreases n - k,
        {
            let e = self.edges[k];
            proof {
                assert(self.edges@.subrange(0, k + 1).drop_last() =~= self.edges@.subrange(0, k as int));
                assert(self.edges@.subrange(0, k + 1).last() == self.edges@[k as int]);
            }
            if e.1 == v {
                r.push(e.0);
            }
            k = k + 1;
        }
        proof {
            assert(self.edges@.subrange(0, n as int) =~= self.edges@);
        }
        r
    }

    /// Whether some edge runs from `a` to `b`.
    pub fn has_edge(&self, a: Label, b: Label) -> (r: bool)
        ensures
            r == exists|k: int| 0 <= k < self.edges@.len() && (#[trigger] self.edges@[k]).0 == a
                && self.edges@[k].1 == b,
    {
        let mut k: usize = 0;
        let n = self.edges.len();
        while k < n
            invariant
                n == self.edges@.len(),
                0 <= k <= n,
                forall|j: int| 0 <= j < k ==> !((#[trigger] self.edges@[j]).0 == a && self.edges@[j].1 == b),
            decreases n - k,
        {
            let e = self.edges[k];
            if e.0 == a && e.1 == b {
                return true;
            }
            k = k + 1;
        }
        false
    }
}

/// A control-flow graph with a distinguished entry and exit node.
#[derive(Debug, PartialEq)]
pub struct Cfg<S, C> {
    pub graph: CfgGraph<S, C>,
    pub entry_point: Label,
    pub exit_point: Label,
}

impl<S, C> Cfg<S, C> {
    /// Entry and exit name nodes, every edge is in range, and the exit
    /// has no outgoing edges.
    pub open spec fn wf(&self) -> bool {
        &&& self.graph.wf()
        &&& self.entry_point < self.graph.nodes@.len()
        &&& self.exit_point < self.graph.nodes@.len()
        &&& out_edges_spec(self.graph.edges@, self.exit_point) == Seq::<(usize, bool)>::empty()
    }
}

/// An instruction that ends a straight-line run: a jump or a return.
pub open spec fn ends_block(i: Instruction) -> bool {
    i is Jump || i is Return
}

/// Instruction `k` is a jump whose target is instruction `j`: `j` is
/// the first instruction carrying the jump's byte offset.
pub open spec fn is_jump_to(instrs: Seq<(u16, Instruction)>, k: int, j: int) -> bool {
    instrs[k].1 matches Instruction::Jump(jp) && 0 <= j < instrs.len() && instrs[j].0 == jp.address
        && forall|m: int| 0 <= m < j ==> (#[trigger] instrs[m]).0 != jp.address
}

/// Whether instruction `j` begins a basic block: the first
/// instruction, every jump target, and whatever follows a jump or a
/// return.
pub open spec fn spec_is_leader(instrs: Seq<(u16, Instruction)>, j: int) -> bool {
    ||| j == 0 && instrs.len() > 0
    ||| exists|k: int| 0 <= k < instrs.len() && #[trigger] is_jump_to(instrs, k, j)
    ||| (0 < j < instrs.len() && ends_block(instrs[j - 1].1))
}

/// Where block `b` ends: at the next leader, or at the end of the
/// stream.
pub open spec fn block_end(instrs: Seq<(u16, Instruction)>, starts: Seq<int>, b: int) -> int {
    if b + 1 < starts.len() {
        starts[b + 1]
    } else {
        instrs.len() as int
    }
}

/// Block `b` holds exactly its slice of the instruction stream; a
/// trailing jump is dropped, and a conditional one leaves its
/// condition as the terminator.
pub open spec fn block_matches(
    instrs: Seq<(u16, Instruction)>,
    node: BasicBlock<Instruction, JumpCondition>,
    starts: Seq<int>,
    b: int,
) -> bool {
    let start = starts[b];
    let end = block_end(instrs, starts, b);
    match instrs[end - 1].1 {
        Instruction::Jump(jp) => {
            &&& node.stmts@.len() == end - 1 - start
            &&& forall|k: int| 0 <= k < end - 1 - start ==> #[trigger] node.stmts@[k]
                == instrs[start + k].1
            &&& node.terminator == jp.condition
        },
        _ => {
            &&& node.stmts@.len() == end - start
            &&& forall|k: int| 0 <= k < end - start ==> #[trigger] node.stmts@[k]
                == instrs[start + k].1
            &&& node.terminator is None
        },
    }
}

/// `t` is the first instruction that sits at byte offset `pc`.
pub open spec fn first_index_of_pc(instrs: Seq<(u16, Instruction)>, pc: u16, t: int) -> bool {
    0 <= t < instrs.len() && instrs[t].0 == pc && forall|m: int|
        0 <= m < t ==> (#[trigger] instrs[m]).0 != pc
}

/// The outgoing edges a block owes to its last instruction: both
/// branch edges for a conditional jump, the branch edge alone for an
/// unconditional one, the edge to the exit for a return, and the
/// fall-through edge otherwise.
pub open spec fn block_edges_ok(
    instrs: Seq<(u16, Instruction)>,
    starts: Seq<int>,
    edges: Seq<(usize, usize, bool)>,
    b: int,
    exit: usize,
) -> bool {
    let end = block_end(instrs, starts, b);
    let o = out_edges_spec(edges, b as usize);
    match instrs[end - 1].1 {
        Instruction::Jump(jp) => {
            if jp.condition is Some {
                exists|tb: int| 0 <= tb < starts.len() && first_index_of_pc(
                    instrs,
                    jp.address,
                    #[trigger] starts[tb],
                ) && o == seq![(((b + 1) as usize), false), ((tb as usize), true)]
            } else {
                exists|tb: int| 0 <= tb < starts.len() && first_index_of_pc(
                    instrs,
                    jp.address,
                    #[trigger] starts[tb],
                ) && o == seq![((tb as usize), false)]
            }
        },
        Instruction::Return(_) => o == seq![(exit, false)],
        _ => o == seq![(((b + 1) as usize), false)],
    }
}

/// The edges a block owes before the graph is closed: as after
/// closing, except that a return block still has none.
pub open spec fn pre_closure_edges_ok(
    instrs: Seq<(u16, Instruction)>,
    starts: Seq<int>,
    edges: Seq<(usize, usize, bool)>,
    b: int,
) -> bool {
    let end = block_end(instrs, starts, b);
    let o = out_edges_spec(edges, b as usize);
    match instrs[end - 1].1 {
        Instruction::Jump(jp) => {
            if jp.condition is Some {
                exists|tb: int| 0 <= tb < starts.len() && first_index_of_pc(
                    instrs,
                    jp.address,
                    #[trigger] starts[tb],
                ) && o == seq![(((b + 1) as usize), false), ((tb as usize), true)]
            } else {
                exists|tb: int| 0 <= tb < starts.len() && first_index_of_pc(
                    instrs,
                    jp.address,
                    #[trigger] starts[tb],
                ) && o == seq![((tb as usize), false)]
            }
        },
        Instruction::Return(_) => o == Seq::<(usize, bool)>::empty(),
        _ => o == seq![(((b + 1) as usize), false)],
    }
}

/// Either edge obligation only reads a block's own outgoing list, so
/// appending edges of other sources leaves it satisfied.
proof fn lemma_edges_ok_stable(
    instrs: Seq<(u16, Instruction)>,
    starts: Seq<int>,
    e1: Seq<(usize, usize, bool)>,
    e2: Seq<(usize, usize, bool)>,
    b: int,
    exit: usize,
)
    requires
        out_edges_spec(e2, b as usize) == out_edges_spec(e1, b as usize),
    ensures
        pre_closure_edges_ok(instrs, starts, e1, b) ==> pre_closure_edges_ok(instrs, starts, e2, b),
        block_edges_ok(instrs, starts, e1, b, exit) ==> block_edges_ok(instrs, starts, e2, b, exit),
{
}

/// The graph's blocks partition the instruction stream at exactly
/// its leaders: there is a list of split points with that property,
/// and each block's edges follow its last instruction.
pub open spec fn partitioned_at_leaders(
    instrs: Seq<(u16, Instruction)>,
    nodes: Seq<BasicBlock<Instruction, JumpCondition>>,
    edges: Seq<(usize, usize, bool)>,
    exit: usize,
) -> bool {
    exists|starts: Seq<int>| #[trigger] blocks_partition(instrs, nodes, starts)
        && forall|b: int| 0 <= b < starts.len() ==> block_edges_ok(instrs, starts, edges, b, exit)
}

/// The blocks of the graph partition the instruction stream at
/// exactly its leaders, in order.
pub open spec fn blocks_partition(
    instrs: Seq<(u16, Instruction)>,
    nodes: Seq<BasicBlock<Instruction, JumpCondition>>,
    starts: Seq<int>,
) -> bool {
    let nb = starts.len() as int;
    &&& nodes.len() == nb + 2
    &&& nb >= 1
    &&& starts[0] == 0
    &&& forall|a: int, b: int| 0 <= a < b < nb ==> starts[a] < starts[b]
    &&& forall|b: int| 0 <= b < nb ==> 0 <= #[trigger] starts[b] < instrs.len()
    &&& forall|j: int| 0 <= j < instrs.len() ==> (#[trigger] spec_is_leader(instrs, j)
        <==> starts.contains(j))
    &&& forall|b: int| 0 <= b < nb ==> block_matches(instrs, #[trigger] nodes[b], starts, b)
}

/// Find the index of the instruction that sits at byte offset `pc`.
fn find_pc_index(instrs: &Vec<(u16, Instruction)>, pc: u16) -> (r: Option<usize>)
    ensures
        match r {
            Some(i) => i < instrs@.len() && instrs@[i as int].0 == pc && forall|m: int|
                0 <= m < i ==> (#[trigger] instrs@[m]).0 != pc,
            None => forall|i: int| 0 <= i < instrs@.len() ==> (#[trigger] instrs@[i]).0 != pc,
        },
{
    let mut i: usize = 0;
    let n = instrs.len();
    while i < n
        invariant
            n == instrs@.len(),
            0 <= i <= n,
            forall|j: int| 0 <= j < i ==> (#[trigger] instrs@[j]).0 != pc,
        decreases n - i,
    {
        if instrs[i].0 == pc {
            return Some(i);
        }
        i = i + 1;
    }
    None
}

} // verus!

verus! {

/// The outgoing shape a block must have: two ordered edges, fall
/// through `false` before branch `true`, exactly when it has a
/// terminator; otherwise a single `false` edge.
pub open spec fn block_out_ok(has_terminator: bool, o: Seq<(usize, bool)>) -> bool {
    if has_terminator {
        o.len() == 2 && o[0].1 == false && o[1].1 == true
    } else {
        o.len() == 1 && o[0].1 == false
    }
}

/// Appending an edge only extends the outgoing list of its source.
proof fn lemma_out_push(edges: Seq<(usize, usize, bool)>, e: (usize, usize, bool), v: usize)
    ensures
        out_edges_spec(edges.push(e), v) == if e.0 == v {
            out_edges_spec(edges, v).push((e.1, e.2))
        } else {
            out_edges_spec(edges, v)
        },
{
    assert(edges.push(e).drop_last() =~= edges);
}

/// An instruction stream the builder must refuse: an empty or
/// oversized stream, a jump to a byte offset that is no instruction
/// boundary, or a last instruction that would fall off the end.
pub open spec fn cfg_input_defect(instrs: Seq<(u16, Instruction)>) -> bool {
    ||| instrs.len() == 0
    ||| instrs.len() >= usize::MAX - 2
    ||| exists|k: int| 0 <= k < instrs.len() && ((#[trigger] instrs[k]).1
        matches Instruction::Jump(jp) && !(exists|t: int| first_index_of_pc(instrs, jp.address, t)))
    ||| !(instrs.last().1 is Return || (instrs.last().1 matches Instruction::Jump(jp)
        && jp.condition is None))
}

/// A well-formed control-flow graph of instructions: blocks in label
/// order, then a synthetic entry, then a synthetic exit; every node
/// but the exit flows on, blocks branch exactly when they keep a
/// terminator.
pub open spec fn built_cfg_ok(cfg: Cfg<Instruction, JumpCondition>) -> bool {
    &&& cfg.wf()
    &&& cfg.graph.nodes@.len() >= 3
    &&& cfg.entry_point == cfg.graph.nodes@.len() - 2
    &&& cfg.exit_point == cfg.graph.nodes@.len() - 1
    &&& cfg.graph.nodes@[cfg.entry_point as int].stmts@.len() == 0
    &&& cfg.graph.nodes@[cfg.entry_point as int].terminator is None
    &&& cfg.graph.nodes@[cfg.exit_point as int].stmts@.len() == 0
    &&& cfg.graph.nodes@[cfg.exit_point as int].terminator is None
    &&& out_edges_spec(cfg.graph.edges@, cfg.entry_point) == seq![(0usize, false)]
    &&& forall|v: usize| v < cfg.graph.nodes@.len() && v != cfg.exit_point ==> block_out_ok(
            cfg.graph.nodes@[v as int].terminator is Some,
            #[trigger] out_edges_spec(cfg.graph.edges@, v),
        )
}

/// Split a method's instruction stream into basic blocks.
///
/// Leaders are the first instruction, every jump target, and every
/// instruction after a jump or return.  A conditional jump leaves its
/// condition as the block's terminator and two edges, fall-through
/// `false` and branch-taken `true`; an unconditional jump becomes one
/// edge; a return flows to the synthetic exit.
#[verifier::rlimit(60)]
pub fn build_cfg(code: Code) -> (r: Result<Cfg<Instruction, JumpCondition>, Error>)
    ensures
        match r {
            Ok(cfg) => built_cfg_ok(cfg) && partitioned_at_leaders(
                code.instructions@,
                cfg.graph.nodes@,
                cfg.graph.edges@,
                cfg.exit_point,
            ),
            Err(e) => cfg_input_defect(code.instructions@),
        },
{
    let instrs = code.instructions;
    let n = instrs.len();
    if n == 0 {
        return Err(Error::TruncatedInput { pc: 0 });
    }
    if n >= usize::MAX - 2 {
        return Err(Error::OversizedCode);
    }

    // Mark the leaders.
    let mut is_leader: Vec<bool> = Vec::new();
    let mut i: usize = 0;
    while i < n
        invariant
            0 <= i <= n,
            is_leader@.len() == i as int,
            forall|j: int| 0 <= j < i ==> is_leader@[j] == (j == 0),
        decreases n - i,
    {
        is_leader.push(i == 0);
        i = i + 1;
    }
    i = 0;
    while i < n
        invariant
            n == instrs@.len(),
            instrs@ == code.instructions@,
            n > 0,
            0 <= i <= n,
            is_leader@.len() == n,
            is_leader@[0] == true,
            forall|k: int| 0 <= k < i ==> ((#[trigger] instrs@[k]).1
                matches Instruction::Jump(jp) ==> exists|t: int| first_index_of_pc(
                    instrs@,
                    jp.address,
                    t,
                )),
            forall|j: int| 0 <= j < n ==> #[trigger] is_leader@[j] == (
                j == 0
                || (exists|k: int| 0 <= k < i && #[trigger] is_jump_to(instrs@, k, j))
                || (0 < j && j - 1 < i && ends_block(instrs@[j - 1].1))
            ),
        decreases n - i,
    {
        let ghost pre = is_leader@;
        match &instrs[i].1 {
            Instruction::Jump(jump) => {
                let t = match find_pc_index(&instrs, jump.address) {
                    Some(t) => t,
                    None => {
                        proof {
                            assert(instrs@[i as int].1 matches Instruction::Jump(jp) && jp
                                == *jump);
                            assert(forall|t2: int| !first_index_of_pc(
                                instrs@,
                                jump.address,
                                t2,
                            ));
                            assert(cfg_input_defect(instrs@));
                        }
                        return Err(Error::BadJumpTarget { address: jump.address });
                    }
                };
                proof {
                    assert(first_index_of_pc(instrs@, jump.address, t as int));
                }
                is_leader.set(t, true);
                if i + 1 < n {
                    is_leader.set(i + 1, true);
                }
                proof {
                    assert(instrs@[i as int].1 matches Instruction::Jump(jp) && jp == *jump);
                    assert(is_jump_to(instrs@, i as int, t as int));
                    assert forall|j: int| 0 <= j < n implies #[trigger] is_leader@[j] == (
                        j == 0
                        || (exists|k: int| 0 <= k < i + 1 && #[trigger] is_jump_to(instrs@, k, j))
                        || (0 < j && j - 1 < i + 1 && ends_block(instrs@[j - 1].1))
                    ) by {
                        if j == t || j == i + 1 {
                            assert(is_leader@[j]);
                        } else {
                            assert(is_leader@[j] == pre[j]);
                            if exists|k: int| 0 <= k < i + 1 && #[trigger] is_jump_to(instrs@, k, j) {
                                let k = choose|k: int| 0 <= k < i + 1 && #[trigger] is_jump_to(instrs@, k, j);
                                if k == i {
                                    assert(is_jump_to(instrs@, i as int, j));
                                    assert(j == t);
                                }
                            }
                        }
                    }
                }
            }
            Instruction::Return(_) => {
                if i + 1 < n {
                    is_leader.set(i + 1, true);
                }
                proof {
                    assert forall|j: int| 0 <= j < n implies #[trigger] is_leader@[j] == (
                        j == 0
                        || (exists|k: int| 0 <= k < i + 1 && #[trigger] is_jump_to(instrs@, k, j))
                        || (0 < j && j - 1 < i + 1 && ends_block(instrs@[j - 1].1))
                    ) by {
                        if j == i + 1 {
                            assert(is_leader@[j]);
                        } else {
                            assert(is_leader@[j] == pre[j]);
                            assert(!(instrs@[i as int].1 is Jump));
                            if exists|k: int| 0 <= k < i + 1 && #[trigger] is_jump_to(instrs@, k, j) {
                                let k = choose|k: int| 0 <= k < i + 1 && #[trigger] is_jump_to(instrs@, k, j);
                                assert(k < i);
                            }
                        }
                    }
                }
            }
            _ => {
                proof {
                    assert forall|j: int| 0 <= j < n implies #[trigger] is_leader@[j] == (
                        j == 0
                        || (exists|k: int| 0 <= k < i + 1 && #[trigger] is_jump_to(instrs@, k, j))
                        || (0 < j && j - 1 < i + 1 && ends_block(instrs@[j - 1].1))
                    ) by {
                        assert(is_leader@[j] == pre[j]);
                        assert(!(instrs@[i as int].1 is Jump));
                        assert(!ends_block(instrs@[i as int].1));
                        if exists|k: int| 0 <= k < i + 1 && #[trigger] is_jump_to(instrs@, k, j) {
                            let k = choose|k: int| 0 <= k < i + 1 && #[trigger] is_jump_to(instrs@, k, j);
                            assert(k < i);
                        }
                    }
                }
            }
        }
        i = i + 1;
    }
    proof {
        assert forall|j: int| 0 <= j < n implies #[trigger] is_leader@[j] == spec_is_leader(
            instrs@,
            j,
        ) by {
            if 0 < j {
                assert((j - 1 < n && ends_block(instrs@[j - 1].1)) == (0 < j < n && ends_block(
                    instrs@[j - 1].1,
                )));
            }
        }
    }

    // Collect the start index of each block, in order.
    let mut starts: Vec<usize> = Vec::new();
    i = 0;
    while i < n
        invariant
            n == instrs@.len(),
            is_leader@.len() == n,
            is_leader@[0] == true,
            0 <= i <= n,
            i > 0 ==> starts@.len() >= 1 && starts@[0] == 0,
            starts@.len() <= i,
            forall|a: int, b: int| 0 <= a < b < starts@.len() ==> starts@[a] < starts@[b],
            forall|a: int| 0 <= a < starts@.len() ==> (#[trigger] starts@[a]) < i,
            forall|a: int| 0 <= a < starts@.len() ==> is_leader@[(#[trigger] starts@[a]) as int],
            forall|j: int| 0 <= j < i && is_leader@[j] ==> exists|a: int|
                0 <= a < starts@.len() && (#[trigger] starts@[a]) as int == j,
        decreases n - i,
    {
        let ghost s0 = starts@;
        if is_leader[i] {
            starts.push(i);
        }
        proof {
            assert forall|a: int| 0 <= a < starts@.len() implies is_leader@[(
            #[trigger] starts@[a]) as int] by {
                if a < s0.len() {
                    assert(starts@[a] == s0[a]);
                } else {
                    assert(starts@[a] == i);
                }
            }
            assert forall|j: int| 0 <= j < i + 1 && is_leader@[j] implies exists|a: int|
                0 <= a < starts@.len() && (#[trigger] starts@[a]) as int == j by {
                if j < i {
                    let a0 = choose|a: int| 0 <= a < s0.len() && (#[trigger] s0[a]) as int == j;
                    assert(starts@[a0] == s0[a0]);
                } else {
                    assert(starts@[starts@.len() - 1] as int == j);
                }
            }
        }
        i = i + 1;
    }
    let nblocks = starts.len();
    proof {
        assert(nblocks >= 1);
    }
    let entry_point = nblocks;
    let exit_point = nblocks + 1;
    let node_total = nblocks + 2;
    let ghost starts_int = Seq::new(starts@.len(), |a: int| starts@[a] as int);

    // Decide each block's statements, terminator and edges.
    let mut nodes: Vec<BasicBlock<Instruction, JumpCondition>> = Vec::new();
    let mut edges: Vec<(usize, usize, bool)> = Vec::new();
    let mut b: usize = 0;
    while b < nblocks
        invariant
            n == instrs@.len(),
            instrs@ == code.instructions@,
            n > 0,
            node_total == nblocks + 2,
            node_total < usize::MAX,
            nblocks == starts@.len(),
            nblocks >= 1,
            starts@[0] == 0,
            forall|a2: int, b2: int| 0 <= a2 < b2 < starts@.len() ==> starts@[a2] < starts@[b2],
            forall|a2: int| 0 <= a2 < starts@.len() ==> (#[trigger] starts@[a2]) < n,
            is_leader@.len() == n,
            forall|j: int| 0 <= j < n ==> #[trigger] is_leader@[j] == spec_is_leader(instrs@, j),
            forall|j: int| 0 <= j < n && is_leader@[j] ==> exists|a: int|
                0 <= a < starts@.len() && (#[trigger] starts@[a]) as int == j,
            forall|k2: int| 0 <= k2 < n ==> ((#[trigger] instrs@[k2]).1
                matches Instruction::Jump(jp) ==> exists|t: int| first_index_of_pc(
                    instrs@,
                    jp.address,
                    t,
                )),
            entry_point == nblocks,
            exit_point == nblocks + 1,
            0 <= b <= nblocks,
            nodes@.len() == b as int,
            starts_int == Seq::new(starts@.len(), |a: int| starts@[a] as int),
            forall|v: int| 0 <= v < b ==> block_matches(instrs@, #[trigger] nodes@[v], starts_int, v),
            forall|v: int| 0 <= v < b ==> pre_closure_edges_ok(instrs@, starts_int, edges@, v),
            forall|v: usize| v < b ==> out_edges_spec(edges@, v).len() <= 2,
            forall|v: usize| b <= v ==> out_edges_spec(edges@, v) == Seq::<(usize, bool)>::empty(),
            forall|v: usize| v < b ==> (
                (#[trigger] nodes@[v as int].terminator) is Some ==> block_out_ok(
                    true,
                    out_edges_spec(edges@, v),
                )
            ),
            forall|v: usize| v < b ==> (
                nodes@[v as int].terminator is None ==> (#[trigger] out_edges_spec(edges@, v)).len()
                    <= 1
            ),
            forall|v: usize| v < b ==> (
                out_edges_spec(edges@, v).len() >= 1 ==> !(#[trigger] out_edges_spec(edges@, v))[0].1
            ),
            forall|k: int| 0 <= k < edges@.len() ==> (#[trigger] edges@[k]).0 < nblocks
                && edges@[k].1 < nblocks,
        decreases nblocks - b,
    {
        let start = starts[b];
        let end = if b + 1 < nblocks {
            starts[b + 1]
        } else {
            n
        };
        proof {
            assert(start < end);
        }
        let last_index = end - 1;
        let ghost edges0 = edges@;

        // Copy the block's instructions, without a trailing jump.
        let mut terminator: Option<JumpCondition> = None;
        let mut copy_end = end;
        match &instrs[last_index].1 {
            Instruction::Jump(jump) => {
                let target_index = match find_pc_index(&instrs, jump.address) {
                    Some(t) => t,
                    None => {
                        proof {
                            // Ruled out by the leader scan.
                            assert(instrs@[last_index as int].1 matches Instruction::Jump(jp)
                                && jp == *jump);
                            let t2 = choose|t2: int| first_index_of_pc(
                                instrs@,
                                jump.address,
                                t2,
                            );
                            assert(false);
                        }
                        return Err(Error::BadJumpTarget { address: jump.address });
                    }
                };
                let target_block = match find_start(&starts, target_index) {
                    Some(tb) => tb,
                    None => {
                        proof {
                            // The target is a leader, so it has a block.
                            assert(instrs@[last_index as int].1 matches Instruction::Jump(jp)
                                && jp == *jump);
                            assert(is_jump_to(instrs@, last_index as int, target_index as int));
                            assert(spec_is_leader(instrs@, target_index as int));
                            assert(is_leader@[target_index as int]);
                            let a = choose|a: int| 0 <= a < starts@.len()
                                && (#[trigger] starts@[a]) as int == target_index as int;
                            assert(false);
                        }
                        return Err(Error::BadJumpTarget { address: jump.address });
                    }
                };
                proof {
                    assert(instrs@[last_index as int].1 matches Instruction::Jump(jp) && jp
                        == *jump);
                    assert(first_index_of_pc(instrs@, jump.address, target_index as int));
                    assert(starts_int[target_block as int] == target_index as int);
                    assert(block_end(instrs@, starts_int, b as int) == end as int);
                }
                match jump.condition {
                    Some(c) => {
                        if b + 1 >= nblocks {
                            proof {
                                assert(end == n);
                                assert(instrs@.last().1 matches Instruction::Jump(jp2)
                                    && jp2 == *jump);
                                assert(cfg_input_defect(instrs@));
                            }
                            return Err(Error::UnstructuredFlow { block: b });
                        }
                        edges.push((b, b + 1, false));
                        edges.push((b, target_block, true));
                        proof {
                            lemma_out_push(edges0, (b, (b + 1) as usize, false), b);
                            lemma_out_push(edges0.push((b, (b + 1) as usize, false)), (b, target_block, true), b);
                            assert(out_edges_spec(edges@, b) =~= seq![
                                (((b + 1) as usize), false),
                                (target_block, true),
                            ]);
                            assert(pre_closure_edges_ok(instrs@, starts_int, edges@, b as int));
                        }
                        terminator = Some(c);
                    }
                    None => {
                        edges.push((b, target_block, false));
                        proof {
                            lemma_out_push(edges0, (b, target_block, false), b);
                            assert(out_edges_spec(edges@, b) =~= seq![(target_block, false)]);
                            assert(pre_closure_edges_ok(instrs@, starts_int, edges@, b as int));
                        }
                    }
                }
                copy_end = last_index;
            }
            Instruction::Return(_) => {
                proof {
                    assert(block_end(instrs@, starts_int, b as int) == end as int);
                    assert(pre_closure_edges_ok(instrs@, starts_int, edges@, b as int));
                }
            }
            _ => {
                if b + 1 >= nblocks {
                    proof {
                        assert(end == n);
                        assert(!(instrs@.last().1 is Return));
                        assert(!(instrs@.last().1 is Jump));
                        assert(cfg_input_defect(instrs@));
                    }
                    return Err(Error::UnstructuredFlow { block: b });
                }
                edges.push((b, b + 1, false));
                proof {
                    lemma_out_push(edges0, (b, (b + 1) as usize, false), b);
                    assert(out_edges_spec(edges@, b) =~= seq![(((b + 1) as usize), false)]);
                    assert(block_end(instrs@, starts_int, b as int) == end as int);
                    assert(pre_closure_edges_ok(instrs@, starts_int, edges@, b as int));
                }
            }
        }
        proof {
            assert forall|v: usize| v != b implies out_edges_spec(edges@, v) == out_edges_spec(
                edges0,
                v,
            ) by {
                lemma_out_unchanged(edges0, edges@, v);
            }
            assert forall|v: int| 0 <= v < b + 1 implies pre_closure_edges_ok(
                instrs@,
                starts_int,
                edges@,
                v,
            ) by {
                if v < b {
                    lemma_edges_ok_stable(instrs@, starts_int, edges0, edges@, v, 0);
                }
            }
        }

        proof {
            assert(out_edges_spec(edges0, b) == Seq::<(usize, bool)>::empty());
            if terminator is Some {
                assert(out_edges_spec(edges@, b).len() == 2);
                assert(block_out_ok(true, out_edges_spec(edges@, b)));
            } else {
                assert(out_edges_spec(edges@, b).len() <= 1);
                assert(out_edges_spec(edges@, b).len() == 1 ==> !out_edges_spec(edges@, b)[0].1);
            }
        }
        let mut stmts: Vec<Instruction> = Vec::new();
        let mut k: usize = start;
        while k < copy_end
            invariant
                n == instrs@.len(),
                start <= k <= copy_end <= n,
                stmts@.len() == k - start,
                forall|k2: int| 0 <= k2 < k - start ==> #[trigger] stmts@[k2]
                    == instrs@[start + k2].1,
            decreases copy_end - k,
        {
            stmts.push(instrs[k].1.clone());
            k = k + 1;
        }
        proof {
            assert forall|v: usize| v != b implies out_edges_spec(edges@, v) == out_edges_spec(
                edges0,
                v,
            ) by {
                lemma_out_unchanged(edges0, edges@, v);
            }
            assert forall|v: usize| v < b + 1 implies out_edges_spec(edges@, v).len() <= 2 by {
                if v < b {
                    assert(out_edges_spec(edges@, v) == out_edges_spec(edges0, v));
                }
            }
            assert forall|v: usize| b + 1 <= v implies out_edges_spec(edges@, v)
                == Seq::<(usize, bool)>::empty() by {
                assert(out_edges_spec(edges@, v) == out_edges_spec(edges0, v));
            }
        }
        let ghost nodes0 = nodes@;
        nodes.push(BasicBlock { stmts, terminator });
        proof {
            assert(starts_int[b as int] == start as int);
            assert(block_end(instrs@, starts_int, b as int) == end as int);
            assert(block_matches(instrs@, nodes@[b as int], starts_int, b as int));
            assert forall|v: int| 0 <= v < b + 1 implies block_matches(
                instrs@,
                #[trigger] nodes@[v],
                starts_int,
                v,
            ) by {
                if v < b {
                    assert(nodes@[v] == nodes0[v]);
                }
            }
        }
        proof {
            assert forall|v: usize| v < b + 1 implies (
                nodes@[v as int].terminator is Some ==> block_out_ok(
                    true,
                    out_edges_spec(edges@, v),
                )
            ) by {
                if v < b {
                    assert(nodes@[v as int] == nodes0[v as int]);
                    assert(out_edges_spec(edges@, v) == out_edges_spec(edges0, v));
                } else {
                    assert(nodes@[v as int].terminator == terminator);
                }
            }
            assert forall|v: usize| v < b + 1 implies (
                nodes@[v as int].terminator is None ==> out_edges_spec(edges@, v).len() <= 1
            ) by {
                if v < b {
                    assert(nodes@[v as int] == nodes0[v as int]);
                    assert(out_edges_spec(edges@, v) == out_edges_spec(edges0, v));
                } else {
                    assert(nodes@[v as int].terminator == terminator);
                }
            }
            assert forall|v: usize| v < b + 1 implies (
                out_edges_spec(edges@, v).len() >= 1 ==> !out_edges_spec(edges@, v)[0].1
            ) by {
                if v < b {
                    assert(out_edges_spec(edges@, v) == out_edges_spec(edges0, v));
                }
            }
        }
        b = b + 1;
    }

    // The synthetic entry and exit, and the closing edges.
    nodes.push(BasicBlock::empty());
    nodes.push(BasicBlock::empty());
    let ghost edges_blocks = edges@;
    edges.push((entry_point, 0, false));
    proof {
        lemma_out_push(edges_blocks, (entry_point, 0usize, false), entry_point);
        assert(out_edges_spec(edges@, entry_point) =~= seq![(0usize, false)]);
        assert forall|u: usize| u != entry_point implies out_edges_spec(edges@, u)
            == out_edges_spec(edges_blocks, u) by {
            lemma_out_unchanged(edges_blocks, edges@, u);
        }
        assert(out_edges_spec(edges_blocks, exit_point) == Seq::<(usize, bool)>::empty());
        assert(out_edges_spec(edges@, exit_point) == out_edges_spec(edges_blocks, exit_point));
        assert(out_edges_spec(edges@, exit_point) == Seq::<(usize, bool)>::empty());
    }

    proof {
        assert forall|u: usize| u < nblocks implies (#[trigger] out_edges_spec(edges@, u))
            == out_edges_spec(edges_blocks, u) by {
            lemma_out_unchanged(edges_blocks, edges@, u);
        }
        assert forall|u: int| 0 <= u < nblocks implies pre_closure_edges_ok(
            instrs@,
            starts_int,
            edges@,
            u,
        ) by {
            lemma_out_unchanged(edges_blocks, edges@, u as usize);
            lemma_edges_ok_stable(instrs@, starts_int, edges_blocks, edges@, u, 0);
        }
    }
    let mut v: usize = 0;
    while v < nblocks
        invariant
            nblocks + 2 == node_total,
            node_total < usize::MAX,
            entry_point == nblocks,
            exit_point == nblocks + 1,
            nodes@.len() == node_total,
            0 <= v <= nblocks,
            out_edges_spec(edges@, entry_point) == seq![(0usize, false)],
            forall|u: usize| u < nblocks ==> (#[trigger] out_edges_spec(edges@, u)).len() <= 2,
            forall|u: usize| u < v ==> (#[trigger] out_edges_spec(edges@, u)).len() >= 1,
            forall|u: usize| u < nblocks ==> (
                nodes@[u as int].terminator is Some ==> block_out_ok(
                    true,
                    #[trigger] out_edges_spec(edges@, u),
                )
            ),
            forall|u: usize| u < nblocks ==> (
                nodes@[u as int].terminator is None ==> (#[trigger] out_edges_spec(edges@, u)).len()
                    <= 1
            ),
            forall|u: usize| u < nblocks ==> (
                out_edges_spec(edges@, u).len() >= 1 ==> !(#[trigger] out_edges_spec(edges@, u))[0].1
            ),
            out_edges_spec(edges@, exit_point) == Seq::<(usize, bool)>::empty(),
            nblocks == starts_int.len(),
            n == instrs@.len(),
            forall|u: int| 0 <= u < v ==> block_edges_ok(instrs@, starts_int, edges@, u, exit_point),
            forall|u: int| v <= u < nblocks ==> pre_closure_edges_ok(instrs@, starts_int, edges@, u),
            forall|k2: int| 0 <= k2 < edges@.len() ==> (#[trigger] edges@[k2]).0 < node_total
                && edges@[k2].1 < node_total,
        decreases nblocks - v,
    {
        let ghost pre = edges@;
        let o = count_out(&edges, v);
        if o == 0 {
            proof {
                assert(!(nodes@[v as int].terminator is Some));
            }
            edges.push((v, exit_point, false));
            proof {
                lemma_out_push(pre, (v, exit_point, false), v);
                assert(out_edges_spec(edges@, v) =~= seq![(exit_point, false)]);
            }
        }
        proof {
            if o != 0 {
                assert(edges@ == pre);
            }
            // The block's own edge obligation after closing.
            let endv = block_end(instrs@, starts_int, v as int);
            assert(pre_closure_edges_ok(instrs@, starts_int, pre, v as int));
            if o == 0 {
                match instrs@[endv - 1].1 {
                    Instruction::Jump(jp) => {
                        if jp.condition is Some {
                            let tb = choose|tb: int| 0 <= tb < starts_int.len()
                                && first_index_of_pc(instrs@, jp.address, #[trigger] starts_int[tb])
                                && out_edges_spec(pre, v) == seq![
                                (((v + 1) as usize), false),
                                ((tb as usize), true),
                            ];
                            assert(false);
                        } else {
                            let tb = choose|tb: int| 0 <= tb < starts_int.len()
                                && first_index_of_pc(instrs@, jp.address, #[trigger] starts_int[tb])
                                && out_edges_spec(pre, v) == seq![((tb as usize), false)];
                            assert(false);
                        }
                    }
                    Instruction::Return(_) => {
                        assert(block_edges_ok(instrs@, starts_int, edges@, v as int, exit_point));
                    }
                    _ => {
                        assert(false);
                    }
                }
            } else {
                match instrs@[endv - 1].1 {
                    Instruction::Jump(jp) => {
                        if jp.condition is Some {
                            let tb = choose|tb: int| 0 <= tb < starts_int.len()
                                && first_index_of_pc(instrs@, jp.address, #[trigger] starts_int[tb])
                                && out_edges_spec(pre, v) == seq![
                                (((v + 1) as usize), false),
                                ((tb as usize), true),
                            ];
                            assert(0 <= tb < starts_int.len() && first_index_of_pc(
                                instrs@,
                                jp.address,
                                starts_int[tb],
                            ) && out_edges_spec(edges@, v) == seq![
                                (((v + 1) as usize), false),
                                ((tb as usize), true),
                            ]);
                        } else {
                            let tb = choose|tb: int| 0 <= tb < starts_int.len()
                                && first_index_of_pc(instrs@, jp.address, #[trigger] starts_int[tb])
                                && out_edges_spec(pre, v) == seq![((tb as usize), false)];
                            assert(0 <= tb < starts_int.len() && first_index_of_pc(
                                instrs@,
                                jp.address,
                                starts_int[tb],
                            ) && out_edges_spec(edges@, v) == seq![((tb as usize), false)]);
                        }
                    }
                    Instruction::Return(_) => {
                        assert(out_edges_spec(pre, v) == Seq::<(usize, bool)>::empty());
                        assert(false);
                    }
                    _ => {}
                }
                assert(block_edges_ok(instrs@, starts_int, edges@, v as int, exit_point));
            }
            assert forall|u: int| 0 <= u < v + 1 implies block_edges_ok(
                instrs@,
                starts_int,
                edges@,
                u,
                exit_point,
            ) by {
                if u < v {
                    lemma_out_unchanged(pre, edges@, u as usize);
                    lemma_edges_ok_stable(instrs@, starts_int, pre, edges@, u, exit_point);
                }
            }
            assert forall|u: int| v + 1 <= u < nblocks implies pre_closure_edges_ok(
                instrs@,
                starts_int,
                edges@,
                u,
            ) by {
                lemma_out_unchanged(pre, edges@, u as usize);
                lemma_edges_ok_stable(instrs@, starts_int, pre, edges@, u, exit_point);
            }
            assert forall|u: usize| u < nblocks implies (#[trigger] out_edges_spec(edges@, u)).len()
                <= 2 by {
                if u != v {
                    lemma_out_unchanged(pre, edges@, u);
                }
                assert(out_edges_spec(pre, u).len() <= 2);
            }
            assert forall|u: usize| u < v + 1 implies (#[trigger] out_edges_spec(edges@, u)).len()
                >= 1 by {
                if u != v {
                    lemma_out_unchanged(pre, edges@, u);
                    assert(out_edges_spec(pre, u).len() >= 1);
                }
            }
            assert forall|u: usize| u < nblocks && nodes@[u as int].terminator is Some implies
                block_out_ok(true, #[trigger] out_edges_spec(edges@, u)) by {
                if u != v {
                    lemma_out_unchanged(pre, edges@, u);
                }
                assert(block_out_ok(true, out_edges_spec(pre, u)));
            }
            assert forall|u: usize| u < nblocks && nodes@[u as int].terminator is None implies
                (#[trigger] out_edges_spec(edges@, u)).len() <= 1 by {
                if u != v {
                    lemma_out_unchanged(pre, edges@, u);
                    assert(out_edges_spec(pre, u).len() <= 1);
                }
            }
            assert forall|u: usize| u < nblocks && out_edges_spec(edges@, u).len() >= 1 implies
                !(#[trigger] out_edges_spec(edges@, u))[0].1 by {
                if u != v {
                    lemma_out_unchanged(pre, edges@, u);
                    assert(out_edges_spec(pre, u).len() >= 1 ==> !out_edges_spec(pre, u)[0].1);
                }
            }
            assert(out_edges_spec(edges@, entry_point) == out_edges_spec(pre, entry_point)) by {
                lemma_out_unchanged(pre, edges@, entry_point);
            }
            assert(out_edges_spec(edges@, exit_point) == out_edges_spec(pre, exit_point)) by {
                lemma_out_unchanged(pre, edges@, exit_point);
            }
        }
        v = v + 1;
    }

    // Assemble the graph.
    let mut graph: CfgGraph<Instruction, JumpCondition> = CfgGraph::new();
    let nn = nodes.len();
    let mut idx: usize = 0;
    let ghost all_nodes = nodes@;
    while idx < nn
        invariant
            nn == all_nodes.len(),
            nn < usize::MAX,
            0 <= idx <= nn,
            nodes@ == all_nodes.subrange(idx as int, nn as int),
            graph.nodes@ =~= all_nodes.subrange(0, idx as int),
            graph.edges@.len() == 0,
        decreases nn - idx,
    {
        let bb = nodes.remove(0);
        graph.add_node(bb);
        proof {
            assert(graph.nodes@ =~= all_nodes.subrange(0, idx + 1));
            assert(nodes@ =~= all_nodes.subrange(idx + 1, nn as int));
        }
        idx = idx + 1;
    }
    proof {
        assert(graph.nodes@ =~= all_nodes);
    }
    let ne = edges.len();
    let mut ke: usize = 0;
    let ghost all_edges = edges@;
    while ke < ne
        invariant
            ne == all_edges.len(),
            0 <= ke <= ne,
            edges@ == all_edges,
            graph.nodes@ == all_nodes,
            graph.edges@ =~= all_edges.subrange(0, ke as int),
            nn == all_nodes.len(),
            forall|k2: int| 0 <= k2 < all_edges.len() ==> (#[trigger] all_edges[k2]).0 < nn
                && all_edges[k2].1 < nn,
        decreases ne - ke,
    {
        let e = edges[ke];
        graph.add_edge(e.0, e.1, e.2);
        proof {
            assert(graph.edges@ =~= all_edges.subrange(0, ke + 1));
        }
        ke = ke + 1;
    }
    proof {
        assert(graph.edges@ =~= all_edges);
    }
    let cfg = Cfg { graph, entry_point, exit_point };
    proof {
        assert(built_cfg_ok(cfg));
        assert forall|j: int| 0 <= j < instrs@.len() implies (#[trigger] spec_is_leader(
            instrs@,
            j,
        ) <==> starts_int.contains(j)) by {
            if spec_is_leader(instrs@, j) {
                assert(is_leader@[j]);
                let a = choose|a: int| 0 <= a < starts@.len() && (#[trigger] starts@[a]) as int
                    == j;
                assert(starts_int[a] == j);
            }
            if starts_int.contains(j) {
                let a = choose|a: int| 0 <= a < starts_int.len() && starts_int[a] == j;
                assert(starts@[a] as int == j);
                assert(is_leader@[starts@[a] as int]);
            }
        }
        assert forall|v: int| 0 <= v < starts_int.len() implies block_matches(
            instrs@,
            #[trigger] cfg.graph.nodes@[v],
            starts_int,
            v,
        ) by {
            assert(cfg.graph.nodes@[v] == all_nodes[v]);
        }
        assert(instrs@ == code.instructions@);
        assert(blocks_partition(code.instructions@, cfg.graph.nodes@, starts_int));
        assert forall|b2: int| 0 <= b2 < starts_int.len() implies block_edges_ok(
            code.instructions@,
            starts_int,
            cfg.graph.edges@,
            b2,
            cfg.exit_point,
        ) by {
            assert(cfg.graph.edges@ == all_edges);
            assert(block_edges_ok(instrs@, starts_int, all_edges, b2, exit_point));
        }
        assert(partitioned_at_leaders(
            code.instructions@,
            cfg.graph.nodes@,
            cfg.graph.edges@,
            cfg.exit_point,
        )) by {
            assert(blocks_partition(code.instructions@, cfg.graph.nodes@, starts_int) && forall|b2: int|
                0 <= b2 < starts_int.len() ==> block_edges_ok(
                    code.instructions@,
                    starts_int,
                    cfg.graph.edges@,
                    b2,
                    cfg.exit_point,
                ));
        }
    }
    Ok(cfg)
}

/// Appending edges of other sources leaves a node's outgoing list as
/// it was.
proof fn lemma_out_unchanged(pre: Seq<(usize, usize, bool)>, post: Seq<(usize, usize, bool)>, v: usize)
    requires
        pre.len() <= post.len(),
        forall|k: int| 0 <= k < pre.len() ==> post[k] == pre[k],
        forall|k: int| pre.len() <= k < post.len() ==> (#[trigger] post[k]).0 != v,
    ensures
        out_edges_spec(post, v) == out_edges_spec(pre, v),
    decreases post.len(),
{
    if post.len() > pre.len() {
        lemma_out_unchanged(pre, post.drop_last(), v);
    } else {
        assert(post =~= pre);
    }
}

/// Which block starts at instruction index `t`.
fn find_start(starts: &Vec<usize>, t: usize) -> (r: Option<usize>)
    ensures
        match r {
            Some(b) => b < starts@.len() && starts@[b as int] == t,
            None => forall|b: int| 0 <= b < starts@.len() ==> (#[trigger] starts@[b]) != t,
        },
{
    let mut b: usize = 0;
    let n = starts.len();
    while b < n
        invariant
            n == starts@.len(),
            0 <= b <= n,
            forall|j: int| 0 <= j < b ==> (#[trigger] starts@[j]) != t,
        decreases n - b,
    {
        if starts[b] == t {
            return Some(b);
        }
        b = b + 1;
    }
    None
}

/// How many edges leave `v`.
fn count_out(edges: &Vec<(usize, usize, bool)>, v: usize) -> (r: usize)
    ensures
        r == out_edges_spec(edges@, v).len(),
{
    let mut r: usize = 0;
    let mut k: usize = 0;
    let n = edges.len();
    while k < n
        invariant
            n == edges@.len(),
            0 <= k <= n,
            r == out_edges_spec(edges@.subrange(0, k as int), v).len(),
            r <= k,
        decreases n - k,
    {
        proof {
            assert(edges@.subrange(0, k + 1).drop_last() =~= edges@.subrange(0, k as int));
            assert(edges@.subrange(0, k + 1).last() == edges@[k as int]);
        }
        if edges[k].0 == v {
            r = r + 1;
        }
        k = k + 1;
    }
    proof {
        assert(edges@.subrange(0, n as int) =~= edges@);
    }
    r
}

} // verus!

verus! {

use crate::graph_algo;
use crate::graph_algo::chain_reaches_in;

/// The immediate-(post)dominator tree of a control-flow graph, rooted
/// at the entry (or, reversed, at the exit).  Each recorded node
/// carries its depth in the tree, so every chain of immediates
/// provably descends to the root.
#[derive(Debug)]
pub struct Dominators {
    pub root: Label,
    pub idom: Vec<Option<Label>>,
    pub depth: Vec<usize>,
    pub reversed: bool,
}

impl Dominators {
    /// Chains are acyclic and end at the root: the root has no
    /// immediate dominator, and each recorded immediate lies one
    /// level higher in the tree.
    pub open spec fn wf(&self) -> bool {
        &&& self.idom@.len() == self.depth@.len()
        &&& (self.root as int) < self.idom@.len()
        &&& self.idom@[self.root as int] is None
        &&& forall|i: int| 0 <= i < self.idom@.len() ==> ((#[trigger] self.idom@[i]) matches Some(p)
            ==> (p as int) < self.idom@.len() && self.depth@[i] == self.depth@[p as int] + 1
                && (p == self.root || self.idom@[p as int] is Some))
    }

    /// The immediate dominator recorded for `node`.
    pub open spec fn spec_immediate(&self, node: usize) -> Option<Label> {
        if (node as int) < self.idom@.len() {
            self.idom@[node as int]
        } else {
            None
        }
    }

    pub open spec fn spec_depth(&self, node: usize) -> int {
        if (node as int) < self.depth@.len() {
            self.depth@[node as int] as int
        } else {
            0
        }
    }

    /// Whether `a` lies on the chain of immediates from `b` up to the
    /// root, `b` itself included: the dominance test of the tree.
    pub open spec fn spec_dominates(&self, a: usize, b: usize) -> bool
        decreases self.spec_depth(b)
            when self.wf()
    {
        if a == b {
            true
        } else {
            match self.spec_immediate(b) {
                Some(p) => self.spec_dominates(a, p),
                None => false,
            }
        }
    }

    /// The chain from `node` up to the root, `node` first.
    pub open spec fn spec_path(&self, node: usize) -> Seq<Label>
        decreases self.spec_depth(node)
            when self.wf()
    {
        match self.spec_immediate(node) {
            Some(p) => seq![node] + self.spec_path(p),
            None => seq![node],
        }
    }

    /// The node the tree is rooted at: the graph's entry, or its exit
    /// for postdominators.
    pub fn root(&self) -> (r: Label)
        ensures
            r == self.root,
    {
        self.root
    }

    /// The immediate (post)dominator of `node`; the root has none.
    pub fn get_immediate(&self, node: Label) -> (r: Option<Label>)
        ensures
            r == self.spec_immediate(node),
    {
        if node < self.idom.len() {
            self.idom[node]
        } else {
            None
        }
    }

    /// Whether `node` (post)dominates `check`: either they are equal,
    /// or `node` lies on the chain of immediates above `check`.
    pub fn is_for(&self, node: Label, check: Label) -> (r: bool)
        requires
            self.wf(),
        ensures
            r == self.spec_dominates(node, check),
    {
        if check == node {
            return true;
        }
        let mut cur = check;
        loop
            invariant
                self.wf(),
                cur != node,
                self.spec_dominates(node, cur) == self.spec_dominates(node, check),
            decreases self.spec_depth(cur),
        {
            match self.get_immediate(cur) {
                Some(imm) => {
                    if imm == node {
                        proof {
                            assert(self.spec_dominates(node, node));
                            assert(self.spec_dominates(node, cur));
                        }
                        return true;
                    }
                    cur = imm;
                }
                None => {
                    proof {
                        assert(!self.spec_dominates(node, cur));
                    }
                    return false;
                }
            }
        }
    }

    /// The chain of (post)dominators of `node`, itself first.
    pub fn get_all(&self, node: Label) -> (r: Vec<Label>)
        requires
            self.wf(),
        ensures
            r@ == self.spec_path(node),
    {
        let mut path: Vec<Label> = Vec::new();
        path.push(node);
        let mut cur = node;
        proof {
            assert(self.spec_path(node).first() == node);
            assert(path@ + self.spec_path(node).drop_first() =~= self.spec_path(node));
        }
        while self.get_immediate_is_some(cur)
            invariant
                self.wf(),
                path@.len() >= 1,
                path@.last() == cur,
                path@ + self.spec_path(cur).drop_first() == self.spec_path(node),
            decreases self.spec_depth(cur),
        {
            let imm = match self.get_immediate(cur) {
                Some(p) => p,
                None => {
                    proof {
                        // This arm is provably dead.
                        assert(false);
                    }
                    return path;
                }
            };
            let ghost path0 = path@;
            path.push(imm);
            proof {
                assert(self.spec_path(cur) == seq![cur] + self.spec_path(imm));
                assert(self.spec_path(imm).first() == imm);
                assert(self.spec_path(cur).drop_first() =~= self.spec_path(imm));
                assert(self.spec_path(imm) =~= seq![imm] + self.spec_path(imm).drop_first());
                assert(path@ + self.spec_path(imm).drop_first() =~= path0 + self.spec_path(cur).drop_first());
            }
            cur = imm;
        }
        proof {
            assert(self.spec_path(cur) =~= seq![cur]);
            assert(path@ =~= self.spec_path(node));
        }
        path
    }

    fn get_immediate_is_some(&self, node: Label) -> (r: bool)
        ensures
            r == (self.spec_immediate(node) is Some),
    {
        if node < self.idom.len() {
            self.idom[node].is_some()
        } else {
            false
        }
    }
}

} // verus!

verus! {

/// A copy of the labels in reverse order.
fn reverse_labels(v: &Vec<Label>) -> (r: Vec<Label>)
    ensures
        r@ == v@.reverse(),
{
    let mut r: Vec<Label> = Vec::new();
    let n = v.len();
    let mut i: usize = 0;
    while i < n
        invariant
            n == v@.len(),
            0 <= i <= n,
            r@.len() == i,
            forall|j: int| 0 <= j < i ==> r@[j] == v@[n - 1 - j],
        decreases n - i,
    {
        r.push(v[n - 1 - i]);
        i = i + 1;
    }
    proof {
        assert(r@ =~= v@.reverse());
    }
    r
}

impl Dominators {
    /// Every entry of a chain (post)dominates the node the chain
    /// belongs to.
    proof fn lemma_path_index(&self, b: usize, k: int)
        requires
            self.wf(),
            0 <= k < self.spec_path(b).len(),
        ensures
            self.spec_dominates(self.spec_path(b)[k], b),
        decreases self.spec_depth(b),
    {
        let x = self.spec_path(b)[k];
        if k == 0 {
            assert(self.spec_path(b)[0] == b);
            assert(self.spec_dominates(b, b));
        } else {
            match self.spec_immediate(b) {
                Some(p) => {
                    assert(self.spec_path(b) == seq![b] + self.spec_path(p));
                    assert(self.spec_path(b)[k] == self.spec_path(p)[k - 1]);
                    self.lemma_path_index(p, k - 1);
                    assert(self.spec_dominates(x, p));
                    assert(self.spec_dominates(x, b));
                }
                None => {
                    assert(self.spec_path(b) == seq![b]);
                }
            }
        }
    }

    /// When the root (post)dominates a node, its chain ends at the
    /// root.
    proof fn lemma_root_chain_last(&self, b: usize)
        requires
            self.wf(),
            self.spec_dominates(self.root, b),
        ensures
            self.spec_path(b).len() >= 1,
            self.spec_path(b).last() == self.root,
        decreases self.spec_depth(b),
    {
        if b == self.root {
            if self.spec_immediate(b) is Some {
                let p = self.spec_immediate(b).unwrap();
                assert(self.idom@[self.root as int] is None);
                assert(false);
            }
            assert(self.spec_path(b) == seq![b]);
        } else {
            match self.spec_immediate(b) {
                Some(p) => {
                    self.lemma_root_chain_last(p);
                    assert(self.spec_path(b) == seq![b] + self.spec_path(p));
                }
                None => {
                    assert(!self.spec_dominates(self.root, b));
                }
            }
        }
    }

    /// Within one chain, a later entry (post)dominates an earlier one.
    proof fn lemma_path_chain(&self, v: usize, a: int, b: int)
        requires
            self.wf(),
            0 <= a <= b < self.spec_path(v).len(),
        ensures
            self.spec_dominates(self.spec_path(v)[b], self.spec_path(v)[a]),
        decreases self.spec_depth(v),
    {
        if a == 0 {
            assert(self.spec_path(v)[0] == v);
            self.lemma_path_index(v, b);
        } else {
            match self.spec_immediate(v) {
                Some(p) => {
                    assert(self.spec_path(v) == seq![v] + self.spec_path(p));
                    self.lemma_path_chain(p, a - 1, b - 1);
                    assert(self.spec_path(v)[a] == self.spec_path(p)[a - 1]);
                    assert(self.spec_path(v)[b] == self.spec_path(p)[b - 1]);
                }
                None => {
                    assert(self.spec_path(v) == seq![v]);
                }
            }
        }
    }

    /// The chain of a (post)dominator is a suffix of the chain of the
    /// node it (post)dominates.
    proof fn lemma_dominates_path_suffix(&self, x: usize, v: usize)
        requires
            self.wf(),
            self.spec_dominates(x, v),
        ensures
            exists|pre: Seq<Label>| self.spec_path(v) == pre + self.spec_path(x),
        decreases self.spec_depth(v),
    {
        if x == v {
            assert(self.spec_path(v) =~= Seq::<Label>::empty() + self.spec_path(x));
        } else {
            match self.spec_immediate(v) {
                Some(p) => {
                    self.lemma_dominates_path_suffix(x, p);
                    let pre = choose|pre: Seq<Label>| self.spec_path(p) == pre
                        + self.spec_path(x);
                    assert(self.spec_path(v) == seq![v] + self.spec_path(p));
                    assert(self.spec_path(v) =~= (seq![v] + pre) + self.spec_path(x));
                }
                None => {
                    assert(!self.spec_dominates(x, v));
                }
            }
        }
    }

    /// `x` (post)dominates every node of the list.
    pub open spec fn common_dominator(&self, nodes: Seq<Label>, x: Label) -> bool {
        forall|i: int| 0 <= i < nodes.len() ==> self.spec_dominates(x, #[trigger] nodes[i])
    }

    /// The nearest common (post)dominator of a set of nodes: walk the
    /// chains root-down while they agree, and keep the last agreeing
    /// node.
    pub fn get_common(&self, nodes: &Vec<Label>) -> (r: Option<Label>)
        requires
            self.wf(),
        ensures
            r matches Some(c) ==> forall|i: int| 0 <= i < nodes@.len() ==> self.spec_dominates(
                c,
                #[trigger] nodes@[i],
            ),
            (nodes@.len() > 0 && forall|i: int|
                0 <= i < nodes@.len() ==> self.spec_dominates(self.root, #[trigger] nodes@[i]))
                ==> r is Some,
            r matches Some(c) ==> forall|x: Label| self.common_dominator(nodes@, x)
                ==> self.spec_dominates(x, c),
            r is None ==> nodes@.len() == 0 || !(exists|x: Label| self.common_dominator(
                nodes@,
                x,
            )),
    {
        let n = nodes.len();
        if n == 0 {
            return None;
        }
        let mut paths: Vec<Vec<Label>> = Vec::new();
        let mut i: usize = 0;
        while i < n
            invariant
                self.wf(),
                n == nodes@.len(),
                0 <= i <= n,
                paths@.len() == i,
                forall|j: int| 0 <= j < i ==> (#[trigger] paths@[j])@ == self.spec_path(
                    nodes@[j],
                ).reverse(),
            decreases n - i,
        {
            let p = self.get_all(nodes[i]);
            let rp = reverse_labels(&p);
            paths.push(rp);
            i = i + 1;
        }

        let mut nearest: Option<Label> = None;
        let len0 = paths[0].len();
        proof {
            assert(self.spec_path(nodes@[0]).len() >= 1);
        }
        let mut distance: usize = 0;
        while distance < len0
            invariant
                self.wf(),
                n == nodes@.len(),
                n >= 1,
                paths@.len() == n,
                forall|j: int| 0 <= j < n ==> (#[trigger] paths@[j])@ == self.spec_path(
                    nodes@[j],
                ).reverse(),
                len0 == paths@[0]@.len(),
                0 <= distance <= len0,
                nearest matches Some(c) ==> forall|j: int| 0 <= j < n ==> self.spec_dominates(
                    c,
                    #[trigger] nodes@[j],
                ),
                (distance > 0 && forall|j: int|
                    0 <= j < n ==> self.spec_dominates(self.root, #[trigger] nodes@[j]))
                    ==> nearest is Some,
                nearest matches Some(c2) ==> distance >= 1 && c2 == paths@[0]@[distance - 1],
                nearest is Some <==> distance >= 1,
            decreases len0 - distance,
        {
            let candidate = paths[0][distance];
            let mut all_agree = true;
            let mut j: usize = 0;
            while j < n
                invariant
                    self.wf(),
                    n == nodes@.len(),
                    paths@.len() == n,
                    distance < len0,
                    len0 == paths@[0]@.len(),
                    candidate == paths@[0]@[distance as int],
                    forall|j2: int| 0 <= j2 < n ==> (#[trigger] paths@[j2])@ == self.spec_path(
                        nodes@[j2],
                    ).reverse(),
                    0 <= j <= n,
                    all_agree == forall|j2: int| 0 <= j2 < j ==> distance < (
                        #[trigger] paths@[j2])@.len() && paths@[j2]@[distance as int] == candidate,
                decreases n - j,
            {
                if !(distance < paths[j].len() && paths[j][distance] == candidate) {
                    all_agree = false;
                    proof {
                        assert(!(distance < paths@[j as int]@.len()
                            && paths@[j as int]@[distance as int] == candidate));
                    }
                    j = n;
                } else {
                    j = j + 1;
                }
            }
            if !all_agree {
                proof {
                    let bad = choose|j2: int| 0 <= j2 < n && !(distance < (
                        #[trigger] paths@[j2])@.len() && paths@[j2]@[distance as int] == candidate);
                    if distance == 0 {
                        if forall|j2: int| 0 <= j2 < n ==> self.spec_dominates(
                            self.root,
                            #[trigger] nodes@[j2],
                        ) {
                            self.lemma_root_chain_last(nodes@[bad]);
                            self.lemma_root_chain_last(nodes@[0]);
                            assert(paths@[bad]@[0] == self.root);
                            assert(candidate == self.root);
                            assert(false);
                        }
                    }
                    assert forall|x: Label| self.common_dominator(nodes@, x) implies
                        self.spec_path(x).len() <= distance by {
                        if self.spec_path(x).len() > distance {
                            assert(self.spec_dominates(x, nodes@[0]));
                            assert(self.spec_dominates(x, nodes@[bad]));
                            self.lemma_dominates_path_suffix(x, nodes@[0]);
                            self.lemma_dominates_path_suffix(x, nodes@[bad]);
                            let pre0 = choose|pre: Seq<Label>| self.spec_path(nodes@[0]) == pre
                                + self.spec_path(x);
                            let preb = choose|pre: Seq<Label>| self.spec_path(nodes@[bad]) == pre
                                + self.spec_path(x);
                            let lx = self.spec_path(x).len();
                            let p0 = self.spec_path(nodes@[0]);
                            let pb = self.spec_path(nodes@[bad]);
                            assert(p0.len() >= lx && pb.len() >= lx);
                            assert(p0.reverse()[distance as int] == p0[p0.len() - 1 - distance]);
                            assert(p0[p0.len() - 1 - distance] == self.spec_path(x)[lx - 1
                                - distance]);
                            assert(pb.reverse()[distance as int] == pb[pb.len() - 1 - distance]);
                            assert(pb[pb.len() - 1 - distance] == self.spec_path(x)[lx - 1
                                - distance]);
                            assert(paths@[bad]@[distance as int] == candidate);
                            assert(false);
                        }
                    }
                    if distance > 0 {
                        let c2 = nearest.unwrap();
                        assert forall|x: Label| self.common_dominator(nodes@, x) implies
                            self.spec_dominates(x, c2) by {
                            assert(self.spec_dominates(x, nodes@[0]));
                            self.lemma_dominates_path_suffix(x, nodes@[0]);
                            let pre0 = choose|pre: Seq<Label>| self.spec_path(nodes@[0]) == pre
                                + self.spec_path(x);
                            let p0 = self.spec_path(nodes@[0]);
                            let lx = self.spec_path(x).len();
                            assert(lx >= 1 && lx <= distance);
                            assert(self.spec_path(x)[0] == x);
                            assert(p0[pre0.len() as int] == x);
                            assert(c2 == paths@[0]@[distance - 1]);
                            assert(paths@[0]@[distance - 1] == p0.reverse()[distance - 1]);
                            assert(p0.reverse()[distance - 1] == p0[p0.len() - distance]);
                            assert(pre0.len() == p0.len() - lx >= p0.len() - distance);
                            self.lemma_path_chain(
                                nodes@[0],
                                p0.len() - distance,
                                pre0.len() as int,
                            );
                        }
                    } else {
                        assert forall|x: Label| !self.common_dominator(nodes@, x) by {
                            if self.common_dominator(nodes@, x) {
                                assert(self.spec_path(x).len() <= 0);
                                assert(self.spec_path(x).len() >= 1);
                                assert(false);
                            }
                        }
                    }
                }
                return nearest;
            }
            proof {
                assert forall|j2: int| 0 <= j2 < n implies self.spec_dominates(
                    candidate,
                    #[trigger] nodes@[j2],
                ) by {
                    let pth = self.spec_path(nodes@[j2]);
                    assert(paths@[j2]@[distance as int] == pth.reverse()[distance as int]);
                    assert(pth.reverse()[distance as int] == pth[pth.len() - 1 - distance]);
                    self.lemma_path_index(nodes@[j2], pth.len() - 1 - distance);
                }
            }
            nearest = Some(candidate);
            distance = distance + 1;
        }
        proof {
            let c2 = nearest.unwrap();
            assert(c2 == paths@[0]@[len0 - 1]);
            let p0 = self.spec_path(nodes@[0]);
            assert(p0.reverse()[len0 - 1] == p0[0]);
            assert(p0[0] == nodes@[0]);
            assert forall|x: Label| self.common_dominator(nodes@, x) implies self.spec_dominates(
                x,
                c2,
            ) by {
                assert(self.spec_dominates(x, nodes@[0]));
            }
        }
        nearest
    }
}

} // verus!

verus! {

/// The edge list the dominator analysis runs on: the graph's edges,
/// reversed for postdominators, and a loop on the root that keeps the
/// root inside the graph even when no recorded edge names it.
pub open spec fn dominator_edges(edges: Seq<(usize, usize, bool)>, root: usize, post: bool) -> Seq<(nat, nat)> {
    Seq::new(
        edges.len(),
        |k: int| if post {
            (edges[k].1 as nat, edges[k].0 as nat)
        } else {
            (edges[k].0 as nat, edges[k].1 as nat)
        },
    ).push((root as nat, root as nat))
}

/// A bound on every endpoint bounds the span.
proof fn lemma_span_bounded(edges: Seq<(usize, usize)>, b: nat)
    requires
        forall|i: int| 0 <= i < edges.len() ==> ((#[trigger] edges[i]).0 as nat) < b
            && (edges[i].1 as nat) < b,
    ensures
        graph_algo::edges_node_span(edges) <= b,
    decreases edges.len(),
{
    if edges.len() > 0 {
        assert(forall|i: int| 0 <= i < edges.drop_last().len()
            ==> ((#[trigger] edges.drop_last()[i]).0 as nat) < b
                && (edges.drop_last()[i].1 as nat) < b);
        lemma_span_bounded(edges.drop_last(), b);
        assert((edges[edges.len() - 1].0 as nat) < b && (edges[edges.len() - 1].1 as nat) < b);
    }
}

/// The raw entries are exactly the map's in-range entries, with none
/// for the root.
pub open spec fn raw_matches_map(raw: Seq<Option<usize>>, m: Map<nat, nat>, n: int, root: usize) -> bool {
    forall|u: int| 0 <= u < n ==> #[trigger] raw[u] == (if u != root && m.dom().contains(u as nat)
        && m[u as nat] < n {
        Some(m[u as nat] as usize)
    } else {
        None::<usize>
    })
}

/// A known node's depth is no more than any fuel that lets its chain
/// reach the root.
proof fn lemma_depth_at_most_fuel(
    m: Map<nat, nat>,
    raw: Seq<Option<usize>>,
    known: Seq<bool>,
    depth: Seq<usize>,
    n: int,
    root: usize,
    u: nat,
    fuel: nat,
)
    requires
        n <= usize::MAX,
        raw.len() == n,
        known.len() == n,
        depth.len() == n,
        (root as int) < n,
        chains_ok(known, depth, raw, n, root),
        raw_matches_map(raw, m, n, root),
        u < n,
        known[u as int],
        chain_reaches_in(m, u, root as nat, fuel, n as nat),
    ensures
        depth[u as int] <= fuel,
    decreases fuel,
{
    if u == root as nat {
        assert(depth[root as int] == 0);
    } else {
        assert(fuel > 0);
        assert(m.dom().contains(u) && m[u] < n as nat);
        let p = m[u];
        assert(chain_reaches_in(m, p, root as nat, (fuel - 1) as nat, n as nat));
        assert(u as int != root as int);
        assert(raw[u as int] == Some(p as usize));
        assert(raw[u as int] matches Some(q) && q == p as usize);
        assert((p as usize) as int == p as int);
        assert(known[p as int]);
        assert(depth[u as int] == depth[p as int] + 1);
        lemma_depth_at_most_fuel(m, raw, known, depth, n, root, p, (fuel - 1) as nat);
    }
}

/// Each node marked known, other than the root, has a recorded
/// immediate dominator that is itself known and sits one level higher.
pub open spec fn chains_ok(known: Seq<bool>, depth: Seq<usize>, raw: Seq<Option<usize>>, n: int, root: usize) -> bool {
    &&& known[root as int] == true
    &&& depth[root as int] == 0
    &&& forall|u: int| 0 <= u < n && u != root && #[trigger] known[u] ==> (
        raw[u] matches Some(p) && known[p as int] && depth[u] == depth[p as int] + 1
            && depth[u] <= n
    )
}

impl<S, C> Cfg<S, C> {
    /// Compute the immediate-dominator tree from the entry, or, with
    /// `post`, the immediate-postdominator tree from the exit on the
    /// reversed graph.  Only chains that provably descend to the root
    /// are recorded.
    #[verifier::rlimit(80)]
    pub fn compute_dominators(&self, post: bool) -> (d: Dominators)
        requires
            self.wf(),
        ensures
            d.wf(),
            d.root == if post { self.exit_point } else { self.entry_point },
            d.reversed == post,
            d.idom@.len() == self.graph.nodes@.len(),
            ({
                let m = crate::graph_algo::idoms_of(
                    dominator_edges(self.graph.edges@, d.root, post),
                    d.root as nat,
                );
                &&& forall|v: int| 0 <= v < self.graph.nodes@.len()
                    ==> ((#[trigger] d.idom@[v]) matches Some(p) ==> v != d.root
                        && m.dom().contains(v as nat) && p as nat == m[v as nat])
                &&& forall|v: int| 0 <= v < self.graph.nodes@.len() && v != d.root
                    && chain_reaches_in(
                        m,
                        v as nat,
                        d.root as nat,
                        self.graph.nodes@.len(),
                        self.graph.nodes@.len(),
                    ) ==> ((#[trigger] d.idom@[v]) matches Some(p) && p as nat == m[v as nat])
                &&& forall|v: int| 0 <= v < self.graph.nodes@.len() && v != d.root
                    && graph_algo::edge_reaches(
                        dominator_edges(self.graph.edges@, d.root, post),
                        d.root as nat,
                        v as nat,
                    ) ==> ((#[trigger] d.idom@[v]) matches Some(p) && p as nat == m[v as nat])
            }),
    {
        let n = self.graph.node_count();
        let root = if post {
            self.exit_point
        } else {
            self.entry_point
        };

        // The edge list for the algorithm; reversed for postdominators.
        // A loop on the root keeps the root inside the graph even when
        // no recorded edge names it.
        let mut elist: Vec<(usize, usize)> = Vec::new();
        let ne = self.graph.edges.len();
        let mut k: usize = 0;
        while k < ne
            invariant
                0 <= k <= ne,
                ne == self.graph.edges@.len(),
                elist@.len() == k,
                self.wf(),
                root < self.graph.nodes@.len(),
                forall|j: int| 0 <= j < k ==> #[trigger] elist@[j] == (if post {
                    (self.graph.edges@[j].1, self.graph.edges@[j].0)
                } else {
                    (self.graph.edges@[j].0, self.graph.edges@[j].1)
                }),
                forall|j: int| 0 <= j < k ==> ((#[trigger] elist@[j]).0 as nat)
                    < self.graph.nodes@.len() && (elist@[j].1 as nat) < self.graph.nodes@.len(),
            decreases ne - k,
        {
            let e = self.graph.edges[k];
            if post {
                elist.push((e.1, e.0));
            } else {
                elist.push((e.0, e.1));
            }
            k = k + 1;
        }
        elist.push((root, root));
        let ghost last = elist@.len() - 1;
        let g = crate::graph_algo::graph_from_edges(&elist);
        proof {
            assert(elist@[last].0 < crate::graph_algo::graph_node_bound(g));
        }
        let dom = crate::graph_algo::simple_fast(&g, root);
        let ghost m = crate::graph_algo::idom_map(dom);
        proof {
            assert(crate::graph_algo::graph_edge_list(g) =~= dominator_edges(
                self.graph.edges@,
                root,
                post,
            ));
            assert(m == crate::graph_algo::idoms_of(
                dominator_edges(self.graph.edges@, root, post),
                root as nat,
            ));
            lemma_span_bounded(elist@, n as nat);
            assert(crate::graph_algo::graph_node_bound(g) <= n as nat);
        }

        // Raw immediate dominators, as far as the algorithm names
        // nodes of this graph.
        let mut raw: Vec<Option<usize>> = Vec::new();
        let mut v: usize = 0;
        while v < n
            invariant
                0 <= v <= n,
                raw@.len() == v,
                root < n,
                m == crate::graph_algo::idom_map(dom),
                crate::graph_algo::idom_root(dom) == root as nat,
                forall|u: int| 0 <= u < v ==> #[trigger] raw@[u] == (if u != root
                    && m.dom().contains(u as nat) && m[u as nat] < n {
                    Some(m[u as nat] as usize)
                } else {
                    None::<usize>
                }),
            decreases n - v,
        {
            let iv = match crate::graph_algo::immediate_dominator(&dom, v) {
                Some(p) => if p < n && v != root {
                    Some(p)
                } else {
                    None
                },
                None => None,
            };
            proof {
                if v != root && m.dom().contains(v as nat) && m[v as nat] < n {
                    assert(iv == Some(m[v as nat] as usize));
                } else {
                    assert(iv is None);
                }
            }
            raw.push(iv);
            v = v + 1;
        }
        proof {
            assert(raw_matches_map(raw@, m, n as int, root));
            assert forall|u: int| 0 <= u < n implies ((#[trigger] raw@[u]) matches Some(p) ==> p
                < n && u != root) by {}
        }

        // Chain depths by fixed point: a node's depth is known once
        // its immediate dominator's is.  Unreachable entries and any
        // entry whose chain never reaches the root stay unknown and
        // are dropped.
        let mut depth: Vec<usize> = Vec::new();
        let mut known: Vec<bool> = Vec::new();
        v = 0;
        while v < n
            invariant
                0 <= v <= n,
                depth@.len() == v,
                known@.len() == v,
                forall|u: int| 0 <= u < v ==> (#[trigger] known@[u]) == false,
                forall|u: int| 0 <= u < v ==> (#[trigger] depth@[u]) == 0,
            decreases n - v,
        {
            depth.push(0);
            known.push(false);
            v = v + 1;
        }
        known.set(root, true);

        proof {
            assert(chains_ok(known@, depth@, raw@, n as int, root));
            assert forall|vv: nat, f: nat| vv < n && f <= 0 && #[trigger] chain_reaches_in(
                m,
                vv,
                root as nat,
                f,
                n as nat,
            ) implies known@[vv as int] by {
                if vv != root as nat {
                    assert(!chain_reaches_in(m, vv, root as nat, f, n as nat));
                }
            }
        }
        let mut round: usize = 0;
        while round < n
            invariant
                0 <= round <= n,
                n == raw@.len(),
                root < n,
                depth@.len() == n,
                known@.len() == n,
                forall|u: int| 0 <= u < n ==> ((#[trigger] raw@[u]) matches Some(p) ==> p < n
                    && u != root),
                raw_matches_map(raw@, m, n as int, root),
                chains_ok(known@, depth@, raw@, n as int, root),
                forall|vv: nat, f: nat| vv < n && f <= round && #[trigger] chain_reaches_in(
                    m,
                    vv,
                    root as nat,
                    f,
                    n as nat,
                ) ==> known@[vv as int],
            decreases n - round,
        {
            let mut u: usize = 0;
            while u < n
                invariant
                    0 <= u <= n,
                    round < n,
                    n == raw@.len(),
                    root < n,
                    depth@.len() == n,
                    known@.len() == n,
                    forall|w: int| 0 <= w < n ==> ((#[trigger] raw@[w]) matches Some(p) ==> p < n
                        && w != root),
                    raw_matches_map(raw@, m, n as int, root),
                    chains_ok(known@, depth@, raw@, n as int, root),
                    forall|vv: nat, f: nat| vv < n && f <= round && #[trigger] chain_reaches_in(
                        m,
                        vv,
                        root as nat,
                        f,
                        n as nat,
                    ) ==> known@[vv as int],
                    forall|vv: nat| vv < u && #[trigger] chain_reaches_in(
                        m,
                        vv,
                        root as nat,
                        (round + 1) as nat,
                        n as nat,
                    ) ==> known@[vv as int],
                decreases n - u,
            {
                if !known[u] {
                    match raw[u] {
                        Some(p) => {
                            if known[p] && depth[p] < n {
                                let ghost known0 = known@;
                                let ghost depth0 = depth@;
                                let dp = depth[p];
                                depth.set(u, dp + 1);
                                known.set(u, true);
                                proof {
                                    assert(u != root);
                                    assert(p != u);
                                    assert forall|w: int| 0 <= w < n && w != root
                                        && #[trigger] known@[w] implies (
                                        raw@[w] matches Some(q) && known@[q as int]
                                            && depth@[w] == depth@[q as int] + 1 && depth@[w] <= n
                                    ) by {
                                        if w != u {
                                            assert(known0[w]);
                                            let q = raw@[w].unwrap();
                                            assert(known0[q as int]);
                                            assert(q != u);
                                            assert(depth@[w] == depth0[w]);
                                            assert(depth@[q as int] == depth0[q as int]);
                                        } else {
                                            assert(raw@[u as int] == Some(p));
                                            assert(known@[p as int]);
                                            assert(depth@[u as int] == depth0[p as int] + 1);
                                        }
                                    }
                                    assert(chains_ok(known@, depth@, raw@, n as int, root));
                                }
                            }
                        }
                        None => {}
                    }
                }
                proof {
                    assert forall|vv: nat| vv < u + 1 && #[trigger] chain_reaches_in(
                        m,
                        vv,
                        root as nat,
                        (round + 1) as nat,
                        n as nat,
                    ) implies known@[vv as int] by {
                        if vv as int == u as int && !known@[vv as int] {
                            assert(vv != root as nat);
                            assert(m.dom().contains(vv) && m[vv] < n as nat);
                            let pp = m[vv];
                            assert(chain_reaches_in(m, pp, root as nat, round as nat, n as nat));
                            assert(known@[pp as int]);
                            lemma_depth_at_most_fuel(
                                m,
                                raw@,
                                known@,
                                depth@,
                                n as int,
                                root,
                                pp,
                                round as nat,
                            );
                            assert(depth@[pp as int] <= round);
                            assert(raw@[vv as int] == Some(pp as usize));
                            assert(false);
                        }
                    }
                }
                u = u + 1;
            }
            proof {
                assert forall|vv: nat, f: nat| vv < n && f <= round + 1
                    && #[trigger] chain_reaches_in(m, vv, root as nat, f, n as nat) implies
                    known@[vv as int] by {
                    if f == (round + 1) as nat {
                        assert(chain_reaches_in(m, vv, root as nat, (round + 1) as nat, n as nat));
                    }
                }
            }
            round = round + 1;
        }
        proof {
            assert(forall|vv: nat, f: nat| vv < n && f <= n && #[trigger] chain_reaches_in(
                m,
                vv,
                root as nat,
                f,
                n as nat,
            ) ==> known@[vv as int]);
        }

        // Keep exactly the entries whose chains were validated.
        let mut idom: Vec<Option<usize>> = Vec::new();
        v = 0;
        while v < n
            invariant
                0 <= v <= n,
                n == raw@.len(),
                root < n,
                depth@.len() == n,
                known@.len() == n,
                idom@.len() == v,
                forall|w: int| 0 <= w < n ==> ((#[trigger] raw@[w]) matches Some(p) ==> p < n
                    && w != root),
                chains_ok(known@, depth@, raw@, n as int, root),
                forall|w: int| 0 <= w < v ==> #[trigger] idom@[w] == (if w != root && known@[w] {
                    raw@[w]
                } else {
                    None::<usize>
                }),
            decreases n - v,
        {
            let entry = if v != root && known[v] {
                raw[v]
            } else {
                None
            };
            idom.push(entry);
            v = v + 1;
        }

        let d = Dominators { root, idom, depth, reversed: post };
        proof {
            assert forall|i: int| 0 <= i < d.idom@.len() implies ((#[trigger] d.idom@[i]) matches Some(p)
                ==> (p as int) < d.idom@.len() && d.depth@[i] == d.depth@[p as int] + 1
                    && (p == d.root || d.idom@[p as int] is Some)) by {
                if d.idom@[i] is Some {
                    let p = d.idom@[i].unwrap();
                    assert(known@[i] && i != root);
                    assert(raw@[i] == Some(p));
                    assert(known@[p as int]);
                    if p != root {
                        assert(raw@[p as int] is Some);
                        assert(d.idom@[p as int] == raw@[p as int]);
                    }
                }
            }
            assert(d.wf());
            // The recorded entries are exactly the algorithm's map,
            // wherever its chain provably descends to the root.
            assert forall|v: int| 0 <= v < n implies ((#[trigger] d.idom@[v]) matches Some(p)
                ==> v != root && m.dom().contains(v as nat) && p as nat == m[v as nat]) by {
                if d.idom@[v] is Some {
                    assert(d.idom@[v] == raw@[v]);
                }
            }
            assert forall|v: int| 0 <= v < n && v != root && chain_reaches_in(
                m,
                v as nat,
                root as nat,
                n as nat,
                n as nat,
            ) implies ((#[trigger] d.idom@[v]) matches Some(p) && p as nat == m[v as nat]) by {
                assert(known@[v]);
                assert(m.dom().contains(v as nat) && m[v as nat] < n as nat);
                assert(raw@[v] == Some(m[v as nat] as usize));
                assert(d.idom@[v] == raw@[v]);
            }
            assert forall|v: int| 0 <= v < n && v != root && graph_algo::edge_reaches(
                dominator_edges(self.graph.edges@, root, post),
                root as nat,
                v as nat,
            ) implies ((#[trigger] d.idom@[v]) matches Some(p) && p as nat == m[v as nat]) by {
                assert(graph_algo::edge_reaches(
                    crate::graph_algo::graph_edge_list(g),
                    root as nat,
                    v as nat,
                ));
                assert(chain_reaches_in(
                    m,
                    v as nat,
                    root as nat,
                    crate::graph_algo::graph_node_bound(g),
                    crate::graph_algo::graph_node_bound(g),
                ));
                graph_algo::lemma_chain_reaches_widen(
                    m,
                    v as nat,
                    root as nat,
                    crate::graph_algo::graph_node_bound(g),
                    crate::graph_algo::graph_node_bound(g),
                    n as nat,
                    n as nat,
                );
            }
        }
        d
    }
}

/// What the dominator analysis promises of its root: the root has no
/// immediate dominator, and it dominates every node the tree records.
pub proof fn lemma_root_dominates(d: Dominators, v: usize)
    requires
        d.wf(),
        (v as int) < d.idom@.len(),
        d.idom@[v as int] is Some || v == d.root,
    ensures
        d.spec_dominates(d.root, v),
    decreases d.spec_depth(v),
{
    if v == d.root {
        assert(d.spec_dominates(d.root, d.root));
    } else {
        let p = d.idom@[v as int].unwrap();
        lemma_root_dominates(d, p);
        assert(d.spec_immediate(v) == Some(p));
        assert(d.spec_dominates(d.root, v));
    }
}

/// Together with `compute_dominators`' contract: every node whose
/// immediate-dominator chain in the algorithm's map descends to the
/// root is recorded by the tree, and the root dominates it.
pub proof fn lemma_root_dominates_reaching(d: Dominators, m: Map<nat, nat>, v: usize)
    requires
        d.wf(),
        (v as int) < d.idom@.len(),
        v != d.root,
        chain_reaches_in(m, v as nat, d.root as nat, d.idom@.len(), d.idom@.len()),
        forall|u: int| 0 <= u < d.idom@.len() && u != d.root && chain_reaches_in(
            m,
            u as nat,
            d.root as nat,
            d.idom@.len(),
            d.idom@.len(),
        ) ==> (#[trigger] d.idom@[u]) is Some,
    ensures
        d.spec_dominates(d.root, v),
{
    assert(d.idom@[v as int] is Some);
    lemma_root_dominates(d, v);
}

/// The root of the (post)dominator tree has no immediate dominator,
/// and every node the tree records is dominated by it.
pub proof fn lemma_entry_dominates_all(d: Dominators)
    requires
        d.wf(),
    ensures
        d.spec_immediate(d.root) is None,
        forall|v: usize| (v as int) < d.idom@.len() && #[trigger] d.idom@[v as int] is Some
            ==> d.spec_dominates(d.root, v),
{
    assert forall|v: usize| (v as int) < d.idom@.len() && #[trigger] d.idom@[v as int] is Some
        implies d.spec_dominates(d.root, v) by {
        lemma_root_dominates(d, v);
    }
}

} // verus!
