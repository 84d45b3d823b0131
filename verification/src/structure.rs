//! Recover structured control flow from the graph: loops from the
//! strongly connected components, then `if`/`while`/`break`/
//! `continue` from the dominator trees.
use vstd::prelude::*;
use crate::ast::{
    Block, BlockV, Expr, ExprV, Statement, StatementV, block_model, stmt_model, stmts_model,
    expr_model, loop_label, loop_label_name,
};
use crate::cfg::{BasicBlock, Cfg, Dominators, Label, out_edges_spec};
use crate::errors::Error;
use crate::unit::JavaConstant;

verus! {

broadcast use vstd::std_specs::vec::group_vec_axioms;

/// A statement that carries no control flow of its own: what the
/// lifter and the constructor pass leave in the blocks.
pub open spec fn stmtv_plain(s: StatementV) -> bool {
    match s {
        StatementV::Nop => true,
        StatementV::Expr(_) => true,
        StatementV::Return(_) => true,
        StatementV::ThisCall(_) => true,
        StatementV::SuperCall(_) => true,
        _ => false,
    }
}

/// The structured-output invariant: no basic-block references
/// survive, control is expressed only by `If`, `While`, `Break`,
/// `Continue` and `Return`, and every break or continue names the
/// label of a `While` that lexically encloses it.
pub open spec fn stmtv_structured_ok(s: StatementV, labels: Seq<Seq<char>>) -> bool
    decreases s,
{
    match s {
        StatementV::Nop => true,
        StatementV::Expr(_) => true,
        StatementV::Return(_) => true,
        StatementV::ThisCall(_) => true,
        StatementV::SuperCall(_) => true,
        StatementV::If { cond, then, els } => blockv_structured_ok(then, labels) && (match els {
            Some(b) => blockv_structured_ok(b, labels),
            None => true,
        }),
        StatementV::While { label, cond, body, do_while } => (label matches Some(l)
            && blockv_structured_ok(body, labels.push(l))),
        StatementV::Break(l) => l matches Some(x) && labels.contains(x),
        StatementV::Continue(l) => l matches Some(x) && labels.contains(x),
        _ => false,
    }
}

pub open spec fn blockv_structured_ok(b: BlockV, labels: Seq<Seq<char>>) -> bool
    decreases b,
{
    &&& b.0.len() == 0
    &&& forall|i: int| 0 <= i < b.1.len() ==> stmtv_structured_ok(#[trigger] b.1[i], labels)
}

/// A plain statement is structured under any labels.
proof fn lemma_plain_structured(s: StatementV, labels: Seq<Seq<char>>)
    requires
        stmtv_plain(s),
    ensures
        stmtv_structured_ok(s, labels),
{
}

/// A method body whose blocks hold only plain statements.
pub open spec fn cfg_plain_ok(c: Cfg<Statement, Expr>) -> bool {
    forall|b: int| 0 <= b < c.graph.nodes@.len() ==> forall|k: int|
        0 <= k < (#[trigger] c.graph.nodes@[b]).stmts@.len() ==> stmtv_plain(stmt_model(
            #[trigger] c.graph.nodes@[b].stmts@[k],
        ))
}

/// One discovered loop: its nodes, single entry, the edges that
/// continue it, the nodes it exits to, and where control resumes.
#[derive(Debug)]
pub struct Loop {
    pub nodes: Vec<Label>,
    pub entry: Label,
    pub continue_edges: Vec<(Label, Label)>,
    pub exits: Vec<Label>,
    pub break_point: Label,
    pub break_edges: Vec<(Label, Label)>,
}

/// Everything the emission walks against: the loop registry and the
/// two dominator trees.
#[derive(Debug)]
pub struct Context {
    pub loops: Vec<Loop>,
    pub entry_to_loop_index: Vec<(Label, usize)>,
    pub loop_breaks: Vec<((Label, Label), usize)>,
    pub dominators: Dominators,
    pub postdominators: Dominators,
}

impl Context {
    pub open spec fn wf(&self) -> bool {
        &&& self.dominators.wf()
        &&& self.postdominators.wf()
        &&& forall|i: int| 0 <= i < self.entry_to_loop_index@.len()
            ==> (#[trigger] self.entry_to_loop_index@[i]).1 < self.loops@.len()
        &&& forall|i: int| 0 <= i < self.loop_breaks@.len()
            ==> (#[trigger] self.loop_breaks@[i]).1 < self.loops@.len()
    }
}

/// Whether `x` occurs in the list.
fn contains_label(v: &Vec<usize>, x: usize) -> (r: bool)
    ensures
        r == v@.contains(x),
{
    let mut i: usize = 0;
    let n = v.len();
    while i < n
        invariant
            n == v@.len(),
            0 <= i <= n,
            forall|j: int| 0 <= j < i ==> v@[j] != x,
        decreases n - i,
    {
        if v[i] == x {
            proof {
                assert(v@[i as int] == x);
            }
            return true;
        }
        i = i + 1;
    }
    proof {
        assert(!v@.contains(x));
    }
    false
}

/// Whether the edge occurs in the list.
fn contains_edge(v: &Vec<(Label, Label)>, e: (Label, Label)) -> (r: bool)
    ensures
        r == v@.contains(e),
{
    let mut i: usize = 0;
    let n = v.len();
    while i < n
        invariant
            n == v@.len(),
            0 <= i <= n,
            forall|j: int| 0 <= j < i ==> v@[j] != e,
        decreases n - i,
    {
        if v[i].0 == e.0 && v[i].1 == e.1 {
            proof {
                assert(v@[i as int] == e);
            }
            return true;
        }
        i = i + 1;
    }
    proof {
        assert(!v@.contains(e));
    }
    false
}

/// The first registration whose key is `node`, kept only when it
/// names a real loop.
pub open spec fn spec_lookup_entry(pairs: Seq<(Label, usize)>, nloops: int, node: Label) -> Option<usize>
    decreases pairs.len(),
{
    if pairs.len() == 0 {
        None
    } else if pairs[0].0 == node {
        if (pairs[0].1 as int) < nloops {
            Some(pairs[0].1)
        } else {
            None
        }
    } else {
        spec_lookup_entry(pairs.drop_first(), nloops, node)
    }
}

/// The first registration whose key is the edge, kept only when it
/// names a real loop.
pub open spec fn spec_lookup_break(pairs: Seq<((Label, Label), usize)>, nloops: int, e: (Label, Label)) -> Option<usize>
    decreases pairs.len(),
{
    if pairs.len() == 0 {
        None
    } else if pairs[0].0 == e {
        if (pairs[0].1 as int) < nloops {
            Some(pairs[0].1)
        } else {
            None
        }
    } else {
        spec_lookup_break(pairs.drop_first(), nloops, e)
    }
}

/// The loop registered for this entry node, if any.
fn lookup_loop_entry(ctx: &Context, node: Label) -> (r: Option<usize>)
    ensures
        r == spec_lookup_entry(ctx.entry_to_loop_index@, ctx.loops@.len() as int, node),
        r matches Some(idx) ==> idx < ctx.loops@.len(),
{
    let mut i: usize = 0;
    let n = ctx.entry_to_loop_index.len();
    proof {
        assert(ctx.entry_to_loop_index@.skip(0) =~= ctx.entry_to_loop_index@);
    }
    while i < n
        invariant
            n == ctx.entry_to_loop_index@.len(),
            0 <= i <= n,
            spec_lookup_entry(ctx.entry_to_loop_index@, ctx.loops@.len() as int, node)
                == spec_lookup_entry(
                ctx.entry_to_loop_index@.skip(i as int),
                ctx.loops@.len() as int,
                node,
            ),
        decreases n - i,
    {
        proof {
            assert(ctx.entry_to_loop_index@.skip(i as int)[0] == ctx.entry_to_loop_index@[i as int]);
            assert(ctx.entry_to_loop_index@.skip(i as int).drop_first()
                =~= ctx.entry_to_loop_index@.skip(i + 1));
        }
        if ctx.entry_to_loop_index[i].0 == node {
            let idx = ctx.entry_to_loop_index[i].1;
            if idx < ctx.loops.len() {
                return Some(idx);
            } else {
                return None;
            }
        }
        i = i + 1;
    }
    proof {
        assert(ctx.entry_to_loop_index@.skip(n as int).len() == 0);
    }
    None
}

/// The loop whose registered break edge this is, if any.
fn lookup_loop_break(ctx: &Context, e: (Label, Label)) -> (r: Option<usize>)
    ensures
        r == spec_lookup_break(ctx.loop_breaks@, ctx.loops@.len() as int, e),
        r matches Some(idx) ==> idx < ctx.loops@.len(),
{
    let mut i: usize = 0;
    let n = ctx.loop_breaks.len();
    proof {
        assert(ctx.loop_breaks@.skip(0) =~= ctx.loop_breaks@);
    }
    while i < n
        invariant
            n == ctx.loop_breaks@.len(),
            0 <= i <= n,
            spec_lookup_break(ctx.loop_breaks@, ctx.loops@.len() as int, e) == spec_lookup_break(
                ctx.loop_breaks@.skip(i as int),
                ctx.loops@.len() as int,
                e,
            ),
        decreases n - i,
    {
        proof {
            assert(ctx.loop_breaks@.skip(i as int)[0] == ctx.loop_breaks@[i as int]);
            assert(ctx.loop_breaks@.skip(i as int).drop_first() =~= ctx.loop_breaks@.skip(i + 1));
        }
        if ctx.loop_breaks[i].0.0 == e.0 && ctx.loop_breaks[i].0.1 == e.1 {
            proof {
                assert(ctx.loop_breaks@[i as int].0 == e);
            }
            let idx = ctx.loop_breaks[i].1;
            if idx < ctx.loops.len() {
                return Some(idx);
            } else {
                return None;
            }
        }
        i = i + 1;
    }
    proof {
        assert(ctx.loop_breaks@.skip(n as int).len() == 0);
    }
    None
}

/// The label names of the loops that lexically enclose the cursor.
pub open spec fn labels_of(active: Seq<usize>) -> Seq<Seq<char>> {
    active.map(|i: int, id: usize| loop_label_name(id as nat))
}

proof fn lemma_labels_contains(active: Seq<usize>, id: usize)
    requires
        active.contains(id),
    ensures
        labels_of(active).contains(loop_label_name(id as nat)),
{
    let i = choose|i: int| 0 <= i < active.len() && active[i] == id;
    assert(labels_of(active)[i] == loop_label_name(id as nat));
}

} // verus!

verus! {

/// The true- and false-weighted targets of a branching block, read
/// the way the emission scans its two outgoing edges.
pub open spec fn spec_true_target(o: Seq<(usize, bool)>) -> Option<Label> {
    if o[1].1 {
        Some(o[1].0)
    } else if o[0].1 {
        Some(o[0].0)
    } else {
        None
    }
}

pub open spec fn spec_false_target(o: Seq<(usize, bool)>) -> Option<Label> {
    if !o[1].1 {
        Some(o[1].0)
    } else if !o[0].1 {
        Some(o[0].0)
    } else {
        None
    }
}

/// What one edge step emits and where linearisation goes on: a
/// `Continue` on a registered continue edge, a whole `While` when a
/// loop header is entered from outside, a `Break` on a registered
/// break edge, and nothing otherwise.  `None` is a refused step.
pub open spec fn spec_handle_jump(
    cfg: Cfg<Statement, Expr>,
    ctx: Context,
    src: Label,
    dst: Label,
    stop: Label,
    active: Seq<usize>,
    fuel: nat,
) -> Option<(Seq<StatementV>, Label)>
    decreases fuel, 2int,
{
    if fuel == 0 {
        None
    } else if !ctx.postdominators.spec_dominates(stop, dst) {
        None
    } else {
        match spec_lookup_entry(ctx.entry_to_loop_index@, ctx.loops@.len() as int, dst) {
            Some(idx) => {
                if ctx.loops@[idx as int].continue_edges@.contains((src, dst)) {
                    if active.contains(idx) {
                        Some((
                            seq![StatementV::Continue(Some(loop_label_name(idx as nat)))],
                            stop,
                        ))
                    } else {
                        None
                    }
                } else {
                    let brk = ctx.loops@[idx as int].break_point;
                    if !ctx.postdominators.spec_dominates(stop, brk) {
                        None
                    } else {
                        match spec_structure_from_to(
                            cfg,
                            ctx,
                            dst,
                            brk,
                            active.push(idx),
                            (fuel - 1) as nat,
                        ) {
                            Some(body) => Some((
                                seq![
                                    StatementV::While {
                                        label: Some(loop_label_name(idx as nat)),
                                        cond: ExprV::Literal(crate::unit::JavaConstantV::Boolean(true)),
                                        body: BlockV(Seq::empty(), body),
                                        do_while: false,
                                    },
                                ],
                                brk,
                            )),
                            None => None,
                        }
                    }
                }
            },
            None => {
                match spec_lookup_break(ctx.loop_breaks@, ctx.loops@.len() as int, (src, dst)) {
                    Some(idx) => {
                        if active.contains(idx) {
                            Some((
                                seq![StatementV::Break(Some(loop_label_name(idx as nat)))],
                                ctx.loops@[idx as int].break_point,
                            ))
                        } else {
                            None
                        }
                    },
                    None => Some((Seq::empty(), dst)),
                }
            },
        }
    }
}

/// What one block emits: its non-blank statements, then its branch
/// (an `If` whose arms linearise to the immediate postdominator) or
/// its single continuation.
pub open spec fn spec_translate_block(
    cfg: Cfg<Statement, Expr>,
    ctx: Context,
    cur: Label,
    stop: Label,
    active: Seq<usize>,
    fuel: nat,
) -> Option<(Seq<StatementV>, Label)>
    decreases fuel, 0int,
{
    if fuel == 0 {
        None
    } else if cur >= cfg.graph.nodes@.len() {
        None
    } else {
        let bb = cfg.graph.nodes@[cur as int];
        let base = non_nop_models(bb.stmts@);
        let o = out_edges_spec(cfg.graph.edges@, cur);
        match bb.terminator {
            Some(cond) => {
                if o.len() != 2 {
                    None
                } else {
                    match (spec_true_target(o), spec_false_target(o)) {
                        (Some(tt), Some(ft)) => match ctx.postdominators.spec_immediate(cur) {
                            Some(join) => {
                                if !ctx.postdominators.spec_dominates(stop, join) {
                                    None
                                } else {
                                    match spec_handle_jump(cfg, ctx, cur, tt, stop, active, (fuel - 1) as nat) {
                                        Some((ts1, tb)) => match spec_structure_from_to(
                                            cfg,
                                            ctx,
                                            tb,
                                            join,
                                            active,
                                            (fuel - 1) as nat,
                                        ) {
                                            Some(ts2) => match spec_handle_jump(
                                                cfg,
                                                ctx,
                                                cur,
                                                ft,
                                                stop,
                                                active,
                                                (fuel - 1) as nat,
                                            ) {
                                                Some((es1, eb)) => match spec_structure_from_to(
                                                    cfg,
                                                    ctx,
                                                    eb,
                                                    join,
                                                    active,
                                                    (fuel - 1) as nat,
                                                ) {
                                                    Some(es2) => Some((
                                                        base + seq![
                                                            StatementV::If {
                                                                cond: expr_model(cond),
                                                                then: BlockV(Seq::empty(), ts1 + ts2),
                                                                els: Some(BlockV(Seq::empty(), es1 + es2)),
                                                            },
                                                        ],
                                                        join,
                                                    )),
                                                    None => None,
                                                },
                                                None => None,
                                            },
                                            None => None,
                                        },
                                        None => None,
                                    }
                                }
                            },
                            None => None,
                        },
                        _ => None,
                    }
                }
            },
            None => {
                if o.len() != 1 {
                    None
                } else {
                    match spec_handle_jump(cfg, ctx, cur, o[0].0, stop, active, (fuel - 1) as nat) {
                        Some((js, ret)) => Some((base + js, ret)),
                        None => None,
                    }
                }
            },
        }
    }
}

/// The linearisation of the region between `cur` and `stop`: block
/// after block until the stop point or the exit.
pub open spec fn spec_structure_from_to(
    cfg: Cfg<Statement, Expr>,
    ctx: Context,
    cur: Label,
    stop: Label,
    active: Seq<usize>,
    fuel: nat,
) -> Option<Seq<StatementV>>
    decreases fuel, 1int,
{
    if fuel == 0 {
        None
    } else if cur == stop || cur == cfg.exit_point {
        Some(Seq::empty())
    } else {
        match spec_translate_block(cfg, ctx, cur, stop, active, (fuel - 1) as nat) {
            Some((head, next)) => match spec_structure_from_to(
                cfg,
                ctx,
                next,
                stop,
                active,
                (fuel - 1) as nat,
            ) {
                Some(tail) => Some(head + tail),
                None => None,
            },
            None => None,
        }
    }
}

/// Statement models distribute over concatenation.
proof fn lemma_stmts_model_concat(a: Seq<Statement>, b: Seq<Statement>)
    ensures
        stmts_model(a + b) == stmts_model(a) + stmts_model(b),
{
    assert forall|j: int| 0 <= j < (a + b).len() implies stmts_model(a + b)[j] == (stmts_model(a)
        + stmts_model(b))[j] by {
        if j < a.len() {
            assert((a + b)[j] == a[j]);
        } else {
            assert((a + b)[j] == b[j - a.len()]);
        }
    }
    assert(stmts_model(a + b) =~= stmts_model(a) + stmts_model(b));
}

/// The statements appended by an emission step are structured under
/// the active labels.
pub open spec fn emitted_ok(stmts: Seq<Statement>, active: Seq<usize>) -> bool {
    forall|i: int| 0 <= i < stmts.len() ==> stmtv_structured_ok(
        stmt_model(#[trigger] stmts[i]),
        labels_of(active),
    )
}

/// Linearise the region between `cur` and `stop`, stopping at the
/// graph's exit as well.
fn structure_from_to(
    cfg: &Cfg<Statement, Expr>,
    ctx: &Context,
    cur: Label,
    stop: Label,
    active: &Vec<usize>,
    fuel: usize,
) -> (r: Result<Vec<Statement>, Error>)
    requires
        cfg.wf(),
        cfg_plain_ok(*cfg),
        ctx.wf(),
    ensures
        r matches Ok(stmts) ==> emitted_ok(stmts@, active@),
        r matches Ok(stmts) ==> spec_structure_from_to(*cfg, *ctx, cur, stop, active@, fuel as nat)
            == Some(stmts_model(stmts@)),
        r matches Err(e) ==> (e matches Error::UnstructuredFlow { .. } || e
            matches Error::PostdominanceViolation { .. }),
    decreases fuel, 1int,
{
    if fuel == 0 {
        return Err(Error::UnstructuredFlow { block: cur });
    }
    if cur == stop || cur == cfg.exit_point {
        let stmts: Vec<Statement> = Vec::new();
        proof {
            assert(stmts_model(stmts@) =~= Seq::<StatementV>::empty());
        }
        return Ok(stmts);
    }
    let (mut stmts, next) = translate_block(cfg, ctx, cur, stop, active, fuel - 1)?;
    let mut rest = structure_from_to(cfg, ctx, next, stop, active, fuel - 1)?;
    let ghost stmts0 = stmts@;
    let ghost rest0 = rest@;
    let nrest = rest.len();
    let mut i: usize = 0;
    while i < nrest
        invariant
            nrest == rest0.len(),
            0 <= i <= nrest,
            rest@ == rest0.subrange(i as int, nrest as int),
            stmts@ =~= stmts0 + rest0.subrange(0, i as int),
            emitted_ok(stmts0, active@),
            emitted_ok(rest0, active@),
        decreases nrest - i,
    {
        let s = rest.remove(0);
        proof {
            assert(s == rest0[i as int]);
        }
        stmts.push(s);
        proof {
            assert(rest@ =~= rest0.subrange(i + 1, nrest as int));
            assert(stmts@ =~= stmts0 + rest0.subrange(0, i + 1));
        }
        i = i + 1;
    }
    proof {
        assert(stmts@ =~= stmts0 + rest0);
        assert(emitted_ok(stmts@, active@));
        assert(stmts_model(stmts@) =~= stmts_model(stmts0) + stmts_model(rest0)) by {
            assert forall|j: int| 0 <= j < stmts@.len() implies stmts_model(stmts@)[j] == (
            stmts_model(stmts0) + stmts_model(rest0))[j] by {
                if j < stmts0.len() {
                    assert(stmts@[j] == stmts0[j]);
                } else {
                    assert(stmts@[j] == rest0[j - stmts0.len()]);
                }
            }
        }
    }
    Ok(stmts)
}

/// Emit one block: its statements, then its branch or its single
/// continuation; the label where linearisation goes on comes back.
fn translate_block(
    cfg: &Cfg<Statement, Expr>,
    ctx: &Context,
    cur: Label,
    stop: Label,
    active: &Vec<usize>,
    fuel: usize,
) -> (r: Result<(Vec<Statement>, Label), Error>)
    requires
        cfg.wf(),
        cfg_plain_ok(*cfg),
        ctx.wf(),
    ensures
        r matches Ok((stmts, next)) ==> emitted_ok(stmts@, active@),
        r matches Ok((stmts, next)) ==> spec_translate_block(
            *cfg,
            *ctx,
            cur,
            stop,
            active@,
            fuel as nat,
        ) == Some((stmts_model(stmts@), next)),
        r matches Err(e) ==> (e matches Error::UnstructuredFlow { .. } || e
            matches Error::PostdominanceViolation { .. }),
    decreases fuel, 0int,
{
    if fuel == 0 {
        return Err(Error::UnstructuredFlow { block: cur });
    }
    if cur >= cfg.graph.nodes.len() {
        return Err(Error::UnstructuredFlow { block: cur });
    }
    let outgoing = cfg.graph.out_edges(cur);
    let bb = &cfg.graph.nodes[cur];
    proof {
        assert(forall|k: int| 0 <= k < bb.stmts@.len() ==> stmtv_plain(stmt_model(
            #[trigger] bb.stmts@[k],
        )));
    }
    let mut result = copy_non_nop(&bb.stmts);
    proof {
        assert forall|i: int| 0 <= i < result@.len() implies stmtv_structured_ok(
            stmt_model(#[trigger] result@[i]),
            labels_of(active@),
        ) by {
            assert(stmtv_plain(stmt_model(result@[i])));
            lemma_plain_structured(stmt_model(result@[i]), labels_of(active@));
        }
    }
    match &bb.terminator {
        Some(cond) => {
            if outgoing.len() != 2 {
                return Err(Error::UnstructuredFlow { block: cur });
            }
            let mut true_target: Option<Label> = None;
            let mut false_target: Option<Label> = None;
            let e0 = outgoing[0];
            let e1 = outgoing[1];
            if e0.1 {
                true_target = Some(e0.0);
            } else {
                false_target = Some(e0.0);
            }
            if e1.1 {
                true_target = Some(e1.0);
            } else {
                false_target = Some(e1.0);
            }
            let tt = match true_target {
                Some(t) => t,
                None => {
                    return Err(Error::UnstructuredFlow { block: cur });
                }
            };
            let ft = match false_target {
                Some(t) => t,
                None => {
                    return Err(Error::UnstructuredFlow { block: cur });
                }
            };
            let join = match ctx.postdominators.get_immediate(cur) {
                Some(j) => j,
                None => {
                    return Err(Error::UnstructuredFlow { block: cur });
                }
            };
            if !ctx.postdominators.is_for(stop, join) {
                return Err(Error::PostdominanceViolation { stop, next: join });
            }
            proof {
                assert(spec_true_target(outgoing@) == Some(tt));
                assert(spec_false_target(outgoing@) == Some(ft));
            }
            let mut then_stmts: Vec<Statement> = Vec::new();
            let then_block = handle_jump(cfg, ctx, &mut then_stmts, cur, tt, stop, active, fuel - 1)?;
            let ghost then_pre = then_stmts@;
            let ghost ts1 = stmts_model(then_stmts@);
            let mut then_rest = structure_from_to(cfg, ctx, then_block, join, active, fuel - 1)?;
            let ghost then_tail = then_rest@;
            let ghost ts2 = stmts_model(then_rest@);
            append_all(&mut then_stmts, &mut then_rest, Ghost(active@));
            proof {
                lemma_stmts_model_concat(then_pre, then_tail);
            }
            let mut else_stmts: Vec<Statement> = Vec::new();
            let else_block = handle_jump(cfg, ctx, &mut else_stmts, cur, ft, stop, active, fuel - 1)?;
            let ghost else_pre = else_stmts@;
            let ghost es1 = stmts_model(else_stmts@);
            let mut else_rest = structure_from_to(cfg, ctx, else_block, join, active, fuel - 1)?;
            let ghost else_tail = else_rest@;
            let ghost es2 = stmts_model(else_rest@);
            append_all(&mut else_stmts, &mut else_rest, Ghost(active@));
            proof {
                lemma_stmts_model_concat(else_pre, else_tail);
            }
            let ghost then_all = stmts_model(then_stmts@);
            let ghost else_all = stmts_model(else_stmts@);
            proof {
                assert(then_all =~= ts1 + ts2);
                assert(else_all =~= es1 + es2);
            }
            let stmt = Statement::If {
                cond: cond.clone(),
                then: Block(Vec::new(), then_stmts),
                els: Some(Block(Vec::new(), else_stmts)),
            };
            proof {
                assert(stmtv_structured_ok(stmt_model(stmt), labels_of(active@)));
                assert(stmt_model(stmt) matches StatementV::If { cond: cm, then: tm, els: em }
                    && cm == expr_model(bb.terminator.unwrap()) && tm.0
                    =~= Seq::<crate::ast::LocalDeclV>::empty() && tm.1 =~= then_all && (em
                    matches Some(eb) && eb.0 =~= Seq::<crate::ast::LocalDeclV>::empty() && eb.1
                    =~= else_all));
                assert(stmt_model(stmt) =~~= (StatementV::If {
                    cond: expr_model(bb.terminator.unwrap()),
                    then: BlockV(Seq::empty(), ts1 + ts2),
                    els: Some(BlockV(Seq::empty(), es1 + es2)),
                }));
            }
            let ghost base = result@;
            result.push(stmt);
            proof {
                assert(stmts_model(result@) =~= stmts_model(base) + seq![stmt_model(stmt)]);
                assert(stmts_model(base) == non_nop_models(cfg.graph.nodes@[cur as int].stmts@));
                assert(spec_translate_block(*cfg, *ctx, cur, stop, active@, fuel as nat)
                    == Some((stmts_model(result@), join)));
            }
            Ok((result, join))
        }
        None => {
            if outgoing.len() > 1 {
                return Err(Error::UnstructuredFlow { block: cur });
            }
            if outgoing.len() == 0 {
                return Err(Error::UnstructuredFlow { block: cur });
            }
            let next = outgoing[0].0;
            let after = handle_jump(cfg, ctx, &mut result, cur, next, stop, active, fuel - 1)?;
            proof {
                assert(spec_translate_block(*cfg, *ctx, cur, stop, active@, fuel as nat)
                    == Some((stmts_model(result@), after)));
            }
            Ok((result, after))
        }
    }
}

/// The models of the statements that are not blanks.
pub open spec fn non_nop_models(stmts: Seq<Statement>) -> Seq<StatementV>
    decreases stmts.len(),
{
    if stmts.len() == 0 {
        Seq::empty()
    } else {
        non_nop_models(stmts.drop_last()) + (if stmt_model(stmts.last()) is Nop {
            Seq::empty()
        } else {
            seq![stmt_model(stmts.last())]
        })
    }
}

/// Copy a block's statements, leaving the blanks of the propagation
/// pass behind.
fn copy_non_nop(v: &Vec<Statement>) -> (r: Vec<Statement>)
    requires
        forall|k: int| 0 <= k < v@.len() ==> stmtv_plain(stmt_model(#[trigger] v@[k])),
    ensures
        forall|i: int| 0 <= i < r@.len() ==> stmtv_plain(stmt_model(#[trigger] r@[i])),
        stmts_model(r@) == non_nop_models(v@),
{
    let mut r: Vec<Statement> = Vec::new();
    let mut i: usize = 0;
    let n = v.len();
    while i < n
        invariant
            n == v@.len(),
            0 <= i <= n,
            forall|k: int| 0 <= k < v@.len() ==> stmtv_plain(stmt_model(#[trigger] v@[k])),
            forall|j: int| 0 <= j < r@.len() ==> stmtv_plain(stmt_model(#[trigger] r@[j])),
            stmts_model(r@) == non_nop_models(v@.subrange(0, i as int)),
        decreases n - i,
    {
        let keep = match &v[i] {
            Statement::Nop => false,
            _ => true,
        };
        let ghost r0 = r@;
        if keep {
            let s = v[i].clone();
            proof {
                assert(stmt_model(s) == stmt_model(v@[i as int]));
            }
            r.push(s);
        }
        proof {
            assert(v@.subrange(0, i + 1).drop_last() =~= v@.subrange(0, i as int));
            assert(v@.subrange(0, i + 1).last() == v@[i as int]);
            assert(stmt_model(v@[i as int]) is Nop <==> v@[i as int] is Nop);
            if keep {
                assert(stmts_model(r@) =~= stmts_model(r0).push(stmt_model(v@[i as int])));
                assert(stmts_model(r@) =~= non_nop_models(v@.subrange(0, i + 1)));
            } else {
                assert(r@ == r0);
                assert(stmts_model(r@) =~= non_nop_models(v@.subrange(0, i + 1)));
            }
        }
        i = i + 1;
    }
    proof {
        assert(v@.subrange(0, n as int) =~= v@);
    }
    r
}

/// Append the second list to the first; both are structured.
fn append_all(dst: &mut Vec<Statement>, src: &mut Vec<Statement>, Ghost(active): Ghost<Seq<usize>>)
    requires
        emitted_ok(old(dst)@, active),
        emitted_ok(old(src)@, active),
    ensures
        final(dst)@ == old(dst)@ + old(src)@,
        emitted_ok(final(dst)@, active),
{
    let ghost dst0 = dst@;
    let ghost src0 = src@;
    let n = src.len();
    let mut i: usize = 0;
    while i < n
        invariant
            n == src0.len(),
            0 <= i <= n,
            src@ == src0.subrange(i as int, n as int),
            dst@ =~= dst0 + src0.subrange(0, i as int),
        decreases n - i,
    {
        let s = src.remove(0);
        proof {
            assert(s == src0[i as int]);
        }
        dst.push(s);
        proof {
            assert(src@ =~= src0.subrange(i + 1, n as int));
            assert(dst@ =~= dst0 + src0.subrange(0, i + 1));
        }
        i = i + 1;
    }
    proof {
        assert(dst@ =~= dst0 + src0);
    }
}

/// Take one edge: into a registered loop as a `while` or a
/// `continue`, out of one as a `break`, or just onward.
fn handle_jump(
    cfg: &Cfg<Statement, Expr>,
    ctx: &Context,
    result: &mut Vec<Statement>,
    src: Label,
    dst: Label,
    stop: Label,
    active: &Vec<usize>,
    fuel: usize,
) -> (r: Result<Label, Error>)
    requires
        cfg.wf(),
        cfg_plain_ok(*cfg),
        ctx.wf(),
        emitted_ok(old(result)@, active@),
    ensures
        r matches Ok(_) ==> emitted_ok(final(result)@, active@),
        r matches Ok(ret) ==> spec_handle_jump(*cfg, *ctx, src, dst, stop, active@, fuel as nat)
            matches Some((sv, rr)) && rr == ret && stmts_model(final(result)@) == stmts_model(
            old(result)@,
        ) + sv,
        r matches Err(_) ==> *final(result) == *old(result),
        r matches Err(e) ==> (e matches Error::UnstructuredFlow { .. } || e
            matches Error::PostdominanceViolation { .. }),
    decreases fuel, 2int,
{
    if fuel == 0 {
        return Err(Error::UnstructuredFlow { block: src });
    }
    if !ctx.postdominators.is_for(stop, dst) {
        return Err(Error::PostdominanceViolation { stop, next: dst });
    }
    match lookup_loop_entry(ctx, dst) {
        Some(loop_index) => {
            if contains_edge(&ctx.loops[loop_index].continue_edges, (src, dst)) {
                // A back edge: continue the loop it belongs to.
                if !contains_label(active, loop_index) {
                    return Err(Error::UnstructuredFlow { block: dst });
                }
                let label = loop_label(loop_index);
                let stmt = Statement::Continue(Some(label));
                proof {
                    lemma_labels_contains(active@, loop_index);
                    assert(stmtv_structured_ok(stmt_model(stmt), labels_of(active@)));
                }
                let ghost before = result@;
                result.push(stmt);
                proof {
                    assert(stmt_model(stmt) == StatementV::Continue(Some(loop_label_name(
                        loop_index as nat,
                    ))));
                    assert(stmts_model(result@) =~= stmts_model(before) + seq![stmt_model(stmt)]);
                }
                Ok(stop)
            } else {
                // The loop header reached from outside: emit the loop.
                let brk = ctx.loops[loop_index].break_point;
                if !ctx.postdominators.is_for(stop, brk) {
                    return Err(Error::PostdominanceViolation { stop, next: brk });
                }
                let mut inner_active = clone_labels(active);
                inner_active.push(loop_index);
                let body = structure_from_to(cfg, ctx, dst, brk, &inner_active, fuel - 1)?;
                let ghost body_model = stmts_model(body@);
                let label = loop_label(loop_index);
                let stmt = Statement::While {
                    label: Some(label),
                    cond: Expr::Literal(JavaConstant::Boolean(true)),
                    body: Block(Vec::new(), body),
                    do_while: false,
                };
                proof {
                    assert(labels_of(inner_active@) =~= labels_of(active@).push(
                        loop_label_name(loop_index as nat),
                    ));
                    assert(stmtv_structured_ok(stmt_model(stmt), labels_of(active@)));
                    assert(inner_active@ =~= active@.push(loop_index));
                }
                let ghost before = result@;
                result.push(stmt);
                proof {
                    assert(expr_model(Expr::Literal(JavaConstant::Boolean(true)))
                        == ExprV::Literal(crate::unit::JavaConstantV::Boolean(true)));
                    assert(stmt_model(stmt) matches StatementV::While { body: bm, .. } && bm.0
                        =~= Seq::<crate::ast::LocalDeclV>::empty() && bm.1 =~= body_model);
                    assert(stmt_model(stmt) =~~= (StatementV::While {
                        label: Some(loop_label_name(loop_index as nat)),
                        cond: ExprV::Literal(crate::unit::JavaConstantV::Boolean(true)),
                        body: BlockV(Seq::empty(), body_model),
                        do_while: false,
                    }));
                    assert(stmts_model(result@) =~= stmts_model(before) + seq![stmt_model(stmt)]);
                }
                Ok(brk)
            }
        }
        None => {
            match lookup_loop_break(ctx, (src, dst)) {
                Some(loop_index) => {
                    // A registered break edge: leave the loop.
                    if !contains_label(active, loop_index) {
                        return Err(Error::UnstructuredFlow { block: dst });
                    }
                    let label = loop_label(loop_index);
                    let stmt = Statement::Break(Some(label));
                    proof {
                        lemma_labels_contains(active@, loop_index);
                        assert(stmtv_structured_ok(stmt_model(stmt), labels_of(active@)));
                    }
                    let ghost before = result@;
                    result.push(stmt);
                    proof {
                        assert(stmt_model(stmt) == StatementV::Break(Some(loop_label_name(
                            loop_index as nat,
                        ))));
                        assert(stmts_model(result@) =~= stmts_model(before) + seq![stmt_model(
                            stmt,
                        )]);
                    }
                    Ok(ctx.loops[loop_index].break_point)
                }
                None => {
                    proof {
                        assert(stmts_model(result@) =~= stmts_model(result@)
                            + Seq::<StatementV>::empty());
                    }
                    Ok(dst)
                }
            }
        }
    }
}

/// A copy of the active-loop list.
fn clone_labels(v: &Vec<usize>) -> (r: Vec<usize>)
    ensures
        r@ == v@,
{
    let mut r: Vec<usize> = Vec::new();
    let mut i: usize = 0;
    while i < v.len()
        invariant
            0 <= i <= v@.len(),
            r@ =~= v@.subrange(0, i as int),
        decreases v@.len() - i,
    {
        r.push(v[i]);
        i = i + 1;
    }
    proof {
        assert(r@ =~= v@);
    }
    r
}

} // verus!

verus! {

use crate::unit::{CompilationUnit, Declaration, Method, Constructor};

/// The members of `scc` that the filter admits, each once.
fn intersect_filter(scc: &Vec<usize>, filter: &Vec<Label>) -> (r: Vec<Label>)
    ensures
        forall|i: int| 0 <= i < r@.len() ==> filter@.contains(#[trigger] r@[i]),
        r@.len() <= scc@.len(),
    {
    let mut r: Vec<Label> = Vec::new();
    let mut i: usize = 0;
    let n = scc.len();
    while i < n
        invariant
            n == scc@.len(),
            0 <= i <= n,
            r@.len() <= i,
            forall|j: int| 0 <= j < r@.len() ==> filter@.contains(#[trigger] r@[j]),
        decreases n - i,
    {
        let x = scc[i];
        if contains_label(filter, x) && !contains_label(&r, x) {
            r.push(x);
        }
        i = i + 1;
    }
    r
}

/// Whether this strongly connected component is a loop: more than one
/// node, or a single node with an edge to itself.
fn is_scc_loop(cfg: &Cfg<Statement, Expr>, nodes: &Vec<Label>) -> (r: bool)
{
    if nodes.len() == 0 {
        return false;
    }
    if nodes.len() == 1 {
        let node = nodes[0];
        cfg.graph.has_edge(node, node)
    } else {
        true
    }
}

/// Some edge into `v` starts outside the node set.
pub open spec fn edge_from_outside(edges: Seq<(usize, usize, bool)>, nodeset: Seq<Label>, v: Label) -> bool {
    exists|j: int| 0 <= j < crate::cfg::in_sources_spec(edges, v).len() && !nodeset.contains(
        #[trigger] crate::cfg::in_sources_spec(edges, v)[j],
    )
}

/// The node belongs to the set and is entered from outside it.
pub open spec fn is_loop_entry(edges: Seq<(usize, usize, bool)>, nodeset: Seq<Label>, v: Label) -> bool {
    nodeset.contains(v) && edge_from_outside(edges, nodeset, v)
}

/// No single member of the set is its unique entry from outside:
/// either none is entered from outside, or two are.
pub open spec fn no_unique_loop_entry(edges: Seq<(usize, usize, bool)>, nodeset: Seq<Label>) -> bool {
    !(exists|v: Label| is_loop_entry(edges, nodeset, v) && (forall|w: Label| is_loop_entry(
        edges,
        nodeset,
        w,
    ) ==> w == v))
}

/// Some member of the set has an edge to `t`, which lies outside it.
pub open spec fn is_loop_exit_target(edges: Seq<(usize, usize, bool)>, nodeset: Seq<Label>, t: Label) -> bool {
    !nodeset.contains(t) && exists|i: int, j: int| 0 <= i < nodeset.len() && 0 <= j
        < out_edges_spec(edges, nodeset[i]).len() && (#[trigger] out_edges_spec(
        edges,
        nodeset[i],
    )[j]).0 == t
}

/// Find the single entry of a loop, its exits, its continue edges,
/// and the point where control resumes after it: the entry is the
/// unique member entered from outside, the continue edges are the
/// in-set edges into it, the break point is a common postdominator
/// of every exit target, and the break edges are the edges into the
/// break point whose source the entry dominates.
#[verifier::rlimit(60)]
fn find_entries_and_exits(
    cfg: &Cfg<Statement, Expr>,
    dominators: &Dominators,
    postdominators: &Dominators,
    nodes: Vec<Label>,
) -> (r: Result<Loop, Error>)
    requires
        dominators.wf(),
        postdominators.wf(),
    ensures
        match r {
            Ok(lp) => {
                &&& lp.nodes@ == nodes@
                &&& is_loop_entry(cfg.graph.edges@, nodes@, lp.entry)
                &&& forall|v: Label| is_loop_entry(cfg.graph.edges@, nodes@, v) ==> v == lp.entry
                &&& forall|e: (Label, Label)| lp.continue_edges@.contains(e) <==> (e.1 == lp.entry
                    && nodes@.contains(e.0) && crate::cfg::in_sources_spec(
                    cfg.graph.edges@,
                    lp.entry,
                ).contains(e.0))
                &&& forall|t: Label| lp.exits@.contains(t) <==> is_loop_exit_target(
                    cfg.graph.edges@,
                    nodes@,
                    t,
                )
                &&& forall|t: Label| lp.exits@.contains(t) ==> postdominators.spec_dominates(
                    lp.break_point,
                    t,
                )
                &&& forall|e: (Label, Label)| lp.break_edges@.contains(e) <==> (e.1
                    == lp.break_point && crate::cfg::in_sources_spec(
                    cfg.graph.edges@,
                    lp.break_point,
                ).contains(e.0) && dominators.spec_dominates(lp.entry, e.0))
            },
            Err(e) => {
                ||| e matches Error::UnstructuredFlow { .. }
                ||| (e matches Error::IrreducibleLoop { blocks } && blocks@ == nodes@
                    && no_unique_loop_entry(cfg.graph.edges@, nodes@))
            },
        },
{
    let ghost edges = cfg.graph.edges@;
    let mut entry_points: Vec<Label> = Vec::new();
    let mut exit_points: Vec<Label> = Vec::new();
    let nn = nodes.len();
    let mut i: usize = 0;
    while i < nn
        invariant
            nn == nodes@.len(),
            0 <= i <= nn,
            edges == cfg.graph.edges@,
            forall|a: int, b: int| 0 <= a < b < entry_points@.len() ==> entry_points@[a]
                != entry_points@[b],
            forall|x: Label| entry_points@.contains(x) <==> (exists|i2: int| 0 <= i2 < i
                && nodes@[i2] == x && edge_from_outside(edges, nodes@, x)),
            forall|t: Label| exit_points@.contains(t) <==> (!nodes@.contains(t) && exists|i2: int, j: int|
                0 <= i2 < i && 0 <= j < out_edges_spec(edges, nodes@[i2]).len()
                    && (#[trigger] out_edges_spec(edges, nodes@[i2])[j]).0 == t),
        decreases nn - i,
    {
        let node = nodes[i];
        let incoming = cfg.graph.in_sources(node);
        let ghost ep0 = entry_points@;
        let mut k: usize = 0;
        let nk = incoming.len();
        while k < nk
            invariant
                nn == nodes@.len(),
                0 <= i < nn,
                node == nodes@[i as int],
                edges == cfg.graph.edges@,
                incoming@ == crate::cfg::in_sources_spec(edges, node),
                nk == incoming@.len(),
                0 <= k <= nk,
                forall|a: int, b: int| 0 <= a < b < entry_points@.len() ==> entry_points@[a]
                    != entry_points@[b],
                forall|x: Label| x != node ==> (entry_points@.contains(x) <==> ep0.contains(x)),
                entry_points@.contains(node) <==> (ep0.contains(node) || exists|k2: int|
                    0 <= k2 < k && !nodes@.contains(#[trigger] incoming@[k2])),
            decreases nk - k,
        {
            if !contains_label(&nodes, incoming[k]) {
                if !contains_label(&entry_points, node) {
                    let ghost pre = entry_points@;
                    entry_points.push(node);
                    proof {
                        assert(entry_points@.last() == node);
                        assert(entry_points@.contains(node));
                        assert forall|x: Label| x != node implies (entry_points@.contains(x)
                            <==> pre.contains(x)) by {
                            if entry_points@.contains(x) {
                                let ix = choose|ix: int| 0 <= ix < entry_points@.len()
                                    && entry_points@[ix] == x;
                                assert(ix < pre.len());
                                assert(pre[ix] == x);
                            }
                            if pre.contains(x) {
                                let ix = choose|ix: int| 0 <= ix < pre.len() && pre[ix] == x;
                                assert(entry_points@[ix] == x);
                            }
                        }
                    }
                } else {
                    proof {
                        assert(entry_points@.contains(node));
                    }
                }
                proof {
                    assert(!nodes@.contains(incoming@[k as int]));
                }
            }
            k = k + 1;
        }
        proof {
            assert forall|x: Label| #[trigger] entry_points@.contains(x) implies (exists|i2: int|
                0 <= i2 < i + 1 && nodes@[i2] == x && edge_from_outside(edges, nodes@, x)) by {
                if x == node && !ep0.contains(x) {
                    let k2 = choose|k2: int| 0 <= k2 < nk && !nodes@.contains(
                        #[trigger] incoming@[k2],
                    );
                    assert(edge_from_outside(edges, nodes@, node));
                    assert(nodes@[i as int] == x);
                } else {
                    assert(ep0.contains(x));
                    let i2 = choose|i2: int| 0 <= i2 < i && nodes@[i2] == x && edge_from_outside(
                        edges,
                        nodes@,
                        x,
                    );
                }
            }
            assert forall|x: Label| (exists|i2: int| 0 <= i2 < i + 1 && nodes@[i2] == x
                && edge_from_outside(edges, nodes@, x)) implies #[trigger] entry_points@.contains(
                x,
            ) by {
                let i2 = choose|i2: int| 0 <= i2 < i + 1 && nodes@[i2] == x && edge_from_outside(
                    edges,
                    nodes@,
                    x,
                );
                if i2 == i as int {
                    let j = choose|j: int| 0 <= j < crate::cfg::in_sources_spec(edges, x).len()
                        && !nodes@.contains(#[trigger] crate::cfg::in_sources_spec(edges, x)[j]);
                    assert(!nodes@.contains(incoming@[j]));
                } else {
                    assert(ep0.contains(x));
                }
            }
        }
        let outgoing = cfg.graph.out_edges(node);
        let ghost ex0 = exit_points@;
        let mut k2: usize = 0;
        let nk2 = outgoing.len();
        while k2 < nk2
            invariant
                nn == nodes@.len(),
                0 <= i < nn,
                node == nodes@[i as int],
                edges == cfg.graph.edges@,
                outgoing@ == out_edges_spec(edges, node),
                nk2 == outgoing@.len(),
                0 <= k2 <= nk2,
                forall|t: Label| exit_points@.contains(t) <==> (ex0.contains(t) || (
                    !nodes@.contains(t) && exists|j: int| 0 <= j < k2 && (
                    #[trigger] outgoing@[j]).0 == t)),
                forall|t: Label| ex0.contains(t) ==> !nodes@.contains(t),
            decreases nk2 - k2,
        {
            let target = outgoing[k2].0;
            let ghost before = exit_points@;
            if !contains_label(&nodes, target) {
                if !contains_label(&exit_points, target) {
                    let ghost pre = exit_points@;
                    exit_points.push(target);
                    proof {
                        assert(exit_points@.last() == target);
                        assert(exit_points@.contains(target));
                        assert forall|t: Label| t != target implies (exit_points@.contains(t)
                            <==> pre.contains(t)) by {
                            if exit_points@.contains(t) {
                                let ix = choose|ix: int| 0 <= ix < exit_points@.len()
                                    && exit_points@[ix] == t;
                                assert(ix < pre.len());
                                assert(pre[ix] == t);
                            }
                            if pre.contains(t) {
                                let ix = choose|ix: int| 0 <= ix < pre.len() && pre[ix] == t;
                                assert(exit_points@[ix] == t);
                            }
                        }
                    }
                }
            }
            proof {
                assert forall|t: Label| #[trigger] exit_points@.contains(t) implies (
                    ex0.contains(t) || (!nodes@.contains(t) && exists|j: int| 0 <= j < k2 + 1
                        && (#[trigger] outgoing@[j]).0 == t)) by {
                    if !before.contains(t) {
                        assert(t == target);
                        assert(outgoing@[k2 as int].0 == t);
                    } else {
                        if !ex0.contains(t) {
                            let j = choose|j: int| 0 <= j < k2 && (#[trigger] outgoing@[j]).0 == t;
                        }
                    }
                }
                assert forall|t: Label| (ex0.contains(t) || (!nodes@.contains(t) && exists|j: int|
                    0 <= j < k2 + 1 && (#[trigger] outgoing@[j]).0 == t)) implies
                    #[trigger] exit_points@.contains(t) by {
                    if ex0.contains(t) {
                        assert(before.contains(t));
                    } else {
                        let j = choose|j: int| 0 <= j < k2 + 1 && (#[trigger] outgoing@[j]).0 == t;
                        if j < k2 {
                            assert(before.contains(t));
                        } else {
                            assert(t == target);
                            assert(!nodes@.contains(target));
                            if before.contains(target) {
                            } else {
                                assert(exit_points@.contains(target));
                            }
                        }
                    }
                }
            }
            k2 = k2 + 1;
        }
        proof {
            assert forall|t: Label| #[trigger] exit_points@.contains(t) implies (
                !nodes@.contains(t) && exists|i2: int, j: int| 0 <= i2 < i + 1 && 0 <= j
                    < out_edges_spec(edges, nodes@[i2]).len() && (#[trigger] out_edges_spec(
                    edges,
                    nodes@[i2],
                )[j]).0 == t) by {
                if !ex0.contains(t) {
                    let j = choose|j: int| 0 <= j < nk2 && (#[trigger] outgoing@[j]).0 == t;
                    assert(out_edges_spec(edges, nodes@[i as int])[j].0 == t);
                }
            }
            assert forall|t: Label| (!nodes@.contains(t) && exists|i2: int, j: int|
                0 <= i2 < i + 1 && 0 <= j < out_edges_spec(edges, nodes@[i2]).len()
                    && (#[trigger] out_edges_spec(edges, nodes@[i2])[j]).0 == t) implies
                #[trigger] exit_points@.contains(t) by {
                let (i2, j) = choose|i2: int, j: int| 0 <= i2 < i + 1 && 0 <= j < out_edges_spec(
                    edges,
                    nodes@[i2],
                ).len() && (#[trigger] out_edges_spec(edges, nodes@[i2])[j]).0 == t;
                if i2 == i as int {
                    assert(outgoing@[j].0 == t);
                } else {
                    assert(ex0.contains(t));
                }
            }
        }
        i = i + 1;
    }
    if entry_points.len() != 1 {
        proof {
            if exists|v: Label| is_loop_entry(edges, nodes@, v) && forall|w: Label| is_loop_entry(
                edges,
                nodes@,
                w,
            ) ==> w == v {
                let v = choose|v: Label| is_loop_entry(edges, nodes@, v) && forall|w: Label|
                    is_loop_entry(edges, nodes@, w) ==> w == v;
                assert(entry_points@.contains(v));
                if entry_points@.len() >= 2 {
                    assert(entry_points@[0] != entry_points@[1]);
                    assert(entry_points@.contains(entry_points@[0]));
                    assert(entry_points@.contains(entry_points@[1]));
                    assert(is_loop_entry(edges, nodes@, entry_points@[0]));
                    assert(is_loop_entry(edges, nodes@, entry_points@[1]));
                    assert(false);
                }
                assert(false);
            }
        }
        return Err(Error::IrreducibleLoop { blocks: nodes });
    }
    let entry_point = entry_points[0];
    proof {
        assert(entry_points@.contains(entry_point));
        assert(is_loop_entry(edges, nodes@, entry_point));
        assert forall|v: Label| is_loop_entry(edges, nodes@, v) implies v == entry_point by {
            assert(nodes@.contains(v));
            let i2 = choose|i2: int| 0 <= i2 < nodes@.len() && nodes@[i2] == v;
            assert(entry_points@.contains(v));
            let ix = choose|ix: int| 0 <= ix < entry_points@.len() && entry_points@[ix] == v;
        }
    }

    let mut continue_edges: Vec<(Label, Label)> = Vec::new();
    let incoming = cfg.graph.in_sources(entry_point);
    let mut k: usize = 0;
    let nk = incoming.len();
    while k < nk
        invariant
            edges == cfg.graph.edges@,
            incoming@ == crate::cfg::in_sources_spec(edges, entry_point),
            nk == incoming@.len(),
            0 <= k <= nk,
            forall|e: (Label, Label)| continue_edges@.contains(e) <==> (e.1 == entry_point
                && nodes@.contains(e.0) && exists|k2: int| 0 <= k2 < k
                    && #[trigger] incoming@[k2] == e.0),
        decreases nk - k,
    {
        if contains_label(&nodes, incoming[k]) {
            let ghost pre = continue_edges@;
            continue_edges.push((incoming[k], entry_point));
            proof {
                assert(continue_edges@.last() == (incoming@[k as int], entry_point));
                assert forall|e: (Label, Label)| #[trigger] continue_edges@.contains(e) implies (
                    pre.contains(e) || e == (incoming@[k as int], entry_point)) by {
                    let ix = choose|ix: int| 0 <= ix < continue_edges@.len()
                        && continue_edges@[ix] == e;
                    if ix < pre.len() {
                        assert(pre[ix] == e);
                    }
                }
                assert forall|e: (Label, Label)| pre.contains(e) implies
                    #[trigger] continue_edges@.contains(e) by {
                    let ix = choose|ix: int| 0 <= ix < pre.len() && pre[ix] == e;
                    assert(continue_edges@[ix] == e);
                }
            }
        }
        k = k + 1;
    }
    proof {
        assert forall|e: (Label, Label)| #[trigger] continue_edges@.contains(e) implies (e.1
            == entry_point && nodes@.contains(e.0) && crate::cfg::in_sources_spec(
            edges,
            entry_point,
        ).contains(e.0)) by {
            let k2 = choose|k2: int| 0 <= k2 < nk && #[trigger] incoming@[k2] == e.0;
        }
        assert forall|e: (Label, Label)| (e.1 == entry_point && nodes@.contains(e.0)
            && crate::cfg::in_sources_spec(edges, entry_point).contains(e.0)) implies
            #[trigger] continue_edges@.contains(e) by {
            let k2 = choose|k2: int| 0 <= k2 < incoming@.len() && incoming@[k2] == e.0;
            assert(e == (e.0, entry_point));
        }
    }

    let break_point = match postdominators.get_common(&exit_points) {
        Some(b) => b,
        None => {
            return Err(Error::UnstructuredFlow { block: entry_point });
        }
    };

    let mut break_edges: Vec<(Label, Label)> = Vec::new();
    let incoming_brk = cfg.graph.in_sources(break_point);
    let mut k3: usize = 0;
    let nk3 = incoming_brk.len();
    while k3 < nk3
        invariant
            dominators.wf(),
            edges == cfg.graph.edges@,
            incoming_brk@ == crate::cfg::in_sources_spec(edges, break_point),
            nk3 == incoming_brk@.len(),
            0 <= k3 <= nk3,
            forall|e: (Label, Label)| break_edges@.contains(e) <==> (e.1 == break_point
                && dominators.spec_dominates(entry_point, e.0) && exists|k2: int|
                0 <= k2 < k3 && #[trigger] incoming_brk@[k2] == e.0),
        decreases nk3 - k3,
    {
        if dominators.is_for(entry_point, incoming_brk[k3]) {
            let ghost pre = break_edges@;
            break_edges.push((incoming_brk[k3], break_point));
            proof {
                assert(break_edges@.last() == (incoming_brk@[k3 as int], break_point));
                assert forall|e: (Label, Label)| #[trigger] break_edges@.contains(e) implies (
                    pre.contains(e) || e == (incoming_brk@[k3 as int], break_point)) by {
                    let ix = choose|ix: int| 0 <= ix < break_edges@.len() && break_edges@[ix] == e;
                    if ix < pre.len() {
                        assert(pre[ix] == e);
                    }
                }
                assert forall|e: (Label, Label)| pre.contains(e) implies
                    #[trigger] break_edges@.contains(e) by {
                    let ix = choose|ix: int| 0 <= ix < pre.len() && pre[ix] == e;
                    assert(break_edges@[ix] == e);
                }
            }
        }
        k3 = k3 + 1;
    }
    proof {
        assert forall|e: (Label, Label)| #[trigger] break_edges@.contains(e) implies (e.1
            == break_point && crate::cfg::in_sources_spec(edges, break_point).contains(e.0)
            && dominators.spec_dominates(entry_point, e.0)) by {
            let k2 = choose|k2: int| 0 <= k2 < nk3 && #[trigger] incoming_brk@[k2] == e.0;
        }
        assert forall|e: (Label, Label)| (e.1 == break_point && crate::cfg::in_sources_spec(
            edges,
            break_point,
        ).contains(e.0) && dominators.spec_dominates(entry_point, e.0)) implies
            #[trigger] break_edges@.contains(e) by {
            let k2 = choose|k2: int| 0 <= k2 < incoming_brk@.len() && incoming_brk@[k2] == e.0;
            assert(e == (e.0, break_point));
        }
    }

    Ok(Loop {
        nodes,
        entry: entry_point,
        continue_edges,
        exits: exit_points,
        break_point,
        break_edges,
    })
}

/// Register a discovered loop under the next free index.
fn store_loop_in_context(ctx: &mut Context, lupe: Loop) -> (entry: Label)
    requires
        old(ctx).wf(),
    ensures
        final(ctx).wf(),
        final(ctx).dominators == old(ctx).dominators,
        final(ctx).postdominators == old(ctx).postdominators,
        entry == lupe.entry,
{
    let loop_index = ctx.loops.len();
    let entry = lupe.entry;
    ctx.entry_to_loop_index.push((lupe.entry, loop_index));
    let nb = lupe.break_edges.len();
    let mut i: usize = 0;
    while i < nb
        invariant
            nb == lupe.break_edges@.len(),
            0 <= i <= nb,
            loop_index == ctx.loops@.len(),
            ctx.dominators == old(ctx).dominators,
            ctx.postdominators == old(ctx).postdominators,
            ctx.dominators.wf(),
            ctx.postdominators.wf(),
            forall|j: int| 0 <= j < ctx.entry_to_loop_index@.len()
                ==> (#[trigger] ctx.entry_to_loop_index@[j]).1 <= loop_index,
            forall|j: int| 0 <= j < ctx.loop_breaks@.len()
                ==> (#[trigger] ctx.loop_breaks@[j]).1 <= loop_index,
        decreases nb - i,
    {
        ctx.loop_breaks.push((lupe.break_edges[i], loop_index));
        i = i + 1;
    }
    ctx.loops.push(lupe);
    proof {
        assert(ctx.loops@.len() == loop_index + 1);
        assert(ctx.wf());
    }
    entry
}

/// Remove one label from the list, keeping the others in order.
fn remove_label(v: &Vec<Label>, x: Label) -> (r: Vec<Label>)
    ensures
        r@.len() <= v@.len(),
{
    let mut r: Vec<Label> = Vec::new();
    let mut i: usize = 0;
    let n = v.len();
    while i < n
        invariant
            n == v@.len(),
            0 <= i <= n,
            r@.len() <= i,
        decreases n - i,
    {
        if v[i] != x {
            r.push(v[i]);
        }
        i = i + 1;
    }
    r
}

/// Discover the loops of the region the filter admits, outermost
/// first, and recurse into each loop without its entry.
fn collect_loops(
    cfg: &Cfg<Statement, Expr>,
    ctx: &mut Context,
    filter: &Vec<Label>,
    fuel: usize,
) -> (r: Result<(), Error>)
    requires
        old(ctx).wf(),
    ensures
        final(ctx).wf(),
        final(ctx).dominators == old(ctx).dominators,
        final(ctx).postdominators == old(ctx).postdominators,
        r matches Err(e) ==> {
            ||| e matches Error::UnstructuredFlow { .. }
            ||| (e matches Error::IrreducibleLoop { blocks } && blocks@.len() > 0
                && no_unique_loop_entry(cfg.graph.edges@, blocks@))
        },
    decreases fuel,
{
    if filter.len() == 0 {
        return Ok(());
    }
    if fuel == 0 {
        return Err(Error::UnstructuredFlow { block: 0 });
    }
    // The subgraph the filter admits.
    let mut elist: Vec<(usize, usize)> = Vec::new();
    let ne = cfg.graph.edges.len();
    let mut k: usize = 0;
    while k < ne
        invariant
            ne == cfg.graph.edges@.len(),
            0 <= k <= ne,
        decreases ne - k,
    {
        let e = cfg.graph.edges[k];
        if contains_label(filter, e.0) && contains_label(filter, e.1) {
            elist.push((e.0, e.1));
        }
        k = k + 1;
    }
    let g = crate::graph_algo::graph_from_edges(&elist);
    let sccs = crate::graph_algo::kosaraju_scc(&g);

    // Reverse order of the components is their topological order.
    let mut s: usize = sccs.len();
    while s > 0
        invariant
            0 <= s <= sccs@.len(),
            fuel >= 1,
            ctx.wf(),
            ctx.dominators == old(ctx).dominators,
            ctx.postdominators == old(ctx).postdominators,
        decreases s,
    {
        s = s - 1;
        let nodes = intersect_filter(&sccs[s], filter);
        if nodes.len() > 0 && is_scc_loop(cfg, &nodes) {
            let lupe = find_entries_and_exits(cfg, &ctx.dominators, &ctx.postdominators, nodes)?;
            let inner_nodes = remove_label(&lupe.nodes, lupe.entry);
            let entry = store_loop_in_context(ctx, lupe);
            collect_loops(cfg, ctx, &inner_nodes, fuel - 1)?;
        }
    }
    Ok(())
}

/// The statement list is the linearisation of the graph from entry
/// to exit under some loop registry: in particular every reached
/// block's non-blank statements appear at their place, branches
/// carry their blocks' conditions, and loops come out as labelled
/// `While`/`Continue`/`Break`.
pub open spec fn emitted_under_some_registry(cfg: Cfg<Statement, Expr>, out: Seq<StatementV>) -> bool {
    exists|c: Context, f: nat| #[trigger] spec_structure_from_to(
        cfg,
        c,
        cfg.entry_point,
        cfg.exit_point,
        Seq::empty(),
        f,
    ) == Some(out)
}

/// Recover one method body: loops first, then the linearisation from
/// entry to exit.
pub fn structure_cfg(cfg: &Cfg<Statement, Expr>) -> (r: Result<Block, Error>)
    requires
        cfg.wf(),
        cfg_plain_ok(*cfg),
    ensures
        match r {
            Ok(b) => {
                &&& blockv_structured_ok(block_model(b), Seq::empty())
                &&& block_model(b).0 == Seq::<crate::ast::LocalDeclV>::empty()
                &&& emitted_under_some_registry(*cfg, block_model(b).1)
            },
            Err(e) => {
                &&& (e matches Error::OversizedCode ==> cfg.graph.nodes@.len() > 70000)
                &&& (e matches Error::IrreducibleLoop { blocks } ==> blocks@.len() > 0
                    && no_unique_loop_entry(cfg.graph.edges@, blocks@))
                &&& {
                    ||| e matches Error::OversizedCode
                    ||| e matches Error::IrreducibleLoop { .. }
                    ||| e matches Error::UnstructuredFlow { .. }
                    ||| e matches Error::PostdominanceViolation { .. }
                }
            },
        },
{
    let dominators = cfg.compute_dominators(false);
    let postdominators = cfg.compute_dominators(true);
    let mut ctx = Context {
        loops: Vec::new(),
        entry_to_loop_index: Vec::new(),
        loop_breaks: Vec::new(),
        dominators,
        postdominators,
    };
    let n = cfg.graph.node_count();
    if n > 70000 {
        // Far beyond what a 65535-byte code attribute can produce.
        return Err(Error::OversizedCode);
    }
    let mut filter: Vec<Label> = Vec::new();
    let mut i: usize = 0;
    while i < n
        invariant
            0 <= i <= n,
        decreases n - i,
    {
        filter.push(i);
        i = i + 1;
    }
    collect_loops(cfg, &mut ctx, &filter, n + 1)?;
    // The emission recurses once per block along a chain and a
    // constant number of frames per nested region, so a linear
    // budget leaves ample room; running out is an error.
    let fuel: usize = 16 * (n + 2) + 1024;
    let active: Vec<usize> = Vec::new();
    let stmts = structure_from_to(cfg, &ctx, cfg.entry_point, cfg.exit_point, &active, fuel)?;
    let b = Block(Vec::new(), stmts);
    proof {
        assert(labels_of(active@) =~= Seq::<Seq<char>>::empty());
        assert(block_model(b).0 =~= Seq::<crate::ast::LocalDeclV>::empty());
        assert forall|j: int| 0 <= j < block_model(b).1.len() implies stmtv_structured_ok(
            #[trigger] block_model(b).1[j],
            Seq::empty(),
        ) by {
            assert(block_model(b).1[j] == stmt_model(stmts@[j]));
        }
        assert(active@ =~= Seq::<usize>::empty());
        assert(block_model(b).1 =~= stmts_model(stmts@));
        assert(emitted_under_some_registry(*cfg, block_model(b).1)) by {
            assert(spec_structure_from_to(
                *cfg,
                ctx,
                cfg.entry_point,
                cfg.exit_point,
                Seq::empty(),
                fuel as nat,
            ) == Some(block_model(b).1));
        }
    }
    Ok(b)
}

/// Recover structured bodies for every method and constructor of the
/// unit.
pub fn structure(unit: CompilationUnit<Cfg<Statement, Expr>>) -> (r: Result<CompilationUnit<Block>, crate::errors::MethodError>)
    requires
        forall|i: int| 0 <= i < unit.declarations@.len() ==> match #[trigger] unit.declarations@[i] {
            Declaration::Method(m) => m.code matches Some(c) ==> c.wf() && cfg_plain_ok(c),
            Declaration::Constructor(c) => c.code.wf() && cfg_plain_ok(c.code),
            Declaration::Field(_) => true,
        },
    ensures
        match r {
            Ok(u) => {
                &&& u.declarations@.len() == unit.declarations@.len()
                &&& u.name == unit.name
                &&& forall|i: int| 0 <= i < u.declarations@.len() ==> match #[trigger] u.declarations@[i] {
                    Declaration::Method(m2) => unit.declarations@[i]
                        matches Declaration::Method(m1) && {
                        &&& m2.name == m1.name
                        &&& m2.code is Some <==> m1.code is Some
                        &&& (m2.code matches Some(b) ==> m1.code matches Some(c1) && {
                            &&& blockv_structured_ok(block_model(b), Seq::empty())
                            &&& block_model(b).0 == Seq::<crate::ast::LocalDeclV>::empty()
                            &&& emitted_under_some_registry(c1, block_model(b).1)
                        })
                    },
                    Declaration::Constructor(c2) => unit.declarations@[i]
                        matches Declaration::Constructor(c1) && {
                        &&& blockv_structured_ok(block_model(c2.code), Seq::empty())
                        &&& block_model(c2.code).0 == Seq::<crate::ast::LocalDeclV>::empty()
                        &&& emitted_under_some_registry(c1.code, block_model(c2.code).1)
                    },
                    Declaration::Field(f2) => unit.declarations@[i]
                        matches Declaration::Field(f1) && f2 == f1,
                }
            },
            Err(me) => {
                &&& {
                    ||| me.error matches Error::OversizedCode
                    ||| me.error matches Error::IrreducibleLoop { .. }
                    ||| me.error matches Error::UnstructuredFlow { .. }
                    ||| me.error matches Error::PostdominanceViolation { .. }
                }
                &&& exists|i: int| 0 <= i < unit.declarations@.len()
                    && match #[trigger] unit.declarations@[i] {
                    Declaration::Constructor(c) => me.error
                        matches Error::IrreducibleLoop { blocks } ==> no_unique_loop_entry(
                        c.code.graph.edges@,
                        blocks@,
                    ),
                    Declaration::Method(m) => m.name == me.method && (m.code matches Some(c)
                        && (me.error matches Error::IrreducibleLoop { blocks }
                        ==> no_unique_loop_entry(c.graph.edges@, blocks@))),
                    Declaration::Field(_) => false,
                }
            },
        },
{
    let CompilationUnit { typ, modifiers, name, metadata, declarations } = unit;
    let mut mapped: Vec<Declaration<Block>> = Vec::new();
    let mut rest = declarations;
    let n = rest.len();
    let ghost all = rest@;
    let mut i: usize = 0;
    while i < n
        invariant
            n == all.len(),
            all == unit.declarations@,
            0 <= i <= n,
            rest@ == all.subrange(i as int, n as int),
            mapped@.len() == i,
            forall|j: int| 0 <= j < all.len() ==> match #[trigger] all[j] {
                Declaration::Method(m) => m.code matches Some(c) ==> c.wf() && cfg_plain_ok(c),
                Declaration::Constructor(c) => c.code.wf() && cfg_plain_ok(c.code),
                Declaration::Field(_) => true,
            },
            forall|j: int| 0 <= j < i ==> match #[trigger] mapped@[j] {
                Declaration::Method(m2) => all[j] matches Declaration::Method(m1) && {
                    &&& m2.name == m1.name
                    &&& m2.code is Some <==> m1.code is Some
                    &&& (m2.code matches Some(b) ==> m1.code matches Some(c1) && {
                        &&& blockv_structured_ok(block_model(b), Seq::empty())
                        &&& block_model(b).0 == Seq::<crate::ast::LocalDeclV>::empty()
                        &&& emitted_under_some_registry(c1, block_model(b).1)
                    })
                },
                Declaration::Constructor(c2) => all[j] matches Declaration::Constructor(c1) && {
                    &&& blockv_structured_ok(block_model(c2.code), Seq::empty())
                    &&& block_model(c2.code).0 == Seq::<crate::ast::LocalDeclV>::empty()
                    &&& emitted_under_some_registry(c1.code, block_model(c2.code).1)
                },
                Declaration::Field(f2) => all[j] matches Declaration::Field(f1) && f2 == f1,
            },
        decreases n - i,
    {
        let d = rest.remove(0);
        proof {
            assert(d == all[i as int]);
            assert(rest@ =~= all.subrange(i + 1, n as int));
        }
        let mapped_d = match d {
            Declaration::Field(f) => Declaration::Field(f),
            Declaration::Method(m) => {
                let Method { modifiers, name, signature, code } = m;
                let code = match code {
                    Some(cfg) => match structure_cfg(&cfg) {
                        Ok(b) => Some(b),
                        Err(e) => {
                            let me = crate::errors::MethodError { method: name, error: e };
                            proof {
                                assert(all[i as int] matches Declaration::Method(m1) && m1.name
                                    == me.method && (m1.code matches Some(c1) && (me.error
                                    matches Error::IrreducibleLoop { blocks }
                                    ==> no_unique_loop_entry(c1.graph.edges@, blocks@))));
                            }
                            return Err(me);
                        }
                    },
                    None => None,
                };
                Declaration::Method(Method { modifiers, name, signature, code })
            }
            Declaration::Constructor(c) => {
                let Constructor { modifiers, parameters, code } = c;
                let code = match structure_cfg(&code) {
                    Ok(b) => b,
                    Err(e) => {
                        let me = crate::errors::MethodError {
                            method: String::from_str("<init>"),
                            error: e,
                        };
                        proof {
                            assert(all[i as int] matches Declaration::Constructor(c1)
                                && (me.error matches Error::IrreducibleLoop { blocks }
                                ==> no_unique_loop_entry(c1.code.graph.edges@, blocks@)));
                        }
                        return Err(me);
                    }
                };
                Declaration::Constructor(Constructor { modifiers, parameters, code })
            }
        };
        mapped.push(mapped_d);
        i = i + 1;
    }
    Ok(CompilationUnit { typ, modifiers, name, metadata, declarations: mapped })
}

} // verus!
