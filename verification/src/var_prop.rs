//! Variable propagation: inline a defining assignment at its use site
//! when it provably has a single use under a single reaching
//! definition, and blank the assignment out.
use vstd::prelude::*;
use crate::ast::{
    Assignable, AssignableV, Expr, ExprV, Ident, Statement, StatementV, stmt_model, expr_model,
    clone_exprs,
};
use crate::cfg::{Cfg, Label};
use crate::errors::Error;
use crate::unit::{CompilationUnit, Declaration, Method, Metadata};

verus! {

broadcast use vstd::std_specs::vec::group_vec_axioms;

/// A place in the method: basic block and statement index.
#[derive(Copy, Clone, Debug, PartialEq, Eq, Structural)]
pub struct Location(pub usize, pub usize);

/// One defining assignment and what the analysis learnt about it.
#[derive(Debug)]
pub struct Definition {
    pub id: Location,
    pub ident: Ident,
    pub value: Expr,
    pub relevant_defs: Vec<(Ident, Vec<Location>)>,
    pub uses: usize,
    pub non_propagatable_uses: usize,
}

/// The definitions, keyed by their location, and the per-variable
/// reaching-definition sets at each block entry.
#[derive(Debug)]
pub struct DefinitionInfo {
    pub definitions: Vec<Definition>,
    pub relevant_on_bb_entry: Vec<Vec<(Ident, Vec<Location>)>>,
}

/// A definition is propagatable when exactly one read sees it, and
/// that read sees no other definition: inlining it there consumes
/// the assignment.
pub open spec fn spec_is_propagatable(d: Definition) -> bool {
    d.non_propagatable_uses == 0 && d.uses == 1
}

pub fn is_propagatable(def: &Definition) -> (r: bool)
    ensures
        r == spec_is_propagatable(*def),
{
    def.non_propagatable_uses == 0 && def.uses == 1
}

/// The first recorded definition at the location, if any.
pub open spec fn spec_def_lookup(defs: Seq<Definition>, id: Location) -> Option<Definition>
    decreases defs.len(),
{
    if defs.len() == 0 {
        None
    } else if defs[0].id == id {
        Some(defs[0])
    } else {
        spec_def_lookup(defs.drop_first(), id)
    }
}

/// The reaching set the map records first for the variable, if any.
pub open spec fn spec_relevant_lookup(rel: Seq<(Ident, Vec<Location>)>, name: Seq<char>) -> Option<Seq<Location>>
    decreases rel.len(),
{
    if rel.len() == 0 {
        None
    } else if rel[0].0@ == name {
        Some(rel[0].1@)
    } else {
        spec_relevant_lookup(rel.drop_first(), name)
    }
}

/// Find a definition by its location.
fn find_def(defs: &Vec<Definition>, id: Location) -> (r: Option<usize>)
    ensures
        match r {
            Some(i) => i < defs@.len() && defs@[i as int].id == id && spec_def_lookup(defs@, id)
                == Some(defs@[i as int]),
            None => (forall|i: int| 0 <= i < defs@.len() ==> (#[trigger] defs@[i]).id != id)
                && spec_def_lookup(defs@, id) is None,
        },
{
    let mut i: usize = 0;
    let n = defs.len();
    proof {
        assert(defs@.skip(0) =~= defs@);
    }
    while i < n
        invariant
            n == defs@.len(),
            0 <= i <= n,
            forall|j: int| 0 <= j < i ==> (#[trigger] defs@[j]).id != id,
            spec_def_lookup(defs@, id) == spec_def_lookup(defs@.skip(i as int), id),
        decreases n - i,
    {
        proof {
            assert(defs@.skip(i as int)[0] == defs@[i as int]);
            assert(defs@.skip(i as int).drop_first() =~= defs@.skip(i as int + 1));
        }
        if defs[i].id.0 == id.0 && defs[i].id.1 == id.1 {
            proof {
                assert(defs@[i as int].id == id);
            }
            return Some(i);
        }
        i = i + 1;
    }
    None
}

/// Find the reaching set of a variable in a per-block map.
fn find_relevant<'a>(relevant: &'a Vec<(Ident, Vec<Location>)>, var: &Ident) -> (r: Option<&'a Vec<Location>>)
    ensures
        match r {
            Some(ids) => spec_relevant_lookup(relevant@, var@) == Some(ids@),
            None => spec_relevant_lookup(relevant@, var@) is None,
        },
{
    let mut i: usize = 0;
    let n = relevant.len();
    proof {
        assert(relevant@.skip(0) =~= relevant@);
    }
    while i < n
        invariant
            n == relevant@.len(),
            0 <= i <= n,
            spec_relevant_lookup(relevant@, var@) == spec_relevant_lookup(
                relevant@.skip(i as int),
                var@,
            ),
        decreases n - i,
    {
        proof {
            assert(relevant@.skip(i as int)[0] == relevant@[i as int]);
            assert(relevant@.skip(i as int).drop_first() =~= relevant@.skip(i as int + 1));
        }
        if relevant[i].0 == *var {
            return Some(&relevant[i].1);
        }
        i = i + 1;
    }
    None
}

/// Replace the reaching set of a variable by a single location.
fn set_relevant(relevant: &mut Vec<(Ident, Vec<Location>)>, var: &Ident, id: Location)
{
    let mut i: usize = 0;
    let n = relevant.len();
    while i < n
        invariant
            n == relevant@.len(),
            0 <= i <= n,
        decreases n - i,
    {
        if relevant[i].0 == *var {
            let mut single: Vec<Location> = Vec::new();
            single.push(id);
            relevant[i] = (var.clone(), single);
            return;
        }
        i = i + 1;
    }
    let mut single: Vec<Location> = Vec::new();
    single.push(id);
    relevant.push((var.clone(), single));
}

/// Whether the set holds the location.
fn contains_location(v: &Vec<Location>, id: Location) -> (r: bool)
    ensures
        r == v@.contains(id),
{
    let mut i: usize = 0;
    let n = v.len();
    while i < n
        invariant
            n == v@.len(),
            0 <= i <= n,
            forall|j: int| 0 <= j < i ==> v@[j] != id,
        decreases n - i,
    {
        if v[i].0 == id.0 && v[i].1 == id.1 {
            proof {
                assert(v@[i as int] == id);
            }
            return true;
        }
        i = i + 1;
    }
    proof {
        assert(!v@.contains(id));
    }
    false
}

/// Merge a reaching set into a block-entry map; reports growth.
fn merge_relevant(target: &mut Vec<(Ident, Vec<Location>)>, var: &Ident, ids: &Vec<Location>) -> (changed: bool)
{
    let mut i: usize = 0;
    let n = target.len();
    while i < n
        invariant
            n == target@.len(),
            0 <= i <= n,
        decreases n - i,
    {
        if target[i].0 == *var {
            let mut changed = false;
            let mut k: usize = 0;
            let nk = ids.len();
            while k < nk
                invariant
                    i < target@.len(),
                    nk == ids@.len(),
                    0 <= k <= nk,
                decreases nk - k,
            {
                if !contains_location(&target[i].1, ids[k]) {
                    target[i].1.push(ids[k]);
                    changed = true;
                }
                k = k + 1;
            }
            return changed;
        }
        i = i + 1;
    }
    let mut copy: Vec<Location> = Vec::new();
    let mut k: usize = 0;
    let nk = ids.len();
    while k < nk
        invariant
            nk == ids@.len(),
            0 <= k <= nk,
        decreases nk - k,
    {
        copy.push(ids[k]);
        k = k + 1;
    }
    target.push((var.clone(), copy));
    true
}

} // verus!

verus! {

use crate::ast::{Block, LocalDecl, ForControl};
use crate::structure::stmtv_plain;

/// A copy of a per-block reaching map.
fn clone_relevant(v: &Vec<(Ident, Vec<Location>)>) -> (r: Vec<(Ident, Vec<Location>)>)
{
    let mut r: Vec<(Ident, Vec<Location>)> = Vec::new();
    let mut i: usize = 0;
    let n = v.len();
    while i < n
        invariant
            n == v@.len(),
            0 <= i <= n,
        decreases n - i,
    {
        let mut ids: Vec<Location> = Vec::new();
        let mut k: usize = 0;
        let nk = v[i].1.len();
        while k < nk
            invariant
                i < v@.len(),
                nk == v@[i as int].1@.len(),
                0 <= k <= nk,
            decreases nk - k,
        {
            ids.push(v[i].1[k]);
            k = k + 1;
        }
        r.push((v[i].0.clone(), ids));
        i = i + 1;
    }
    r
}

/// Count one read of a variable against every definition that
/// reaches it; a read with several reaching definitions pins them
/// all.
fn count_variable_use(var: &Ident, relevant: &Vec<(Ident, Vec<Location>)>, defs: &mut Vec<Definition>)
    ensures
        final(defs)@.len() == old(defs)@.len(),
        forall|i: int| 0 <= i < final(defs)@.len() ==> (#[trigger] final(defs)@[i]).id
            == old(defs)@[i].id && final(defs)@[i].ident == old(defs)@[i].ident
            && final(defs)@[i].value == old(defs)@[i].value,
{
    let ids = match find_relevant(relevant, var) {
        Some(ids) => ids,
        None => {
            return;
        }
    };
    let propagatable = ids.len() <= 1;
    let mut k: usize = 0;
    let nk = ids.len();
    let ghost defs0 = defs@;
    while k < nk
        invariant
            nk == ids@.len(),
            0 <= k <= nk,
            defs@.len() == defs0.len(),
            forall|i: int| 0 <= i < defs@.len() ==> (#[trigger] defs@[i]).id == defs0[i].id
                && defs@[i].ident == defs0[i].ident && defs@[i].value == defs0[i].value,
        decreases nk - k,
    {
        match find_def(defs, ids[k]) {
            Some(di) => {
                let u = defs[di].uses;
                if u < usize::MAX {
                    defs[di].uses = u + 1;
                }
                if !propagatable {
                    let nu = defs[di].non_propagatable_uses;
                    if nu < usize::MAX {
                        defs[di].non_propagatable_uses = nu + 1;
                    }
                }
            }
            None => {}
        }
        k = k + 1;
    }
}

/// Walk an expression and count every variable read in it.
fn count_uses_expr(e: &Expr, relevant: &Vec<(Ident, Vec<Location>)>, defs: &mut Vec<Definition>)
    ensures
        final(defs)@.len() == old(defs)@.len(),
        forall|i: int| 0 <= i < final(defs)@.len() ==> (#[trigger] final(defs)@[i]).id
            == old(defs)@[i].id && final(defs)@[i].ident == old(defs)@[i].ident
            && final(defs)@[i].value == old(defs)@[i].value,
    decreases *e,
{
    match e {
        Expr::Literal(_) => {}
        Expr::Assignable(a) => {
            count_uses_assignable_read(a, relevant, defs);
        }
        Expr::UnaryOp(_, inner) => {
            count_uses_expr(inner, relevant, defs);
        }
        Expr::BinaryOp(_, a, b) => {
            count_uses_expr(a, relevant, defs);
            count_uses_expr(b, relevant, defs);
        }
        Expr::IfThenElse { cond, then, els } => {
            count_uses_expr(cond, relevant, defs);
            count_uses_expr(then, relevant, defs);
            count_uses_expr(els, relevant, defs);
        }
        Expr::Invoke(this, _, _, args) => {
            match this {
                Some(t) => {
                    count_uses_expr(t, relevant, defs);
                }
                None => {}
            }
            let mut i: usize = 0;
            let n = args.len();
            while i < n
                invariant
                    *e matches Expr::Invoke(t2, m2, c2, a2) && a2 == *args,
                    n == args@.len(),
                    0 <= i <= n,
                    defs@.len() == old(defs)@.len(),
                    forall|j: int| 0 <= j < defs@.len() ==> (#[trigger] defs@[j]).id
                        == old(defs)@[j].id && defs@[j].ident == old(defs)@[j].ident
                        && defs@[j].value == old(defs)@[j].value,
                decreases n - i,
            {
                count_uses_expr(&args[i], relevant, defs);
                i = i + 1;
            }
        }
        Expr::Assign { to, op: _, from } => {
            count_uses_assignable_lhs(to, relevant, defs);
            count_uses_expr(from, relevant, defs);
        }
        Expr::New { class: _, args } => {
            let mut i: usize = 0;
            let n = args.len();
            while i < n
                invariant
                    *e matches Expr::New { class: c2, args: a2 } && a2 == *args,
                    n == args@.len(),
                    0 <= i <= n,
                    defs@.len() == old(defs)@.len(),
                    forall|j: int| 0 <= j < defs@.len() ==> (#[trigger] defs@[j]).id
                        == old(defs)@[j].id && defs@[j].ident == old(defs)@[j].ident
                        && defs@[j].value == old(defs)@[j].value,
                decreases n - i,
            {
                count_uses_expr(&args[i], relevant, defs);
                i = i + 1;
            }
        }
        Expr::This => {}
        Expr::Super => {}
    }
}

/// An assignable read as a value: a variable read counts.
fn count_uses_assignable_read(a: &Assignable, relevant: &Vec<(Ident, Vec<Location>)>, defs: &mut Vec<Definition>)
    ensures
        final(defs)@.len() == old(defs)@.len(),
        forall|i: int| 0 <= i < final(defs)@.len() ==> (#[trigger] final(defs)@[i]).id
            == old(defs)@[i].id && final(defs)@[i].ident == old(defs)@[i].ident
            && final(defs)@[i].value == old(defs)@[i].value,
    decreases *a,
{
    match a {
        Assignable::Variable(var, _) => {
            count_variable_use(var, relevant, defs);
        }
        Assignable::Field { this, .. } => {
            match this {
                Some(t) => {
                    count_uses_expr(t, relevant, defs);
                }
                None => {}
            }
        }
        Assignable::ArrayAccess { array, index } => {
            count_uses_expr(array, relevant, defs);
            count_uses_expr(index, relevant, defs);
        }
    }
}

/// The target of an assignment: the written variable itself is no
/// read, but anything computing the place is.
fn count_uses_assignable_lhs(a: &Assignable, relevant: &Vec<(Ident, Vec<Location>)>, defs: &mut Vec<Definition>)
    ensures
        final(defs)@.len() == old(defs)@.len(),
        forall|i: int| 0 <= i < final(defs)@.len() ==> (#[trigger] final(defs)@[i]).id
            == old(defs)@[i].id && final(defs)@[i].ident == old(defs)@[i].ident
            && final(defs)@[i].value == old(defs)@[i].value,
    decreases *a,
{
    match a {
        Assignable::Variable(_, _) => {}
        Assignable::Field { this, .. } => {
            match this {
                Some(t) => {
                    count_uses_expr(t, relevant, defs);
                }
                None => {}
            }
        }
        Assignable::ArrayAccess { array, index } => {
            count_uses_expr(array, relevant, defs);
            count_uses_expr(index, relevant, defs);
        }
    }
}

/// Walk one statement and count the variable reads in it.
pub fn update_usages(stmt: &Statement, relevant_defs: &Vec<(Ident, Vec<Location>)>, definitions: &mut Vec<Definition>)
    ensures
        final(definitions)@.len() == old(definitions)@.len(),
        forall|i: int| 0 <= i < final(definitions)@.len() ==> (#[trigger] final(definitions)@[i]).id
            == old(definitions)@[i].id && final(definitions)@[i].ident
            == old(definitions)@[i].ident && final(definitions)@[i].value
            == old(definitions)@[i].value,
    decreases *stmt,
{
    match stmt {
        Statement::Nop => {}
        Statement::Expr(e) => {
            count_uses_expr(e, relevant_defs, definitions);
        }
        Statement::Return(v) => {
            match v {
                Some(e) => {
                    count_uses_expr(e, relevant_defs, definitions);
                }
                None => {}
            }
        }
        Statement::ThisCall(args) | Statement::SuperCall(args) => {
            let mut i: usize = 0;
            let n = args.len();
            while i < n
                invariant
                    n == args@.len(),
                    0 <= i <= n,
                    definitions@.len() == old(definitions)@.len(),
                    forall|j: int| 0 <= j < definitions@.len() ==> (#[trigger] definitions@[j]).id
                        == old(definitions)@[j].id && definitions@[j].ident
                        == old(definitions)@[j].ident && definitions@[j].value
                        == old(definitions)@[j].value,
                decreases n - i,
            {
                count_uses_expr(&args[i], relevant_defs, definitions);
                i = i + 1;
            }
        }
        Statement::Throw(e) => {
            count_uses_expr(e, relevant_defs, definitions);
        }
        _ => {}
    }
}

} // verus!

verus! {

/// Copy a definition's inlinable value.
fn clone_expr(e: &Expr) -> (r: Expr)
    ensures
        expr_model(r) == expr_model(*e),
{
    e.clone()
}

/// What substitution does to an expression: a variable read whose
/// single reaching definition sits in the table becomes that
/// definition's recorded value; every other node keeps its shape and
/// is rewritten in its parts.
pub open spec fn spec_subst_expr(ev: ExprV, defs: Seq<Definition>, rel: Seq<(Ident, Vec<Location>)>, only: Option<Location>) -> ExprV
    decreases ev,
{
    match ev {
        ExprV::Literal(c) => ExprV::Literal(c),
        ExprV::Assignable(a) => match *a {
            AssignableV::Variable(name, version) => match spec_relevant_lookup(rel, name) {
                Some(ids) => if ids.len() == 1 && (only is None || only == Some(ids[0])) {
                    match spec_def_lookup(defs, ids[0]) {
                        Some(d) => expr_model(d.value),
                        None => ev,
                    }
                } else {
                    ev
                },
                None => ev,
            },
            _ => ExprV::Assignable(Box::new(spec_subst_assignable(*a, defs, rel, only))),
        },
        ExprV::UnaryOp(op, inner) => ExprV::UnaryOp(
            op,
            Box::new(spec_subst_expr(*inner, defs, rel, only)),
        ),
        ExprV::BinaryOp(op, x, y) => ExprV::BinaryOp(
            op,
            Box::new(spec_subst_expr(*x, defs, rel, only)),
            Box::new(spec_subst_expr(*y, defs, rel, only)),
        ),
        ExprV::IfThenElse { cond, then, els } => ExprV::IfThenElse {
            cond: Box::new(spec_subst_expr(*cond, defs, rel, only)),
            then: Box::new(spec_subst_expr(*then, defs, rel, only)),
            els: Box::new(spec_subst_expr(*els, defs, rel, only)),
        },
        ExprV::Invoke(this, method, class, args) => ExprV::Invoke(
            match this {
                Some(t) => Some(Box::new(spec_subst_expr(*t, defs, rel, only))),
                None => None,
            },
            method,
            class,
            Seq::new(
                args.len(),
                |i: int| if 0 <= i < args.len() {
                    spec_subst_expr(args[i], defs, rel, only)
                } else {
                    arbitrary()
                },
            ),
        ),
        ExprV::Assign { to, op, from } => ExprV::Assign {
            to: Box::new(spec_subst_assignable(*to, defs, rel, only)),
            op: op,
            from: Box::new(spec_subst_expr(*from, defs, rel, only)),
        },
        ExprV::New { class, args } => ExprV::New {
            class: class,
            args: Seq::new(
                args.len(),
                |i: int| if 0 <= i < args.len() {
                    spec_subst_expr(args[i], defs, rel, only)
                } else {
                    arbitrary()
                },
            ),
        },
        ExprV::This => ExprV::This,
        ExprV::Super => ExprV::Super,
    }
}

/// What substitution does to an assignment target: the written
/// variable itself stays, the place computation is rewritten.
pub open spec fn spec_subst_assignable(av: AssignableV, defs: Seq<Definition>, rel: Seq<(Ident, Vec<Location>)>, only: Option<Location>) -> AssignableV
    decreases av,
{
    match av {
        AssignableV::Variable(name, version) => AssignableV::Variable(name, version),
        AssignableV::Field { this, class, field } => AssignableV::Field {
            this: match this {
                Some(t) => Some(Box::new(spec_subst_expr(*t, defs, rel, only))),
                None => None,
            },
            class: class,
            field: field,
        },
        AssignableV::ArrayAccess { array, index } => AssignableV::ArrayAccess {
            array: Box::new(spec_subst_expr(*array, defs, rel, only)),
            index: Box::new(spec_subst_expr(*index, defs, rel, only)),
        },
    }
}

/// What substitution does to one statement: its expressions are
/// rewritten; a statement with control flow of its own stays as it
/// is.
pub open spec fn spec_subst_stmt(sv: StatementV, defs: Seq<Definition>, rel: Seq<(Ident, Vec<Location>)>) -> StatementV {
    match sv {
        StatementV::Nop => StatementV::Nop,
        StatementV::Expr(e) => StatementV::Expr(spec_subst_expr(e, defs, rel, None)),
        StatementV::Return(v) => StatementV::Return(
            match v {
                Some(e) => Some(spec_subst_expr(e, defs, rel, None)),
                None => None,
            },
        ),
        StatementV::ThisCall(args) => StatementV::ThisCall(
            Seq::new(
                args.len(),
                |i: int| if 0 <= i < args.len() {
                    spec_subst_expr(args[i], defs, rel, None)
                } else {
                    arbitrary()
                },
            ),
        ),
        StatementV::SuperCall(args) => StatementV::SuperCall(
            Seq::new(
                args.len(),
                |i: int| if 0 <= i < args.len() {
                    spec_subst_expr(args[i], defs, rel, None)
                } else {
                    arbitrary()
                },
            ),
        ),
        StatementV::Throw(e) => StatementV::Throw(spec_subst_expr(e, defs, rel, None)),
        _ => sv,
    }
}

/// Substitute propagatable definitions into an expression: a
/// variable read whose single reaching definition sits in the table
/// becomes that definition's value.  With `only` set, just that one
/// definition is inlined.
fn subst_expr(e: &Expr, defs: &Vec<Definition>, relevant: &Vec<(Ident, Vec<Location>)>, only: Option<Location>) -> (r: Expr)
    ensures
        expr_model(r) == spec_subst_expr(expr_model(*e), defs@, relevant@, only),
    decreases *e,
{
    match e {
        Expr::Literal(c) => Expr::Literal(c.clone()),
        Expr::Assignable(a) => {
            match &**a {
                Assignable::Variable(var, version) => {
                    let ghost ev = expr_model(*e);
                    proof {
                        assert(ev == ExprV::Assignable(
                            Box::new(crate::ast::assignable_model(**a)),
                        ));
                        assert(crate::ast::assignable_model(**a) == AssignableV::Variable(
                            var@,
                            *version as nat,
                        ));
                    }
                    let replace = match find_relevant(relevant, var) {
                        Some(ids) => {
                            if ids.len() == 1 {
                                let id = ids[0];
                                let allowed = match only {
                                    Some(o) => o.0 == id.0 && o.1 == id.1,
                                    None => true,
                                };
                                proof {
                                    assert(ids@[0] == id);
                                    assert(allowed == (only is None || only == Some(id)));
                                }
                                if allowed {
                                    match find_def(defs, id) {
                                        Some(di) => {
                                            let rep = clone_expr(&defs[di].value);
                                            proof {
                                                assert(spec_subst_expr(ev, defs@, relevant@, only)
                                                    == expr_model(defs@[di as int].value));
                                            }
                                            Some(rep)
                                        },
                                        None => None,
                                    }
                                } else {
                                    None
                                }
                            } else {
                                None
                            }
                        }
                        None => None,
                    };
                    match replace {
                        Some(r) => r,
                        None => {
                            let r = Expr::Assignable(
                                Box::new(Assignable::Variable(var.clone(), *version)),
                            );
                            proof {
                                assert(expr_model(r) == ev);
                                assert(spec_subst_expr(ev, defs@, relevant@, only) == ev);
                            }
                            r
                        },
                    }
                }
                _ => {
                    let r = Expr::Assignable(Box::new(subst_assignable(a, defs, relevant, only)));
                    proof {
                        assert(expr_model(*e) == ExprV::Assignable(
                            Box::new(crate::ast::assignable_model(**a)),
                        ));
                        assert(spec_subst_expr(expr_model(*e), defs@, relevant@, only)
                            == ExprV::Assignable(Box::new(spec_subst_assignable(
                            crate::ast::assignable_model(**a),
                            defs@,
                            relevant@,
                            only,
                        ))));
                    }
                    r
                },
            }
        }
        Expr::UnaryOp(op, inner) => Expr::UnaryOp(*op, Box::new(subst_expr(inner, defs, relevant, only))),
        Expr::BinaryOp(op, x, y) => Expr::BinaryOp(
            *op,
            Box::new(subst_expr(x, defs, relevant, only)),
            Box::new(subst_expr(y, defs, relevant, only)),
        ),
        Expr::IfThenElse { cond, then, els } => Expr::IfThenElse {
            cond: Box::new(subst_expr(cond, defs, relevant, only)),
            then: Box::new(subst_expr(then, defs, relevant, only)),
            els: Box::new(subst_expr(els, defs, relevant, only)),
        },
        Expr::Invoke(this, method, class, args) => {
            let this2 = match this {
                Some(t) => Some(Box::new(subst_expr(t, defs, relevant, only))),
                None => None,
            };
            let mut args2: Vec<Expr> = Vec::new();
            let mut i: usize = 0;
            let n = args.len();
            while i < n
                invariant
                    *e matches Expr::Invoke(t3, m3, c3, a3) && a3 == *args,
                    n == args@.len(),
                    0 <= i <= n,
                    args2@.len() == i,
                    forall|j: int| 0 <= j < i ==> expr_model(#[trigger] args2@[j])
                        == spec_subst_expr(expr_model(args@[j]), defs@, relevant@, only),
                decreases n - i,
            {
                args2.push(subst_expr(&args[i], defs, relevant, only));
                i = i + 1;
            }
            let r = Expr::Invoke(this2, method.clone(), class.clone(), args2);
            proof {
                let sv = spec_subst_expr(expr_model(*e), defs@, relevant@, only);
                assert(expr_model(r) is Invoke && sv is Invoke);
                assert(expr_model(r)->Invoke_0 =~~= sv->Invoke_0);
                assert(expr_model(r)->Invoke_1 =~~= sv->Invoke_1);
                assert(expr_model(r)->Invoke_2 =~~= sv->Invoke_2);
                assert(expr_model(r)->Invoke_3 =~~= sv->Invoke_3);
                assert(expr_model(r) =~~= sv);
            }
            r
        }
        Expr::Assign { to, op, from } => Expr::Assign {
            to: Box::new(subst_assignable(to, defs, relevant, only)),
            op: *op,
            from: Box::new(subst_expr(from, defs, relevant, only)),
        },
        Expr::New { class, args } => {
            let mut args2: Vec<Expr> = Vec::new();
            let mut i: usize = 0;
            let n = args.len();
            while i < n
                invariant
                    *e matches Expr::New { class: c3, args: a3 } && a3 == *args,
                    n == args@.len(),
                    0 <= i <= n,
                    args2@.len() == i,
                    forall|j: int| 0 <= j < i ==> expr_model(#[trigger] args2@[j])
                        == spec_subst_expr(expr_model(args@[j]), defs@, relevant@, only),
                decreases n - i,
            {
                args2.push(subst_expr(&args[i], defs, relevant, only));
                i = i + 1;
            }
            let r = Expr::New { class: class.clone(), args: args2 };
            proof {
                let sv = spec_subst_expr(expr_model(*e), defs@, relevant@, only);
                assert(expr_model(r) is New && sv is New);
                assert(expr_model(r)->New_class =~~= sv->New_class);
                assert(expr_model(r)->New_args =~~= sv->New_args);
                assert(expr_model(r) =~~= sv);
            }
            r
        }
        Expr::This => Expr::This,
        Expr::Super => Expr::Super,
    }
}

/// Substitute inside an assignment target: the written variable
/// itself stays, but the place computation is rewritten.
fn subst_assignable(a: &Assignable, defs: &Vec<Definition>, relevant: &Vec<(Ident, Vec<Location>)>, only: Option<Location>) -> (r: Assignable)
    ensures
        crate::ast::assignable_model(r) == spec_subst_assignable(
            crate::ast::assignable_model(*a),
            defs@,
            relevant@,
            only,
        ),
    decreases *a,
{
    match a {
        Assignable::Variable(var, version) => Assignable::Variable(var.clone(), *version),
        Assignable::Field { this, class, field } => Assignable::Field {
            this: match this {
                Some(t) => Some(Box::new(subst_expr(t, defs, relevant, only))),
                None => None,
            },
            class: class.clone(),
            field: field.clone(),
        },
        Assignable::ArrayAccess { array, index } => Assignable::ArrayAccess {
            array: Box::new(subst_expr(array, defs, relevant, only)),
            index: Box::new(subst_expr(index, defs, relevant, only)),
        },
    }
}

/// Substitute through one statement, preserving its plain shape.
fn subst_stmt(stmt: &Statement, defs: &Vec<Definition>, relevant: &Vec<(Ident, Vec<Location>)>) -> (r: Statement)
    ensures
        stmtv_plain(stmt_model(*stmt)) ==> stmtv_plain(stmt_model(r)),
        stmt_model(r) == spec_subst_stmt(stmt_model(*stmt), defs@, relevant@),
    decreases *stmt,
{
    match stmt {
        Statement::Nop => Statement::Nop,
        Statement::Expr(e) => Statement::Expr(subst_expr(e, defs, relevant, None)),
        Statement::Return(v) => Statement::Return(
            match v {
                Some(e) => Some(subst_expr(e, defs, relevant, None)),
                None => None,
            },
        ),
        Statement::ThisCall(args) => {
            let mut args2: Vec<Expr> = Vec::new();
            let mut i: usize = 0;
            let n = args.len();
            while i < n
                invariant
                    *stmt matches Statement::ThisCall(a3) && a3 == *args,
                    n == args@.len(),
                    0 <= i <= n,
                    args2@.len() == i,
                    forall|j: int| 0 <= j < i ==> expr_model(#[trigger] args2@[j])
                        == spec_subst_expr(expr_model(args@[j]), defs@, relevant@, None),
                decreases n - i,
            {
                args2.push(subst_expr(&args[i], defs, relevant, None));
                i = i + 1;
            }
            let r = Statement::ThisCall(args2);
            proof {
                let sv = spec_subst_stmt(stmt_model(*stmt), defs@, relevant@);
                assert(stmt_model(r) is ThisCall && sv is ThisCall);
                assert(stmt_model(r)->ThisCall_0 =~~= sv->ThisCall_0);
                assert(stmt_model(r) =~~= sv);
            }
            r
        }
        Statement::SuperCall(args) => {
            let mut args2: Vec<Expr> = Vec::new();
            let mut i: usize = 0;
            let n = args.len();
            while i < n
                invariant
                    *stmt matches Statement::SuperCall(a3) && a3 == *args,
                    n == args@.len(),
                    0 <= i <= n,
                    args2@.len() == i,
                    forall|j: int| 0 <= j < i ==> expr_model(#[trigger] args2@[j])
                        == spec_subst_expr(expr_model(args@[j]), defs@, relevant@, None),
                decreases n - i,
            {
                args2.push(subst_expr(&args[i], defs, relevant, None));
                i = i + 1;
            }
            let r = Statement::SuperCall(args2);
            proof {
                let sv = spec_subst_stmt(stmt_model(*stmt), defs@, relevant@);
                assert(stmt_model(r) is SuperCall && sv is SuperCall);
                assert(stmt_model(r)->SuperCall_0 =~~= sv->SuperCall_0);
                assert(stmt_model(r) =~~= sv);
            }
            r
        }
        Statement::Throw(e) => Statement::Throw(subst_expr(e, defs, relevant, None)),
        _ => stmt.clone(),
    }
}

} // verus!

verus! {

/// What a defining statement defines: an assignment, plain or
/// augmented, whose target is a variable, with its right-hand side.
pub open spec fn spec_defining_var(s: StatementV) -> Option<(Seq<char>, ExprV)> {
    match s {
        StatementV::Expr(e) => match e {
            ExprV::Assign { to, op, from } => match *to {
                AssignableV::Variable(name, _) => Some((name, *from)),
                _ => None,
            },
            _ => None,
        },
        _ => None,
    }
}

/// Whether the statement defines a variable: a plain or augmented
/// assignment whose target is a variable.
fn defined_variable<'a>(stmt: &'a Statement) -> (r: Option<(&'a Ident, &'a Expr, bool)>)
    ensures
        match r {
            Some((v, f, aug)) => spec_defining_var(stmt_model(*stmt)) matches Some((nm, rhs))
                && v@ == nm && expr_model(*f) == rhs,
            None => spec_defining_var(stmt_model(*stmt)) is None,
        },
{
    match stmt {
        Statement::Expr(e) => match e {
            Expr::Assign { to, op, from } => match &**to {
                Assignable::Variable(var, _) => {
                    proof {
                        assert(stmt_model(*stmt) == StatementV::Expr(expr_model(*e)));
                        assert(expr_model(*e) matches ExprV::Assign { to: t2, from: f2, .. }
                            && *t2 == crate::ast::assignable_model(**to) && *f2
                            == expr_model(**from));
                        assert(crate::ast::assignable_model(**to)
                            matches AssignableV::Variable(nm, _) && nm == var@);
                    }
                    Some((var, from, op.is_some()))
                },
                _ => None,
            },
            _ => None,
        },
        _ => None,
    }
}

/// The entry sits at a defining assignment of the graph and carries
/// its variable and its original right-hand side.
pub open spec fn def_entry_ok(cfg: Cfg<Statement, Expr>, d: Definition) -> bool {
    &&& d.id.0 < cfg.graph.nodes@.len()
    &&& d.id.1 < cfg.graph.nodes@[d.id.0 as int].stmts@.len()
    &&& spec_defining_var(stmt_model(cfg.graph.nodes@[d.id.0 as int].stmts@[d.id.1 as int]))
        matches Some((nm, rhs)) && d.ident@ == nm && expr_model(d.value) == rhs
}

/// Every defining assignment of the graph that lies before block `b`,
/// or in block `b` before statement `k`, has an entry at its location.
pub open spec fn defs_cover_prefix(cfg: Cfg<Statement, Expr>, defs: Seq<Definition>, b: int, k: int) -> bool {
    forall|b2: int, k2: int| 0 <= b2 < cfg.graph.nodes@.len() && 0 <= k2
        < cfg.graph.nodes@[b2].stmts@.len() && (b2 < b || (b2 == b && k2 < k))
        && spec_defining_var(stmt_model(#[trigger] cfg.graph.nodes@[b2].stmts@[k2])) is Some
        ==> exists|i: int| 0 <= i < defs.len() && (#[trigger] defs[i]).id
        == Location(b2 as usize, k2 as usize)
}

/// The recorded definitions are exactly the defining assignments of
/// the graph: each entry sits at one, carries its variable and its
/// original right-hand side, every defining assignment has an entry,
/// and no location is recorded twice.
pub open spec fn collected_defs_ok(cfg: Cfg<Statement, Expr>, defs: Seq<Definition>) -> bool {
    &&& forall|i: int| 0 <= i < defs.len() ==> def_entry_ok(cfg, #[trigger] defs[i])
    &&& defs_cover_prefix(cfg, defs, cfg.graph.nodes@.len() as int, 0)
    &&& forall|i: int, j: int| 0 <= i < j < defs.len() ==> (#[trigger] defs[i]).id
        != (#[trigger] defs[j]).id
}

/// Run the reaching-definition analysis to a fixed point: find every
/// defining assignment, the definitions that reach each block entry,
/// and each definition's use counts.  Every recorded location names
/// a statement of the graph.
pub fn collect_def_info(cfg: &Cfg<Statement, Expr>) -> (r: Result<DefinitionInfo, Error>)
    ensures
        match r {
            Ok(info) => {
                &&& info.relevant_on_bb_entry@.len() == cfg.graph.nodes@.len()
                &&& forall|i: int| 0 <= i < info.definitions@.len()
                    ==> (#[trigger] info.definitions@[i]).id.0 < cfg.graph.nodes@.len()
                        && info.definitions@[i].id.1
                        < cfg.graph.nodes@[info.definitions@[i].id.0 as int].stmts@.len()
                &&& collected_defs_ok(*cfg, info.definitions@)
            },
            Err(e) => e == Error::AnalysisBudgetExceeded,
        },
{
    let n = cfg.graph.node_count();
    let mut definitions: Vec<Definition> = Vec::new();
    let mut relevant_on_bb_entry: Vec<Vec<(Ident, Vec<Location>)>> = Vec::new();
    let mut i: usize = 0;
    while i < n
        invariant
            0 <= i <= n,
            relevant_on_bb_entry@.len() == i,
        decreases n - i,
    {
        relevant_on_bb_entry.push(Vec::new());
        i = i + 1;
    }
    if n > 1000000 {
        return Err(Error::AnalysisBudgetExceeded);
    }

    // Enough rounds for the monotone sets to stabilise; running out
    // of them is an error, never a silent skip.
    let mut total_stmts: u64 = 0;
    let mut b: usize = 0;
    while b < n
        invariant
            n == cfg.graph.nodes@.len(),
            0 <= b <= n,
            total_stmts <= 1000000,
        decreases n - b,
    {
        let len = cfg.graph.nodes[b].stmts.len();
        if total_stmts < 1000000 {
            if (len as u64) < 1000000 - total_stmts {
                total_stmts = total_stmts + len as u64;
            } else {
                total_stmts = 1000000;
            }
        }
        b = b + 1;
    }
    let m: u64 = total_stmts + 2;
    proof {
        assert(m * m <= 0x38D7EA4C68004u64) by (nonlinear_arith)
            requires
                0 <= m <= 1000002,
        ;
    }
    let max_rounds: u64 = m * m + n as u64 + 4;

    let mut round: u64 = 0;
    let mut converged = false;
    while round < max_rounds && !converged
        invariant
            n == cfg.graph.nodes@.len(),
            relevant_on_bb_entry@.len() == n,
            0 <= round <= max_rounds,
            forall|i2: int| 0 <= i2 < definitions@.len() ==> def_entry_ok(
                *cfg,
                #[trigger] definitions@[i2],
            ),
            forall|i2: int, j2: int| 0 <= i2 < j2 < definitions@.len()
                ==> (#[trigger] definitions@[i2]).id != (#[trigger] definitions@[j2]).id,
            converged ==> defs_cover_prefix(*cfg, definitions@, n as int, 0),
        decreases max_rounds - round,
    {
        let mut changed = false;
        // Reset the counters for this round.
        let mut d: usize = 0;
        let nd = definitions.len();
        while d < nd
            invariant
                nd == definitions@.len(),
                0 <= d <= nd,
                forall|i2: int| 0 <= i2 < definitions@.len() ==> def_entry_ok(
                    *cfg,
                    #[trigger] definitions@[i2],
                ),
                forall|i2: int, j2: int| 0 <= i2 < j2 < definitions@.len()
                    ==> (#[trigger] definitions@[i2]).id != (#[trigger] definitions@[j2]).id,
            decreases nd - d,
        {
            definitions[d].uses = 0;
            definitions[d].non_propagatable_uses = 0;
            d = d + 1;
        }

        let mut v: usize = 0;
        while v < n
            invariant
                n == cfg.graph.nodes@.len(),
                relevant_on_bb_entry@.len() == n,
                0 <= v <= n,
                forall|i2: int| 0 <= i2 < definitions@.len() ==> def_entry_ok(
                    *cfg,
                    #[trigger] definitions@[i2],
                ),
                forall|i2: int, j2: int| 0 <= i2 < j2 < definitions@.len()
                    ==> (#[trigger] definitions@[i2]).id != (#[trigger] definitions@[j2]).id,
                defs_cover_prefix(*cfg, definitions@, v as int, 0),
            decreases n - v,
        {
            let mut relevant = clone_relevant(&relevant_on_bb_entry[v]);
            let ns = cfg.graph.nodes[v].stmts.len();
            let mut k: usize = 0;
            while k < ns
                invariant
                    n == cfg.graph.nodes@.len(),
                    0 <= v < n,
                    ns == cfg.graph.nodes@[v as int].stmts@.len(),
                    0 <= k <= ns,
                    forall|i2: int| 0 <= i2 < definitions@.len() ==> def_entry_ok(
                        *cfg,
                        #[trigger] definitions@[i2],
                    ),
                    forall|i2: int, j2: int| 0 <= i2 < j2 < definitions@.len()
                        ==> (#[trigger] definitions@[i2]).id != (#[trigger] definitions@[j2]).id,
                    defs_cover_prefix(*cfg, definitions@, v as int, k as int),
                decreases ns - k,
            {
                let ghost defs0 = definitions@;
                let ghost mut wit: int = 0;
                let stmt = &cfg.graph.nodes[v].stmts[k];
                update_usages(stmt, &relevant, &mut definitions);
                match defined_variable(stmt) {
                    Some((var, from, augmented)) => {
                        let def_id = Location(v, k);
                        let existing = find_def(&definitions, def_id);
                        let di = match existing {
                            Some(di) => di,
                            None => {
                                let def = Definition {
                                    id: def_id,
                                    ident: var.clone(),
                                    value: clone_expr(from),
                                    relevant_defs: Vec::new(),
                                    uses: 0,
                                    non_propagatable_uses: 0,
                                };
                                definitions.push(def);
                                changed = true;
                                definitions.len() - 1
                            }
                        };
                        let rd = clone_relevant(&relevant);
                        definitions[di].relevant_defs = rd;
                        if augmented {
                            // An augmented assignment both reads and
                            // writes; it is never inlined.
                            let nu = definitions[di].non_propagatable_uses;
                            if nu < usize::MAX {
                                definitions[di].non_propagatable_uses = nu + 1;
                            }
                        }
                        proof {
                            wit = di as int;
                            assert(definitions@[wit].id == def_id);
                        }
                        set_relevant(&mut relevant, var, def_id);
                    }
                    None => {}
                }
                proof {
                    assert(defs0.len() <= definitions@.len());
                    assert(forall|i: int| 0 <= i < defs0.len()
                        ==> (#[trigger] definitions@[i]).id == defs0[i].id);
                    assert forall|b2: int, k2: int|
                        0 <= b2 < cfg.graph.nodes@.len() && 0 <= k2
                            < cfg.graph.nodes@[b2].stmts@.len() && (b2 < v as int || (b2
                            == v as int && k2 < k as int + 1)) && spec_defining_var(stmt_model(
                            #[trigger] cfg.graph.nodes@[b2].stmts@[k2],
                        )) is Some implies exists|i: int|
                        0 <= i < definitions@.len() && (#[trigger] definitions@[i]).id
                            == Location(b2 as usize, k2 as usize) by {
                        if b2 == v as int && k2 == k as int {
                            assert(definitions@[wit].id == Location(v, k));
                        } else {
                            let i0 = choose|i: int|
                                0 <= i < defs0.len() && (#[trigger] defs0[i]).id == Location(
                                    b2 as usize,
                                    k2 as usize,
                                );
                            assert(definitions@[i0].id == Location(b2 as usize, k2 as usize));
                        }
                    }
                }
                k = k + 1;
            }
            let ghost defs_t = definitions@;
            match &cfg.graph.nodes[v].terminator {
                Some(cond) => {
                    count_uses_expr(cond, &relevant, &mut definitions);
                }
                None => {}
            }
            proof {
                assert forall|b2: int, k2: int|
                    0 <= b2 < cfg.graph.nodes@.len() && 0 <= k2
                        < cfg.graph.nodes@[b2].stmts@.len() && (b2 < v as int || (b2 == v as int
                        && k2 < ns as int)) && spec_defining_var(stmt_model(
                        #[trigger] cfg.graph.nodes@[b2].stmts@[k2],
                    )) is Some implies exists|i: int|
                    0 <= i < definitions@.len() && (#[trigger] definitions@[i]).id == Location(
                        b2 as usize,
                        k2 as usize,
                    ) by {
                    let i0 = choose|i: int|
                        0 <= i < defs_t.len() && (#[trigger] defs_t[i]).id == Location(
                            b2 as usize,
                            k2 as usize,
                        );
                    assert(definitions@[i0].id == Location(b2 as usize, k2 as usize));
                }
            }
            let successors = cfg.graph.out_edges(v);
            let mut s: usize = 0;
            let nsucc = successors.len();
            while s < nsucc
                invariant
                    n == cfg.graph.nodes@.len(),
                    relevant_on_bb_entry@.len() == n,
                    nsucc == successors@.len(),
                    0 <= s <= nsucc,
                    forall|i2: int| 0 <= i2 < definitions@.len() ==> def_entry_ok(
                        *cfg,
                        #[trigger] definitions@[i2],
                    ),
                    forall|i2: int, j2: int| 0 <= i2 < j2 < definitions@.len()
                        ==> (#[trigger] definitions@[i2]).id != (#[trigger] definitions@[j2]).id,
                    defs_cover_prefix(*cfg, definitions@, v as int, ns as int),
                decreases nsucc - s,
            {
                let w = successors[s].0;
                if w < n {
                    let mut r: usize = 0;
                    let nr = relevant.len();
                    while r < nr
                        invariant
                            n == cfg.graph.nodes@.len(),
                            relevant_on_bb_entry@.len() == n,
                            w < n,
                            nr == relevant@.len(),
                            0 <= r <= nr,
                        decreases nr - r,
                    {
                        let (var, ids) = (&relevant[r].0, &relevant[r].1);
                        let mut entry_map = take_map(&mut relevant_on_bb_entry, w);
                        let grew = merge_relevant(&mut entry_map, var, ids);
                        put_map(&mut relevant_on_bb_entry, w, entry_map);
                        if grew {
                            changed = true;
                        }
                        r = r + 1;
                    }
                }
                s = s + 1;
            }
            proof {
                assert(defs_cover_prefix(*cfg, definitions@, v as int + 1, 0));
            }
            v = v + 1;
        }
        if !changed {
            converged = true;
        }
        round = round + 1;
    }
    if !converged {
        return Err(Error::AnalysisBudgetExceeded);
    }
    Ok(DefinitionInfo { definitions, relevant_on_bb_entry })
}

/// Swap a block's entry map out of the table.
fn take_map(maps: &mut Vec<Vec<(Ident, Vec<Location>)>>, w: usize) -> (r: Vec<(Ident, Vec<Location>)>)
    requires
        w < old(maps)@.len(),
    ensures
        final(maps)@.len() == old(maps)@.len(),
{
    let mut tmp: Vec<(Ident, Vec<Location>)> = Vec::new();
    maps.set_and_swap(w, &mut tmp);
    tmp
}

/// Put a block's entry map back into the table.
fn put_map(maps: &mut Vec<Vec<(Ident, Vec<Location>)>>, w: usize, m: Vec<(Ident, Vec<Location>)>)
    requires
        w < old(maps)@.len(),
    ensures
        final(maps)@.len() == old(maps)@.len(),
{
    maps.set(w, m);
}

} // verus!

verus! {

/// The subset of the definitions that may be inlined, copied out.
fn filter_propagatable(defs: &Vec<Definition>, Ghost(n): Ghost<int>, Ghost(nodes): Ghost<Seq<crate::cfg::BasicBlock<Statement, Expr>>>) -> (r: Vec<Definition>)
    requires
        nodes.len() == n,
        forall|i: int| 0 <= i < defs@.len() ==> (#[trigger] defs@[i]).id.0 < n
            && defs@[i].id.1 < nodes[defs@[i].id.0 as int].stmts@.len(),
    ensures
        forall|i: int| 0 <= i < r@.len() ==> (#[trigger] r@[i]).id.0 < n
            && r@[i].id.1 < nodes[r@[i].id.0 as int].stmts@.len(),
{
    let mut r: Vec<Definition> = Vec::new();
    let mut i: usize = 0;
    let nd = defs.len();
    while i < nd
        invariant
            nd == defs@.len(),
            0 <= i <= nd,
            forall|j: int| 0 <= j < defs@.len() ==> (#[trigger] defs@[j]).id.0 < n
                && defs@[j].id.1 < nodes[defs@[j].id.0 as int].stmts@.len(),
            forall|j: int| 0 <= j < r@.len() ==> (#[trigger] r@[j]).id.0 < n
                && r@[j].id.1 < nodes[r@[j].id.0 as int].stmts@.len(),
        decreases nd - i,
    {
        if is_propagatable(&defs[i]) {
            let d = &defs[i];
            let copy = Definition {
                id: d.id,
                ident: d.ident.clone(),
                value: clone_expr(&d.value),
                relevant_defs: clone_relevant(&d.relevant_defs),
                uses: d.uses,
                non_propagatable_uses: d.non_propagatable_uses,
            };
            r.push(copy);
        }
        i = i + 1;
    }
    r
}

/// Inline propagatable definitions into each other, so that a chain
/// of single-use assignments collapses into one expression.
pub fn propagate_in_definitions(definitions: &mut Vec<Definition>)
    ensures
        final(definitions)@.len() == old(definitions)@.len(),
        forall|i: int| 0 <= i < final(definitions)@.len() ==> (#[trigger] final(definitions)@[i]).id
            == old(definitions)@[i].id,
{
    let nd = definitions.len();
    let mut ri: usize = 0;
    while ri < nd
        invariant
            nd == definitions@.len(),
            0 <= ri <= nd,
            forall|j: int| 0 <= j < definitions@.len() ==> (#[trigger] definitions@[j]).id
                == old(definitions)@[j].id,
        decreases nd - ri,
    {
        let replace_id = definitions[ri].id;
        let mut di: usize = 0;
        while di < nd
            invariant
                nd == definitions@.len(),
                0 <= di <= nd,
                forall|j: int| 0 <= j < definitions@.len() ==> (#[trigger] definitions@[j]).id
                    == old(definitions)@[j].id,
            decreases nd - di,
        {
            if di != ri {
                let newv = subst_expr(
                    &definitions[di].value,
                    definitions,
                    &definitions[di].relevant_defs,
                    Some(replace_id),
                );
                definitions[di].value = newv;
            }
            di = di + 1;
        }
        ri = ri + 1;
    }
}

/// At every statement the propagatable definitions are inlined where
/// their single reaching read sits, and each consumed defining
/// assignment is blanked to `Nop`.
pub fn propagate_in_code(
    cfg: &mut Cfg<Statement, Expr>,
    definitions: &Vec<Definition>,
    relevant_on_bb_entry: &Vec<Vec<(Ident, Vec<Location>)>>,
)
    requires
        forall|i: int| 0 <= i < definitions@.len() ==> (#[trigger] definitions@[i]).id.0
            < old(cfg).graph.nodes@.len() && definitions@[i].id.1
            < old(cfg).graph.nodes@[definitions@[i].id.0 as int].stmts@.len(),
    ensures
        final(cfg).graph.nodes@.len() == old(cfg).graph.nodes@.len(),
        final(cfg).graph.edges@ == old(cfg).graph.edges@,
        final(cfg).entry_point == old(cfg).entry_point,
        final(cfg).exit_point == old(cfg).exit_point,
        forall|b: int| 0 <= b < final(cfg).graph.nodes@.len() ==> (#[trigger] final(cfg).graph.nodes@[b]).stmts@.len()
            == old(cfg).graph.nodes@[b].stmts@.len(),
        forall|b: int, k: int| 0 <= b < final(cfg).graph.nodes@.len()
            && 0 <= k < (#[trigger] final(cfg).graph.nodes@[b]).stmts@.len()
            ==> (stmtv_plain(stmt_model(old(cfg).graph.nodes@[b].stmts@[k]))
                ==> stmtv_plain(stmt_model(#[trigger] final(cfg).graph.nodes@[b].stmts@[k]))),
        forall|b: int| 0 <= b < final(cfg).graph.nodes@.len()
            ==> ((#[trigger] final(cfg).graph.nodes@[b]).terminator is Some
                <==> old(cfg).graph.nodes@[b].terminator is Some),
        forall|i: int| 0 <= i < definitions@.len() ==> stmt_model(
            final(cfg).graph.nodes@[(#[trigger] definitions@[i]).id.0 as int].stmts@[definitions@[i].id.1 as int],
        ) == StatementV::Nop,
{
    let n = cfg.graph.nodes.len();
    let mut v: usize = 0;
    while v < n
        invariant
            n == cfg.graph.nodes@.len(),
            n == old(cfg).graph.nodes@.len(),
            0 <= v <= n,
            cfg.graph.edges@ == old(cfg).graph.edges@,
            cfg.entry_point == old(cfg).entry_point,
            cfg.exit_point == old(cfg).exit_point,
            forall|i: int| 0 <= i < definitions@.len() ==> (#[trigger] definitions@[i]).id.0
                < n && definitions@[i].id.1
                < old(cfg).graph.nodes@[definitions@[i].id.0 as int].stmts@.len(),
            forall|b: int| v <= b < n ==> (#[trigger] cfg.graph.nodes@[b])
                == old(cfg).graph.nodes@[b],
            forall|b: int| 0 <= b < v ==> (#[trigger] cfg.graph.nodes@[b]).stmts@.len()
                == old(cfg).graph.nodes@[b].stmts@.len(),
            forall|b: int, k: int| 0 <= b < v
                && 0 <= k < (#[trigger] cfg.graph.nodes@[b]).stmts@.len()
                ==> (stmtv_plain(stmt_model(old(cfg).graph.nodes@[b].stmts@[k]))
                    ==> stmtv_plain(stmt_model(#[trigger] cfg.graph.nodes@[b].stmts@[k]))),
            forall|b: int| 0 <= b < v ==> ((#[trigger] cfg.graph.nodes@[b]).terminator is Some
                <==> old(cfg).graph.nodes@[b].terminator is Some),
            forall|i: int| 0 <= i < definitions@.len() && (#[trigger] definitions@[i]).id.0 < v
                ==> stmt_model(
                    cfg.graph.nodes@[definitions@[i].id.0 as int].stmts@[definitions@[i].id.1 as int],
                ) == StatementV::Nop,
        decreases n - v,
    {
        let mut relevant = if v < relevant_on_bb_entry.len() {
            clone_relevant(&relevant_on_bb_entry[v])
        } else {
            Vec::new()
        };
        let ns = cfg.graph.nodes[v].stmts.len();
        let mut k: usize = 0;
        while k < ns
            invariant
                n == cfg.graph.nodes@.len(),
                n == old(cfg).graph.nodes@.len(),
                0 <= v < n,
                ns == cfg.graph.nodes@[v as int].stmts@.len(),
                ns == old(cfg).graph.nodes@[v as int].stmts@.len(),
                0 <= k <= ns,
                cfg.graph.edges@ == old(cfg).graph.edges@,
                cfg.entry_point == old(cfg).entry_point,
                cfg.exit_point == old(cfg).exit_point,
                forall|i: int| 0 <= i < definitions@.len() ==> (#[trigger] definitions@[i]).id.0
                    < n && definitions@[i].id.1
                    < old(cfg).graph.nodes@[definitions@[i].id.0 as int].stmts@.len(),
                forall|b: int| v < b < n ==> (#[trigger] cfg.graph.nodes@[b])
                    == old(cfg).graph.nodes@[b],
                cfg.graph.nodes@[v as int].terminator == old(cfg).graph.nodes@[v as int].terminator,
                forall|k2: int| k <= k2 < ns ==> (#[trigger] cfg.graph.nodes@[v as int].stmts@[k2])
                    == old(cfg).graph.nodes@[v as int].stmts@[k2],
                forall|b: int| 0 <= b < v ==> (#[trigger] cfg.graph.nodes@[b]).stmts@.len()
                    == old(cfg).graph.nodes@[b].stmts@.len(),
                forall|b: int, k2: int| 0 <= b < v
                    && 0 <= k2 < (#[trigger] cfg.graph.nodes@[b]).stmts@.len()
                    ==> (stmtv_plain(stmt_model(old(cfg).graph.nodes@[b].stmts@[k2]))
                        ==> stmtv_plain(stmt_model(#[trigger] cfg.graph.nodes@[b].stmts@[k2]))),
                forall|b: int| 0 <= b < v ==> ((#[trigger] cfg.graph.nodes@[b]).terminator is Some
                    <==> old(cfg).graph.nodes@[b].terminator is Some),
                forall|k2: int| 0 <= k2 < k
                    ==> (stmtv_plain(stmt_model(old(cfg).graph.nodes@[v as int].stmts@[k2]))
                        ==> stmtv_plain(stmt_model(#[trigger] cfg.graph.nodes@[v as int].stmts@[k2]))),
                forall|i: int| 0 <= i < definitions@.len() && (#[trigger] definitions@[i]).id.0 < v
                    ==> stmt_model(
                        cfg.graph.nodes@[definitions@[i].id.0 as int].stmts@[definitions@[i].id.1 as int],
                    ) == StatementV::Nop,
                forall|i: int| 0 <= i < definitions@.len() && (#[trigger] definitions@[i]).id.0 == v
                    && definitions@[i].id.1 < k ==> stmt_model(
                        cfg.graph.nodes@[v as int].stmts@[definitions@[i].id.1 as int],
                    ) == StatementV::Nop,
            decreases ns - k,
        {
            let mut s2 = subst_stmt(&cfg.graph.nodes[v].stmts[k], definitions, &relevant);
            match defined_variable(&s2) {
                Some((var, _, _)) => {
                    let var = var.clone();
                    set_relevant(&mut relevant, &var, Location(v, k));
                }
                None => {}
            }
            let is_def = match find_def(definitions, Location(v, k)) {
                Some(_) => true,
                None => false,
            };
            if is_def {
                s2 = Statement::Nop;
            }
            proof {
                assert(is_def ==> stmt_model(s2) == StatementV::Nop);
            }
            cfg.graph.nodes[v].stmts[k] = s2;
            k = k + 1;
        }
        let term2 = match &cfg.graph.nodes[v].terminator {
            Some(cond) => Some(subst_expr(cond, definitions, &relevant, None)),
            None => None,
        };
        cfg.graph.nodes[v].terminator = term2;
        v = v + 1;
    }
}

/// One pass of variable propagation over a method body.
pub fn propagate(cfg: Cfg<Statement, Expr>, metadata: &Metadata) -> (r: Result<Cfg<Statement, Expr>, Error>)
    ensures
        match r {
            Ok(c) => {
                &&& c.graph.nodes@.len() == cfg.graph.nodes@.len()
                &&& c.graph.edges@ == cfg.graph.edges@
                &&& c.entry_point == cfg.entry_point
                &&& c.exit_point == cfg.exit_point
                &&& cfg.wf() ==> c.wf()
                &&& crate::structure::cfg_plain_ok(cfg) ==> crate::structure::cfg_plain_ok(c)
            },
            Err(e) => e == Error::AnalysisBudgetExceeded,
        },
{
    let mut cfg = cfg;
    let info = collect_def_info(&cfg)?;
    let ghost nodes0 = cfg.graph.nodes@;
    let mut propagatable = filter_propagatable(
        &info.definitions,
        Ghost(cfg.graph.nodes@.len() as int),
        Ghost(cfg.graph.nodes@),
    );
    propagate_in_definitions(&mut propagatable);
    let ghost before = cfg;
    propagate_in_code(&mut cfg, &propagatable, &info.relevant_on_bb_entry);
    proof {
        if crate::structure::cfg_plain_ok(before) {
            assert forall|b: int| 0 <= b < cfg.graph.nodes@.len() implies forall|k: int|
                0 <= k < (#[trigger] cfg.graph.nodes@[b]).stmts@.len() ==> stmtv_plain(stmt_model(
                    #[trigger] cfg.graph.nodes@[b].stmts@[k],
                )) by {
                assert forall|k: int| 0 <= k < cfg.graph.nodes@[b].stmts@.len() implies stmtv_plain(
                    stmt_model(#[trigger] cfg.graph.nodes@[b].stmts@[k]),
                ) by {
                    assert(stmtv_plain(stmt_model(before.graph.nodes@[b].stmts@[k])));
                }
            }
        }
        assert(crate::cfg::out_edges_spec(cfg.graph.edges@, cfg.exit_point)
            == crate::cfg::out_edges_spec(before.graph.edges@, before.exit_point));
    }
    Ok(cfg)
}

} // verus!

verus! {

use crate::structure::cfg_plain_ok;

/// Propagate variables in every method body of the unit.
pub fn var_prop(unit: CompilationUnit<Cfg<Statement, Expr>>) -> (r: Result<CompilationUnit<Cfg<Statement, Expr>>, crate::errors::MethodError>)
    ensures
        match r {
            Ok(u) => {
                &&& u.metadata == unit.metadata
                &&& u.name == unit.name
                &&& u.typ == unit.typ
                &&& u.modifiers == unit.modifiers
                &&& u.declarations@.len() == unit.declarations@.len()
                &&& forall|i: int| 0 <= i < u.declarations@.len() ==> match #[trigger] u.declarations@[i] {
                    Declaration::Method(m2) => unit.declarations@[i] matches Declaration::Method(m1) && {
                        &&& m2.name == m1.name
                        &&& m2.code is Some <==> m1.code is Some
                        &&& (m2.code matches Some(c2) ==> m1.code matches Some(c1)
                            && (c1.wf() ==> c2.wf()) && (cfg_plain_ok(c1) ==> cfg_plain_ok(c2)))
                    },
                    Declaration::Field(_) => u.declarations@[i] == unit.declarations@[i],
                    Declaration::Constructor(_) => u.declarations@[i] == unit.declarations@[i],
                }
            },
            Err(me) => me.error == Error::AnalysisBudgetExceeded,
        },
{
    let CompilationUnit { typ, modifiers, name, metadata, declarations } = unit;
    let mut mapped: Vec<Declaration<Cfg<Statement, Expr>>> = Vec::new();
    let mut rest = declarations;
    let n = rest.len();
    let ghost all = rest@;
    let mut i: usize = 0;
    while i < n
        invariant
            n == all.len(),
            0 <= i <= n,
            rest@ == all.subrange(i as int, n as int),
            mapped@.len() == i,
            forall|j: int| 0 <= j < i ==> match #[trigger] mapped@[j] {
                Declaration::Method(m2) => all[j] matches Declaration::Method(m1) && {
                    &&& m2.name == m1.name
                    &&& m2.code is Some <==> m1.code is Some
                    &&& (m2.code matches Some(c2) ==> m1.code matches Some(c1)
                        && (c1.wf() ==> c2.wf()) && (cfg_plain_ok(c1) ==> cfg_plain_ok(c2)))
                },
                Declaration::Field(_) => mapped@[j] == all[j],
                Declaration::Constructor(_) => mapped@[j] == all[j],
            },
        decreases n - i,
    {
        let d = rest.remove(0);
        proof {
            assert(d == all[i as int]);
            assert(rest@ =~= all.subrange(i + 1, n as int));
        }
        let mapped_d = match d {
            Declaration::Method(m) => {
                let Method { modifiers, name, signature, code } = m;
                let code = match code {
                    Some(cfg) => match propagate(cfg, &metadata) {
                        Ok(c) => Some(c),
                        Err(e) => {
                            return Err(crate::errors::MethodError { method: name, error: e });
                        }
                    },
                    None => None,
                };
                Declaration::Method(Method { modifiers, name, signature, code })
            }
            other => other,
        };
        mapped.push(mapped_d);
        i = i + 1;
    }
    Ok(CompilationUnit { typ, modifiers, name, metadata, declarations: mapped })
}

} // verus!
