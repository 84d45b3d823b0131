//! The constructor pass: a method named `<init>` becomes a
//! constructor declaration, and every `this.<init>(...)` call inside
//! it becomes `this(...)` or `super(...)`.
use vstd::prelude::*;
use crate::ast::{Expr, Assignable, Statement, stmt_model, expr_model, assignable_model, StatementV, ExprV, AssignableV, clone_exprs, exprs_model, local_name, local_ident};
use crate::cfg::Cfg;
use crate::errors::Error;
use crate::unit::{CompilationUnit, Constructor, Declaration, Method};

verus! {

broadcast use vstd::std_specs::vec::group_vec_axioms;

/// The receiver forms that denote the object under construction:
/// the `this` expression itself, or the variable of local slot zero,
/// which holds `this` in an instance method.
pub open spec fn receiver_is_this(e: ExprV) -> bool {
    ||| e is This
    ||| e == ExprV::Assignable(Box::new(AssignableV::Variable(local_name(0), 0)))
}

/// What the rewrite does to one statement: an `<init>` invocation on
/// `this` becomes a this-call when the named class is the enclosing
/// one and a super-call otherwise; everything else stays.
pub open spec fn ctor_stmt_rewrite(s: StatementV, class_name: Seq<char>) -> StatementV {
    match s {
        StatementV::Expr(e) => match e {
            ExprV::Invoke(this, method, class, args) => {
                if method.name == "<init>"@ && (this matches Some(t) && receiver_is_this(*t)) {
                    if class == class_name {
                        StatementV::ThisCall(args)
                    } else {
                        StatementV::SuperCall(args)
                    }
                } else {
                    s
                }
            },
            _ => s,
        },
        _ => s,
    }
}

/// The one malformed shape the pass rejects: an `<init>` invocation
/// whose receiver is missing or is not `this`.
pub open spec fn ctor_stmt_malformed(s: StatementV) -> bool {
    match s {
        StatementV::Expr(e) => match e {
            ExprV::Invoke(this, method, class, args) => {
                method.name == "<init>"@ && !(this matches Some(t) && receiver_is_this(*t))
            },
            _ => false,
        },
        _ => false,
    }
}

/// Rewrite one statement of a constructor body.
fn rewrite_ctor_stmt(stmt: &Statement, class_name: &String, init_name: &String)
    -> (r: Result<Option<Statement>, Error>)
    requires
        init_name@ == "<init>"@,
    ensures
        match r {
            Ok(opt) => match opt {
                Some(s2) => stmt_model(s2) == ctor_stmt_rewrite(stmt_model(*stmt), class_name@)
                    && !ctor_stmt_malformed(stmt_model(*stmt)),
                None => ctor_stmt_rewrite(stmt_model(*stmt), class_name@) == stmt_model(*stmt)
                    && !ctor_stmt_malformed(stmt_model(*stmt)),
            },
            Err(e) => ctor_stmt_malformed(stmt_model(*stmt)) && e == Error::MalformedConstructorCall,
        },
{
    match stmt {
        Statement::Expr(e) => match e {
            Expr::Invoke(this_opt, mref, cref, args) => {
                if mref.name == *init_name {
                    let local0 = local_ident(0);
                    let receiver_ok = match this_opt {
                        Some(t) => match &**t {
                            Expr::This => true,
                            Expr::Assignable(a) => match &**a {
                                Assignable::Variable(nm, version) => {
                                    let ok = *nm == local0 && *version == 0;
                                    proof {
                                        let target = ExprV::Assignable(Box::new(
                                            AssignableV::Variable(local_name(0), 0),
                                        ));
                                        assert(**a == Assignable::Variable(*nm, *version));
                                        assert(assignable_model(**a) == AssignableV::Variable(
                                            nm@,
                                            *version as nat,
                                        ));
                                        assert(**t matches Expr::Assignable(bx) && *bx == **a);
                                        assert(expr_model(**t) == ExprV::Assignable(Box::new(
                                            AssignableV::Variable(nm@, *version as nat),
                                        )));
                                        if ok {
                                            assert(nm@ == local_name(0));
                                            assert(expr_model(**t) == target);
                                            assert(receiver_is_this(expr_model(**t)));
                                        } else {
                                            assert(AssignableV::Variable(nm@, *version as nat)
                                                != AssignableV::Variable(local_name(0), 0));
                                            assert(!receiver_is_this(expr_model(**t)));
                                        }
                                    }
                                    ok
                                }
                                _ => {
                                    proof {
                                        assert(!(assignable_model(**a) is Variable));
                                        assert(**t matches Expr::Assignable(bx) && *bx == **a);
                                        assert(expr_model(**t) == ExprV::Assignable(Box::new(
                                            assignable_model(**a),
                                        )));
                                        assert(!receiver_is_this(expr_model(**t)));
                                    }
                                    false
                                }
                            },
                            _ => {
                                proof {
                                    assert(!(expr_model(**t) is This) ==> !receiver_is_this(
                                        expr_model(**t),
                                    ));
                                }
                                false
                            }
                        },
                        None => false,
                    };
                    proof {
                        match this_opt {
                            Some(t) => {
                                assert(receiver_ok == receiver_is_this(expr_model(**t)));
                            }
                            None => {}
                        }
                    }
                    if !receiver_ok {
                        proof {
                            assert(ctor_stmt_malformed(stmt_model(*stmt)));
                        }
                        return Err(Error::MalformedConstructorCall);
                    }
                    let args2 = clone_exprs(args);
                    proof {
                        assert(exprs_model(args2@) =~= exprs_model(args@));
                    }
                    if cref.0 == *class_name {
                        let s2 = Statement::ThisCall(args2);
                        proof {
                            assert(stmt_model(s2) =~~= ctor_stmt_rewrite(stmt_model(*stmt), class_name@));
                        }
                        Ok(Some(s2))
                    } else {
                        let s2 = Statement::SuperCall(args2);
                        proof {
                            assert(stmt_model(s2) =~~= ctor_stmt_rewrite(stmt_model(*stmt), class_name@));
                        }
                        Ok(Some(s2))
                    }
                } else {
                    Ok(None)
                }
            },
            _ => Ok(None),
        },
        _ => Ok(None),
    }
}

/// The body of `c2` is the body of `c1` with every statement put
/// through the constructor rewrite; the shape of the graph does not
/// move.
pub open spec fn ctor_code_rewritten(c1: Cfg<Statement, Expr>, c2: Cfg<Statement, Expr>, class_name: Seq<char>) -> bool {
    &&& c2.graph.edges@ == c1.graph.edges@
    &&& c2.graph.nodes@.len() == c1.graph.nodes@.len()
    &&& c2.entry_point == c1.entry_point
    &&& c2.exit_point == c1.exit_point
    &&& forall|b: int| 0 <= b < c1.graph.nodes@.len() ==> {
        &&& (#[trigger] c2.graph.nodes@[b]).stmts@.len() == c1.graph.nodes@[b].stmts@.len()
        &&& match (c1.graph.nodes@[b].terminator, c2.graph.nodes@[b].terminator) {
            (Some(t1), Some(t2)) => expr_model(t2) == expr_model(t1),
            (None, None) => true,
            _ => false,
        }
        &&& forall|k: int| 0 <= k < c1.graph.nodes@[b].stmts@.len() ==> stmt_model(
            (#[trigger] c2.graph.nodes@[b].stmts@[k]),
        ) == ctor_stmt_rewrite(stmt_model(c1.graph.nodes@[b].stmts@[k]), class_name)
            && !ctor_stmt_malformed(stmt_model(c1.graph.nodes@[b].stmts@[k]))
    }
}

/// Rewrite every `<init>` call of a constructor body into a fresh
/// graph; the input is left as it is.
fn rewrite_ctor_code(code: &Cfg<Statement, Expr>, class_name: &String, init_name: &String)
    -> (r: Result<Cfg<Statement, Expr>, Error>)
    requires
        init_name@ == "<init>"@,
    ensures
        match r {
            Ok(c2) => ctor_code_rewritten(*code, c2, class_name@),
            Err(e) => {
                &&& e == Error::MalformedConstructorCall
                &&& exists|b: int, k: int| 0 <= b < code.graph.nodes@.len()
                    && 0 <= k < code.graph.nodes@[b].stmts@.len()
                    && ctor_stmt_malformed(stmt_model(#[trigger] code.graph.nodes@[b].stmts@[k]))
            },
        },
{
    let nb = code.graph.nodes.len();
    let mut new_nodes: Vec<crate::cfg::BasicBlock<Statement, Expr>> = Vec::new();
    let mut b: usize = 0;
    while b < nb
        invariant
            init_name@ == "<init>"@,
            nb == code.graph.nodes@.len(),
            0 <= b <= nb,
            new_nodes@.len() == b,
            forall|j: int| 0 <= j < b ==> {
                &&& (#[trigger] new_nodes@[j]).stmts@.len() == code.graph.nodes@[j].stmts@.len()
                &&& match (code.graph.nodes@[j].terminator, new_nodes@[j].terminator) {
                    (Some(t1), Some(t2)) => expr_model(t2) == expr_model(t1),
                    (None, None) => true,
                    _ => false,
                }
                &&& forall|k: int| 0 <= k < code.graph.nodes@[j].stmts@.len() ==> stmt_model(
                    (#[trigger] new_nodes@[j].stmts@[k]),
                ) == ctor_stmt_rewrite(stmt_model(code.graph.nodes@[j].stmts@[k]), class_name@)
                    && !ctor_stmt_malformed(stmt_model(code.graph.nodes@[j].stmts@[k]))
            },
        decreases nb - b,
    {
        let bb = &code.graph.nodes[b];
        let ns = bb.stmts.len();
        let mut new_stmts: Vec<Statement> = Vec::new();
        let mut k: usize = 0;
        while k < ns
            invariant
                init_name@ == "<init>"@,
                nb == code.graph.nodes@.len(),
                0 <= b < nb,
                ns == bb.stmts@.len(),
                bb == &code.graph.nodes@[b as int],
                0 <= k <= ns,
                new_stmts@.len() == k,
                forall|k2: int| 0 <= k2 < k ==> stmt_model(#[trigger] new_stmts@[k2])
                    == ctor_stmt_rewrite(stmt_model(bb.stmts@[k2]), class_name@)
                    && !ctor_stmt_malformed(stmt_model(bb.stmts@[k2])),
            decreases ns - k,
        {
            let replacement = rewrite_ctor_stmt(&bb.stmts[k], class_name, init_name)?;
            match replacement {
                Some(s2) => {
                    new_stmts.push(s2);
                }
                None => {
                    let s2 = bb.stmts[k].clone();
                    proof {
                        assert(stmt_model(s2) == stmt_model(bb.stmts@[k as int]));
                    }
                    new_stmts.push(s2);
                }
            }
            k = k + 1;
        }
        let terminator = match &bb.terminator {
            Some(t) => {
                let t2 = t.clone();
                proof {
                    assert(expr_model(t2) == expr_model(bb.terminator.unwrap()));
                }
                Some(t2)
            }
            None => None,
        };
        new_nodes.push(crate::cfg::BasicBlock { stmts: new_stmts, terminator });
        b = b + 1;
    }
    let mut new_edges: Vec<(usize, usize, bool)> = Vec::new();
    let ne = code.graph.edges.len();
    let mut e: usize = 0;
    while e < ne
        invariant
            ne == code.graph.edges@.len(),
            0 <= e <= ne,
            new_edges@ =~= code.graph.edges@.subrange(0, e as int),
        decreases ne - e,
    {
        new_edges.push(code.graph.edges[e]);
        e = e + 1;
    }
    proof {
        assert(new_edges@ =~= code.graph.edges@);
    }
    Ok(Cfg {
        graph: crate::cfg::CfgGraph { nodes: new_nodes, edges: new_edges },
        entry_point: code.entry_point,
        exit_point: code.exit_point,
    })
}

/// Whether a declaration is left alone or reshaped into a
/// constructor.
pub open spec fn ctor_decl_result(d1: Declaration<Cfg<Statement, Expr>>, d2: Declaration<Cfg<Statement, Expr>>, class_name: Seq<char>) -> bool {
    match d1 {
        Declaration::Method(m) => {
            if m.name@ == "<init>"@ {
                d2 matches Declaration::Constructor(c) && {
                    &&& c.modifiers == m.modifiers
                    &&& c.parameters == m.signature.parameters
                    &&& m.code matches Some(code1) && ctor_code_rewritten(code1, c.code, class_name)
                }
            } else {
                d2 == d1
            }
        },
        _ => d2 == d1,
    }
}

/// A declaration the constructor pass must reject: an `<init>` method
/// without a body, or one whose body holds a malformed constructor
/// call.
pub open spec fn ctor_decl_defect(d: Declaration<Cfg<Statement, Expr>>) -> bool {
    d matches Declaration::Method(m) && m.name@ == "<init>"@ && match m.code {
        None => true,
        Some(c) => exists|b: int, k: int| 0 <= b < c.graph.nodes@.len()
            && 0 <= k < c.graph.nodes@[b].stmts@.len()
            && ctor_stmt_malformed(stmt_model(#[trigger] c.graph.nodes@[b].stmts@[k])),
    }
}

/// Reclassify every `<init>` method of the unit as a constructor and
/// rewrite its constructor calls.  On an error, every declaration is
/// either untouched or fully rewritten, and some `<init>` declaration
/// is defective.
#[verifier::rlimit(80)]
pub fn handle_constructors(unit: &mut CompilationUnit<Cfg<Statement, Expr>>) -> (r: Result<(), crate::errors::MethodError>)
    ensures
        final(unit).name == old(unit).name,
        final(unit).metadata == old(unit).metadata,
        final(unit).typ == old(unit).typ,
        final(unit).modifiers == old(unit).modifiers,
        final(unit).declarations@.len() == old(unit).declarations@.len(),
        match r {
            Ok(()) => forall|i: int| 0 <= i < old(unit).declarations@.len() ==> ctor_decl_result(
                old(unit).declarations@[i],
                #[trigger] final(unit).declarations@[i],
                old(unit).name@,
            ),
            Err(me) => {
                &&& me.error == Error::MalformedConstructorCall
                &&& forall|i: int| 0 <= i < old(unit).declarations@.len()
                    ==> #[trigger] final(unit).declarations@[i] == old(unit).declarations@[i]
                        || ctor_decl_result(
                        old(unit).declarations@[i],
                        final(unit).declarations@[i],
                        old(unit).name@,
                    )
                &&& exists|i: int| 0 <= i < old(unit).declarations@.len() && ctor_decl_defect(
                    #[trigger] old(unit).declarations@[i],
                )
            },
        },
{
    let init_name = String::from_str("<init>");
    let class_name = unit.name.clone();
    proof {
        assert(class_name@ == old(unit).name@);
    }
    let n = unit.declarations.len();
    let ghost orig_decls = unit.declarations@;
    let mut i: usize = 0;
    while i < n
        invariant
            init_name@ == "<init>"@,
            class_name@ == old(unit).name@,
            n == orig_decls.len(),
            orig_decls == old(unit).declarations@,
            0 <= i <= n,
            unit.name == old(unit).name,
            unit.metadata == old(unit).metadata,
            unit.typ == old(unit).typ,
            unit.modifiers == old(unit).modifiers,
            unit.declarations@.len() == n,
            forall|j: int| i <= j < n ==> #[trigger] unit.declarations@[j] == orig_decls[j],
            forall|j: int| 0 <= j < i ==> ctor_decl_result(
                orig_decls[j],
                #[trigger] unit.declarations@[j],
                old(unit).name@,
            ),
        decreases n - i,
    {
        let is_init = match &unit.declarations[i] {
            Declaration::Method(m) => m.name == init_name,
            _ => false,
        };
        if is_init {
            let ghost prev = unit.declarations@;
            let d = unit.declarations.remove(i);
            let ghost d0 = d;
            match d {
                Declaration::Method(m) => {
                    let Method { modifiers, name, signature, code } = m;
                    let code = match code {
                        Some(c) => c,
                        None => {
                            // An abstract constructor: put the
                            // declaration back and refuse the unit.
                            let method_name = name.clone();
                            let restored = Declaration::Method(Method {
                                modifiers,
                                name,
                                signature,
                                code: None,
                            });
                            proof {
                                assert(restored == d0);
                            }
                            unit.declarations.insert(i, restored);
                            proof {
                                assert(unit.declarations@ =~= prev);
                                assert(unit.declarations@.len() == n);
                                assert(orig_decls == old(unit).declarations@);
                                assert(unit.declarations@.len() == old(unit).declarations@.len());
                                assert(ctor_decl_defect(orig_decls[i as int]));
                                assert forall|j: int| 0 <= j < n implies
                                    #[trigger] unit.declarations@[j] == orig_decls[j]
                                        || ctor_decl_result(
                                        orig_decls[j],
                                        unit.declarations@[j],
                                        old(unit).name@,
                                    ) by {
                                    if j < i {
                                        assert(ctor_decl_result(
                                            orig_decls[j],
                                            prev[j],
                                            old(unit).name@,
                                        ));
                                        assert(unit.declarations@[j] == prev[j]);
                                    } else {
                                        assert(prev[j] == orig_decls[j]);
                                        assert(unit.declarations@[j] == prev[j]);
                                    }
                                }
                                assert(exists|i2: int| 0 <= i2 < old(unit).declarations@.len()
                                    && ctor_decl_defect(#[trigger] old(unit).declarations@[i2]));
                            }
                            return Err(crate::errors::MethodError {
                                method: method_name,
                                error: Error::MalformedConstructorCall,
                            });
                        }
                    };
                    match rewrite_ctor_code(&code, &class_name, &init_name) {
                        Ok(code2) => {
                            let ctor = Constructor {
                                modifiers,
                                parameters: signature.parameters,
                                code: code2,
                            };
                            unit.declarations.insert(i, Declaration::Constructor(ctor));
                            proof {
                                assert(unit.declarations@ =~= prev.update(
                                    i as int,
                                    unit.declarations@[i as int],
                                ));
                                assert(d0 == prev[i as int] && d0 == orig_decls[i as int]);
                                assert(ctor_decl_result(
                                    orig_decls[i as int],
                                    unit.declarations@[i as int],
                                    old(unit).name@,
                                ));
                            }
                        }
                        Err(e) => {
                            // Put the declaration back untouched and
                            // refuse the unit.
                            let method_name = name.clone();
                            let restored = Declaration::Method(Method {
                                modifiers,
                                name,
                                signature,
                                code: Some(code),
                            });
                            proof {
                                assert(restored == d0);
                            }
                            unit.declarations.insert(i, restored);
                            proof {
                                assert(unit.declarations@ =~= prev);
                                assert(ctor_decl_defect(orig_decls[i as int]));
                                assert forall|j: int| 0 <= j < n implies
                                    #[trigger] unit.declarations@[j] == orig_decls[j]
                                        || ctor_decl_result(
                                        orig_decls[j],
                                        unit.declarations@[j],
                                        old(unit).name@,
                                    ) by {}
                            }
                            return Err(crate::errors::MethodError {
                                method: method_name,
                                error: e,
                            });
                        }
                    }
                }
                _ => {
                    proof {
                        // This arm is provably dead.
                        assert(false);
                    }
                    return Err(crate::errors::MethodError {
                        method: String::from_str("<init>"),
                        error: Error::MalformedConstructorCall,
                    });
                }
            }
        }
        i = i + 1;
    }
    Ok(())
}

} // verus!
