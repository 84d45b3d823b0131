//! The pipeline: control-flow graphs from the instruction streams,
//! stack lifting, variable propagation, constructor recovery, and
//! structuring, in that order.
use vstd::prelude::*;
use crate::ast::{Block, Expr, Statement, block_model, stmt_model};
use crate::cfg::{build_cfg, Cfg};
use crate::constructors::{handle_constructors, ctor_decl_result, ctor_stmt_rewrite};
use crate::errors::Error;
use crate::instructions::{Instruction, JumpCondition};
use crate::stack_to_var::{stack_to_vars, lifted_cfg_ok, lifted_block_ok, stmtv_lifted_ok};
use crate::structure::{structure, blockv_structured_ok, cfg_plain_ok, stmtv_plain};
use crate::unit::{Code, CompilationUnit, Declaration, Method};
use crate::var_prop::var_prop;

verus! {

broadcast use vstd::std_specs::vec::group_vec_axioms;

/// The constructor rewrite keeps statements plain.
proof fn lemma_ctor_rewrite_plain(s: crate::ast::StatementV, cn: Seq<char>)
    requires
        stmtv_plain(s),
    ensures
        stmtv_plain(ctor_stmt_rewrite(s, cn)),
{
}

/// A lifted method body is a plain one.
proof fn lemma_lifted_cfg_plain(c: Cfg<Statement, Expr>)
    requires
        lifted_cfg_ok(c),
    ensures
        cfg_plain_ok(c),
{
    assert forall|b: int| 0 <= b < c.graph.nodes@.len() implies forall|k: int|
        0 <= k < (#[trigger] c.graph.nodes@[b]).stmts@.len() ==> stmtv_plain(stmt_model(
            #[trigger] c.graph.nodes@[b].stmts@[k],
        )) by {
        assert(lifted_block_ok(c.graph.nodes@[b]));
        assert forall|k: int| 0 <= k < c.graph.nodes@[b].stmts@.len() implies stmtv_plain(
            stmt_model(#[trigger] c.graph.nodes@[b].stmts@[k]),
        ) by {
            assert(stmtv_lifted_ok(stmt_model(c.graph.nodes@[b].stmts@[k])));
        }
    }
}

/// Run the whole pipeline on one compilation unit.
pub fn decompile(unit: CompilationUnit<Code>) -> (r: Result<CompilationUnit<Block>, crate::errors::MethodError>)
    requires
        unit.metadata.wf(),
    ensures
        match r {
            Ok(u) => forall|i: int| 0 <= i < u.declarations@.len() ==> match #[trigger] u.declarations@[i] {
                Declaration::Method(m) => m.code matches Some(b)
                    ==> blockv_structured_ok(block_model(b), Seq::empty()),
                Declaration::Constructor(c) => blockv_structured_ok(block_model(c.code), Seq::empty()),
                Declaration::Field(_) => true,
            },
            Err(e) => true,
        },
{
    // Split each instruction stream at its leaders.
    let CompilationUnit { typ, modifiers, name, metadata, declarations } = unit;
    let mut mapped: Vec<Declaration<Cfg<Instruction, JumpCondition>>> = Vec::new();
    let mut rest = declarations;
    let n = rest.len();
    let mut i: usize = 0;
    while i < n
        invariant
            0 <= i <= n,
            rest@.len() == n - i,
            mapped@.len() == i,
            forall|j: int| 0 <= j < i ==> ((#[trigger] mapped@[j]) matches Declaration::Method(m)
                ==> (m.code matches Some(c) ==> c.wf())),
        decreases n - i,
    {
        let d = rest.remove(0);
        let mapped_d = match d {
            Declaration::Field(f) => Declaration::Field(f),
            Declaration::Method(m) => {
                let Method { modifiers, name, signature, code } = m;
                let code = match code {
                    Some(c) => {
                        let cfg = match build_cfg(c) {
                            Ok(cfg) => cfg,
                            Err(e) => {
                                return Err(crate::errors::MethodError { method: name, error: e });
                            }
                        };
                        proof {
                            assert(cfg.wf());
                        }
                        Some(cfg)
                    }
                    None => None,
                };
                Declaration::Method(Method { modifiers, name, signature, code })
            }
            Declaration::Constructor(_) => {
                return Err(crate::errors::MethodError {
                    method: String::from_str("<init>"),
                    error: Error::MalformedConstructorCall,
                });
            }
        };
        mapped.push(mapped_d);
        i = i + 1;
    }
    let unit = CompilationUnit { typ, modifiers, name, metadata, declarations: mapped };

    // Name the operand-stack slots.
    let unit_lifted = stack_to_vars(unit)?;
    let ghost lifted = unit_lifted;

    // Undo the exploded three-address form.
    let mut unit_prop = var_prop(unit_lifted)?;
    let ghost propd = unit_prop;
    proof {
        assert forall|i2: int| 0 <= i2 < propd.declarations@.len() implies match #[trigger] propd.declarations@[i2] {
            Declaration::Method(m) => m.code matches Some(c) ==> c.wf() && cfg_plain_ok(c),
            Declaration::Constructor(_) => false,
            Declaration::Field(_) => true,
        } by {
            match propd.declarations@[i2] {
                Declaration::Method(m2) => {
                    if m2.code is Some {
                        let m1 = lifted.declarations@[i2]->Method_0;
                        let c1 = m1.code.unwrap();
                        assert(lifted_cfg_ok(c1));
                        lemma_lifted_cfg_plain(c1);
                    }
                }
                Declaration::Constructor(_) => {
                    assert(propd.declarations@[i2] == lifted.declarations@[i2]);
                }
                _ => {}
            }
        }
    }

    // Recover this- and super-calls inside constructors.
    handle_constructors(&mut unit_prop)?;
    let ghost withctors = unit_prop;
    proof {
        assert forall|i2: int| 0 <= i2 < withctors.declarations@.len() implies match #[trigger] withctors.declarations@[i2] {
            Declaration::Method(m) => m.code matches Some(c) ==> c.wf() && cfg_plain_ok(c),
            Declaration::Constructor(c) => c.code.wf() && cfg_plain_ok(c.code),
            Declaration::Field(_) => true,
        } by {
            assert(ctor_decl_result(propd.declarations@[i2], withctors.declarations@[i2], propd.name@));
            match propd.declarations@[i2] {
                Declaration::Method(m1) => {
                    if m1.name@ == "<init>"@ {
                        let c2 = withctors.declarations@[i2]->Constructor_0;
                        let c1 = m1.code.unwrap();
                        assert(crate::constructors::ctor_code_rewritten(c1, c2.code, propd.name@));
                        assert(c1.wf() && cfg_plain_ok(c1));
                        assert(crate::cfg::out_edges_spec(c2.code.graph.edges@, c2.code.exit_point)
                            == crate::cfg::out_edges_spec(c1.graph.edges@, c1.exit_point));
                        assert(c2.code.wf());
                        assert forall|b: int| 0 <= b < c2.code.graph.nodes@.len() implies forall|k: int|
                            0 <= k < (#[trigger] c2.code.graph.nodes@[b]).stmts@.len()
                                ==> stmtv_plain(stmt_model(#[trigger] c2.code.graph.nodes@[b].stmts@[k])) by {
                            assert forall|k: int| 0 <= k < c2.code.graph.nodes@[b].stmts@.len()
                                implies stmtv_plain(stmt_model(#[trigger] c2.code.graph.nodes@[b].stmts@[k])) by {
                                assert(stmt_model(c2.code.graph.nodes@[b].stmts@[k])
                                    == ctor_stmt_rewrite(stmt_model(c1.graph.nodes@[b].stmts@[k]), propd.name@));
                                assert(stmtv_plain(stmt_model(c1.graph.nodes@[b].stmts@[k])));
                                lemma_ctor_rewrite_plain(stmt_model(c1.graph.nodes@[b].stmts@[k]), propd.name@);
                            }
                        }
                    } else {
                        assert(withctors.declarations@[i2] == propd.declarations@[i2]);
                    }
                }
                _ => {
                    assert(withctors.declarations@[i2] == propd.declarations@[i2]);
                }
            }
        }
    }

    // Recover structured control flow.
    let done = structure(unit_prop)?;
    Ok(done)
}

} // verus!
