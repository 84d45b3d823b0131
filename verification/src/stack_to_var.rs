//! The stack-to-variable lifter: abstract interpretation of the
//! operand stack, turning each instruction into assignments between
//! named variables.
use vstd::prelude::*;
use crate::ast::{
    Assignable, AssignableV, Expr, ExprV, Statement, StatementV, UnOp, BinOp,
    stack_name, local_name, stack_ident, local_ident, mk_variable, stmt_expr,
    expr_model, assignable_model, stmt_model, exprs_model,
};
use crate::cfg::{BasicBlock, Cfg, CfgGraph, Label, out_edges_spec};
use crate::errors::Error;
use crate::instructions::{
    Arithm, BinaryOp, Instruction, Invoke, InvokeKind, JumpCondition, LValue, RValue, StackVarId,
    UnaryOp,
};
use crate::unit::{
    JavaConstant, Metadata, Type, java_constant_model, class_ref_model, field_ref_model,
    method_ref_model,
};

verus! {

broadcast use vstd::std_specs::vec::group_vec_axioms;

/// Translate a bytecode unary operation into a source operator.
pub fn convert_un_op(op: UnaryOp) -> (r: UnOp)
    ensures
        r == spec_convert_un_op(op),
{
    match op {
        UnaryOp::Neg => UnOp::Neg,
    }
}

pub open spec fn spec_convert_un_op(op: UnaryOp) -> UnOp {
    UnOp::Neg
}

/// Translate a bytecode binary operation into a source operator.
pub fn convert_bin_op(op: BinaryOp) -> (r: BinOp)
    ensures
        r == spec_convert_bin_op(op),
{
    match op {
        BinaryOp::Add => BinOp::Add,
        BinaryOp::Sub => BinOp::Sub,
        BinaryOp::Mul => BinOp::Mul,
        BinaryOp::Div => BinOp::Div,
        BinaryOp::Rem => BinOp::Rem,
        BinaryOp::Shl => BinOp::Shl,
        BinaryOp::Shr => BinOp::Shr,
        BinaryOp::Ushr => BinOp::Ushr,
        BinaryOp::And => BinOp::BitAnd,
        BinaryOp::Or => BinOp::BitOr,
        BinaryOp::Xor => BinOp::BitXor,
    }
}

pub open spec fn spec_convert_bin_op(op: BinaryOp) -> BinOp {
    match op {
        BinaryOp::Add => BinOp::Add,
        BinaryOp::Sub => BinOp::Sub,
        BinaryOp::Mul => BinOp::Mul,
        BinaryOp::Div => BinOp::Div,
        BinaryOp::Rem => BinOp::Rem,
        BinaryOp::Shl => BinOp::Shl,
        BinaryOp::Shr => BinOp::Shr,
        BinaryOp::Ushr => BinOp::Ushr,
        BinaryOp::And => BinOp::BitAnd,
        BinaryOp::Or => BinOp::BitOr,
        BinaryOp::Xor => BinOp::BitXor,
    }
}

/// A name the lifter hands out: a stack slot or a local slot.
pub open spec fn ident_ok(s: Seq<char>) -> bool {
    (exists|k: nat| s == stack_name(k)) || (exists|i: nat| s == local_name(i))
}

/// A variable expression of a given name.
pub open spec fn var_expr(name: Seq<char>) -> ExprV {
    ExprV::Assignable(Box::new(AssignableV::Variable(name, 0)))
}

/// A plain assignment statement, as the lifter emits them.
pub open spec fn assign_stmt(to: AssignableV, from: ExprV) -> StatementV {
    StatementV::Expr(ExprV::Assign { to: Box::new(to), op: None, from: Box::new(from) })
}

/// Every variable of the expression carries a name the lifter hands
/// out: no raw stack slot survives lifting.
pub open spec fn exprv_vars_ok(e: ExprV) -> bool
    decreases e,
{
    match e {
        ExprV::Literal(_) => true,
        ExprV::Assignable(a) => assignablev_vars_ok(*a),
        ExprV::UnaryOp(_, inner) => exprv_vars_ok(*inner),
        ExprV::BinaryOp(_, a, b) => exprv_vars_ok(*a) && exprv_vars_ok(*b),
        ExprV::IfThenElse { cond, then, els } => exprv_vars_ok(*cond) && exprv_vars_ok(*then)
            && exprv_vars_ok(*els),
        ExprV::Invoke(this, _, _, args) => (match this {
            Some(t) => exprv_vars_ok(*t),
            None => true,
        }) && forall|i: int| 0 <= i < args.len() ==> exprv_vars_ok(#[trigger] args[i]),
        ExprV::Assign { to, op, from } => assignablev_vars_ok(*to) && exprv_vars_ok(*from),
        ExprV::New { class, args } => forall|i: int|
            0 <= i < args.len() ==> exprv_vars_ok(#[trigger] args[i]),
        ExprV::This => true,
        ExprV::Super => true,
    }
}

pub open spec fn assignablev_vars_ok(a: AssignableV) -> bool
    decreases a,
{
    match a {
        AssignableV::Variable(name, _) => ident_ok(name),
        AssignableV::Field { this, class, field } => match this {
            Some(t) => exprv_vars_ok(*t),
            None => true,
        },
        AssignableV::ArrayAccess { array, index } => exprv_vars_ok(*array) && exprv_vars_ok(*index),
    }
}

/// The shape of a lifted statement: no control flow, just work.
pub open spec fn stmtv_lifted_ok(s: StatementV) -> bool {
    match s {
        StatementV::Nop => true,
        StatementV::Expr(e) => exprv_vars_ok(e),
        StatementV::Return(v) => match v {
            Some(e) => exprv_vars_ok(e),
            None => true,
        },
        _ => false,
    }
}

/// The symbolic operand stack: the number of values pushed so far,
/// which is also the id of the next slot variable to hand out.
#[derive(Copy, Clone, Debug, PartialEq, Eq, Structural)]
pub struct StackLayout(pub StackVarId);

/// What lifting an operand yields: its expression, and the stack
/// height after the slots it consumes are gone.
pub open spec fn spec_lift_lvalue(lv: LValue, md: Metadata, top: int) -> Option<(AssignableV, int)> {
    match lv {
        LValue::Local(i) => Some((AssignableV::Variable(local_name(i as nat), 0), top)),
        LValue::Stack(idx) => {
            let slot = top + idx as int;
            if idx < 0 && 0 <= slot {
                Some((AssignableV::Variable(stack_name(slot as nat), 0), top - 1))
            } else {
                None
            }
        },
        LValue::StaticField { field_ref } => {
            if md.field_refs@.dom().contains(field_ref) {
                let f = md.field_refs@[field_ref];
                if md.class_refs@.dom().contains(f.class_ref) {
                    Some((
                        AssignableV::Field {
                            this: None,
                            class: class_ref_model(md.class_refs@[f.class_ref]),
                            field: field_ref_model(f),
                        },
                        top,
                    ))
                } else {
                    None
                }
            } else {
                None
            }
        },
        LValue::InstanceField { object_stack_index, field_ref } => {
            let slot = top + object_stack_index as int;
            if object_stack_index < 0 && 0 <= slot && md.field_refs@.dom().contains(field_ref) {
                let f = md.field_refs@[field_ref];
                if md.class_refs@.dom().contains(f.class_ref) {
                    Some((
                        AssignableV::Field {
                            this: Some(Box::new(var_expr(stack_name(slot as nat)))),
                            class: class_ref_model(md.class_refs@[f.class_ref]),
                            field: field_ref_model(f),
                        },
                        top - 1,
                    ))
                } else {
                    None
                }
            } else {
                None
            }
        },
    }
}

pub open spec fn spec_lift_rvalue(rv: RValue, md: Metadata, top: int) -> Option<(ExprV, int)> {
    match rv {
        RValue::Constant(lit) => Some((ExprV::Literal(java_constant_model(lit)), top)),
        RValue::ConstantRef { const_ref } => {
            if md.literals@.dom().contains(const_ref) {
                Some((ExprV::Literal(java_constant_model(md.literals@[const_ref])), top))
            } else {
                None
            }
        },
        RValue::LValue(lv) => match spec_lift_lvalue(lv, md, top) {
            Some((a, t)) => Some((ExprV::Assignable(Box::new(a)), t)),
            None => None,
        },
    }
}

/// The stack-slot variables `stack_{from}` .. `stack_{to - 1}`.
pub open spec fn arg_vars(from: int, to: int) -> Seq<ExprV> {
    Seq::new((to - from) as nat, |i: int| var_expr(stack_name((from + i) as nat)))
}

/// The ceiling the bytecode format puts on an operand stack.
pub open spec fn stack_limit() -> int {
    65535
}

/// What executing one instruction does to the symbolic stack, and the
/// statements it emits; `None` when the instruction cannot be lifted
/// at this height.
pub open spec fn spec_execute(instr: Instruction, md: Metadata, top: int) -> Option<(Seq<StatementV>, int)> {
    match instr {
        Instruction::Nop => Some((Seq::empty(), top)),
        Instruction::Load(rv) => match spec_lift_rvalue(rv, md, top) {
            Some((e, t)) => if t < stack_limit() {
                Some((
                    seq![assign_stmt(AssignableV::Variable(stack_name(t as nat), 0), e)],
                    t + 1,
                ))
            } else {
                None
            },
            None => None,
        },
        Instruction::Store(lv) => match spec_lift_lvalue(lv, md, top) {
            Some((a, t)) => if t >= 1 && top >= 1 {
                Some((
                    seq![assign_stmt(a, var_expr(stack_name((top - 1) as nat)))],
                    t - 1,
                ))
            } else {
                None
            },
            None => None,
        },
        Instruction::Arithm(a) => match a {
            Arithm::UnaryOp(op) => if top >= 1 {
                Some((
                    seq![
                        assign_stmt(
                            AssignableV::Variable(stack_name((top - 1) as nat), 0),
                            ExprV::UnaryOp(
                                spec_convert_un_op(op),
                                Box::new(var_expr(stack_name((top - 1) as nat))),
                            ),
                        ),
                    ],
                    top,
                ))
            } else {
                None
            },
            Arithm::BinaryOp(op) => if top >= 2 {
                Some((
                    seq![
                        assign_stmt(
                            AssignableV::Variable(stack_name((top - 2) as nat), 0),
                            ExprV::BinaryOp(
                                spec_convert_bin_op(op),
                                Box::new(var_expr(stack_name((top - 2) as nat))),
                                Box::new(var_expr(stack_name((top - 1) as nat))),
                            ),
                        ),
                    ],
                    top - 1,
                ))
            } else {
                None
            },
            Arithm::IncreaseLocal { local_index, increase } => Some((
                seq![
                    StatementV::Expr(ExprV::Assign {
                        to: Box::new(AssignableV::Variable(local_name(local_index as nat), 0)),
                        op: Some(BinOp::Add),
                        from: Box::new(ExprV::Literal(crate::unit::JavaConstantV::Integer(increase as i32))),
                    }),
                ],
                top,
            )),
        },
        Instruction::Invoke(iv) => spec_execute_invoke(iv, md, top),
        Instruction::Return(v) => match v {
            Some(_) => if top == 1 {
                Some((seq![StatementV::Return(Some(var_expr(stack_name(0))))], 0))
            } else {
                None
            },
            None => if top == 0 {
                Some((seq![StatementV::Return(None)], 0))
            } else {
                None
            },
        },
        _ => None,
    }
}

pub open spec fn spec_execute_invoke(iv: Invoke, md: Metadata, top: int) -> Option<(Seq<StatementV>, int)> {
    if md.method_refs@.dom().contains(iv.method_index) {
        let m = md.method_refs@[iv.method_index];
        if md.class_refs@.dom().contains(m.class_ref) {
            let argc = m.signature.parameters@.len() as int;
            if top >= argc {
                let t1 = top - argc;
                let args = arg_vars(t1, top);
                let takes_receiver = !(iv.kind is Static);
                if takes_receiver ==> t1 >= 1 {
                    let t2 = if takes_receiver { t1 - 1 } else { t1 };
                    let receiver = if takes_receiver {
                        Some(Box::new(var_expr(stack_name((t1 - 1) as nat))))
                    } else {
                        None
                    };
                    let call = ExprV::Invoke(
                        receiver,
                        method_ref_model(m),
                        class_ref_model(md.class_refs@[m.class_ref]),
                        args,
                    );
                    if m.signature.return_type == Type::Void {
                        Some((seq![StatementV::Expr(call)], t2))
                    } else {
                        if t2 < stack_limit() {
                            Some((
                                seq![assign_stmt(AssignableV::Variable(stack_name(t2 as nat), 0), call)],
                                t2 + 1,
                            ))
                        } else {
                            None
                        }
                    }
                } else {
                    None
                }
            } else {
                None
            }
        } else {
            None
        }
    } else {
        None
    }
}

/// What lifting a branch condition yields: the comparison expression
/// and the height after its operands are consumed.
pub open spec fn spec_cond_to_expr(cond: JumpCondition, top: int) -> Option<(ExprV, int)> {
    match cond {
        JumpCondition::CmpZero(ord) => if top >= 1 {
            Some((
                ExprV::BinaryOp(
                    BinOp::Cmp(ord),
                    Box::new(var_expr(stack_name((top - 1) as nat))),
                    Box::new(ExprV::Literal(crate::unit::JavaConstantV::Integer(0))),
                ),
                top - 1,
            ))
        } else {
            None
        },
        JumpCondition::Cmp(ord) | JumpCondition::CmpRef(ord) => if top >= 2 {
            Some((
                ExprV::BinaryOp(
                    BinOp::Cmp(ord),
                    Box::new(var_expr(stack_name((top - 2) as nat))),
                    Box::new(var_expr(stack_name((top - 1) as nat))),
                ),
                top - 2,
            ))
        } else {
            None
        },
    }
}

} // verus!

verus! {

impl StackLayout {
    /// An empty symbolic stack.
    pub fn new() -> (r: Self)
        ensures
            r.0 == 0,
    {
        StackLayout(0)
    }

    /// The id of the slot `i` places below the top.
    pub fn get(&self, i: isize) -> (r: StackVarId)
        requires
            0 <= self.0 <= 65535,
            -65536 <= i <= 65536,
        ensures
            r == self.0 - i,
    {
        self.0 - i
    }

    /// Hand out the next slot id and grow the stack over it.
    pub fn push(&mut self) -> (r: StackVarId)
        requires
            0 <= old(self).0 < 65535,
        ensures
            final(self).0 == old(self).0 + 1,
            r == old(self).0,
    {
        self.0 = self.0 + 1;
        self.0 - 1
    }

    /// Shrink the stack and return the id of the slot that is gone.
    pub fn pop(&mut self) -> (r: StackVarId)
        requires
            1 <= old(self).0 <= 65536,
        ensures
            final(self).0 == old(self).0 - 1,
            r == final(self).0,
    {
        self.0 = self.0 - 1;
        self.0
    }

    /// The name of stack slot `i`.
    pub fn stack(&self, i: isize) -> (r: String)
        requires
            0 <= i,
        ensures
            r@ == stack_name(i as nat),
    {
        stack_ident(i as usize)
    }

    /// The name of local slot `i`.
    pub fn local(&self, i: usize) -> (r: String)
        ensures
            r@ == local_name(i as nat),
    {
        local_ident(i)
    }

    /// Lift a writable location, consuming the stack slots it reads.
    pub fn make_stack_vars_lvalue(&mut self, lv: &LValue, metadata: &Metadata, block: Label)
        -> (r: Result<Assignable, Error>)
        requires
            0 <= old(self).0 <= 65535,
            metadata.wf(),
        ensures
            match r {
                Ok(a) => spec_lift_lvalue(*lv, *metadata, old(self).0 as int) matches Some((av, t))
                    && assignable_model(a) == av && final(self).0 == t && t <= old(self).0,
                Err(e) => spec_lift_lvalue(*lv, *metadata, old(self).0 as int) is None
                    && *final(self) == *old(self) && !(e matches Error::StackJoinMismatch { .. }),
            },
    {
        let ghost top0 = self.0 as int;
        match lv {
            LValue::Local(index) => Ok(Assignable::Variable(local_ident(*index), 0)),
            LValue::Stack(index) => {
                let idx = *index;
                if idx >= 0 || idx < -65536 {
                    return Err(Error::StackUnderflow { block });
                }
                let slot = self.0 + idx;
                if slot < 0 {
                    return Err(Error::StackUnderflow { block });
                }
                self.0 = self.0 - 1;
                Ok(Assignable::Variable(stack_ident(slot as usize), 0))
            }
            LValue::StaticField { field_ref } => {
                let field = match metadata.field_refs.get(*field_ref) {
                    Some(f) => f,
                    None => {
                        return Err(Error::UnresolvedConstant { index: *field_ref });
                    }
                };
                let class = match metadata.class_refs.get(field.class_ref) {
                    Some(c) => c,
                    None => {
                        return Err(Error::UnresolvedConstant { index: field.class_ref });
                    }
                };
                Ok(Assignable::Field { this: None, class: class.clone(), field: field.clone() })
            }
            LValue::InstanceField { object_stack_index, field_ref } => {
                let idx = *object_stack_index;
                if idx >= 0 || idx < -65536 {
                    return Err(Error::StackUnderflow { block });
                }
                let slot = self.0 + idx;
                if slot < 0 {
                    return Err(Error::StackUnderflow { block });
                }
                let field = match metadata.field_refs.get(*field_ref) {
                    Some(f) => f,
                    None => {
                        return Err(Error::UnresolvedConstant { index: *field_ref });
                    }
                };
                let class = match metadata.class_refs.get(field.class_ref) {
                    Some(c) => c,
                    None => {
                        return Err(Error::UnresolvedConstant { index: field.class_ref });
                    }
                };
                self.0 = self.0 - 1;
                let this_name = stack_ident(slot as usize);
                proof {
                    assert(slot as int == top0 + idx as int);
                    assert(this_name@ == stack_name((slot as usize) as nat));
                    assert((slot as usize) as nat == (top0 + idx as int) as nat);
                    assert(this_name@ == stack_name((top0 + idx as int) as nat));
                }
                let this_var = mk_variable(this_name);
                proof {
                    assert(this_var == Expr::Assignable(Box::new(Assignable::Variable(this_name, 0))));
                    assert(assignable_model(Assignable::Variable(this_name, 0))
                        == AssignableV::Variable(this_name@, 0));
                    assert(expr_model(this_var) == ExprV::Assignable(Box::new(
                        assignable_model(Assignable::Variable(this_name, 0)),
                    )));
                    assert(expr_model(this_var) =~~= var_expr(this_name@));
                    assert(expr_model(this_var) =~~= var_expr(stack_name((top0 + idx as int) as nat)));
                }
                let a = Assignable::Field {
                    this: Some(Box::new(this_var)),
                    class: class.clone(),
                    field: field.clone(),
                };
                proof {
                    assert(*lv == (LValue::InstanceField {
                        object_stack_index: idx,
                        field_ref: *field_ref,
                    }));
                    assert(idx < 0 && 0 <= top0 + idx as int);
                    assert(metadata.field_refs@.dom().contains(*field_ref));
                    assert(metadata.class_refs@.dom().contains(metadata.field_refs@[*field_ref].class_ref));
                    assert(spec_lift_lvalue(*lv, *metadata, top0) is Some);
                    let av = spec_lift_lvalue(*lv, *metadata, top0).unwrap().0;
                    assert(assignable_model(a) is Field && av is Field);
                    assert(assignable_model(a)->Field_this =~~= av->Field_this);
                    assert(assignable_model(a)->Field_class =~~= av->Field_class);
                    assert(assignable_model(a)->Field_field =~~= av->Field_field);
                    assert(assignable_model(a) =~~= av);
                }
                Ok(a)
            }
        }
    }

    /// Lift a readable operand, consuming the stack slots it reads.
    pub fn make_stack_vars_rvalue(&mut self, rv: &RValue, metadata: &Metadata, block: Label)
        -> (r: Result<Expr, Error>)
        requires
            0 <= old(self).0 <= 65535,
            metadata.wf(),
        ensures
            match r {
                Ok(e) => spec_lift_rvalue(*rv, *metadata, old(self).0 as int) matches Some((ev, t))
                    && expr_model(e) == ev && final(self).0 == t && t <= old(self).0,
                Err(e) => spec_lift_rvalue(*rv, *metadata, old(self).0 as int) is None
                    && *final(self) == *old(self) && !(e matches Error::StackJoinMismatch { .. }),
            },
    {
        match rv {
            RValue::Constant(literal) => Ok(Expr::Literal(literal.clone())),
            RValue::ConstantRef { const_ref } => {
                match metadata.literals.get(*const_ref) {
                    Some(lit) => Ok(Expr::Literal(lit.clone())),
                    None => Err(Error::UnresolvedConstant { index: *const_ref }),
                }
            }
            RValue::LValue(lvalue) => {
                let a = self.make_stack_vars_lvalue(lvalue, metadata, block)?;
                Ok(Expr::Assignable(Box::new(a)))
            }
        }
    }

    /// Lift a branch condition into a comparison of slot variables.
    pub fn cond_to_expr(&mut self, cond: &JumpCondition, block: Label) -> (r: Result<Expr, Error>)
        requires
            0 <= old(self).0 <= 65535,
        ensures
            match r {
                Ok(e) => spec_cond_to_expr(*cond, old(self).0 as int) matches Some((ev, t))
                    && expr_model(e) == ev && final(self).0 == t && 0 <= t,
                Err(e) => spec_cond_to_expr(*cond, old(self).0 as int) is None
                    && *final(self) == *old(self) && !(e matches Error::StackJoinMismatch { .. }),
            },
    {
        let ghost top0 = self.0 as int;
        match cond {
            JumpCondition::CmpZero(ord) => {
                proof {
                    assert(*cond == JumpCondition::CmpZero(*ord));
                }
                if self.0 < 1 {
                    return Err(Error::StackUnderflow { block });
                }
                let v = self.pop();
                let vn = self.stack(v);
                let va = mk_variable(vn);
                proof {
                    assert(va == Expr::Assignable(Box::new(Assignable::Variable(vn, 0))));
                    assert(assignable_model(Assignable::Variable(vn, 0))
                        == AssignableV::Variable(vn@, 0));
                    assert(expr_model(va) == var_expr(stack_name((top0 - 1) as nat)));
                }
                let zero = Expr::Literal(JavaConstant::Integer(0));
                proof {
                    assert(java_constant_model(JavaConstant::Integer(0))
                        == crate::unit::JavaConstantV::Integer(0));
                    assert(expr_model(zero) == ExprV::Literal(crate::unit::JavaConstantV::Integer(0)));
                }
                let e = Expr::BinaryOp(BinOp::Cmp(*ord), Box::new(va), Box::new(zero));
                proof {
                    assert(expr_model(e) == ExprV::BinaryOp(
                        BinOp::Cmp(*ord),
                        Box::new(expr_model(va)),
                        Box::new(expr_model(zero)),
                    ));
                    assert(expr_model(e) =~~= spec_cond_to_expr(*cond, top0).unwrap().0);
                }
                Ok(e)
            }
            JumpCondition::Cmp(ord) | JumpCondition::CmpRef(ord) => {
                proof {
                    assert(*cond == JumpCondition::Cmp(*ord) || *cond == JumpCondition::CmpRef(
                        *ord,
                    ));
                }
                if self.0 < 2 {
                    return Err(Error::StackUnderflow { block });
                }
                let w = self.pop();
                let v = self.pop();
                let vn = self.stack(v);
                let va = mk_variable(vn);
                let wn = self.stack(w);
                let wa = mk_variable(wn);
                proof {
                    assert(assignable_model(Assignable::Variable(vn, 0))
                        == AssignableV::Variable(vn@, 0));
                    assert(assignable_model(Assignable::Variable(wn, 0))
                        == AssignableV::Variable(wn@, 0));
                    assert(expr_model(va) == var_expr(stack_name((top0 - 2) as nat)));
                    assert(expr_model(wa) == var_expr(stack_name((top0 - 1) as nat)));
                }
                let e = Expr::BinaryOp(BinOp::Cmp(*ord), Box::new(va), Box::new(wa));
                proof {
                    assert(expr_model(e) == ExprV::BinaryOp(
                        BinOp::Cmp(*ord),
                        Box::new(expr_model(va)),
                        Box::new(expr_model(wa)),
                    ));
                    assert(expr_model(e) =~~= spec_cond_to_expr(*cond, top0).unwrap().0);
                }
                Ok(e)
            }
        }
    }
}

} // verus!

verus! {

/// Whether a type is `void`.
fn is_void(t: &Type) -> (r: bool)
    ensures
        r == (*t == Type::Void),
{
    match t {
        Type::Void => true,
        _ => false,
    }
}

impl StackLayout {
    /// Interpret one instruction on the symbolic stack and emit the
    /// three-address statements it stands for.
    pub fn execute(&mut self, instruction: &Instruction, metadata: &Metadata, block: Label)
        -> (r: Result<Vec<Statement>, Error>)
        requires
            0 <= old(self).0 <= 65535,
            metadata.wf(),
        ensures
            match r {
                Ok(stmts) => spec_execute(*instruction, *metadata, old(self).0 as int)
                    matches Some((sv, t)) && crate::ast::stmts_model(stmts@) == sv
                    && final(self).0 == t && 0 <= t <= 65535,
                Err(e) => spec_execute(*instruction, *metadata, old(self).0 as int) is None
                    && *final(self) == *old(self) && !(e matches Error::StackJoinMismatch { .. }),
            },
    {
        let ghost top0 = self.0 as int;
        match instruction {
            Instruction::Nop => {
                let stmts: Vec<Statement> = Vec::new();
                proof {
                    assert(crate::ast::stmts_model(stmts@) =~= Seq::<StatementV>::empty());
                }
                Ok(stmts)
            }
            Instruction::Load(rvalue) => {
                let mut lay = *self;
                let e = match lay.make_stack_vars_rvalue(rvalue, metadata, block) {
                    Ok(e) => e,
                    Err(err) => {
                        return Err(err);
                    }
                };
                if lay.0 >= 65535 {
                    return Err(Error::StackOverflow { block });
                }
                let top = lay.push();
                let name = stack_ident(top as usize);
                proof {
                    assert(assignable_model(Assignable::Variable(name, 0))
                        == AssignableV::Variable(name@, 0));
                }
                let stmt = stmt_expr(Expr::Assign {
                    to: Box::new(Assignable::Variable(name, 0)),
                    op: None,
                    from: Box::new(e),
                });
                let mut stmts: Vec<Statement> = Vec::new();
                stmts.push(stmt);
                *self = lay;
                proof {
                    let (ev, t) = spec_lift_rvalue(*rvalue, *metadata, top0).unwrap();
                    assert(stmt_model(stmt) == assign_stmt(AssignableV::Variable(stack_name(t as nat), 0), ev));
                    assert(crate::ast::stmts_model(stmts@) =~= spec_execute(*instruction, *metadata, top0).unwrap().0);
                }
                Ok(stmts)
            }
            Instruction::Store(to) => {
                let mut lay = *self;
                let pre = lay.0;
                let assignable = match lay.make_stack_vars_lvalue(to, metadata, block) {
                    Ok(a) => a,
                    Err(err) => {
                        return Err(err);
                    }
                };
                if lay.0 < 1 || pre < 1 {
                    return Err(Error::StackUnderflow { block });
                }
                let _ = lay.pop();
                let name = stack_ident((pre - 1) as usize);
                proof {
                    assert(assignable_model(Assignable::Variable(name, 0))
                        == AssignableV::Variable(name@, 0));
                    assert(expr_model(Expr::Assignable(Box::new(Assignable::Variable(name, 0))))
                        == var_expr(name@));
                }
                let from_var = mk_variable(name);
                proof {
                    assert(expr_model(from_var) == var_expr(from_var->Assignable_0->Variable_0@));
                }
                let stmt = stmt_expr(Expr::Assign {
                    to: Box::new(assignable),
                    op: None,
                    from: Box::new(from_var),
                });
                let mut stmts: Vec<Statement> = Vec::new();
                stmts.push(stmt);
                *self = lay;
                proof {
                    let (av, t) = spec_lift_lvalue(*to, *metadata, top0).unwrap();
                    assert(stmt_model(stmt) == assign_stmt(av, var_expr(stack_name((top0 - 1) as nat))));
                    assert(crate::ast::stmts_model(stmts@) =~= spec_execute(*instruction, *metadata, top0).unwrap().0);
                }
                Ok(stmts)
            }
            Instruction::Arithm(arithm) => self.execute_arithm(arithm, block, Ghost(top0), Ghost(*instruction), Ghost(*metadata)),
            Instruction::Invoke(invoke) => self.execute_invoke(invoke, metadata, block, Ghost(top0), Ghost(*instruction)),
            Instruction::Return(value) => {
                match value {
                    Some(_) => {
                        if self.0 < 1 {
                            return Err(Error::StackUnderflow { block });
                        }
                        if self.0 != 1 {
                            return Err(Error::NonEmptyStackAtReturn { block });
                        }
                        let top = self.pop();
                        let name = stack_ident(top as usize);
                        proof {
                            assert(assignable_model(Assignable::Variable(name, 0))
                                == AssignableV::Variable(name@, 0));
                        }
                        let rv = mk_variable(name);
                        proof {
                            assert(expr_model(rv) == var_expr(stack_name(0)));
                        }
                        let stmt = Statement::Return(Some(rv));
                        let mut stmts: Vec<Statement> = Vec::new();
                        stmts.push(stmt);
                        proof {
                            assert(stmt_model(stmt) == StatementV::Return(Some(var_expr(stack_name(0)))));
                            assert(crate::ast::stmts_model(stmts@) =~= spec_execute(*instruction, *metadata, top0).unwrap().0);
                        }
                        Ok(stmts)
                    }
                    None => {
                        if self.0 != 0 {
                            return Err(Error::NonEmptyStackAtReturn { block });
                        }
                        let stmt = Statement::Return(None);
                        let mut stmts: Vec<Statement> = Vec::new();
                        stmts.push(stmt);
                        proof {
                            assert(stmt_model(stmt) == StatementV::Return(None));
                            assert(crate::ast::stmts_model(stmts@) =~= spec_execute(*instruction, *metadata, top0).unwrap().0);
                        }
                        Ok(stmts)
                    }
                }
            }
            Instruction::Jump(_) => Err(Error::UnsupportedInstruction { block }),
            Instruction::TypeConv(_) => Err(Error::UnsupportedInstruction { block }),
            Instruction::ObjManip(_) => Err(Error::UnsupportedInstruction { block }),
            Instruction::StackManage(_) => Err(Error::UnsupportedInstruction { block }),
            Instruction::Throw => Err(Error::UnsupportedInstruction { block }),
            Instruction::Synchronized(_) => Err(Error::UnsupportedInstruction { block }),
        }
    }

    /// The arithmetic arm of `execute`.
    fn execute_arithm(&mut self, arithm: &Arithm, block: Label, Ghost(top0): Ghost<int>, Ghost(instr): Ghost<Instruction>, Ghost(md): Ghost<Metadata>)
        -> (r: Result<Vec<Statement>, Error>)
        requires
            0 <= old(self).0 <= 65535,
            top0 == old(self).0 as int,
            instr == Instruction::Arithm(*arithm),
        ensures
            match r {
                Ok(stmts) => spec_execute(instr, md, top0) matches Some((sv, t))
                    && crate::ast::stmts_model(stmts@) == sv
                    && final(self).0 == t && 0 <= t <= 65535,
                Err(e) => spec_execute(instr, md, top0) is None && *final(self) == *old(self)
                    && !(e matches Error::StackJoinMismatch { .. }),
            },
    {
        match arithm {
            Arithm::UnaryOp(op) => {
                if self.0 < 1 {
                    return Err(Error::StackUnderflow { block });
                }
                let v = self.pop();
                let res = self.push();
                let rname = stack_ident(res as usize);
                let vname = stack_ident(v as usize);
                proof {
                    assert(assignable_model(Assignable::Variable(rname, 0))
                        == AssignableV::Variable(rname@, 0));
                    assert(assignable_model(Assignable::Variable(vname, 0))
                        == AssignableV::Variable(vname@, 0));
                }
                let operand = mk_variable(vname);
                proof {
                    assert(expr_model(operand) == var_expr(stack_name((top0 - 1) as nat)));
                }
                let from = Expr::UnaryOp(convert_un_op(*op), Box::new(operand));
                proof {
                    assert(expr_model(from) == ExprV::UnaryOp(spec_convert_un_op(*op), Box::new(expr_model(operand))));
                }
                let stmt = stmt_expr(Expr::Assign {
                    to: Box::new(Assignable::Variable(rname, 0)),
                    op: None,
                    from: Box::new(from),
                });
                let mut stmts: Vec<Statement> = Vec::new();
                stmts.push(stmt);
                proof {
                    assert(crate::ast::stmts_model(stmts@) =~= spec_execute(instr, md, top0).unwrap().0);
                }
                Ok(stmts)
            }
            Arithm::BinaryOp(op) => {
                if self.0 < 2 {
                    return Err(Error::StackUnderflow { block });
                }
                let w = self.pop();
                let v = self.pop();
                let res = self.push();
                let rname = stack_ident(res as usize);
                let vname = stack_ident(v as usize);
                let wname = stack_ident(w as usize);
                proof {
                    assert(assignable_model(Assignable::Variable(rname, 0))
                        == AssignableV::Variable(rname@, 0));
                    assert(assignable_model(Assignable::Variable(vname, 0))
                        == AssignableV::Variable(vname@, 0));
                    assert(assignable_model(Assignable::Variable(wname, 0))
                        == AssignableV::Variable(wname@, 0));
                }
                let left = mk_variable(vname);
                let right = mk_variable(wname);
                proof {
                    assert(expr_model(left) == var_expr(stack_name((top0 - 2) as nat)));
                    assert(expr_model(right) == var_expr(stack_name((top0 - 1) as nat)));
                }
                let from = Expr::BinaryOp(convert_bin_op(*op), Box::new(left), Box::new(right));
                proof {
                    assert(expr_model(from) == ExprV::BinaryOp(
                        spec_convert_bin_op(*op),
                        Box::new(expr_model(left)),
                        Box::new(expr_model(right)),
                    ));
                }
                let stmt = stmt_expr(Expr::Assign {
                    to: Box::new(Assignable::Variable(rname, 0)),
                    op: None,
                    from: Box::new(from),
                });
                let mut stmts: Vec<Statement> = Vec::new();
                stmts.push(stmt);
                proof {
                    assert(crate::ast::stmts_model(stmts@) =~= spec_execute(instr, md, top0).unwrap().0);
                }
                Ok(stmts)
            }
            Arithm::IncreaseLocal { local_index, increase } => {
                let lname = local_ident(*local_index as usize);
                proof {
                    assert(assignable_model(Assignable::Variable(lname, 0))
                        == AssignableV::Variable(lname@, 0));
                }
                let lit = Expr::Literal(JavaConstant::Integer(*increase as i32));
                proof {
                    assert(expr_model(lit) == ExprV::Literal(crate::unit::JavaConstantV::Integer(*increase as i32)));
                }
                let stmt = stmt_expr(Expr::Assign {
                    to: Box::new(Assignable::Variable(lname, 0)),
                    op: Some(BinOp::Add),
                    from: Box::new(lit),
                });
                let mut stmts: Vec<Statement> = Vec::new();
                stmts.push(stmt);
                proof {
                    assert(crate::ast::stmts_model(stmts@) =~= spec_execute(instr, md, top0).unwrap().0);
                }
                Ok(stmts)
            }
        }
    }

    /// The invocation arm of `execute`.
    fn execute_invoke(&mut self, invoke: &Invoke, metadata: &Metadata, block: Label, Ghost(top0): Ghost<int>, Ghost(instr): Ghost<Instruction>)
        -> (r: Result<Vec<Statement>, Error>)
        requires
            0 <= old(self).0 <= 65535,
            top0 == old(self).0 as int,
            instr == Instruction::Invoke(*invoke),
            metadata.wf(),
        ensures
            match r {
                Ok(stmts) => spec_execute(instr, *metadata, top0) matches Some((sv, t))
                    && crate::ast::stmts_model(stmts@) == sv
                    && final(self).0 == t && 0 <= t <= 65535,
                Err(e) => spec_execute(instr, *metadata, top0) is None && *final(self)
                    == *old(self) && !(e matches Error::StackJoinMismatch { .. }),
            },
    {
        let method_ref = match metadata.method_refs.get(invoke.method_index) {
            Some(m) => m,
            None => {
                return Err(Error::UnresolvedConstant { index: invoke.method_index });
            }
        };
        let class_ref = match metadata.class_refs.get(method_ref.class_ref) {
            Some(c) => c,
            None => {
                return Err(Error::UnresolvedConstant { index: method_ref.class_ref });
            }
        };
        let args_count = method_ref.signature.parameters.len();
        if args_count > 65535 || self.0 < args_count as isize {
            return Err(Error::StackUnderflow { block });
        }
        let mut lay = *self;
        lay.0 = lay.0 - args_count as isize;
        let t1 = lay.0;
        let mut args: Vec<Expr> = Vec::new();
        let mut i: usize = 0;
        while i < args_count
            invariant
                0 <= t1,
                t1 + args_count <= 65535,
                0 <= i <= args_count,
                args@.len() == i as int,
                forall|j: int| 0 <= j < i ==> expr_model(#[trigger] args@[j]) == var_expr(
                    stack_name((t1 + j) as nat),
                ),
            decreases args_count - i,
        {
            let name = stack_ident(t1 as usize + i);
            proof {
                assert(assignable_model(Assignable::Variable(name, 0))
                    == AssignableV::Variable(name@, 0));
            }
            let arg = mk_variable(name);
            proof {
                assert(expr_model(arg) == var_expr(stack_name((t1 + i) as nat)));
            }
            args.push(arg);
            i = i + 1;
        }
        proof {
            assert(exprs_model(args@) =~= arg_vars(t1 as int, top0));
        }
        let this_object = match invoke.kind {
            InvokeKind::Special | InvokeKind::Virtual => {
                if lay.0 < 1 {
                    return Err(Error::StackUnderflow { block });
                }
                let top = lay.pop();
                let name = stack_ident(top as usize);
                proof {
                    assert(assignable_model(Assignable::Variable(name, 0))
                        == AssignableV::Variable(name@, 0));
                }
                let recv = mk_variable(name);
                proof {
                    assert(expr_model(recv) == var_expr(stack_name((t1 - 1) as nat)));
                }
                Some(Box::new(recv))
            }
            InvokeKind::Static => None,
        };
        let method_call = Expr::Invoke(this_object, method_ref.clone(), class_ref.clone(), args);
        proof {
            let m = metadata.method_refs@[invoke.method_index];
            let spec_call = ExprV::Invoke(
                if invoke.kind is Static {
                    None
                } else {
                    Some(Box::new(var_expr(stack_name((t1 - 1) as nat))))
                },
                method_ref_model(m),
                class_ref_model(metadata.class_refs@[m.class_ref]),
                arg_vars(t1 as int, top0),
            );
            assert(expr_model(method_call) is Invoke);
            assert(expr_model(method_call)->Invoke_0 =~~= spec_call->Invoke_0);
            assert(expr_model(method_call)->Invoke_1 =~~= spec_call->Invoke_1);
            assert(expr_model(method_call)->Invoke_2 =~~= spec_call->Invoke_2);
            assert(expr_model(method_call)->Invoke_3 =~~= spec_call->Invoke_3);
            assert(expr_model(method_call) =~~= spec_call);
        }
        if is_void(&method_ref.signature.return_type) {
            let stmt = stmt_expr(method_call);
            let mut stmts: Vec<Statement> = Vec::new();
            stmts.push(stmt);
            *self = lay;
            proof {
                assert(crate::ast::stmts_model(stmts@) =~= spec_execute(instr, *metadata, top0).unwrap().0);
            }
            Ok(stmts)
        } else {
            if lay.0 >= 65535 {
                return Err(Error::StackOverflow { block });
            }
            let result = lay.push();
            let rname = stack_ident(result as usize);
            proof {
                assert(assignable_model(Assignable::Variable(rname, 0))
                    == AssignableV::Variable(rname@, 0));
            }
            let stmt = stmt_expr(Expr::Assign {
                from: Box::new(method_call),
                op: None,
                to: Box::new(Assignable::Variable(rname, 0)),
            });
            let mut stmts: Vec<Statement> = Vec::new();
            stmts.push(stmt);
            *self = lay;
            proof {
                assert(crate::ast::stmts_model(stmts@) =~= spec_execute(instr, *metadata, top0).unwrap().0);
            }
            Ok(stmts)
        }
    }
}

} // verus!

verus! {

/// Lifted operands only name handed-out variables.
proof fn lemma_lift_lvalue_ok(lv: LValue, md: Metadata, top: int)
    ensures
        spec_lift_lvalue(lv, md, top) matches Some((av, t)) ==> assignablev_vars_ok(av),
{
    if spec_lift_lvalue(lv, md, top) is Some {
        let av = spec_lift_lvalue(lv, md, top).unwrap().0;
        match lv {
            LValue::Local(i) => {
                assert(ident_ok(local_name(i as nat)));
            }
            LValue::Stack(idx) => {
                assert(ident_ok(stack_name((top + idx as int) as nat)));
            }
            LValue::StaticField { .. } => {}
            LValue::InstanceField { object_stack_index, .. } => {
                let slot = top + object_stack_index as int;
                lemma_var_expr_ok(slot as nat);
                assert(assignablev_vars_ok(av));
            }
        }
    }
}

proof fn lemma_lift_rvalue_ok(rv: RValue, md: Metadata, top: int)
    ensures
        spec_lift_rvalue(rv, md, top) matches Some((ev, t)) ==> exprv_vars_ok(ev),
{
    match rv {
        RValue::LValue(lv) => {
            lemma_lift_lvalue_ok(lv, md, top);
        }
        _ => {}
    }
}

/// A variable of a handed-out name is a well-named expression.
proof fn lemma_var_expr_ok(k: nat)
    ensures
        exprv_vars_ok(var_expr(stack_name(k))),
        ident_ok(stack_name(k)),
        assignablev_vars_ok(AssignableV::Variable(stack_name(k), 0)),
{
    assert(ident_ok(stack_name(k)));
    assert(assignablev_vars_ok(AssignableV::Variable(stack_name(k), 0)));
    assert(var_expr(stack_name(k)) == ExprV::Assignable(Box::new(AssignableV::Variable(stack_name(k), 0))));
    assert(exprv_vars_ok(var_expr(stack_name(k))));
}

/// Everything the lifter emits is a plain statement over handed-out
/// names: the heart of the claim that no raw stack slot survives.
pub proof fn lemma_execute_ok(instr: Instruction, md: Metadata, top: int)
    ensures
        spec_execute(instr, md, top) matches Some((sv, t)) ==> forall|i: int|
            0 <= i < sv.len() ==> stmtv_lifted_ok(#[trigger] sv[i]),
{
    if spec_execute(instr, md, top) is Some {
        let sv = spec_execute(instr, md, top).unwrap().0;
        match instr {
            Instruction::Load(rv) => {
                lemma_lift_rvalue_ok(rv, md, top);
                let (ev, t) = spec_lift_rvalue(rv, md, top).unwrap();
                lemma_var_expr_ok(t as nat);
                let target = AssignableV::Variable(stack_name(t as nat), 0);
                assert(exprv_vars_ok(ExprV::Assign {
                    to: Box::new(target),
                    op: None,
                    from: Box::new(ev),
                }));
                assert(sv[0] == assign_stmt(target, ev));
                assert(stmtv_lifted_ok(sv[0]));
            }
            Instruction::Store(lv) => {
                lemma_lift_lvalue_ok(lv, md, top);
                let (av, t) = spec_lift_lvalue(lv, md, top).unwrap();
                lemma_var_expr_ok((top - 1) as nat);
                assert(exprv_vars_ok(ExprV::Assign {
                    to: Box::new(av),
                    op: None,
                    from: Box::new(var_expr(stack_name((top - 1) as nat))),
                }));
                assert(sv[0] == assign_stmt(av, var_expr(stack_name((top - 1) as nat))));
                assert(stmtv_lifted_ok(sv[0]));
            }
            Instruction::Arithm(a) => {
                match a {
                    Arithm::UnaryOp(op) => {
                        lemma_var_expr_ok((top - 1) as nat);
                        assert(exprv_vars_ok(ExprV::UnaryOp(
                            spec_convert_un_op(op),
                            Box::new(var_expr(stack_name((top - 1) as nat))),
                        )));
                        assert(exprv_vars_ok(ExprV::Assign {
                            to: Box::new(AssignableV::Variable(stack_name((top - 1) as nat), 0)),
                            op: None,
                            from: Box::new(ExprV::UnaryOp(
                                spec_convert_un_op(op),
                                Box::new(var_expr(stack_name((top - 1) as nat))),
                            )),
                        }));
                        assert(stmtv_lifted_ok(sv[0]));
                    }
                    Arithm::BinaryOp(op) => {
                        lemma_var_expr_ok((top - 1) as nat);
                        lemma_var_expr_ok((top - 2) as nat);
                        assert(exprv_vars_ok(ExprV::BinaryOp(
                            spec_convert_bin_op(op),
                            Box::new(var_expr(stack_name((top - 2) as nat))),
                            Box::new(var_expr(stack_name((top - 1) as nat))),
                        )));
                        assert(exprv_vars_ok(ExprV::Assign {
                            to: Box::new(AssignableV::Variable(stack_name((top - 2) as nat), 0)),
                            op: None,
                            from: Box::new(ExprV::BinaryOp(
                                spec_convert_bin_op(op),
                                Box::new(var_expr(stack_name((top - 2) as nat))),
                                Box::new(var_expr(stack_name((top - 1) as nat))),
                            )),
                        }));
                        assert(stmtv_lifted_ok(sv[0]));
                    }
                    Arithm::IncreaseLocal { local_index, increase } => {
                        assert(ident_ok(local_name(local_index as nat)));
                        assert(assignablev_vars_ok(AssignableV::Variable(local_name(local_index as nat), 0)));
                        assert(exprv_vars_ok(ExprV::Literal(crate::unit::JavaConstantV::Integer(increase as i32))));
                        assert(exprv_vars_ok(ExprV::Assign {
                            to: Box::new(AssignableV::Variable(local_name(local_index as nat), 0)),
                            op: Some(BinOp::Add),
                            from: Box::new(ExprV::Literal(crate::unit::JavaConstantV::Integer(increase as i32))),
                        }));
                        assert(stmtv_lifted_ok(sv[0]));
                    }
                }
            }
            Instruction::Invoke(iv) => {
                let m = md.method_refs@[iv.method_index];
                let argc = m.signature.parameters@.len() as int;
                let t1 = top - argc;
                assert forall|j: int| 0 <= j < arg_vars(t1, top).len() implies exprv_vars_ok(
                    #[trigger] arg_vars(t1, top)[j],
                ) by {
                    lemma_var_expr_ok((t1 + j) as nat);
                }
                if !(iv.kind is Static) {
                    lemma_var_expr_ok((t1 - 1) as nat);
                }
                let receiver = if iv.kind is Static {
                    None
                } else {
                    Some(Box::new(var_expr(stack_name((t1 - 1) as nat))))
                };
                let t2 = if iv.kind is Static { t1 } else { t1 - 1 };
                let call = ExprV::Invoke(
                    receiver,
                    method_ref_model(m),
                    class_ref_model(md.class_refs@[m.class_ref]),
                    arg_vars(t1, top),
                );
                assert(exprv_vars_ok(call));
                if m.signature.return_type == Type::Void {
                    assert(sv[0] == StatementV::Expr(call));
                    assert(stmtv_lifted_ok(sv[0]));
                } else {
                    lemma_var_expr_ok(t2 as nat);
                    assert(exprv_vars_ok(ExprV::Assign {
                        to: Box::new(AssignableV::Variable(stack_name(t2 as nat), 0)),
                        op: None,
                        from: Box::new(call),
                    }));
                    assert(sv[0] == assign_stmt(AssignableV::Variable(stack_name(t2 as nat), 0), call));
                    assert(stmtv_lifted_ok(sv[0]));
                }
            }
            Instruction::Return(v) => {
                lemma_var_expr_ok(0);
                match v {
                    Some(_) => {
                        assert(sv[0] == StatementV::Return(Some(var_expr(stack_name(0)))));
                        assert(stmtv_lifted_ok(sv[0]));
                    }
                    None => {
                        assert(sv[0] == StatementV::Return(None::<ExprV>));
                        assert(stmtv_lifted_ok(sv[0]));
                    }
                }
            }
            _ => {}
        }
    }
}

/// The symbolic stack is empty after every return the lifter
/// accepts: a return either takes the single remaining value or
/// finds none, and leaves none behind.
pub proof fn lemma_return_empties_stack(v: Option<()>, md: Metadata, top: int)
    ensures
        spec_execute(Instruction::Return(v), md, top) matches Some((sv, t)) ==> t == 0,
{
}

/// Lifted branch conditions only name handed-out variables.
pub proof fn lemma_cond_ok(cond: JumpCondition, top: int)
    ensures
        spec_cond_to_expr(cond, top) matches Some((ev, t)) ==> exprv_vars_ok(ev),
{
    if spec_cond_to_expr(cond, top) is Some {
        let ev = spec_cond_to_expr(cond, top).unwrap().0;
        match cond {
            JumpCondition::CmpZero(ord) => {
                lemma_var_expr_ok((top - 1) as nat);
                assert(exprv_vars_ok(ExprV::Literal(crate::unit::JavaConstantV::Integer(0))));
                assert(ev == ExprV::BinaryOp(
                    BinOp::Cmp(ord),
                    Box::new(var_expr(stack_name((top - 1) as nat))),
                    Box::new(ExprV::Literal(crate::unit::JavaConstantV::Integer(0))),
                ));
                assert(exprv_vars_ok(ev));
            }
            JumpCondition::Cmp(ord) | JumpCondition::CmpRef(ord) => {
                lemma_var_expr_ok((top - 1) as nat);
                lemma_var_expr_ok((top - 2) as nat);
                assert(ev == ExprV::BinaryOp(
                    BinOp::Cmp(ord),
                    Box::new(var_expr(stack_name((top - 2) as nat))),
                    Box::new(var_expr(stack_name((top - 1) as nat))),
                ));
                assert(exprv_vars_ok(ev));
            }
        }
    }
}

/// A block of lifted statements: plain work over handed-out names,
/// with a lifted branch condition if any.
pub open spec fn lifted_block_ok(bb: BasicBlock<Statement, Expr>) -> bool {
    &&& forall|i: int| 0 <= i < bb.stmts@.len() ==> stmtv_lifted_ok(stmt_model(#[trigger] bb.stmts@[i]))
    &&& bb.terminator matches Some(c) ==> exprv_vars_ok(expr_model(c))
}

/// Lift every block of one method's control-flow graph, checking that
/// the symbolic stacks agree wherever paths join.  On success the
/// output is, block for block, the fold of the per-instruction
/// semantics from a consistent assignment of entry heights.
#[verifier::rlimit(90)]
pub fn transform(cfg: Cfg<Instruction, JumpCondition>, metadata: &Metadata)
    -> (r: Result<Cfg<Statement, Expr>, Error>)
    requires
        cfg.wf(),
        metadata.wf(),
    ensures
        match r {
            Ok(c) => {
                &&& c.wf()
                &&& c.graph.edges@ == cfg.graph.edges@
                &&& c.graph.nodes@.len() == cfg.graph.nodes@.len()
                &&& c.entry_point == cfg.entry_point
                &&& c.exit_point == cfg.exit_point
                &&& forall|b: int| 0 <= b < c.graph.nodes@.len() ==> lifted_block_ok(
                    #[trigger] c.graph.nodes@[b],
                )
                &&& exists|heights: Seq<Option<int>>| lifted_from(cfg, c, *metadata, heights)
            },
            Err(e) => {
                &&& !(exists|heights: Seq<Option<int>>| liftable_heights(
                    cfg,
                    *metadata,
                    heights,
                ))
                &&& (e matches Error::StackJoinMismatch { block, expected, found } ==> block
                    < cfg.graph.nodes@.len() && expected != found)
            },
        },
{
    let n = cfg.graph.node_count();
    let mut stack_at: Vec<Option<StackLayout>> = Vec::new();
    let mut new_nodes: Vec<BasicBlock<Statement, Expr>> = Vec::new();
    let mut processed: Vec<bool> = Vec::new();
    let mut i: usize = 0;
    while i < n
        invariant
            0 <= i <= n,
            stack_at@.len() == i,
            new_nodes@.len() == i,
            processed@.len() == i,
            forall|j: int| 0 <= j < i ==> (#[trigger] stack_at@[j]) is None,
            forall|j: int| 0 <= j < i ==> (#[trigger] processed@[j]) == false,
            forall|j: int| 0 <= j < i ==> (#[trigger] new_nodes@[j]).stmts@.len() == 0
                && new_nodes@[j].terminator is None,
        decreases n - i,
    {
        stack_at.push(None);
        new_nodes.push(BasicBlock::empty());
        processed.push(false);
        i = i + 1;
    }
    stack_at.set(0, Some(StackLayout::new()));

    let mut work: Vec<Label> = Vec::new();
    work.push(0);
    let mut processed_count: usize = 0;
    proof {
        lemma_filter_all_false(processed@);
        assert(work@[0] == 0usize);
        assert(work@.contains(0usize));
        assert forall|hs: Seq<Option<int>>| #[trigger] liftable_heights(cfg, *metadata, hs)
            implies forall|b2: int| 0 <= b2 < n ==> ((#[trigger] stack_at@[b2]) matches Some(s2)
                ==> hs[b2] == Some(s2.0 as int)) by {
            assert forall|b2: int| 0 <= b2 < n implies ((#[trigger] stack_at@[b2])
                matches Some(s2) ==> hs[b2] == Some(s2.0 as int)) by {
                if stack_at@[b2] is Some {
                    assert(b2 == 0);
                }
            }
        }
    }
    while work.len() > 0
        invariant
            cfg.wf(),
            metadata.wf(),
            n == cfg.graph.nodes@.len(),
            n >= 1,
            stack_at@.len() == n,
            new_nodes@.len() == n,
            processed@.len() == n,
            processed_count <= n,
            stack_at@[0] matches Some(s0) && s0.0 == 0,
            forall|j: int| 0 <= j < work@.len() ==> (#[trigger] work@[j]) < n
                && stack_at@[work@[j] as int] is Some,
            forall|j: int| 0 <= j < n ==> ((#[trigger] stack_at@[j]) matches Some(s)
                ==> 0 <= s.0 <= 65535),
            forall|hs: Seq<Option<int>>| #[trigger] liftable_heights(cfg, *metadata, hs)
                ==> forall|b2: int| 0 <= b2 < n ==> ((#[trigger] stack_at@[b2]) matches Some(s2)
                    ==> hs[b2] == Some(s2.0 as int)),
            forall|j: int| 0 <= j < n ==> lifted_block_ok(#[trigger] new_nodes@[j]),
            forall|b: int| 0 <= b < n && !(#[trigger] processed@[b]) ==> new_nodes@[b].stmts@.len()
                == 0 && new_nodes@[b].terminator is None,
            forall|b: int| 0 <= b < n && #[trigger] processed@[b] ==> stack_at@[b] is Some,
            forall|b: int| 0 <= b < n && (#[trigger] stack_at@[b]) is Some ==> processed@[b]
                || work@.contains(b as usize),
            forall|b: int| 0 <= b < n && #[trigger] processed@[b] ==> {
                let h = stack_at@[b].unwrap().0 as int;
                &&& block_lifted_from(cfg.graph.nodes@[b], new_nodes@[b], *metadata, h)
                &&& forall|j: int| 0 <= j < out_edges_spec(cfg.graph.edges@, b as usize).len()
                    ==> {
                        let w = (#[trigger] out_edges_spec(cfg.graph.edges@, b as usize)[j]).0 as int;
                        &&& 0 <= w < n
                        &&& stack_at@[w] matches Some(sw) && sw.0 as int == block_out_height(
                            cfg.graph.nodes@[b],
                            *metadata,
                            h,
                        )
                    }
            },
            processed_count == Seq::new(processed@.len(), |j: int| processed@[j]).filter(
                |x: bool| x,
            ).len(),
        decreases n - processed_count, work@.len(),
    {
        let ghost work_before = work@;
        let v = match work.pop() {
            Some(v) => v,
            None => {
                proof {
                    // This arm is provably dead.
                    assert(false);
                }
                return Err(Error::StackUnderflow { block: 0 });
            }
        };
        proof {
            assert(work_before.last() == v);
            assert(work@ == work_before.drop_last());
        }
        if !processed[v] {
            let ghost processed0 = processed@;
            processed.set(v, true);
            proof {
                lemma_filter_update_true(processed0, v as int);
                assert forall|b: int| 0 <= b < n && (#[trigger] stack_at@[b]) is Some implies
                    processed@[b] || work@.contains(b as usize) by {
                    if !processed@[b] {
                        assert(!processed0[b]);
                        assert(work_before.contains(b as usize));
                        let idx = choose|idx: int| 0 <= idx < work_before.len()
                            && work_before[idx] == b as usize;
                        if idx == work_before.len() - 1 {
                            assert(b as usize == v);
                            assert(false);
                        } else {
                            assert(work@[idx] == b as usize);
                        }
                    }
                }
            }
            processed_count = processed_count + 1;

            let mut layout = match stack_at[v] {
                Some(s) => s,
                None => {
                    proof {
                        // This arm is provably dead.
                        assert(false);
                    }
                    return Err(Error::StackUnderflow { block: v });
                }
            };
            let ghost h0 = layout.0 as int;
            let bb = &cfg.graph.nodes[v];
            let mut out_stmts: Vec<Statement> = Vec::new();
            let mut k: usize = 0;
            let nk = bb.stmts.len();
            proof {
                assert(bb.stmts@.subrange(0, 0) =~= Seq::<Instruction>::empty());
                assert(crate::ast::stmts_model(out_stmts@) =~= Seq::<StatementV>::empty());
            }
            while k < nk
                invariant
                    metadata.wf(),
                    n == cfg.graph.nodes@.len(),
                    v < n,
                    bb == &cfg.graph.nodes@[v as int],
                    nk == bb.stmts@.len(),
                    0 <= k <= nk,
                    0 <= layout.0 <= 65535,
                    stack_at@.len() == n,
                    stack_at@[v as int] matches Some(sv) && sv.0 as int == h0,
                    forall|hs: Seq<Option<int>>| #[trigger] liftable_heights(cfg, *metadata, hs)
                        ==> forall|b2: int| 0 <= b2 < n ==> ((#[trigger] stack_at@[b2])
                            matches Some(s2) ==> hs[b2] == Some(s2.0 as int)),
                    spec_lift_block(bb.stmts@.subrange(0, k as int), *metadata, h0)
                        == Some((crate::ast::stmts_model(out_stmts@), layout.0 as int)),
                    forall|j: int| 0 <= j < out_stmts@.len() ==> stmtv_lifted_ok(stmt_model(
                        #[trigger] out_stmts@[j],
                    )),
                decreases nk - k,
            {
                let ghost lay0 = layout;
                let ghost out0 = out_stmts@;
                let mut emitted = match layout.execute(&bb.stmts[k], metadata, v) {
                    Ok(st) => st,
                    Err(e) => {
                        proof {
                            if exists|hs: Seq<Option<int>>| #[trigger] liftable_heights(
                                cfg,
                                *metadata,
                                hs,
                            ) {
                                let hs = choose|hs: Seq<Option<int>>| #[trigger] liftable_heights(
                                    cfg,
                                    *metadata,
                                    hs,
                                );
                                assert(hs[v as int] == Some(h0));
                                assert(spec_lift_block(
                                    cfg.graph.nodes@[v as int].stmts@,
                                    *metadata,
                                    h0,
                                ) is Some);
                                lemma_lift_block_stuck(bb.stmts@, *metadata, h0, k as int);
                                assert(false);
                            }
                        }
                        return Err(e);
                    }
                };
                proof {
                    lemma_execute_ok(bb.stmts@[k as int], *metadata, lay0.0 as int);
                    lemma_lift_block_snoc(
                        bb.stmts@.subrange(0, k as int),
                        bb.stmts@[k as int],
                        *metadata,
                        h0,
                    );
                    assert(bb.stmts@.subrange(0, k + 1) =~= bb.stmts@.subrange(0, k as int).push(
                        bb.stmts@[k as int],
                    ));
                    assert forall|j: int| 0 <= j < emitted@.len() implies stmtv_lifted_ok(
                        stmt_model(#[trigger] emitted@[j]),
                    ) by {
                        assert(stmt_model(emitted@[j]) == crate::ast::stmts_model(emitted@)[j]);
                    }
                }
                let mut m: usize = 0;
                let nm = emitted.len();
                while m < nm
                    invariant
                        nm == emitted@.len(),
                        0 <= m <= nm,
                        out_stmts@.len() == out0.len() + m,
                        forall|j: int| 0 <= j < out0.len() ==> #[trigger] out_stmts@[j] == out0[j],
                        forall|j: int| 0 <= j < m ==> stmt_model(
                            #[trigger] out_stmts@[out0.len() + j],
                        ) == stmt_model(emitted@[j]),
                        forall|j: int| 0 <= j < emitted@.len() ==> stmtv_lifted_ok(stmt_model(
                            #[trigger] emitted@[j],
                        )),
                        forall|j: int| 0 <= j < out_stmts@.len() ==> stmtv_lifted_ok(stmt_model(
                            #[trigger] out_stmts@[j],
                        )),
                    decreases nm - m,
                {
                    let st = emitted[m].clone();
                    proof {
                        assert(stmt_model(st) == stmt_model(emitted@[m as int]));
                    }
                    out_stmts.push(st);
                    m = m + 1;
                }
                proof {
                    assert forall|j: int| 0 <= j < out_stmts@.len() implies crate::ast::stmts_model(
                        out_stmts@,
                    )[j] == (crate::ast::stmts_model(out0) + crate::ast::stmts_model(emitted@))[j] by {
                        if j < out0.len() {
                            assert(out_stmts@[j] == out0[j]);
                        } else {
                            assert(stmt_model(out_stmts@[out0.len() + (j - out0.len())])
                                == stmt_model(emitted@[j - out0.len()]));
                            assert(out0.len() + (j - out0.len()) == j);
                        }
                    }
                    assert(crate::ast::stmts_model(out_stmts@) =~= crate::ast::stmts_model(out0)
                        + crate::ast::stmts_model(emitted@));
                }
                k = k + 1;
            }
            proof {
                assert(bb.stmts@.subrange(0, nk as int) =~= bb.stmts@);
            }
            let ghost t_after = layout.0 as int;
            let terminator = match &bb.terminator {
                Some(cond) => {
                    let ghost lay1 = layout;
                    let e = match layout.cond_to_expr(cond, v) {
                        Ok(e) => e,
                        Err(err) => {
                            proof {
                                if exists|hs: Seq<Option<int>>| #[trigger] liftable_heights(
                                    cfg,
                                    *metadata,
                                    hs,
                                ) {
                                    let hs = choose|hs: Seq<Option<int>>|
                                        #[trigger] liftable_heights(cfg, *metadata, hs);
                                    assert(hs[v as int] == Some(h0));
                                    assert(spec_lift_block(
                                        cfg.graph.nodes@[v as int].stmts@,
                                        *metadata,
                                        h0,
                                    ).unwrap().1 == lay1.0 as int);
                                    assert(cfg.graph.nodes@[v as int].terminator
                                        matches Some(c2) && c2 == *cond);
                                    assert(spec_cond_to_expr(*cond, lay1.0 as int) is Some);
                                    assert(false);
                                }
                            }
                            return Err(err);
                        }
                    };
                    proof {
                        lemma_cond_ok(*cond, lay1.0 as int);
                    }
                    Some(e)
                }
                None => None,
            };
            let new_bb = BasicBlock { stmts: out_stmts, terminator };
            proof {
                assert(lifted_block_ok(new_bb));
                assert(block_lifted_from(cfg.graph.nodes@[v as int], new_bb, *metadata, h0));
                assert(layout.0 as int == block_out_height(cfg.graph.nodes@[v as int], *metadata, h0));
            }
            let ghost nodes_before = new_nodes@;
            new_nodes.set(v, new_bb);

            let successors = cfg.graph.out_edges(v);
            let mut sidx: usize = 0;
            let ns = successors.len();
            proof {
                lemma_out_edges_targets(cfg.graph.edges@, v, cfg.graph.nodes@.len() as int);
            }
            while sidx < ns
                invariant
                    cfg.wf(),
                    n == cfg.graph.nodes@.len(),
                    ns == successors@.len(),
                    successors@ == out_edges_spec(cfg.graph.edges@, v),
                    0 <= sidx <= ns,
                    v < n,
                    forall|j: int| 0 <= j < ns ==> (#[trigger] successors@[j]).0 < n,
                    stack_at@.len() == n,
                    processed@.len() == n,
                    0 <= layout.0 <= 65535,
                    stack_at@[v as int] matches Some(sv) && sv.0 as int == h0,
                    stack_at@[0] matches Some(s0) && s0.0 == 0,
                    forall|j: int| 0 <= j < work@.len() ==> (#[trigger] work@[j]) < n
                        && stack_at@[work@[j] as int] is Some,
                    forall|j: int| 0 <= j < n ==> ((#[trigger] stack_at@[j]) matches Some(s)
                        ==> 0 <= s.0 <= 65535),
                    forall|hs: Seq<Option<int>>| #[trigger] liftable_heights(cfg, *metadata, hs)
                        ==> forall|b2: int| 0 <= b2 < n ==> ((#[trigger] stack_at@[b2])
                            matches Some(s2) ==> hs[b2] == Some(s2.0 as int)),
                    forall|b: int| 0 <= b < n && #[trigger] processed@[b] ==> stack_at@[b] is Some,
                    forall|b: int| 0 <= b < n && (#[trigger] stack_at@[b]) is Some ==> processed@[b]
                        || work@.contains(b as usize),
                    forall|b: int| 0 <= b < n && #[trigger] processed@[b] && b != v ==> {
                        let h = stack_at@[b].unwrap().0 as int;
                        &&& block_lifted_from(cfg.graph.nodes@[b], new_nodes@[b], *metadata, h)
                        &&& forall|j: int| 0 <= j < out_edges_spec(cfg.graph.edges@, b as usize).len()
                            ==> {
                                let w = (#[trigger] out_edges_spec(cfg.graph.edges@, b as usize)[j]).0 as int;
                                &&& 0 <= w < n
                                &&& stack_at@[w] matches Some(sw) && sw.0 as int == block_out_height(
                                    cfg.graph.nodes@[b],
                                    *metadata,
                                    h,
                                )
                            }
                    },
                    forall|j: int| 0 <= j < sidx ==> {
                        let w = (#[trigger] successors@[j]).0 as int;
                        &&& 0 <= w < n
                        &&& stack_at@[w] matches Some(sw) && sw.0 as int == block_out_height(
                            cfg.graph.nodes@[v as int],
                            *metadata,
                            h0,
                        )
                    },
                    layout.0 as int == block_out_height(cfg.graph.nodes@[v as int], *metadata, h0),
                decreases ns - sidx,
            {
                let w = successors[sidx].0;
                let ghost stack_before = stack_at@;
                let ghost work_pre = work@;
                match &stack_at[w] {
                    Some(existing) => {
                        if existing.0 != layout.0 {
                            proof {
                                if exists|hs: Seq<Option<int>>| #[trigger] liftable_heights(
                                    cfg,
                                    *metadata,
                                    hs,
                                ) {
                                    let hs = choose|hs: Seq<Option<int>>|
                                        #[trigger] liftable_heights(cfg, *metadata, hs);
                                    assert(hs[w as int] == Some(existing.0 as int));
                                    assert(hs[v as int] == Some(h0));
                                    assert((v as int) as usize == v);
                                    let edge = out_edges_spec(
                                        cfg.graph.edges@,
                                        (v as int) as usize,
                                    )[sidx as int];
                                    assert(edge == successors@[sidx as int]);
                                    assert(edge.0 == w);
                                    assert(hs[edge.0 as int] == Some(block_out_height(
                                        cfg.graph.nodes@[v as int],
                                        *metadata,
                                        h0,
                                    )));
                                    assert(false);
                                }
                            }
                            return Err(Error::StackJoinMismatch {
                                block: w,
                                expected: layout.0,
                                found: existing.0,
                            });
                        }
                    }
                    None => {
                        stack_at.set(w, Some(layout));
                        work.push(w);
                        proof {
                            assert forall|hs: Seq<Option<int>>| #[trigger] liftable_heights(
                                cfg,
                                *metadata,
                                hs,
                            ) implies forall|b2: int| 0 <= b2 < n ==> ((#[trigger] stack_at@[b2])
                                matches Some(s2) ==> hs[b2] == Some(s2.0 as int)) by {
                                assert forall|b2: int| 0 <= b2 < n implies ((
                                #[trigger] stack_at@[b2]) matches Some(s2) ==> hs[b2] == Some(
                                    s2.0 as int,
                                )) by {
                                    if stack_at@[b2] is Some {
                                        if b2 == w as int {
                                            assert(stack_before[v as int] matches Some(sv2)
                                                && sv2.0 as int == h0);
                                            assert(hs[v as int] == Some(h0));
                                            assert((v as int) as usize == v);
                                            let edge = out_edges_spec(
                                                cfg.graph.edges@,
                                                (v as int) as usize,
                                            )[sidx as int];
                                            assert(edge == successors@[sidx as int]);
                                            assert(edge.0 == w);
                                            assert(hs[edge.0 as int] == Some(block_out_height(
                                                cfg.graph.nodes@[v as int],
                                                *metadata,
                                                h0,
                                            )));
                                            assert(stack_at@[b2] == Some(layout));
                                        } else {
                                            assert(stack_at@[b2] == stack_before[b2]);
                                        }
                                    }
                                }
                            }
                            assert forall|b: int| 0 <= b < n && (#[trigger] stack_at@[b]) is Some
                                implies processed@[b] || work@.contains(b as usize) by {
                                if !processed@[b] {
                                    if b == w as int {
                                        assert(work@.last() == w);
                                        assert(work@.contains(w));
                                    } else {
                                        assert(stack_before[b] is Some);
                                        assert(processed@[b] || work_pre.contains(b as usize));
                                        let idx = choose|idx: int| 0 <= idx < work_pre.len()
                                            && work_pre[idx] == b as usize;
                                        assert(work@[idx] == b as usize);
                                    }
                                }
                            }
                        }
                    }
                }
                sidx = sidx + 1;
            }
            proof {
                assert forall|b: int| 0 <= b < n && #[trigger] processed@[b] implies {
                    let h = stack_at@[b].unwrap().0 as int;
                    &&& block_lifted_from(cfg.graph.nodes@[b], new_nodes@[b], *metadata, h)
                    &&& forall|j: int| 0 <= j < out_edges_spec(cfg.graph.edges@, b as usize).len()
                        ==> {
                            let w = (#[trigger] out_edges_spec(cfg.graph.edges@, b as usize)[j]).0 as int;
                            &&& 0 <= w < n
                            &&& stack_at@[w] matches Some(sw) && sw.0 as int == block_out_height(
                                cfg.graph.nodes@[b],
                                *metadata,
                                h,
                            )
                        }
                } by {
                    if b == v {
                        assert(new_nodes@[b] == new_bb);
                        assert(block_lifted_from(cfg.graph.nodes@[b], new_nodes@[b], *metadata, h0));
                    }
                }
            }
        } else {
            proof {
                assert forall|b: int| 0 <= b < n && (#[trigger] stack_at@[b]) is Some implies
                    processed@[b] || work@.contains(b as usize) by {
                    if !processed@[b] {
                        assert(work_before.contains(b as usize));
                        let idx = choose|idx: int| 0 <= idx < work_before.len()
                            && work_before[idx] == b as usize;
                        if idx == work_before.len() - 1 {
                            assert(b as usize == v);
                            assert(false);
                        } else {
                            assert(work@[idx] == b as usize);
                        }
                    }
                }
            }
        }
    }

    let graph = CfgGraph { nodes: new_nodes, edges: cfg.graph.edges };
    let c = Cfg { graph, entry_point: cfg.entry_point, exit_point: cfg.exit_point };
    proof {
        assert(c.wf());
        let heights = Seq::new(stack_at@.len(), |b: int| match stack_at@[b] {
            Some(s) => Some(s.0 as int),
            None => None,
        });
        assert forall|b: int| 0 <= b < n implies match #[trigger] heights[b] {
            Some(h) => block_lifted_from(cfg.graph.nodes@[b], c.graph.nodes@[b], *metadata, h)
                && forall|j: int| 0 <= j < out_edges_spec(cfg.graph.edges@, b as usize).len()
                    ==> {
                        let w = (#[trigger] out_edges_spec(cfg.graph.edges@, b as usize)[j]).0 as int;
                        0 <= w < n && heights[w] == Some(block_out_height(cfg.graph.nodes@[b], *metadata, h))
                    },
            None => c.graph.nodes@[b].stmts@.len() == 0 && c.graph.nodes@[b].terminator is None,
        } by {
            if heights[b] is Some {
                assert(stack_at@[b] is Some);
                assert(work@.len() == 0);
                assert(!work@.contains(b as usize));
                assert(processed@[b]);
            } else {
                assert(!processed@[b]);
            }
        }
        assert(lifted_from(cfg, c, *metadata, heights));
        assert(exists|hs: Seq<Option<int>>| #[trigger] lifted_from(cfg, c, *metadata, hs)) by {
            assert(lifted_from(cfg, c, *metadata, heights));
        }
    }
    Ok(c)
}

/// In a well-formed graph every outgoing edge points at a node.
proof fn lemma_out_edges_targets(edges: Seq<(usize, usize, bool)>, v: usize, n: int)
    requires
        forall|k: int| 0 <= k < edges.len() ==> (#[trigger] edges[k]).0 < n && edges[k].1 < n,
    ensures
        forall|j: int| 0 <= j < out_edges_spec(edges, v).len() ==> (#[trigger] out_edges_spec(
            edges,
            v,
        )[j]).0 < n,
    decreases edges.len(),
{
    if edges.len() > 0 {
        assert(forall|k: int| 0 <= k < edges.drop_last().len() ==> (#[trigger] edges.drop_last()[k]).0 < n
            && edges.drop_last()[k].1 < n);
        lemma_out_edges_targets(edges.drop_last(), v, n);
        let rest = out_edges_spec(edges.drop_last(), v);
        let o = out_edges_spec(edges, v);
        if edges.last().0 == v {
            assert(o == rest.push((edges.last().1, edges.last().2)));
            assert(edges[edges.len() - 1].1 < n);
            assert forall|j: int| 0 <= j < o.len() implies (#[trigger] o[j]).0 < n by {
                if j < rest.len() {
                    assert(o[j] == rest[j]);
                } else {
                    assert(o[j] == (edges.last().1, edges.last().2));
                }
            }
        } else {
            assert(o == rest);
        }
    }
}

/// A sequence without true entries filters to nothing.
proof fn lemma_filter_all_false(s: Seq<bool>)
    requires
        forall|j: int| 0 <= j < s.len() ==> s[j] == false,
    ensures
        Seq::new(s.len(), |j: int| s[j]).filter(|b: bool| b).len() == 0,
    decreases s.len(),
{
    reveal(Seq::filter);
    let q = Seq::new(s.len(), |j: int| s[j]);
    if s.len() == 0 {
        assert(q =~= Seq::<bool>::empty());
    } else {
        lemma_filter_all_false(s.drop_last());
        let p = Seq::new(s.drop_last().len(), |j: int| s.drop_last()[j]);
        assert(q.drop_last() =~= p);
        assert(q.filter(|b: bool| b).len() == p.filter(|b: bool| b).len());
    }
}

/// Marking one more entry true grows the count of true entries by one.
proof fn lemma_filter_update_true(s: Seq<bool>, i: int)
    requires
        0 <= i < s.len(),
        s[i] == false,
    ensures
        Seq::new(s.update(i, true).len(), |j: int| s.update(i, true)[j]).filter(|b: bool| b).len()
            == Seq::new(s.len(), |j: int| s[j]).filter(|b: bool| b).len() + 1,
        Seq::new(s.len(), |j: int| s[j]).filter(|b: bool| b).len() <= s.len(),
{
    lemma_filter_count(s, s.update(i, true), i, s.len() as int);
}

/// Counting true entries of two sequences that differ in one place.
proof fn lemma_filter_count(s1: Seq<bool>, s2: Seq<bool>, i: int, upto: int)
    requires
        s1.len() == s2.len(),
        0 <= i < s1.len(),
        0 <= upto <= s1.len(),
        s1[i] == false,
        s2[i] == true,
        forall|j: int| 0 <= j < s1.len() && j != i ==> s1[j] == s2[j],
    ensures
        Seq::new(upto as nat, |j: int| s2[j]).filter(|b: bool| b).len() == Seq::new(
            upto as nat,
            |j: int| s1[j],
        ).filter(|b: bool| b).len() + if i < upto { 1int } else { 0int },
        Seq::new(upto as nat, |j: int| s1[j]).filter(|b: bool| b).len() <= upto,
    decreases upto,
{
    let f = |b: bool| b;
    if upto == 0 {
        assert(Seq::new(0, |j: int| s1[j]).filter(f) =~= Seq::<bool>::empty());
        assert(Seq::new(0, |j: int| s2[j]).filter(f) =~= Seq::<bool>::empty());
        reveal(Seq::filter);
    } else {
        lemma_filter_count(s1, s2, i, upto - 1);
        let p1 = Seq::new((upto - 1) as nat, |j: int| s1[j]);
        let p2 = Seq::new((upto - 1) as nat, |j: int| s2[j]);
        let q1 = Seq::new(upto as nat, |j: int| s1[j]);
        let q2 = Seq::new(upto as nat, |j: int| s2[j]);
        assert(q1.drop_last() =~= p1);
        assert(q2.drop_last() =~= p2);
        reveal(Seq::filter);
        assert(q1.filter(f).len() == p1.filter(f).len() + if q1.last() { 1int } else { 0int });
        assert(q2.filter(f).len() == p2.filter(f).len() + if q2.last() { 1int } else { 0int });
    }
}

} // verus!

verus! {

use crate::unit::{CompilationUnit, Declaration, Method};

/// Whether a lifted method body came out of `transform` well: every
/// block plain and well-named.
pub open spec fn lifted_cfg_ok(c: Cfg<Statement, Expr>) -> bool {
    &&& c.wf()
    &&& forall|b: int| 0 <= b < c.graph.nodes@.len() ==> lifted_block_ok(#[trigger] c.graph.nodes@[b])
}

/// Lift every method body of the unit from stack form to named
/// variables.
pub fn stack_to_vars(unit: CompilationUnit<Cfg<Instruction, JumpCondition>>)
    -> (r: Result<CompilationUnit<Cfg<Statement, Expr>>, crate::errors::MethodError>)
    requires
        unit.metadata.wf(),
        forall|i: int| 0 <= i < unit.declarations@.len()
            ==> ((#[trigger] unit.declarations@[i]) matches Declaration::Method(m)
            ==> (m.code matches Some(c) ==> c.wf())),
    ensures
        match r {
            Ok(u) => {
                &&& u.metadata == unit.metadata
                &&& u.metadata.wf()
                &&& u.name == unit.name
                &&& u.typ == unit.typ
                &&& u.modifiers == unit.modifiers
                &&& u.declarations@.len() == unit.declarations@.len()
                &&& forall|i: int| 0 <= i < u.declarations@.len()
                    ==> !((#[trigger] u.declarations@[i]) is Constructor)
                &&& forall|i: int| 0 <= i < u.declarations@.len()
                    ==> match #[trigger] u.declarations@[i] {
                        Declaration::Method(m2) => unit.declarations@[i]
                            matches Declaration::Method(m1) && {
                            &&& m2.name == m1.name
                            &&& m2.modifiers == m1.modifiers
                            &&& m2.signature == m1.signature
                            &&& m2.code is Some <==> m1.code is Some
                            &&& (m2.code matches Some(c2) ==> m1.code matches Some(c1) && {
                                &&& lifted_cfg_ok(c2)
                                &&& c2.graph.edges@ == c1.graph.edges@
                                &&& c2.graph.nodes@.len() == c1.graph.nodes@.len()
                                &&& c2.entry_point == c1.entry_point
                                &&& c2.exit_point == c1.exit_point
                                &&& exists|heights: Seq<Option<int>>| lifted_from(
                                    c1,
                                    c2,
                                    unit.metadata,
                                    heights,
                                )
                            })
                        },
                        Declaration::Field(f2) => unit.declarations@[i]
                            matches Declaration::Field(f1) && f2 == f1,
                        Declaration::Constructor(_) => false,
                    }
            },
            Err(me) => exists|i: int| 0 <= i < unit.declarations@.len()
                && match #[trigger] unit.declarations@[i] {
                    Declaration::Constructor(_) => true,
                    Declaration::Method(m) => m.code matches Some(c) && !(exists|hs: Seq<
                        Option<int>,
                    >| liftable_heights(c, unit.metadata, hs)),
                    Declaration::Field(_) => false,
                },
        },
{
    let CompilationUnit { typ, modifiers, name, metadata, declarations } = unit;
    let mut mapped: Vec<Declaration<Cfg<Statement, Expr>>> = Vec::new();
    let mut rest = declarations;
    let n = rest.len();
    let ghost all = rest@;
    let mut i: usize = 0;
    while i < n
        invariant
            metadata.wf(),
            metadata == unit.metadata,
            all == unit.declarations@,
            n == all.len(),
            0 <= i <= n,
            rest@ == all.subrange(i as int, n as int),
            mapped@.len() == i,
            forall|j: int| 0 <= j < all.len()
                ==> ((#[trigger] all[j]) matches Declaration::Method(m)
                ==> (m.code matches Some(c) ==> c.wf())),
            forall|j: int| 0 <= j < i ==> !((#[trigger] mapped@[j]) is Constructor),
            forall|j: int| 0 <= j < i ==> match #[trigger] mapped@[j] {
                Declaration::Method(m2) => all[j] matches Declaration::Method(m1) && {
                    &&& m2.name == m1.name
                    &&& m2.modifiers == m1.modifiers
                    &&& m2.signature == m1.signature
                    &&& m2.code is Some <==> m1.code is Some
                    &&& (m2.code matches Some(c2) ==> m1.code matches Some(c1) && {
                        &&& lifted_cfg_ok(c2)
                        &&& c2.graph.edges@ == c1.graph.edges@
                        &&& c2.graph.nodes@.len() == c1.graph.nodes@.len()
                        &&& c2.entry_point == c1.entry_point
                        &&& c2.exit_point == c1.exit_point
                        &&& exists|heights: Seq<Option<int>>| lifted_from(c1, c2, metadata, heights)
                    })
                },
                Declaration::Field(f2) => all[j] matches Declaration::Field(f1) && f2 == f1,
                Declaration::Constructor(_) => false,
            },
        decreases n - i,
    {
        let d = rest.remove(0);
        proof {
            assert(d == all[i as int]);
            assert(rest@ =~= all.subrange(i + 1, n as int));
        }
        let mapped_d = match d {
            Declaration::Field(f) => Declaration::Field(f),
            Declaration::Method(m) => {
                let Method { modifiers, name, signature, code } = m;
                let code = match code {
                    Some(method_cfg) => {
                        let ghost cfg0 = method_cfg;
                        match transform(method_cfg, &metadata) {
                            Ok(lifted) => Some(lifted),
                            Err(e) => {
                                proof {
                                    assert(unit.declarations@[i as int]
                                        matches Declaration::Method(m1) && m1.code
                                        == Some(cfg0));
                                    assert(!(exists|hs: Seq<Option<int>>| liftable_heights(
                                        cfg0,
                                        unit.metadata,
                                        hs,
                                    )));
                                }
                                return Err(crate::errors::MethodError { method: name, error: e });
                            }
                        }
                    }
                    None => None,
                };
                Declaration::Method(Method { modifiers, name, signature, code })
            }
            Declaration::Constructor(_) => {
                // Constructors only appear after the constructor pass,
                // which runs on lifted code.
                proof {
                    assert(unit.declarations@[i as int] is Constructor);
                }
                return Err(crate::errors::MethodError {
                    method: String::from_str("<init>"),
                    error: Error::MalformedConstructorCall,
                });
            }
        };
        mapped.push(mapped_d);
        i = i + 1;
    }
    Ok(CompilationUnit { typ, modifiers, name, metadata, declarations: mapped })
}

} // verus!

verus! {

/// Fold the per-instruction semantics over a whole block from a
/// given entry height: all emitted statements, and the height after
/// the last instruction.
pub open spec fn spec_lift_block(instrs: Seq<Instruction>, md: Metadata, top: int) -> Option<(Seq<StatementV>, int)>
    decreases instrs.len(),
{
    if instrs.len() == 0 {
        Some((Seq::empty(), top))
    } else {
        match spec_execute(instrs[0], md, top) {
            Some((sv, t)) => match spec_lift_block(instrs.drop_first(), md, t) {
                Some((rest, tf)) => Some((sv + rest, tf)),
                None => None,
            },
            None => None,
        }
    }
}

/// Appending one instruction extends the fold at the back.
proof fn lemma_lift_block_snoc(instrs: Seq<Instruction>, one: Instruction, md: Metadata, top: int)
    ensures
        spec_lift_block(instrs.push(one), md, top) == (match spec_lift_block(instrs, md, top) {
            Some((sv, t)) => match spec_execute(one, md, t) {
                Some((sv2, t2)) => Some((sv + sv2, t2)),
                None => None,
            },
            None => None,
        }),
    decreases instrs.len(),
{
    if instrs.len() == 0 {
        reveal_with_fuel(spec_lift_block, 2);
        assert(instrs.push(one).drop_first() =~= Seq::<Instruction>::empty());
        assert(instrs.push(one)[0] == one);
        match spec_execute(one, md, top) {
            Some((sv2, t2)) => {
                assert(spec_lift_block(instrs.push(one), md, top) == Some((sv2 + Seq::<StatementV>::empty(), t2)));
                assert(sv2 + Seq::<StatementV>::empty() =~= sv2);
                assert(Seq::<StatementV>::empty() + sv2 =~= sv2);
            }
            None => {}
        }
    } else {
        assert(instrs.push(one)[0] == instrs[0]);
        assert(instrs.push(one).drop_first() =~= instrs.drop_first().push(one));
        lemma_lift_block_snoc(instrs.drop_first(), one, md, top as int);
        match spec_execute(instrs[0], md, top) {
            Some((sv, t)) => {
                lemma_lift_block_snoc(instrs.drop_first(), one, md, t);
                match spec_lift_block(instrs.drop_first(), md, t) {
                    Some((rest, tf)) => {
                        match spec_execute(one, md, tf) {
                            Some((sv2, t2)) => {
                                assert(sv + (rest + sv2) =~= (sv + rest) + sv2);
                            }
                            None => {}
                        }
                    }
                    None => {}
                }
            }
            None => {}
        }
    }
}

/// The block `outb` is the lifting of `inb` from entry height `h`:
/// its statements are the fold's output, and its branch condition is
/// the lifted terminator.
pub open spec fn block_lifted_from(
    inb: BasicBlock<Instruction, JumpCondition>,
    outb: BasicBlock<Statement, Expr>,
    md: Metadata,
    h: int,
) -> bool {
    match spec_lift_block(inb.stmts@, md, h) {
        Some((sv, t)) => {
            &&& crate::ast::stmts_model(outb.stmts@) == sv
            &&& match (inb.terminator, outb.terminator) {
                (Some(c), Some(e)) => spec_cond_to_expr(c, t) matches Some((ev, t2))
                    && expr_model(e) == ev,
                (None, None) => true,
                _ => false,
            }
        },
        None => false,
    }
}

/// The height at which a block hands the stack to its successors:
/// after its instructions, and after its branch condition takes its
/// operands.
pub open spec fn block_out_height(inb: BasicBlock<Instruction, JumpCondition>, md: Metadata, h: int) -> int {
    let t = spec_lift_block(inb.stmts@, md, h).unwrap().1;
    match inb.terminator {
        Some(c) => spec_cond_to_expr(c, t).unwrap().1,
        None => t,
    }
}

/// A consistent assignment of entry heights under which every block
/// lifts: block zero starts empty, each recorded block folds to
/// completion (its branch condition included), and the resulting
/// height is carried unchanged along every edge.  The lifter
/// succeeds exactly when such an assignment exists.
pub open spec fn liftable_heights(cin: Cfg<Instruction, JumpCondition>, md: Metadata, heights: Seq<Option<int>>) -> bool {
    let n = cin.graph.nodes@.len() as int;
    &&& heights.len() == n
    &&& (n > 0 ==> heights[0] == Some(0int))
    &&& forall|b: int| 0 <= b < n ==> match #[trigger] heights[b] {
        Some(h) => {
            &&& spec_lift_block(cin.graph.nodes@[b].stmts@, md, h) is Some
            &&& (cin.graph.nodes@[b].terminator matches Some(c) ==> spec_cond_to_expr(
                c,
                spec_lift_block(cin.graph.nodes@[b].stmts@, md, h).unwrap().1,
            ) is Some)
            &&& forall|j: int| 0 <= j < out_edges_spec(cin.graph.edges@, b as usize).len() ==> {
                let w = (#[trigger] out_edges_spec(cin.graph.edges@, b as usize)[j]).0 as int;
                0 <= w < n && heights[w] == Some(block_out_height(cin.graph.nodes@[b], md, h))
            }
        },
        None => true,
    }
}

/// A fold that fails at step `k` fails as a whole.
proof fn lemma_lift_block_stuck(s: Seq<Instruction>, md: Metadata, h: int, k: int)
    requires
        0 <= k < s.len(),
        spec_lift_block(s.subrange(0, k), md, h) is Some,
        spec_execute(s[k], md, spec_lift_block(s.subrange(0, k), md, h).unwrap().1) is None,
    ensures
        spec_lift_block(s, md, h) is None,
    decreases k,
{
    if k == 0 {
        assert(s.subrange(0, 0) =~= Seq::<Instruction>::empty());
        assert(spec_lift_block(s.subrange(0, 0), md, h).unwrap().1 == h);
        assert(spec_execute(s[0], md, h) is None);
    } else {
        let pre = s.subrange(0, k);
        assert(pre[0] == s[0]);
        assert(pre.len() > 0);
        match spec_execute(s[0], md, h) {
            Some((sv0, h1)) => {
                assert(pre.drop_first() =~= s.drop_first().subrange(0, k - 1));
                assert(spec_lift_block(pre.drop_first(), md, h1) is Some);
                assert(spec_lift_block(pre, md, h).unwrap().1 == spec_lift_block(
                    pre.drop_first(),
                    md,
                    h1,
                ).unwrap().1);
                assert(s.drop_first()[k - 1] == s[k]);
                lemma_lift_block_stuck(s.drop_first(), md, h1, k - 1);
            }
            None => {
                assert(spec_lift_block(pre, md, h) is None);
            }
        }
    }
}

/// The lifted graph agrees with the input graph block by block:
/// block zero is entered with an empty stack, every recorded entry
/// height is carried unchanged along every edge, blocks the walk
/// never reaches stay empty, and each reached block is the fold of
/// its instructions from its recorded height.
pub open spec fn lifted_from(
    cin: Cfg<Instruction, JumpCondition>,
    cout: Cfg<Statement, Expr>,
    md: Metadata,
    heights: Seq<Option<int>>,
) -> bool {
    let n = cin.graph.nodes@.len() as int;
    &&& heights.len() == n
    &&& n > 0 ==> heights[0] == Some(0int)
    &&& forall|b: int| 0 <= b < n ==> match #[trigger] heights[b] {
        Some(h) => block_lifted_from(cin.graph.nodes@[b], cout.graph.nodes@[b], md, h)
            && forall|j: int| 0 <= j < out_edges_spec(cin.graph.edges@, b as usize).len()
                ==> {
                    let w = (#[trigger] out_edges_spec(cin.graph.edges@, b as usize)[j]).0 as int;
                    0 <= w < n && heights[w] == Some(block_out_height(cin.graph.nodes@[b], md, h))
                },
        None => cout.graph.nodes@[b].stmts@.len() == 0 && cout.graph.nodes@[b].terminator is None,
    }
}

} // verus!
