//! Tree representation of the recovered source language: expressions,
//! statements and the declarations that carry them.
use vstd::prelude::*;
use crate::unit::{ClassRef, FieldRef, MethodRef, Modifier, Signature, Type, JavaConstant};

verus! {

pub type Ident = String;

/// One character of a decimal number.
pub open spec fn digit_char(d: nat) -> char {
    if d == 0 { '0' }
    else if d == 1 { '1' }
    else if d == 2 { '2' }
    else if d == 3 { '3' }
    else if d == 4 { '4' }
    else if d == 5 { '5' }
    else if d == 6 { '6' }
    else if d == 7 { '7' }
    else if d == 8 { '8' }
    else { '9' }
}

/// Decimal notation of `n`, most significant digit first.
pub open spec fn dec_digits(n: nat) -> Seq<char>
    decreases n,
{
    if n < 10 {
        seq![digit_char(n)]
    } else {
        dec_digits(n / 10) + seq![digit_char(n % 10)]
    }
}

/// Name of the variable standing for operand-stack slot `k`.
pub open spec fn stack_name(k: nat) -> Seq<char> {
    "stack_"@ + dec_digits(k)
}

/// Name of the variable standing for local slot `i`.
pub open spec fn local_name(i: nat) -> Seq<char> {
    "local_"@ + dec_digits(i)
}

/// Label of the loop registered under index `i`.
pub open spec fn loop_label_name(i: nat) -> Seq<char> {
    "loop_"@ + dec_digits(i)
}

fn digit_str(d: usize) -> (r: &'static str)
    requires
        d < 10,
    ensures
        r@ == seq![digit_char(d as nat)],
{
    let r: &'static str = match d {
        0 => "0",
        1 => "1",
        2 => "2",
        3 => "3",
        4 => "4",
        5 => "5",
        6 => "6",
        7 => "7",
        8 => "8",
        _ => "9",
    };
    proof {
        reveal_strlit("0");
        reveal_strlit("1");
        reveal_strlit("2");
        reveal_strlit("3");
        reveal_strlit("4");
        reveal_strlit("5");
        reveal_strlit("6");
        reveal_strlit("7");
        reveal_strlit("8");
        reveal_strlit("9");
        assert(r@ =~= seq![digit_char(d as nat)]);
    }
    r
}

/// Decimal rendering of an unsigned number.
pub fn dec_string(n: usize) -> (r: String)
    ensures
        r@ == dec_digits(n as nat),
    decreases n,
{
    if n < 10 {
        String::from_str(digit_str(n))
    } else {
        let mut s = dec_string(n / 10);
        s.append(digit_str(n % 10));
        proof {
            assert(s@ =~= dec_digits(n as nat));
        }
        s
    }
}

/// The `stack_k` identifier for slot `k`.
pub fn stack_ident(k: usize) -> (r: String)
    ensures
        r@ == stack_name(k as nat),
{
    let mut s = String::from_str("stack_");
    let digits = dec_string(k);
    s.append(digits.as_str());
    proof {
        assert(s@ =~= stack_name(k as nat));
    }
    s
}

/// The `local_i` identifier for local slot `i`.
pub fn local_ident(i: usize) -> (r: String)
    ensures
        r@ == local_name(i as nat),
{
    let mut s = String::from_str("local_");
    let digits = dec_string(i);
    s.append(digits.as_str());
    proof {
        assert(s@ =~= local_name(i as nat));
    }
    s
}

/// The `loop_i` label for the loop registered under `i`.
pub fn loop_label(i: usize) -> (r: String)
    ensures
        r@ == loop_label_name(i as nat),
{
    let mut s = String::from_str("loop_");
    let digits = dec_string(i);
    s.append(digits.as_str());
    proof {
        assert(s@ =~= loop_label_name(i as nat));
    }
    s
}

#[derive(Debug, PartialEq)]
pub enum Expr {
    Literal(JavaConstant),
    Assignable(Box<Assignable>),
    UnaryOp(UnOp, Box<Expr>),
    BinaryOp(BinOp, Box<Expr>, Box<Expr>),
    IfThenElse { cond: Box<Expr>, then: Box<Expr>, els: Box<Expr> },
    Invoke(Option<Box<Expr>>, MethodRef, ClassRef, Vec<Expr>),
    Assign { to: Box<Assignable>, op: Option<BinOp>, from: Box<Expr> },
    New { class: Type, args: Vec<Expr> },
    This,
    Super,
}

#[derive(Debug, PartialEq)]
pub enum Assignable {
    Variable(Ident, usize),
    Field { this: Option<Box<Expr>>, class: ClassRef, field: FieldRef },
    ArrayAccess { array: Box<Expr>, index: Box<Expr> },
}

#[derive(Copy, Clone, Debug, PartialEq, Eq, Structural)]
pub enum UnOp {
    Neg,
    BitNot,
    LogNot,
}

#[derive(Copy, Clone, Debug, PartialEq, Eq, Structural)]
pub enum BinOp {
    Cmp(crate::instructions::Ordering),
    Add,
    Sub,
    Mul,
    Div,
    Rem,
    Shl,
    Shr,
    Ushr,
    BitAnd,
    BitOr,
    BitXor,
    LogAnd,
    LogOr,
}

#[derive(Debug, PartialEq)]
pub enum Statement {
    Nop,
    Expr(Expr),
    Block(Block),
    If { cond: Expr, then: Block, els: Option<Block> },
    While { label: Option<Ident>, cond: Expr, body: Block, do_while: bool },
    For(Option<Ident>, Box<ForControl>, Block),
    Break(Option<Ident>),
    Continue(Option<Ident>),
    Return(Option<Expr>),
    ThisCall(Vec<Expr>),
    SuperCall(Vec<Expr>),
    Throw(Expr),
    Synchronized(Expr, Block),
    Try { resources: Vec<LocalDecl>, block: Block, catches: Vec<Catch>, finally: Block },
}

#[derive(Debug, PartialEq)]
pub struct Block(pub Vec<LocalDecl>, pub Vec<Statement>);

#[derive(Debug, PartialEq)]
pub struct LocalDecl {
    pub ident: Ident,
    pub typ: Type,
    pub init: Option<Expr>,
}

#[derive(Debug, PartialEq)]
pub enum ForControl {
    Iteration { elem: LocalDecl, container: Expr },
    General { init: LocalDecl, cond: Expr, update: Expr },
}

#[derive(Debug, PartialEq)]
pub enum Catch {
    Unsupported,
}

#[derive(Debug, PartialEq)]
pub struct FieldDecl {
    pub modifiers: Vec<Modifier>,
    pub name: Ident,
    pub typ: Type,
}

#[derive(Debug, PartialEq)]
pub struct MethodDecl<C> {
    pub modifiers: Vec<Modifier>,
    pub name: Ident,
    pub signature: Signature,
    pub code: C,
}

#[derive(Debug, PartialEq)]
pub enum ClassDecl<C> {
    Field(FieldDecl),
    Method(MethodDecl<C>),
}

#[derive(Debug, PartialEq)]
pub struct Capsule<C> {
    pub modifiers: Vec<Modifier>,
    pub name: Ident,
    pub decls: Vec<ClassDecl<C>>,
}

/// A variable expression with the given name.
pub fn mk_variable(id: Ident) -> (r: Expr)
    ensures
        r == Expr::Assignable(Box::new(Assignable::Variable(id, 0))),
{
    Expr::Assignable(Box::new(Assignable::Variable(id, 0)))
}

/// An expression used as a statement.
pub fn stmt_expr(e: Expr) -> (r: Statement)
    ensures
        r == Statement::Expr(e),
{
    Statement::Expr(e)
}

} // verus!

verus! {

broadcast use vstd::std_specs::vec::group_vec_axioms;

// ------------------------------------------------------------------
// Mathematical models of the tree.  Text is a sequence of characters,
// lists are sequences; contracts about expressions and statements are
// stated over these.
// ------------------------------------------------------------------

use crate::unit::{JavaConstantV, FieldRefV, MethodRefV, TypeV};
use crate::unit::{java_constant_model, field_ref_model, method_ref_model, class_ref_model, type_model};

#[verifier::ext_equal]
pub enum ExprV {
    Literal(JavaConstantV),
    Assignable(Box<AssignableV>),
    UnaryOp(UnOp, Box<ExprV>),
    BinaryOp(BinOp, Box<ExprV>, Box<ExprV>),
    IfThenElse { cond: Box<ExprV>, then: Box<ExprV>, els: Box<ExprV> },
    Invoke(Option<Box<ExprV>>, MethodRefV, Seq<char>, Seq<ExprV>),
    Assign { to: Box<AssignableV>, op: Option<BinOp>, from: Box<ExprV> },
    New { class: TypeV, args: Seq<ExprV> },
    This,
    Super,
}

#[verifier::ext_equal]
pub enum AssignableV {
    Variable(Seq<char>, nat),
    Field { this: Option<Box<ExprV>>, class: Seq<char>, field: FieldRefV },
    ArrayAccess { array: Box<ExprV>, index: Box<ExprV> },
}

#[verifier::ext_equal]
pub enum StatementV {
    Nop,
    Expr(ExprV),
    Block(BlockV),
    If { cond: ExprV, then: BlockV, els: Option<BlockV> },
    While { label: Option<Seq<char>>, cond: ExprV, body: BlockV, do_while: bool },
    For(Option<Seq<char>>, Box<ForControlV>, BlockV),
    Break(Option<Seq<char>>),
    Continue(Option<Seq<char>>),
    Return(Option<ExprV>),
    ThisCall(Seq<ExprV>),
    SuperCall(Seq<ExprV>),
    Throw(ExprV),
    Synchronized(ExprV, BlockV),
    Try { resources: Seq<LocalDeclV>, block: BlockV, catches: Seq<CatchV>, finally: BlockV },
}

#[verifier::ext_equal]
pub struct BlockV(pub Seq<LocalDeclV>, pub Seq<StatementV>);

#[verifier::ext_equal]
pub struct LocalDeclV {
    pub ident: Seq<char>,
    pub typ: TypeV,
    pub init: Option<ExprV>,
}

#[verifier::ext_equal]
pub enum ForControlV {
    Iteration { elem: LocalDeclV, container: ExprV },
    General { init: LocalDeclV, cond: ExprV, update: ExprV },
}

#[verifier::ext_equal]
pub enum CatchV {
    Unsupported,
}

pub open spec fn expr_model(e: Expr) -> ExprV
    decreases e,
{
    match e {
        Expr::Literal(c) => ExprV::Literal(java_constant_model(c)),
        Expr::Assignable(a) => ExprV::Assignable(Box::new(assignable_model(*a))),
        Expr::UnaryOp(op, inner) => ExprV::UnaryOp(op, Box::new(expr_model(*inner))),
        Expr::BinaryOp(op, a, b) => ExprV::BinaryOp(op, Box::new(expr_model(*a)), Box::new(expr_model(*b))),
        Expr::IfThenElse { cond, then, els } => ExprV::IfThenElse {
            cond: Box::new(expr_model(*cond)),
            then: Box::new(expr_model(*then)),
            els: Box::new(expr_model(*els)),
        },
        Expr::Invoke(this, method, class, args) => ExprV::Invoke(
            match this {
                Some(t) => Some(Box::new(expr_model(*t))),
                None => None,
            },
            method_ref_model(method),
            class_ref_model(class),
            Seq::new(args@.len(), |i: int| if 0 <= i < args@.len() { expr_model(args@[i]) } else { arbitrary() }),
        ),
        Expr::Assign { to, op, from } => ExprV::Assign {
            to: Box::new(assignable_model(*to)),
            op: op,
            from: Box::new(expr_model(*from)),
        },
        Expr::New { class, args } => ExprV::New {
            class: type_model(class),
            args: Seq::new(args@.len(), |i: int| if 0 <= i < args@.len() { expr_model(args@[i]) } else { arbitrary() }),
        },
        Expr::This => ExprV::This,
        Expr::Super => ExprV::Super,
    }
}

pub open spec fn assignable_model(a: Assignable) -> AssignableV
    decreases a,
{
    match a {
        Assignable::Variable(id, version) => AssignableV::Variable(id@, version as nat),
        Assignable::Field { this, class, field } => AssignableV::Field {
            this: match this {
                Some(t) => Some(Box::new(expr_model(*t))),
                None => None,
            },
            class: class_ref_model(class),
            field: field_ref_model(field),
        },
        Assignable::ArrayAccess { array, index } => AssignableV::ArrayAccess {
            array: Box::new(expr_model(*array)),
            index: Box::new(expr_model(*index)),
        },
    }
}

pub open spec fn exprs_model(s: Seq<Expr>) -> Seq<ExprV> {
    Seq::new(s.len(), |i: int| expr_model(s[i]))
}

pub open spec fn stmt_model(s: Statement) -> StatementV
    decreases s,
{
    match s {
        Statement::Nop => StatementV::Nop,
        Statement::Expr(e) => StatementV::Expr(expr_model(e)),
        Statement::Block(b) => StatementV::Block(block_model(b)),
        Statement::If { cond, then, els } => StatementV::If {
            cond: expr_model(cond),
            then: block_model(then),
            els: match els {
                Some(b) => Some(block_model(b)),
                None => None,
            },
        },
        Statement::While { label, cond, body, do_while } => StatementV::While {
            label: match label {
                Some(l) => Some(l@),
                None => None,
            },
            cond: expr_model(cond),
            body: block_model(body),
            do_while: do_while,
        },
        Statement::For(label, control, body) => StatementV::For(
            match label {
                Some(l) => Some(l@),
                None => None,
            },
            Box::new(for_control_model(*control)),
            block_model(body),
        ),
        Statement::Break(label) => StatementV::Break(
            match label {
                Some(l) => Some(l@),
                None => None,
            },
        ),
        Statement::Continue(label) => StatementV::Continue(
            match label {
                Some(l) => Some(l@),
                None => None,
            },
        ),
        Statement::Return(e) => StatementV::Return(
            match e {
                Some(e0) => Some(expr_model(e0)),
                None => None,
            },
        ),
        Statement::ThisCall(args) => StatementV::ThisCall(Seq::new(args@.len(), |i: int| if 0 <= i < args@.len() { expr_model(args@[i]) } else { arbitrary() })),
        Statement::SuperCall(args) => StatementV::SuperCall(Seq::new(args@.len(), |i: int| if 0 <= i < args@.len() { expr_model(args@[i]) } else { arbitrary() })),
        Statement::Throw(e) => StatementV::Throw(expr_model(e)),
        Statement::Synchronized(e, b) => StatementV::Synchronized(expr_model(e), block_model(b)),
        Statement::Try { resources, block, catches, finally } => StatementV::Try {
            resources: Seq::new(resources@.len(), |i: int| if 0 <= i < resources@.len() { local_decl_model(resources@[i]) } else { arbitrary() }),
            block: block_model(block),
            catches: Seq::new(catches@.len(), |i: int| catch_model(catches@[i])),
            finally: block_model(finally),
        },
    }
}

pub open spec fn block_model(b: Block) -> BlockV
    decreases b,
{
    BlockV(
        Seq::new(b.0@.len(), |i: int| if 0 <= i < b.0@.len() { local_decl_model(b.0@[i]) } else { arbitrary() }),
        Seq::new(b.1@.len(), |i: int| if 0 <= i < b.1@.len() { stmt_model(b.1@[i]) } else { arbitrary() }),
    )
}

pub open spec fn stmts_model(s: Seq<Statement>) -> Seq<StatementV> {
    Seq::new(s.len(), |i: int| stmt_model(s[i]))
}

pub open spec fn local_decl_model(d: LocalDecl) -> LocalDeclV
    decreases d,
{
    LocalDeclV {
        ident: d.ident@,
        typ: type_model(d.typ),
        init: match d.init {
            Some(e) => Some(expr_model(e)),
            None => None,
        },
    }
}

pub open spec fn for_control_model(c: ForControl) -> ForControlV
    decreases c,
{
    match c {
        ForControl::Iteration { elem, container } => ForControlV::Iteration {
            elem: local_decl_model(elem),
            container: expr_model(container),
        },
        ForControl::General { init, cond, update } => ForControlV::General {
            init: local_decl_model(init),
            cond: expr_model(cond),
            update: expr_model(update),
        },
    }
}

pub open spec fn catch_model(c: Catch) -> CatchV {
    CatchV::Unsupported
}

} // verus!

verus! {

// ------------------------------------------------------------------
// Copies.  Written by hand so that the copy provably has the same
// model as the original.
// ------------------------------------------------------------------

/// Element-wise copy of an expression list.
pub fn clone_exprs(v: &Vec<Expr>) -> (r: Vec<Expr>)
    ensures
        r@.len() == v@.len(),
        forall|i: int| 0 <= i < v@.len() ==> expr_model(#[trigger] r@[i]) == expr_model(v@[i]),
    decreases *v,
{
    let mut r: Vec<Expr> = Vec::new();
    let mut i: usize = 0;
    while i < v.len()
        invariant
            0 <= i <= v@.len(),
            r@.len() == i,
            forall|j: int| 0 <= j < i ==> expr_model(#[trigger] r@[j]) == expr_model(v@[j]),
        decreases v@.len() - i,
    {
        r.push(v[i].clone());
        i = i + 1;
    }
    r
}

fn clone_expr_opt(v: &Option<Box<Expr>>) -> (r: Option<Box<Expr>>)
    ensures
        match (r, v) {
            (Some(a), Some(b)) => expr_model(*a) == expr_model(**b),
            (None, None) => true,
            _ => false,
        },
    decreases *v,
{
    match v {
        Some(b) => Some(Box::new((**b).clone())),
        None => None,
    }
}

impl Clone for Expr {
    fn clone(&self) -> (r: Self)
        ensures
            expr_model(r) == expr_model(*self),
        decreases *self,
    {
        match self {
            Expr::Literal(c) => Expr::Literal(c.clone()),
            Expr::Assignable(a) => Expr::Assignable(Box::new((**a).clone())),
            Expr::UnaryOp(op, inner) => Expr::UnaryOp(*op, Box::new((**inner).clone())),
            Expr::BinaryOp(op, a, b) => Expr::BinaryOp(*op, Box::new((**a).clone()), Box::new((**b).clone())),
            Expr::IfThenElse { cond, then, els } => Expr::IfThenElse {
                cond: Box::new((**cond).clone()),
                then: Box::new((**then).clone()),
                els: Box::new((**els).clone()),
            },
            Expr::Invoke(this, method, class, args) => {
                let r = Expr::Invoke(clone_expr_opt(this), method.clone(), class.clone(), clone_exprs(args));
                proof {
                    assert(expr_model(r) is Invoke && expr_model(*self) is Invoke);
                    assert(expr_model(r)->Invoke_0 =~~= expr_model(*self)->Invoke_0);
                    assert(expr_model(r)->Invoke_1 =~~= expr_model(*self)->Invoke_1);
                    assert(expr_model(r)->Invoke_2 =~~= expr_model(*self)->Invoke_2);
                    assert(expr_model(r)->Invoke_3 =~~= expr_model(*self)->Invoke_3);
                    assert(expr_model(r) =~~= expr_model(*self));
                }
                r
            }
            Expr::Assign { to, op, from } => Expr::Assign {
                to: Box::new((**to).clone()),
                op: *op,
                from: Box::new((**from).clone()),
            },
            Expr::New { class, args } => {
                let r = Expr::New { class: class.clone(), args: clone_exprs(args) };
                proof {
                    assert(expr_model(r) is New && expr_model(*self) is New);
                    assert(expr_model(r)->New_class =~~= expr_model(*self)->New_class);
                    assert(expr_model(r)->New_args =~~= expr_model(*self)->New_args);
                    assert(expr_model(r) =~~= expr_model(*self));
                }
                r
            }
            Expr::This => Expr::This,
            Expr::Super => Expr::Super,
        }
    }
}

impl Clone for Assignable {
    fn clone(&self) -> (r: Self)
        ensures
            assignable_model(r) == assignable_model(*self),
        decreases *self,
    {
        match self {
            Assignable::Variable(id, version) => Assignable::Variable(id.clone(), *version),
            Assignable::Field { this, class, field } => {
                let r = Assignable::Field {
                    this: clone_expr_opt(this),
                    class: class.clone(),
                    field: field.clone(),
                };
                proof {
                    assert(assignable_model(r) =~~= assignable_model(*self));
                }
                r
            }
            Assignable::ArrayAccess { array, index } => Assignable::ArrayAccess {
                array: Box::new((**array).clone()),
                index: Box::new((**index).clone()),
            },
        }
    }
}

fn clone_ident_opt(v: &Option<Ident>) -> (r: Option<Ident>)
    ensures
        match (r, v) {
            (Some(a), Some(b)) => a@ == b@,
            (None, None) => true,
            _ => false,
        },
{
    match v {
        Some(s) => Some(s.clone()),
        None => None,
    }
}

impl Clone for LocalDecl {
    fn clone(&self) -> (r: Self)
        ensures
            local_decl_model(r) == local_decl_model(*self),
        decreases *self,
    {
        let init = match &self.init {
            Some(e) => Some(e.clone()),
            None => None,
        };
        let r = LocalDecl { ident: self.ident.clone(), typ: self.typ.clone(), init };
        proof {
            assert(local_decl_model(r) =~~= local_decl_model(*self));
        }
        r
    }
}

/// Element-wise copy of a declaration list.
pub fn clone_local_decls(v: &Vec<LocalDecl>) -> (r: Vec<LocalDecl>)
    ensures
        r@.len() == v@.len(),
        forall|i: int| 0 <= i < v@.len() ==> local_decl_model(#[trigger] r@[i]) == local_decl_model(v@[i]),
    decreases *v,
{
    let mut r: Vec<LocalDecl> = Vec::new();
    let mut i: usize = 0;
    while i < v.len()
        invariant
            0 <= i <= v@.len(),
            r@.len() == i,
            forall|j: int| 0 <= j < i ==> local_decl_model(#[trigger] r@[j]) == local_decl_model(v@[j]),
        decreases v@.len() - i,
    {
        r.push(v[i].clone());
        i = i + 1;
    }
    r
}

impl Clone for ForControl {
    fn clone(&self) -> (r: Self)
        ensures
            for_control_model(r) == for_control_model(*self),
        decreases *self,
    {
        let r = match self {
            ForControl::Iteration { elem, container } => ForControl::Iteration {
                elem: elem.clone(),
                container: container.clone(),
            },
            ForControl::General { init, cond, update } => ForControl::General {
                init: init.clone(),
                cond: cond.clone(),
                update: update.clone(),
            },
        };
        proof {
            assert(for_control_model(r) =~~= for_control_model(*self));
        }
        r
    }
}

impl Clone for Catch {
    fn clone(&self) -> (r: Self)
        ensures
            catch_model(r) == catch_model(*self),
    {
        Catch::Unsupported
    }
}

/// Element-wise copy of a catch list.
pub fn clone_catches(v: &Vec<Catch>) -> (r: Vec<Catch>)
    ensures
        r@.len() == v@.len(),
        forall|i: int| 0 <= i < v@.len() ==> catch_model(#[trigger] r@[i]) == catch_model(v@[i]),
{
    let mut r: Vec<Catch> = Vec::new();
    let mut i: usize = 0;
    while i < v.len()
        invariant
            0 <= i <= v@.len(),
            r@.len() == i,
            forall|j: int| 0 <= j < i ==> catch_model(#[trigger] r@[j]) == catch_model(v@[j]),
        decreases v@.len() - i,
    {
        r.push(v[i].clone());
        i = i + 1;
    }
    r
}

impl Clone for Statement {
    fn clone(&self) -> (r: Self)
        ensures
            stmt_model(r) == stmt_model(*self),
        decreases *self,
    {
        let r = match self {
            Statement::Nop => Statement::Nop,
            Statement::Expr(e) => Statement::Expr(e.clone()),
            Statement::Block(b) => Statement::Block(b.clone()),
            Statement::If { cond, then, els } => Statement::If {
                cond: cond.clone(),
                then: then.clone(),
                els: match els {
                    Some(b) => Some(b.clone()),
                    None => None,
                },
            },
            Statement::While { label, cond, body, do_while } => Statement::While {
                label: clone_ident_opt(label),
                cond: cond.clone(),
                body: body.clone(),
                do_while: *do_while,
            },
            Statement::For(label, control, body) => Statement::For(
                clone_ident_opt(label),
                Box::new((**control).clone()),
                body.clone(),
            ),
            Statement::Break(label) => Statement::Break(clone_ident_opt(label)),
            Statement::Continue(label) => Statement::Continue(clone_ident_opt(label)),
            Statement::Return(e) => Statement::Return(
                match e {
                    Some(e0) => Some(e0.clone()),
                    None => None,
                },
            ),
            Statement::ThisCall(args) => Statement::ThisCall(clone_exprs(args)),
            Statement::SuperCall(args) => Statement::SuperCall(clone_exprs(args)),
            Statement::Throw(e) => Statement::Throw(e.clone()),
            Statement::Synchronized(e, b) => Statement::Synchronized(e.clone(), b.clone()),
            Statement::Try { resources, block, catches, finally } => Statement::Try {
                resources: clone_local_decls(resources),
                block: block.clone(),
                catches: clone_catches(catches),
                finally: finally.clone(),
            },
        };
        proof {
            assert(stmt_model(r) =~~= stmt_model(*self));
        }
        r
    }
}

/// Element-wise copy of a statement list.
pub fn clone_stmts(v: &Vec<Statement>) -> (r: Vec<Statement>)
    ensures
        r@.len() == v@.len(),
        forall|i: int| 0 <= i < v@.len() ==> stmt_model(#[trigger] r@[i]) == stmt_model(v@[i]),
    decreases *v,
{
    let mut r: Vec<Statement> = Vec::new();
    let mut i: usize = 0;
    while i < v.len()
        invariant
            0 <= i <= v@.len(),
            r@.len() == i,
            forall|j: int| 0 <= j < i ==> stmt_model(#[trigger] r@[j]) == stmt_model(v@[j]),
        decreases v@.len() - i,
    {
        r.push(v[i].clone());
        i = i + 1;
    }
    r
}

impl Clone for Block {
    fn clone(&self) -> (r: Self)
        ensures
            block_model(r) == block_model(*self),
        decreases *self,
    {
        let r = Block(clone_local_decls(&self.0), clone_stmts(&self.1));
        proof {
            assert(block_model(r).0 =~~= block_model(*self).0);
            assert(block_model(r).1 =~~= block_model(*self).1);
            assert(block_model(r) =~~= block_model(*self));
        }
        r
    }
}

} // verus!
