//! End-to-end runs of the decompilation pipeline on hand-built
//! instruction streams.
use unjavac::ast::{Assignable, BinOp, Block, Expr, Statement};
use unjavac::decompile::decompile;
use unjavac::instructions::{
    Arithm, BinaryOp, Instruction, Invoke, InvokeKind, Jump, JumpCondition, LValue, Ordering,
    RValue,
};
use unjavac::unit::{
    ClassRef, Code, CompilationUnit, Declaration, FieldRef, JavaConstant, Metadata, Method,
    Signature, Type, UnitType,
};

fn local(i: usize) -> Expr {
    Expr::Assignable(Box::new(Assignable::Variable(format!("local_{}", i), 0)))
}

fn int_lit(v: i32) -> Expr {
    Expr::Literal(JavaConstant::Integer(v))
}

fn unit_with(name: &str, method_name: &str, metadata: Metadata, instrs: Vec<(u16, Instruction)>) -> CompilationUnit<Code> {
    CompilationUnit {
        typ: UnitType::Class,
        modifiers: vec![],
        name: name.to_string(),
        metadata,
        declarations: vec![Declaration::Method(Method {
            modifiers: vec![],
            name: method_name.to_string(),
            signature: Signature { parameters: vec![], return_type: Type::Void },
            code: Some(Code { instructions: instrs }),
        })],
    }
}

fn first_method_block(unit: CompilationUnit<Block>) -> Block {
    match unit.declarations.into_iter().next().unwrap() {
        Declaration::Method(m) => m.code.unwrap(),
        _ => panic!("expected a method"),
    }
}

fn first_constructor_block(unit: CompilationUnit<Block>) -> Block {
    match unit.declarations.into_iter().next().unwrap() {
        Declaration::Constructor(c) => c.code,
        _ => panic!("expected a constructor"),
    }
}

#[test]
fn empty_method_returns_bare_block() {
    let unit = unit_with("A", "m", Metadata::new(), vec![(0, Instruction::Return(None))]);
    let out = decompile(unit).unwrap();
    let block = first_method_block(out);
    assert_eq!(block, Block(vec![], vec![Statement::Return(None)]));
}

#[test]
fn identity_return() {
    let unit = unit_with(
        "A",
        "m",
        Metadata::new(),
        vec![
            (0, Instruction::Load(RValue::LValue(LValue::Local(0)))),
            (1, Instruction::Return(Some(()))),
        ],
    );
    let out = decompile(unit).unwrap();
    let block = first_method_block(out);
    assert_eq!(block, Block(vec![], vec![Statement::Return(Some(local(0)))]));
}

#[test]
fn add_two_ints() {
    let unit = unit_with(
        "A",
        "m",
        Metadata::new(),
        vec![
            (0, Instruction::Load(RValue::LValue(LValue::Local(0)))),
            (1, Instruction::Load(RValue::LValue(LValue::Local(1)))),
            (2, Instruction::Arithm(Arithm::BinaryOp(BinaryOp::Add))),
            (3, Instruction::Return(Some(()))),
        ],
    );
    let out = decompile(unit).unwrap();
    let block = first_method_block(out);
    let sum = Expr::BinaryOp(BinOp::Add, Box::new(local(0)), Box::new(local(1)));
    assert_eq!(block, Block(vec![], vec![Statement::Return(Some(sum))]));
}

#[test]
fn binop_store_round_trip() {
    // Load local_0; Load local_1; add; Store local_2 - the whole
    // computation collapses back into one assignment.
    let unit = unit_with(
        "A",
        "m",
        Metadata::new(),
        vec![
            (0, Instruction::Load(RValue::LValue(LValue::Local(0)))),
            (1, Instruction::Load(RValue::LValue(LValue::Local(1)))),
            (2, Instruction::Arithm(Arithm::BinaryOp(BinaryOp::Add))),
            (3, Instruction::Store(LValue::Local(2))),
            (4, Instruction::Return(None)),
        ],
    );
    let out = decompile(unit).unwrap();
    let block = first_method_block(out);
    let sum = Expr::BinaryOp(BinOp::Add, Box::new(local(0)), Box::new(local(1)));
    let assign = Statement::Expr(Expr::Assign {
        to: Box::new(Assignable::Variable("local_2".to_string(), 0)),
        op: None,
        from: Box::new(sum),
    });
    assert_eq!(block, Block(vec![], vec![assign, Statement::Return(None)]));
}

#[test]
fn binop_store_other_operators() {
    for (op, expected) in [
        (BinaryOp::Sub, BinOp::Sub),
        (BinaryOp::Mul, BinOp::Mul),
        (BinaryOp::Xor, BinOp::BitXor),
    ] {
        let unit = unit_with(
            "A",
            "m",
            Metadata::new(),
            vec![
                (0, Instruction::Load(RValue::LValue(LValue::Local(3)))),
                (1, Instruction::Load(RValue::LValue(LValue::Local(4)))),
                (2, Instruction::Arithm(Arithm::BinaryOp(op))),
                (3, Instruction::Store(LValue::Local(5))),
                (4, Instruction::Return(None)),
            ],
        );
        let out = decompile(unit).unwrap();
        let block = first_method_block(out);
        let sum = Expr::BinaryOp(expected, Box::new(local(3)), Box::new(local(4)));
        let assign = Statement::Expr(Expr::Assign {
            to: Box::new(Assignable::Variable("local_5".to_string(), 0)),
            op: None,
            from: Box::new(sum),
        });
        assert_eq!(block, Block(vec![], vec![assign, Statement::Return(None)]));
    }
}

#[test]
fn simple_if() {
    // if (local_0 != 0) return 2 else return 1, decoded from an
    // `ifne` branching over the then-arm.
    let unit = unit_with(
        "A",
        "m",
        Metadata::new(),
        vec![
            (0, Instruction::Load(RValue::LValue(LValue::Local(0)))),
            (1, Instruction::Jump(Jump { address: 6, condition: Some(JumpCondition::CmpZero(Ordering::NE)) })),
            (4, Instruction::Load(RValue::Constant(JavaConstant::Integer(1)))),
            (5, Instruction::Return(Some(()))),
            (6, Instruction::Load(RValue::Constant(JavaConstant::Integer(2)))),
            (7, Instruction::Return(Some(()))),
        ],
    );
    let out = decompile(unit).unwrap();
    let block = first_method_block(out);
    let cond = Expr::BinaryOp(BinOp::Cmp(Ordering::NE), Box::new(local(0)), Box::new(int_lit(0)));
    let expected = Statement::If {
        cond,
        then: Block(vec![], vec![Statement::Return(Some(int_lit(2)))]),
        els: Some(Block(vec![], vec![Statement::Return(Some(int_lit(1)))])),
    };
    assert_eq!(block, Block(vec![], vec![expected]));
}

#[test]
fn counted_loop() {
    // while (local_0 < 10) local_0++; as a conditional back edge.
    let unit = unit_with(
        "A",
        "m",
        Metadata::new(),
        vec![
            (0, Instruction::Load(RValue::LValue(LValue::Local(0)))),
            (1, Instruction::Load(RValue::Constant(JavaConstant::Integer(10)))),
            (2, Instruction::Jump(Jump { address: 5, condition: Some(JumpCondition::Cmp(Ordering::GE)) })),
            (3, Instruction::Arithm(Arithm::IncreaseLocal { local_index: 0, increase: 1 })),
            (4, Instruction::Jump(Jump { address: 0, condition: None })),
            (5, Instruction::Return(None)),
        ],
    );
    let out = decompile(unit).unwrap();
    let block = first_method_block(out);
    let cond = Expr::BinaryOp(BinOp::Cmp(Ordering::GE), Box::new(local(0)), Box::new(int_lit(10)));
    let increment = Statement::Expr(Expr::Assign {
        to: Box::new(Assignable::Variable("local_0".to_string(), 0)),
        op: Some(BinOp::Add),
        from: Box::new(int_lit(1)),
    });
    let body = Statement::If {
        cond,
        then: Block(vec![], vec![Statement::Break(Some("loop_0".to_string()))]),
        els: Some(Block(vec![], vec![increment, Statement::Continue(Some("loop_0".to_string()))])),
    };
    let while_stmt = Statement::While {
        label: Some("loop_0".to_string()),
        cond: Expr::Literal(JavaConstant::Boolean(true)),
        body: Block(vec![], vec![body]),
        do_while: false,
    };
    assert_eq!(block, Block(vec![], vec![while_stmt, Statement::Return(None)]));
}

#[test]
fn self_loop_block_becomes_while() {
    // One block looping on itself, leaving over a conditional edge.
    let unit = unit_with(
        "A",
        "m",
        Metadata::new(),
        vec![
            (0, Instruction::Load(RValue::LValue(LValue::Local(0)))),
            (1, Instruction::Jump(Jump { address: 0, condition: Some(JumpCondition::CmpZero(Ordering::EQ)) })),
            (4, Instruction::Return(None)),
        ],
    );
    let out = decompile(unit).unwrap();
    let block = first_method_block(out);
    let cond = Expr::BinaryOp(BinOp::Cmp(Ordering::EQ), Box::new(local(0)), Box::new(int_lit(0)));
    let body = Statement::If {
        cond,
        then: Block(vec![], vec![Statement::Continue(Some("loop_0".to_string()))]),
        els: Some(Block(vec![], vec![Statement::Break(Some("loop_0".to_string()))])),
    };
    let while_stmt = Statement::While {
        label: Some("loop_0".to_string()),
        cond: Expr::Literal(JavaConstant::Boolean(true)),
        body: Block(vec![], vec![body]),
        do_while: false,
    };
    assert_eq!(block, Block(vec![], vec![while_stmt, Statement::Return(None)]));
}

#[test]
fn constructor_with_super() {
    let mut metadata = Metadata::new();
    metadata.method_refs.insert(
        7,
        unjavac::unit::MethodRef {
            class_ref: 3,
            name: "<init>".to_string(),
            signature: Signature { parameters: vec![], return_type: Type::Void },
        },
    );
    metadata.class_refs.insert(3, ClassRef("java.lang.Object".to_string()));
    let unit = unit_with(
        "Me",
        "<init>",
        metadata,
        vec![
            (0, Instruction::Load(RValue::LValue(LValue::Local(0)))),
            (1, Instruction::Invoke(Invoke { method_index: 7, kind: InvokeKind::Special })),
            (2, Instruction::Return(None)),
        ],
    );
    let out = decompile(unit).unwrap();
    let block = first_constructor_block(out);
    assert_eq!(
        block,
        Block(vec![], vec![Statement::SuperCall(vec![]), Statement::Return(None)]),
    );
}

#[test]
fn constructor_with_this_call() {
    let mut metadata = Metadata::new();
    metadata.method_refs.insert(
        7,
        unjavac::unit::MethodRef {
            class_ref: 3,
            name: "<init>".to_string(),
            signature: Signature { parameters: vec![], return_type: Type::Void },
        },
    );
    metadata.class_refs.insert(3, ClassRef("Me".to_string()));
    let unit = unit_with(
        "Me",
        "<init>",
        metadata,
        vec![
            (0, Instruction::Load(RValue::LValue(LValue::Local(0)))),
            (1, Instruction::Invoke(Invoke { method_index: 7, kind: InvokeKind::Special })),
            (2, Instruction::Return(None)),
        ],
    );
    let out = decompile(unit).unwrap();
    let block = first_constructor_block(out);
    assert_eq!(
        block,
        Block(vec![], vec![Statement::ThisCall(vec![]), Statement::Return(None)]),
    );
}

#[test]
fn field_store() {
    let mut metadata = Metadata::new();
    metadata.field_refs.insert(
        9,
        FieldRef { class_ref: 4, name: "count".to_string(), typ: Type::Int },
    );
    metadata.class_refs.insert(4, ClassRef("X".to_string()));
    let unit = unit_with(
        "X",
        "m",
        metadata,
        vec![
            (0, Instruction::Load(RValue::LValue(LValue::Local(0)))),
            (1, Instruction::Load(RValue::Constant(JavaConstant::Integer(7)))),
            (2, Instruction::Store(LValue::InstanceField { object_stack_index: -2, field_ref: 9 })),
            (3, Instruction::Return(None)),
        ],
    );
    let out = decompile(unit).unwrap();
    let block = first_method_block(out);
    let assign = Statement::Expr(Expr::Assign {
        to: Box::new(Assignable::Field {
            this: Some(Box::new(local(0))),
            class: ClassRef("X".to_string()),
            field: FieldRef { class_ref: 4, name: "count".to_string(), typ: Type::Int },
        }),
        op: None,
        from: Box::new(int_lit(7)),
    });
    assert_eq!(block, Block(vec![], vec![assign, Statement::Return(None)]));
}

#[test]
fn stack_join_mismatch_is_rejected() {
    // One branch leaves a value on the stack, the other does not.
    let unit = unit_with(
        "A",
        "m",
        Metadata::new(),
        vec![
            (0, Instruction::Load(RValue::LValue(LValue::Local(0)))),
            (1, Instruction::Jump(Jump { address: 7, condition: Some(JumpCondition::CmpZero(Ordering::EQ)) })),
            (4, Instruction::Load(RValue::Constant(JavaConstant::Integer(1)))),
            (5, Instruction::Jump(Jump { address: 7, condition: None })),
            (7, Instruction::Return(None)),
        ],
    );
    match decompile(unit) {
        Err(me) if matches!(me.error, unjavac::errors::Error::StackJoinMismatch { .. }) => {}
        other => panic!("expected a stack join mismatch, got {:?}", other),
    }
}

#[test]
fn malformed_constructor_call_is_rejected() {
    // The receiver of the <init> call is local_1, not the object
    // under construction.
    let mut metadata = Metadata::new();
    metadata.method_refs.insert(
        7,
        unjavac::unit::MethodRef {
            class_ref: 3,
            name: "<init>".to_string(),
            signature: Signature { parameters: vec![], return_type: Type::Void },
        },
    );
    metadata.class_refs.insert(3, ClassRef("Me".to_string()));
    let unit = unit_with(
        "Me",
        "<init>",
        metadata,
        vec![
            (0, Instruction::Load(RValue::LValue(LValue::Local(1)))),
            (1, Instruction::Invoke(Invoke { method_index: 7, kind: InvokeKind::Special })),
            (2, Instruction::Return(None)),
        ],
    );
    match decompile(unit) {
        Err(me) if matches!(me.error, unjavac::errors::Error::MalformedConstructorCall) => {}
        other => panic!("expected a malformed constructor call, got {:?}", other),
    }
}

#[test]
fn unresolved_constant_is_rejected() {
    // An invocation of a method index absent from the tables.
    let unit = unit_with(
        "A",
        "m",
        Metadata::new(),
        vec![
            (0, Instruction::Invoke(Invoke { method_index: 42, kind: InvokeKind::Static })),
            (1, Instruction::Return(None)),
        ],
    );
    match decompile(unit) {
        Err(me) if matches!(me.error, unjavac::errors::Error::UnresolvedConstant { index: 42 }) => {}
        other => panic!("expected an unresolved constant, got {:?}", other),
    }
}

#[test]
fn bad_jump_target_is_rejected() {
    let unit = unit_with(
        "A",
        "m",
        Metadata::new(),
        vec![
            (0, Instruction::Jump(Jump { address: 3, condition: None })),
            (1, Instruction::Return(None)),
        ],
    );
    match decompile(unit) {
        Err(me) if matches!(me.error, unjavac::errors::Error::BadJumpTarget { address: 3 }) => {}
        other => panic!("expected a bad jump target, got {:?}", other),
    }
}

#[test]
fn nonempty_stack_at_return_is_rejected() {
    let unit = unit_with(
        "A",
        "m",
        Metadata::new(),
        vec![
            (0, Instruction::Load(RValue::LValue(LValue::Local(0)))),
            (1, Instruction::Return(None)),
        ],
    );
    match decompile(unit) {
        Err(me) if matches!(me.error, unjavac::errors::Error::NonEmptyStackAtReturn { .. }) => {}
        other => panic!("expected a non-empty stack at return, got {:?}", other),
    }
}

#[test]
fn stack_underflow_is_rejected() {
    let unit = unit_with(
        "A",
        "m",
        Metadata::new(),
        vec![
            (0, Instruction::Arithm(Arithm::BinaryOp(BinaryOp::Add))),
            (1, Instruction::Return(None)),
        ],
    );
    match decompile(unit) {
        Err(me) if matches!(me.error, unjavac::errors::Error::StackUnderflow { .. }) => {}
        other => panic!("expected a stack underflow, got {:?}", other),
    }
}

#[test]
fn static_invoke_keeps_arguments_in_push_order() {
    let mut metadata = Metadata::new();
    metadata.method_refs.insert(
        8,
        unjavac::unit::MethodRef {
            class_ref: 3,
            name: "max".to_string(),
            signature: Signature {
                parameters: vec![Type::Int, Type::Int],
                return_type: Type::Int,
            },
        },
    );
    metadata.class_refs.insert(3, ClassRef("java.lang.Math".to_string()));
    let unit = unit_with(
        "A",
        "m",
        metadata,
        vec![
            (0, Instruction::Load(RValue::LValue(LValue::Local(0)))),
            (1, Instruction::Load(RValue::LValue(LValue::Local(1)))),
            (2, Instruction::Invoke(Invoke { method_index: 8, kind: InvokeKind::Static })),
            (3, Instruction::Return(Some(()))),
        ],
    );
    let out = decompile(unit).unwrap();
    let block = first_method_block(out);
    let call = Expr::Invoke(
        None,
        unjavac::unit::MethodRef {
            class_ref: 3,
            name: "max".to_string(),
            signature: Signature {
                parameters: vec![Type::Int, Type::Int],
                return_type: Type::Int,
            },
        },
        ClassRef("java.lang.Math".to_string()),
        vec![local(0), local(1)],
    );
    assert_eq!(block, Block(vec![], vec![Statement::Return(Some(call))]));
}
