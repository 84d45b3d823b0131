//! Decoders, descriptor translation, the class-file reader, and the
//! dominator analysis, each on concrete inputs.
use unjavac::ast::dec_string;
use unjavac::ast::{Assignable, Expr, Statement};
use unjavac::var_prop::{collect_def_info, is_propagatable, propagate};
use unjavac::cfg::{build_cfg, BasicBlock, Cfg, CfgGraph};
use unjavac::structure::structure_cfg;
use unjavac::classfile::{parse_class_file, parse_constant_pool, ConstantInfo, ConstantPool};
use unjavac::disassembler::{disassemble, parse_code_attribute, CodeAttribute};
use unjavac::errors::Error;
use unjavac::instructions::{
    decode_instruction, read_u16_index, Arithm, BinaryOp, Instruction, Jump, JumpCondition,
    LValue, Ordering, RValue, UnaryOp,
};
use unjavac::classfile::{AccessFlags, AttributeInfo, MethodInfo};
use unjavac::stack_to_var::StackLayout;
use unjavac::transform::{descriptor_to_signature, descriptor_to_type, dot_name, transform, transform_method};
use unjavac::unit::Metadata;
use unjavac::unit::{Code, JavaConstant, Type};

fn decode_one(bytes: Vec<u8>) -> Result<Instruction, Error> {
    let mut pos: usize = 1;
    decode_instruction(bytes[0], 0, &bytes, &mut pos)
}

#[test]
fn decodes_small_constants() {
    assert_eq!(
        decode_one(vec![0x02]).unwrap(),
        Instruction::Load(RValue::Constant(JavaConstant::Integer(-1))),
    );
    assert_eq!(
        decode_one(vec![0x08]).unwrap(),
        Instruction::Load(RValue::Constant(JavaConstant::Integer(5))),
    );
}

#[test]
fn decodes_local_loads_and_stores() {
    assert_eq!(
        decode_one(vec![0x1a]).unwrap(),
        Instruction::Load(RValue::LValue(LValue::Local(0))),
    );
    assert_eq!(
        decode_one(vec![0x2d]).unwrap(),
        Instruction::Load(RValue::LValue(LValue::Local(3))),
    );
    assert_eq!(decode_one(vec![0x3c]).unwrap(), Instruction::Store(LValue::Local(1)));
}

#[test]
fn decodes_field_access() {
    assert_eq!(
        decode_one(vec![0xb4, 0x01, 0x02]).unwrap(),
        Instruction::Load(RValue::LValue(LValue::InstanceField {
            object_stack_index: -1,
            field_ref: 0x0102,
        })),
    );
    assert_eq!(
        decode_one(vec![0xb5, 0x00, 0x09]).unwrap(),
        Instruction::Store(LValue::InstanceField { object_stack_index: -2, field_ref: 9 }),
    );
    assert_eq!(
        decode_one(vec![0xb2, 0x00, 0x10]).unwrap(),
        Instruction::Load(RValue::LValue(LValue::StaticField { field_ref: 16 })),
    );
}

#[test]
fn decodes_arithmetic_families() {
    assert_eq!(decode_one(vec![0x60]).unwrap(), Instruction::Arithm(Arithm::BinaryOp(BinaryOp::Add)));
    assert_eq!(decode_one(vec![0x6e]).unwrap(), Instruction::Arithm(Arithm::BinaryOp(BinaryOp::Div)));
    match decode_one(vec![0x6f]) {
        Err(Error::UnsupportedOpcode { opcode: 0x6f, .. }) => {}
        other => panic!("expected an unsupported opcode, got {:?}", other),
    }
    assert_eq!(decode_one(vec![0x63]).unwrap(), Instruction::Arithm(Arithm::BinaryOp(BinaryOp::Add)));
    assert_eq!(decode_one(vec![0x74]).unwrap(), Instruction::Arithm(Arithm::UnaryOp(UnaryOp::Neg)));
    assert_eq!(
        decode_one(vec![0x84, 0x02, 0xff]).unwrap(),
        Instruction::Arithm(Arithm::IncreaseLocal { local_index: 2, increase: -1 }),
    );
}

#[test]
fn decodes_jumps_with_signed_offsets() {
    // A backward jump: pc 10, offset -10.
    let bytes = vec![0xa7, 0xff, 0xf6];
    let mut pos: usize = 1;
    let decoded = decode_instruction(0xa7, 10, &bytes, &mut pos).unwrap();
    assert_eq!(decoded, Instruction::Jump(Jump { address: 0, condition: None }));

    // A conditional forward jump: ifeq, pc 0, offset 6.
    let decoded = decode_one(vec![0x99, 0x00, 0x06]).unwrap();
    assert_eq!(
        decoded,
        Instruction::Jump(Jump { address: 6, condition: Some(JumpCondition::CmpZero(Ordering::EQ)) }),
    );
}

#[test]
fn reference_comparisons_use_equality_orderings() {
    assert_eq!(
        decode_one(vec![0xa5, 0x00, 0x04]).unwrap(),
        Instruction::Jump(Jump { address: 4, condition: Some(JumpCondition::CmpRef(Ordering::EQ)) }),
    );
    assert_eq!(
        decode_one(vec![0xa6, 0x00, 0x04]).unwrap(),
        Instruction::Jump(Jump { address: 4, condition: Some(JumpCondition::CmpRef(Ordering::NE)) }),
    );
}

#[test]
fn invalid_and_unsupported_opcodes() {
    match decode_one(vec![0xca]) {
        Err(Error::InvalidOpcode { opcode: 0xca, .. }) => {}
        other => panic!("expected an invalid opcode, got {:?}", other),
    }
    match decode_one(vec![0x57]) {
        Err(Error::UnsupportedOpcode { opcode: 0x57, .. }) => {}
        other => panic!("expected an unsupported opcode, got {:?}", other),
    }
    match decode_one(vec![0x12]) {
        Err(Error::TruncatedInput { .. }) => {}
        other => panic!("expected truncated input, got {:?}", other),
    }
}

#[test]
fn read_u16_is_big_endian() {
    let bytes = vec![0x12, 0x34];
    let mut pos: usize = 0;
    assert_eq!(read_u16_index(&bytes, &mut pos).unwrap(), 0x1234);
    assert_eq!(pos, 2);
}

#[test]
fn decimal_strings() {
    assert_eq!(dec_string(0), "0");
    assert_eq!(dec_string(7), "7");
    assert_eq!(dec_string(10), "10");
    assert_eq!(dec_string(65535), "65535");
}

#[test]
fn dotted_names() {
    assert_eq!(dot_name("java/lang/Object"), "java.lang.Object");
    assert_eq!(dot_name("NoSlashes"), "NoSlashes");
}

#[test]
fn descriptor_types() {
    let mut pos: usize = 0;
    assert_eq!(descriptor_to_type("I", &mut pos).unwrap(), Type::Int);
    pos = 0;
    assert_eq!(
        descriptor_to_type("Ljava/lang/String;", &mut pos).unwrap(),
        Type::Reference("java.lang.String".to_string()),
    );
    pos = 0;
    assert_eq!(
        descriptor_to_type("[[Z", &mut pos).unwrap(),
        Type::Array(Box::new(Type::Array(Box::new(Type::Boolean)))),
    );
    pos = 0;
    match descriptor_to_type("Q", &mut pos) {
        Err(Error::MalformedDescriptor) => {}
        other => panic!("expected a malformed descriptor, got {:?}", other),
    }
}

#[test]
fn descriptor_signatures() {
    let sig = descriptor_to_signature("(IJLjava/lang/String;)V").unwrap();
    assert_eq!(
        sig.parameters,
        vec![Type::Int, Type::Long, Type::Reference("java.lang.String".to_string())],
    );
    assert_eq!(sig.return_type, Type::Void);
    match descriptor_to_signature("I") {
        Err(Error::MalformedDescriptor) => {}
        other => panic!("expected a malformed descriptor, got {:?}", other),
    }
}

#[test]
fn constant_pool_reader() {
    // count = 3: a UTF-8 entry "Hi" and an integer entry.
    let bytes = vec![0x00, 0x03, 1, 0x00, 0x02, b'H', b'i', 3, 0x00, 0x00, 0x00, 0x2a];
    let mut pos: usize = 0;
    let pool = parse_constant_pool(&bytes, &mut pos).unwrap();
    assert_eq!(pool.len(), 2);
    assert_eq!(pool[0], ConstantInfo::Utf8("Hi".to_string()));
    assert_eq!(pool[1], ConstantInfo::Integer(42));

    let cp = ConstantPool { constants: pool };
    assert_eq!(cp.lookup_string(1).unwrap(), "Hi");
    match cp.lookup_string(2) {
        Err(Error::ExpectedUtf8Constant { index: 2 }) => {}
        other => panic!("expected a non-UTF-8 complaint, got {:?}", other),
    }
}

#[test]
fn unknown_constant_tag_is_rejected() {
    let bytes = vec![0x00, 0x02, 99, 0, 0];
    let mut pos: usize = 0;
    match parse_constant_pool(&bytes, &mut pos) {
        Err(Error::UnsupportedConstantTag { tag: 99 }) => {}
        other => panic!("expected an unsupported tag, got {:?}", other),
    }
}

#[test]
fn code_attribute_reader() {
    // max_stack 2, max_local 1, code [iconst_0? no: 0x03, 0xac],
    // no handlers, no attributes.
    let bytes = vec![
        0x00, 0x02, // max_stack
        0x00, 0x01, // max_local
        0x00, 0x00, 0x00, 0x02, // code length
        0x03, 0xac, // iconst_0; ireturn
        0x00, 0x00, // exception table length
        0x00, 0x00, // attribute count
    ];
    let attr = parse_code_attribute(&bytes).unwrap();
    assert_eq!(attr.max_stack, 2);
    assert_eq!(attr.max_local, 1);
    assert_eq!(attr.code, vec![0x03, 0xac]);
    assert_eq!(attr.exception_table.len(), 0);

    let code = disassemble(&attr).unwrap();
    assert_eq!(
        code.instructions,
        vec![
            (0, Instruction::Load(RValue::Constant(JavaConstant::Integer(0)))),
            (1, Instruction::Return(Some(()))),
        ],
    );
}

#[test]
fn oversized_code_is_rejected() {
    let bytes = vec![
        0x00, 0x02,
        0x00, 0x01,
        0x00, 0x01, 0x00, 0x00, // code length 65536
    ];
    match parse_code_attribute(&bytes) {
        Err(Error::OversizedCode) => {}
        other => panic!("expected oversized code, got {:?}", other),
    }
}

fn singleton_block_code() -> Code {
    // Every instruction is a jump or follows one, so every
    // instruction is already its own basic block.
    Code {
        instructions: vec![
            (0, Instruction::Jump(Jump { address: 3, condition: None })),
            (3, Instruction::Jump(Jump { address: 6, condition: None })),
            (6, Instruction::Return(None)),
        ],
    }
}

#[test]
fn cfg_builder_is_stable_on_single_instruction_blocks() {
    let cfg1 = build_cfg(singleton_block_code()).unwrap();
    let cfg2 = build_cfg(singleton_block_code()).unwrap();
    assert_eq!(cfg1.graph.edges, cfg2.graph.edges);
    // Three one-instruction blocks, the entry, and the exit.
    assert_eq!(cfg1.graph.nodes.len(), 5);
    assert_eq!(
        cfg1.graph.edges,
        vec![
            (0, 1, false),
            (1, 2, false),
            (3, 0, false), // entry to the first block
            (2, 4, false), // the return flows to the exit
        ],
    );
    assert_eq!(cfg1.entry_point, 3);
    assert_eq!(cfg1.exit_point, 4);
}

#[test]
fn dominators_of_a_diamond() {
    let code = Code {
        instructions: vec![
            (0, Instruction::Load(RValue::LValue(LValue::Local(0)))),
            (1, Instruction::Jump(Jump { address: 6, condition: Some(JumpCondition::CmpZero(Ordering::EQ)) })),
            (4, Instruction::Jump(Jump { address: 8, condition: None })),
            (6, Instruction::Nop),
            (8, Instruction::Return(None)),
        ],
    };
    let cfg = build_cfg(code).unwrap();
    // Blocks: 0 = test, 1 = fall through, 2 = branch target,
    // 3 = join/return, then entry 4 and exit 5.
    let doms = cfg.compute_dominators(false);
    assert_eq!(doms.root(), cfg.entry_point);
    assert_eq!(doms.get_immediate(cfg.entry_point), None);
    assert_eq!(doms.get_immediate(0), Some(cfg.entry_point));
    assert_eq!(doms.get_immediate(1), Some(0));
    assert_eq!(doms.get_immediate(2), Some(0));
    assert_eq!(doms.get_immediate(3), Some(0));
    assert!(doms.is_for(cfg.entry_point, 3));
    assert!(doms.is_for(0, 2));
    assert!(!doms.is_for(1, 2));
    assert_eq!(doms.get_all(1), vec![1, 0, cfg.entry_point]);
    assert_eq!(doms.get_common(&vec![1, 2]), Some(0));

    let posts = cfg.compute_dominators(true);
    assert_eq!(posts.root(), cfg.exit_point);
    assert_eq!(posts.get_immediate(0), Some(3));
    assert_eq!(posts.get_common(&vec![1, 2]), Some(3));
}

#[test]
fn irreducible_loops_are_rejected() {
    // Two blocks jumping at each other, entered at both: no single
    // loop entry exists.
    let code = Code {
        instructions: vec![
            (0, Instruction::Load(RValue::LValue(LValue::Local(0)))),
            (1, Instruction::Jump(Jump { address: 8, condition: Some(JumpCondition::CmpZero(Ordering::EQ)) })),
            (4, Instruction::Nop),
            (5, Instruction::Jump(Jump { address: 8, condition: None })),
            (8, Instruction::Nop),
            (9, Instruction::Jump(Jump { address: 4, condition: None })),
        ],
    };
    let unit = unjavac::unit::CompilationUnit {
        typ: unjavac::unit::UnitType::Class,
        modifiers: vec![],
        name: "A".to_string(),
        metadata: unjavac::unit::Metadata::new(),
        declarations: vec![unjavac::unit::Declaration::Method(unjavac::unit::Method {
            modifiers: vec![],
            name: "m".to_string(),
            signature: unjavac::unit::Signature { parameters: vec![], return_type: Type::Void },
            code: Some(code),
        })],
    };
    match unjavac::decompile::decompile(unit) {
        Err(me) => match me.error {
            Error::IrreducibleLoop { blocks } => {
                assert_eq!(me.method, "m");
                assert!(!blocks.is_empty());
            }
            other => panic!("expected an irreducible loop, got {:?}", other),
        },
        other => panic!("expected an irreducible loop, got {:?}", other),
    }
}

#[test]
fn class_file_reader_end_to_end() {
    // A minimal class: constant pool with a class entry and its
    // name, no interfaces, fields or methods.
    let mut bytes: Vec<u8> = vec![];
    bytes.extend([0xca, 0xfe, 0xba, 0xbe]); // magic
    bytes.extend([0x00, 0x00]); // minor
    bytes.extend([0x00, 0x34]); // major
    bytes.extend([0x00, 0x03]); // constant pool count
    bytes.push(1); // Utf8
    bytes.extend([0x00, 0x07]);
    bytes.extend(*b"pkg/Cls");
    bytes.push(7); // Class -> name at 1
    bytes.extend([0x00, 0x01]);
    bytes.extend([0x00, 0x21]); // access flags: public super
    bytes.extend([0x00, 0x02]); // this class
    bytes.extend([0x00, 0x00]); // super class
    bytes.extend([0x00, 0x00]); // interfaces
    bytes.extend([0x00, 0x00]); // fields
    bytes.extend([0x00, 0x00]); // methods
    let class_file = parse_class_file(&bytes).unwrap();
    assert_eq!(class_file.magic, 0xcafebabe);
    assert_eq!(class_file.this_class, 2);
    let unit = transform(&class_file).unwrap();
    assert_eq!(unit.name, "pkg.Cls");
    assert_eq!(unit.modifiers, vec![unjavac::unit::Modifier::Public]);
}

#[test]
fn interfaces_and_fields_are_not_supported() {
    let mut bytes: Vec<u8> = vec![];
    bytes.extend([0xca, 0xfe, 0xba, 0xbe]);
    bytes.extend([0x00, 0x00]);
    bytes.extend([0x00, 0x34]);
    bytes.extend([0x00, 0x01]); // empty constant pool
    bytes.extend([0x00, 0x21]);
    bytes.extend([0x00, 0x02]);
    bytes.extend([0x00, 0x00]);
    bytes.extend([0x00, 0x01]); // one interface
    match parse_class_file(&bytes) {
        Err(Error::UnsupportedClassFeature) => {}
        other => panic!("expected an unsupported class feature, got {:?}", other),
    }
}

#[test]
fn lifting_rejects_overflow_and_foreign_instructions() {
    let metadata = Metadata::new();
    let mut layout = StackLayout(65535);
    match layout.execute(
        &Instruction::Load(RValue::Constant(JavaConstant::Integer(1))),
        &metadata,
        0,
    ) {
        Err(Error::StackOverflow { .. }) => {}
        other => panic!("expected a stack overflow, got {:?}", other),
    }
    let mut layout = StackLayout(0);
    match layout.execute(&Instruction::Throw, &metadata, 0) {
        Err(Error::UnsupportedInstruction { .. }) => {}
        other => panic!("expected an unsupported instruction, got {:?}", other),
    }
}

#[test]
fn exception_tables_are_rejected() {
    // Pool: 1 = "Code", 2 = "m", 3 = "()V".
    let pool = ConstantPool {
        constants: vec![
            ConstantInfo::Utf8("Code".to_string()),
            ConstantInfo::Utf8("m".to_string()),
            ConstantInfo::Utf8("()V".to_string()),
        ],
    };
    let info = vec![
        0x00, 0x01, // max_stack
        0x00, 0x01, // max_local
        0x00, 0x00, 0x00, 0x01, // code length
        0xb1, // return
        0x00, 0x01, // one exception handler
        0x00, 0x00, 0x00, 0x01, 0x00, 0x01, 0x00, 0x00,
        0x00, 0x00, // attributes
    ];
    let method = MethodInfo {
        access_flags: AccessFlags::from_bits(0),
        name_index: 2,
        descriptor_index: 3,
        attributes: vec![AttributeInfo { name_index: 1, info }],
    };
    match transform_method(&pool, &method) {
        Err(Error::ExceptionTableUnsupported) => {}
        other => panic!("expected rejected handlers, got {:?}", other),
    }
}

#[test]
fn dead_ends_fail_postdominance() {
    // A node with no path to the exit: the exit cannot postdominate
    // it, and linearisation refuses the step into it.
    let cfg: Cfg<unjavac::ast::Statement, unjavac::ast::Expr> = Cfg {
        graph: CfgGraph {
            nodes: vec![
                BasicBlock { stmts: vec![], terminator: None },
                BasicBlock { stmts: vec![], terminator: None },
                BasicBlock { stmts: vec![], terminator: None },
            ],
            edges: vec![(1, 0, false)],
        },
        entry_point: 1,
        exit_point: 2,
    };
    match structure_cfg(&cfg) {
        Err(Error::PostdominanceViolation { .. }) => {}
        other => panic!("expected a postdominance violation, got {:?}", other),
    }
}

#[test]
fn branching_block_needs_two_successors() {
    // A block that keeps a branch condition but has a single edge.
    let cfg: Cfg<unjavac::ast::Statement, unjavac::ast::Expr> = Cfg {
        graph: CfgGraph {
            nodes: vec![
                BasicBlock { stmts: vec![], terminator: Some(unjavac::ast::Expr::This) },
                BasicBlock { stmts: vec![], terminator: None },
                BasicBlock { stmts: vec![], terminator: None },
            ],
            edges: vec![(1, 0, false), (0, 2, true)],
        },
        entry_point: 1,
        exit_point: 2,
    };
    match structure_cfg(&cfg) {
        Err(Error::UnstructuredFlow { block: 0 }) => {}
        other => panic!("expected unstructured flow, got {:?}", other),
    }
}

#[test]
fn lifting_names_stack_slots() {
    let metadata = Metadata::new();
    let mut layout = StackLayout(0);
    let stmts = layout
        .execute(&Instruction::Load(RValue::LValue(LValue::Local(0))), &metadata, 0)
        .unwrap();
    assert_eq!(layout.0, 1);
    assert_eq!(
        stmts,
        vec![Statement::Expr(Expr::Assign {
            to: Box::new(Assignable::Variable("stack_0".to_string(), 0)),
            op: None,
            from: Box::new(Expr::Assignable(Box::new(Assignable::Variable(
                "local_0".to_string(),
                0,
            )))),
        })],
    );
}

#[test]
fn return_leaves_an_empty_stack() {
    let metadata = Metadata::new();
    let mut layout = StackLayout(1);
    let stmts = layout.execute(&Instruction::Return(Some(())), &metadata, 0).unwrap();
    assert_eq!(layout.0, 0);
    assert_eq!(stmts.len(), 1);
    assert!(matches!(stmts[0], Statement::Return(Some(_))));
}

#[test]
fn propagation_blanks_consumed_definitions() {
    // One block: stack_0 = local_0; return stack_0.
    let assign = Statement::Expr(Expr::Assign {
        to: Box::new(Assignable::Variable("stack_0".to_string(), 0)),
        op: None,
        from: Box::new(Expr::Assignable(Box::new(Assignable::Variable(
            "local_0".to_string(),
            0,
        )))),
    });
    let ret = Statement::Return(Some(Expr::Assignable(Box::new(Assignable::Variable(
        "stack_0".to_string(),
        0,
    )))));
    let cfg: Cfg<Statement, Expr> = Cfg {
        graph: CfgGraph {
            nodes: vec![
                BasicBlock { stmts: vec![assign, ret], terminator: None },
                BasicBlock { stmts: vec![], terminator: None },
                BasicBlock { stmts: vec![], terminator: None },
            ],
            edges: vec![(1, 0, false), (0, 2, false)],
        },
        entry_point: 1,
        exit_point: 2,
    };
    let info = collect_def_info(&cfg).unwrap();
    assert_eq!(info.definitions.len(), 1);
    assert!(is_propagatable(&info.definitions[0]));

    let metadata = Metadata::new();
    let out = propagate(cfg, &metadata).unwrap();
    // The consumed definition is blanked, the read is inlined.
    assert_eq!(out.graph.nodes[0].stmts[0], Statement::Nop);
    assert_eq!(
        out.graph.nodes[0].stmts[1],
        Statement::Return(Some(Expr::Assignable(Box::new(Assignable::Variable(
            "local_0".to_string(),
            0,
        ))))),
    );
}
