//! Everything that can stop the pipeline.  Every error is fatal to the
//! method it concerns; no pass recovers partially.
use vstd::prelude::*;

verus! {

#[derive(Clone, Debug, PartialEq)]
pub enum Error {
    /// An opcode outside the implemented subset.
    UnsupportedOpcode { opcode: u8, pc: u16 },
    /// An opcode in the reserved range 0xca..=0xff.
    InvalidOpcode { opcode: u8, pc: u16 },
    /// The byte stream ended in the middle of an instruction or header.
    TruncatedInput { pc: u16 },
    /// A jump referenced a byte offset that is no instruction boundary.
    BadJumpTarget { address: u16 },
    /// The symbolic stacks disagree where two paths join.
    StackJoinMismatch { block: usize, expected: isize, found: isize },
    /// An instruction would pop from an empty symbolic stack.
    StackUnderflow { block: usize },
    /// The symbolic stack is not empty after a return takes its value.
    NonEmptyStackAtReturn { block: usize },
    /// The symbolic stack grew beyond the bytecode limit of 65535 slots.
    StackOverflow { block: usize },
    /// A loop with more than one entry point, or none reachable;
    /// carries the blocks of the offending strongly connected
    /// component.
    IrreducibleLoop { blocks: Vec<usize> },
    /// A structuring step whose stop point does not postdominate the
    /// block that control moves to next.
    PostdominanceViolation { stop: usize, next: usize },
    /// A metadata lookup yielded no entry for a referenced index.
    UnresolvedConstant { index: u16 },
    /// An `<init>` invocation whose receiver is not `this`.
    MalformedConstructorCall,
    /// A constant-pool entry of a kind the reader does not know.
    UnsupportedConstantTag { tag: u8 },
    /// A constant-pool entry that should be a UTF-8 string is not.
    ExpectedUtf8Constant { index: u16 },
    /// A type or method descriptor that does not follow the grammar.
    MalformedDescriptor,
    /// A method whose code attribute carries exception handlers.
    ExceptionTableUnsupported,
    /// A code attribute longer than the 65535 bytes the format allows.
    OversizedCode,
    /// A class-file table the reader does not support: interfaces or
    /// fields.
    UnsupportedClassFeature,
    /// A branching block without exactly two successors, a block with
    /// no outgoing edge, or a region the structurer cannot linearise.
    UnstructuredFlow { block: usize },
    /// An instruction kind the lifter does not support.
    UnsupportedInstruction { block: usize },
    /// The data-flow analysis ran out of its iteration budget before
    /// reaching a fixed point.
    AnalysisBudgetExceeded,
}

/// An error together with the name of the method it arose in.
#[derive(Debug, PartialEq)]
pub struct MethodError {
    pub method: String,
    pub error: Error,
}

} // verus!
