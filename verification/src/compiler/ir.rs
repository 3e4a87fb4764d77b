//! The block-structured intermediate representation the generator emits.
//!
//! Values are handles: a function parameter, the result of an earlier
//! instruction — named by its index in the function's instruction list —
//! or a 64-bit constant. A storage slot is the index of the `Alloca`
//! instruction that created it. Loops are not lowered yet, so each
//! function is one entry block: its instruction list in order.

use vstd::prelude::*;

use crate::compiler::ast::BinaryOperator;
use crate::token::Type;

verus! {

/// A value handle inside one function.
#[derive(Debug, Clone, Copy, PartialEq, Eq, Structural)]
pub enum Value {
    /// The function's parameter with this index.
    Param(usize),
    /// The result of the instruction at this index.
    Instr(usize),
    /// A 64-bit signed constant.
    ConstI64(i64),
}

/// One instruction.
#[derive(Debug, PartialEq, Eq)]
pub enum Instr {
    /// Allocate one named stack slot.
    Alloca { name: Vec<char> },
    /// Store a value into a slot.
    Store { value: Value, slot: usize },
    /// Load from a slot.
    Load { slot: usize },
    /// Arithmetic or signed comparison of two values.
    BinOp { op: BinaryOperator, left: Value, right: Value },
    /// Call the module's function with this index.
    Call { callee: usize, args: Vec<Value> },
    /// Return, with or without a value.
    Ret { value: Option<Value> },
}

/// Spec-level view of one instruction.
pub enum InstrView {
    Alloca { name: Seq<char> },
    Store { value: Value, slot: usize },
    Load { slot: usize },
    BinOp { op: BinaryOperator, left: Value, right: Value },
    Call { callee: usize, args: Seq<Value> },
    Ret { value: Option<Value> },
}

impl View for Instr {
    type V = InstrView;

    open spec fn view(&self) -> InstrView {
        match self {
            Instr::Alloca { name } => InstrView::Alloca { name: name@ },
            Instr::Store { value, slot } => InstrView::Store { value: *value, slot: *slot },
            Instr::Load { slot } => InstrView::Load { slot: *slot },
            Instr::BinOp { op, left, right } => InstrView::BinOp {
                op: *op,
                left: *left,
                right: *right,
            },
            Instr::Call { callee, args } => InstrView::Call { callee: *callee, args: args@ },
            Instr::Ret { value } => InstrView::Ret { value: *value },
        }
    }
}

/// Elementwise view of an instruction list.
pub open spec fn instrs_view(body: Seq<Instr>) -> Seq<InstrView> {
    body.map_values(|i: Instr| i@)
}

/// One generated function.
#[derive(Debug, PartialEq, Eq)]
pub struct IrFunction {
    pub name: Vec<char>,
    pub param_types: Vec<Type>,
    pub param_names: Vec<Vec<char>>,
    pub return_type: Type,
    /// External linkage when public, module-local when not.
    pub is_public: bool,
    pub body: Vec<Instr>,
}

/// Spec-level view of one generated function.
#[verifier::ext_equal]
pub struct IrFunctionView {
    pub name: Seq<char>,
    pub param_types: Seq<Type>,
    pub param_names: Seq<Seq<char>>,
    pub return_type: Type,
    pub is_public: bool,
    pub body: Seq<InstrView>,
}

impl View for IrFunction {
    type V = IrFunctionView;

    open spec fn view(&self) -> IrFunctionView {
        IrFunctionView {
            name: self.name@,
            param_types: self.param_types@,
            param_names: self.param_names@.map_values(|n: Vec<char>| n@),
            return_type: self.return_type,
            is_public: self.is_public,
            body: instrs_view(self.body@),
        }
    }
}

/// The generated module: its functions in definition order.
#[derive(Debug, PartialEq, Eq)]
pub struct IrModule {
    pub functions: Vec<IrFunction>,
}

impl View for IrModule {
    type V = Seq<IrFunctionView>;

    open spec fn view(&self) -> Seq<IrFunctionView> {
        self.functions@.map_values(|f: IrFunction| f@)
    }
}

} // verus!
