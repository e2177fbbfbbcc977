//! The intermediate representation: modules of functions made of basic
//! blocks in static-single-assignment form.

use vstd::prelude::*;

verus! {

/// The name of a value or of a function: a number made up by the generator,
/// or a name taken from the source.
#[derive(Debug, PartialEq, Eq)]
pub enum Name {
    IName(u32),
    Name(String),
}

/// The mathematical value of a [`Name`].
pub ghost enum NameView {
    IName(nat),
    Name(Seq<char>),
}

impl View for Name {
    type V = NameView;

    open spec fn view(&self) -> NameView {
        match self {
            Name::IName(i) => NameView::IName(*i as nat),
            Name::Name(s) => NameView::Name(s@),
        }
    }
}

impl Clone for Name {
    fn clone(&self) -> (r: Self)
        ensures
            r == *self,
    {
        match self {
            Name::IName(i) => Name::IName(*i),
            Name::Name(s) => Name::Name(s.clone()),
        }
    }
}

/// The identifier of a basic block. Its view is the number itself.
#[derive(Clone, Copy, Debug, PartialEq, Eq)]
pub struct Label {
    pub id: u32,
}

impl View for Label {
    type V = nat;

    open spec fn view(&self) -> nat {
        self.id as nat
    }
}

/// A constant operand. Its view is the integer that it holds.
#[derive(Debug, PartialEq, Eq)]
pub enum Constant {
    CInt(i32),
}

impl View for Constant {
    type V = int;

    open spec fn view(&self) -> int {
        match self {
            Constant::CInt(v) => *v as int,
        }
    }
}

impl Clone for Constant {
    fn clone(&self) -> (r: Self)
        ensures
            r == *self,
    {
        match self {
            Constant::CInt(v) => Constant::CInt(*v),
        }
    }
}

/// The type of a parameter or of a result.
#[derive(Clone, Copy, Debug, PartialEq, Eq)]
pub enum Type {
    TInt,
    TVoid,
}

/// An operand: a constant, or the value last defined under a name.
#[derive(Debug, PartialEq, Eq)]
pub enum Value {
    Constant(Constant),
    Reference { name: Name },
}

/// The mathematical value of a [`Value`].
pub ghost enum ValueView {
    Constant(int),
    Reference { name: NameView },
}

impl View for Value {
    type V = ValueView;

    open spec fn view(&self) -> ValueView {
        match self {
            Value::Constant(c) => ValueView::Constant(c@),
            Value::Reference { name } => ValueView::Reference { name: name@ },
        }
    }
}

impl Clone for Value {
    fn clone(&self) -> (r: Self)
        ensures
            r == *self,
    {
        match self {
            Value::Constant(c) => Value::Constant(c.clone()),
            Value::Reference { name } => Value::Reference { name: name.clone() },
        }
    }
}

/// The values of a sequence of operands.
pub open spec fn values_view(values: Seq<Value>) -> Seq<ValueView> {
    values.map_values(|v: Value| v@)
}

/// What an instruction computes.
#[derive(Debug, PartialEq, Eq)]
pub enum InstructionBase {
    Binary { op: String, lhs: Value, rhs: Value },
    Call { caller: Value, arg: Value },
    /// The value `then_` if control came from the block `then_label`, the
    /// value `else_` if it came from the block `else_label`.
    Phi { then_: Value, then_label: Label, else_: Value, else_label: Label },
    Struct { values: Vec<Value> },
}

/// The mathematical value of an [`InstructionBase`].
pub ghost enum InstructionBaseView {
    Binary { op: Seq<char>, lhs: ValueView, rhs: ValueView },
    Call { caller: ValueView, arg: ValueView },
    Phi { then_: ValueView, then_label: nat, else_: ValueView, else_label: nat },
    Struct { values: Seq<ValueView> },
}

impl View for InstructionBase {
    type V = InstructionBaseView;

    open spec fn view(&self) -> InstructionBaseView {
        match self {
            InstructionBase::Binary { op, lhs, rhs } => InstructionBaseView::Binary {
                op: op@,
                lhs: lhs@,
                rhs: rhs@,
            },
            InstructionBase::Call { caller, arg } => InstructionBaseView::Call {
                caller: caller@,
                arg: arg@,
            },
            InstructionBase::Phi {
                then_,
                then_label,
                else_,
                else_label,
            } => InstructionBaseView::Phi {
                then_: then_@,
                then_label: then_label@,
                else_: else_@,
                else_label: else_label@,
            },
            InstructionBase::Struct { values } => InstructionBaseView::Struct {
                values: values_view(values@),
            },
        }
    }
}

/// A named computation inside a block.
#[derive(Debug, PartialEq, Eq)]
pub struct Instruction {
    pub name: Name,
    pub instruction_base: InstructionBase,
}

/// The mathematical value of an [`Instruction`].
pub ghost struct InstructionView {
    pub name: NameView,
    pub instruction_base: InstructionBaseView,
}

impl View for Instruction {
    type V = InstructionView;

    open spec fn view(&self) -> InstructionView {
        InstructionView { name: self.name@, instruction_base: self.instruction_base@ }
    }
}

/// The values of a sequence of instructions.
pub open spec fn instructions_view(instructions: Seq<Instruction>) -> Seq<InstructionView> {
    instructions.map_values(|i: Instruction| i@)
}

/// The transfer of control that ends a block.
#[derive(Debug, PartialEq, Eq)]
pub enum Terminator {
    Ret { value: Value },
    CondBr { cond: Value, then_: Label, else_: Label },
    Br { label: Label },
}

/// The mathematical value of a [`Terminator`].
pub ghost enum TerminatorView {
    Ret { value: ValueView },
    CondBr { cond: ValueView, then_: nat, else_: nat },
    Br { label: nat },
}

impl View for Terminator {
    type V = TerminatorView;

    open spec fn view(&self) -> TerminatorView {
        match self {
            Terminator::Ret { value } => TerminatorView::Ret { value: value@ },
            Terminator::CondBr { cond, then_, else_ } => TerminatorView::CondBr {
                cond: cond@,
                then_: then_@,
                else_: else_@,
            },
            Terminator::Br { label } => TerminatorView::Br { label: label@ },
        }
    }
}

/// A basic block: instructions in order, then one terminator.
#[derive(Debug, PartialEq, Eq)]
pub struct Block {
    pub label: Label,
    pub instructions: Vec<Instruction>,
    pub terminator: Terminator,
}

/// The mathematical value of a [`Block`].
pub ghost struct BlockView {
    pub label: nat,
    pub instructions: Seq<InstructionView>,
    pub terminator: TerminatorView,
}

impl View for Block {
    type V = BlockView;

    open spec fn view(&self) -> BlockView {
        BlockView {
            label: self.label@,
            instructions: instructions_view(self.instructions@),
            terminator: self.terminator@,
        }
    }
}

/// The values of a sequence of blocks.
pub open spec fn blocks_view(blocks: Seq<Block>) -> Seq<BlockView> {
    blocks.map_values(|b: Block| b@)
}

/// A function of one parameter. Its first block is its entry.
#[derive(Debug, PartialEq, Eq)]
pub struct Function {
    pub name: Name,
    pub ret_type: Type,
    pub param: Name,
    pub param_type: Type,
    pub blocks: Vec<Block>,
}

/// The mathematical value of a [`Function`].
pub ghost struct FunctionView {
    pub name: NameView,
    pub ret_type: Type,
    pub param: NameView,
    pub param_type: Type,
    pub blocks: Seq<BlockView>,
}

impl View for Function {
    type V = FunctionView;

    open spec fn view(&self) -> FunctionView {
        FunctionView {
            name: self.name@,
            ret_type: self.ret_type,
            param: self.param@,
            param_type: self.param_type,
            blocks: blocks_view(self.blocks@),
        }
    }
}

/// The values of a sequence of functions.
pub open spec fn functions_view(functions: Seq<Function>) -> Seq<FunctionView> {
    functions.map_values(|f: Function| f@)
}

/// A named list of functions.
#[derive(Debug, PartialEq, Eq)]
pub struct Module {
    pub name: String,
    pub functions: Vec<Function>,
}

/// The mathematical value of a [`Module`].
pub ghost struct ModuleView {
    pub name: Seq<char>,
    pub functions: Seq<FunctionView>,
}

impl View for Module {
    type V = ModuleView;

    open spec fn view(&self) -> ModuleView {
        ModuleView { name: self.name@, functions: functions_view(self.functions@) }
    }
}

} // verus!
