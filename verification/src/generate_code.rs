//! Code generation: an expression tree becomes a module of functions in
//! static-single-assignment form.
//!
//! Every function literal, and the tree as a whole under the name `main`,
//! becomes one function. A function is generated by one walk over its body
//! that appends instructions to the block that is open, closes that block
//! and opens the next where control flow splits or joins, and keeps track of
//! the value that each name in scope stands for.

use vstd::prelude::*;
use crate::code::{
    blocks_view, functions_view, instructions_view, Block, BlockView, Constant, Function,
    FunctionView, Instruction, InstructionBase, InstructionBaseView, InstructionView, Label,
    Module, ModuleView, Name, NameView, Terminator, TerminatorView, Type, Value, ValueView,
};
use crate::error::{CompileError, CompileErrorView, COUNTER_MAX};
use crate::expression::{Expression, ExpressionView, Identifier};
use crate::scope::Scope;

verus! {

/// What the generation of one function has reached.
pub ghost struct GenState {
    /// The value that each visible name stands for.
    pub scope: Map<Seq<char>, ValueView>,
    /// The name that the next instruction is asked to take, if any.
    pub requested_name: Option<Seq<char>>,
    /// The label that the next new block gets.
    pub next_label: nat,
    /// The number that the next unnamed value gets.
    pub next_iname: nat,
    /// The functions finished so far: those of the function literals met.
    pub functions: Seq<FunctionView>,
    /// The label of the block that is open.
    pub current_label: nat,
    /// The blocks that are closed, in the order in which they were closed.
    pub current_blocks: Seq<BlockView>,
    /// The instructions of the block that is open.
    pub current_instructions: Seq<InstructionView>,
}

impl GenState {
    /// This state with `name` as its requested name.
    pub open spec fn with_requested_name(self, name: Option<Seq<char>>) -> GenState {
        GenState { requested_name: name, ..self }
    }

    /// This state with `scope` as its scope.
    pub open spec fn with_scope(self, scope: Map<Seq<char>, ValueView>) -> GenState {
        GenState { scope, ..self }
    }
}

/// The state in which the generation of a function starts: nothing in
/// scope, the entry block open under the label 0.
pub open spec fn initial_state() -> GenState {
    GenState {
        scope: Map::empty(),
        requested_name: None,
        next_label: 1,
        next_iname: 0,
        functions: Seq::empty(),
        current_label: 0,
        current_blocks: Seq::empty(),
        current_instructions: Seq::empty(),
    }
}

/// A name for a new value or function: `requested` if there is one, else
/// the next number, which is then used up.
pub open spec fn fresh_name(state: GenState, requested: Option<Seq<char>>) -> Result<
    (NameView, GenState),
    CompileErrorView,
> {
    match requested {
        Some(name) => Ok((NameView::Name(name), state)),
        None => if state.next_iname >= COUNTER_MAX {
            Err(CompileErrorView::CounterOverflow)
        } else {
            Ok(
                (
                    NameView::IName(state.next_iname),
                    GenState { next_iname: state.next_iname + 1, ..state },
                ),
            )
        },
    }
}

/// A label that no block of this function has yet.
pub open spec fn fresh_label(state: GenState) -> Result<(nat, GenState), CompileErrorView> {
    if state.next_label >= COUNTER_MAX {
        Err(CompileErrorView::CounterOverflow)
    } else {
        Ok((state.next_label, GenState { next_label: state.next_label + 1, ..state }))
    }
}

/// Appends `instruction` to the open block; its value is referred to by its
/// name.
pub open spec fn emit(state: GenState, instruction: InstructionView) -> (ValueView, GenState) {
    (
        ValueView::Reference { name: instruction.name },
        GenState {
            current_instructions: state.current_instructions.push(instruction),
            ..state
        },
    )
}

/// Closes the open block with `terminator` and opens an empty block under
/// `next_label`.
pub open spec fn close_block(state: GenState, terminator: TerminatorView, next_label: nat)
    -> GenState {
    GenState {
        current_label: next_label,
        current_blocks: state.current_blocks.push(
            BlockView {
                label: state.current_label,
                instructions: state.current_instructions,
                terminator,
            },
        ),
        current_instructions: Seq::empty(),
        ..state
    }
}

/// Ends the block of a condition whose value is `cond`: two new labels, a
/// conditional branch to them, and the block of the first one open. Gives
/// the second label, under which the other arm will stand.
pub open spec fn split(state: GenState, cond: ValueView) -> Result<
    (nat, GenState),
    CompileErrorView,
> {
    match fresh_label(state) {
        Ok((then_label, state)) => match fresh_label(state) {
            Ok((else_label, state)) => Ok(
                (
                    else_label,
                    close_block(
                        state,
                        TerminatorView::CondBr { cond, then_: then_label, else_: else_label },
                        then_label,
                    ),
                ),
            ),
            Err(error) => Err(error),
        },
        Err(error) => Err(error),
    }
}

/// Ends the first arm of a conditional: a new label for the block where the
/// arms join, a branch to it, and the block `else_label` open. Gives the
/// label of the block that the first arm ended in, and the label of the
/// join.
pub open spec fn switch_arm(state: GenState, else_label: nat) -> Result<
    (nat, nat, GenState),
    CompileErrorView,
> {
    match fresh_label(state) {
        Ok((end_label, after)) => Ok(
            (
                state.current_label,
                end_label,
                close_block(after, TerminatorView::Br { label: end_label }, else_label),
            ),
        ),
        Err(error) => Err(error),
    }
}

/// Ends the second arm of a conditional and joins the arms: a branch to
/// `end_label`, that block open, and in it a phi instruction that takes
/// `then_value` from the block `then_end` and `else_value` from the block that
/// the second arm ended in.
pub open spec fn join(
    state: GenState,
    requested: Option<Seq<char>>,
    then_value: ValueView,
    then_end: nat,
    else_value: ValueView,
    end_label: nat,
) -> Result<(ValueView, GenState), CompileErrorView> {
    let else_end = state.current_label;
    let joined = close_block(state, TerminatorView::Br { label: end_label }, end_label);
    match fresh_name(joined, requested) {
        Ok((name, state)) => Ok(
            emit(
                state,
                InstructionView {
                    name,
                    instruction_base: InstructionBaseView::Phi {
                        then_: then_value,
                        then_label: then_end,
                        else_: else_value,
                        else_label: else_end,
                    },
                },
            ),
        ),
        Err(error) => Err(error),
    }
}

/// Names and appends the instruction that computes `base`.
pub open spec fn emit_named(
    state: GenState,
    requested: Option<Seq<char>>,
    base: InstructionBaseView,
) -> Result<(ValueView, GenState), CompileErrorView> {
    match fresh_name(state, requested) {
        Ok((name, state)) => Ok(emit(state, InstructionView { name, instruction_base: base })),
        Err(error) => Err(error),
    }
}

/// Generates `expression` from `state`. On success, gives the value of the
/// expression and the state reached.
pub open spec fn generate_in(expression: ExpressionView, state: GenState) -> Result<
    (ValueView, GenState),
    CompileErrorView,
>
    decreases expression, 0nat,
{
    let requested = state.requested_name;
    let unnamed = state.with_requested_name(None);
    match expression {
        ExpressionView::Body { body } => if body.len() == 0 {
            Err(CompileErrorView::EmptyBody)
        } else {
            match generate_prefix(body, (body.len() - 1) as nat, unnamed) {
                Ok(before_last) => match generate_in(
                    body[body.len() - 1],
                    before_last.with_requested_name(requested),
                ) {
                    Ok((value, after)) => Ok((value, after.with_scope(state.scope))),
                    Err(error) => Err(error),
                },
                Err(error) => Err(error),
            }
        },
        ExpressionView::Name { name, body } => match generate_nested(
            *body,
            state.with_requested_name(Some(name.name)),
        ) {
            Ok((value, after)) => Ok(
                (
                    value,
                    after.with_requested_name(None).with_scope(
                        state.scope.insert(name.name, value),
                    ),
                ),
            ),
            Err(error) => Err(error),
        },
        ExpressionView::Function { param, body } => match fresh_name(unnamed, requested) {
            Ok((name, after)) => match function_of(name, param.name, *body) {
                Ok(functions) => Ok(
                    (
                        ValueView::Reference { name },
                        GenState { functions: after.functions + functions, ..after },
                    ),
                ),
                Err(error) => Err(error),
            },
            Err(error) => Err(error),
        },
        ExpressionView::Op { op, lhs, rhs } => match generate_nested(*lhs, unnamed) {
            Ok((lhs, after)) => match generate_nested(*rhs, after) {
                Ok((rhs, after)) => emit_named(
                    after,
                    requested,
                    InstructionBaseView::Binary { op, lhs, rhs },
                ),
                Err(error) => Err(error),
            },
            Err(error) => Err(error),
        },
        ExpressionView::Reference(name) => if state.scope.contains_key(name.name) {
            Ok((state.scope[name.name], state))
        } else {
            Err(CompileErrorView::UnresolvedReference(name.name))
        },
        ExpressionView::Literal { value } => Ok((ValueView::Constant(value), state)),
        ExpressionView::Call { caller, arg } => match generate_nested(*arg, unnamed) {
            Ok((arg, after)) => match generate_nested(*caller, after) {
                Ok((caller, after)) => emit_named(
                    after,
                    requested,
                    InstructionBaseView::Call { caller, arg },
                ),
                Err(error) => Err(error),
            },
            Err(error) => Err(error),
        },
        ExpressionView::If { cond, then_, else_ } => match generate_nested(*cond, unnamed) {
            Ok((cond, after)) => match split(after, cond) {
                Ok((else_label, after)) => match generate_nested(*then_, after) {
                    Ok((then_value, after)) => match switch_arm(after, else_label) {
                        Ok((then_end, end_label, after)) => match generate_nested(*else_, after) {
                            Ok((else_value, after)) => join(
                                after,
                                requested,
                                then_value,
                                then_end,
                                else_value,
                                end_label,
                            ),
                            Err(error) => Err(error),
                        },
                        Err(error) => Err(error),
                    },
                    Err(error) => Err(error),
                },
                Err(error) => Err(error),
            },
            Err(error) => Err(error),
        },
    }
}

/// Generates `expression` as a nested scope: the names that it binds are
/// dropped again.
pub open spec fn generate_nested(expression: ExpressionView, state: GenState) -> Result<
    (ValueView, GenState),
    CompileErrorView,
>
    decreases expression, 1nat,
{
    match generate_in(expression, state) {
        Ok((value, after)) => Ok((value, after.with_scope(state.scope))),
        Err(error) => Err(error),
    }
}

/// Generates the first `n` of `items` from left to right for their effects,
/// each from the state that the one before it reached.
pub open spec fn generate_prefix(items: Seq<ExpressionView>, n: nat, state: GenState) -> Result<
    GenState,
    CompileErrorView,
>
    decreases items, n,
{
    if n == 0 || n > items.len() {
        Ok(state)
    } else {
        match generate_prefix(items, (n - 1) as nat, state) {
            Ok(before) => match generate_in(items[n - 1], before) {
                Ok((_, after)) => Ok(after),
                Err(error) => Err(error),
            },
            Err(error) => Err(error),
        }
    }
}

/// The type of a parameter: none where the parameter has no name.
pub open spec fn param_type_of(param: Seq<char>) -> Type {
    if param.len() == 0 {
        Type::TVoid
    } else {
        Type::TInt
    }
}

/// The functions that a function literal of parameter `param` and body
/// `body` becomes: those of the literals inside it, then the function
/// itself under `name`.
pub open spec fn function_of(name: NameView, param: Seq<char>, body: ExpressionView) -> Result<
    Seq<FunctionView>,
    CompileErrorView,
>
    decreases body, 2nat,
{
    let start = initial_state().with_scope(
        Map::empty().insert(param, ValueView::Reference { name: NameView::Name(param) }),
    );
    match generate_in(body, start) {
        Ok((value, end)) => Ok(
            end.functions.push(
                FunctionView {
                    name,
                    ret_type: Type::TInt,
                    param: NameView::Name(param),
                    param_type: param_type_of(param),
                    blocks: end.current_blocks.push(
                        BlockView {
                            label: end.current_label,
                            instructions: end.current_instructions,
                            terminator: TerminatorView::Ret { value },
                        },
                    ),
                },
            ),
        ),
        Err(error) => Err(error),
    }
}

/// The module that `expression` becomes: its functions are those of
/// `expression` taken as the body of a function `main` without a parameter.
pub open spec fn module_of(expression: ExpressionView) -> Result<ModuleView, CompileErrorView> {
    match function_of(NameView::Name("main"@), Seq::empty(), expression) {
        Ok(functions) => Ok(ModuleView { name: "module"@, functions }),
        Err(error) => Err(error),
    }
}

/// Once a prefix of `items` fails, every longer prefix fails in the same way.
pub proof fn lemma_generate_prefix_fails(
    items: Seq<ExpressionView>,
    n: nat,
    m: nat,
    state: GenState,
)
    requires
        n <= m <= items.len(),
        generate_prefix(items, n, state) is Err,
    ensures
        generate_prefix(items, m, state) == generate_prefix(items, n, state),
    decreases m,
{
    if n < m {
        lemma_generate_prefix_fails(items, n, (m - 1) as nat, state);
    }
}

/// The value of a requested name.
pub open spec fn requested_view(name: Option<String>) -> Option<Seq<char>> {
    match name {
        Some(name) => Some(name@),
        None => None,
    }
}

/// The state of the generation of one function.
pub struct State {
    scope: Scope<Value>,
    requested_name: Option<String>,
    next_label: Label,
    next_iname: u32,
    functions: Vec<Function>,
    current_label: Label,
    current_blocks: Vec<Block>,
    current_instructions: Vec<Instruction>,
}

impl View for State {
    type V = GenState;

    closed spec fn view(&self) -> GenState {
        GenState {
            scope: self.scope@.map_values(|value: Value| value@),
            requested_name: requested_view(self.requested_name),
            next_label: self.next_label@,
            next_iname: self.next_iname as nat,
            functions: functions_view(self.functions@),
            current_label: self.current_label@,
            current_blocks: blocks_view(self.current_blocks@),
            current_instructions: instructions_view(self.current_instructions@),
        }
    }
}

/// The state in which the generation of a function starts.
pub fn get_initial_state() -> (state: State)
    ensures
        state@ == initial_state(),
{
    let state = State {
        scope: Scope::new(),
        requested_name: None,
        next_label: Label { id: 1 },
        next_iname: 0,
        functions: Vec::new(),
        current_label: Label { id: 0 },
        current_blocks: Vec::new(),
        current_instructions: Vec::new(),
    };
    assert(state@.scope =~= Map::empty());
    assert(state@.functions =~= Seq::empty());
    assert(state@.current_blocks =~= Seq::empty());
    assert(state@.current_instructions =~= Seq::empty());
    state
}

impl State {
    /// `self` is `base` with zero or more bindings on top of its scope.
    pub closed spec fn extends(&self, base: Self) -> bool {
        &&& base.scope.spec_depth() <= self.scope.spec_depth()
        &&& forall|depth: nat|
            depth <= base.scope.spec_depth() ==> #[trigger] self.scope.prefix(depth)
                == base.scope.prefix(depth)
    }

    /// A name for a new value or function: `name` if it is given, else the
    /// next number.
    pub fn generate_name(&mut self, name: Option<String>) -> (result: Result<Name, CompileError>)
        ensures
            match fresh_name(old(self)@, requested_view(name)) {
                Ok((fresh, state)) => {
                    &&& result matches Ok(out)
                    &&& out@ == fresh
                    &&& final(self)@ == state
                    &&& final(self).extends(*old(self))
                },
                Err(error) => {
                    &&& result matches Err(out)
                    &&& out@ == error
                    &&& final(self)@ == old(self)@
                },
            },
    {
        match name {
            Some(name) => Ok(Name::Name(name)),
            None => {
                let i = self.next_iname;
                if i == COUNTER_MAX {
                    return Err(CompileError::CounterOverflow);
                }
                self.next_iname = i + 1;
                Ok(Name::IName(i))
            },
        }
    }

    /// A label that no block of this function has yet.
    pub fn generate_label(&mut self) -> (result: Result<Label, CompileError>)
        ensures
            match fresh_label(old(self)@) {
                Ok((label, state)) => {
                    &&& result matches Ok(out)
                    &&& out@ == label
                    &&& final(self)@ == state
                    &&& final(self).extends(*old(self))
                },
                Err(error) => {
                    &&& result matches Err(out)
                    &&& out@ == error
                    &&& final(self)@ == old(self)@
                },
            },
    {
        let label = self.next_label;
        if label.id == COUNTER_MAX {
            return Err(CompileError::CounterOverflow);
        }
        self.next_label = Label { id: label.id + 1 };
        Ok(label)
    }

    /// Appends `instruction` to the open block and gives the value that
    /// refers to it.
    pub fn add_instruction(&mut self, instruction: Instruction) -> (value: Value)
        ensures
            (value@, final(self)@) == emit(old(self)@, instruction@),
            final(self).extends(*old(self)),
    {
        let name = instruction.name.clone();
        self.current_instructions.push(instruction);
        assert(instructions_view(self.current_instructions@) =~= instructions_view(
            old(self).current_instructions@,
        ).push(instruction@));
        Value::Reference { name }
    }

    /// Closes the open block with `terminator` and opens an empty block
    /// under `next_label`.
    pub fn terminate_block(&mut self, terminator: Terminator, next_label: Label)
        ensures
            final(self)@ == close_block(old(self)@, terminator@, next_label@),
            final(self).extends(*old(self)),
    {
        let label = self.current_label;
        self.current_label = next_label;
        let mut instructions: Vec<Instruction> = Vec::new();
        core::mem::swap(&mut self.current_instructions, &mut instructions);
        let block = Block { label, instructions, terminator };
        self.current_blocks.push(block);
        assert(blocks_view(self.current_blocks@) =~= blocks_view(old(self).current_blocks@).push(
            block@,
        ));
        assert(instructions_view(self.current_instructions@) =~= Seq::empty());
    }

    /// Binds `name` to `value` in the scope.
    pub fn set_name(&mut self, name: String, value: Value)
        ensures
            final(self)@ == old(self)@.with_scope(old(self)@.scope.insert(name@, value@)),
            final(self).extends(*old(self)),
    {
        self.scope.bind(name, value);
        assert(self@.scope =~= old(self)@.scope.insert(name@, value@));
    }

    /// Generates `expression`: appends what computes it to the function in
    /// progress and gives its value.
    pub fn generate(&mut self, expression: Expression) -> (result: Result<Value, CompileError>)
        ensures
            match generate_in(expression@, old(self)@) {
                Ok((value, state)) => {
                    &&& result matches Ok(out)
                    &&& out@ == value
                    &&& final(self)@ == state
                    &&& final(self).extends(*old(self))
                },
                Err(error) => result matches Err(out) && out@ == error,
            },
        decreases expression, 0nat,
    {
        match expression {
            Expression::Body { body } => {
                let ghost entry = *self;
                let ghost items = expression@->Body_body;
                let ghost all = body@;
                assert(items.len() == all.len());
                assert forall|j: int| 0 <= j < all.len() implies (#[trigger] all[j])@ == items[j]
                    && decreases_to!(expression => all[j]) by {
                    assert(all[j] == body[j]);
                }
                let mark = self.scope.depth();
                let requested_name = self.requested_name.take();
                let mut body = body;
                let last = match body.pop() {
                    Some(last) => last,
                    None => {
                        return Err(CompileError::EmptyBody);
                    },
                };
                let ghost sources = body@;
                let ghost start = self@;
                for item in it: body
                    invariant
                        it.seq() == sources,
                        sources.len() + 1 == items.len(),
                        forall|j: int|
                            0 <= j < sources.len() ==> (#[trigger] sources[j])@ == items[j]
                                && decreases_to!(expression => sources[j]),
                        expression@ == (ExpressionView::Body { body: items }),
                        entry == *old(self),
                        start == entry@.with_requested_name(None),
                        self.extends(entry),
                        generate_prefix(items, it.index() as nat, start) == Ok::<
                            GenState,
                            CompileErrorView,
                        >(self@),
                {
                    let ghost index = it.index();
                    assert(item == sources[index]);
                    match self.generate(item) {
                        Ok(_) => {},
                        Err(error) => {
                            proof {
                                assert(generate_prefix(items, (index + 1) as nat, start) is Err);
                                lemma_generate_prefix_fails(
                                    items,
                                    (index + 1) as nat,
                                    (items.len() - 1) as nat,
                                    start,
                                );
                            }
                            return Err(error);
                        },
                    }
                }
                self.requested_name = requested_name;
                let value = self.generate(last)?;
                self.scope.rewind(mark);
                Ok(value)
            },
            Expression::Name { name, body } => {
                let Identifier { name, id: _ } = name;
                self.requested_name = Some(name.clone());
                let value = self.generate_nested(*body)?;
                self.requested_name = None;
                self.set_name(name, value.clone());
                Ok(value)
            },
            Expression::Function { param, body } => {
                let requested_name = self.requested_name.take();
                let name = self.generate_name(requested_name)?;
                let mut functions = generate_function(name.clone(), Type::TInt, param.name, *body)?;
                let ghost nested = functions@;
                self.functions.append(&mut functions);
                assert(functions_view(self.functions@) =~= functions_view(
                    old(self).functions@,
                ) + functions_view(nested));
                Ok(Value::Reference { name })
            },
            Expression::Op { op, lhs, rhs } => {
                let requested_name = self.requested_name.take();
                let lhs_value = self.generate_nested(*lhs)?;
                let rhs_value = self.generate_nested(*rhs)?;
                let name = self.generate_name(requested_name)?;
                Ok(
                    self.add_instruction(
                        Instruction {
                            name,
                            instruction_base: InstructionBase::Binary {
                                op,
                                lhs: lhs_value,
                                rhs: rhs_value,
                            },
                        },
                    ),
                )
            },
            Expression::Reference(Identifier { name, id: _ }) => {
                match self.scope.lookup(&name) {
                    Some(value) => Ok(value.clone()),
                    None => Err(CompileError::UnresolvedReference(name)),
                }
            },
            Expression::Literal { value } => Ok(Value::Constant(Constant::CInt(value))),
            Expression::Call { caller, arg } => {
                let requested_name = self.requested_name.take();
                let arg_value = self.generate_nested(*arg)?;
                let caller_value = self.generate_nested(*caller)?;
                let name = self.generate_name(requested_name)?;
                Ok(
                    self.add_instruction(
                        Instruction {
                            name,
                            instruction_base: InstructionBase::Call {
                                caller: caller_value,
                                arg: arg_value,
                            },
                        },
                    ),
                )
            },
            Expression::If { cond, then_, else_ } => {
                let requested_name = self.requested_name.take();

                let cond_value = self.generate_nested(*cond)?;
                let then_label = self.generate_label()?;
                let else_label = self.generate_label()?;
                self.terminate_block(
                    Terminator::CondBr { cond: cond_value, then_: then_label, else_: else_label },
                    then_label,
                );

                let then_value = self.generate_nested(*then_)?;
                let then_label = self.current_label;
                let end_label = self.generate_label()?;
                self.terminate_block(Terminator::Br { label: end_label }, else_label);

                let else_value = self.generate_nested(*else_)?;
                let else_label = self.current_label;
                self.terminate_block(Terminator::Br { label: end_label }, end_label);

                let phi_name = self.generate_name(requested_name)?;
                Ok(
                    self.add_instruction(
                        Instruction {
                            name: phi_name,
                            instruction_base: InstructionBase::Phi {
                                then_: then_value,
                                then_label,
                                else_: else_value,
                                else_label,
                            },
                        },
                    ),
                )
            },
        }
    }

    /// Generates `expression` as a nested scope: the names that it binds
    /// are dropped again.
    pub fn generate_nested(&mut self, expression: Expression) -> (result: Result<
        Value,
        CompileError,
    >)
        ensures
            match generate_nested(expression@, old(self)@) {
                Ok((value, state)) => {
                    &&& result matches Ok(out)
                    &&& out@ == value
                    &&& final(self)@ == state
                    &&& final(self).extends(*old(self))
                },
                Err(error) => result matches Err(out) && out@ == error,
            },
        decreases expression, 1nat,
    {
        let mark = self.scope.depth();
        let value = self.generate(expression)?;
        self.scope.rewind(mark);
        Ok(value)
    }
}

/// Generates the function `name` of parameter `param` and body `body`.
/// Gives the functions of the literals inside it, then the function itself.
pub fn generate_function(name: Name, _type_: Type, param: String, body: Expression) -> (result:
    Result<Vec<Function>, CompileError>)
    ensures
        match function_of(name@, param@, body@) {
            Ok(functions) => result matches Ok(out) && functions_view(out@) == functions,
            Err(error) => result matches Err(out) && out@ == error,
        },
    decreases body, 2nat,
{
    let mut state = get_initial_state();
    state.set_name(param.clone(), Value::Reference { name: Name::Name(param.clone()) });
    let value = state.generate(body)?;
    let State { functions, current_label, current_blocks, current_instructions, .. } = state;
    let last_block = Block {
        label: current_label,
        instructions: current_instructions,
        terminator: Terminator::Ret { value },
    };
    let mut blocks = current_blocks;
    blocks.push(last_block);
    assert(blocks_view(blocks@) =~= blocks_view(current_blocks@).push(last_block@));
    let function = Function {
        name,
        ret_type: Type::TInt,
        param_type: if param.as_str().is_empty() {
            Type::TVoid
        } else {
            Type::TInt
        },
        param: Name::Name(param),
        blocks,
    };
    let ghost nested = functions@;
    let mut functions = functions;
    functions.push(function);
    assert(functions_view(functions@) =~= functions_view(nested).push(function@));
    Ok(functions)
}

/// Lowers `expression` into a module.
///
/// The module is named `module`. Its last function is `main`, whose body is
/// `expression`; before it stand the functions of the function literals in
/// `expression`. Fails on the first of these met when walking the tree: a
/// reference to a name that is not in scope, a `Body` without elements, or a
/// counter that left the range of `u32`.
pub fn generate_code(expression: Expression) -> (result: Result<Module, CompileError>)
    ensures
        match module_of(expression@) {
            Ok(module) => result matches Ok(out) && out@ == module,
            Err(error) => result matches Err(out) && out@ == error,
        },
{
    broadcast use vstd::string::to_string_from_display_ensures_for_str;

    proof {
        reveal_strlit("");
        assert(""@ =~= Seq::<char>::empty());
    }
    let functions = generate_function(
        Name::Name("main".to_string()),
        Type::TInt,
        "".to_string(),
        expression,
    )?;
    Ok(Module { name: "module".to_string(), functions })
}

} // verus!
