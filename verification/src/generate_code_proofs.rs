//! What holds of code generation on every tree.

use vstd::prelude::*;
use crate::code::{
    BlockView, InstructionBaseView, InstructionView, ModuleView, NameView,
    TerminatorView, Type, ValueView,
};
use crate::error::CompileErrorView;
use crate::expression::{ExpressionView, IdentifierView};
use crate::generate_code::{
    emit, emit_named, function_of, generate_in, generate_nested, generate_prefix, initial_state,
    module_of, param_type_of, split, switch_arm, GenState,
};

verus! {

/// The counters of `after` are those of `before` or later ones.
pub open spec fn counters_grow(before: GenState, after: GenState) -> bool {
    &&& before.next_label <= after.next_label
    &&& before.next_iname <= after.next_iname
}

/// Generation never takes a label or a number back: the counters of the
/// state it reaches are at least those it started with.
pub proof fn lemma_generate_counters_grow(expression: ExpressionView, state: GenState)
    ensures
        generate_in(expression, state) matches Ok((_, after)) ==> counters_grow(state, after),
        generate_nested(expression, state) matches Ok((_, after)) ==> counters_grow(state, after),
    decreases expression, 0nat,
{
    let unnamed = state.with_requested_name(None);
    match expression {
        ExpressionView::Body { body } => {
            if body.len() > 0 {
                lemma_generate_prefix_counters_grow(body, (body.len() - 1) as nat, unnamed);
                if let Ok(before_last) = generate_prefix(body, (body.len() - 1) as nat, unnamed) {
                    lemma_generate_counters_grow(
                        body[body.len() - 1],
                        before_last.with_requested_name(state.requested_name),
                    );
                }
            }
        },
        ExpressionView::Name { name, body } => {
            lemma_generate_counters_grow(*body, state.with_requested_name(Some(name.name)));
        },
        ExpressionView::Function { param, body } => {},
        ExpressionView::Op { op, lhs, rhs } => {
            lemma_generate_counters_grow(*lhs, unnamed);
            if let Ok((_, after)) = generate_nested(*lhs, unnamed) {
                lemma_generate_counters_grow(*rhs, after);
            }
        },
        ExpressionView::Reference(name) => {},
        ExpressionView::Literal { value } => {},
        ExpressionView::Call { caller, arg } => {
            lemma_generate_counters_grow(*arg, unnamed);
            if let Ok((_, after)) = generate_nested(*arg, unnamed) {
                lemma_generate_counters_grow(*caller, after);
            }
        },
        ExpressionView::If { cond, then_, else_ } => {
            lemma_generate_counters_grow(*cond, unnamed);
            if let Ok((cond_value, after)) = generate_nested(*cond, unnamed) {
                if let Ok((else_label, after)) = split(after, cond_value) {
                    lemma_generate_counters_grow(*then_, after);
                    if let Ok((_, after)) = generate_nested(*then_, after) {
                        if let Ok((_, _, after)) = switch_arm(after, else_label) {
                            lemma_generate_counters_grow(*else_, after);
                        }
                    }
                }
            }
        },
    }
}

/// Generating a prefix of a sequence never takes a label or a number back.
pub proof fn lemma_generate_prefix_counters_grow(
    items: Seq<ExpressionView>,
    n: nat,
    state: GenState,
)
    ensures
        generate_prefix(items, n, state) matches Ok(after) ==> counters_grow(state, after),
    decreases items, n,
{
    if n == 0 || n > items.len() {
    } else {
        lemma_generate_prefix_counters_grow(items, (n - 1) as nat, state);
        if let Ok(before) = generate_prefix(items, (n - 1) as nat, state) {
            lemma_generate_counters_grow(items[n - 1], before);
        }
    }
}

/// A literal emits nothing: its value is the constant itself and the state
/// stays as it was.
pub proof fn lemma_literal_emits_nothing(value: int, state: GenState)
    ensures
        generate_in(ExpressionView::Literal { value }, state) == Ok::<
            (ValueView, GenState),
            CompileErrorView,
        >((ValueView::Constant(value), state)),
{
}

/// Binding a name to a literal binds it to the constant itself: no
/// instruction, block, label or number is added, and only the scope and the
/// requested name change.
pub proof fn lemma_name_of_literal_binds_constant(
    name: IdentifierView,
    value: int,
    state: GenState,
)
    ensures
        generate_in(
            ExpressionView::Name { name, body: Box::new(ExpressionView::Literal { value }) },
            state,
        ) == Ok::<(ValueView, GenState), CompileErrorView>(
            (
                ValueView::Constant(value),
                state.with_requested_name(None).with_scope(
                    state.scope.insert(name.name, ValueView::Constant(value)),
                ),
            ),
        ),
{
    let named = state.with_requested_name(Some(name.name));
    assert(generate_in(ExpressionView::Literal { value }, named) == Ok::<
        (ValueView, GenState),
        CompileErrorView,
    >((ValueView::Constant(value), named)));
    assert(generate_nested(ExpressionView::Literal { value }, named) == Ok::<
        (ValueView, GenState),
        CompileErrorView,
    >((ValueView::Constant(value), named)));
}

/// An operation bound to a name is computed by an instruction of that name:
/// the last instruction of the open block is the operation, under the
/// binder's name, and the binder stands for it.
pub proof fn lemma_bound_operation_takes_binder_name(
    name: IdentifierView,
    op: Seq<char>,
    lhs: ExpressionView,
    rhs: ExpressionView,
    state: GenState,
)
    ensures
        generate_in(
            ExpressionView::Name {
                name,
                body: Box::new(ExpressionView::Op { op, lhs: Box::new(lhs), rhs: Box::new(rhs) }),
            },
            state,
        ) matches Ok((value, after)) ==> {
            &&& value == ValueView::Reference { name: NameView::Name(name.name) }
            &&& after.scope == state.scope.insert(name.name, value)
            &&& after.current_instructions.len() > 0
            &&& after.current_instructions.last().name == NameView::Name(name.name)
            &&& after.current_instructions.last().instruction_base is Binary
        },
{
    let inner = ExpressionView::Op { op, lhs: Box::new(lhs), rhs: Box::new(rhs) };
    let named = state.with_requested_name(Some(name.name));
    let unnamed = named.with_requested_name(None);
    if let Ok((value, after)) = generate_in(inner, named) {
        assert(generate_nested(inner, named) == Ok::<(ValueView, GenState), CompileErrorView>(
            (value, after.with_scope(state.scope)),
        ));
        if let Ok((lhs_value, after_lhs)) = generate_nested(lhs, unnamed) {
            if let Ok((rhs_value, after_rhs)) = generate_nested(rhs, after_lhs) {
                assert(emit_named(
                    after_rhs,
                    Some(name.name),
                    InstructionBaseView::Binary { op, lhs: lhs_value, rhs: rhs_value },
                ) is Ok);
            }
        }
    }
}

/// An operation on two literals bound to a name emits exactly one
/// instruction, which has the binder's name; no number is used up.
pub proof fn lemma_bound_operation_on_literals(
    name: IdentifierView,
    op: Seq<char>,
    lhs: int,
    rhs: int,
    state: GenState,
)
    ensures
        generate_in(
            ExpressionView::Name {
                name,
                body: Box::new(
                    ExpressionView::Op {
                        op,
                        lhs: Box::new(ExpressionView::Literal { value: lhs }),
                        rhs: Box::new(ExpressionView::Literal { value: rhs }),
                    },
                ),
            },
            state,
        ) == Ok::<(ValueView, GenState), CompileErrorView>(
            (
                ValueView::Reference { name: NameView::Name(name.name) },
                GenState {
                    scope: state.scope.insert(
                        name.name,
                        ValueView::Reference { name: NameView::Name(name.name) },
                    ),
                    requested_name: None,
                    current_instructions: state.current_instructions.push(
                        InstructionView {
                            name: NameView::Name(name.name),
                            instruction_base: InstructionBaseView::Binary {
                                op,
                                lhs: ValueView::Constant(lhs),
                                rhs: ValueView::Constant(rhs),
                            },
                        },
                    ),
                    ..state
                },
            ),
        ),
{
    let inner = ExpressionView::Op {
        op,
        lhs: Box::new(ExpressionView::Literal { value: lhs }),
        rhs: Box::new(ExpressionView::Literal { value: rhs }),
    };
    let named = state.with_requested_name(Some(name.name));
    let unnamed = named.with_requested_name(None);
    let lhs_tree = ExpressionView::Literal { value: lhs };
    let rhs_tree = ExpressionView::Literal { value: rhs };
    assert(generate_in(lhs_tree, unnamed) == Ok::<(ValueView, GenState), CompileErrorView>(
        (ValueView::Constant(lhs), unnamed),
    ));
    assert(generate_in(rhs_tree, unnamed) == Ok::<(ValueView, GenState), CompileErrorView>(
        (ValueView::Constant(rhs), unnamed),
    ));
    assert(generate_nested(lhs_tree, unnamed) == Ok::<(ValueView, GenState), CompileErrorView>(
        (ValueView::Constant(lhs), unnamed),
    ));
    assert(generate_nested(rhs_tree, unnamed) == Ok::<(ValueView, GenState), CompileErrorView>(
        (ValueView::Constant(rhs), unnamed),
    ));
    let instruction = InstructionView {
        name: NameView::Name(name.name),
        instruction_base: InstructionBaseView::Binary {
            op,
            lhs: ValueView::Constant(lhs),
            rhs: ValueView::Constant(rhs),
        },
    };
    assert(generate_in(inner, named) == Ok::<(ValueView, GenState), CompileErrorView>(
        emit(unnamed, instruction),
    ));
    assert(generate_nested(inner, named) == Ok::<(ValueView, GenState), CompileErrorView>(
        emit(unnamed, instruction),
    ));
}

/// The label that a conditional allocates for its first arm: the next
/// label of the state that its condition leaves.
pub open spec fn then_target(cond: ExpressionView, state: GenState) -> nat {
    match generate_nested(cond, state.with_requested_name(None)) {
        Ok((_, after)) => after.next_label,
        Err(_) => 0,
    }
}

/// A conditional ends in its join block: the open block holds the phi
/// instruction alone, and its label was allocated after the labels of both
/// arms. The phi names, for each arm, the block that was open when the arm
/// ended, and the value it takes from that block is the value of the arm.
pub proof fn lemma_conditional_ends_in_join_block(
    cond: ExpressionView,
    then_: ExpressionView,
    else_: ExpressionView,
    state: GenState,
)
    ensures
        generate_in(
            ExpressionView::If {
                cond: Box::new(cond),
                then_: Box::new(then_),
                else_: Box::new(else_),
            },
            state,
        ) matches Ok((value, after)) ==> {
            &&& after.current_label >= then_target(cond, state) + 2
            &&& after.next_label > after.current_label
            &&& after.current_instructions.len() == 1
            &&& after.current_instructions[0].instruction_base matches InstructionBaseView::Phi {
                then_label,
                else_label,
                ..
            }
            &&& then_label >= then_target(cond, state)
            &&& else_label > then_target(cond, state)
            &&& value == ValueView::Reference { name: after.current_instructions[0].name }
        },
{
    let unnamed = state.with_requested_name(None);
    lemma_generate_counters_grow(cond, unnamed);
    if let Ok((cond_value, after_cond)) = generate_nested(cond, unnamed) {
        if let Ok((else_label, in_then)) = split(after_cond, cond_value) {
            lemma_generate_counters_grow(then_, in_then);
            lemma_current_label_is_allocated(then_, in_then);
            if let Ok((_, after_then)) = generate_nested(then_, in_then) {
                if let Ok((_, _, in_else)) = switch_arm(after_then, else_label) {
                    lemma_generate_counters_grow(else_, in_else);
                    lemma_current_label_is_allocated(else_, in_else);
                }
            }
        }
    }
}

/// The label of the open block is never above those already allocated, and
/// never below the label of the block that was open before: if the open
/// block's label was allocated when generation starts, it still is when
/// generation ends, and generation only moves on to later blocks.
pub proof fn lemma_current_label_is_allocated(expression: ExpressionView, state: GenState)
    requires
        state.current_label < state.next_label,
    ensures
        generate_in(expression, state) matches Ok((_, after)) ==> state.current_label
            <= after.current_label < after.next_label,
        generate_nested(expression, state) matches Ok((_, after)) ==> state.current_label
            <= after.current_label < after.next_label,
    decreases expression, 0nat,
{
    let unnamed = state.with_requested_name(None);
    match expression {
        ExpressionView::Body { body } => {
            if body.len() > 0 {
                lemma_prefix_current_label_is_allocated(body, (body.len() - 1) as nat, unnamed);
                if let Ok(before_last) = generate_prefix(body, (body.len() - 1) as nat, unnamed) {
                    lemma_current_label_is_allocated(
                        body[body.len() - 1],
                        before_last.with_requested_name(state.requested_name),
                    );
                }
            }
        },
        ExpressionView::Name { name, body } => {
            lemma_current_label_is_allocated(*body, state.with_requested_name(Some(name.name)));
        },
        ExpressionView::Function { param, body } => {},
        ExpressionView::Op { op, lhs, rhs } => {
            lemma_current_label_is_allocated(*lhs, unnamed);
            if let Ok((_, after)) = generate_nested(*lhs, unnamed) {
                lemma_current_label_is_allocated(*rhs, after);
            }
        },
        ExpressionView::Reference(name) => {},
        ExpressionView::Literal { value } => {},
        ExpressionView::Call { caller, arg } => {
            lemma_current_label_is_allocated(*arg, unnamed);
            if let Ok((_, after)) = generate_nested(*arg, unnamed) {
                lemma_current_label_is_allocated(*caller, after);
            }
        },
        ExpressionView::If { cond, then_, else_ } => {
            lemma_current_label_is_allocated(*cond, unnamed);
            lemma_generate_counters_grow(*cond, unnamed);
            if let Ok((cond_value, after)) = generate_nested(*cond, unnamed) {
                if let Ok((else_label, after)) = split(after, cond_value) {
                    lemma_current_label_is_allocated(*then_, after);
                    lemma_generate_counters_grow(*then_, after);
                    if let Ok((_, after)) = generate_nested(*then_, after) {
                        if let Ok((_, _, after)) = switch_arm(after, else_label) {
                            lemma_current_label_is_allocated(*else_, after);
                            lemma_generate_counters_grow(*else_, after);
                        }
                    }
                }
            }
        },
    }
}

/// The label of the open block stays among the allocated ones over a
/// prefix of a sequence.
pub proof fn lemma_prefix_current_label_is_allocated(
    items: Seq<ExpressionView>,
    n: nat,
    state: GenState,
)
    requires
        state.current_label < state.next_label,
    ensures
        generate_prefix(items, n, state) matches Ok(after) ==> state.current_label
            <= after.current_label < after.next_label,
    decreases items, n,
{
    if n == 0 || n > items.len() {
    } else {
        lemma_prefix_current_label_is_allocated(items, (n - 1) as nat, state);
        if let Ok(before) = generate_prefix(items, (n - 1) as nat, state) {
            lemma_current_label_is_allocated(items[n - 1], before);
        }
    }
}

/// Where a conditional stands in the first arm of another, the phi of the
/// outer one takes the value of that arm from a block whose label was
/// allocated after the label of the arm: the arm ends in the join block of
/// the inner conditional, not in the block it began in.
pub proof fn lemma_phi_of_nested_conditional(
    cond: ExpressionView,
    inner_cond: ExpressionView,
    inner_then: ExpressionView,
    inner_else: ExpressionView,
    else_: ExpressionView,
    state: GenState,
)
    ensures
        generate_in(
            ExpressionView::If {
                cond: Box::new(cond),
                then_: Box::new(
                    ExpressionView::If {
                        cond: Box::new(inner_cond),
                        then_: Box::new(inner_then),
                        else_: Box::new(inner_else),
                    },
                ),
                else_: Box::new(else_),
            },
            state,
        ) matches Ok((_, after)) ==> {
            &&& after.current_instructions.len() == 1
            &&& after.current_instructions[0].instruction_base matches InstructionBaseView::Phi {
                then_label,
                ..
            }
            &&& then_label > then_target(cond, state)
        },
{
    let inner = ExpressionView::If {
        cond: Box::new(inner_cond),
        then_: Box::new(inner_then),
        else_: Box::new(inner_else),
    };
    let unnamed = state.with_requested_name(None);
    lemma_conditional_ends_in_join_block(cond, inner, else_, state);
    if let Ok((cond_value, after_cond)) = generate_nested(cond, unnamed) {
        if let Ok((else_label, in_then)) = split(after_cond, cond_value) {
            lemma_conditional_ends_in_join_block(inner_cond, inner_then, inner_else, in_then);
            lemma_generate_counters_grow(inner_cond, in_then.with_requested_name(None));
            if let Ok((_, after_then)) = generate_in(inner, in_then) {
                assert(generate_nested(inner, in_then) is Ok);
                assert(after_then.current_label >= then_target(inner_cond, in_then) + 2);
                assert(then_target(inner_cond, in_then) >= in_then.next_label);
            }
        }
    }
}

/// In a call, the argument is generated before the callee: the callee
/// starts from the state that the argument left, so every number and label
/// that the argument takes is below every one that the callee takes, and
/// what the argument emits stands before what the callee emits. The call
/// itself is the last instruction.
pub proof fn lemma_argument_is_generated_before_callee(
    caller: ExpressionView,
    arg: ExpressionView,
    state: GenState,
)
    ensures
        generate_in(
            ExpressionView::Call { caller: Box::new(caller), arg: Box::new(arg) },
            state,
        ) matches Ok((value, after)) ==> {
            &&& generate_nested(arg, state.with_requested_name(None)) matches Ok(
                (arg_value, after_arg),
            )
            &&& generate_nested(caller, after_arg) matches Ok((caller_value, after_caller))
            &&& state.next_iname <= after_arg.next_iname <= after_caller.next_iname
                <= after.next_iname
            &&& state.next_label <= after_arg.next_label <= after_caller.next_label
                == after.next_label
            &&& after.current_instructions == after_caller.current_instructions.push(
                InstructionView {
                    name: after.current_instructions.last().name,
                    instruction_base: InstructionBaseView::Call {
                        caller: caller_value,
                        arg: arg_value,
                    },
                },
            )
            &&& value == ValueView::Reference { name: after.current_instructions.last().name }
        },
{
    let unnamed = state.with_requested_name(None);
    lemma_generate_counters_grow(arg, unnamed);
    if let Ok((_, after_arg)) = generate_nested(arg, unnamed) {
        lemma_generate_counters_grow(caller, after_arg);
    }
}

/// A reference to a name that is not in scope aborts generation, and the
/// failure carries that name. At the root of a tree only the empty name is
/// in scope.
pub proof fn lemma_unbound_reference_fails(name: IdentifierView, state: GenState)
    ensures
        !state.scope.contains_key(name.name) ==> generate_in(
            ExpressionView::Reference(name),
            state,
        ) == Err::<(ValueView, GenState), CompileErrorView>(
            CompileErrorView::UnresolvedReference(name.name),
        ),
        name.name.len() > 0 ==> module_of(ExpressionView::Reference(name)) == Err::<
            ModuleView,
            CompileErrorView,
        >(CompileErrorView::UnresolvedReference(name.name)),
{
    if name.name.len() > 0 {
        let param = Seq::<char>::empty();
        let scope = Map::<Seq<char>, ValueView>::empty().insert(
            param,
            ValueView::Reference { name: NameView::Name(param) },
        );
        assert(!scope.contains_key(name.name));
        let start = initial_state().with_scope(scope);
        assert(generate_in(ExpressionView::Reference(name), start) is Err);
        assert(function_of(NameView::Name("main"@), param, ExpressionView::Reference(name))
            is Err);
    }
}

/// `after` has the blocks and functions of `before`, unchanged and in
/// place, and then zero or more new ones. The block that was open in
/// `before` is either still open, with its instructions still in front, or
/// it is the first block closed since, with its instructions in front.
pub open spec fn appends_to(before: GenState, after: GenState) -> bool {
    let closed = before.current_blocks.len() as int;
    &&& before.functions.is_prefix_of(after.functions)
    &&& before.current_blocks.is_prefix_of(after.current_blocks)
    &&& after.current_blocks.len() == closed ==> {
        &&& after.current_label == before.current_label
        &&& before.current_instructions.is_prefix_of(after.current_instructions)
    }
    &&& after.current_blocks.len() > closed ==> {
        &&& after.current_blocks[closed].label == before.current_label
        &&& before.current_instructions.is_prefix_of(after.current_blocks[closed].instructions)
    }
}

/// Generation only appends: a block that is closed is never changed, and
/// neither is an instruction that has been emitted or a function that is
/// finished.
pub proof fn lemma_generate_appends(expression: ExpressionView, state: GenState)
    ensures
        generate_in(expression, state) matches Ok((_, after)) ==> appends_to(state, after),
        generate_nested(expression, state) matches Ok((_, after)) ==> appends_to(state, after),
    decreases expression, 0nat,
{
    let unnamed = state.with_requested_name(None);
    match expression {
        ExpressionView::Body { body } => {
            if body.len() > 0 {
                lemma_generate_prefix_appends(body, (body.len() - 1) as nat, unnamed);
                if let Ok(before_last) = generate_prefix(body, (body.len() - 1) as nat, unnamed) {
                    lemma_generate_appends(
                        body[body.len() - 1],
                        before_last.with_requested_name(state.requested_name),
                    );
                }
            }
        },
        ExpressionView::Name { name, body } => {
            lemma_generate_appends(*body, state.with_requested_name(Some(name.name)));
        },
        ExpressionView::Function { param, body } => {},
        ExpressionView::Op { op, lhs, rhs } => {
            lemma_generate_appends(*lhs, unnamed);
            if let Ok((_, after)) = generate_nested(*lhs, unnamed) {
                lemma_generate_appends(*rhs, after);
            }
        },
        ExpressionView::Reference(name) => {},
        ExpressionView::Literal { value } => {},
        ExpressionView::Call { caller, arg } => {
            lemma_generate_appends(*arg, unnamed);
            if let Ok((_, after)) = generate_nested(*arg, unnamed) {
                lemma_generate_appends(*caller, after);
            }
        },
        ExpressionView::If { cond, then_, else_ } => {
            lemma_generate_appends(*cond, unnamed);
            if let Ok((cond_value, after_cond)) = generate_nested(*cond, unnamed) {
                if let Ok((else_label, in_then)) = split(after_cond, cond_value) {
                    assert(appends_to(state, in_then));
                    lemma_generate_appends(*then_, in_then);
                    if let Ok((_, after_then)) = generate_nested(*then_, in_then) {
                        assert(appends_to(state, after_then));
                        if let Ok((_, _, in_else)) = switch_arm(after_then, else_label) {
                            assert(appends_to(state, in_else));
                            lemma_generate_appends(*else_, in_else);
                        }
                    }
                }
            }
        },
    }
}

/// Generating a prefix of a sequence only appends.
pub proof fn lemma_generate_prefix_appends(items: Seq<ExpressionView>, n: nat, state: GenState)
    ensures
        generate_prefix(items, n, state) matches Ok(after) ==> appends_to(state, after),
    decreases items, n,
{
    if n == 0 || n > items.len() {
    } else {
        lemma_generate_prefix_appends(items, (n - 1) as nat, state);
        if let Ok(before) = generate_prefix(items, (n - 1) as nat, state) {
            lemma_generate_appends(items[n - 1], before);
        }
    }
}

/// The blocks that the phi of a conditional names are the blocks that
/// branch to it: the block named for the first arm is closed, ends in a
/// branch to the join block and is the block that the first arm ended in;
/// the block named for the second arm is the last one closed and ends in a
/// branch to the join block too.
pub proof fn lemma_phi_predecessors_branch_to_join(
    cond: ExpressionView,
    then_: ExpressionView,
    else_: ExpressionView,
    state: GenState,
)
    ensures
        generate_in(
            ExpressionView::If {
                cond: Box::new(cond),
                then_: Box::new(then_),
                else_: Box::new(else_),
            },
            state,
        ) matches Ok((_, after)) ==> {
            &&& after.current_instructions.len() == 1
            &&& after.current_instructions[0].instruction_base matches InstructionBaseView::Phi {
                then_label,
                else_label,
                ..
            }
            &&& after.current_blocks.len() >= 2
            &&& exists|i: int|
                0 <= i < after.current_blocks.len() - 1 && (#[trigger] after.current_blocks[i]).label
                    == then_label && after.current_blocks[i].terminator == (TerminatorView::Br {
                    label: after.current_label,
                })
            &&& after.current_blocks.last().label == else_label
            &&& after.current_blocks.last().terminator == (TerminatorView::Br {
                label: after.current_label,
            })
        },
{
    let unnamed = state.with_requested_name(None);
    if let Ok((cond_value, after_cond)) = generate_nested(cond, unnamed) {
        if let Ok((else_label, in_then)) = split(after_cond, cond_value) {
            if let Ok((_, after_then)) = generate_nested(then_, in_then) {
                if let Ok((then_end, end_label, in_else)) = switch_arm(after_then, else_label) {
                    lemma_generate_appends(else_, in_else);
                    if let Ok((_, after_else)) = generate_nested(else_, in_else) {
                        let k = after_then.current_blocks.len() as int;
                        assert(in_else.current_blocks[k].label == then_end);
                        assert(after_else.current_blocks[k] == in_else.current_blocks[k]);
                        if let Ok((_, after)) = generate_in(
                            ExpressionView::If {
                                cond: Box::new(cond),
                                then_: Box::new(then_),
                                else_: Box::new(else_),
                            },
                            state,
                        ) {
                            assert(after.current_blocks[k] == in_else.current_blocks[k]);
                        }
                    }
                }
            }
        }
    }
}

/// No block of `blocks` ends in a return.
pub open spec fn none_returns(blocks: Seq<BlockView>) -> bool {
    forall|i: int| 0 <= i < blocks.len() ==> !((#[trigger] blocks[i]).terminator is Ret)
}

/// Generation closes blocks with branches only: where no closed block
/// returned before, none does after.
pub proof fn lemma_generate_closes_with_branches(expression: ExpressionView, state: GenState)
    requires
        none_returns(state.current_blocks),
    ensures
        generate_in(expression, state) matches Ok((_, after)) ==> none_returns(
            after.current_blocks,
        ),
        generate_nested(expression, state) matches Ok((_, after)) ==> none_returns(
            after.current_blocks,
        ),
    decreases expression, 0nat,
{
    let unnamed = state.with_requested_name(None);
    match expression {
        ExpressionView::Body { body } => {
            if body.len() > 0 {
                lemma_generate_prefix_closes_with_branches(
                    body,
                    (body.len() - 1) as nat,
                    unnamed,
                );
                if let Ok(before_last) = generate_prefix(body, (body.len() - 1) as nat, unnamed) {
                    lemma_generate_closes_with_branches(
                        body[body.len() - 1],
                        before_last.with_requested_name(state.requested_name),
                    );
                }
            }
        },
        ExpressionView::Name { name, body } => {
            lemma_generate_closes_with_branches(
                *body,
                state.with_requested_name(Some(name.name)),
            );
        },
        ExpressionView::Function { param, body } => {},
        ExpressionView::Op { op, lhs, rhs } => {
            lemma_generate_closes_with_branches(*lhs, unnamed);
            if let Ok((_, after)) = generate_nested(*lhs, unnamed) {
                lemma_generate_closes_with_branches(*rhs, after);
            }
        },
        ExpressionView::Reference(name) => {},
        ExpressionView::Literal { value } => {},
        ExpressionView::Call { caller, arg } => {
            lemma_generate_closes_with_branches(*arg, unnamed);
            if let Ok((_, after)) = generate_nested(*arg, unnamed) {
                lemma_generate_closes_with_branches(*caller, after);
            }
        },
        ExpressionView::If { cond, then_, else_ } => {
            lemma_generate_closes_with_branches(*cond, unnamed);
            if let Ok((cond_value, after_cond)) = generate_nested(*cond, unnamed) {
                if let Ok((else_label, in_then)) = split(after_cond, cond_value) {
                    lemma_generate_closes_with_branches(*then_, in_then);
                    if let Ok((_, after_then)) = generate_nested(*then_, in_then) {
                        if let Ok((_, _, in_else)) = switch_arm(after_then, else_label) {
                            lemma_generate_closes_with_branches(*else_, in_else);
                        }
                    }
                }
            }
        },
    }
}

/// Generating a prefix of a sequence closes blocks with branches only.
pub proof fn lemma_generate_prefix_closes_with_branches(
    items: Seq<ExpressionView>,
    n: nat,
    state: GenState,
)
    requires
        none_returns(state.current_blocks),
    ensures
        generate_prefix(items, n, state) matches Ok(after) ==> none_returns(after.current_blocks),
    decreases items, n,
{
    if n == 0 || n > items.len() {
    } else {
        lemma_generate_prefix_closes_with_branches(items, (n - 1) as nat, state);
        if let Ok(before) = generate_prefix(items, (n - 1) as nat, state) {
            lemma_generate_closes_with_branches(items[n - 1], before);
        }
    }
}

/// The shape of what a function literal becomes: the last function is the
/// literal itself, under the name asked for, with its parameter and types;
/// it has at least one block, its first block is the entry block with the
/// label 0, and its last block, and no other, ends in a return.
pub proof fn lemma_function_shape(name: NameView, param: Seq<char>, body: ExpressionView)
    ensures
        function_of(name, param, body) matches Ok(functions) ==> {
            &&& functions.len() >= 1
            &&& functions.last().name == name
            &&& functions.last().param == NameView::Name(param)
            &&& functions.last().ret_type == Type::TInt
            &&& functions.last().param_type == param_type_of(param)
            &&& functions.last().blocks.len() >= 1
            &&& functions.last().blocks[0].label == 0
            &&& functions.last().blocks.last().terminator is Ret
            &&& none_returns(functions.last().blocks.drop_last())
        },
{
    let start = initial_state().with_scope(
        Map::empty().insert(param, ValueView::Reference { name: NameView::Name(param) }),
    );
    lemma_generate_appends(body, start);
    lemma_generate_closes_with_branches(body, start);
    if let Ok((value, end)) = generate_in(body, start) {
        let last = BlockView {
            label: end.current_label,
            instructions: end.current_instructions,
            terminator: TerminatorView::Ret { value },
        };
        let blocks = end.current_blocks.push(last);
        assert(blocks.drop_last() =~= end.current_blocks);
    }
}

/// The shape of a generated module: it is named `module`, and its last
/// function is `main`, which has no parameter.
pub proof fn lemma_module_shape(expression: ExpressionView)
    ensures
        module_of(expression) matches Ok(module) ==> {
            &&& module.name == "module"@
            &&& module.functions.len() >= 1
            &&& module.functions.last().name == NameView::Name("main"@)
            &&& module.functions.last().param == NameView::Name(Seq::empty())
            &&& module.functions.last().param_type == Type::TVoid
            &&& module.functions.last().blocks.len() >= 1
            &&& module.functions.last().blocks[0].label == 0
        },
{
    lemma_function_shape(NameView::Name("main"@), Seq::empty(), expression);
}

} // verus!
