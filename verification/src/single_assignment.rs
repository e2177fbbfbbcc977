//! What makes the generated code single-assignment: within a function, no
//! two instructions define the same numbered value.

use vstd::prelude::*;
use crate::code::{BlockView, FunctionView, InstructionView, NameView, TerminatorView, ValueView};
use crate::expression::ExpressionView;
use crate::generate_code::{
    close_block, emit, fresh_name, function_of, generate_in, generate_nested, generate_prefix,
    initial_state, module_of, split, switch_arm, GenState,
};

verus! {

/// The instructions of `blocks`, block by block.
pub open spec fn instruction_lists(blocks: Seq<BlockView>) -> Seq<Seq<InstructionView>> {
    blocks.map_values(|block: BlockView| block.instructions)
}

/// The number that the instruction `k` of the list `b` defines, if it is
/// there and has a number for its name.
pub open spec fn number_at(lists: Seq<Seq<InstructionView>>, b: int, k: int) -> Option<nat> {
    if 0 <= b < lists.len() && 0 <= k < lists[b].len() {
        match lists[b][k].name {
            NameView::IName(n) => Some(n),
            NameView::Name(_) => None,
        }
    } else {
        None
    }
}

/// No two instructions of `lists` define the same number.
pub open spec fn defined_once(lists: Seq<Seq<InstructionView>>) -> bool {
    forall|b: int, k: int, c: int, l: int|
        (b != c || k != l) && (#[trigger] number_at(lists, b, k)) is Some && (#[trigger] number_at(
            lists,
            c,
            l,
        )) is Some ==> number_at(lists, b, k) != number_at(lists, c, l)
}

/// Every number that an instruction of `lists` defines is below `bound`.
pub open spec fn numbers_below(lists: Seq<Seq<InstructionView>>, bound: nat) -> bool {
    forall|b: int, k: int| (#[trigger] number_at(lists, b, k)) matches Some(n) ==> n < bound
}

/// No two instructions of `function` define the same number.
pub open spec fn single_assignment(function: FunctionView) -> bool {
    defined_once(instruction_lists(function.blocks))
}

/// Every one of `functions` is in single-assignment form.
pub open spec fn all_single_assignment(functions: Seq<FunctionView>) -> bool {
    forall|i: int| 0 <= i < functions.len() ==> single_assignment(#[trigger] functions[i])
}

/// The instructions emitted so far: those of the closed blocks, then those
/// of the open block.
pub open spec fn lists_so_far(state: GenState) -> Seq<Seq<InstructionView>> {
    instruction_lists(state.current_blocks).push(state.current_instructions)
}

/// The numbers are in order in `state`: every number defined so far was
/// taken from the counter, none twice, and the functions finished so far
/// are in single-assignment form.
pub open spec fn numbers_in_order(state: GenState) -> bool {
    &&& defined_once(lists_so_far(state))
    &&& numbers_below(lists_so_far(state), state.next_iname)
    &&& all_single_assignment(state.functions)
}

/// A state that keeps the instructions and functions of another and does
/// not lower the counter keeps the numbers in order.
proof fn lemma_same_instructions(before: GenState, after: GenState)
    requires
        numbers_in_order(before),
        after.current_blocks == before.current_blocks,
        after.current_instructions == before.current_instructions,
        after.functions == before.functions,
        after.next_iname >= before.next_iname,
    ensures
        numbers_in_order(after),
{
    assert(lists_so_far(after) == lists_so_far(before));
}

/// Closing the open block keeps the numbers in order.
proof fn lemma_close_block_keeps_numbers(
    state: GenState,
    terminator: TerminatorView,
    next_label: nat,
)
    requires
        numbers_in_order(state),
    ensures
        numbers_in_order(close_block(state, terminator, next_label)),
{
    let after = close_block(state, terminator, next_label);
    let old_lists = lists_so_far(state);
    let new_lists = lists_so_far(after);
    assert(new_lists =~= old_lists.push(Seq::empty()));
    assert forall|b: int, k: int| number_at(new_lists, b, k) == number_at(old_lists, b, k) by {}
    assert forall|b: int, k: int, c: int, l: int|
        (b != c || k != l) && (#[trigger] number_at(new_lists, b, k)) is Some && (
        #[trigger] number_at(new_lists, c, l)) is Some implies number_at(new_lists, b, k)
        != number_at(new_lists, c, l) by {
        assert(number_at(old_lists, b, k) is Some);
        assert(number_at(old_lists, c, l) is Some);
    }
    assert forall|b: int, k: int| (#[trigger] number_at(new_lists, b, k)) is Some implies number_at(
        new_lists,
        b,
        k,
    )->Some_0 < after.next_iname by {
        assert(number_at(old_lists, b, k) is Some);
    }
}

/// Naming and emitting an instruction keeps the numbers in order.
proof fn lemma_emit_keeps_numbers(
    state: GenState,
    requested: Option<Seq<char>>,
    base: crate::code::InstructionBaseView,
)
    requires
        numbers_in_order(state),
    ensures
        fresh_name(state, requested) matches Ok((name, named)) ==> numbers_in_order(
            emit(named, InstructionView { name, instruction_base: base }).1,
        ),
{
    if let Ok((name, named)) = fresh_name(state, requested) {
        let instruction = InstructionView { name, instruction_base: base };
        let after = emit(named, instruction).1;
        let old_lists = lists_so_far(state);
        let new_lists = lists_so_far(after);
        let open = state.current_blocks.len() as int;
        let at = state.current_instructions.len() as int;
        assert(new_lists =~= old_lists.update(open, old_lists[open].push(instruction)));
        assert forall|b: int, k: int| !(b == open && k == at) implies number_at(new_lists, b, k)
            == number_at(old_lists, b, k) by {}
        assert(number_at(old_lists, open, at) is None);
        assert forall|b: int, k: int| (#[trigger] number_at(new_lists, b, k)) is Some implies number_at(
            new_lists,
            b,
            k,
        )->Some_0 < after.next_iname by {
            if !(b == open && k == at) {
                assert(number_at(old_lists, b, k) is Some);
            }
        }
        assert forall|b: int, k: int, c: int, l: int|
            (b != c || k != l) && (#[trigger] number_at(new_lists, b, k)) is Some && (
            #[trigger] number_at(new_lists, c, l)) is Some implies number_at(new_lists, b, k)
            != number_at(new_lists, c, l) by {
            if !(b == open && k == at) {
                assert(number_at(old_lists, b, k) is Some);
            }
            if !(c == open && l == at) {
                assert(number_at(old_lists, c, l) is Some);
            }
        }
    }
}

/// Generation keeps the numbers in order: it defines no number twice, and
/// every function that it finishes on the way is in single-assignment
/// form.
pub proof fn lemma_generate_keeps_numbers(expression: ExpressionView, state: GenState)
    requires
        numbers_in_order(state),
    ensures
        generate_in(expression, state) matches Ok((_, after)) ==> numbers_in_order(after),
        generate_nested(expression, state) matches Ok((_, after)) ==> numbers_in_order(after),
    decreases expression, 0nat,
{
    let unnamed = state.with_requested_name(None);
    lemma_same_instructions(state, unnamed);
    match expression {
        ExpressionView::Body { body } => {
            if body.len() > 0 {
                lemma_generate_prefix_keeps_numbers(body, (body.len() - 1) as nat, unnamed);
                if let Ok(before_last) = generate_prefix(body, (body.len() - 1) as nat, unnamed) {
                    let named = before_last.with_requested_name(state.requested_name);
                    lemma_same_instructions(before_last, named);
                    lemma_generate_keeps_numbers(body[body.len() - 1], named);
                    if let Ok((_, after)) = generate_in(body[body.len() - 1], named) {
                        lemma_same_instructions(after, after.with_scope(state.scope));
                    }
                }
            }
        },
        ExpressionView::Name { name, body } => {
            let named = state.with_requested_name(Some(name.name));
            lemma_same_instructions(state, named);
            lemma_generate_keeps_numbers(*body, named);
            if let Ok((value, after)) = generate_nested(*body, named) {
                lemma_same_instructions(
                    after,
                    after.with_requested_name(None).with_scope(
                        state.scope.insert(name.name, value),
                    ),
                );
            }
        },
        ExpressionView::Function { param, body } => {
            if let Ok((name, after)) = fresh_name(unnamed, state.requested_name) {
                lemma_same_instructions(unnamed, after);
                lemma_function_is_single_assignment(name, param.name, *body);
                if let Ok(functions) = function_of(name, param.name, *body) {
                    let all = after.functions + functions;
                    assert forall|i: int| 0 <= i < all.len() implies single_assignment(
                        #[trigger] all[i],
                    ) by {
                        if i < after.functions.len() {
                            assert(all[i] == state.functions[i]);
                        } else {
                            assert(all[i] == functions[i - after.functions.len()]);
                        }
                    }
                    let end = GenState { functions: all, ..after };
                    assert(lists_so_far(end) == lists_so_far(after));
                }
            }
        },
        ExpressionView::Op { op, lhs, rhs } => {
            lemma_generate_keeps_numbers(*lhs, unnamed);
            if let Ok((lhs_value, after_lhs)) = generate_nested(*lhs, unnamed) {
                lemma_generate_keeps_numbers(*rhs, after_lhs);
                if let Ok((rhs_value, after_rhs)) = generate_nested(*rhs, after_lhs) {
                    lemma_emit_keeps_numbers(
                        after_rhs,
                        state.requested_name,
                        crate::code::InstructionBaseView::Binary {
                            op,
                            lhs: lhs_value,
                            rhs: rhs_value,
                        },
                    );
                }
            }
        },
        ExpressionView::Reference(name) => {},
        ExpressionView::Literal { value } => {},
        ExpressionView::Call { caller, arg } => {
            lemma_generate_keeps_numbers(*arg, unnamed);
            if let Ok((arg_value, after_arg)) = generate_nested(*arg, unnamed) {
                lemma_generate_keeps_numbers(*caller, after_arg);
                if let Ok((caller_value, after_caller)) = generate_nested(*caller, after_arg) {
                    lemma_emit_keeps_numbers(
                        after_caller,
                        state.requested_name,
                        crate::code::InstructionBaseView::Call {
                            caller: caller_value,
                            arg: arg_value,
                        },
                    );
                }
            }
        },
        ExpressionView::If { cond, then_, else_ } => {
            lemma_generate_keeps_numbers(*cond, unnamed);
            if let Ok((cond_value, after_cond)) = generate_nested(*cond, unnamed) {
                if let Ok((else_label, in_then)) = split(after_cond, cond_value) {
                    let then_label = after_cond.next_label;
                    let labelled = GenState { next_label: then_label + 2, ..after_cond };
                    lemma_same_instructions(after_cond, labelled);
                    lemma_close_block_keeps_numbers(
                        labelled,
                        TerminatorView::CondBr {
                            cond: cond_value,
                            then_: then_label,
                            else_: else_label,
                        },
                        then_label,
                    );
                    lemma_generate_keeps_numbers(*then_, in_then);
                    if let Ok((then_value, after_then)) = generate_nested(*then_, in_then) {
                        if let Ok((then_end, end_label, in_else)) = switch_arm(
                            after_then,
                            else_label,
                        ) {
                            let labelled = GenState { next_label: end_label + 1, ..after_then };
                            lemma_same_instructions(after_then, labelled);
                            lemma_close_block_keeps_numbers(
                                labelled,
                                TerminatorView::Br { label: end_label },
                                else_label,
                            );
                            lemma_generate_keeps_numbers(*else_, in_else);
                            if let Ok((else_value, after_else)) = generate_nested(
                                *else_,
                                in_else,
                            ) {
                                lemma_close_block_keeps_numbers(
                                    after_else,
                                    TerminatorView::Br { label: end_label },
                                    end_label,
                                );
                                lemma_emit_keeps_numbers(
                                    close_block(
                                        after_else,
                                        TerminatorView::Br { label: end_label },
                                        end_label,
                                    ),
                                    state.requested_name,
                                    crate::code::InstructionBaseView::Phi {
                                        then_: then_value,
                                        then_label: then_end,
                                        else_: else_value,
                                        else_label: after_else.current_label,
                                    },
                                );
                            }
                        }
                    }
                }
            }
        },
    }
    if let Ok((_, after)) = generate_in(expression, state) {
        lemma_same_instructions(after, after.with_scope(state.scope));
    }
}

/// Generating a prefix of a sequence keeps the numbers in order.
pub proof fn lemma_generate_prefix_keeps_numbers(
    items: Seq<ExpressionView>,
    n: nat,
    state: GenState,
)
    requires
        numbers_in_order(state),
    ensures
        generate_prefix(items, n, state) matches Ok(after) ==> numbers_in_order(after),
    decreases items, n,
{
    if n == 0 || n > items.len() {
    } else {
        lemma_generate_prefix_keeps_numbers(items, (n - 1) as nat, state);
        if let Ok(before) = generate_prefix(items, (n - 1) as nat, state) {
            lemma_generate_keeps_numbers(items[n - 1], before);
        }
    }
}

/// Every function that a function literal becomes is in single-assignment
/// form as far as numbered values go: no two of its instructions define
/// the same number. Two instructions may still share a name taken from the
/// source, where the source binds that name twice.
pub proof fn lemma_function_is_single_assignment(
    name: NameView,
    param: Seq<char>,
    body: ExpressionView,
)
    ensures
        function_of(name, param, body) matches Ok(functions) ==> all_single_assignment(functions),
    decreases body, 2nat,
{
    let start = initial_state().with_scope(
        Map::empty().insert(param, ValueView::Reference { name: NameView::Name(param) }),
    );
    assert(lists_so_far(start) =~= seq![Seq::<InstructionView>::empty()]);
    assert forall|b: int, k: int| number_at(lists_so_far(start), b, k) is None by {}
    lemma_generate_keeps_numbers(body, start);
    if let Ok((value, end)) = generate_in(body, start) {
        if let Ok(functions) = function_of(name, param, body) {
            let last = BlockView {
                label: end.current_label,
                instructions: end.current_instructions,
                terminator: TerminatorView::Ret { value },
            };
            let blocks = end.current_blocks.push(last);
            assert(instruction_lists(blocks) =~= lists_so_far(end));
            assert(functions.last().blocks == blocks);
            assert forall|i: int| 0 <= i < functions.len() implies single_assignment(
                #[trigger] functions[i],
            ) by {
                if i < end.functions.len() {
                    assert(functions[i] == end.functions[i]);
                }
            }
        }
    }
}

/// Every function of a generated module is in single-assignment form as
/// far as numbered values go.
pub proof fn lemma_module_is_single_assignment(expression: ExpressionView)
    ensures
        module_of(expression) matches Ok(module) ==> all_single_assignment(module.functions),
{
    lemma_function_is_single_assignment(NameView::Name("main"@), Seq::empty(), expression);
}

} // verus!
