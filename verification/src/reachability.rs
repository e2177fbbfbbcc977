//! Every block of a generated function can be reached from its entry block:
//! each block but the first is branched to from a block that stands before
//! it.

use vstd::prelude::*;
use crate::code::{BlockView, FunctionView, NameView, TerminatorView, ValueView};
use crate::control_flow::branches_to;
use crate::expression::ExpressionView;
use crate::generate_code::{
    close_block, fresh_name, function_of, generate_in, generate_nested, generate_prefix,
    initial_state, module_of, split, switch_arm, GenState,
};

verus! {

/// One of the first `before` of `blocks` may pass control to the block
/// `label`.
pub open spec fn entered_from(blocks: Seq<BlockView>, before: int, label: nat) -> bool {
    exists|j: int|
        0 <= j < before && j < blocks.len() && #[trigger] branches_to(blocks[j].terminator, label)
}

/// Every one of `blocks` but the first is branched to from a block that
/// stands before it, so that every block can be reached from the first.
pub open spec fn entered_from_earlier(blocks: Seq<BlockView>) -> bool {
    forall|i: int| 0 < i < blocks.len() ==> entered_from(blocks, i, (#[trigger] blocks[i]).label)
}

/// Every block of each of `functions` can be reached from the first.
pub open spec fn all_entered_from_earlier(functions: Seq<FunctionView>) -> bool {
    forall|i: int|
        0 <= i < functions.len() ==> entered_from_earlier((#[trigger] functions[i]).blocks)
}

/// Every closed block but the first is branched to from a closed block
/// before it, and so are the open block, unless it is the first block, and
/// every block that an enclosing conditional has yet to open. The same
/// holds of the functions that are finished.
#[verifier::opaque]
pub open spec fn blocks_entered(state: GenState, pending: Set<nat>) -> bool {
    let closed = state.current_blocks.len() as int;
    &&& entered_from_earlier(state.current_blocks)
    &&& closed > 0 ==> entered_from(state.current_blocks, closed, state.current_label)
    &&& forall|label: nat| #[trigger]
        pending.contains(label) ==> entered_from(state.current_blocks, closed, label)
    &&& all_entered_from_earlier(state.functions)
}

/// A state with the blocks, the open block and the functions of another
/// has its blocks entered as the other has.
proof fn lemma_same_blocks_entered(before: GenState, after: GenState, pending: Set<nat>)
    requires
        blocks_entered(before, pending),
        after.current_blocks == before.current_blocks,
        after.current_label == before.current_label,
        after.functions == before.functions,
    ensures
        blocks_entered(after, pending),
{
    reveal(blocks_entered);
}

/// A branch found among the first blocks of a sequence is found among the
/// first blocks of the sequence with one more block.
proof fn lemma_entered_after_push(
    blocks: Seq<BlockView>,
    block: BlockView,
    before: int,
    label: nat,
)
    requires
        entered_from(blocks, before, label),
    ensures
        entered_from(blocks.push(block), before, label),
        entered_from(blocks.push(block), blocks.len() as int + 1, label),
{
    let j = choose|j: int|
        0 <= j < before && j < blocks.len() && #[trigger] branches_to(
            blocks[j].terminator,
            label,
        );
    assert(blocks.push(block)[j] == blocks[j]);
    assert(branches_to(blocks.push(block)[j].terminator, label));
}

/// Closing the open block keeps the blocks entered, where the block that
/// is opened is branched to from the closed one or was pending, and what
/// is pending now was pending or is branched to from the closed one.
proof fn lemma_close_block_keeps_entered(
    state: GenState,
    terminator: TerminatorView,
    next_label: nat,
    pending: Set<nat>,
    now_pending: Set<nat>,
)
    requires
        blocks_entered(state, pending),
        branches_to(terminator, next_label) || pending.contains(next_label),
        forall|label: nat| #[trigger]
            now_pending.contains(label) ==> pending.contains(label) || branches_to(
                terminator,
                label,
            ),
    ensures
        blocks_entered(close_block(state, terminator, next_label), now_pending),
{
    reveal(blocks_entered);
    let after = close_block(state, terminator, next_label);
    let old_blocks = state.current_blocks;
    let closed = old_blocks.len() as int;
    let block = BlockView {
        label: state.current_label,
        instructions: state.current_instructions,
        terminator,
    };
    let new_blocks = old_blocks.push(block);
    assert(after.current_blocks == new_blocks);
    assert(new_blocks[closed] == block);
    assert forall|i: int| 0 < i < new_blocks.len() implies entered_from(
        new_blocks,
        i,
        (#[trigger] new_blocks[i]).label,
    ) by {
        if i < closed {
            assert(new_blocks[i] == old_blocks[i]);
            lemma_entered_after_push(old_blocks, block, i, old_blocks[i].label);
        } else {
            lemma_entered_after_push(old_blocks, block, closed, state.current_label);
        }
    }
    assert(entered_from(new_blocks, closed + 1, next_label)) by {
        if branches_to(terminator, next_label) {
            assert(branches_to(new_blocks[closed].terminator, next_label));
        } else {
            lemma_entered_after_push(old_blocks, block, closed, next_label);
        }
    }
    assert forall|label: nat| #[trigger] now_pending.contains(label) implies entered_from(
        new_blocks,
        closed + 1,
        label,
    ) by {
        if branches_to(terminator, label) {
            assert(branches_to(new_blocks[closed].terminator, label));
        } else {
            lemma_entered_after_push(old_blocks, block, closed, label);
        }
    }
}

/// Generation keeps the blocks entered.
pub proof fn lemma_generate_keeps_entered(
    expression: ExpressionView,
    state: GenState,
    pending: Set<nat>,
)
    requires
        blocks_entered(state, pending),
    ensures
        generate_in(expression, state) matches Ok((_, after)) ==> blocks_entered(after, pending),
        generate_nested(expression, state) matches Ok((_, after)) ==> blocks_entered(
            after,
            pending,
        ),
    decreases expression, 0nat,
{
    let unnamed = state.with_requested_name(None);
    lemma_same_blocks_entered(state, unnamed, pending);
    match expression {
        ExpressionView::Body { body } => {
            if body.len() > 0 {
                lemma_generate_prefix_keeps_entered(
                    body,
                    (body.len() - 1) as nat,
                    unnamed,
                    pending,
                );
                if let Ok(before_last) = generate_prefix(body, (body.len() - 1) as nat, unnamed) {
                    let named = before_last.with_requested_name(state.requested_name);
                    lemma_same_blocks_entered(before_last, named, pending);
                    lemma_generate_keeps_entered(body[body.len() - 1], named, pending);
                    if let Ok((_, after)) = generate_in(body[body.len() - 1], named) {
                        lemma_same_blocks_entered(after, after.with_scope(state.scope), pending);
                    }
                }
            }
        },
        ExpressionView::Name { name, body } => {
            let named = state.with_requested_name(Some(name.name));
            lemma_same_blocks_entered(state, named, pending);
            lemma_generate_keeps_entered(*body, named, pending);
            if let Ok((value, after)) = generate_nested(*body, named) {
                lemma_same_blocks_entered(
                    after,
                    after.with_requested_name(None).with_scope(
                        state.scope.insert(name.name, value),
                    ),
                    pending,
                );
            }
        },
        ExpressionView::Function { param, body } => {
            if let Ok((name, after)) = fresh_name(unnamed, state.requested_name) {
                lemma_function_blocks_are_reachable(name, param.name, *body);
                if let Ok(functions) = function_of(name, param.name, *body) {
                    let all = after.functions + functions;
                    reveal(blocks_entered);
                    assert forall|i: int| 0 <= i < all.len() implies entered_from_earlier(
                        (#[trigger] all[i]).blocks,
                    ) by {
                        if i < after.functions.len() {
                            assert(all[i] == state.functions[i]);
                        } else {
                            assert(all[i] == functions[i - after.functions.len()]);
                        }
                    }
                }
            }
        },
        ExpressionView::Op { op, lhs, rhs } => {
            lemma_generate_keeps_entered(*lhs, unnamed, pending);
            if let Ok((_, after_lhs)) = generate_nested(*lhs, unnamed) {
                lemma_generate_keeps_entered(*rhs, after_lhs, pending);
                if let Ok((_, after_rhs)) = generate_nested(*rhs, after_lhs) {
                    if let Ok((_, after)) = generate_in(expression, state) {
                        lemma_same_blocks_entered(after_rhs, after, pending);
                    }
                }
            }
        },
        ExpressionView::Reference(name) => {},
        ExpressionView::Literal { value } => {},
        ExpressionView::Call { caller, arg } => {
            lemma_generate_keeps_entered(*arg, unnamed, pending);
            if let Ok((_, after_arg)) = generate_nested(*arg, unnamed) {
                lemma_generate_keeps_entered(*caller, after_arg, pending);
                if let Ok((_, after_caller)) = generate_nested(*caller, after_arg) {
                    if let Ok((_, after)) = generate_in(expression, state) {
                        lemma_same_blocks_entered(after_caller, after, pending);
                    }
                }
            }
        },
        ExpressionView::If { cond, then_, else_ } => {
            lemma_generate_keeps_entered(*cond, unnamed, pending);
            if let Ok((cond_value, after_cond)) = generate_nested(*cond, unnamed) {
                if let Ok((else_label, in_then)) = split(after_cond, cond_value) {
                    let then_label = after_cond.next_label;
                    let in_then_pending = pending.insert(else_label);
                    let labelled = GenState { next_label: then_label + 2, ..after_cond };
                    lemma_same_blocks_entered(after_cond, labelled, pending);
                    lemma_close_block_keeps_entered(
                        labelled,
                        TerminatorView::CondBr {
                            cond: cond_value,
                            then_: then_label,
                            else_: else_label,
                        },
                        then_label,
                        pending,
                        in_then_pending,
                    );
                    lemma_generate_keeps_entered(*then_, in_then, in_then_pending);
                    if let Ok((_, after_then)) = generate_nested(*then_, in_then) {
                        if let Ok((_, end_label, in_else)) = switch_arm(after_then, else_label) {
                            let in_else_pending = pending.insert(end_label);
                            let labelled = GenState { next_label: end_label + 1, ..after_then };
                            lemma_same_blocks_entered(after_then, labelled, in_then_pending);
                            lemma_close_block_keeps_entered(
                                labelled,
                                TerminatorView::Br { label: end_label },
                                else_label,
                                in_then_pending,
                                in_else_pending,
                            );
                            lemma_generate_keeps_entered(*else_, in_else, in_else_pending);
                            if let Ok((_, after_else)) = generate_nested(*else_, in_else) {
                                lemma_close_block_keeps_entered(
                                    after_else,
                                    TerminatorView::Br { label: end_label },
                                    end_label,
                                    in_else_pending,
                                    pending,
                                );
                                let joined = close_block(
                                    after_else,
                                    TerminatorView::Br { label: end_label },
                                    end_label,
                                );
                                if let Ok((_, after)) = generate_in(expression, state) {
                                    lemma_same_blocks_entered(joined, after, pending);
                                }
                            }
                        }
                    }
                }
            }
        },
    }
    if let Ok((_, after)) = generate_in(expression, state) {
        lemma_same_blocks_entered(after, after.with_scope(state.scope), pending);
    }
}

/// Generating a prefix of a sequence keeps the blocks entered.
pub proof fn lemma_generate_prefix_keeps_entered(
    items: Seq<ExpressionView>,
    n: nat,
    state: GenState,
    pending: Set<nat>,
)
    requires
        blocks_entered(state, pending),
    ensures
        generate_prefix(items, n, state) matches Ok(after) ==> blocks_entered(after, pending),
    decreases items, n,
{
    if n == 0 || n > items.len() {
    } else {
        lemma_generate_prefix_keeps_entered(items, (n - 1) as nat, state, pending);
        if let Ok(before) = generate_prefix(items, (n - 1) as nat, state) {
            lemma_generate_keeps_entered(items[n - 1], before, pending);
        }
    }
}

/// In every function that a function literal becomes, every block can be
/// reached from the entry block: each block but the first is branched to
/// from a block that stands before it.
pub proof fn lemma_function_blocks_are_reachable(
    name: NameView,
    param: Seq<char>,
    body: ExpressionView,
)
    ensures
        function_of(name, param, body) matches Ok(functions) ==> all_entered_from_earlier(
            functions,
        ),
    decreases body, 2nat,
{
    let start = initial_state().with_scope(
        Map::empty().insert(param, ValueView::Reference { name: NameView::Name(param) }),
    );
    let pending = Set::<nat>::empty();
    assert(blocks_entered(start, pending)) by {
        reveal(blocks_entered);
    }
    lemma_generate_keeps_entered(body, start, pending);
    if let Ok((value, end)) = generate_in(body, start) {
        if let Ok(functions) = function_of(name, param, body) {
            reveal(blocks_entered);
            let last = BlockView {
                label: end.current_label,
                instructions: end.current_instructions,
                terminator: TerminatorView::Ret { value },
            };
            let blocks = end.current_blocks.push(last);
            let closed = end.current_blocks.len() as int;
            assert forall|i: int| 0 < i < blocks.len() implies entered_from(
                blocks,
                i,
                (#[trigger] blocks[i]).label,
            ) by {
                if i < closed {
                    assert(blocks[i] == end.current_blocks[i]);
                    lemma_entered_after_push(
                        end.current_blocks,
                        last,
                        i,
                        end.current_blocks[i].label,
                    );
                } else {
                    lemma_entered_after_push(end.current_blocks, last, closed, end.current_label);
                }
            }
            assert(functions.last().blocks == blocks);
            assert forall|i: int| 0 <= i < functions.len() implies entered_from_earlier(
                (#[trigger] functions[i]).blocks,
            ) by {
                if i < end.functions.len() {
                    assert(functions[i] == end.functions[i]);
                }
            }
        }
    }
}

/// In every function of a generated module, every block can be reached
/// from the entry block.
pub proof fn lemma_module_blocks_are_reachable(expression: ExpressionView)
    ensures
        module_of(expression) matches Ok(module) ==> all_entered_from_earlier(module.functions),
{
    lemma_function_blocks_are_reachable(NameView::Name("main"@), Seq::empty(), expression);
}

} // verus!
