//! What holds of the control-flow graph of every generated function: its
//! blocks have labels of their own, and every branch goes to one of them.

use vstd::prelude::*;
use crate::code::{BlockView, FunctionView, NameView, TerminatorView, ValueView};
use crate::expression::ExpressionView;
use crate::generate_code::{
    close_block, function_of, generate_in, generate_nested, generate_prefix, initial_state,
    module_of, split, switch_arm, GenState,
};
use crate::generate_code_proofs::{
    appends_to, lemma_function_shape, lemma_generate_appends, lemma_generate_counters_grow,
    none_returns,
};

verus! {

/// One of `blocks` has the label `label`.
pub open spec fn has_label(blocks: Seq<BlockView>, label: nat) -> bool {
    exists|i: int| 0 <= i < blocks.len() && (#[trigger] blocks[i]).label == label
}

/// `terminator` may pass control to the block `label`.
pub open spec fn branches_to(terminator: TerminatorView, label: nat) -> bool {
    match terminator {
        TerminatorView::Ret { .. } => false,
        TerminatorView::CondBr { then_, else_, .. } => label == then_ || label == else_,
        TerminatorView::Br { label: target } => label == target,
    }
}

/// No two of `blocks` have the same label.
pub open spec fn labels_distinct(blocks: Seq<BlockView>) -> bool {
    forall|i: int, j: int|
        0 <= i < j < blocks.len() ==> (#[trigger] blocks[i]).label != (#[trigger] blocks[j]).label
}

/// Every branch out of one of `blocks` goes to one of `blocks`.
pub open spec fn targets_exist(blocks: Seq<BlockView>) -> bool {
    forall|i: int, label: nat|
        0 <= i < blocks.len() && #[trigger] branches_to(blocks[i].terminator, label)
            ==> has_label(blocks, label)
}

/// `function` is a well-formed control-flow graph: it starts with its entry
/// block, which has the label 0; its last block, and no other, returns; no
/// two blocks share a label; and every branch goes to a block of the
/// function.
pub open spec fn well_formed(function: FunctionView) -> bool {
    &&& function.blocks.len() >= 1
    &&& function.blocks[0].label == 0
    &&& function.blocks.last().terminator is Ret
    &&& none_returns(function.blocks.drop_last())
    &&& labels_distinct(function.blocks)
    &&& targets_exist(function.blocks)
}

/// Every one of `functions` is well formed.
pub open spec fn all_well_formed(functions: Seq<FunctionView>) -> bool {
    forall|i: int| 0 <= i < functions.len() ==> well_formed(#[trigger] functions[i])
}

/// The labels in use are in order: the open block and the closed ones have
/// labels that were allocated, and no two of them share one.
pub open spec fn labels_in_order(state: GenState) -> bool {
    &&& state.current_label < state.next_label
    &&& forall|i: int|
        0 <= i < state.current_blocks.len() ==> (#[trigger] state.current_blocks[i]).label
            < state.next_label && state.current_blocks[i].label != state.current_label
    &&& labels_distinct(state.current_blocks)
}

/// What `after` has closed or opened since `before` has the label of the
/// block that was open in `before`, or a label allocated since.
pub open spec fn only_new_labels(before: GenState, after: GenState) -> bool {
    &&& after.current_label == before.current_label || after.current_label >= before.next_label
    &&& forall|i: int|
        before.current_blocks.len() <= i < after.current_blocks.len() ==> (
        #[trigger] after.current_blocks[i]).label == before.current_label
            || after.current_blocks[i].label >= before.next_label
}

/// Every branch out of a closed block goes to a closed block, to the open
/// block, or to a block that an enclosing conditional has yet to open.
pub open spec fn targets_known(state: GenState, pending: Set<nat>) -> bool {
    forall|i: int, label: nat|
        0 <= i < state.current_blocks.len() && #[trigger] branches_to(
            state.current_blocks[i].terminator,
            label,
        ) ==> has_label(state.current_blocks, label) || label == state.current_label
            || pending.contains(label)
}

/// The graph is in order in `state`.
pub open spec fn graph_in_order(state: GenState, pending: Set<nat>) -> bool {
    &&& labels_in_order(state)
    &&& targets_known(state, pending)
    &&& none_returns(state.current_blocks)
    &&& all_well_formed(state.functions)
}

/// The graph is still in order in `after`, which was reached from `before`.
pub open spec fn graph_kept(before: GenState, after: GenState, pending: Set<nat>) -> bool {
    &&& graph_in_order(after, pending)
    &&& only_new_labels(before, after)
    &&& appends_to(before, after)
    &&& before.next_label <= after.next_label
}

proof fn lemma_prefix_index<A>(a: Seq<A>, b: Seq<A>, i: int)
    requires
        a.is_prefix_of(b),
        0 <= i < a.len(),
    ensures
        a[i] == b[i],
{
    assert(a[i] == b.subrange(0, a.len() as int)[i]);
}

proof fn lemma_has_label_in_longer(a: Seq<BlockView>, b: Seq<BlockView>, label: nat)
    requires
        a.is_prefix_of(b),
        has_label(a, label),
    ensures
        has_label(b, label),
{
    let i = choose|i: int| 0 <= i < a.len() && (#[trigger] a[i]).label == label;
    lemma_prefix_index(a, b, i);
    assert(b[i].label == label);
}

/// Two steps that each keep the graph keep it together.
proof fn lemma_graph_kept_in_sequence(
    start: GenState,
    middle: GenState,
    end: GenState,
    pending: Set<nat>,
)
    requires
        graph_kept(start, middle, pending),
        graph_kept(middle, end, pending),
    ensures
        graph_kept(start, end, pending),
{
    let closed = start.current_blocks.len() as int;
    assert forall|i: int| closed <= i < end.current_blocks.len() implies (
    #[trigger] end.current_blocks[i]).label == start.current_label || end.current_blocks[i].label
        >= start.next_label by {
        if i < middle.current_blocks.len() {
            lemma_prefix_index(middle.current_blocks, end.current_blocks, i);
        }
    }
    if end.current_blocks.len() > closed {
        if middle.current_blocks.len() > closed {
            lemma_prefix_index(middle.current_blocks, end.current_blocks, closed);
        }
    }
}

/// Closing the open block keeps the labels in order and the branches
/// known, where the label of the block that is opened is not in use and the
/// branches out of the closed block, and those that were pending, go to the
/// opened block or are pending now.
proof fn lemma_close_block_keeps_graph(
    state: GenState,
    terminator: TerminatorView,
    next_label: nat,
    pending: Set<nat>,
    now_pending: Set<nat>,
)
    requires
        graph_in_order(state, pending),
        !(terminator is Ret),
        next_label < state.next_label,
        next_label != state.current_label,
        forall|i: int|
            0 <= i < state.current_blocks.len() ==> (#[trigger] state.current_blocks[i]).label
                != next_label,
        forall|label: nat| #[trigger]
            branches_to(terminator, label) ==> label == next_label || now_pending.contains(label),
        forall|label: nat| #[trigger]
            pending.contains(label) ==> label == next_label || now_pending.contains(label),
    ensures
        graph_in_order(close_block(state, terminator, next_label), now_pending),
{
    let after = close_block(state, terminator, next_label);
    let closed = state.current_blocks.len() as int;
    assert(state.current_blocks.is_prefix_of(after.current_blocks));
    assert forall|i: int, label: nat|
        0 <= i < after.current_blocks.len() && #[trigger] branches_to(
            after.current_blocks[i].terminator,
            label,
        ) implies has_label(after.current_blocks, label) || label == after.current_label
        || now_pending.contains(label) by {
        if i < closed {
            assert(branches_to(state.current_blocks[i].terminator, label));
            if has_label(state.current_blocks, label) {
                lemma_has_label_in_longer(state.current_blocks, after.current_blocks, label);
            } else if label == state.current_label {
                assert(after.current_blocks[closed].label == label);
            }
        }
    }
}

/// Generation keeps the graph in order: from a state whose labels are in
/// order and whose branches are known, it reaches one of which the same
/// holds, and every function that it finishes on the way is well formed.
pub proof fn lemma_generate_keeps_graph(
    expression: ExpressionView,
    state: GenState,
    pending: Set<nat>,
)
    requires
        graph_in_order(state, pending),
    ensures
        generate_in(expression, state) matches Ok((_, after)) ==> graph_kept(
            state,
            after,
            pending,
        ),
        generate_nested(expression, state) matches Ok((_, after)) ==> graph_kept(
            state,
            after,
            pending,
        ),
    decreases expression, 0nat,
{
    let unnamed = state.with_requested_name(None);
    lemma_generate_appends(expression, state);
    lemma_generate_counters_grow(expression, state);
    match expression {
        ExpressionView::Body { body } => {
            if body.len() > 0 {
                lemma_generate_prefix_keeps_graph(body, (body.len() - 1) as nat, unnamed, pending);
                if let Ok(before_last) = generate_prefix(body, (body.len() - 1) as nat, unnamed) {
                    let named = before_last.with_requested_name(state.requested_name);
                    lemma_generate_keeps_graph(body[body.len() - 1], named, pending);
                    if let Ok((_, after)) = generate_in(body[body.len() - 1], named) {
                        lemma_graph_kept_in_sequence(unnamed, named, after, pending);
                    }
                }
            }
        },
        ExpressionView::Name { name, body } => {
            lemma_generate_keeps_graph(*body, state.with_requested_name(Some(name.name)), pending);
        },
        ExpressionView::Function { param, body } => {
            if let Ok((name, after)) = crate::generate_code::fresh_name(
                unnamed,
                state.requested_name,
            ) {
                lemma_function_is_well_formed(name, param.name, *body);
                if let Ok(functions) = function_of(name, param.name, *body) {
                    let all = after.functions + functions;
                    assert forall|i: int| 0 <= i < all.len() implies well_formed(
                        #[trigger] all[i],
                    ) by {
                        if i < after.functions.len() {
                            assert(all[i] == state.functions[i]);
                        } else {
                            assert(all[i] == functions[i - after.functions.len()]);
                        }
                    }
                }
            }
        },
        ExpressionView::Op { op, lhs, rhs } => {
            lemma_generate_keeps_graph(*lhs, unnamed, pending);
            if let Ok((_, after_lhs)) = generate_nested(*lhs, unnamed) {
                lemma_generate_keeps_graph(*rhs, after_lhs, pending);
                if let Ok((_, after_rhs)) = generate_nested(*rhs, after_lhs) {
                    lemma_graph_kept_in_sequence(unnamed, after_lhs, after_rhs, pending);
                }
            }
        },
        ExpressionView::Reference(name) => {},
        ExpressionView::Literal { value } => {},
        ExpressionView::Call { caller, arg } => {
            lemma_generate_keeps_graph(*arg, unnamed, pending);
            if let Ok((_, after_arg)) = generate_nested(*arg, unnamed) {
                lemma_generate_keeps_graph(*caller, after_arg, pending);
                if let Ok((_, after_caller)) = generate_nested(*caller, after_arg) {
                    lemma_graph_kept_in_sequence(unnamed, after_arg, after_caller, pending);
                }
            }
        },
        ExpressionView::If { cond, then_, else_ } => {
            lemma_generate_keeps_graph(*cond, unnamed, pending);
            if let Ok((cond_value, after_cond)) = generate_nested(*cond, unnamed) {
                if let Ok((else_label, in_then)) = split(after_cond, cond_value) {
                    let then_label = after_cond.next_label;
                    let in_then_pending = pending.insert(else_label);
                    lemma_close_block_keeps_graph(
                        GenState { next_label: then_label + 2, ..after_cond },
                        TerminatorView::CondBr {
                            cond: cond_value,
                            then_: then_label,
                            else_: else_label,
                        },
                        then_label,
                        pending,
                        in_then_pending,
                    );
                    assert forall|i: int| 0 <= i < in_then.current_blocks.len() implies (
                    #[trigger] in_then.current_blocks[i]).label < then_label by {
                        if i < after_cond.current_blocks.len() {
                            assert(in_then.current_blocks[i] == after_cond.current_blocks[i]);
                        }
                    }
                    lemma_generate_keeps_graph(*then_, in_then, in_then_pending);
                    if let Ok((_, after_then)) = generate_nested(*then_, in_then) {
                        if let Ok((then_end, end_label, in_else)) = switch_arm(
                            after_then,
                            else_label,
                        ) {
                            let in_else_pending = pending.insert(end_label);
                            assert forall|i: int|
                                0 <= i < after_then.current_blocks.len() implies (
                            #[trigger] after_then.current_blocks[i]).label != else_label by {
                                if i < in_then.current_blocks.len() {
                                    lemma_prefix_index(
                                        in_then.current_blocks,
                                        after_then.current_blocks,
                                        i,
                                    );
                                }
                            }
                            lemma_close_block_keeps_graph(
                                GenState { next_label: end_label + 1, ..after_then },
                                TerminatorView::Br { label: end_label },
                                else_label,
                                in_then_pending,
                                in_else_pending,
                            );
                            assert forall|i: int| 0 <= i < in_else.current_blocks.len() implies (
                            #[trigger] in_else.current_blocks[i]).label < end_label by {
                                if i < after_then.current_blocks.len() {
                                    assert(in_else.current_blocks[i]
                                        == after_then.current_blocks[i]);
                                }
                            }
                            lemma_generate_keeps_graph(*else_, in_else, in_else_pending);
                            if let Ok((_, after_else)) = generate_nested(*else_, in_else) {
                                assert forall|i: int|
                                    0 <= i < after_else.current_blocks.len() implies (
                                #[trigger] after_else.current_blocks[i]).label != end_label by {
                                    if i < in_else.current_blocks.len() {
                                        lemma_prefix_index(
                                            in_else.current_blocks,
                                            after_else.current_blocks,
                                            i,
                                        );
                                    }
                                }
                                lemma_close_block_keeps_graph(
                                    after_else,
                                    TerminatorView::Br { label: end_label },
                                    end_label,
                                    in_else_pending,
                                    pending,
                                );
                                let joined = close_block(
                                    after_else,
                                    TerminatorView::Br { label: end_label },
                                    end_label,
                                );
                                lemma_conditional_has_only_new_labels(
                                    unnamed,
                                    after_cond,
                                    in_then,
                                    after_then,
                                    in_else,
                                    after_else,
                                    joined,
                                );
                            }
                        }
                    }
                }
            }
        },
    }
}

/// The labels that a conditional closes or opens blocks under are new:
/// the steps of a conditional, put together.
proof fn lemma_conditional_has_only_new_labels(
    start: GenState,
    after_cond: GenState,
    in_then: GenState,
    after_then: GenState,
    in_else: GenState,
    after_else: GenState,
    joined: GenState,
)
    requires
        only_new_labels(start, after_cond),
        appends_to(start, after_cond),
        start.next_label <= after_cond.next_label,
        in_then.current_blocks == after_cond.current_blocks.push(in_then.current_blocks.last()),
        in_then.current_blocks.last().label == after_cond.current_label,
        in_then.current_label == after_cond.next_label,
        in_then.next_label == after_cond.next_label + 2,
        only_new_labels(in_then, after_then),
        appends_to(in_then, after_then),
        in_then.next_label <= after_then.next_label,
        in_else.current_blocks == after_then.current_blocks.push(in_else.current_blocks.last()),
        in_else.current_blocks.last().label == after_then.current_label,
        in_else.current_label == after_cond.next_label + 1,
        in_else.next_label == after_then.next_label + 1,
        only_new_labels(in_else, after_else),
        appends_to(in_else, after_else),
        in_else.next_label <= after_else.next_label,
        joined.current_blocks == after_else.current_blocks.push(joined.current_blocks.last()),
        joined.current_blocks.last().label == after_else.current_label,
        joined.current_label == after_then.next_label,
    ensures
        only_new_labels(start, joined),
{
    let first = start.next_label;
    assert forall|i: int|
        start.current_blocks.len() <= i < joined.current_blocks.len() implies (
    #[trigger] joined.current_blocks[i]).label == start.current_label
        || joined.current_blocks[i].label >= first by {
        if i < after_else.current_blocks.len() {
            assert(joined.current_blocks[i] == after_else.current_blocks[i]);
            if i < in_else.current_blocks.len() {
                lemma_prefix_index(in_else.current_blocks, after_else.current_blocks, i);
                if i < after_then.current_blocks.len() {
                    assert(in_else.current_blocks[i] == after_then.current_blocks[i]);
                    if i < in_then.current_blocks.len() {
                        lemma_prefix_index(in_then.current_blocks, after_then.current_blocks, i);
                        if i < after_cond.current_blocks.len() {
                            assert(in_then.current_blocks[i] == after_cond.current_blocks[i]);
                        }
                    }
                }
            }
        }
    }
}

/// Generating a prefix of a sequence keeps the graph in order.
pub proof fn lemma_generate_prefix_keeps_graph(
    items: Seq<ExpressionView>,
    n: nat,
    state: GenState,
    pending: Set<nat>,
)
    requires
        graph_in_order(state, pending),
    ensures
        generate_prefix(items, n, state) matches Ok(after) ==> graph_kept(state, after, pending),
    decreases items, n,
{
    if n == 0 || n > items.len() {
    } else {
        lemma_generate_prefix_keeps_graph(items, (n - 1) as nat, state, pending);
        if let Ok(before) = generate_prefix(items, (n - 1) as nat, state) {
            lemma_generate_keeps_graph(items[n - 1], before, pending);
            if let Ok((_, after)) = generate_in(items[n - 1], before) {
                lemma_graph_kept_in_sequence(state, before, after, pending);
            }
        }
    }
}

/// Every function that a function literal becomes is a well-formed
/// control-flow graph: the function of the literal itself and those of the
/// literals inside it.
pub proof fn lemma_function_is_well_formed(name: NameView, param: Seq<char>, body: ExpressionView)
    ensures
        function_of(name, param, body) matches Ok(functions) ==> all_well_formed(functions),
    decreases body, 2nat,
{
    let start = initial_state().with_scope(
        Map::empty().insert(param, ValueView::Reference { name: NameView::Name(param) }),
    );
    let pending = Set::<nat>::empty();
    lemma_generate_keeps_graph(body, start, pending);
    lemma_function_shape(name, param, body);
    if let Ok((value, end)) = generate_in(body, start) {
        if let Ok(functions) = function_of(name, param, body) {
            let last = BlockView {
                label: end.current_label,
                instructions: end.current_instructions,
                terminator: TerminatorView::Ret { value },
            };
            let blocks = end.current_blocks.push(last);
            let closed = end.current_blocks.len() as int;
            assert(end.current_blocks.is_prefix_of(blocks));
            assert(blocks[closed].label == end.current_label);
            assert forall|i: int, label: nat|
                0 <= i < blocks.len() && #[trigger] branches_to(
                    blocks[i].terminator,
                    label,
                ) implies has_label(blocks, label) by {
                if i < closed {
                    assert(branches_to(end.current_blocks[i].terminator, label));
                    if has_label(end.current_blocks, label) {
                        lemma_has_label_in_longer(end.current_blocks, blocks, label);
                    }
                }
            }
            assert(functions.last().blocks == blocks);
            assert(well_formed(functions.last()));
            assert forall|i: int| 0 <= i < functions.len() implies well_formed(
                #[trigger] functions[i],
            ) by {
                if i < end.functions.len() {
                    assert(functions[i] == end.functions[i]);
                }
            }
        }
    }
}

/// Every function of a generated module is a well-formed control-flow
/// graph.
pub proof fn lemma_module_is_well_formed(expression: ExpressionView)
    ensures
        module_of(expression) matches Ok(module) ==> all_well_formed(module.functions),
{
    lemma_function_is_well_formed(NameView::Name("main"@), Seq::empty(), expression);
}

} // verus!
