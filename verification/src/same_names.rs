//! What the numbers on identifiers do not change: resolution goes by the
//! names alone and keeps the shape of the tree, and generation goes by the
//! names alone, so a tree and its resolved form generate the same module.

use vstd::prelude::*;
use crate::code::{NameView, ValueView};
use crate::expression::ExpressionView;
use crate::generate_code::{
    function_of, generate_in, generate_nested, generate_prefix, initial_state, module_of, split,
    switch_arm, GenState,
};
use crate::resolve_names::{resolve_in, resolve_prefix, resolved, stamp, Counters};

verus! {

/// `a` and `b` are the same tree but for the numbers on their identifiers.
pub open spec fn same_names(a: ExpressionView, b: ExpressionView) -> bool
    decreases a,
{
    match a {
        ExpressionView::Body { body } => {
            &&& b matches ExpressionView::Body { body: other }
            &&& body.len() == other.len()
            &&& forall|i: int|
                0 <= i < body.len() ==> same_names(#[trigger] body[i], other[i])
        },
        ExpressionView::Name { name, body } => {
            &&& b matches ExpressionView::Name { name: other_name, body: other }
            &&& name.name == other_name.name
            &&& same_names(*body, *other)
        },
        ExpressionView::Function { param, body } => {
            &&& b matches ExpressionView::Function { param: other_param, body: other }
            &&& param.name == other_param.name
            &&& same_names(*body, *other)
        },
        ExpressionView::Op { op, lhs, rhs } => {
            &&& b matches ExpressionView::Op { op: other_op, lhs: other_lhs, rhs: other_rhs }
            &&& op == other_op
            &&& same_names(*lhs, *other_lhs)
            &&& same_names(*rhs, *other_rhs)
        },
        ExpressionView::Reference(name) => {
            &&& b matches ExpressionView::Reference(other)
            &&& name.name == other.name
        },
        ExpressionView::Literal { value } => b == a,
        ExpressionView::Call { caller, arg } => {
            &&& b matches ExpressionView::Call { caller: other_caller, arg: other_arg }
            &&& same_names(*caller, *other_caller)
            &&& same_names(*arg, *other_arg)
        },
        ExpressionView::If { cond, then_, else_ } => {
            &&& b matches ExpressionView::If {
                cond: other_cond,
                then_: other_then,
                else_: other_else,
            }
            &&& same_names(*cond, *other_cond)
            &&& same_names(*then_, *other_then)
            &&& same_names(*else_, *other_else)
        },
    }
}

/// Resolution changes nothing but the numbers on identifiers.
pub proof fn lemma_resolution_keeps_names(expression: ExpressionView, counters: Counters)
    ensures
        resolve_in(expression, counters) matches Ok((tree, _)) ==> same_names(expression, tree),
    decreases expression, 0nat,
{
    match expression {
        ExpressionView::Body { body } => {
            lemma_resolve_prefix_keeps_names(body, body.len(), counters);
        },
        ExpressionView::Name { name, body } => {
            if let Ok((_, inner)) = stamp(counters, name) {
                lemma_resolution_keeps_names(*body, inner);
            }
        },
        ExpressionView::Function { param, body } => {
            if let Ok((_, inner)) = stamp(counters, param) {
                lemma_resolution_keeps_names(*body, inner);
            }
        },
        ExpressionView::Op { op, lhs, rhs } => {
            lemma_resolution_keeps_names(*lhs, counters);
            lemma_resolution_keeps_names(*rhs, counters);
        },
        ExpressionView::Reference(name) => {},
        ExpressionView::Literal { value } => {},
        ExpressionView::Call { caller, arg } => {
            lemma_resolution_keeps_names(*caller, counters);
            lemma_resolution_keeps_names(*arg, counters);
        },
        ExpressionView::If { cond, then_, else_ } => {
            lemma_resolution_keeps_names(*cond, counters);
            lemma_resolution_keeps_names(*then_, counters);
            lemma_resolution_keeps_names(*else_, counters);
        },
    }
}

/// Resolving a prefix of a sequence gives as many items as it took, each
/// the same as its source but for the numbers.
pub proof fn lemma_resolve_prefix_keeps_names(
    items: Seq<ExpressionView>,
    n: nat,
    counters: Counters,
)
    requires
        n <= items.len(),
    ensures
        resolve_prefix(items, n, counters) matches Ok((done, _)) ==> {
            &&& done.len() == n
            &&& forall|i: int| 0 <= i < n ==> same_names(#[trigger] items[i], done[i])
        },
    decreases items, n,
{
    if n > 0 {
        lemma_resolve_prefix_keeps_names(items, (n - 1) as nat, counters);
        if let Ok((_, before)) = resolve_prefix(items, (n - 1) as nat, counters) {
            lemma_resolution_keeps_names(items[n - 1], before);
        }
    }
}

/// Resolution goes by the names alone: two trees that differ in the
/// numbers on their identifiers only resolve to the same result.
pub proof fn lemma_resolution_ignores_numbers(
    a: ExpressionView,
    b: ExpressionView,
    counters: Counters,
)
    requires
        same_names(a, b),
    ensures
        resolve_in(a, counters) == resolve_in(b, counters),
    decreases a, 0nat,
{
    match a {
        ExpressionView::Body { body } => {
            let other = b->Body_body;
            lemma_resolve_prefix_ignores_numbers(body, other, body.len(), counters);
        },
        ExpressionView::Name { name, body } => {
            let other = b->Name_body;
            if let Ok((_, inner)) = stamp(counters, name) {
                lemma_resolution_ignores_numbers(*body, *other, inner);
            }
        },
        ExpressionView::Function { param, body } => {
            let other = b->Function_body;
            if let Ok((_, inner)) = stamp(counters, param) {
                lemma_resolution_ignores_numbers(*body, *other, inner);
            }
        },
        ExpressionView::Op { op, lhs, rhs } => {
            lemma_resolution_ignores_numbers(*lhs, *b->Op_lhs, counters);
            lemma_resolution_ignores_numbers(*rhs, *b->Op_rhs, counters);
        },
        ExpressionView::Reference(name) => {},
        ExpressionView::Literal { value } => {},
        ExpressionView::Call { caller, arg } => {
            lemma_resolution_ignores_numbers(*caller, *b->Call_caller, counters);
            lemma_resolution_ignores_numbers(*arg, *b->Call_arg, counters);
        },
        ExpressionView::If { cond, then_, else_ } => {
            lemma_resolution_ignores_numbers(*cond, *b->If_cond, counters);
            lemma_resolution_ignores_numbers(*then_, *b->If_then_, counters);
            lemma_resolution_ignores_numbers(*else_, *b->If_else_, counters);
        },
    }
}

/// Resolving a prefix of a sequence goes by the names alone.
pub proof fn lemma_resolve_prefix_ignores_numbers(
    a: Seq<ExpressionView>,
    b: Seq<ExpressionView>,
    n: nat,
    counters: Counters,
)
    requires
        a.len() == b.len(),
        forall|i: int| 0 <= i < a.len() ==> same_names(#[trigger] a[i], b[i]),
    ensures
        resolve_prefix(a, n, counters) == resolve_prefix(b, n, counters),
    decreases a, n,
{
    if n == 0 || n > a.len() {
    } else {
        lemma_resolve_prefix_ignores_numbers(a, b, (n - 1) as nat, counters);
        if let Ok((_, before)) = resolve_prefix(a, (n - 1) as nat, counters) {
            lemma_resolution_ignores_numbers(a[n - 1], b[n - 1], before);
        }
    }
}

/// Resolving a resolved tree again changes nothing.
pub proof fn lemma_resolution_is_idempotent(expression: ExpressionView, counters: Counters)
    ensures
        resolve_in(expression, counters) matches Ok((tree, _)) ==> resolve_in(tree, counters)
            == resolve_in(expression, counters),
        resolved(expression) matches Ok(tree) ==> resolved(tree) == resolved(expression),
{
    lemma_resolution_keeps_names(expression, counters);
    if let Ok((tree, _)) = resolve_in(expression, counters) {
        lemma_resolution_ignores_numbers(expression, tree, counters);
    }
    lemma_resolution_keeps_names(expression, Map::empty());
    if let Ok((tree, _)) = resolve_in(expression, Map::empty()) {
        lemma_resolution_ignores_numbers(expression, tree, Map::empty());
    }
}

/// Generation goes by the names alone: two trees that differ in the
/// numbers on their identifiers only generate the same code.
pub proof fn lemma_generation_ignores_numbers(a: ExpressionView, b: ExpressionView, state: GenState)
    requires
        same_names(a, b),
    ensures
        generate_in(a, state) == generate_in(b, state),
        generate_nested(a, state) == generate_nested(b, state),
    decreases a, 0nat,
{
    let unnamed = state.with_requested_name(None);
    match a {
        ExpressionView::Body { body } => {
            let other = b->Body_body;
            if body.len() > 0 {
                lemma_generate_prefix_ignores_numbers(
                    body,
                    other,
                    (body.len() - 1) as nat,
                    unnamed,
                );
                if let Ok(before_last) = generate_prefix(body, (body.len() - 1) as nat, unnamed) {
                    lemma_generation_ignores_numbers(
                        body[body.len() - 1],
                        other[body.len() - 1],
                        before_last.with_requested_name(state.requested_name),
                    );
                }
            }
        },
        ExpressionView::Name { name, body } => {
            lemma_generation_ignores_numbers(
                *body,
                *b->Name_body,
                state.with_requested_name(Some(name.name)),
            );
        },
        ExpressionView::Function { param, body } => {
            if let Ok((name, _)) = crate::generate_code::fresh_name(unnamed, state.requested_name) {
                lemma_function_ignores_numbers(name, param.name, *body, *b->Function_body);
            }
        },
        ExpressionView::Op { op, lhs, rhs } => {
            lemma_generation_ignores_numbers(*lhs, *b->Op_lhs, unnamed);
            if let Ok((_, after)) = generate_nested(*lhs, unnamed) {
                lemma_generation_ignores_numbers(*rhs, *b->Op_rhs, after);
            }
        },
        ExpressionView::Reference(name) => {},
        ExpressionView::Literal { value } => {},
        ExpressionView::Call { caller, arg } => {
            lemma_generation_ignores_numbers(*arg, *b->Call_arg, unnamed);
            if let Ok((_, after)) = generate_nested(*arg, unnamed) {
                lemma_generation_ignores_numbers(*caller, *b->Call_caller, after);
            }
        },
        ExpressionView::If { cond, then_, else_ } => {
            lemma_generation_ignores_numbers(*cond, *b->If_cond, unnamed);
            if let Ok((cond_value, after_cond)) = generate_nested(*cond, unnamed) {
                if let Ok((else_label, in_then)) = split(after_cond, cond_value) {
                    lemma_generation_ignores_numbers(*then_, *b->If_then_, in_then);
                    if let Ok((_, after_then)) = generate_nested(*then_, in_then) {
                        if let Ok((_, _, in_else)) = switch_arm(after_then, else_label) {
                            lemma_generation_ignores_numbers(*else_, *b->If_else_, in_else);
                        }
                    }
                }
            }
        },
    }
}

/// Generating a prefix of a sequence goes by the names alone.
pub proof fn lemma_generate_prefix_ignores_numbers(
    a: Seq<ExpressionView>,
    b: Seq<ExpressionView>,
    n: nat,
    state: GenState,
)
    requires
        a.len() == b.len(),
        forall|i: int| 0 <= i < a.len() ==> same_names(#[trigger] a[i], b[i]),
    ensures
        generate_prefix(a, n, state) == generate_prefix(b, n, state),
    decreases a, n,
{
    if n == 0 || n > a.len() {
    } else {
        lemma_generate_prefix_ignores_numbers(a, b, (n - 1) as nat, state);
        if let Ok(before) = generate_prefix(a, (n - 1) as nat, state) {
            lemma_generation_ignores_numbers(a[n - 1], b[n - 1], before);
        }
    }
}

/// The functions of a function literal go by the names in its body alone.
pub proof fn lemma_function_ignores_numbers(
    name: NameView,
    param: Seq<char>,
    a: ExpressionView,
    b: ExpressionView,
)
    requires
        same_names(a, b),
    ensures
        function_of(name, param, a) == function_of(name, param, b),
    decreases a, 2nat,
{
    let start = initial_state().with_scope(
        Map::empty().insert(param, ValueView::Reference { name: NameView::Name(param) }),
    );
    lemma_generation_ignores_numbers(a, b, start);
}

/// Resolution is of no consequence to generation: a tree and its resolved
/// form become the same module.
pub proof fn lemma_resolved_tree_generates_the_same(expression: ExpressionView)
    ensures
        resolved(expression) matches Ok(tree) ==> module_of(tree) == module_of(expression),
{
    lemma_resolution_keeps_names(expression, Map::empty());
    if let Ok((tree, _)) = resolve_in(expression, Map::empty()) {
        lemma_function_ignores_numbers(NameView::Name("main"@), Seq::empty(), expression, tree);
    }
}

} // verus!
