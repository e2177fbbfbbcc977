//! What holds of name resolution on every tree.

use vstd::prelude::*;
use crate::error::CompileErrorView;
use crate::expression::{ExpressionView, IdentifierView};
use crate::resolve_names::{next_id, resolve_in, resolve_prefix, resolved, stamp, Counters};

verus! {

/// The tree `{ name = first; name = second; name }`: two bindings of one
/// name in sequence, then a reference to that name. The numbers that the
/// three identifiers come with are arbitrary.
pub open spec fn two_bindings_then_reference(
    name: Seq<char>,
    first: ExpressionView,
    second: ExpressionView,
    ids: (nat, nat, nat),
) -> ExpressionView {
    ExpressionView::Body {
        body: seq![
            ExpressionView::Name {
                name: IdentifierView { name, id: ids.0 },
                body: Box::new(first),
            },
            ExpressionView::Name {
                name: IdentifierView { name, id: ids.1 },
                body: Box::new(second),
            },
            ExpressionView::Reference(IdentifierView { name, id: ids.2 }),
        ],
    }
}

/// After two bindings of one name in sequence, a reference to that name
/// gets the number of the second binding, whatever the bound expressions
/// are: under any counters the two binders get consecutive numbers and the
/// reference gets the second of them; from nothing bound these are 0 and 1.
pub proof fn lemma_reference_sees_latest_binding(
    name: Seq<char>,
    first: ExpressionView,
    second: ExpressionView,
    ids: (nat, nat, nat),
    counters: Counters,
)
    ensures
        resolve_in(two_bindings_then_reference(name, first, second, ids), counters) matches Ok(
            (tree, _),
        ) ==> {
            &&& tree matches ExpressionView::Body { body }
            &&& body.len() == 3
            &&& body[0] matches ExpressionView::Name { name: binder, .. }
            &&& binder == (IdentifierView { name, id: next_id(counters, name) })
            &&& body[1] matches ExpressionView::Name { name: binder, .. }
            &&& binder == (IdentifierView { name, id: next_id(counters, name) + 1 })
            &&& body[2] == ExpressionView::Reference(
                IdentifierView { name, id: next_id(counters, name) + 1 },
            )
        },
        resolved(two_bindings_then_reference(name, first, second, ids)) matches Ok(tree) ==> {
            &&& tree matches ExpressionView::Body { body }
            &&& body.len() == 3
            &&& body[2] == ExpressionView::Reference(IdentifierView { name, id: 1 })
        },
{
    let tree = two_bindings_then_reference(name, first, second, ids);
    let items = tree->Body_body;
    lemma_reference_sees_latest_binding_in(name, first, second, ids, counters);
    lemma_reference_sees_latest_binding_in(name, first, second, ids, Map::empty());
}

proof fn lemma_reference_sees_latest_binding_in(
    name: Seq<char>,
    first: ExpressionView,
    second: ExpressionView,
    ids: (nat, nat, nat),
    counters: Counters,
)
    ensures
        resolve_in(two_bindings_then_reference(name, first, second, ids), counters) matches Ok(
            (tree, _),
        ) ==> {
            &&& tree matches ExpressionView::Body { body }
            &&& body.len() == 3
            &&& body[0] matches ExpressionView::Name { name: binder, .. }
            &&& binder == (IdentifierView { name, id: next_id(counters, name) })
            &&& body[1] matches ExpressionView::Name { name: binder, .. }
            &&& binder == (IdentifierView { name, id: next_id(counters, name) + 1 })
            &&& body[2] == ExpressionView::Reference(
                IdentifierView { name, id: next_id(counters, name) + 1 },
            )
        },
{
    let tree = two_bindings_then_reference(name, first, second, ids);
    let items = tree->Body_body;
    let id = next_id(counters, name);
    assert(items.len() == 3);
    if resolve_in(tree, counters) is Ok {
        let r0 = resolve_prefix(items, 0, counters);
        let r1 = resolve_prefix(items, 1, counters);
        let r2 = resolve_prefix(items, 2, counters);
        let r3 = resolve_prefix(items, 3, counters);
        assert(r3 is Ok);
        assert(r2 is Ok);
        assert(r1 is Ok);
        assert(r0 == Ok::<(Seq<ExpressionView>, Counters), CompileErrorView>(
            (Seq::empty(), counters),
        ));
        let after_first = counters.insert(name, id + 1);
        assert(resolve_in(items[0], counters) is Ok);
        assert(resolve_in(items[0], counters)->Ok_0.1 == after_first);
        assert(r1->Ok_0.1 == after_first);
        assert(r1->Ok_0.0.len() == 1);
        assert(next_id(after_first, name) == id + 1);
        let after_second = after_first.insert(name, id + 2);
        assert(resolve_in(items[1], after_first) is Ok);
        assert(resolve_in(items[1], after_first)->Ok_0.1 == after_second);
        assert(r2->Ok_0.1 == after_second);
        assert(r2->Ok_0.0.len() == 2);
        assert(r2->Ok_0.0[0] == r1->Ok_0.0[0]);
        assert(resolve_in(items[2], after_second) is Ok);
        assert(r3->Ok_0.0.len() == 3);
        assert(r3->Ok_0.0[0] == r2->Ok_0.0[0]);
        assert(r3->Ok_0.0[1] == r2->Ok_0.0[1]);
    }
}

/// What a conditional's first arm binds is seen neither by its second arm
/// nor by what follows the conditional: the second arm resolves exactly as
/// it does alone under the counters that the conditional started with, and
/// those are the counters that the conditional leaves.
pub proof fn lemma_arm_bindings_stay_in_their_arm(
    cond: ExpressionView,
    then_: ExpressionView,
    else_: ExpressionView,
    counters: Counters,
)
    ensures
        resolve_in(
            ExpressionView::If {
                cond: Box::new(cond),
                then_: Box::new(then_),
                else_: Box::new(else_),
            },
            counters,
        ) matches Ok((tree, after)) ==> {
            &&& after == counters
            &&& tree matches ExpressionView::If { else_: resolved_else, .. }
            &&& resolve_in(else_, counters) matches Ok((alone, _))
            &&& *resolved_else == alone
        },
{
}

/// The second arm of a conditional resolves to the same tree whatever
/// stands in the first arm.
pub proof fn lemma_second_arm_ignores_first_arm(
    cond: ExpressionView,
    then_a: ExpressionView,
    then_b: ExpressionView,
    else_: ExpressionView,
    counters: Counters,
)
    ensures
        ({
            let with_a = resolve_in(
                ExpressionView::If {
                    cond: Box::new(cond),
                    then_: Box::new(then_a),
                    else_: Box::new(else_),
                },
                counters,
            );
            let with_b = resolve_in(
                ExpressionView::If {
                    cond: Box::new(cond),
                    then_: Box::new(then_b),
                    else_: Box::new(else_),
                },
                counters,
            );
            with_a is Ok && with_b is Ok ==> with_a->Ok_0.0->If_else_ == with_b->Ok_0.0->If_else_
                && with_a->Ok_0.1 == with_b->Ok_0.1
        }),
{
}

/// The counters that an expression leaves to what follows it: those it
/// started with, but for the one advance of a binder at its root.
pub proof fn lemma_counters_after(expression: ExpressionView, counters: Counters)
    ensures
        resolve_in(expression, counters) matches Ok((_, after)) ==> after == (match expression {
            ExpressionView::Name { name, .. } => counters.insert(
                name.name,
                next_id(counters, name.name) + 1,
            ),
            ExpressionView::Function { param, .. } => counters.insert(
                param.name,
                next_id(counters, param.name) + 1,
            ),
            _ => counters,
        }),
{
}

/// A reference to a name that no enclosing binding makes visible aborts
/// resolution, and the failure carries that name. A reference that is the
/// whole tree has no enclosing binding.
pub proof fn lemma_unbound_reference_fails(name: IdentifierView, counters: Counters)
    ensures
        !counters.contains_key(name.name) ==> resolve_in(
            ExpressionView::Reference(name),
            counters,
        ) == Err::<(ExpressionView, Counters), CompileErrorView>(
            CompileErrorView::UnresolvedReference(name.name),
        ),
        resolved(ExpressionView::Reference(name)) == Err::<ExpressionView, CompileErrorView>(
            CompileErrorView::UnresolvedReference(name.name),
        ),
{
}

/// A reference to a bound name gets the number of the binder that was
/// stamped last for that name.
pub proof fn lemma_reference_matches_its_binder(
    binder: IdentifierView,
    reference: IdentifierView,
    counters: Counters,
)
    requires
        binder.name == reference.name,
    ensures
        stamp(counters, binder) matches Ok((stamped, inner)) ==> resolve_in(
            ExpressionView::Reference(reference),
            inner,
        ) == Ok::<(ExpressionView, Counters), CompileErrorView>(
            (ExpressionView::Reference(stamped), inner),
        ),
{
}

} // verus!
