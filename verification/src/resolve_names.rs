//! Name resolution: every binder and every reference gets the number that
//! tells its binding apart from the bindings of the same name that it shadows.
//!
//! The pass keeps, for each name, the number that the next binder of that
//! name will get. A binder takes that number and advances it; a reference
//! takes the number of the binder before it, which is the binding it sees.
//! What a subtree binds is forgotten when the subtree is left, but for the
//! advance made by a `Name` or `Function` node itself, which the nodes after
//! it in the same `Body` still see.

use vstd::prelude::*;
use crate::error::{CompileError, CompileErrorView, COUNTER_MAX};
use crate::expression::{Expression, ExpressionView, Identifier, IdentifierView};
use crate::scope::Scope;

verus! {

/// For each name that has been bound, the number that its next binder gets.
pub type Counters = Map<Seq<char>, nat>;

/// The number that a binder of `name` gets under `counters`.
pub open spec fn next_id(counters: Counters, name: Seq<char>) -> nat {
    if counters.contains_key(name) {
        counters[name]
    } else {
        0
    }
}

/// Stamps a binder: it gets the next number of its name, and the counter of
/// that name advances by one. Fails when the advanced counter would not fit
/// in a `u32`.
pub open spec fn stamp(counters: Counters, binder: IdentifierView) -> Result<
    (IdentifierView, Counters),
    CompileErrorView,
> {
    let id = next_id(counters, binder.name);
    if id >= COUNTER_MAX {
        Err(CompileErrorView::CounterOverflow)
    } else {
        Ok((IdentifierView { name: binder.name, id }, counters.insert(binder.name, id + 1)))
    }
}

/// Resolves `expression` under `counters`. On success, gives the resolved
/// tree and the counters that the expressions after this one see.
pub open spec fn resolve_in(expression: ExpressionView, counters: Counters) -> Result<
    (ExpressionView, Counters),
    CompileErrorView,
>
    decreases expression, 0nat,
{
    match expression {
        ExpressionView::Body { body } => match resolve_prefix(body, body.len(), counters) {
            Ok((items, _)) => Ok((ExpressionView::Body { body: items }, counters)),
            Err(error) => Err(error),
        },
        ExpressionView::Name { name, body } => match stamp(counters, name) {
            Ok((name, inner)) => match resolve_in(*body, inner) {
                Ok((body, _)) => Ok((ExpressionView::Name { name, body: Box::new(body) }, inner)),
                Err(error) => Err(error),
            },
            Err(error) => Err(error),
        },
        ExpressionView::Function { param, body } => match stamp(counters, param) {
            Ok((param, inner)) => match resolve_in(*body, inner) {
                Ok((body, _)) => Ok(
                    (ExpressionView::Function { param, body: Box::new(body) }, inner),
                ),
                Err(error) => Err(error),
            },
            Err(error) => Err(error),
        },
        ExpressionView::Op { op, lhs, rhs } => match resolve_in(*lhs, counters) {
            Ok((lhs, _)) => match resolve_in(*rhs, counters) {
                Ok((rhs, _)) => Ok(
                    (ExpressionView::Op { op, lhs: Box::new(lhs), rhs: Box::new(rhs) }, counters),
                ),
                Err(error) => Err(error),
            },
            Err(error) => Err(error),
        },
        ExpressionView::Reference(name) => if counters.contains_key(name.name) {
            Ok(
                (
                    ExpressionView::Reference(
                        IdentifierView { name: name.name, id: (counters[name.name] - 1) as nat },
                    ),
                    counters,
                ),
            )
        } else {
            Err(CompileErrorView::UnresolvedReference(name.name))
        },
        ExpressionView::Literal { value } => Ok((ExpressionView::Literal { value }, counters)),
        ExpressionView::Call { caller, arg } => match resolve_in(*caller, counters) {
            Ok((caller, _)) => match resolve_in(*arg, counters) {
                Ok((arg, _)) => Ok(
                    (
                        ExpressionView::Call { caller: Box::new(caller), arg: Box::new(arg) },
                        counters,
                    ),
                ),
                Err(error) => Err(error),
            },
            Err(error) => Err(error),
        },
        ExpressionView::If { cond, then_, else_ } => match resolve_in(*cond, counters) {
            Ok((cond, _)) => match resolve_in(*then_, counters) {
                Ok((then_, _)) => match resolve_in(*else_, counters) {
                    Ok((else_, _)) => Ok(
                        (
                            ExpressionView::If {
                                cond: Box::new(cond),
                                then_: Box::new(then_),
                                else_: Box::new(else_),
                            },
                            counters,
                        ),
                    ),
                    Err(error) => Err(error),
                },
                Err(error) => Err(error),
            },
            Err(error) => Err(error),
        },
    }
}

/// Resolves the first `n` of `items` from left to right, each under the
/// counters that the one before it left. On success, gives the resolved
/// items and the counters after the last of them.
pub open spec fn resolve_prefix(items: Seq<ExpressionView>, n: nat, counters: Counters) -> Result<
    (Seq<ExpressionView>, Counters),
    CompileErrorView,
>
    decreases items, n,
{
    if n == 0 || n > items.len() {
        Ok((Seq::empty(), counters))
    } else {
        match resolve_prefix(items, (n - 1) as nat, counters) {
            Ok((done, counters)) => match resolve_in(items[n - 1], counters) {
                Ok((item, counters)) => Ok((done.push(item), counters)),
                Err(error) => Err(error),
            },
            Err(error) => Err(error),
        }
    }
}

/// The result of name resolution on `expression`: the resolved tree, or the
/// first failure met when walking the tree in order.
pub open spec fn resolved(expression: ExpressionView) -> Result<ExpressionView, CompileErrorView> {
    match resolve_in(expression, Map::empty()) {
        Ok((tree, _)) => Ok(tree),
        Err(error) => Err(error),
    }
}

/// Once a prefix of `items` fails, every longer prefix fails in the same way.
pub proof fn lemma_resolve_prefix_fails(
    items: Seq<ExpressionView>,
    n: nat,
    m: nat,
    counters: Counters,
)
    requires
        n <= m <= items.len(),
        resolve_prefix(items, n, counters) is Err,
    ensures
        resolve_prefix(items, m, counters) == resolve_prefix(items, n, counters),
    decreases m,
{
    if n < m {
        lemma_resolve_prefix_fails(items, n, (m - 1) as nat, counters);
    }
}

/// The state of the pass: the counters, kept as a stack so that leaving a
/// subtree can drop what the subtree bound.
pub struct State {
    scope: Scope<u32>,
}

impl View for State {
    type V = Counters;

    closed spec fn view(&self) -> Counters {
        self.scope@.map_values(|id: u32| id as nat)
    }
}

impl State {
    /// Every counter that is present has been advanced at least once.
    pub closed spec fn wf(&self) -> bool {
        forall|name: Seq<char>| #[trigger]
            self.scope@.contains_key(name) ==> self.scope@[name] >= 1
    }

    /// `self` is `base` with zero or more advances on top of its stack.
    pub closed spec fn extends(&self, base: Self) -> bool {
        &&& base.scope.spec_depth() <= self.scope.spec_depth()
        &&& forall|depth: nat|
            depth <= base.scope.spec_depth() ==> #[trigger] self.scope.prefix(depth)
                == base.scope.prefix(depth)
    }

    /// The state before anything is bound.
    pub fn new() -> (state: Self)
        ensures
            state.wf(),
            state@ == Counters::empty(),
    {
        let state = State { scope: Scope::new() };
        assert(state@ =~= Counters::empty());
        state
    }

    /// Stamps a binder and advances the counter of its name.
    pub fn update_identifier(&mut self, identifier: Identifier) -> (result: Result<
        Identifier,
        CompileError,
    >)
        requires
            old(self).wf(),
        ensures
            final(self).wf(),
            match stamp(old(self)@, identifier@) {
                Ok((stamped, counters)) => {
                    &&& result matches Ok(out)
                    &&& out@ == stamped
                    &&& final(self)@ == counters
                    &&& final(self).extends(*old(self))
                },
                Err(error) => {
                    &&& result matches Err(out)
                    &&& out@ == error
                    &&& final(self)@ == old(self)@
                },
            },
    {
        let Identifier { name, id: _ } = identifier;
        let id: u32 = match self.scope.lookup(&name) {
            Some(next) => *next,
            None => 0,
        };
        if id == COUNTER_MAX {
            return Err(CompileError::CounterOverflow);
        }
        self.scope.bind(name.clone(), id + 1);
        assert(self@ =~= old(self)@.insert(name@, (id + 1) as nat));
        Ok(Identifier { name, id })
    }

    /// Resolves `expression`, advancing the counters as its binders ask.
    pub fn resolve(&mut self, expression: Expression) -> (result: Result<Expression, CompileError>)
        requires
            old(self).wf(),
        ensures
            final(self).wf(),
            match resolve_in(expression@, old(self)@) {
                Ok((tree, counters)) => {
                    &&& result matches Ok(out)
                    &&& out@ == tree
                    &&& final(self)@ == counters
                    &&& final(self).extends(*old(self))
                },
                Err(error) => result matches Err(out) && out@ == error,
            },
        decreases expression, 0nat,
    {
        match expression {
            Expression::Body { body } => {
                let ghost entry = *self;
                let mark = self.scope.depth();
                let ghost sources = body@;
                let ghost items = expression@->Body_body;
                assert(items.len() == sources.len());
                assert forall|j: int| 0 <= j < sources.len() implies (#[trigger] sources[j])@
                    == items[j] && decreases_to!(expression => sources[j]) by {
                    assert(sources[j] == body[j]);
                }
                let mut out: Vec<Expression> = Vec::new();
                assert(out@.map_values(|e: Expression| e@) =~= Seq::empty());
                for item in it: body
                    invariant
                        it.seq() == sources,
                        items.len() == sources.len(),
                        forall|j: int|
                            0 <= j < sources.len() ==> (#[trigger] sources[j])@ == items[j]
                                && decreases_to!(expression => sources[j]),
                        expression@ == (ExpressionView::Body { body: items }),
                        entry == *old(self),
                        entry.wf(),
                        self.wf(),
                        self.extends(entry),
                        resolve_prefix(items, it.index() as nat, entry@) == Ok::<
                            (Seq<ExpressionView>, Counters),
                            CompileErrorView,
                        >((out@.map_values(|e: Expression| e@), self@)),
                {
                    let ghost done = out@.map_values(|e: Expression| e@);
                    let ghost index = it.index();
                    assert(item == sources[index]);
                    match self.resolve(item) {
                        Ok(resolved) => {
                            out.push(resolved);
                            assert(out@.map_values(|e: Expression| e@) =~= done.push(resolved@));
                        },
                        Err(error) => {
                            proof {
                                assert(resolve_prefix(items, (index + 1) as nat, entry@) is Err);
                                lemma_resolve_prefix_fails(
                                    items,
                                    (index + 1) as nat,
                                    items.len(),
                                    entry@,
                                );
                            }
                            return Err(error);
                        },
                    }
                }
                self.scope.rewind(mark);
                let result = Expression::Body { body: out };
                assert(result@->Body_body =~= out@.map_values(|e: Expression| e@));
                Ok(result)
            },
            Expression::Name { name, body } => {
                let name = self.update_identifier(name)?;
                let body = self.resolve_nested(*body)?;
                Ok(Expression::Name { name, body: Box::new(body) })
            },
            Expression::Function { param, body } => {
                let param = self.update_identifier(param)?;
                let body = self.resolve_nested(*body)?;
                Ok(Expression::Function { param, body: Box::new(body) })
            },
            Expression::Op { op, lhs, rhs } => {
                let lhs = self.resolve_nested(*lhs)?;
                let rhs = self.resolve_nested(*rhs)?;
                Ok(Expression::Op { op, lhs: Box::new(lhs), rhs: Box::new(rhs) })
            },
            Expression::Reference(Identifier { name, id: _ }) => {
                let id: u32 = match self.scope.lookup(&name) {
                    Some(next) => *next - 1,
                    None => {
                        return Err(CompileError::UnresolvedReference(name));
                    },
                };
                Ok(Expression::Reference(Identifier { name, id }))
            },
            Expression::Literal { value } => Ok(Expression::Literal { value }),
            Expression::Call { caller, arg } => {
                let caller = self.resolve_nested(*caller)?;
                let arg = self.resolve_nested(*arg)?;
                Ok(Expression::Call { caller: Box::new(caller), arg: Box::new(arg) })
            },
            Expression::If { cond, then_, else_ } => {
                let cond = self.resolve_nested(*cond)?;
                let then_ = self.resolve_nested(*then_)?;
                let else_ = self.resolve_nested(*else_)?;
                Ok(
                    Expression::If {
                        cond: Box::new(cond),
                        then_: Box::new(then_),
                        else_: Box::new(else_),
                    },
                )
            },
        }
    }

    /// Resolves `expression` as a nested scope: what it binds is dropped
    /// again, so the counters end as they began.
    pub fn resolve_nested(&mut self, expression: Expression) -> (result: Result<
        Expression,
        CompileError,
    >)
        requires
            old(self).wf(),
        ensures
            final(self).wf(),
            match resolve_in(expression@, old(self)@) {
                Ok((tree, _)) => {
                    &&& result matches Ok(out)
                    &&& out@ == tree
                    &&& final(self)@ == old(self)@
                    &&& final(self).extends(*old(self))
                },
                Err(error) => result matches Err(out) && out@ == error,
            },
        decreases expression, 1nat,
    {
        let mark = self.scope.depth();
        let resolved = self.resolve(expression)?;
        self.scope.rewind(mark);
        Ok(resolved)
    }
}

/// Resolves the names of `expression`, starting with nothing bound.
///
/// Gives the tree with every binder and reference stamped, or the first
/// failure met: a reference to a name that is not bound where it stands, or a
/// counter that left the range of `u32`.
pub fn resolve_names(expression: Expression) -> (result: Result<Expression, CompileError>)
    ensures
        match resolved(expression@) {
            Ok(tree) => result matches Ok(out) && out@ == tree,
            Err(error) => result matches Err(out) && out@ == error,
        },
{
    let mut state = State::new();
    state.resolve(expression)
}

} // verus!
