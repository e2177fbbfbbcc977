//! The expression tree: the input of both passes.

use vstd::prelude::*;

verus! {

/// A name together with the number that tells apart shadowed bindings of it.
#[derive(Debug, PartialEq, Eq)]
pub struct Identifier {
    pub name: String,
    pub id: u32,
}

/// The mathematical value of an [`Identifier`].
pub ghost struct IdentifierView {
    pub name: Seq<char>,
    pub id: nat,
}

impl View for Identifier {
    type V = IdentifierView;

    open spec fn view(&self) -> IdentifierView {
        IdentifierView { name: self.name@, id: self.id as nat }
    }
}

impl Clone for Identifier {
    fn clone(&self) -> (copy: Self)
        ensures
            copy == *self,
    {
        Identifier { name: self.name.clone(), id: self.id }
    }
}

/// A node of the expression tree.
#[derive(Debug, PartialEq, Eq)]
#[allow(inconsistent_fields)]
pub enum Expression {
    /// A sequence of expressions; its value is that of the last one.
    Body { body: Vec<Expression> },
    /// Binds `name` to the value of `body`.
    Name { name: Identifier, body: Box<Expression> },
    /// A function literal of one parameter.
    Function { param: Identifier, body: Box<Expression> },
    /// A binary operation.
    Op { op: String, lhs: Box<Expression>, rhs: Box<Expression> },
    /// A use of a bound name.
    Reference(Identifier),
    /// An integer literal.
    Literal { value: i32 },
    /// An application of `caller` to `arg`.
    Call { caller: Box<Expression>, arg: Box<Expression> },
    /// A conditional.
    If { cond: Box<Expression>, then_: Box<Expression>, else_: Box<Expression> },
}

/// The mathematical value of an [`Expression`].
#[allow(inconsistent_fields)]
pub ghost enum ExpressionView {
    Body { body: Seq<ExpressionView> },
    Name { name: IdentifierView, body: Box<ExpressionView> },
    Function { param: IdentifierView, body: Box<ExpressionView> },
    Op { op: Seq<char>, lhs: Box<ExpressionView>, rhs: Box<ExpressionView> },
    Reference(IdentifierView),
    Literal { value: int },
    Call { caller: Box<ExpressionView>, arg: Box<ExpressionView> },
    If { cond: Box<ExpressionView>, then_: Box<ExpressionView>, else_: Box<ExpressionView> },
}

impl Expression {
    /// The tree that this expression stands for.
    pub open spec fn tree(&self) -> ExpressionView
        decreases self,
    {
        match self {
            Expression::Body { body } => ExpressionView::Body {
                body: Seq::new(
                    body.len() as nat,
                    |i: int|
                        if 0 <= i < body.len() {
                            body[i].tree()
                        } else {
                            arbitrary()
                        },
                ),
            },
            Expression::Name { name, body } => ExpressionView::Name {
                name: name@,
                body: Box::new(body.tree()),
            },
            Expression::Function { param, body } => ExpressionView::Function {
                param: param@,
                body: Box::new(body.tree()),
            },
            Expression::Op { op, lhs, rhs } => ExpressionView::Op {
                op: op@,
                lhs: Box::new(lhs.tree()),
                rhs: Box::new(rhs.tree()),
            },
            Expression::Reference(name) => ExpressionView::Reference(name@),
            Expression::Literal { value } => ExpressionView::Literal { value: *value as int },
            Expression::Call { caller, arg } => ExpressionView::Call {
                caller: Box::new(caller.tree()),
                arg: Box::new(arg.tree()),
            },
            Expression::If { cond, then_, else_ } => ExpressionView::If {
                cond: Box::new(cond.tree()),
                then_: Box::new(then_.tree()),
                else_: Box::new(else_.tree()),
            },
        }
    }
}

impl View for Expression {
    type V = ExpressionView;

    open spec fn view(&self) -> ExpressionView {
        self.tree()
    }
}

} // verus!
