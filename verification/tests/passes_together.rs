use ssa_lower::generate_code::generate_code;
use ssa_lower::resolve_names::resolve_names;
use ssa_lower::{Expression, Identifier};

fn raw(name: &str) -> Identifier {
    Identifier { name: name.to_string(), id: 0 }
}

fn boxed(expression: Expression) -> Box<Expression> {
    Box::new(expression)
}

fn sample() -> Expression {
    Expression::Body {
        body: vec![
            Expression::Name {
                name: raw("twice"),
                body: boxed(Expression::Function {
                    param: raw("n"),
                    body: boxed(Expression::Op {
                        op: "+".to_string(),
                        lhs: boxed(Expression::Reference(raw("n"))),
                        rhs: boxed(Expression::Reference(raw("n"))),
                    }),
                }),
            },
            Expression::Name { name: raw("x"), body: boxed(Expression::Literal { value: 4 }) },
            Expression::Name {
                name: raw("x"),
                body: boxed(Expression::If {
                    cond: boxed(Expression::Reference(raw("x"))),
                    then_: boxed(Expression::Call {
                        caller: boxed(Expression::Reference(raw("twice"))),
                        arg: boxed(Expression::Reference(raw("x"))),
                    }),
                    else_: boxed(Expression::Literal { value: 0 }),
                }),
            },
            Expression::Reference(raw("x")),
        ],
    }
}

#[test]
fn resolving_twice_is_resolving_once() {
    let once = resolve_names(sample()).unwrap();
    let twice = resolve_names(resolve_names(sample()).unwrap()).unwrap();
    assert_ne!(once, sample());
    assert_eq!(twice, once);
}

#[test]
fn resolved_tree_generates_the_same_module() {
    let resolved = resolve_names(sample()).unwrap();
    assert_eq!(generate_code(resolved), generate_code(sample()));
    assert!(generate_code(sample()).is_ok());
}

#[test]
fn sample_resolves_to_the_expected_numbers() {
    let stamped = |name: &str, id: u32| Identifier { name: name.to_string(), id };
    let expected = Expression::Body {
        body: vec![
            Expression::Name {
                name: stamped("twice", 0),
                body: boxed(Expression::Function {
                    param: stamped("n", 0),
                    body: boxed(Expression::Op {
                        op: "+".to_string(),
                        lhs: boxed(Expression::Reference(stamped("n", 0))),
                        rhs: boxed(Expression::Reference(stamped("n", 0))),
                    }),
                }),
            },
            Expression::Name {
                name: stamped("x", 0),
                body: boxed(Expression::Literal { value: 4 }),
            },
            Expression::Name {
                name: stamped("x", 1),
                body: boxed(Expression::If {
                    cond: boxed(Expression::Reference(stamped("x", 1))),
                    then_: boxed(Expression::Call {
                        caller: boxed(Expression::Reference(stamped("twice", 0))),
                        arg: boxed(Expression::Reference(stamped("x", 1))),
                    }),
                    else_: boxed(Expression::Literal { value: 0 }),
                }),
            },
            Expression::Reference(stamped("x", 1)),
        ],
    };
    assert_eq!(resolve_names(sample()), Ok(expected));
}
