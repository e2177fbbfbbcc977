use ssa_lower::resolve_names::{resolve_names, State};
use ssa_lower::{CompileError, Expression, Identifier};

fn raw(name: &str) -> Identifier {
    Identifier { name: name.to_string(), id: 0 }
}

fn stamped(name: &str, id: u32) -> Identifier {
    Identifier { name: name.to_string(), id }
}

fn lit(value: i32) -> Expression {
    Expression::Literal { value }
}

fn reference(name: &str) -> Expression {
    Expression::Reference(raw(name))
}

fn resolved_reference(name: &str, id: u32) -> Expression {
    Expression::Reference(stamped(name, id))
}

fn bind(name: Identifier, body: Expression) -> Expression {
    Expression::Name { name, body: Box::new(body) }
}

fn function(param: Identifier, body: Expression) -> Expression {
    Expression::Function { param, body: Box::new(body) }
}

fn op(op: &str, lhs: Expression, rhs: Expression) -> Expression {
    Expression::Op { op: op.to_string(), lhs: Box::new(lhs), rhs: Box::new(rhs) }
}

fn call(caller: Expression, arg: Expression) -> Expression {
    Expression::Call { caller: Box::new(caller), arg: Box::new(arg) }
}

fn cond(cond: Expression, then_: Expression, else_: Expression) -> Expression {
    Expression::If { cond: Box::new(cond), then_: Box::new(then_), else_: Box::new(else_) }
}

fn body(items: Vec<Expression>) -> Expression {
    Expression::Body { body: items }
}

#[test]
fn second_of_two_sequential_bindings_is_the_one_referred_to() {
    let tree = body(vec![bind(raw("x"), lit(1)), bind(raw("x"), lit(2)), reference("x")]);
    let expected = body(vec![
        bind(stamped("x", 0), lit(1)),
        bind(stamped("x", 1), lit(2)),
        resolved_reference("x", 1),
    ]);
    assert_eq!(resolve_names(tree), Ok(expected));
}

#[test]
fn single_binding_is_referred_to_by_its_own_number() {
    let tree = body(vec![bind(raw("x"), lit(1)), reference("x")]);
    let expected = body(vec![bind(stamped("x", 0), lit(1)), resolved_reference("x", 0)]);
    assert_eq!(resolve_names(tree), Ok(expected));
}

#[test]
fn binding_in_then_arm_is_not_seen_by_else_arm_or_after() {
    let tree = body(vec![
        bind(raw("x"), lit(0)),
        cond(lit(1), bind(raw("x"), reference("x")), reference("x")),
        reference("x"),
    ]);
    let expected = body(vec![
        bind(stamped("x", 0), lit(0)),
        cond(
            lit(1),
            bind(stamped("x", 1), resolved_reference("x", 1)),
            resolved_reference("x", 0),
        ),
        resolved_reference("x", 0),
    ]);
    assert_eq!(resolve_names(tree), Ok(expected));
}

#[test]
fn name_bound_only_in_then_arm_is_unbound_in_else_arm() {
    let tree = cond(lit(1), bind(raw("y"), lit(2)), reference("y"));
    assert_eq!(resolve_names(tree), Err(CompileError::UnresolvedReference("y".to_string())));
}

#[test]
fn name_bound_only_in_then_arm_is_unbound_after_the_conditional() {
    let tree = body(vec![cond(lit(1), bind(raw("y"), lit(2)), lit(3)), reference("y")]);
    assert_eq!(resolve_names(tree), Err(CompileError::UnresolvedReference("y".to_string())));
}

#[test]
fn unbound_reference_aborts_resolution() {
    assert_eq!(
        resolve_names(reference("z")),
        Err(CompileError::UnresolvedReference("z".to_string()))
    );
}

#[test]
fn literal_is_left_as_it_is() {
    assert_eq!(resolve_names(lit(7)), Ok(lit(7)));
}

#[test]
fn empty_body_resolves_to_itself() {
    assert_eq!(resolve_names(body(vec![])), Ok(body(vec![])));
}

#[test]
fn bindings_do_not_leave_their_body() {
    let tree = body(vec![body(vec![bind(raw("x"), lit(1)), reference("x")]), reference("x")]);
    assert_eq!(resolve_names(tree), Err(CompileError::UnresolvedReference("x".to_string())));
}

#[test]
fn binder_is_visible_in_its_own_body() {
    let tree = bind(raw("f"), reference("f"));
    let expected = bind(stamped("f", 0), resolved_reference("f", 0));
    assert_eq!(resolve_names(tree), Ok(expected));
}

#[test]
fn parameter_is_visible_in_the_function_body() {
    let tree = function(raw("p"), op("+", reference("p"), lit(1)));
    let expected = function(stamped("p", 0), op("+", resolved_reference("p", 0), lit(1)));
    assert_eq!(resolve_names(tree), Ok(expected));
}

#[test]
fn binding_inside_one_operand_is_not_seen_by_the_other() {
    let tree = op("+", bind(raw("a"), lit(1)), reference("a"));
    assert_eq!(resolve_names(tree), Err(CompileError::UnresolvedReference("a".to_string())));
}

#[test]
fn binding_inside_the_callee_is_not_seen_by_the_argument() {
    let tree = call(bind(raw("a"), lit(1)), reference("a"));
    assert_eq!(resolve_names(tree), Err(CompileError::UnresolvedReference("a".to_string())));
}

#[test]
fn shadowing_inside_a_binding_body_is_rolled_back() {
    let tree = body(vec![
        bind(raw("x"), lit(1)),
        bind(raw("y"), body(vec![bind(raw("x"), lit(2)), reference("x")])),
        reference("x"),
        bind(raw("x"), lit(3)),
    ]);
    let expected = body(vec![
        bind(stamped("x", 0), lit(1)),
        bind(
            stamped("y", 0),
            body(vec![bind(stamped("x", 1), lit(2)), resolved_reference("x", 1)]),
        ),
        resolved_reference("x", 0),
        bind(stamped("x", 1), lit(3)),
    ]);
    assert_eq!(resolve_names(tree), Ok(expected));
}

#[test]
fn incoming_numbers_are_overwritten() {
    let tree = body(vec![bind(stamped("x", 9), lit(1)), Expression::Reference(stamped("x", 7))]);
    let expected = body(vec![bind(stamped("x", 0), lit(1)), resolved_reference("x", 0)]);
    assert_eq!(resolve_names(tree), Ok(expected));
}

#[test]
fn first_failure_in_walking_order_is_reported() {
    let tree = call(reference("first"), reference("second"));
    assert_eq!(resolve_names(tree), Err(CompileError::UnresolvedReference("first".to_string())));
}

#[test]
fn state_keeps_the_advance_of_a_binder_and_drops_nested_ones() {
    let mut state = State::new();
    let first = state.update_identifier(raw("x"));
    assert_eq!(first, Ok(stamped("x", 0)));
    let nested = state.resolve_nested(bind(raw("x"), lit(1)));
    assert_eq!(nested, Ok(bind(stamped("x", 1), lit(1))));
    let again = state.resolve(bind(raw("x"), reference("x")));
    assert_eq!(again, Ok(bind(stamped("x", 1), resolved_reference("x", 1))));
    let after = state.resolve(reference("x"));
    assert_eq!(after, Ok(resolved_reference("x", 1)));
}
