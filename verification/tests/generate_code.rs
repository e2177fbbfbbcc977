use ssa_lower::generate_code::generate_code;
use ssa_lower::{
    Block, CompileError, Constant, Expression, Function, Identifier, Instruction, InstructionBase,
    Label, Module, Name, Terminator, Type, Value,
};

fn raw(name: &str) -> Identifier {
    Identifier { name: name.to_string(), id: 0 }
}

fn lit(value: i32) -> Expression {
    Expression::Literal { value }
}

fn reference(name: &str) -> Expression {
    Expression::Reference(raw(name))
}

fn bind(name: &str, body: Expression) -> Expression {
    Expression::Name { name: raw(name), body: Box::new(body) }
}

fn function(param: &str, body: Expression) -> Expression {
    Expression::Function { param: raw(param), body: Box::new(body) }
}

fn op(op: &str, lhs: Expression, rhs: Expression) -> Expression {
    Expression::Op { op: op.to_string(), lhs: Box::new(lhs), rhs: Box::new(rhs) }
}

fn call(caller: Expression, arg: Expression) -> Expression {
    Expression::Call { caller: Box::new(caller), arg: Box::new(arg) }
}

fn cond(cond: Expression, then_: Expression, else_: Expression) -> Expression {
    Expression::If { cond: Box::new(cond), then_: Box::new(then_), else_: Box::new(else_) }
}

fn body(items: Vec<Expression>) -> Expression {
    Expression::Body { body: items }
}

fn constant(value: i32) -> Value {
    Value::Constant(Constant::CInt(value))
}

fn named(name: &str) -> Name {
    Name::Name(name.to_string())
}

fn value_of(name: Name) -> Value {
    Value::Reference { name }
}

fn label(id: u32) -> Label {
    Label { id }
}

fn binary(name: Name, op: &str, lhs: Value, rhs: Value) -> Instruction {
    Instruction { name, instruction_base: InstructionBase::Binary { op: op.to_string(), lhs, rhs } }
}

fn apply(name: Name, caller: Value, arg: Value) -> Instruction {
    Instruction { name, instruction_base: InstructionBase::Call { caller, arg } }
}

fn phi(name: Name, then_: Value, then_label: u32, else_: Value, else_label: u32) -> Instruction {
    Instruction {
        name,
        instruction_base: InstructionBase::Phi {
            then_,
            then_label: label(then_label),
            else_,
            else_label: label(else_label),
        },
    }
}

fn block(id: u32, instructions: Vec<Instruction>, terminator: Terminator) -> Block {
    Block { label: label(id), instructions, terminator }
}

fn ret(value: Value) -> Terminator {
    Terminator::Ret { value }
}

fn br(id: u32) -> Terminator {
    Terminator::Br { label: label(id) }
}

fn cond_br(cond: Value, then_: u32, else_: u32) -> Terminator {
    Terminator::CondBr { cond, then_: label(then_), else_: label(else_) }
}

fn main_of(blocks: Vec<Block>) -> Function {
    Function {
        name: named("main"),
        ret_type: Type::TInt,
        param: named(""),
        param_type: Type::TVoid,
        blocks,
    }
}

fn module_of(functions: Vec<Function>) -> Module {
    Module { name: "module".to_string(), functions }
}

#[test]
fn literal_emits_no_instruction() {
    let expected = module_of(vec![main_of(vec![block(0, vec![], ret(constant(5)))])]);
    assert_eq!(generate_code(lit(5)), Ok(expected));
}

#[test]
fn name_of_a_literal_binds_the_constant_itself() {
    let tree = body(vec![bind("r", lit(5)), reference("r")]);
    let expected = module_of(vec![main_of(vec![block(0, vec![], ret(constant(5)))])]);
    assert_eq!(generate_code(tree), Ok(expected));
}

#[test]
fn name_of_a_literal_alone_has_the_value_of_the_literal() {
    let expected = module_of(vec![main_of(vec![block(0, vec![], ret(constant(5)))])]);
    assert_eq!(generate_code(bind("r", lit(5))), Ok(expected));
}

#[test]
fn bound_operation_takes_the_name_of_its_binder() {
    let tree = bind("r", op("+", lit(1), lit(2)));
    let expected = module_of(vec![main_of(vec![block(
        0,
        vec![binary(named("r"), "+", constant(1), constant(2))],
        ret(value_of(named("r"))),
    )])]);
    assert_eq!(generate_code(tree), Ok(expected));
}

#[test]
fn unbound_operation_takes_the_next_number() {
    let tree = op("+", op("*", lit(1), lit(2)), lit(3));
    let expected = module_of(vec![main_of(vec![block(
        0,
        vec![
            binary(Name::IName(0), "*", constant(1), constant(2)),
            binary(Name::IName(1), "+", value_of(Name::IName(0)), constant(3)),
        ],
        ret(value_of(Name::IName(1))),
    )])]);
    assert_eq!(generate_code(tree), Ok(expected));
}

#[test]
fn requested_name_goes_to_the_outermost_operation_only() {
    let tree = bind("r", op("+", op("*", lit(1), lit(2)), lit(3)));
    let expected = module_of(vec![main_of(vec![block(
        0,
        vec![
            binary(Name::IName(0), "*", constant(1), constant(2)),
            binary(named("r"), "+", value_of(Name::IName(0)), constant(3)),
        ],
        ret(value_of(named("r"))),
    )])]);
    assert_eq!(generate_code(tree), Ok(expected));
}

#[test]
fn phi_of_nested_conditional_names_the_block_the_arm_ended_in() {
    let tree = cond(lit(1), cond(lit(2), lit(3), lit(4)), lit(5));
    let expected = module_of(vec![main_of(vec![
        block(0, vec![], cond_br(constant(1), 1, 2)),
        block(1, vec![], cond_br(constant(2), 3, 4)),
        block(3, vec![], br(5)),
        block(4, vec![], br(5)),
        block(5, vec![phi(Name::IName(0), constant(3), 3, constant(4), 4)], br(6)),
        block(2, vec![], br(6)),
        block(
            6,
            vec![phi(Name::IName(1), value_of(Name::IName(0)), 5, constant(5), 2)],
            ret(value_of(Name::IName(1))),
        ),
    ])]);
    let module = generate_code(tree).unwrap();
    assert_eq!(module, expected);
    let outer = &module.functions[0].blocks[6].instructions[0];
    match &outer.instruction_base {
        InstructionBase::Phi { then_label, .. } => assert!(then_label.id > 1),
        _ => panic!("the join block does not start with a phi"),
    }
}

#[test]
fn phi_of_nested_conditional_in_else_arm() {
    let tree = cond(lit(1), lit(2), cond(lit(3), lit(4), lit(5)));
    let expected = module_of(vec![main_of(vec![
        block(0, vec![], cond_br(constant(1), 1, 2)),
        block(1, vec![], br(3)),
        block(2, vec![], cond_br(constant(3), 4, 5)),
        block(4, vec![], br(6)),
        block(5, vec![], br(6)),
        block(6, vec![phi(Name::IName(0), constant(4), 4, constant(5), 5)], br(3)),
        block(
            3,
            vec![phi(Name::IName(1), constant(2), 1, value_of(Name::IName(0)), 6)],
            ret(value_of(Name::IName(1))),
        ),
    ])]);
    assert_eq!(generate_code(tree), Ok(expected));
}

#[test]
fn simple_conditional_takes_the_requested_name_for_its_phi() {
    let tree = bind("c", cond(reference(""), lit(10), lit(20)));
    let expected = module_of(vec![main_of(vec![
        block(0, vec![], cond_br(value_of(named("")), 1, 2)),
        block(1, vec![], br(3)),
        block(2, vec![], br(3)),
        block(3, vec![phi(named("c"), constant(10), 1, constant(20), 2)], ret(value_of(named("c")))),
    ])]);
    assert_eq!(generate_code(tree), Ok(expected));
}

#[test]
fn argument_is_generated_before_callee() {
    let tree = call(op("*", lit(1), lit(2)), op("+", lit(3), lit(4)));
    let expected = module_of(vec![main_of(vec![block(
        0,
        vec![
            binary(Name::IName(0), "+", constant(3), constant(4)),
            binary(Name::IName(1), "*", constant(1), constant(2)),
            apply(Name::IName(2), value_of(Name::IName(1)), value_of(Name::IName(0))),
        ],
        ret(value_of(Name::IName(2))),
    )])]);
    assert_eq!(generate_code(tree), Ok(expected));
}

#[test]
fn argument_binding_takes_its_numbers_before_callee_binding() {
    let callee = bind("f", body(vec![op("*", lit(1), lit(2)), op("-", lit(3), lit(4))]));
    let arg = bind("x", body(vec![op("+", lit(5), lit(6)), op("/", lit(7), lit(8))]));
    let expected = module_of(vec![main_of(vec![block(
        0,
        vec![
            binary(Name::IName(0), "+", constant(5), constant(6)),
            binary(named("x"), "/", constant(7), constant(8)),
            binary(Name::IName(1), "*", constant(1), constant(2)),
            binary(named("f"), "-", constant(3), constant(4)),
            apply(Name::IName(2), value_of(named("f")), value_of(named("x"))),
        ],
        ret(value_of(Name::IName(2))),
    )])]);
    assert_eq!(generate_code(call(callee, arg)), Ok(expected));
}

#[test]
fn unbound_reference_aborts_generation() {
    assert_eq!(
        generate_code(reference("z")),
        Err(CompileError::UnresolvedReference("z".to_string()))
    );
}

#[test]
fn empty_body_aborts_generation() {
    assert_eq!(generate_code(body(vec![])), Err(CompileError::EmptyBody));
}

#[test]
fn empty_body_inside_an_operand_aborts_generation() {
    let tree = op("+", lit(1), body(vec![]));
    assert_eq!(generate_code(tree), Err(CompileError::EmptyBody));
}

#[test]
fn failure_in_the_argument_comes_before_failure_in_the_callee() {
    let tree = call(reference("callee"), reference("argument"));
    assert_eq!(
        generate_code(tree),
        Err(CompileError::UnresolvedReference("argument".to_string()))
    );
}

#[test]
fn empty_name_is_bound_to_the_parameter_of_main() {
    let expected = module_of(vec![main_of(vec![block(0, vec![], ret(value_of(named(""))))])]);
    assert_eq!(generate_code(reference("")), Ok(expected));
}

#[test]
fn generated_bindings_do_not_leave_their_body() {
    let tree = body(vec![body(vec![bind("x", lit(1)), reference("x")]), reference("x")]);
    assert_eq!(generate_code(tree), Err(CompileError::UnresolvedReference("x".to_string())));
}

#[test]
fn binding_is_visible_to_what_follows_in_the_body() {
    let tree = body(vec![bind("a", lit(1)), bind("b", op("+", reference("a"), lit(2))), reference("b")]);
    let expected = module_of(vec![main_of(vec![block(
        0,
        vec![binary(named("b"), "+", constant(1), constant(2))],
        ret(value_of(named("b"))),
    )])]);
    assert_eq!(generate_code(tree), Ok(expected));
}

#[test]
fn generated_binding_inside_one_operand_is_not_seen_by_the_other() {
    let tree = op("+", bind("a", lit(1)), reference("a"));
    assert_eq!(generate_code(tree), Err(CompileError::UnresolvedReference("a".to_string())));
}

#[test]
fn generated_binding_in_then_arm_is_not_seen_by_else_arm() {
    let tree = cond(lit(1), bind("a", lit(2)), reference("a"));
    assert_eq!(generate_code(tree), Err(CompileError::UnresolvedReference("a".to_string())));
}

#[test]
fn values_of_all_but_the_last_element_of_a_body_are_dropped() {
    let tree = bind("r", body(vec![op("+", lit(1), lit(2)), op("*", lit(3), lit(4))]));
    let expected = module_of(vec![main_of(vec![block(
        0,
        vec![
            binary(Name::IName(0), "+", constant(1), constant(2)),
            binary(named("r"), "*", constant(3), constant(4)),
        ],
        ret(value_of(named("r"))),
    )])]);
    assert_eq!(generate_code(tree), Ok(expected));
}

#[test]
fn inner_binder_name_wins_over_outer() {
    let tree = body(vec![bind("a", bind("b", op("+", lit(1), lit(2)))), reference("a")]);
    let expected = module_of(vec![main_of(vec![block(
        0,
        vec![binary(named("b"), "+", constant(1), constant(2))],
        ret(value_of(named("b"))),
    )])]);
    assert_eq!(generate_code(tree), Ok(expected));
}

#[test]
fn function_literal_becomes_a_function_before_main() {
    let tree = bind("inc", function("n", op("+", reference("n"), lit(1))));
    let inc = Function {
        name: named("inc"),
        ret_type: Type::TInt,
        param: named("n"),
        param_type: Type::TInt,
        blocks: vec![block(
            0,
            vec![binary(Name::IName(0), "+", value_of(named("n")), constant(1))],
            ret(value_of(Name::IName(0))),
        )],
    };
    let expected =
        module_of(vec![inc, main_of(vec![block(0, vec![], ret(value_of(named("inc"))))])]);
    assert_eq!(generate_code(tree), Ok(expected));
}

#[test]
fn unnamed_function_literal_takes_the_next_number() {
    let tree = call(function("", lit(1)), lit(2));
    let anonymous = Function {
        name: Name::IName(0),
        ret_type: Type::TInt,
        param: named(""),
        param_type: Type::TVoid,
        blocks: vec![block(0, vec![], ret(constant(1)))],
    };
    let expected = module_of(vec![
        anonymous,
        main_of(vec![block(
            0,
            vec![apply(Name::IName(1), value_of(Name::IName(0)), constant(2))],
            ret(value_of(Name::IName(1))),
        )]),
    ]);
    assert_eq!(generate_code(tree), Ok(expected));
}

#[test]
fn function_body_does_not_see_the_names_around_it() {
    let tree = body(vec![bind("a", lit(1)), function("n", reference("a"))]);
    assert_eq!(generate_code(tree), Err(CompileError::UnresolvedReference("a".to_string())));
}

#[test]
fn nested_function_literals_come_innermost_first() {
    let tree = bind("outer", function("a", bind("inner", function("b", reference("b")))));
    let inner = Function {
        name: named("inner"),
        ret_type: Type::TInt,
        param: named("b"),
        param_type: Type::TInt,
        blocks: vec![block(0, vec![], ret(value_of(named("b"))))],
    };
    let outer = Function {
        name: named("outer"),
        ret_type: Type::TInt,
        param: named("a"),
        param_type: Type::TInt,
        blocks: vec![block(0, vec![], ret(value_of(named("inner"))))],
    };
    let expected = module_of(vec![
        inner,
        outer,
        main_of(vec![block(0, vec![], ret(value_of(named("outer"))))]),
    ]);
    assert_eq!(generate_code(tree), Ok(expected));
}

#[test]
fn disambiguator_is_ignored_by_generation() {
    let tree = body(vec![
        Expression::Name {
            name: Identifier { name: "x".to_string(), id: 3 },
            body: Box::new(lit(1)),
        },
        Expression::Reference(Identifier { name: "x".to_string(), id: 8 }),
    ]);
    let expected = module_of(vec![main_of(vec![block(0, vec![], ret(constant(1)))])]);
    assert_eq!(generate_code(tree), Ok(expected));
}

fn targets(terminator: &Terminator) -> Vec<u32> {
    match terminator {
        Terminator::Ret { .. } => vec![],
        Terminator::CondBr { then_, else_, .. } => vec![then_.id, else_.id],
        Terminator::Br { label } => vec![label.id],
    }
}

fn is_well_formed(function: &Function) -> bool {
    let labels: Vec<u32> = function.blocks.iter().map(|block| block.label.id).collect();
    let distinct = (0..labels.len()).all(|i| (0..i).all(|j| labels[i] != labels[j]));
    let closed = function
        .blocks
        .iter()
        .all(|block| targets(&block.terminator).iter().all(|target| labels.contains(target)));
    let returns: Vec<bool> = function
        .blocks
        .iter()
        .map(|block| matches!(block.terminator, Terminator::Ret { .. }))
        .collect();
    let last_only = returns.last() == Some(&true) && returns.iter().filter(|r| **r).count() == 1;
    let phis_name_blocks = function.blocks.iter().all(|block| {
        block.instructions.iter().all(|instruction| match &instruction.instruction_base {
            InstructionBase::Phi { then_label, else_label, .. } => {
                let from = |label: &Label| {
                    function.blocks.iter().any(|b| {
                        b.label == *label && targets(&b.terminator) == vec![block.label.id]
                    })
                };
                from(then_label) && from(else_label)
            }
            _ => true,
        })
    });
    let numbers: Vec<u32> = function
        .blocks
        .iter()
        .flat_map(|block| block.instructions.iter())
        .filter_map(|instruction| match instruction.name {
            Name::IName(number) => Some(number),
            Name::Name(_) => None,
        })
        .collect();
    let defined_once = (0..numbers.len()).all(|i| (0..i).all(|j| numbers[i] != numbers[j]));
    let entered_from_earlier = (1..function.blocks.len()).all(|i| {
        (0..i).any(|j| targets(&function.blocks[j].terminator).contains(&labels[i]))
    });
    labels.first() == Some(&0)
        && entered_from_earlier
        && distinct
        && closed
        && last_only
        && phis_name_blocks
        && defined_once
}

#[test]
fn generated_functions_are_well_formed_graphs() {
    let tree = body(vec![
        bind("f", function("n", cond(reference("n"), cond(lit(1), lit(2), lit(3)), lit(4)))),
        bind(
            "r",
            cond(
                cond(lit(1), lit(2), lit(3)),
                call(reference("f"), cond(lit(4), op("+", lit(5), lit(6)), lit(7))),
                cond(lit(8), cond(lit(9), lit(10), lit(11)), lit(12)),
            ),
        ),
        op("*", reference("r"), cond(lit(13), lit(14), lit(15))),
    ]);
    let module = generate_code(tree).unwrap();
    assert_eq!(module.name, "module");
    assert_eq!(module.functions.len(), 2);
    assert_eq!(module.functions[0].name, named("f"));
    assert_eq!(module.functions[1].name, named("main"));
    assert_eq!(module.functions[0].blocks.len(), 7);
    assert_eq!(module.functions[1].blocks.len(), 19);
    for function in &module.functions {
        assert!(is_well_formed(function));
    }
}

#[test]
fn labels_start_again_in_every_function() {
    let tree = body(vec![
        cond(lit(1), lit(2), lit(3)),
        function("p", cond(reference("p"), lit(4), lit(5))),
    ]);
    let module = generate_code(tree).unwrap();
    let inner: Vec<u32> = module.functions[0].blocks.iter().map(|b| b.label.id).collect();
    let outer: Vec<u32> = module.functions[1].blocks.iter().map(|b| b.label.id).collect();
    assert_eq!(inner, vec![0, 1, 2, 3]);
    assert_eq!(outer, vec![0, 1, 2, 3]);
    assert_eq!(module.functions[0].name, Name::IName(1));
}
