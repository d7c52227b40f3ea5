use constant_resolution::ast::{Access, Expression, Meta, Statement, VariableType};
use constant_resolution::bignum::BigNum;
use constant_resolution::dimension::{dimension_from_answer, rewrite_dimension};
use constant_resolution::elimination::{rm_component_ci, rm_statement, should_be_removed};
use constant_resolution::literal::is_constant_expression;
use constant_resolution::program::{
    Argument, ConstantInterpreter, Environment, FunctionData, TemplateInstance, VCP,
};
use constant_resolution::propagation::{
    compute_vct, declared_dimensions, manage_functions, transform_header_into_environment,
};
use constant_resolution::report::{Report, ReportCode};
use constant_resolution::table::{ConstantTable, UsedNames};

struct Fixed(usize);

impl ConstantInterpreter for Fixed {
    fn execute_constant_expression(&self, _e: &Expression, _env: &Environment) -> Result<BigNum, Vec<Report>> {
        Ok(BigNum::from_usize(self.0))
    }
}

struct Failing;

impl ConstantInterpreter for Failing {
    fn execute_constant_expression(&self, e: &Expression, _env: &Environment) -> Result<BigNum, Vec<Report>> {
        let location = match e {
            Expression::Variable { meta, .. } => *meta,
            _ => meta(0),
        };
        Err(vec![Report { code: ReportCode::Execution(7), location }])
    }
}

fn meta(line: usize) -> Meta {
    Meta { start: line, end: line, file_id: 0, is_component: false, is_tag: false }
}

fn num(v: usize) -> Expression {
    Expression::Number(meta(0), BigNum::from_usize(v))
}

fn var(name: &str) -> Expression {
    Expression::Variable { meta: meta(0), name: name.to_string() }
}

fn decl(xtype: VariableType, name: &str, dimensions: Vec<Expression>) -> Statement {
    Statement::Declaration {
        meta: meta(1),
        xtype,
        name: name.to_string(),
        dimensions,
        concrete_dimensions: vec![],
    }
}

fn subst(name: &str, access: Vec<Access>, rhe: Expression, is_initialization: bool) -> Statement {
    Statement::Substitution { meta: meta(2), var: name.to_string(), access, rhe, is_initialization }
}

fn block(stmts: Vec<Statement>) -> Statement {
    Statement::Block { meta: meta(0), stmts }
}

fn values(table: &ConstantTable, name: &str) -> Option<(Vec<usize>, Vec<BigNum>)> {
    table.get(&name.to_string()).map(|e| (e.dimensions.clone(), e.values.clone()))
}

fn ints(v: &[BigNum]) -> Vec<usize> {
    v.iter().map(|b| b.to_usize().unwrap()).collect()
}

fn template(code: Statement) -> Vec<TemplateInstance> {
    vec![TemplateInstance {
        template_name: "T".to_string(),
        header: vec![],
        code,
        constant_variables: ConstantTable::new(),
    }]
}

fn function(body: Statement) -> Vec<FunctionData> {
    vec![FunctionData { name: "f".to_string(), body, constant_variables: ConstantTable::new() }]
}

#[test]
fn literal_array_initialization_is_tracked_and_removed() {
    let code = block(vec![Statement::InitializationBlock {
        meta: meta(1),
        xtype: VariableType::Var,
        initializations: vec![
            decl(VariableType::Var, "x", vec![num(2)]),
            subst("x", vec![], Expression::ArrayInLine { meta: meta(0), values: vec![num(3), num(4)] }, true),
        ],
    }]);
    let mut instances = template(code);
    assert!(compute_vct(&mut instances, &Fixed(0)).is_ok());
    let (dims, vals) = values(&instances[0].constant_variables, "x").unwrap();
    assert_eq!(dims, vec![2]);
    assert_eq!(ints(&vals), vec![3, 4]);
    let mut vcp = VCP { templates: instances, functions: vec![] };
    rm_component_ci(&mut vcp);
    match &vcp.templates[0].code {
        Statement::Block { stmts, .. } => match &stmts[0] {
            Statement::InitializationBlock { initializations, .. } => {
                assert_eq!(initializations.len(), 1);
                assert!(matches!(initializations[0], Statement::Declaration { .. }));
            }
            other => panic!("unexpected {:?}", other),
        },
        other => panic!("unexpected {:?}", other),
    }
}

#[test]
fn non_literal_assignment_evicts_and_is_kept() {
    let call = Expression::Call { meta: meta(0), id: "f".to_string(), args: vec![] };
    let code = block(vec![
        decl(VariableType::Var, "y", vec![]),
        subst("y", vec![], num(1), true),
        subst("y", vec![], call, false),
    ]);
    let mut functions = function(code);
    assert!(manage_functions(&mut functions, &Fixed(0)).is_ok());
    assert!(values(&functions[0].constant_variables, "y").is_none());
    let mut vcp = VCP { templates: vec![], functions };
    rm_component_ci(&mut vcp);
    match &vcp.functions[0].body {
        Statement::Block { stmts, .. } => {
            assert_eq!(stmts.len(), 3);
            assert!(matches!(&stmts[2], Statement::Substitution { rhe: Expression::Call { .. }, .. }));
        }
        other => panic!("unexpected {:?}", other),
    }
}

#[test]
fn uniform_array_dimension_is_resolved_in_functions() {
    let rhe = Expression::UniformArray { meta: meta(5), value: Box::new(num(0)), dimension: Box::new(var("n")) };
    let code = block(vec![decl(VariableType::Var, "a", vec![var("n")]), subst("a", vec![], rhe, true)]);
    let mut functions = function(code);
    assert!(manage_functions(&mut functions, &Fixed(4)).is_ok());
    match &functions[0].body {
        Statement::Block { stmts, .. } => match &stmts[1] {
            Statement::Substitution { rhe: Expression::UniformArray { dimension, .. }, .. } => match &**dimension {
                Expression::Number(m, v) => {
                    assert_eq!(v.to_usize(), Some(4));
                    assert_eq!(*m, meta(5));
                }
                other => panic!("unexpected {:?}", other),
            },
            other => panic!("unexpected {:?}", other),
        },
        other => panic!("unexpected {:?}", other),
    }
    let (dims, vals) = values(&functions[0].constant_variables, "a").unwrap();
    assert_eq!(dims, vec![4]);
    assert_eq!(ints(&vals), vec![0, 0, 0, 0]);
}

#[test]
fn uniform_array_dimension_in_template_is_invalid() {
    let rhe = Expression::UniformArray { meta: meta(5), value: Box::new(num(0)), dimension: Box::new(var("n")) };
    let code = block(vec![subst("a", vec![], rhe, true)]);
    let mut instances = template(code);
    let reports = compute_vct(&mut instances, &Fixed(4)).unwrap_err();
    assert_eq!(reports, vec![Report { code: ReportCode::InvalidArraySize, location: meta(5) }]);
    assert_eq!(reports[0].title(), "Invalid array size");
}

#[test]
fn interpreter_reports_are_kept() {
    let code = block(vec![decl(VariableType::Var, "a", vec![var("n")])]);
    let mut functions = function(code);
    let reports = manage_functions(&mut functions, &Failing).unwrap_err();
    assert_eq!(reports.len(), 2);
    assert_eq!(reports[0].code, ReportCode::Execution(7));
    assert_eq!(reports[1], Report { code: ReportCode::InvalidArraySize, location: meta(1) });
    let (dims, vals) = values(&functions[0].constant_variables, "a").unwrap();
    assert!(dims.is_empty());
    assert_eq!(ints(&vals), vec![0]);
}

#[test]
fn redeclaration_evicts_for_good() {
    let code = block(vec![
        decl(VariableType::Var, "x", vec![]),
        subst("x", vec![], num(1), true),
        decl(VariableType::Var, "x", vec![]),
        subst("x", vec![], num(2), true),
        decl(VariableType::Var, "x", vec![]),
    ]);
    let mut instances = template(code);
    assert!(compute_vct(&mut instances, &Fixed(0)).is_ok());
    assert!(values(&instances[0].constant_variables, "x").is_none());
}

#[test]
fn indexed_write_evicts() {
    let code = block(vec![
        decl(VariableType::Var, "x", vec![num(2)]),
        subst("x", vec![Access::ArrayAccess(num(0))], num(5), true),
    ]);
    let mut instances = template(code);
    assert!(compute_vct(&mut instances, &Fixed(0)).is_ok());
    assert!(values(&instances[0].constant_variables, "x").is_none());
}

#[test]
fn variable_on_the_right_evicts() {
    let code = block(vec![
        decl(VariableType::Var, "x", vec![]),
        decl(VariableType::Var, "y", vec![]),
        subst("x", vec![], var("y"), true),
    ]);
    let mut instances = template(code);
    assert!(compute_vct(&mut instances, &Fixed(0)).is_ok());
    assert!(values(&instances[0].constant_variables, "x").is_none());
    let (_, y) = values(&instances[0].constant_variables, "y").unwrap();
    assert_eq!(ints(&y), vec![0]);
}

#[test]
fn partial_initialization_is_zero_padded() {
    let code = block(vec![
        decl(VariableType::Var, "z", vec![num(3)]),
        subst("z", vec![], Expression::ArrayInLine { meta: meta(0), values: vec![num(1)] }, true),
    ]);
    let mut instances = template(code);
    assert!(compute_vct(&mut instances, &Fixed(0)).is_ok());
    let (dims, vals) = values(&instances[0].constant_variables, "z").unwrap();
    assert_eq!(dims, vec![3]);
    assert_eq!(ints(&vals), vec![1, 0, 0]);
}

#[test]
fn signals_are_not_tracked() {
    let code = block(vec![decl(VariableType::Signal, "s", vec![num(2), num(3)])]);
    let mut instances = template(code);
    assert!(compute_vct(&mut instances, &Fixed(0)).is_ok());
    assert_eq!(instances[0].constant_variables.len(), 0);
    match &instances[0].code {
        Statement::Block { stmts, .. } => match &stmts[0] {
            Statement::Declaration { concrete_dimensions, .. } => assert_eq!(*concrete_dimensions, vec![2, 3]),
            other => panic!("unexpected {:?}", other),
        },
        other => panic!("unexpected {:?}", other),
    }
}

#[test]
fn negative_dimension_is_invalid() {
    let negative = Expression::Number(meta(0), BigNum { negative: true, limbs: vec![1] });
    let code = block(vec![decl(VariableType::Var, "x", vec![negative])]);
    let mut instances = template(code);
    let reports = compute_vct(&mut instances, &Fixed(0)).unwrap_err();
    assert_eq!(reports, vec![Report { code: ReportCode::InvalidArraySize, location: meta(1) }]);
}

#[test]
fn elimination_is_idempotent() {
    let code = block(vec![
        decl(VariableType::Var, "x", vec![]),
        subst("x", vec![], num(1), true),
        Statement::UnderscoreSubstitution { meta: meta(3), rhe: num(0) },
        Statement::While {
            meta: meta(4),
            cond: var("c"),
            stmt: Box::new(block(vec![subst("y", vec![], var("x"), false)])),
        },
    ]);
    let mut table = ConstantTable::new();
    table.insert("x".to_string(), vec![], vec![BigNum::from_usize(1)]);
    let once = rm_statement(code, &table);
    let first = format!("{:?}", once);
    let twice = rm_statement(once, &table);
    assert_eq!(first, format!("{:?}", twice));
    match twice {
        Statement::Block { stmts, .. } => {
            assert_eq!(stmts.len(), 2);
            assert!(matches!(&stmts[0], Statement::Declaration { .. }));
            assert!(matches!(&stmts[1], Statement::While { .. }));
        }
        other => panic!("unexpected {:?}", other),
    }
}

#[test]
fn component_blocks_are_removed() {
    let comp = Statement::InitializationBlock {
        meta: meta(1),
        xtype: VariableType::Component,
        initializations: vec![decl(VariableType::Component, "c", vec![])],
    };
    let code = block(vec![comp, block(vec![Statement::InitializationBlock {
        meta: meta(1),
        xtype: VariableType::AnonymousComponent,
        initializations: vec![],
    }])]);
    let out = rm_statement(code, &ConstantTable::new());
    match out {
        Statement::Block { stmts, .. } => {
            assert_eq!(stmts.len(), 1);
            match &stmts[0] {
                Statement::Block { stmts, .. } => assert!(stmts.is_empty()),
                other => panic!("unexpected {:?}", other),
            }
        }
        other => panic!("unexpected {:?}", other),
    }
}

#[test]
fn signal_and_bus_blocks_filter_their_members() {
    let mut tag = meta(2);
    tag.is_tag = true;
    let tagged = Statement::Substitution { meta: tag, var: "s".to_string(), access: vec![], rhe: num(1), is_initialization: true };
    let bus_call = Expression::BusCall { meta: meta(0), id: "B".to_string(), args: vec![] };
    let signals = Statement::InitializationBlock {
        meta: meta(1),
        xtype: VariableType::Signal,
        initializations: vec![decl(VariableType::Signal, "s", vec![]), tagged],
    };
    let buses = Statement::InitializationBlock {
        meta: meta(1),
        xtype: VariableType::Bus,
        initializations: vec![subst("b", vec![], bus_call, true), subst("b2", vec![], var("q"), true)],
    };
    let out = rm_statement(block(vec![signals, buses]), &ConstantTable::new());
    match out {
        Statement::Block { stmts, .. } => {
            match &stmts[0] {
                Statement::InitializationBlock { initializations, .. } => {
                    assert_eq!(initializations.len(), 1);
                    assert!(matches!(initializations[0], Statement::Substitution { .. }));
                }
                other => panic!("unexpected {:?}", other),
            }
            match &stmts[1] {
                Statement::InitializationBlock { initializations, .. } => {
                    assert_eq!(initializations.len(), 1);
                    assert!(matches!(&initializations[0], Statement::Substitution { var, .. } if var == "b2"));
                }
                other => panic!("unexpected {:?}", other),
            }
        }
        other => panic!("unexpected {:?}", other),
    }
}

#[test]
fn removal_predicate() {
    let mut table = ConstantTable::new();
    table.insert("x".to_string(), vec![], vec![BigNum::zero()]);
    assert!(should_be_removed(&subst("x", vec![], num(1), true), &table));
    assert!(!should_be_removed(&subst("x", vec![], num(1), false), &table));
    assert!(!should_be_removed(&subst("y", vec![], num(1), true), &table));
    let nested = Expression::UniformArray {
        meta: meta(0),
        value: Box::new(Expression::BusCall { meta: meta(0), id: "B".to_string(), args: vec![] }),
        dimension: Box::new(num(2)),
    };
    assert!(should_be_removed(&subst("y", vec![], nested, false), &table));
    let mut comp = meta(2);
    comp.is_component = true;
    let s = Statement::Substitution { meta: comp, var: "c".to_string(), access: vec![], rhe: var("t"), is_initialization: false };
    assert!(should_be_removed(&s, &table));
    assert!(!should_be_removed(&block(vec![]), &table));
}

#[test]
fn closed_literals_flatten() {
    let nested = Expression::ArrayInLine {
        meta: meta(0),
        values: vec![
            Expression::ArrayInLine { meta: meta(0), values: vec![num(1), num(2)] },
            Expression::UniformArray { meta: meta(0), value: Box::new(num(7)), dimension: Box::new(num(3)) },
        ],
    };
    assert_eq!(ints(&is_constant_expression(&nested).unwrap()), vec![1, 2, 7, 7, 7]);
    let uniform = Expression::UniformArray {
        meta: meta(0),
        value: Box::new(Expression::ArrayInLine { meta: meta(0), values: vec![num(1), num(2)] }),
        dimension: Box::new(num(2)),
    };
    assert_eq!(ints(&is_constant_expression(&uniform).unwrap()), vec![1, 2, 1, 2]);
    let open = Expression::ArrayInLine { meta: meta(0), values: vec![num(1), var("v")] };
    assert!(is_constant_expression(&open).is_none());
    let op = Expression::InfixOp { meta: meta(0), lhe: Box::new(num(1)), rhe: Box::new(num(2)) };
    assert!(is_constant_expression(&op).is_none());
}

#[test]
fn big_numbers_convert_to_sizes() {
    assert_eq!(BigNum::zero().to_usize(), Some(0));
    assert_eq!(BigNum::from_usize(42).to_usize(), Some(42));
    assert_eq!(BigNum { negative: true, limbs: vec![0, 0] }.to_usize(), Some(0));
    assert_eq!(BigNum { negative: true, limbs: vec![3] }.to_usize(), None);
    assert_eq!(BigNum { negative: false, limbs: vec![5, 0, 0] }.to_usize(), Some(5));
    assert_eq!(BigNum { negative: false, limbs: vec![5, 1] }.to_usize(), None);
}

#[test]
fn header_becomes_environment() {
    let header = vec![
        Argument { name: "n".to_string(), values: vec![BigNum::from_usize(3)], lengths: vec![] },
        Argument { name: "v".to_string(), values: vec![BigNum::from_usize(1), BigNum::from_usize(2)], lengths: vec![2] },
    ];
    let env = transform_header_into_environment(&header);
    assert_eq!(env.bindings.len(), 2);
    assert_eq!(env.bindings[1].name, "v");
    assert_eq!(env.bindings[1].dimensions, vec![2]);
    assert_eq!(ints(&env.bindings[1].values), vec![1, 2]);
}

#[test]
fn table_and_names() {
    let mut table = ConstantTable::new();
    table.insert("a".to_string(), vec![1], vec![BigNum::from_usize(9)]);
    table.insert("b".to_string(), vec![], vec![BigNum::zero()]);
    table.insert("a".to_string(), vec![2], vec![BigNum::zero(), BigNum::zero()]);
    assert_eq!(table.len(), 2);
    assert_eq!(values(&table, "a").unwrap().0, vec![2]);
    table.remove(&"a".to_string());
    assert!(!table.contains_key(&"a".to_string()));
    assert!(table.contains_key(&"b".to_string()));
    let mut used = UsedNames::new();
    used.insert("a".to_string());
    assert!(used.contains(&"a".to_string()));
    assert!(!used.contains(&"b".to_string()));
}

#[test]
fn nested_uniform_array_dimension_is_resolved() {
    let inner = Expression::UniformArray { meta: meta(6), value: Box::new(num(1)), dimension: Box::new(var("n")) };
    let rhe = Expression::ArrayInLine { meta: meta(0), values: vec![num(9), inner] };
    let code = block(vec![subst("w", vec![], rhe, false)]);
    let mut functions = function(code);
    assert!(manage_functions(&mut functions, &Fixed(3)).is_ok());
    match &functions[0].body {
        Statement::Block { stmts, .. } => match &stmts[0] {
            Statement::Substitution { rhe, .. } => {
                assert_eq!(ints(&is_constant_expression(rhe).unwrap()), vec![9, 1, 1, 1]);
            }
            other => panic!("unexpected {:?}", other),
        },
        other => panic!("unexpected {:?}", other),
    }
}

#[test]
fn interpreter_answers_become_sizes() {
    let mut reports = vec![Report { code: ReportCode::Execution(1), location: meta(0) }];
    assert_eq!(dimension_from_answer(Ok(BigNum::from_usize(6)), &mut reports), Some(6));
    assert_eq!(reports.len(), 1);
    let negative = BigNum { negative: true, limbs: vec![2] };
    assert_eq!(dimension_from_answer(Ok(negative), &mut reports), None);
    assert_eq!(reports.len(), 1);
    let failure = vec![Report { code: ReportCode::Execution(2), location: meta(3) }];
    assert_eq!(dimension_from_answer(Err(failure), &mut reports), None);
    assert_eq!(reports.len(), 2);
    assert_eq!(reports[1].code, ReportCode::Execution(2));
}

#[test]
fn component_blocks_are_emptied_wherever_they_stand() {
    let comp = |xtype| Statement::InitializationBlock {
        meta: meta(7),
        xtype,
        initializations: vec![decl(VariableType::Component, "c", vec![])],
    };
    let looped = Statement::While { meta: meta(4), cond: var("c"), stmt: Box::new(comp(VariableType::AnonymousComponent)) };
    let mut vcp = VCP {
        templates: template(comp(VariableType::Component)),
        functions: function(looped),
    };
    rm_component_ci(&mut vcp);
    match &vcp.templates[0].code {
        Statement::Block { meta: m, stmts } => {
            assert!(stmts.is_empty());
            assert_eq!(*m, meta(7));
        }
        other => panic!("unexpected {:?}", other),
    }
    match &vcp.functions[0].body {
        Statement::While { stmt, .. } => assert!(matches!(&**stmt, Statement::Block { stmts, .. } if stmts.is_empty())),
        other => panic!("unexpected {:?}", other),
    }
}

#[test]
fn table_lists_its_entries() {
    let mut table = ConstantTable::new();
    table.insert("a".to_string(), vec![], vec![BigNum::from_usize(1)]);
    table.insert("b".to_string(), vec![1], vec![BigNum::from_usize(2)]);
    let names: Vec<&str> = table.entries().iter().map(|e| e.name.as_str()).collect();
    assert_eq!(names, vec!["a", "b"]);
}

#[test]
fn report_texts() {
    let r = Report { code: ReportCode::InvalidArraySize, location: meta(0) };
    assert_eq!(r.primary_message(), "This expression can not be used as an array size");
    let e = Report { code: ReportCode::Execution(3), location: meta(0) };
    assert_eq!(e.title(), "Constant expression could not be evaluated");
}

#[test]
fn literal_function_bodies_succeed() {
    let code = block(vec![decl(VariableType::Var, "x", vec![num(2)]), subst("x", vec![], num(5), true)]);
    let mut functions = function(code);
    assert!(manage_functions(&mut functions, &Failing).is_ok());
    let (dims, vals) = values(&functions[0].constant_variables, "x").unwrap();
    assert_eq!(dims, vec![2]);
    assert_eq!(ints(&vals), vec![5, 0]);
}

#[test]
fn resolved_sizes_become_literals() {
    let mut reports = vec![];
    let d = rewrite_dimension(meta(8), Box::new(var("n")), Some(4), &mut reports);
    match *d {
        Expression::Number(m, v) => {
            assert_eq!(m, meta(8));
            assert_eq!(v.to_usize(), Some(4));
        }
        other => panic!("unexpected {:?}", other),
    }
    assert!(reports.is_empty());
    let kept = rewrite_dimension(meta(8), Box::new(var("n")), None, &mut reports);
    assert!(matches!(*kept, Expression::Variable { .. }));
    assert_eq!(reports, vec![Report { code: ReportCode::InvalidArraySize, location: meta(8) }]);
}

#[test]
fn declared_dimensions_need_every_size() {
    assert_eq!(declared_dimensions(&vec![Some(2), Some(3)]), Some(vec![2, 3]));
    assert_eq!(declared_dimensions(&vec![]), Some(vec![]));
    assert_eq!(declared_dimensions(&vec![Some(2), None]), None);
    assert_eq!(declared_dimensions(&vec![Some(usize::MAX), Some(2)]), None);
}
