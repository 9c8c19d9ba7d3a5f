use wu::ast::{Expression, ExpressionNode, Operator, Statement, StatementNode};
use wu::diagnostic::Fault;
use wu::source::Source;
use wu::token::Position;
use wu::types::{Type, TypeMode, TypeNode};
use wu::visitor::Visitor;

fn source() -> Source {
    Source::from("test.wu", Vec::new())
}

fn at(column: usize) -> Position {
    Position::new(0, column, 1)
}

fn name(text: &str, column: usize) -> Expression {
    Expression::new(ExpressionNode::Identifier(text.to_string()), at(column))
}

fn number(text: &str, column: usize) -> Expression {
    Expression::new(ExpressionNode::Number(text.to_string()), at(column))
}

fn tuple(content: Vec<Expression>) -> Expression {
    Expression::new(ExpressionNode::Tuple(content), at(0))
}

fn variable(declared: Type, left: Expression, right: Option<Expression>) -> Statement {
    Statement::new(StatementNode::Variable(declared, left, right), at(0))
}

fn constant(declared: Type, left: Expression, right: Expression) -> Statement {
    Statement::new(StatementNode::Constant(declared, left, right), at(0))
}

fn expression(inner: Expression) -> Statement {
    Statement::new(StatementNode::Expression(inner), at(0))
}

fn recorded(visitor: &Visitor, wanted: &str) -> String {
    let (slot, distance) = visitor.symtab.get_name(wanted).unwrap();
    visitor.typetab.get_type(slot, distance).unwrap().to_string()
}

#[test]
fn a_matching_annotation_is_recorded() {
    let source = source();
    let ast = vec![variable(Type::integer(), name("a", 0), Some(number("123", 9)))];
    let mut visitor = Visitor::new(&source, &ast);
    assert!(visitor.visit().is_ok());
    assert_eq!(visitor.symtab.get_name("a"), Some((0, 0)));
    let t = visitor.typetab.get_type(0, 0).unwrap();
    assert!(matches!(t.node, TypeNode::Int));
    assert!(t.mode.check(&TypeMode::Regular));
}

#[test]
fn the_declared_mode_is_kept() {
    let source = source();
    let ast = vec![constant(
        Type::new(TypeNode::Float, TypeMode::Immutable),
        name("b", 0),
        number(".123", 10),
    )];
    let mut visitor = Visitor::new(&source, &ast);
    assert!(visitor.visit().is_ok());
    assert_eq!(recorded(&visitor, "b"), "constant float");
}

#[test]
fn a_mismatched_annotation_is_a_fault() {
    let source = source();
    let ast = vec![variable(Type::bool(), name("a", 0), Some(number("123", 10)))];
    let mut visitor = Visitor::new(&source, &ast);
    let diagnostic = visitor.visit().unwrap_err();
    assert!(matches!(
        diagnostic.fault,
        Fault::Mismatched(TypeNode::Bool, Type { node: TypeNode::Number, .. })
    ));
    assert_eq!(diagnostic.message(), "mismatched types, expected type `bool` got `number`");
    assert_eq!(diagnostic.file, "test.wu");
    assert_eq!(diagnostic.position, Some(at(10)));
}

#[test]
fn a_mismatched_constant_is_a_fault() {
    let source = source();
    let text = Expression::new(ExpressionNode::Str("two".to_string()), at(8));
    let ast = vec![constant(Type::new(TypeNode::Char, TypeMode::Immutable), name("c", 0), text)];
    let mut visitor = Visitor::new(&source, &ast);
    let diagnostic = visitor.visit().unwrap_err();
    assert_eq!(diagnostic.message(), "mismatched types, expected type `char` got `string`");
    assert_eq!(diagnostic.position, Some(at(8)));
}

#[test]
fn an_undeclared_name_is_a_fault() {
    let source = source();
    let ast = vec![
        variable(Type::nil(), name("a", 0), Some(number("1", 5))),
        expression(name("z", 3)),
    ];
    let mut visitor = Visitor::new(&source, &ast);
    let diagnostic = visitor.visit().unwrap_err();
    assert!(matches!(diagnostic.fault, Fault::Undeclared(ref name) if name == "z"));
    assert_eq!(diagnostic.message(), "no such value `z` in this scope");
    assert_eq!(diagnostic.position, Some(at(3)));
    assert_eq!(visitor.symtab.get_name("a"), Some((0, 0)));
}

#[test]
fn an_undeclared_initializer_is_a_fault() {
    let source = source();
    let ast = vec![variable(Type::nil(), name("a", 0), Some(name("z", 5)))];
    let mut visitor = Visitor::new(&source, &ast);
    let diagnostic = visitor.visit().unwrap_err();
    assert_eq!(diagnostic.message(), "no such value `z` in this scope");
}

#[test]
fn a_tuple_target_declares_each_name() {
    let source = source();
    let ast = vec![variable(
        Type::nil(),
        tuple(vec![name("a", 1), name("b", 4), name("c", 7)]),
        Some(tuple(vec![number("1", 14), number("2", 17), number("3", 20)])),
    )];
    let mut visitor = Visitor::new(&source, &ast);
    assert!(visitor.visit().is_ok());
    assert_eq!(visitor.symtab.get_name("a"), Some((0, 0)));
    assert_eq!(visitor.symtab.get_name("b"), Some((1, 0)));
    assert_eq!(visitor.symtab.get_name("c"), Some((2, 0)));
    assert_eq!(visitor.symtab.size(), 3);
}

#[test]
fn names_of_a_tuple_target_get_placeholder_types() {
    let source = source();
    let ast = vec![
        constant(
            Type::nil(),
            tuple(vec![name("a", 1), name("b", 4)]),
            tuple(vec![number("1", 11), number("2", 14)]),
        ),
        variable(Type::integer(), name("c", 0), Some(number("3", 9))),
    ];
    let mut visitor = Visitor::new(&source, &ast);
    assert!(visitor.visit().is_ok());
    assert_eq!(visitor.typetab.size(), 3);
    assert_eq!(recorded(&visitor, "a"), "nil");
    assert_eq!(recorded(&visitor, "b"), "nil");
    assert_eq!(recorded(&visitor, "c"), "int");
}

#[test]
fn a_tuple_target_with_a_literal_is_a_fault() {
    let source = source();
    let ast = vec![variable(
        Type::nil(),
        tuple(vec![name("a", 1), number("1", 4), name("c", 7)]),
        Some(tuple(vec![number("1", 14), number("2", 17), number("3", 20)])),
    )];
    let mut visitor = Visitor::new(&source, &ast);
    let diagnostic = visitor.visit().unwrap_err();
    assert!(matches!(diagnostic.fault, Fault::NonIdentifier));
    assert_eq!(diagnostic.message(), "can't declare non-identifier");
    assert_eq!(diagnostic.position, Some(at(4)));
    assert_eq!(visitor.symtab.get_name("a"), Some((0, 0)));
    assert_eq!(visitor.symtab.get_name("c"), None);
}

#[test]
fn any_other_target_is_a_fault() {
    let source = source();
    let ast = vec![variable(Type::nil(), number("1", 0), Some(number("2", 5)))];
    let mut visitor = Visitor::new(&source, &ast);
    let diagnostic = visitor.visit().unwrap_err();
    assert!(matches!(diagnostic.fault, Fault::UnexpectedVariable));
    assert_eq!(diagnostic.message(), "unexpected variable declaration");
    assert_eq!(diagnostic.position, Some(at(0)));

    let ast = vec![constant(Type::nil(), number("1", 2), number("2", 5))];
    let mut visitor = Visitor::new(&source, &ast);
    let diagnostic = visitor.visit().unwrap_err();
    assert!(matches!(diagnostic.fault, Fault::UnexpectedConstant));
    assert_eq!(diagnostic.message(), "unexpected constant declaration");
    assert_eq!(diagnostic.position, Some(at(2)));
}

#[test]
fn without_an_annotation_the_type_is_inferred() {
    let source = source();
    let ast = vec![
        variable(Type::nil(), name("n", 0), Some(number("1", 5))),
        variable(
            Type::nil(),
            name("s", 0),
            Some(Expression::new(ExpressionNode::Str("two".to_string()), at(5))),
        ),
        variable(Type::nil(), name("c", 0), Some(Expression::new(ExpressionNode::Char('c'), at(5)))),
        variable(Type::nil(), name("b", 0), Some(Expression::new(ExpressionNode::Bool(true), at(5)))),
        variable(Type::nil(), name("m", 0), Some(name("s", 5))),
        variable(
            Type::nil(),
            name("sum", 0),
            Some(Expression::new(
                ExpressionNode::Binary(
                    Box::new(number("1", 7)),
                    Operator::Plus,
                    Box::new(number("2", 11)),
                ),
                at(7),
            )),
        ),
    ];
    let mut visitor = Visitor::new(&source, &ast);
    assert!(visitor.visit().is_ok());
    assert_eq!(recorded(&visitor, "n"), "number");
    assert_eq!(recorded(&visitor, "s"), "string");
    assert_eq!(recorded(&visitor, "c"), "char");
    assert_eq!(recorded(&visitor, "b"), "bool");
    assert_eq!(recorded(&visitor, "m"), "string");
    assert_eq!(recorded(&visitor, "sum"), "nil");
}

#[test]
fn a_bare_declaration_records_the_declared_type() {
    let source = source();
    let ast = vec![variable(Type::integer(), name("hmm", 0), None)];
    let mut visitor = Visitor::new(&source, &ast);
    assert!(visitor.visit().is_ok());
    assert_eq!(recorded(&visitor, "hmm"), "int");
}

#[test]
fn a_redeclaration_reuses_the_slot() {
    let source = source();
    let ast = vec![
        variable(Type::integer(), name("a", 0), Some(number("1", 9))),
        variable(Type::float(), name("a", 0), Some(number("2", 11))),
    ];
    let mut visitor = Visitor::new(&source, &ast);
    assert!(visitor.visit().is_ok());
    assert_eq!(visitor.symtab.size(), 1);
    assert_eq!(visitor.typetab.size(), 2);
    assert_eq!(recorded(&visitor, "a"), "float");
}

#[test]
fn blocks_and_tuples_are_checked_inside() {
    let source = source();
    let block = Expression::new(
        ExpressionNode::Block(vec![
            variable(Type::nil(), name("inner", 2), Some(number("1", 11))),
            expression(tuple(vec![name("inner", 2), name("missing", 9)])),
        ]),
        at(0),
    );
    let ast = vec![expression(block)];
    let mut visitor = Visitor::new(&source, &ast);
    let diagnostic = visitor.visit().unwrap_err();
    assert_eq!(diagnostic.message(), "no such value `missing` in this scope");
    assert_eq!(visitor.symtab.get_name("inner"), Some((0, 0)));
}

#[test]
fn type_expression_reads_the_table() {
    let source = source();
    let ast = vec![variable(Type::integer(), name("a", 0), Some(number("1", 9)))];
    let mut visitor = Visitor::new(&source, &ast);
    assert!(visitor.visit().is_ok());
    assert_eq!(visitor.type_expression(&name("a", 0)).unwrap().to_string(), "int");
    assert_eq!(visitor.type_expression(&number("7", 0)).unwrap().to_string(), "number");
    let diagnostic = visitor.type_expression(&name("q", 4)).unwrap_err();
    assert_eq!(diagnostic.message(), "no such value `q` in this scope");
}

#[test]
fn the_first_fault_stops_the_pass() {
    let source = source();
    let ast = vec![
        expression(name("first", 0)),
        variable(Type::nil(), name("later", 0), Some(number("1", 9))),
    ];
    let mut visitor = Visitor::new(&source, &ast);
    let diagnostic = visitor.visit().unwrap_err();
    assert_eq!(diagnostic.message(), "no such value `first` in this scope");
    assert_eq!(visitor.symtab.get_name("later"), None);
}
