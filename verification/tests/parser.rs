use wu::ast::{Expression, ExpressionNode, Operator, Statement, StatementNode};
use wu::diagnostic::{Diagnostic, Fault};
use wu::lexer::Lexer;
use wu::parser::Parser;
use wu::source::Source;
use wu::token::Position;
use wu::types::{Type, TypeMode, TypeNode};

fn parse(text: &str) -> Result<Vec<Statement>, Diagnostic> {
    let source = Source::from("parser.wu", text.lines().map(|line| line.to_string()).collect());
    let tokens = Lexer::default(text.chars().collect(), &source).tokenize().unwrap();
    Parser::new(tokens, &source).parse()
}

fn one(text: &str) -> StatementNode {
    let mut statements = parse(text).unwrap();
    assert_eq!(statements.len(), 1);
    statements.remove(0).node
}

fn expression(text: &str) -> ExpressionNode {
    match one(text) {
        StatementNode::Expression(expression) => expression.node,
        other => panic!("not an expression: {:?}", other),
    }
}

fn written(expression: &Expression) -> String {
    match &expression.node {
        ExpressionNode::Number(text) => text.clone(),
        ExpressionNode::Str(text) => format!("{:?}", text),
        ExpressionNode::Char(c) => format!("{:?}", c),
        ExpressionNode::Bool(b) => format!("{}", b),
        ExpressionNode::Identifier(name) => name.clone(),
        ExpressionNode::Tuple(content) => {
            format!("[{}]", content.iter().map(written).collect::<Vec<String>>().join(" "))
        }
        ExpressionNode::Block(statements) => format!("{{{}}}", statements.len()),
        ExpressionNode::Function(parameters, result, body) => format!(
            "(fn {} {} {})",
            parameters
                .iter()
                .map(|parameter| format!("{}:{}", parameter.name, parameter.kind.to_string()))
                .collect::<Vec<String>>()
                .join(","),
            result.to_string(),
            written(body)
        ),
        ExpressionNode::Call(callee, arguments) => format!(
            "(call {} {})",
            written(callee),
            arguments.iter().map(written).collect::<Vec<String>>().join(" ")
        ),
        ExpressionNode::Binary(left, operator, right) => {
            format!("({:?} {} {})", operator, written(left), written(right))
        }
        ExpressionNode::Unary(operator, operand) => format!("({:?} {})", operator, written(operand)),
    }
}

fn shape(text: &str) -> String {
    match one(text) {
        StatementNode::Expression(expression) => written(&expression),
        StatementNode::Variable(declared, left, Some(right)) => {
            format!("var {} {} = {}", declared.to_string(), written(&left), written(&right))
        }
        StatementNode::Variable(declared, left, None) => {
            format!("var {} {}", declared.to_string(), written(&left))
        }
        StatementNode::Constant(declared, left, right) => {
            format!("let {} {} = {}", declared.to_string(), written(&left), written(&right))
        }
    }
}

#[test]
fn typed_variables() {
    assert_eq!(shape("a: int   = 123"), "var int a = 123");
    assert_eq!(shape("b: float = .123"), "var float b = .123");
    assert_eq!(shape("c: char  = 'b'"), "var char c = 'b'");
    assert_eq!(shape("e: str   = r\"rawwww\""), "var string e = \"rawwww\"");
    assert_eq!(shape("f: bool  = true"), "var bool f = true");
    assert_eq!(shape("p: point = q"), "var point p = q");
    assert_eq!(shape("hmm: int"), "var int hmm");
}

#[test]
fn typed_constants_are_immutable() {
    assert_eq!(shape("a: int:   123"), "let constant int a = 123");
    assert_eq!(shape("c: char:  '\\n'"), "let constant char c = '\\n'");
    assert_eq!(shape("e: str:   \"raw\""), "let constant string e = \"raw\"");
    match one("f: bool:  true") {
        StatementNode::Constant(Type { node: TypeNode::Bool, mode }, _, _) => {
            assert!(mode.check(&TypeMode::Immutable))
        }
        other => panic!("not a constant: {:?}", other),
    }
}

#[test]
fn inferred_declarations() {
    assert_eq!(shape("foo := f"), "var nil foo = f");
    assert_eq!(shape("bar :: b"), "let constant nil bar = b");
    assert_eq!(shape("c := .123"), "var nil c = .123");
}

#[test]
fn tuple_targets_and_tuple_types() {
    assert_eq!(shape("(a, b, c) := (1, 2, 3)"), "var nil [a b c] = [1 2 3]");
    assert_eq!(
        shape("(g, h): (int, bool) = (1000, false)"),
        "var (int,bool,) [g h] = [1000 false]"
    );
    assert_eq!(
        shape("(d, e, f, g) :: (1, \"two\", 3, 4, \"hey\")"),
        "let constant nil [d e f g] = [1 \"two\" 3 4 \"hey\"]"
    );
    assert_eq!(shape("(grr): bool: false"), "let constant bool grr = false");
    assert_eq!(shape("(bar): (float): .123"), "let constant float bar = .123");
    assert_eq!(shape("(x,): (int,) = (1,)"), "var (int,) [x] = [1]");
    assert_eq!(shape("() := ()"), "var nil [] = []");
}

#[test]
fn a_tuple_target_must_hold_names() {
    let diagnostic = parse("(a, 1, c) := (1, 2, 3)").unwrap_err();
    assert!(matches!(diagnostic.fault, Fault::NonIdentifier));
    assert_eq!(diagnostic.message(), "can't declare non-identifier");
    assert_eq!(diagnostic.position, Some(Position::new(0, 4, 1)));
    assert_eq!(diagnostic.file, "parser.wu");
    assert!(parse("(a, b): (int, int)").is_ok());
    assert!(parse("(a, (b, c)) :: (1, 2)").is_err());
}

#[test]
fn operators_bind_by_precedence() {
    assert_eq!(shape("1 + 2 * 3"), "(Plus 1 (Times 2 3))");
    assert_eq!(shape("1 * 2 + 3"), "(Plus (Times 1 2) 3)");
    assert_eq!(shape("1 - 2 - 3"), "(Minus (Minus 1 2) 3)");
    assert_eq!(shape("a < b == c >= d"), "(Equal (Less a b) (GreaterEqual c d))");
    assert_eq!(shape("a || b && c"), "(Or a (And b c))");
    assert_eq!(shape("a % b / c"), "(Divide (Remainder a b) c)");
    assert_eq!(shape("a != b <= c"), "(NotEqual a (LessEqual b c))");
    assert_eq!(shape("a > b"), "(Greater a b)");
}

#[test]
fn unary_operators_bind_tightest() {
    assert_eq!(shape("-a * b"), "(Times (Minus a) b)");
    assert_eq!(shape("!a && !!b"), "(And (Not a) (Not (Not b)))");
    assert_eq!(shape("- -1"), "(Minus (Minus 1))");
    assert_eq!(shape("-f(1)"), "(Minus (call f 1))");
}

#[test]
fn parentheses_group() {
    assert_eq!(shape("(1 + 2) * 3"), "(Times (Plus 1 2) 3)");
    assert_eq!(shape("(foo): float =( (1/2) +  (1))"), "var float foo = (Plus (Divide 1 2) 1)");
    assert_eq!(shape("((a))"), "a");
}

#[test]
fn function_literals() {
    assert_eq!(
        shape("add :: (a: i128, b: i128) i128 -> a + b"),
        "let constant nil add = (fn a:i128,b:i128 i128 (Plus a b))"
    );
    assert_eq!(shape("one :: () int -> 1"), "let constant nil one = (fn  int 1)");
    assert_eq!(
        shape("pair :: (a: (int, str)) (str, int) -> a"),
        "let constant nil pair = (fn a:(int,string,) (string,int,) a)"
    );
}

#[test]
fn calls_apply_to_what_is_before_them() {
    assert_eq!(shape("add(10, 10)"), "(call add 10 10)");
    assert_eq!(shape("f()"), "(call f )");
    assert_eq!(shape("f(1)(2, 3)"), "(call (call f 1) 2 3)");
    assert_eq!(
        shape("((a: i128, b: i128) i128 -> a + b)(10, 20)"),
        "(call (fn a:i128,b:i128 i128 (Plus a b)) 10 20)"
    );
    assert_eq!(shape("f(g(1), 2 + 3)"), "(call f (call g 1) (Plus 2 3))");
}

#[test]
fn blocks_hold_statements() {
    match expression("{\n  a := 1\n  a\n}") {
        ExpressionNode::Block(statements) => {
            assert_eq!(statements.len(), 2);
            assert!(matches!(statements[0].node, StatementNode::Variable(_, _, Some(_))));
            assert!(matches!(statements[1].node, StatementNode::Expression(_)));
        }
        other => panic!("not a block: {:?}", other),
    }
    assert_eq!(shape("{}"), "{0}");
    assert_eq!(shape("{ a }"), "{1}");
    assert_eq!(shape("x := { a\n\n b }"), "var nil x = {2}");
}

#[test]
fn statements_stand_one_to_a_line() {
    let statements = parse("\n\na: int = 100\nb: bool = false\n\nc := .123\n  ").unwrap();
    assert_eq!(statements.len(), 3);
    assert_eq!(statements[0].pos, Position::new(2, 0, 1));
    assert_eq!(statements[2].pos, Position::new(5, 0, 1));
    assert!(parse("").unwrap().is_empty());
    assert!(parse("\n\n").unwrap().is_empty());
}

#[test]
fn nodes_carry_the_position_of_their_first_token() {
    match one("  foo + bar(1)") {
        StatementNode::Expression(Expression { node: ExpressionNode::Binary(left, _, right), pos }) => {
            assert_eq!(pos, Position::new(0, 2, 3));
            assert_eq!(left.pos, Position::new(0, 2, 3));
            assert_eq!(right.pos, Position::new(0, 8, 3));
        }
        other => panic!("not a sum: {:?}", other),
    }
}

#[test]
fn unexpected_tokens_are_faults() {
    let diagnostic = parse("a b").unwrap_err();
    assert!(matches!(diagnostic.fault, Fault::UnexpectedToken(ref lexeme) if lexeme == "b"));
    assert_eq!(diagnostic.message(), "unexpected token `b`");
    assert_eq!(diagnostic.position, Some(Position::new(0, 2, 1)));
    let diagnostic = parse("a := )").unwrap_err();
    assert_eq!(diagnostic.message(), "unexpected token `)`");
    let diagnostic = parse("x = 1").unwrap_err();
    assert_eq!(diagnostic.message(), "unexpected token `=`");
    let diagnostic = parse("while").unwrap_err();
    assert_eq!(diagnostic.message(), "unexpected token `while`");
    let diagnostic = parse("f(1 2)").unwrap_err();
    assert_eq!(diagnostic.message(), "unexpected token `2`");
    let diagnostic = parse("a: 1 = 2").unwrap_err();
    assert_eq!(diagnostic.message(), "unexpected token `1`");
    let diagnostic = parse("(a: int) int a").unwrap_err();
    assert_eq!(diagnostic.message(), "unexpected token `a`");
}

#[test]
fn an_early_end_is_a_fault() {
    for text in ["a :=", "(1, 2", "f(", "{ a", "a: int =", "1 +", "(a: int) int ->", "-"] {
        let diagnostic = parse(text).unwrap_err();
        assert!(matches!(diagnostic.fault, Fault::UnexpectedEnd), "{}", text);
        assert_eq!(diagnostic.message(), "unexpected end of input");
    }
}

#[test]
fn the_first_fault_stops_the_parser() {
    let diagnostic = parse("a := 1\nb := )\nc := (").unwrap_err();
    assert_eq!(diagnostic.message(), "unexpected token `)`");
    assert_eq!(diagnostic.position, Some(Position::new(1, 5, 1)));
}

#[test]
fn operators_are_named() {
    match expression("1 + 2") {
        ExpressionNode::Binary(_, operator, _) => assert_eq!(operator, Operator::Plus),
        other => panic!("not a sum: {:?}", other),
    }
}

#[test]
fn constructs_are_parsed_from_any_index() {
    let text = "a + b : (int, str) x";
    let source = Source::from("parser.wu", vec![text.to_string()]);
    let tokens = Lexer::default(text.chars().collect(), &source).tokenize().unwrap();
    let parser = Parser::new(tokens, &source);
    let (sum, next) = parser.parse_expression(0).unwrap();
    assert_eq!((written(&sum), next), ("(Plus a b)".to_string(), 3));
    let (operand, next) = parser.parse_expression(2).unwrap();
    assert_eq!((written(&operand), next), ("b".to_string(), 3));
    let (declared, next) = parser.parse_type(4).unwrap();
    assert_eq!((declared.to_string(), next), ("(int,string,)".to_string(), 9));
    let (statement, next) = parser.parse_statement(0).unwrap();
    assert!(matches!(statement.node, StatementNode::Variable(_, _, None)));
    assert_eq!(next, 9);
    assert!(parser.parse_type(3).is_err());
    assert!(matches!(parser.parse_expression(10).unwrap_err().fault, Fault::UnexpectedEnd));
    assert!(matches!(parser.parse_expression(99).unwrap_err().fault, Fault::UnexpectedEnd));
    assert!(parser.parse().is_err());
}
