//! The source grammar: declarations, statements and expressions parsed from
//! text, with precedence, call chains, sprites, and hard failures.

use langjam_gamejam_lang::{
    parse, BinaryOperator, Declaration, Expression, Pixel, Statement,
};

fn num(f: f64) -> Expression {
    Expression::NumberLiteral(f.to_bits())
}

#[test]
fn parses_a_small_program() {
    let decls = parse(
        "entity Player {\n  var @x, @y;\n  constructor { @x = 0; @y = 0; }\n  tick { @x = @x + 1; }\n}\nconstructor { p = spawn Player; }\n",
    )
    .unwrap();
    assert_eq!(decls.len(), 2);
    match &decls[0] {
        Declaration::EntityDeclaration { name, body } => {
            assert_eq!(name, "Player");
            assert_eq!(body.len(), 3);
            match &body[0] {
                Declaration::InstanceVarDeclaration { names } => {
                    assert_eq!(names, &vec!["x".to_owned(), "y".to_owned()]);
                }
                _ => panic!("expected instance variables"),
            }
        }
        _ => panic!("expected an entity"),
    }
}

#[test]
fn trailing_garbage_is_a_parse_error() {
    assert!(parse("entity A {} ???").is_err());
}

#[test]
fn sprite_row_length_mismatch_is_a_parse_error() {
    assert!(parse("constructor { s = sprite { ###\n.. }; }").is_err());
}

#[test]
fn precedence_binds_multiplication_tighter() {
    let (used, e) = langjam_gamejam_lang::expression("1 + 2 * 3").unwrap();
    assert_eq!(used, 9);
    match e {
        Expression::BinaryOperation {
            left,
            right,
            operator: BinaryOperator::Add,
        } => {
            assert_eq!(*left, num(1.0));
            match *right {
                Expression::BinaryOperation {
                    operator: BinaryOperator::Multiply,
                    ..
                } => {}
                other => panic!("expected a product, got {:?}", other),
            }
        }
        other => panic!("expected a sum, got {:?}", other),
    }
}

#[test]
fn call_chains_are_left_associative() {
    let (_, e) = langjam_gamejam_lang::expression("a.f().g()").unwrap();
    match e {
        Expression::FunctionCall { target, name, .. } => {
            assert_eq!(name, "g");
            match *target {
                Expression::FunctionCall { name, .. } => assert_eq!(name, "f"),
                other => panic!("expected an inner call, got {:?}", other),
            }
        }
        other => panic!("expected a call, got {:?}", other),
    }
}

#[test]
fn keywords_parse_as_literals() {
    let (_, e) = langjam_gamejam_lang::expression("null").unwrap();
    assert_eq!(e, Expression::NullLiteral);
    let (_, e) = langjam_gamejam_lang::expression("true").unwrap();
    assert_eq!(e, Expression::BooleanLiteral(true));
    let (_, e) = langjam_gamejam_lang::expression("this").unwrap();
    assert_eq!(e, Expression::ThisLiteral);
}

#[test]
fn numbers_parse_with_signs_fractions_and_exponents() {
    for (text, value) in [
        ("0", 0.0f64),
        ("42", 42.0),
        ("-1.5", -1.5),
        ("+2.25", 2.25),
        (".5", 0.5),
        ("1e3", 1000.0),
        ("2.5E-2", 0.025),
    ] {
        let (used, e) = langjam_gamejam_lang::expression(text).unwrap();
        assert_eq!(used, text.chars().count(), "for {}", text);
        assert_eq!(e, num(value), "for {}", text);
    }
}

#[test]
fn arrays_parse_with_and_without_elements() {
    let (_, e) = langjam_gamejam_lang::expression("[ ]").unwrap();
    assert_eq!(e, Expression::ArrayLiteral(vec![]));
    let (_, e) = langjam_gamejam_lang::expression("[1, 2]").unwrap();
    assert_eq!(e, Expression::ArrayLiteral(vec![num(1.0), num(2.0)]));
}

#[test]
fn sprites_parse_row_major() {
    let (_, e) = langjam_gamejam_lang::expression("sprite { #.\n.# }").unwrap();
    match e {
        Expression::SpriteLiteral(sp) => {
            assert_eq!(sp.width, 2);
            assert_eq!(sp.height, 2);
            assert_eq!(
                sp.pixels,
                vec![Pixel::Filled, Pixel::Clear, Pixel::Clear, Pixel::Filled]
            );
        }
        other => panic!("expected a sprite, got {:?}", other),
    }
}

#[test]
fn statements_parse_each_form() {
    let (_, st) = langjam_gamejam_lang::statement("return;").unwrap();
    assert!(matches!(st, Statement::Return(None)));
    let (_, st) = langjam_gamejam_lang::statement("return 1;").unwrap();
    assert!(matches!(st, Statement::Return(Some(_))));
    let (_, st) = langjam_gamejam_lang::statement("x = 1;").unwrap();
    assert!(matches!(st, Statement::Assignment { .. }));
    let (_, st) = langjam_gamejam_lang::statement("x;").unwrap();
    assert!(matches!(st, Statement::Expression(_)));
    let (_, st) = langjam_gamejam_lang::statement("if (true) { t = 1; }").unwrap();
    assert!(matches!(st, Statement::IfConditional { .. }));
    let (_, st) = langjam_gamejam_lang::statement("each i in (3) { echo i; }").unwrap();
    assert!(matches!(st, Statement::EachLoop { .. }));
}

#[test]
fn equality_statement_is_not_an_assignment() {
    let (_, st) = langjam_gamejam_lang::statement("a == b;").unwrap();
    match st {
        Statement::Expression(Expression::BinaryOperation {
            operator: BinaryOperator::Equals,
            ..
        }) => {}
        other => panic!("expected an equality expression, got {:?}", other),
    }
}

#[test]
fn use_declarations_parse() {
    let (_, d) = langjam_gamejam_lang::declaration("use Other;").unwrap();
    match d {
        Declaration::UseDeclaration { name } => assert_eq!(name, "Other"),
        other => panic!("expected a use declaration, got {:?}", other),
    }
}

#[test]
fn echo_spawn_destroy_parse_as_prefixes() {
    let (_, e) = langjam_gamejam_lang::expression("echo 1").unwrap();
    assert!(matches!(e, Expression::Echo(_)));
    let (_, e) = langjam_gamejam_lang::expression("spawn Foo").unwrap();
    assert!(matches!(e, Expression::SpawnEntity { .. }));
    let (_, e) = langjam_gamejam_lang::expression("destroy x").unwrap();
    assert!(matches!(e, Expression::DestroyEntity(_)));
}

#[test]
fn logical_keywords_need_a_word_boundary() {
    // `b ordinal` holds no `or`: the chain stops at `b`.
    let (used, _) = langjam_gamejam_lang::expression("b ordinal").unwrap();
    assert_eq!(used, 1);
    let (used, _) = langjam_gamejam_lang::expression("a andante").unwrap();
    assert_eq!(used, 1);
    let (used, e) = langjam_gamejam_lang::expression("a or b").unwrap();
    assert_eq!(used, 6);
    assert!(matches!(
        e,
        Expression::BinaryOperation {
            operator: BinaryOperator::Or,
            ..
        }
    ));
}

#[test]
fn comparison_operators_parse() {
    for (text, op) in [
        ("a == b", BinaryOperator::Equals),
        ("a != b", BinaryOperator::NotEquals),
        ("a < b", BinaryOperator::LessThan),
        ("a > b", BinaryOperator::GreaterThan),
        ("a <= b", BinaryOperator::LessThanOrEquals),
        ("a >= b", BinaryOperator::GreaterThanOrEquals),
    ] {
        let (_, e) = langjam_gamejam_lang::expression(text).unwrap();
        match e {
            Expression::BinaryOperation { operator, .. } => {
                assert_eq!(operator, op, "for {}", text)
            }
            other => panic!("expected a comparison for {}, got {:?}", text, other),
        }
    }
}
