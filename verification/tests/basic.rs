//! The core interpreter workout: declarations folded by hand, an entity
//! spawned from the top-level constructor, and a user function called twice.

use langjam_gamejam_lang::{
    BinaryOperator, Declaration, Expression, Interpreter, Object, Statement,
};

fn num(f: f64) -> Expression {
    Expression::NumberLiteral(f.to_bits())
}

#[test]
fn test_basic_interpreter() {
    let mut interpreter = Interpreter::new();

    interpreter
        .interpret_declaration(Declaration::EntityDeclaration {
            name: "Player".to_owned(),
            body: vec![
                Declaration::InstanceVarDeclaration {
                    names: vec!["score".to_owned()],
                },
                Declaration::ConstructorDeclaration {
                    body: vec![Statement::Assignment {
                        target: Expression::InstanceVarIdentifier("score".to_owned()),
                        value: num(0.0),
                    }],
                },
                Declaration::FunctionDeclaration {
                    name: "complete_objective".to_owned(),
                    parameters: vec![],
                    body: vec![Statement::Assignment {
                        target: Expression::InstanceVarIdentifier("score".to_owned()),
                        value: Expression::BinaryOperation {
                            left: Box::new(Expression::InstanceVarIdentifier(
                                "score".to_owned(),
                            )),
                            right: Box::new(num(1.0)),
                            operator: BinaryOperator::Add,
                        },
                    }],
                },
            ],
        })
        .unwrap();

    interpreter
        .interpret_declaration(Declaration::ConstructorDeclaration {
            body: vec![
                Statement::Assignment {
                    target: Expression::Identifier("plyr".to_owned()),
                    value: Expression::SpawnEntity {
                        name: "Player".to_owned(),
                    },
                },
                Statement::Expression(Expression::FunctionCall {
                    target: Box::new(Expression::Identifier("plyr".to_owned())),
                    name: "complete_objective".to_owned(),
                    arguments: vec![],
                }),
                Statement::Expression(Expression::FunctionCall {
                    target: Box::new(Expression::Identifier("plyr".to_owned())),
                    name: "complete_objective".to_owned(),
                    arguments: vec![],
                }),
            ],
        })
        .unwrap();

    interpreter.execute_init().unwrap();

    let entities = interpreter.entities();
    assert_eq!(entities.len(), 1);

    let player = &entities[0];
    assert_eq!(player.ivars.len(), 1);
    assert_eq!(player.get_ivar("score"), Some(Object::Number(2.0f64.to_bits())));
}

#[test]
fn score_reads_zero_right_after_init() {
    let decls = langjam_gamejam_lang::parse(
        "entity Player {\n  var @score;\n  constructor { @score = 0; }\n}\nconstructor { p = spawn Player; }\n",
    )
    .unwrap();
    let mut it = Interpreter::with_declarations(decls).unwrap();
    it.execute_init().unwrap();
    assert_eq!(it.entities().len(), 1);
    assert_eq!(
        it.entities()[0].get_ivar("score"),
        Some(Object::Number(0.0f64.to_bits()))
    );
}
