//! End-to-end behavior of the language runtime: uniqueness of declarations,
//! entity lifecycle and deferred destruction, the draw and sound contracts,
//! arithmetic and logic, and the each-loop range.

use langjam_gamejam_lang::{
    parse, Declaration, DisplayConfig, Expression, Frame, InputReport, Interpreter, Note, Object,
    Statement, Tone, EVAL_FUEL,
};

fn load(src: &str) -> Interpreter {
    Interpreter::with_declarations(parse(src).unwrap()).unwrap()
}

#[test]
fn duplicate_entity_names_are_rejected() {
    let decls = parse("entity A {}\nentity A {}\n").unwrap();
    assert!(Interpreter::with_declarations(decls).is_err());
}

#[test]
fn duplicate_instance_variables_are_rejected() {
    let decls = parse("entity A { var @x; var @x; }\n").unwrap();
    assert!(Interpreter::with_declarations(decls).is_err());
}

#[test]
fn duplicate_functions_are_rejected() {
    let decls = parse("entity A { func f() {} func f() {} }\n").unwrap();
    assert!(Interpreter::with_declarations(decls).is_err());
}

#[test]
fn second_draw_handler_is_rejected() {
    let decls = parse("entity A { draw {} draw {} }\n").unwrap();
    assert!(Interpreter::with_declarations(decls).is_err());
}

#[test]
fn use_merge_with_two_draw_handlers_is_rejected() {
    let decls = parse("entity A { draw {} }\nentity B { draw {} use A; }\n").unwrap();
    assert!(Interpreter::with_declarations(decls).is_err());
}

#[test]
fn use_merges_functions_and_ivars() {
    let mut it = load(
        "entity Mixin {\n  var @hp;\n  constructor { @hp = 7; }\n  func heal() { @hp = @hp + 1; }\n}\nentity A {\n  use Mixin;\n  constructor { this.heal(); }\n}\nconstructor { a = spawn A; }\n",
    );
    it.execute_init().unwrap();
    assert_eq!(it.entities().len(), 1);
    assert_eq!(
        it.entities()[0].get_ivar("hp"),
        Some(Object::Number(8.0f64.to_bits()))
    );
}

#[test]
fn use_imported_constructor_runs_first() {
    // The imported kind's constructor body runs before the target's own,
    // so the target's assignment lands last.
    let mut it = load(
        "entity M { var @v; constructor { @v = 2; } }\nentity A { constructor { @v = 1; } use M; }\nconstructor { a = spawn A; }\n",
    );
    it.execute_init().unwrap();
    assert_eq!(
        it.entities()[0].get_ivar("v"),
        Some(Object::Number(1.0f64.to_bits()))
    );
}

#[test]
fn second_tick_declaration_is_rejected() {
    let decls = parse("entity A { tick { x = 1; } tick { x = 2; } }\n").unwrap();
    assert!(Interpreter::with_declarations(decls).is_err());
}

#[test]
fn second_constructor_declaration_is_rejected() {
    let decls =
        parse("entity A { constructor { x = 1; } constructor { x = 2; } }\n").unwrap();
    assert!(Interpreter::with_declarations(decls).is_err());
}

#[test]
fn tick_merged_through_use_concatenates_with_a_direct_one() {
    // A direct handler plus a merged one is not a duplicate declaration:
    // the imported body runs first, then the kind's own.
    let mut it = load(
        "entity M { var @n; constructor { @n = 0; } tick { @n = @n + 1; } }\nentity A {\n  use M;\n  tick { @n = @n + 10; }\n}\nconstructor { a = spawn A; }\n",
    );
    it.execute_init().unwrap();
    it.execute_tick().unwrap();
    assert_eq!(
        it.entities()[0].get_ivar("n"),
        Some(Object::Number(11.0f64.to_bits()))
    );
}

#[test]
fn use_with_a_colliding_instance_variable_is_rejected() {
    let decls = parse("entity M { var @x; }\nentity A { var @x; use M; }\n").unwrap();
    assert!(Interpreter::with_declarations(decls).is_err());
}

#[test]
fn tick_declarations_outside_entities_are_rejected() {
    let decls = parse("tick {}\n").unwrap();
    assert!(Interpreter::with_declarations(decls).is_err());
}

#[test]
fn second_top_level_constructor_is_rejected() {
    let decls = parse("constructor { x = 1; }\nconstructor { y = 2; }\n").unwrap();
    assert!(Interpreter::with_declarations(decls).is_err());
}

#[test]
fn second_top_level_constructor_is_rejected_even_after_an_empty_one() {
    // An empty first constructor still counts as declared: the second may
    // not replace it.
    let decls = parse("constructor {}\nconstructor { y = 2; }\n").unwrap();
    assert!(Interpreter::with_declarations(decls).is_err());
}

#[test]
fn destroyed_entity_stays_readable_until_the_sweep() {
    // A destroys every B during its tick, then reads B back: the ivars must
    // still answer. By the next tick, B is gone from the registry.
    let mut it = load(
        "entity B { var @tag; constructor { @tag = 5; } }\nentity A {\n  tick {\n    each b in (B.all()) {\n      destroy b;\n      echo b;\n    }\n  }\n}\nconstructor { a = spawn A; b = spawn B; }\n",
    );
    it.execute_init().unwrap();
    assert_eq!(it.entities().len(), 2);
    it.execute_tick().unwrap();
    let lines = it.take_echoes();
    assert_eq!(lines.len(), 1);
    // Still described as a live entity, with its instance variables.
    assert!(lines[0].starts_with("Entity B ("), "echoed: {}", lines[0]);
    assert!(!lines[0].contains("destroyed"));
    // After the sweep, only A remains.
    assert_eq!(it.entities().len(), 1);
    it.execute_tick().unwrap();
    assert_eq!(it.take_echoes().len(), 0);
}

#[test]
fn stale_handles_read_as_destroyed() {
    let mut it = load(
        "entity B {}\nentity A {\n  var @friend;\n  constructor { @friend = spawn B; }\n  tick { destroy @friend; }\n  draw { echo @friend; return null; }\n}\nconstructor { a = spawn A; }\n",
    );
    it.execute_init().unwrap();
    it.execute_tick().unwrap();
    it.execute_draw().unwrap();
    let lines = it.take_echoes();
    assert_eq!(lines, vec!["destroyed entity".to_owned()]);
}

#[test]
fn draw_returning_non_sprite_fails() {
    let mut it = load("entity A { draw { return 3; } }\nconstructor { a = spawn A; }\n");
    it.execute_init().unwrap();
    assert!(it.execute_draw().is_err());
}

#[test]
fn draw_returning_sprite_uses_position_ivars() {
    let mut it = load(
        "entity A {\n  var @x, @y;\n  constructor { @x = 2; @y = 3; }\n  draw { return sprite { ##\n.# }; }\n}\nconstructor { a = spawn A; }\n",
    );
    it.execute_init().unwrap();
    let ops = it.execute_draw().unwrap();
    assert_eq!(ops.len(), 1);
    assert_eq!(ops[0].x_bits, 2.0f64.to_bits());
    assert_eq!(ops[0].y_bits, 3.0f64.to_bits());
    assert_eq!(ops[0].sprite.width, 2);
    assert_eq!(ops[0].sprite.height, 2);
}

#[test]
fn draw_without_position_ivars_fails() {
    let mut it = load(
        "entity A { draw { return sprite { # }; } }\nconstructor { a = spawn A; }\n",
    );
    it.execute_init().unwrap();
    assert!(it.execute_draw().is_err());
}

#[test]
fn sound_from_constructor_fails() {
    // The surface grammar has no tone literal, so the constructor body is
    // built directly; playing during initialization fails the init phase.
    let mut it = Interpreter::new();
    it.interpret_declaration(Declaration::EntityDeclaration {
        name: "A".to_owned(),
        body: vec![Declaration::ConstructorDeclaration {
            body: vec![play_stmt()],
        }],
    })
    .unwrap();
    it.interpret_declaration(Declaration::ConstructorDeclaration {
        body: vec![Statement::Expression(Expression::SpawnEntity {
            name: "A".to_owned(),
        })],
    })
    .unwrap();
    assert!(it.execute_init().is_err());
}

#[test]
fn note_frequencies_match_the_fixed_table() {
    for (note, hz) in [
        (Note::A, 440.0f64),
        (Note::B, 493.88),
        (Note::C, 261.63),
        (Note::D, 293.66),
        (Note::E, 329.63),
        (Note::F, 349.23),
        (Note::G, 392.0),
    ] {
        assert_eq!(note.frequency_bits(), hz.to_bits());
    }
}

#[test]
fn runtime_errors_display_with_the_standard_prefix() {
    let mut it = load("constructor { x = null.play(); }\n");
    let e = it.execute_init().unwrap_err();
    assert!(e.display_string().starts_with("runtime error: "), "{}", e.display_string());
}

#[test]
fn nested_constant_arithmetic_evaluates() {
    // 2 + 3 == 5 groups as (2 + 3) == 5 and must succeed and be true; the
    // guarded echo proves it ran.
    let mut it = load("constructor { x = 2 + 3 == 5; if (x) { echo 7; } }\n");
    it.execute_init().unwrap();
    assert_eq!(it.take_echoes().len(), 1);
}

#[test]
fn division_by_zero_is_infinity_not_an_error() {
    let mut it = load("constructor { x = 1 / 0; if (x > 100) { echo 1; } }\n");
    it.execute_init().unwrap();
    assert_eq!(it.take_echoes().len(), 1);
}

#[test]
fn play_on_a_non_sound_fails() {
    let mut it = load("constructor { x = null.play(); }\n");
    assert!(it.execute_init().is_err());
}

fn play_stmt() -> Statement {
    Statement::Expression(Expression::FunctionCall {
        target: Box::new(Expression::SoundLiteral(Tone {
            note: Note::C,
            duration_bits: 0.25f64.to_bits(),
        })),
        name: "play".to_owned(),
        arguments: vec![],
    })
}

#[test]
fn sound_gating_and_single_delivery() {
    let tone = Tone {
        note: Note::C,
        duration_bits: 0.25f64.to_bits(),
    };
    // Playing from a draw handler fails the draw phase.
    let mut it = Interpreter::new();
    it.interpret_declaration(Declaration::EntityDeclaration {
        name: "A".to_owned(),
        body: vec![Declaration::DrawDeclaration {
            body: vec![play_stmt()],
        }],
    })
    .unwrap();
    it.interpret_declaration(Declaration::ConstructorDeclaration {
        body: vec![Statement::Expression(Expression::SpawnEntity {
            name: "A".to_owned(),
        })],
    })
    .unwrap();
    it.execute_init().unwrap();
    assert!(it.execute_draw().is_err());

    // Playing from a tick handler delivers the tone exactly once.
    let mut it = Interpreter::new();
    it.interpret_declaration(Declaration::EntityDeclaration {
        name: "A".to_owned(),
        body: vec![Declaration::TickDeclaration { body: vec![play_stmt()] }],
    })
    .unwrap();
    it.interpret_declaration(Declaration::ConstructorDeclaration {
        body: vec![Statement::Expression(Expression::SpawnEntity {
            name: "A".to_owned(),
        })],
    })
    .unwrap();
    it.execute_init().unwrap();
    let sounds = it.execute_tick().unwrap();
    assert_eq!(sounds, vec![tone]);
    // Re-enqueued each tick by this handler; a kindless interpreter clears
    // the queue between ticks, so exactly one again.
    let sounds = it.execute_tick().unwrap();
    assert_eq!(sounds, vec![tone]);
}

#[test]
fn arithmetic_adds_and_compares() {
    let mut it = load("constructor { echo 2 + 3 == 5; }\n");
    it.execute_init().unwrap();
    assert_eq!(it.take_echoes(), vec!["true".to_owned()]);
}

#[test]
fn subtraction_and_multiplication_answer() {
    let mut it = load("constructor { echo 5 - 3 == 2; echo 6 * 7; }\n");
    it.execute_init().unwrap();
    assert_eq!(it.take_echoes(), vec!["true".to_owned(), "42".to_owned()]);
}

#[test]
fn logical_and_short_circuits() {
    // `q` is never defined; reading it would be an error, but the false
    // left side short-circuits before the right side is evaluated.
    let mut it = load("constructor { echo false and q; }\n");
    it.execute_init().unwrap();
    assert_eq!(it.take_echoes(), vec!["false".to_owned()]);
}

#[test]
fn logical_or_short_circuits() {
    let mut it = load("constructor { echo true or q; }\n");
    it.execute_init().unwrap();
    assert_eq!(it.take_echoes(), vec!["true".to_owned()]);
}

#[test]
fn division_by_zero_gives_infinity() {
    let mut it = load(
        "entity A { var @v; constructor { @v = 1 / 0; } }\nconstructor { a = spawn A; }\n",
    );
    it.execute_init().unwrap();
    assert_eq!(
        it.entities()[0].get_ivar("v"),
        Some(Object::Number(f64::INFINITY.to_bits()))
    );
}

#[test]
fn each_loop_echoes_the_range_in_order() {
    let mut it = load("constructor { each i in (3) { echo i; } }\n");
    it.execute_init().unwrap();
    assert_eq!(
        it.take_echoes(),
        vec!["0".to_owned(), "1".to_owned(), "2".to_owned()]
    );
}

#[test]
fn each_loop_rounds_its_numeric_source() {
    let mut it = load("constructor { n = 0; each i in (2.9) { n = n + 1; } echo n; }\n");
    it.execute_init().unwrap();
    assert_eq!(it.take_echoes(), vec!["3".to_owned()]);
}

#[test]
fn each_loop_variable_leaks_into_the_frame() {
    let mut it = load("constructor { each i in (3) { t = i; } echo i; }\n");
    it.execute_init().unwrap();
    assert_eq!(it.take_echoes(), vec!["2".to_owned()]);
}

#[test]
fn each_loop_over_array_and_equality() {
    let mut it = load("constructor { each x in ([5, 6]) { echo x == 5; } }\n");
    it.execute_init().unwrap();
    assert_eq!(it.take_echoes(), vec!["true".to_owned(), "false".to_owned()]);
}

#[test]
fn if_requires_a_boolean() {
    let mut it = load("constructor { if (1) { t = 1; } }\n");
    assert!(it.execute_init().is_err());
}

#[test]
fn undefined_identifier_read_fails() {
    let mut it = load("constructor { missing; }\n");
    assert!(it.execute_init().is_err());
}

#[test]
fn undeclared_instance_variable_fails() {
    let mut it = load(
        "entity A { constructor { @nope = 1; } }\nconstructor { a = spawn A; }\n",
    );
    assert!(it.execute_init().is_err());
}

#[test]
fn destroy_of_non_entity_fails() {
    let mut it = load("constructor { destroy 5; }\n");
    assert!(it.execute_init().is_err());
}

#[test]
fn arity_mismatch_fails() {
    let mut it = load(
        "entity A { func f(a) {} constructor { this.f(); } }\nconstructor { a = spawn A; }\n",
    );
    assert!(it.execute_init().is_err());
}

#[test]
fn unknown_method_fails() {
    let mut it = load("constructor { x = [1].nope(); }\n");
    assert!(it.execute_init().is_err());
}

#[test]
fn spawn_of_unknown_kind_fails() {
    let mut it = load("constructor { a = spawn Nothing; }\n");
    assert!(it.execute_init().is_err());
}

#[test]
fn display_and_input_builtins_answer() {
    let mut it = load(
        "constructor { echo Display.width(); echo Input.up_pressed(); echo Input.z_pressed(); }\n",
    );
    it.update_display_config(DisplayConfig {
        width: 64,
        height: 48,
    });
    it.update_input_report(InputReport {
        up: true,
        down: false,
        left: false,
        right: false,
        x: false,
        z: false,
    });
    it.execute_init().unwrap();
    assert_eq!(
        it.take_echoes(),
        vec!["64".to_owned(), "true".to_owned(), "false".to_owned()]
    );
}

#[test]
fn math_random_int_stays_in_range() {
    let mut it = load(
        "constructor { each i in (20) { n = Math.random_int(3, 5); ok = n >= 3 and n <= 5; echo ok; } }\n",
    );
    it.execute_init().unwrap();
    for line in it.take_echoes() {
        assert_eq!(line, "true");
    }
}

#[test]
fn math_random_int_rejects_an_empty_range() {
    let mut it = load("constructor { n = Math.random_int(5, 2); }\n");
    assert!(it.execute_init().is_err());
}

#[test]
fn all_returns_every_live_entity_of_the_kind() {
    let mut it = load(
        "entity B {}\nentity A {}\nconstructor {\n  x = spawn B; y = spawn B; z = spawn A;\n  n = 0;\n  each b in (B.all()) { n = n + 1; }\n  echo n;\n}\n",
    );
    it.execute_init().unwrap();
    assert_eq!(it.take_echoes(), vec!["2".to_owned()]);
}

#[test]
fn spawn_by_name_registers_an_entity() {
    let mut it = load("entity A { var @hp; constructor { @hp = 1; } }\n");
    let id = it.spawn("A", EVAL_FUEL).unwrap();
    assert_eq!(it.entities().len(), 1);
    assert_eq!(it.entities()[0].id, id);
    assert!(it.spawn("Nope", EVAL_FUEL).is_err());
}

#[test]
fn expressions_evaluate_against_a_frame() {
    let mut it = Interpreter::new();
    let mut frame = Frame::new_for(None);
    let (_, e) = langjam_gamejam_lang::expression("2 * 21").unwrap();
    let v = it.interpret_expression(&e, &mut frame, EVAL_FUEL).unwrap();
    assert_eq!(v.read().unwrap(), Object::Number(42.0f64.to_bits()));
}

#[test]
fn ordering_comparisons_answer() {
    let mut it = load("constructor { echo 1 < 2; echo 2 > 1; echo 2 <= 1; echo 1 >= 1; }\n");
    it.execute_init().unwrap();
    assert_eq!(
        it.take_echoes(),
        vec![
            "true".to_owned(),
            "true".to_owned(),
            "false".to_owned(),
            "true".to_owned()
        ]
    );
}

#[test]
fn sprite_methods_answer_their_dimensions() {
    let mut it = load("constructor { s = sprite { ###\n... }; echo s.width(); echo s.height(); }\n");
    it.execute_init().unwrap();
    assert_eq!(it.take_echoes(), vec!["3".to_owned(), "2".to_owned()]);
}
