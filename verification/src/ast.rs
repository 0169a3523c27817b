//! Plain data types for the language: declarations, statements, expressions,
//! and the two literal payload types (pixel-grid sprites and musical tones).
//!
//! Numbers in the language have IEEE-754 binary64 semantics. Because the
//! verified library does not hold floating-point values directly, every number
//! is carried as its 64-bit IEEE-754 bit pattern (a `u64`); the arithmetic on
//! those patterns lives in `fp`.

use vstd::prelude::*;

verus! {

/// A binary operator of the expression grammar.
///
/// `And`/`Or` short-circuit and require boolean operands; the arithmetic and
/// ordering operators require numeric operands; `Equals`/`NotEquals` compare
/// the full tagged runtime value and accept any operand types.
#[derive(Clone, Copy, Debug, PartialEq, Eq, Structural)]
pub enum BinaryOperator {
    Add,
    Subtract,
    Multiply,
    Divide,

    Equals,
    NotEquals,
    LessThan,
    GreaterThan,
    LessThanOrEquals,
    GreaterThanOrEquals,

    And,
    Or,
}

/// One pixel of a sprite: either part of the drawn shape or background.
#[derive(Clone, Copy, Debug, PartialEq, Eq, Structural)]
pub enum Pixel {
    Clear,
    Filled,
}

/// A fixed-size rectangular grid of pixels, row-major.
#[derive(Clone, Debug, PartialEq, Eq)]
pub struct Sprite {
    pub width: usize,
    pub height: usize,

    /// Row-major: the pixel at column `x` of row `y` sits at index
    /// `y * width + x`.
    pub pixels: Vec<Pixel>,
}

impl Sprite {
    /// A sprite is well formed when its pixel buffer matches its dimensions.
    pub open spec fn wf(&self) -> bool {
        self.pixels@.len() == self.width * self.height
    }
}

/// A musical pitch. The host maps each note to a fixed frequency.
#[derive(Clone, Copy, Debug, PartialEq, Eq, Structural, Hash)]
pub enum Note {
    A,
    B,
    C,
    D,
    E,
    F,
    G,
}

/// The fixed frequency of each note in hertz — A 440, B 493.88, C 261.63,
/// D 293.66, E 329.63, F 349.23, G 392 — as the bit pattern of the IEEE-754
/// binary64 value.
pub open spec fn frequency_bits_of(n: Note) -> u64 {
    match n {
        Note::A => 0x407b800000000000u64,
        Note::B => 0x407ede147ae147aeu64,
        Note::C => 0x40705a147ae147aeu64,
        Note::D => 0x40725a8f5c28f5c3u64,
        Note::E => 0x40749a147ae147aeu64,
        Note::F => 0x4075d3ae147ae148u64,
        Note::G => 0x4078800000000000u64,
    }
}

impl Note {
    /// The note's fixed frequency in hertz, as an IEEE-754 binary64 bit
    /// pattern; a host synthesizing audio reads the pitch from it.
    pub fn frequency_bits(self) -> (r: u64)
        ensures
            r == frequency_bits_of(self),
    {
        match self {
            Note::A => 0x407b800000000000u64,
            Note::B => 0x407ede147ae147aeu64,
            Note::C => 0x40705a147ae147aeu64,
            Note::D => 0x40725a8f5c28f5c3u64,
            Note::E => 0x40749a147ae147aeu64,
            Note::F => 0x4075d3ae147ae148u64,
            Note::G => 0x4078800000000000u64,
        }
    }
}

/// A requested sound: a pitch plus a duration in seconds.
///
/// The duration is an IEEE-754 binary64 value carried as its bit pattern.
#[derive(Clone, Copy, Debug, PartialEq, Eq, Structural)]
pub struct Tone {
    pub note: Note,
    pub duration_bits: u64,
}

/// A top-level or entity-body declaration.
#[derive(Debug, PartialEq)]
pub enum Declaration {
    EntityDeclaration { name: String, body: Vec<Declaration> },
    ConstructorDeclaration { body: Vec<Statement> },
    TickDeclaration { body: Vec<Statement> },
    DrawDeclaration { body: Vec<Statement> },
    InstanceVarDeclaration { names: Vec<String> },
    FunctionDeclaration { name: String, parameters: Vec<String>, body: Vec<Statement> },
    UseDeclaration { name: String },
}

/// A statement of a handler, constructor or function body.
#[derive(Debug, PartialEq)]
pub enum Statement {
    Expression(Expression),
    IfConditional {
        condition: Expression,
        true_body: Vec<Statement>,
        false_body: Option<Vec<Statement>>,
    },
    EachLoop { variable: String, source: Expression, body: Vec<Statement> },
    Assignment { target: Expression, value: Expression },
    Return(Option<Expression>),
}

/// An expression. `NumberLiteral` carries the IEEE-754 binary64 bit pattern
/// of its value.
#[derive(Debug, PartialEq)]
pub enum Expression {
    ThisLiteral,
    NullLiteral,
    NumberLiteral(u64),
    BooleanLiteral(bool),
    ArrayLiteral(Vec<Expression>),
    Identifier(String),
    InstanceVarIdentifier(String),
    SpriteLiteral(Sprite),
    SoundLiteral(Tone),
    FunctionCall { target: Box<Expression>, name: String, arguments: Vec<Expression> },
    BinaryOperation { left: Box<Expression>, right: Box<Expression>, operator: BinaryOperator },
    SpawnEntity { name: String },
    DestroyEntity(Box<Expression>),
    Echo(Box<Expression>),
}

/// The mathematical values of a list of names.
pub open spec fn strvs(s: Seq<String>) -> Seq<Seq<char>> {
    s.map_values(|n: String| n@)
}

/// The mathematical value of a sprite: its dimensions and pixel sequence.
pub struct SpriteV {
    pub width: int,
    pub height: int,
    pub pixels: Seq<Pixel>,
}

impl Sprite {
    /// The mathematical value of this sprite.
    pub open spec fn spec_v(&self) -> SpriteV {
        SpriteV { width: self.width as int, height: self.height as int, pixels: self.pixels@ }
    }
}

/// The mathematical value of a `Declaration`: the same shape over sequences.
pub enum DeclV {
    Entity { name: Seq<char>, body: Seq<DeclV> },
    Constructor { body: Seq<StmtV> },
    Tick { body: Seq<StmtV> },
    Draw { body: Seq<StmtV> },
    InstanceVars { names: Seq<Seq<char>> },
    Function { name: Seq<char>, parameters: Seq<Seq<char>>, body: Seq<StmtV> },
    Use { name: Seq<char> },
}

/// The mathematical value of a `Statement`.
pub enum StmtV {
    Expr(ExprV),
    If { condition: ExprV, true_body: Seq<StmtV>, false_body: Option<Seq<StmtV>> },
    Each { variable: Seq<char>, source: ExprV, body: Seq<StmtV> },
    Assign { target: ExprV, value: ExprV },
    Return(Option<ExprV>),
}

/// The mathematical value of an `Expression`.
pub enum ExprV {
    This,
    Null,
    Number(u64),
    Boolean(bool),
    Array(Seq<ExprV>),
    Ident(Seq<char>),
    IVar(Seq<char>),
    SpriteLit(SpriteV),
    SoundLit(Tone),
    Call { target: Box<ExprV>, name: Seq<char>, arguments: Seq<ExprV> },
    BinaryOp { left: Box<ExprV>, right: Box<ExprV>, operator: BinaryOperator },
    Spawn { name: Seq<char> },
    Destroy(Box<ExprV>),
    Echo(Box<ExprV>),
}

/// The mathematical value of an expression.
pub open spec fn expr_v(e: Expression) -> ExprV
    decreases e,
{
    match e {
        Expression::ThisLiteral => ExprV::This,
        Expression::NullLiteral => ExprV::Null,
        Expression::NumberLiteral(n) => ExprV::Number(n),
        Expression::BooleanLiteral(b) => ExprV::Boolean(b),
        Expression::ArrayLiteral(items) => ExprV::Array(exprs_v(items@)),
        Expression::Identifier(id) => ExprV::Ident(id@),
        Expression::InstanceVarIdentifier(id) => ExprV::IVar(id@),
        Expression::SpriteLiteral(s) => ExprV::SpriteLit(s.spec_v()),
        Expression::SoundLiteral(t) => ExprV::SoundLit(t),
        Expression::FunctionCall { target, name, arguments } => ExprV::Call {
            target: Box::new(expr_v(*target)),
            name: name@,
            arguments: exprs_v(arguments@),
        },
        Expression::BinaryOperation { left, right, operator } => ExprV::BinaryOp {
            left: Box::new(expr_v(*left)),
            right: Box::new(expr_v(*right)),
            operator,
        },
        Expression::SpawnEntity { name } => ExprV::Spawn { name: name@ },
        Expression::DestroyEntity(t) => ExprV::Destroy(Box::new(expr_v(*t))),
        Expression::Echo(t) => ExprV::Echo(Box::new(expr_v(*t))),
    }
}

/// The mathematical values of a sequence of expressions.
pub open spec fn exprs_v(s: Seq<Expression>) -> Seq<ExprV>
    decreases s,
{
    if s.len() == 0 {
        Seq::empty()
    } else {
        exprs_v(s.subrange(0, s.len() - 1)).push(expr_v(s[s.len() - 1]))
    }
}

/// The mathematical value of a statement.
pub open spec fn stmt_v(s: Statement) -> StmtV
    decreases s,
{
    match s {
        Statement::Expression(e) => StmtV::Expr(expr_v(e)),
        Statement::IfConditional { condition, true_body, false_body } => StmtV::If {
            condition: expr_v(condition),
            true_body: stmts_v(true_body@),
            false_body: match false_body {
                Some(b) => Some(stmts_v(b@)),
                None => None,
            },
        },
        Statement::EachLoop { variable, source, body } => StmtV::Each {
            variable: variable@,
            source: expr_v(source),
            body: stmts_v(body@),
        },
        Statement::Assignment { target, value } => StmtV::Assign {
            target: expr_v(target),
            value: expr_v(value),
        },
        Statement::Return(e) => StmtV::Return(
            match e {
                Some(e) => Some(expr_v(e)),
                None => None,
            },
        ),
    }
}

/// The mathematical values of a sequence of statements.
pub open spec fn stmts_v(s: Seq<Statement>) -> Seq<StmtV>
    decreases s,
{
    if s.len() == 0 {
        Seq::empty()
    } else {
        stmts_v(s.subrange(0, s.len() - 1)).push(stmt_v(s[s.len() - 1]))
    }
}

/// The mathematical value of a declaration.
pub open spec fn decl_v(d: Declaration) -> DeclV
    decreases d,
{
    match d {
        Declaration::EntityDeclaration { name, body } => DeclV::Entity {
            name: name@,
            body: decls_v(body@),
        },
        Declaration::ConstructorDeclaration { body } => DeclV::Constructor { body: stmts_v(body@) },
        Declaration::TickDeclaration { body } => DeclV::Tick { body: stmts_v(body@) },
        Declaration::DrawDeclaration { body } => DeclV::Draw { body: stmts_v(body@) },
        Declaration::InstanceVarDeclaration { names } => DeclV::InstanceVars {
            names: strvs(names@),
        },
        Declaration::FunctionDeclaration { name, parameters, body } => DeclV::Function {
            name: name@,
            parameters: strvs(parameters@),
            body: stmts_v(body@),
        },
        Declaration::UseDeclaration { name } => DeclV::Use { name: name@ },
    }
}

/// The mathematical values of a sequence of declarations.
pub open spec fn decls_v(s: Seq<Declaration>) -> Seq<DeclV>
    decreases s,
{
    if s.len() == 0 {
        Seq::empty()
    } else {
        decls_v(s.subrange(0, s.len() - 1)).push(decl_v(s[s.len() - 1]))
    }
}

pub broadcast proof fn lemma_exprs_v(s: Seq<Expression>)
    ensures
        (#[trigger] exprs_v(s)).len() == s.len(),
        forall|i: int| 0 <= i < s.len() ==> exprs_v(s)[i] == expr_v(s[i]),
    decreases s,
{
    if s.len() != 0 {
        lemma_exprs_v(s.subrange(0, s.len() - 1));
    }
}

pub broadcast proof fn lemma_stmts_v(s: Seq<Statement>)
    ensures
        (#[trigger] stmts_v(s)).len() == s.len(),
        forall|i: int| 0 <= i < s.len() ==> stmts_v(s)[i] == stmt_v(s[i]),
    decreases s,
{
    if s.len() != 0 {
        lemma_stmts_v(s.subrange(0, s.len() - 1));
    }
}

pub broadcast proof fn lemma_decls_v(s: Seq<Declaration>)
    ensures
        (#[trigger] decls_v(s)).len() == s.len(),
        forall|i: int| 0 <= i < s.len() ==> decls_v(s)[i] == decl_v(s[i]),
    decreases s,
{
    if s.len() != 0 {
        lemma_decls_v(s.subrange(0, s.len() - 1));
    }
}

/// The element-wise facts about the view sequences, available together.
pub broadcast group group_ast_views {
    lemma_exprs_v,
    lemma_stmts_v,
    lemma_decls_v,
}

impl Expression {
    /// A deep copy: the same mathematical value.
    pub fn dup(&self) -> (r: Expression)
        ensures
            expr_v(r) == expr_v(*self),
        decreases *self, 1int,
    {
        match self {
            Expression::ThisLiteral => Expression::ThisLiteral,
            Expression::NullLiteral => Expression::NullLiteral,
            Expression::NumberLiteral(n) => Expression::NumberLiteral(*n),
            Expression::BooleanLiteral(b) => Expression::BooleanLiteral(*b),
            Expression::ArrayLiteral(items) => {
                proof {
                    assert(decreases_to!(*self => self->ArrayLiteral_0));
                }
                Expression::ArrayLiteral(dup_exprs_rec(items, Ghost(*self)))
            },
            Expression::Identifier(id) => Expression::Identifier(id.clone()),
            Expression::InstanceVarIdentifier(id) => Expression::InstanceVarIdentifier(id.clone()),
            Expression::SpriteLiteral(s) => Expression::SpriteLiteral(
                Sprite { width: s.width, height: s.height, pixels: s.pixels.clone() },
            ),
            Expression::SoundLiteral(t) => Expression::SoundLiteral(*t),
            Expression::FunctionCall { target, name, arguments } => {
                proof {
                    assert(decreases_to!(*self => self->FunctionCall_target));
                    assert(decreases_to!(*self => self->FunctionCall_arguments));
                }
                Expression::FunctionCall {
                    target: Box::new(target.dup()),
                    name: name.clone(),
                    arguments: dup_exprs_rec(arguments, Ghost(*self)),
                }
            },
            Expression::BinaryOperation { left, right, operator } => {
                proof {
                    assert(decreases_to!(*self => self->BinaryOperation_left));
                    assert(decreases_to!(*self => self->BinaryOperation_right));
                }
                Expression::BinaryOperation {
                    left: Box::new(left.dup()),
                    right: Box::new(right.dup()),
                    operator: *operator,
                }
            },
            Expression::SpawnEntity { name } => Expression::SpawnEntity { name: name.clone() },
            Expression::DestroyEntity(t) => {
                proof {
                    assert(decreases_to!(*self => self->DestroyEntity_0));
                }
                Expression::DestroyEntity(Box::new(t.dup()))
            },
            Expression::Echo(t) => {
                proof {
                    assert(decreases_to!(*self => self->Echo_0));
                }
                Expression::Echo(Box::new(t.dup()))
            },
        }
    }
}

/// A deep copy of a vector of expressions, bounded by an enclosing expression
/// for termination.
fn dup_exprs_rec(v: &Vec<Expression>, parent: Ghost<Expression>) -> (r: Vec<Expression>)
    requires
        decreases_to!(parent@ => v@),
    ensures
        exprs_v(r@) == exprs_v(v@),
    decreases parent@, 0int,
{
    let mut out: Vec<Expression> = Vec::new();
    let mut i: usize = 0;
    while i < v.len()
        invariant
            decreases_to!(parent@ => v@),
            i <= v@.len(),
            out@.len() == i,
            forall|j: int| 0 <= j < i ==> expr_v(out@[j]) == expr_v(v@[j]),
        decreases v@.len() - i,
    {
        proof {
            assert(decreases_to!(v@ => v@[i as int]));
        }
        let d = v[i].dup();
        out.push(d);
        i += 1;
    }
    proof {
        lemma_exprs_v(out@);
        lemma_exprs_v(v@);
        assert(exprs_v(out@) =~= exprs_v(v@));
    }
    out
}

impl Statement {
    /// A deep copy: the same mathematical value.
    pub fn dup(&self) -> (r: Statement)
        ensures
            stmt_v(r) == stmt_v(*self),
        decreases *self, 1int,
    {
        match self {
            Statement::Expression(e) => Statement::Expression(e.dup()),
            Statement::IfConditional { condition, true_body, false_body } => {
                proof {
                    assert(decreases_to!(*self => self->IfConditional_true_body));
                    assert(decreases_to!(*self => self->IfConditional_false_body));
                }
                Statement::IfConditional {
                    condition: condition.dup(),
                    true_body: dup_stmts_rec(true_body, Ghost(*self)),
                    false_body: match false_body {
                        Some(b) => {
                            proof {
                                assert(decreases_to!(
                                    self->IfConditional_false_body => self->IfConditional_false_body->0));
                            }
                            Some(dup_stmts_rec(b, Ghost(*self)))
                        },
                        None => None,
                    },
                }
            },
            Statement::EachLoop { variable, source, body } => {
                proof {
                    assert(decreases_to!(*self => self->EachLoop_body));
                }
                Statement::EachLoop {
                    variable: variable.clone(),
                    source: source.dup(),
                    body: dup_stmts_rec(body, Ghost(*self)),
                }
            },
            Statement::Assignment { target, value } => Statement::Assignment {
                target: target.dup(),
                value: value.dup(),
            },
            Statement::Return(e) => Statement::Return(
                match e {
                    Some(e) => Some(e.dup()),
                    None => None,
                },
            ),
        }
    }
}

/// A deep copy of a vector of statements, bounded by an enclosing statement
/// for termination.
fn dup_stmts_rec(v: &Vec<Statement>, parent: Ghost<Statement>) -> (r: Vec<Statement>)
    requires
        decreases_to!(parent@ => v@),
    ensures
        stmts_v(r@) == stmts_v(v@),
    decreases parent@, 0int,
{
    let mut out: Vec<Statement> = Vec::new();
    let mut i: usize = 0;
    while i < v.len()
        invariant
            decreases_to!(parent@ => v@),
            i <= v@.len(),
            out@.len() == i,
            forall|j: int| 0 <= j < i ==> stmt_v(out@[j]) == stmt_v(v@[j]),
        decreases v@.len() - i,
    {
        proof {
            assert(decreases_to!(v@ => v@[i as int]));
        }
        let d = v[i].dup();
        out.push(d);
        i += 1;
    }
    proof {
        lemma_stmts_v(out@);
        lemma_stmts_v(v@);
        assert(stmts_v(out@) =~= stmts_v(v@));
    }
    out
}

/// A deep copy of a vector of statements.
pub fn dup_stmt_vec(v: &Vec<Statement>) -> (r: Vec<Statement>)
    ensures
        stmts_v(r@) == stmts_v(v@),
{
    let mut out: Vec<Statement> = Vec::new();
    let mut i: usize = 0;
    while i < v.len()
        invariant
            i <= v@.len(),
            out@.len() == i,
            forall|j: int| 0 <= j < i ==> stmt_v(out@[j]) == stmt_v(v@[j]),
        decreases v@.len() - i,
    {
        let d = v[i].dup();
        out.push(d);
        i += 1;
    }
    proof {
        lemma_stmts_v(out@);
        lemma_stmts_v(v@);
        assert(stmts_v(out@) =~= stmts_v(v@));
    }
    out
}

/// A copy of a vector of names.
pub fn dup_string_vec(v: &Vec<String>) -> (r: Vec<String>)
    ensures
        r@ == v@,
{
    let mut out: Vec<String> = Vec::new();
    let mut i: usize = 0;
    while i < v.len()
        invariant
            i <= v@.len(),
            out@.len() == i,
            forall|j: int| 0 <= j < i ==> out@[j] == v@[j],
        decreases v@.len() - i,
    {
        out.push(v[i].clone());
        i += 1;
    }
    proof {
        assert(out@ =~= v@);
    }
    out
}

} // verus!
