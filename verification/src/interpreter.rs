//! The interpreter: entity kind templates, the live-entity registry, frames,
//! the lvalue/rvalue abstraction, and the tree-walking evaluator.

use vstd::prelude::*;
use vstd::string::StringExecFns;

use crate::ast::{
    decl_v, decls_v, dup_stmt_vec, dup_string_vec, expr_v, exprs_v, stmt_v, stmts_v, strvs,
    BinaryOperator, Declaration, DeclV, Expression, ExprV, Sprite, SpriteV, Statement, StmtV,
};
use crate::fp::{add_bits, div_bits, eq_bits, le_bits, lt_bits, mul_bits, sub_bits};
use crate::object::{obj_v, objs_v, EntityId, ObjV, Object};
use crate::text::{concat2, concat3, str_eq};

verus! {

/// A user function declared on an entity kind.
pub struct FunctionDeclaration {
    pub name: String,
    pub parameters: Vec<String>,
    pub body: Vec<Statement>,
}

/// The mathematical value of a user function declaration.
#[verifier::ext_equal]
pub struct FunV {
    pub name: Seq<char>,
    pub parameters: Seq<Seq<char>>,
    pub body: Seq<StmtV>,
}

/// The mathematical value of a function declaration.
pub open spec fn fun_v(f: FunctionDeclaration) -> FunV {
    FunV { name: f.name@, parameters: strvs(f.parameters@), body: stmts_v(f.body@) }
}

/// An entity definition which can be instantiated.
///
/// Kinds are built once, during declaration folding, and never change at
/// runtime; instances refer to their kind by its index in the program's kind
/// table.
pub struct EntityKind {
    pub name: String,
    pub functions: Vec<FunctionDeclaration>,
    pub constructor: Option<Vec<Statement>>,
    pub tick_handler: Option<Vec<Statement>>,
    pub draw_handler: Option<Vec<Statement>>,
    pub ivars: Vec<String>,
    /// Whether a `constructor { ... }` was declared directly on this kind;
    /// a second direct declaration is rejected, while a `use` merge may
    /// concatenate an imported body.
    pub constructor_declared: bool,
    /// Whether a `tick { ... }` was declared directly on this kind.
    pub tick_declared: bool,
}

/// The mathematical value of an entity kind.
#[verifier::ext_equal]
pub struct KindV {
    pub name: Seq<char>,
    pub functions: Seq<FunV>,
    pub constructor: Option<Seq<StmtV>>,
    pub tick_handler: Option<Seq<StmtV>>,
    pub draw_handler: Option<Seq<StmtV>>,
    pub ivars: Seq<Seq<char>>,
    pub constructor_declared: bool,
    pub tick_declared: bool,
}

/// The mathematical value of an entity kind.
pub open spec fn kind_v(k: EntityKind) -> KindV {
    KindV {
        name: k.name@,
        functions: funvs(k.functions@),
        constructor: match k.constructor {
            Some(b) => Some(stmts_v(b@)),
            None => None,
        },
        tick_handler: match k.tick_handler {
            Some(b) => Some(stmts_v(b@)),
            None => None,
        },
        draw_handler: match k.draw_handler {
            Some(b) => Some(stmts_v(b@)),
            None => None,
        },
        ivars: strvs(k.ivars@),
        constructor_declared: k.constructor_declared,
        tick_declared: k.tick_declared,
    }
}

/// A specific instance of an entity: its id, the index of its kind, and its
/// instance-variable values, keyed by name.
pub struct Entity {
    pub id: EntityId,
    pub kind: usize,
    pub ivars: Vec<(String, Object)>,
}

/// The mathematical value of an association list of named objects.
pub open spec fn assoc_v(l: Seq<(String, Object)>) -> Seq<(Seq<char>, ObjV)> {
    l.map_values(|p: (String, Object)| (p.0@, obj_v(p.1)))
}

/// The mathematical value of an entity.
#[verifier::ext_equal]
pub struct EntityV {
    pub id: u64,
    pub kind: int,
    pub ivars: Seq<(Seq<char>, ObjV)>,
}

/// The mathematical value of an entity.
pub open spec fn entity_v(e: Entity) -> EntityV {
    EntityV { id: e.id.0, kind: e.kind as int, ivars: assoc_v(e.ivars@) }
}

/// The mathematical values of a list of entities.
pub open spec fn entityvs(s: Seq<Entity>) -> Seq<EntityV> {
    s.map_values(|e: Entity| entity_v(e))
}

/// The immutable part of an interpreter: the kind templates and the top-level
/// constructor, folded once from the declarations.
pub struct Program {
    pub entity_kinds: Vec<EntityKind>,
    pub top_level_constructor: Vec<Statement>,
    /// Whether a top-level `constructor { ... }` was declared; a second one
    /// is rejected even when the first had an empty body.
    pub top_ctor_declared: bool,
}

/// The mathematical value of a program.
#[verifier::ext_equal]
pub struct ProgV {
    pub kinds: Seq<KindV>,
    pub top_ctor: Seq<StmtV>,
    pub top_ctor_declared: bool,
}

/// The mathematical values of a kind table.
pub open spec fn kindvs(s: Seq<EntityKind>) -> Seq<KindV> {
    s.map_values(|k: EntityKind| kind_v(k))
}

/// The mathematical values of a list of function declarations.
pub open spec fn funvs(s: Seq<FunctionDeclaration>) -> Seq<FunV> {
    s.map_values(|f: FunctionDeclaration| fun_v(f))
}

/// The mathematical value of a program.
pub open spec fn prog_v(p: Program) -> ProgV {
    ProgV {
        kinds: kindvs(p.entity_kinds@),
        top_ctor: stmts_v(p.top_level_constructor@),
        top_ctor_declared: p.top_ctor_declared,
    }
}

/// State of external game inputs. As a "fantasy console", only a small set of
/// keys is supported.
#[derive(Debug, Clone, Copy, PartialEq, Eq, Structural)]
pub struct InputReport {
    pub up: bool,
    pub down: bool,
    pub left: bool,
    pub right: bool,
    pub x: bool,
    pub z: bool,
}

impl Default for InputReport {
    /// All keys released.
    fn default() -> (r: Self)
        ensures
            r == (InputReport {
                up: false,
                down: false,
                left: false,
                right: false,
                x: false,
                z: false,
            }),
    {
        InputReport { up: false, down: false, left: false, right: false, x: false, z: false }
    }
}

/// State of the display which this interpreter is rendering to.
#[derive(Debug, Clone, Copy, PartialEq, Eq, Structural)]
pub struct DisplayConfig {
    pub width: usize,
    pub height: usize,
}

impl Default for DisplayConfig {
    /// A zero-sized display, until the host configures one.
    fn default() -> (r: Self)
        ensures
            r == (DisplayConfig { width: 0, height: 0 }),
    {
        DisplayConfig { width: 0, height: 0 }
    }
}

/// The mutable part of an interpreter: the live entities and the per-tick
/// queues.
pub struct RunState {
    pub entities: Vec<Entity>,
    pub next_entity_id: u64,
    /// Entity destruction is delayed until the tick's handlers have finished;
    /// removing an entity mid-tick would invalidate instance-variable lookups
    /// for code that captured its id earlier in the same tick.
    pub pending_destroy: Vec<u64>,
    /// Sounds that have been enqueued for play during this tick.
    pub pending_sounds: Vec<crate::ast::Tone>,
    /// Descriptions printed by `echo`, in order, until the host drains them.
    pub echoes: Vec<String>,
    pub input_report: InputReport,
    pub display_config: DisplayConfig,
}

/// The mathematical value of the mutable interpreter state.
#[verifier::ext_equal]
pub struct StateV {
    pub entities: Seq<EntityV>,
    pub next_id: u64,
    pub pending: Seq<u64>,
    pub sounds: Seq<crate::ast::Tone>,
    pub echoes: Seq<Seq<char>>,
    pub input: InputReport,
    pub display: DisplayConfig,
}

/// The mathematical value of the mutable interpreter state.
pub open spec fn state_v(st: RunState) -> StateV {
    StateV {
        entities: entityvs(st.entities@),
        next_id: st.next_entity_id,
        pending: st.pending_destroy@,
        sounds: st.pending_sounds@,
        echoes: st.echoes@.map_values(|s: String| s@),
        input: st.input_report,
        display: st.display_config,
    }
}

impl StateV {
    /// The index of the live entity with id `id`, if any.
    pub open spec fn find(self, id: u64) -> Option<int> {
        if exists|i: int| 0 <= i < self.entities.len() && self.entities[i].id == id {
            Some(choose|i: int| 0 <= i < self.entities.len() && self.entities[i].id == id)
        } else {
            None
        }
    }

    /// Whether an entity with id `id` is live.
    pub open spec fn live(self, id: u64) -> bool {
        exists|i: int| 0 <= i < self.entities.len() && self.entities[i].id == id
    }

    /// The kind index of the live entity with id `id`.
    pub open spec fn kind_of(self, id: u64) -> int {
        self.entities[self.find(id)->0].kind
    }

    /// The instance variables of the live entity with id `id`.
    pub open spec fn ivars_of(self, id: u64) -> Seq<(Seq<char>, ObjV)> {
        self.entities[self.find(id)->0].ivars
    }
}

/// A runtime error: a single kind carrying a descriptive message.
#[derive(Debug, Clone)]
pub struct RuntimeError {
    pub msg: String,
}

impl RuntimeError {
    /// An error carrying the given description.
    pub fn new(msg: String) -> (r: Self)
        ensures
            r.msg_v() == msg@,
    {
        RuntimeError { msg }
    }

    /// The mathematical value of the message.
    pub open spec fn msg_v(&self) -> Seq<char> {
        self.msg@
    }

    /// The descriptive message.
    pub fn message(&self) -> (r: &String)
        ensures
            r@ == self.msg_v(),
    {
        &self.msg
    }

    /// The message as a host would print it, under the `runtime error: `
    /// prefix.
    pub fn display_string(&self) -> (r: String)
        ensures
            r@ == "runtime error: "@ + self.msg_v(),
    {
        concat2("runtime error: ", self.msg.as_str())
    }
}

/// The result of a statement body: either fall through to the next statement,
/// or carry a `return`ed value up to the nearest function or handler boundary.
pub enum ControlSignal {
    Continue,
    Break(Object),
}

/// The mathematical value of a control signal.
pub enum ControlV {
    Continue,
    Break(ObjV),
}

/// The mathematical value of a control signal.
pub open spec fn control_v(c: ControlSignal) -> ControlV {
    match c {
        ControlSignal::Continue => ControlV::Continue,
        ControlSignal::Break(o) => ControlV::Break(obj_v(o)),
    }
}

/// Transient per-invocation state: the local variables and the active entity
/// context used to resolve `this` and `@ivar` references. The active entity
/// is `None` only in the top-level constructor.
pub struct Frame {
    /// Local variable definitions.
    pub locals: Vec<(String, Object)>,
    /// The current entity, for instance variable lookup.
    pub entity: Option<EntityId>,
}

/// The mathematical value of a frame.
#[verifier::ext_equal]
pub struct FrameV {
    pub locals: Seq<(Seq<char>, ObjV)>,
    pub entity: Option<u64>,
}

/// The mathematical value of a frame.
pub open spec fn frame_v(f: Frame) -> FrameV {
    FrameV {
        locals: assoc_v(f.locals@),
        entity: match f.entity {
            Some(id) => Some(id.0),
            None => None,
        },
    }
}

impl Frame {
    /// A frame with no locals and the given active entity.
    pub fn new_for(entity: Option<EntityId>) -> (r: Frame)
        ensures
            frame_v(r).locals == Seq::<(Seq<char>, ObjV)>::empty(),
            frame_v(r).entity == (match entity {
                Some(id) => Some(id.0),
                None => None::<u64>,
            }),
    {
        Frame { locals: Vec::new(), entity }
    }
}

/// Keys of an association list are pairwise distinct.
pub open spec fn keys_unique(l: Seq<(Seq<char>, ObjV)>) -> bool {
    forall|i: int, j: int| 0 <= i < j < l.len() ==> l[i].0 != l[j].0
}

/// The well-formedness of a program: kind names are globally unique.
pub open spec fn prog_wf(pv: ProgV) -> bool {
    forall|i: int, j: int|
        0 <= i < j < pv.kinds.len() ==> (#[trigger] pv.kinds[i]).name != (
        #[trigger] pv.kinds[j]).name
}

/// The well-formedness of the mutable state against a program: every entity
/// refers to a kind of the table, ids are strictly increasing (hence unique)
/// and below the allocator's next id, instance-variable names are unique per
/// entity, and the pending-destroy list holds no duplicates.
pub open spec fn state_wf(sv: StateV, pv: ProgV) -> bool {
    &&& forall|i: int|
        0 <= i < sv.entities.len() ==> 0 <= (#[trigger] sv.entities[i]).kind < pv.kinds.len()
    &&& forall|i: int| 0 <= i < sv.entities.len() ==> (#[trigger] sv.entities[i]).id < sv.next_id
    &&& forall|i: int, j: int|
        0 <= i < j < sv.entities.len() ==> (#[trigger] sv.entities[i]).id < (
        #[trigger] sv.entities[j]).id
    &&& forall|i: int| 0 <= i < sv.entities.len() ==> keys_unique((#[trigger] sv.entities[i]).ivars)
    &&& forall|i: int, j: int| 0 <= i < j < sv.pending.len() ==> sv.pending[i] != sv.pending[j]
}

/// How the mutable state may change while expressions and statements are
/// evaluated: entity ids are allocated monotonically, no live entity is ever
/// removed (destruction is deferred to the end-of-tick sweep), every newly
/// live entity carries a fresh id, sounds and echo lines are only appended,
/// and the input and display configuration stay as the host set them.
pub open spec fn evolves(pre: StateV, post: StateV) -> bool {
    &&& pre.next_id <= post.next_id
    &&& forall|id: u64| #[trigger] pre.live(id) ==> post.live(id)
    &&& forall|id: u64| #[trigger] post.live(id) ==> pre.live(id) || pre.next_id <= id
    &&& pre.sounds.len() <= post.sounds.len()
    &&& forall|i: int| 0 <= i < pre.sounds.len() ==> post.sounds[i] == pre.sounds[i]
    &&& pre.echoes.len() <= post.echoes.len()
    &&& forall|i: int| 0 <= i < pre.echoes.len() ==> post.echoes[i] == pre.echoes[i]
    &&& post.input == pre.input
    &&& post.display == pre.display
}

/// Entity ids are pairwise distinct.
pub open spec fn ids_unique(entities: Seq<EntityV>) -> bool {
    forall|i: int, j: int|
        0 <= i < j < entities.len() ==> (#[trigger] entities[i]).id != (#[trigger] entities[j]).id
}

/// No live entity is ever removed while handlers evaluate: an entity
/// destroyed during a tick stays present — queryable, its instance
/// variables readable — for the remainder of that tick's handler execution.
/// Removal happens only in the end-of-tick sweep.
pub proof fn lemma_live_entities_survive_evaluation(pre: StateV, post: StateV, id: u64)
    requires
        evolves(pre, post),
        pre.live(id),
    ensures
        post.live(id),
{
}

/// Entity ids are never reused: any entity live after evaluation either was
/// live before or carries an id at least as large as every id handed out
/// before.
pub proof fn lemma_entity_ids_are_fresh(pre: StateV, post: StateV, id: u64)
    requires
        evolves(pre, post),
        post.live(id),
        !pre.live(id),
    ensures
        pre.next_id <= id,
{
}

/// `evolves` composes.
pub proof fn lemma_evolves_trans(a: StateV, b: StateV, c: StateV)
    requires
        evolves(a, b),
        evolves(b, c),
    ensures
        evolves(a, c),
{
}

/// The index of the first entry with the given key, if any.
pub open spec fn assoc_idx(l: Seq<(Seq<char>, ObjV)>, k: Seq<char>) -> Option<int>
    decreases l.len(),
{
    if l.len() == 0 {
        None
    } else if l[0].0 == k {
        Some(0)
    } else {
        match assoc_idx(l.drop_first(), k) {
            Some(i) => Some(i + 1),
            None => None,
        }
    }
}

/// `assoc_idx` returns the first matching index, and `None` only when no
/// entry carries the key.
pub proof fn lemma_assoc_idx(l: Seq<(Seq<char>, ObjV)>, k: Seq<char>)
    ensures
        match assoc_idx(l, k) {
            Some(i) => 0 <= i < l.len() && l[i].0 == k && (forall|j: int|
                0 <= j < i ==> (#[trigger] l[j]).0 != k),
            None => forall|j: int| 0 <= j < l.len() ==> (#[trigger] l[j]).0 != k,
        },
    decreases l.len(),
{
    if l.len() != 0 && l[0].0 != k {
        lemma_assoc_idx(l.drop_first(), k);
        assert(forall|j: int| 1 <= j < l.len() ==> (#[trigger] l[j]) == l.drop_first()[j - 1]);
    }
}

/// Replace the value at the key's first entry, or append a new entry.
pub open spec fn assoc_set(l: Seq<(Seq<char>, ObjV)>, k: Seq<char>, v: ObjV) -> Seq<
    (Seq<char>, ObjV),
> {
    match assoc_idx(l, k) {
        Some(i) => l.update(i, (k, v)),
        None => l.push((k, v)),
    }
}

/// `assoc_set` keeps keys unique.
pub proof fn lemma_assoc_set_unique(l: Seq<(Seq<char>, ObjV)>, k: Seq<char>, v: ObjV)
    requires
        keys_unique(l),
    ensures
        keys_unique(assoc_set(l, k, v)),
{
    lemma_assoc_idx(l, k);
}

/// The value stored under a key.
pub open spec fn assoc_get(l: Seq<(Seq<char>, ObjV)>, k: Seq<char>) -> Option<ObjV> {
    match assoc_idx(l, k) {
        Some(i) => Some(l[i].1),
        None => None,
    }
}

/// The index of the first entry with the given key.
pub(crate) fn assoc_find(l: &Vec<(String, Object)>, k: &str) -> (r: Option<usize>)
    ensures
        match assoc_idx(assoc_v(l@), k@) {
            Some(i) => r matches Some(ri) && ri == i,
            None => r is None,
        },
{
    proof {
        lemma_assoc_idx(assoc_v(l@), k@);
    }
    let mut i: usize = 0;
    while i < l.len()
        invariant
            i <= l@.len(),
            forall|j: int| 0 <= j < i ==> (#[trigger] assoc_v(l@)[j]).0 != k@,
        decreases l@.len() - i,
    {
        if str_eq(l[i].0.as_str(), k) {
            proof {
                assert(assoc_v(l@)[i as int].0 == k@);
                lemma_assoc_idx(assoc_v(l@), k@);
            }
            return Some(i);
        }
        i += 1;
    }
    None
}

/// A copy of the value stored under a key.
pub(crate) fn assoc_read(l: &Vec<(String, Object)>, k: &str) -> (r: Option<Object>)
    ensures
        match assoc_get(assoc_v(l@), k@) {
            Some(v) => r matches Some(o) && obj_v(o) == v,
            None => r is None,
        },
{
    match assoc_find(l, k) {
        Some(i) => {
            proof {
                lemma_assoc_idx(assoc_v(l@), k@);
                assert(assoc_v(l@).len() == l@.len());
                assert(assoc_v(l@)[i as int] == (l@[i as int].0@, obj_v(l@[i as int].1)));
            }
            Some(l[i].1.duplicate())
        },
        None => None,
    }
}

/// Store a value under a key: replace the first entry with that key, or
/// append a new one.
pub(crate) fn assoc_write(l: &mut Vec<(String, Object)>, k: String, v: Object)
    ensures
        assoc_v(final(l)@) == assoc_set(assoc_v(old(l)@), k@, obj_v(v)),
        keys_unique(assoc_v(old(l)@)) ==> keys_unique(assoc_v(final(l)@)),
{
    proof {
        if keys_unique(assoc_v(old(l)@)) {
            lemma_assoc_set_unique(assoc_v(old(l)@), k@, obj_v(v));
        }
    }
    match assoc_find(l, k.as_str()) {
        Some(i) => {
            proof {
                lemma_assoc_idx(assoc_v(l@), k@);
                assert(assoc_v(l@).len() == l@.len());
            }
            l[i] = (k, v);
            proof {
                assert(assoc_v(l@) =~= assoc_set(assoc_v(old(l)@), k@, obj_v(v)));
            }
        },
        None => {
            l.push((k, v));
            proof {
                assert(assoc_v(l@) =~= assoc_set(assoc_v(old(l)@), k@, obj_v(v)));
            }
        },
    }
}

/// A frame is well formed against a state when its active entity, if any, is
/// live, and its local names are unique.
pub open spec fn frame_wf(fv: FrameV, sv: StateV) -> bool {
    &&& match fv.entity {
        Some(id) => sv.live(id),
        None => true,
    }
    &&& keys_unique(fv.locals)
}

/// An assignment target, resolved once while the target expression is
/// evaluated: either a local of the current frame or an instance variable of
/// a specific entity.
pub enum AssignmentTarget {
    Local(String),
    InstanceVar(EntityId, String),
}

/// The mathematical value of an assignment target.
pub enum TargetV {
    Local(Seq<char>),
    InstanceVar(u64, Seq<char>),
}

/// The mathematical value of an assignment target.
pub open spec fn target_v(t: AssignmentTarget) -> TargetV {
    match t {
        AssignmentTarget::Local(n) => TargetV::Local(n@),
        AssignmentTarget::InstanceVar(id, n) => TargetV::InstanceVar(id.0, n@),
    }
}

/// Generic container for some kind of lvalue/rvalue.
///
/// In an rvalue context, this can typically be read to produce an [`Object`].
/// In a more limited set of cases, this can be used as an lvalue to assign an
/// [`Object`] to something: a read-write value writes through its resolved
/// target, a write-only value (an unset local) creates the local on write and
/// errors on read, and a read-only value rejects writes.
pub enum Value {
    ReadOnly(Object),
    WriteOnly { target: AssignmentTarget, error_on_read: RuntimeError },
    ReadWrite { value: Object, target: AssignmentTarget },
}

/// The mathematical value of a `Value`.
pub enum ValV {
    ReadOnly(ObjV),
    WriteOnly(TargetV),
    ReadWrite(ObjV, TargetV),
}

/// The mathematical value of a `Value`.
pub open spec fn val_v(v: Value) -> ValV {
    match v {
        Value::ReadOnly(o) => ValV::ReadOnly(obj_v(o)),
        Value::WriteOnly { target, .. } => ValV::WriteOnly(target_v(target)),
        Value::ReadWrite { value, target } => ValV::ReadWrite(obj_v(value), target_v(target)),
    }
}

impl Value {
    /// The object this value evaluates to in an rvalue position; reading an
    /// unset local is an error.
    pub fn read(self) -> (r: Result<Object, RuntimeError>)
        ensures
            match val_v(self) {
                ValV::ReadOnly(o) => r matches Ok(ro) && obj_v(ro) == o,
                ValV::WriteOnly(t) => r is Err,
                ValV::ReadWrite(o, t) => r matches Ok(ro) && obj_v(ro) == o,
            },
    {
        match self {
            Value::ReadOnly(object) => Ok(object),
            Value::WriteOnly { error_on_read, .. } => Err(error_on_read),
            Value::ReadWrite { value, .. } => Ok(value),
        }
    }

    /// Assign `value` through this value's target: update or create the
    /// local, or update the entity's instance variable. Assigning to a
    /// read-only value is an error.
    pub fn write(self, value: Object, st: &mut RunState, frame: &mut Frame) -> (r: Result<
        (),
        RuntimeError,
    >)
        requires
            ids_unique(state_v(*old(st)).entities),
            match val_v(self) {
                ValV::WriteOnly(t) | ValV::ReadWrite(_, t) => match t {
                    TargetV::InstanceVar(id, _) => state_v(*old(st)).live(id),
                    TargetV::Local(_) => true,
                },
                ValV::ReadOnly(_) => true,
            },
            keys_unique(frame_v(*old(frame)).locals),
        ensures
            keys_unique(frame_v(*final(frame)).locals),
            frame_v(*final(frame)).entity == frame_v(*old(frame)).entity,
            state_v(*final(st)).entities.len() == state_v(*old(st)).entities.len(),
            state_v(*final(st)).next_id == state_v(*old(st)).next_id,
            state_v(*final(st)).pending == state_v(*old(st)).pending,
            state_v(*final(st)).sounds == state_v(*old(st)).sounds,
            state_v(*final(st)).echoes == state_v(*old(st)).echoes,
            state_v(*final(st)).input == state_v(*old(st)).input,
            state_v(*final(st)).display == state_v(*old(st)).display,
            forall|j: int|
                0 <= j < state_v(*old(st)).entities.len() ==> (#[trigger] state_v(
                    *final(st),
                ).entities[j]).id == state_v(*old(st)).entities[j].id && state_v(
                    *final(st),
                ).entities[j].kind == state_v(*old(st)).entities[j].kind && (keys_unique(
                    state_v(*old(st)).entities[j].ivars,
                ) ==> keys_unique(state_v(*final(st)).entities[j].ivars)),
            match val_v(self) {
                ValV::ReadOnly(o) => r is Err && *final(st) == *old(st) && *final(frame) == *old(
                    frame,
                ),
                ValV::WriteOnly(t) | ValV::ReadWrite(_, t) => r is Ok && match t {
                    TargetV::Local(n) => *final(st) == *old(st) && frame_v(*final(frame)).locals
                        == assoc_set(frame_v(*old(frame)).locals, n, obj_v(value)),
                    TargetV::InstanceVar(id, n) => *final(frame) == *old(frame) && state_v(
                        *final(st),
                    ) =~~= (StateV {
                        entities: state_v(*old(st)).entities.update(
                            state_v(*old(st)).find(id)->0,
                            EntityV {
                                ivars: assoc_set(state_v(*old(st)).ivars_of(id), n, obj_v(value)),
                                ..state_v(*old(st)).entities[state_v(*old(st)).find(id)->0]
                            },
                        ),
                        ..state_v(*old(st))
                    }),
                },
            },
    {
        let target = match self {
            Value::ReadOnly(_) => {
                return Err(
                    RuntimeError::new(
                        String::from_str("expression cannot be target of an assignment"),
                    ),
                );
            },
            Value::WriteOnly { target, .. } => target,
            Value::ReadWrite { target, .. } => target,
        };
        match target {
            AssignmentTarget::Local(n) => {
                assoc_write(&mut frame.locals, n, value);
                Ok(())
            },
            AssignmentTarget::InstanceVar(id, n) => {
                let i = match find_entity(&st.entities, id.0) {
                    Some(i) => i,
                    None => {
                        proof {
                            assert(false);
                        }
                        return Err(
                            RuntimeError::new(String::from_str("entity is already destroyed")),
                        );
                    },
                };
                let ghost sv0 = state_v(*st);
                let ghost ei = sv0.find(id.0)->0;
                proof {
                    assert(sv0.live(id.0));
                    assert(0 <= ei < sv0.entities.len() && sv0.entities[ei].id == id.0);
                    assert(entityvs(st.entities@)[i as int].id == id.0);
                    assert(ei == i as int);
                }
                let entity = &mut st.entities[i];
                assoc_write(&mut entity.ivars, n, value);
                proof {
                    assert(state_v(*st).entities =~= sv0.entities.update(
                        ei,
                        EntityV { ivars: assoc_set(sv0.ivars_of(id.0), n@, obj_v(value)), ..sv0.entities[ei] },
                    ));
                    assert(state_v(*st) =~~= (StateV {
                        entities: sv0.entities.update(
                            ei,
                            EntityV {
                                ivars: assoc_set(sv0.ivars_of(id.0), n@, obj_v(value)),
                                ..sv0.entities[ei]
                            },
                        ),
                        ..sv0
                    }));
                }
                Ok(())
            },
        }
    }
}

/// The index of the live entity with the given id, if any.
pub(crate) fn find_entity(entities: &Vec<Entity>, id: u64) -> (r: Option<usize>)
    ensures
        match r {
            Some(i) => i < entities@.len() && entityvs(entities@)[i as int].id == id,
            None => forall|i: int|
                0 <= i < entityvs(entities@).len() ==> (#[trigger] entityvs(entities@)[i]).id
                    != id,
        },
{
    let mut i: usize = 0;
    while i < entities.len()
        invariant
            i <= entities@.len(),
            forall|j: int| 0 <= j < i ==> (#[trigger] entityvs(entities@)[j]).id != id,
        decreases entities@.len() - i,
    {
        if entities[i].id.0 == id {
            proof {
                assert(entityvs(entities@)[i as int].id == id);
            }
            return Some(i);
        }
        i += 1;
    }
    None
}

/// The interpreter: a folded program plus the mutable run state.
pub struct Interpreter {
    pub program: Program,
    pub state: RunState,
}

impl Interpreter {
    /// The mathematical value of the program part.
    pub open spec fn pv(&self) -> ProgV {
        prog_v(self.program)
    }

    /// The mathematical value of the mutable part.
    pub open spec fn sv(&self) -> StateV {
        state_v(self.state)
    }

    /// The interpreter's invariant.
    pub open spec fn wf(&self) -> bool {
        prog_wf(self.pv()) && state_wf(self.sv(), self.pv())
    }

    /// An interpreter with no declarations, no entities, and default input
    /// and display configuration. Entity ids start at 1.
    pub fn new() -> (r: Interpreter)
        ensures
            r.wf(),
            r.pv().kinds.len() == 0,
            r.pv().top_ctor.len() == 0,
            !r.pv().top_ctor_declared,
            r.sv().entities.len() == 0,
            r.sv().next_id == 1,
            r.sv().pending.len() == 0,
            r.sv().sounds.len() == 0,
            r.sv().echoes.len() == 0,
            r.sv().input == (InputReport {
                up: false,
                down: false,
                left: false,
                right: false,
                x: false,
                z: false,
            }),
            r.sv().display == (DisplayConfig { width: 0, height: 0 }),
    {
        Interpreter {
            program: Program {
                entity_kinds: Vec::new(),
                top_level_constructor: Vec::new(),
                top_ctor_declared: false,
            },
            state: RunState {
                entities: Vec::new(),
                next_entity_id: 1,
                pending_destroy: Vec::new(),
                pending_sounds: Vec::new(),
                echoes: Vec::new(),
                input_report: Default::default(),
                display_config: Default::default(),
            },
        }
    }

    /// Replace the input snapshot; pure state replacement, no validation.
    pub fn update_input_report(&mut self, report: InputReport)
        ensures
            final(self).sv() == (StateV { input: report, ..old(self).sv() }),
            final(self).pv() == old(self).pv(),
            old(self).wf() ==> final(self).wf(),
    {
        self.state.input_report = report;
    }

    /// Replace the display configuration; pure state replacement.
    pub fn update_display_config(&mut self, config: DisplayConfig)
        ensures
            final(self).sv() == (StateV { display: config, ..old(self).sv() }),
            final(self).pv() == old(self).pv(),
            old(self).wf() ==> final(self).wf(),
    {
        self.state.display_config = config;
    }

    /// The live entities, in spawn order.
    pub fn entities(&self) -> (r: &Vec<Entity>)
        ensures
            r@.map_values(|e: Entity| entity_v(e)) == self.sv().entities,
    {
        &self.state.entities
    }

    /// Hand out the `echo` output collected since the last drain, oldest
    /// first, and clear the buffer.
    pub fn take_echoes(&mut self) -> (r: Vec<String>)
        ensures
            r@.map_values(|s: String| s@) == old(self).sv().echoes,
            final(self).sv() == (StateV { echoes: Seq::empty(), ..old(self).sv() }),
            final(self).pv() == old(self).pv(),
            old(self).wf() ==> final(self).wf(),
    {
        let mut out: Vec<String> = Vec::new();
        core::mem::swap(&mut out, &mut self.state.echoes);
        proof {
            assert(self.state.echoes@ =~= Seq::<String>::empty());
            assert(state_v(self.state).echoes =~= Seq::<Seq<char>>::empty());
            assert(state_v(self.state) =~~= (StateV {
                echoes: Seq::empty(),
                ..state_v(old(self).state)
            }));
        }
        out
    }
}

/// The index of the first kind with the given name, if any.
pub open spec fn lookup_kind(kinds: Seq<KindV>, name: Seq<char>) -> Option<int>
    decreases kinds.len(),
{
    if kinds.len() == 0 {
        None
    } else if kinds[0].name == name {
        Some(0)
    } else {
        match lookup_kind(kinds.drop_first(), name) {
            Some(i) => Some(i + 1),
            None => None,
        }
    }
}

/// `lookup_kind` returns the first matching index, and `None` only when no
/// kind carries the name.
pub proof fn lemma_lookup_kind(kinds: Seq<KindV>, name: Seq<char>)
    ensures
        match lookup_kind(kinds, name) {
            Some(i) => 0 <= i < kinds.len() && kinds[i].name == name && (forall|j: int|
                0 <= j < i ==> (#[trigger] kinds[j]).name != name),
            None => forall|j: int| 0 <= j < kinds.len() ==> (#[trigger] kinds[j]).name != name,
        },
    decreases kinds.len(),
{
    if kinds.len() != 0 && kinds[0].name != name {
        lemma_lookup_kind(kinds.drop_first(), name);
        assert(forall|j: int|
            1 <= j < kinds.len() ==> (#[trigger] kinds[j]) == kinds.drop_first()[j - 1]);
    }
}

/// The index of the first function with the given name, if any.
pub open spec fn lookup_fun(fs: Seq<FunV>, name: Seq<char>) -> Option<int>
    decreases fs.len(),
{
    if fs.len() == 0 {
        None
    } else if fs[0].name == name {
        Some(0)
    } else {
        match lookup_fun(fs.drop_first(), name) {
            Some(i) => Some(i + 1),
            None => None,
        }
    }
}

/// `lookup_fun` returns the first matching index, and `None` only when no
/// function carries the name.
pub proof fn lemma_lookup_fun(fs: Seq<FunV>, name: Seq<char>)
    ensures
        match lookup_fun(fs, name) {
            Some(i) => 0 <= i < fs.len() && fs[i].name == name && (forall|j: int|
                0 <= j < i ==> (#[trigger] fs[j]).name != name),
            None => forall|j: int| 0 <= j < fs.len() ==> (#[trigger] fs[j]).name != name,
        },
    decreases fs.len(),
{
    if fs.len() != 0 && fs[0].name != name {
        lemma_lookup_fun(fs.drop_first(), name);
        assert(forall|j: int| 1 <= j < fs.len() ==> (#[trigger] fs[j]) == fs.drop_first()[j - 1]);
    }
}

/// The kind template an entity declaration starts from: just a name.
pub open spec fn empty_kind(name: Seq<char>) -> KindV {
    KindV {
        name,
        functions: Seq::empty(),
        constructor: None,
        tick_handler: None,
        draw_handler: None,
        ivars: Seq::empty(),
        constructor_declared: false,
        tick_declared: false,
    }
}

/// Declare instance variables one by one; a name already declared on the
/// kind is an error.
pub open spec fn fold_ivars(k: KindV, names: Seq<Seq<char>>) -> Result<KindV, ()>
    decreases names.len(),
{
    if names.len() == 0 {
        Ok(k)
    } else if k.ivars.contains(names[0]) {
        Err(())
    } else {
        fold_ivars(KindV { ivars: k.ivars.push(names[0]), ..k }, names.drop_first())
    }
}

/// No name of `a` occurs in `b`.
pub open spec fn names_disjoint(a: Seq<Seq<char>>, b: Seq<Seq<char>>) -> bool {
    forall|i: int, j: int| 0 <= i < a.len() && 0 <= j < b.len() ==> a[i] != b[j]
}

/// Merge one imported function: replace the same-named function, or append.
pub open spec fn merge_fun(dst: Seq<FunV>, f: FunV) -> Seq<FunV> {
    match lookup_fun(dst, f.name) {
        Some(i) => dst.update(i, f),
        None => dst.push(f),
    }
}

/// Merge the imported functions into the target's, left to right.
pub open spec fn merge_funs(dst: Seq<FunV>, src: Seq<FunV>) -> Seq<FunV>
    decreases src.len(),
{
    if src.len() == 0 {
        dst
    } else {
        merge_funs(merge_fun(dst, src[0]), src.drop_first())
    }
}

/// Concatenate an imported handler body with the target's own: the imported
/// body runs first, the target's own body after it.
pub open spec fn merge_bodies(
    imported: Option<Seq<StmtV>>,
    own: Option<Seq<StmtV>>,
) -> Option<Seq<StmtV>> {
    match (imported, own) {
        (None, o) => o,
        (Some(i), None) => Some(i),
        (Some(i), Some(o)) => Some(i + o),
    }
}

/// Fold one declaration of an entity body into the kind under construction.
///
/// Nested entity declarations are rejected; a second `constructor` or `tick`
/// each of `constructor`, `tick` and `draw` may be declared directly at most
/// once per kind (a duplicate direct declaration is an error); a duplicate
/// instance-variable or function name is an error; `use` merges the named
/// kind structurally — concatenating the imported constructor and tick
/// bodies before the target's own — and is an error when both sides define
/// `draw` or declare an instance variable of the same name.
pub open spec fn fold_entity_decl(kinds: Seq<KindV>, k: KindV, d: DeclV) -> Result<KindV, ()> {
    match d {
        DeclV::Entity { .. } => Err(()),
        DeclV::Constructor { body } => {
            if k.constructor_declared {
                Err(())
            } else {
                Ok(
                    KindV {
                        constructor: match k.constructor {
                            Some(c) => Some(c + body),
                            None => Some(body),
                        },
                        constructor_declared: true,
                        ..k
                    },
                )
            }
        },
        DeclV::Tick { body } => {
            if k.tick_declared {
                Err(())
            } else {
                Ok(
                    KindV {
                        tick_handler: match k.tick_handler {
                            Some(c) => Some(c + body),
                            None => Some(body),
                        },
                        tick_declared: true,
                        ..k
                    },
                )
            }
        },
        DeclV::Draw { body } => {
            if k.draw_handler is Some {
                Err(())
            } else {
                Ok(KindV { draw_handler: Some(body), ..k })
            }
        },
        DeclV::InstanceVars { names } => fold_ivars(k, names),
        DeclV::Function { name, parameters, body } => {
            if lookup_fun(k.functions, name) is Some {
                Err(())
            } else {
                Ok(KindV { functions: k.functions.push(FunV { name, parameters, body }), ..k })
            }
        },
        DeclV::Use { name } => match lookup_kind(kinds, name) {
            None => Err(()),
            Some(si) => {
                let src = kinds[si];
                if k.draw_handler is Some && src.draw_handler is Some {
                    Err(())
                } else if !names_disjoint(k.ivars, src.ivars) {
                    Err(())
                } else {
                    Ok(
                        KindV {
                            name: k.name,
                            functions: merge_funs(k.functions, src.functions),
                            constructor: merge_bodies(src.constructor, k.constructor),
                            tick_handler: merge_bodies(src.tick_handler, k.tick_handler),
                            draw_handler: k.draw_handler,
                            ivars: k.ivars + src.ivars,
                            constructor_declared: k.constructor_declared,
                            tick_declared: k.tick_declared,
                        },
                    )
                }
            },
        },
    }
}

/// Fold a whole entity body, left to right.
pub open spec fn fold_entity_body(kinds: Seq<KindV>, k: KindV, body: Seq<DeclV>) -> Result<
    KindV,
    (),
>
    decreases body.len(),
{
    if body.len() == 0 {
        Ok(k)
    } else {
        match fold_entity_decl(kinds, k, body[0]) {
            Ok(k2) => fold_entity_body(kinds, k2, body.drop_first()),
            Err(e) => Err(e),
        }
    }
}

/// Fold one top-level declaration into the program. Only entity declarations
/// and a single top-level constructor may appear at the top level; a
/// duplicate entity name is an error.
pub open spec fn fold_top_decl(p: ProgV, d: DeclV) -> Result<ProgV, ()> {
    match d {
        DeclV::Entity { name, body } => {
            if lookup_kind(p.kinds, name) is Some {
                Err(())
            } else {
                match fold_entity_body(p.kinds, empty_kind(name), body) {
                    Ok(k) => Ok(ProgV { kinds: p.kinds.push(k), ..p }),
                    Err(e) => Err(e),
                }
            }
        },
        DeclV::Constructor { body } => {
            if p.top_ctor_declared {
                Err(())
            } else {
                Ok(ProgV { top_ctor: body, top_ctor_declared: true, ..p })
            }
        },
        _ => Err(()),
    }
}

/// Fold a whole program, left to right.
pub open spec fn fold_program(p: ProgV, ds: Seq<DeclV>) -> Result<ProgV, ()>
    decreases ds.len(),
{
    if ds.len() == 0 {
        Ok(p)
    } else {
        match fold_top_decl(p, ds[0]) {
            Ok(p2) => fold_program(p2, ds.drop_first()),
            Err(e) => Err(e),
        }
    }
}

/// Folding instance-variable declarations never renames the kind.
pub proof fn lemma_fold_ivars_name(k: KindV, names: Seq<Seq<char>>)
    ensures
        match fold_ivars(k, names) {
            Ok(k2) => k2.name == k.name,
            Err(e) => true,
        },
    decreases names.len(),
{
    if names.len() != 0 && !k.ivars.contains(names[0]) {
        lemma_fold_ivars_name(KindV { ivars: k.ivars.push(names[0]), ..k }, names.drop_first());
    }
}

/// Folding an entity body never renames the kind.
pub proof fn lemma_fold_entity_body_name(kinds: Seq<KindV>, k: KindV, body: Seq<DeclV>)
    ensures
        match fold_entity_body(kinds, k, body) {
            Ok(k2) => k2.name == k.name,
            Err(e) => true,
        },
    decreases body.len(),
{
    if body.len() != 0 {
        match fold_entity_decl(kinds, k, body[0]) {
            Ok(k2) => {
                if body[0] is InstanceVars {
                    lemma_fold_ivars_name(k, body[0]->InstanceVars_names);
                }
                lemma_fold_entity_body_name(kinds, k2, body.drop_first());
            },
            Err(e) => {},
        }
    }
}

/// Declaring an entity under a name that the program already has is always
/// rejected, whatever the body.
pub proof fn lemma_duplicate_entity_rejected(p: ProgV, name: Seq<char>, body: Seq<DeclV>)
    requires
        exists|i: int| 0 <= i < p.kinds.len() && (#[trigger] p.kinds[i]).name == name,
    ensures
        fold_top_decl(p, DeclV::Entity { name, body }) is Err,
{
    lemma_lookup_kind(p.kinds, name);
}

/// Declaring an instance variable under a name the kind already has is
/// always rejected, wherever in the list the duplicate stands.
pub proof fn lemma_duplicate_ivar_rejected(k: KindV, names: Seq<Seq<char>>, i: int, j: int)
    requires
        0 <= i < j < names.len(),
        names[i] == names[j],
    ensures
        fold_ivars(k, names) is Err,
    decreases names.len(),
{
    if !(k.ivars.contains(names[0])) {
        if i == 0 {
            let k2 = KindV { ivars: k.ivars.push(names[0]), ..k };
            assert(k2.ivars[k.ivars.len() as int] == names[0]);
            assert(names.drop_first()[j - 1] == names[j]);
            lemma_fold_ivars_keeps(k2, names.drop_first(), names[0]);
        } else {
            lemma_duplicate_ivar_rejected(
                KindV { ivars: k.ivars.push(names[0]), ..k },
                names.drop_first(),
                i - 1,
                j - 1,
            );
        }
    }
}

/// A `var` declaration naming an instance variable the kind already
/// declared — in an earlier declaration of the same entity body — is
/// rejected, so a name is declared at most once across the whole body.
pub proof fn lemma_ivar_redeclaration_rejected(
    kinds: Seq<KindV>,
    k: KindV,
    names: Seq<Seq<char>>,
    j: int,
)
    requires
        0 <= j < names.len(),
        k.ivars.contains(names[j]),
    ensures
        fold_entity_decl(kinds, k, DeclV::InstanceVars { names }) is Err,
{
    lemma_fold_ivars_keeps(k, names, names[j]);
}

/// Once a name stands among a kind's instance variables, folding more
/// declarations that contain it again must fail.
proof fn lemma_fold_ivars_keeps(k: KindV, names: Seq<Seq<char>>, present: Seq<char>)
    requires
        k.ivars.contains(present),
        names.contains(present),
    ensures
        fold_ivars(k, names) is Err,
    decreases names.len(),
{
    if names.len() != 0 && !k.ivars.contains(names[0]) {
        let k2 = KindV { ivars: k.ivars.push(names[0]), ..k };
        assert(k2.ivars.contains(present)) by {
            let wi = choose|wi: int| 0 <= wi < k.ivars.len() && k.ivars[wi] == present;
            assert(k2.ivars[wi] == present);
        }
        assert(names.drop_first().contains(present)) by {
            let wi = choose|wi: int| 0 <= wi < names.len() && names[wi] == present;
            assert(names.drop_first()[wi - 1] == present);
        }
        lemma_fold_ivars_keeps(k2, names.drop_first(), present);
    }
}

/// The index of the first kind of the table with the given name.
pub(crate) fn find_kind(kinds: &Vec<EntityKind>, name: &str) -> (r: Option<usize>)
    ensures
        match lookup_kind(kindvs(kinds@), name@) {
            Some(i) => r matches Some(ri) && ri == i,
            None => r is None,
        },
{
    proof {
        lemma_lookup_kind(kindvs(kinds@), name@);
    }
    let mut i: usize = 0;
    while i < kinds.len()
        invariant
            i <= kinds@.len(),
            forall|j: int| 0 <= j < i ==> (#[trigger] kindvs(kinds@)[j]).name != name@,
        decreases kinds@.len() - i,
    {
        if str_eq(kinds[i].name.as_str(), name) {
            proof {
                assert(kindvs(kinds@)[i as int] == kind_v(kinds@[i as int]));
                assert(kindvs(kinds@)[i as int].name == name@);
                lemma_lookup_kind(kindvs(kinds@), name@);
            }
            return Some(i);
        }
        i += 1;
    }
    None
}

/// The index of the first function of the list with the given name.
pub(crate) fn find_fun(fs: &Vec<FunctionDeclaration>, name: &str) -> (r: Option<usize>)
    ensures
        match lookup_fun(funvs(fs@), name@) {
            Some(i) => r matches Some(ri) && ri == i,
            None => r is None,
        },
{
    proof {
        lemma_lookup_fun(funvs(fs@), name@);
    }
    let mut i: usize = 0;
    while i < fs.len()
        invariant
            i <= fs@.len(),
            forall|j: int| 0 <= j < i ==> (#[trigger] funvs(fs@)[j]).name != name@,
        decreases fs@.len() - i,
    {
        if str_eq(fs[i].name.as_str(), name) {
            proof {
                assert(funvs(fs@)[i as int] == fun_v(fs@[i as int]));
                assert(funvs(fs@)[i as int].name == name@);
                lemma_lookup_fun(funvs(fs@), name@);
            }
            return Some(i);
        }
        i += 1;
    }
    None
}

/// Whether the list of names holds the given one.
fn contains_name(v: &Vec<String>, name: &str) -> (r: bool)
    ensures
        r == strvs(v@).contains(name@),
{
    let mut i: usize = 0;
    while i < v.len()
        invariant
            i <= v@.len(),
            forall|j: int| 0 <= j < i ==> (#[trigger] strvs(v@)[j]) != name@,
        decreases v@.len() - i,
    {
        if str_eq(v[i].as_str(), name) {
            proof {
                assert(strvs(v@)[i as int] == name@);
            }
            return true;
        }
        i += 1;
    }
    proof {
        assert(!strvs(v@).contains(name@));
    }
    false
}

/// A copy of a user function declaration.
fn dup_fun(f: &FunctionDeclaration) -> (r: FunctionDeclaration)
    ensures
        fun_v(r) == fun_v(*f),
{
    let r = FunctionDeclaration {
        name: f.name.clone(),
        parameters: dup_string_vec(&f.parameters),
        body: dup_stmt_vec(&f.body),
    };
    proof {
        assert(fun_v(r) =~~= fun_v(*f));
    }
    r
}

/// Fold one declaration of an entity body into the kind under construction,
/// reading the already-registered kinds only to resolve `use`.
fn apply_entity_decl(kinds: &Vec<EntityKind>, k: EntityKind, d: Declaration) -> (r: Result<
    EntityKind,
    RuntimeError,
>)
    ensures
        match fold_entity_decl(kindvs(kinds@), kind_v(k), decl_v(d)) {
            Ok(k2) => r matches Ok(kk) && kind_v(kk) == k2,
            Err(e) => r is Err,
        },
{
    broadcast use crate::ast::group_ast_views;

    match d {
        Declaration::EntityDeclaration { name, body } => Err(
            RuntimeError::new(String::from_str("cannot nest entity definitions")),
        ),
        Declaration::ConstructorDeclaration { body } => {
            if k.constructor_declared {
                return Err(
                    RuntimeError::new(String::from_str("constructor is already declared")),
                );
            }
            let ghost kv0 = kind_v(k);
            let ghost bv = stmts_v(body@);
            let EntityKind {
                name,
                functions,
                constructor,
                tick_handler,
                draw_handler,
                ivars,
                constructor_declared,
                tick_declared,
            } = k;
            let mut body = body;
            let constructor = match constructor {
                Some(mut c) => {
                    let ghost cv = stmts_v(c@);
                    c.append(&mut body);
                    proof {
                        assert(stmts_v(c@) =~= cv + bv);
                    }
                    Some(c)
                },
                None => Some(body),
            };
            let kk = EntityKind {
                name,
                functions,
                constructor,
                tick_handler,
                draw_handler,
                ivars,
                constructor_declared: true,
                tick_declared,
            };
            proof {
                assert(kind_v(kk) =~~= (KindV {
                    constructor: match kv0.constructor {
                        Some(c) => Some(c + bv),
                        None => Some(bv),
                    },
                    constructor_declared: true,
                    ..kv0
                }));
            }
            Ok(kk)
        },
        Declaration::TickDeclaration { body } => {
            if k.tick_declared {
                return Err(
                    RuntimeError::new(String::from_str("tick handler is already declared")),
                );
            }
            let ghost kv0 = kind_v(k);
            let ghost bv = stmts_v(body@);
            let EntityKind {
                name,
                functions,
                constructor,
                tick_handler,
                draw_handler,
                ivars,
                constructor_declared,
                tick_declared,
            } = k;
            let mut body = body;
            let tick_handler = match tick_handler {
                Some(mut c) => {
                    let ghost cv = stmts_v(c@);
                    c.append(&mut body);
                    proof {
                        assert(stmts_v(c@) =~= cv + bv);
                    }
                    Some(c)
                },
                None => Some(body),
            };
            let kk = EntityKind {
                name,
                functions,
                constructor,
                tick_handler,
                draw_handler,
                ivars,
                constructor_declared,
                tick_declared: true,
            };
            proof {
                assert(kind_v(kk) =~~= (KindV {
                    tick_handler: match kv0.tick_handler {
                        Some(c) => Some(c + bv),
                        None => Some(bv),
                    },
                    tick_declared: true,
                    ..kv0
                }));
            }
            Ok(kk)
        },
        Declaration::DrawDeclaration { body } => {
            if k.draw_handler.is_some() {
                return Err(RuntimeError::new(String::from_str("draw handler is already declared")));
            }
            let EntityKind {
                name,
                functions,
                constructor,
                tick_handler,
                draw_handler,
                ivars,
                constructor_declared,
                tick_declared,
            } = k;
            Ok(
                EntityKind {
                    name,
                    functions,
                    constructor,
                    tick_handler,
                    draw_handler: Some(body),
                    ivars,
                    constructor_declared,
                    tick_declared,
                },
            )
        },
        Declaration::InstanceVarDeclaration { names } => {
            let mut kb = k;
            let ghost k0 = kind_v(kb);
            let ghost all = strvs(names@);
            proof {
                assert(k0 == kind_v(k));
                assert(decl_v(d) == (DeclV::InstanceVars { names: all }));
                assert(all.subrange(0, all.len() as int) =~= all);
            }
            let mut i: usize = 0;
            while i < names.len()
                invariant
                    i <= names@.len(),
                    all == strvs(names@),
                    k0 == kind_v(k),
                    decl_v(d) == (DeclV::InstanceVars { names: all }),
                    fold_ivars(k0, all) == fold_ivars(
                        kind_v(kb),
                        all.subrange(i as int, all.len() as int),
                    ),
                decreases names@.len() - i,
            {
                if contains_name(&kb.ivars, names[i].as_str()) {
                    proof {
                        let suffix = all.subrange(i as int, all.len() as int);
                        assert(suffix[0] == strvs(names@)[i as int]);
                        assert(strvs(names@)[i as int] == names@[i as int]@);
                        assert(kind_v(kb).ivars.contains(suffix[0]));
                        assert(fold_ivars(kind_v(kb), suffix) is Err);
                        assert(fold_ivars(k0, all) is Err);
                        assert(fold_entity_decl(kindvs(kinds@), kind_v(k), decl_v(d)) is Err);
                    }
                    return Err(
                        RuntimeError::new(
                            concat3(
                                "instance variable `",
                                names[i].as_str(),
                                "` is already declared",
                            ),
                        ),
                    );
                }
                let ghost k_pre = kind_v(kb);
                let ghost suffix = all.subrange(i as int, all.len() as int);
                kb.ivars.push(names[i].clone());
                proof {
                    assert(suffix[0] == strvs(names@)[i as int]);
                    assert(strvs(kb.ivars@) =~= k_pre.ivars.push(strvs(names@)[i as int]));
                    assert(kind_v(kb) =~~= (KindV {
                        ivars: k_pre.ivars.push(suffix[0]),
                        ..k_pre
                    }));
                    assert(suffix.drop_first() =~= all.subrange(i + 1, all.len() as int));
                }
                i += 1;
            }
            proof {
                assert(all.subrange(i as int, all.len() as int).len() == 0);
            }
            Ok(kb)
        },
        Declaration::FunctionDeclaration { name, parameters, body } => {
            if find_fun(&k.functions, name.as_str()).is_some() {
                return Err(
                    RuntimeError::new(concat3("function `", name.as_str(), "` is already declared")),
                );
            }
            let mut k = k;
            let ghost k_pre = kind_v(k);
            let f = FunctionDeclaration { name, parameters, body };
            let ghost fv = fun_v(f);
            k.functions.push(f);
            proof {
                assert(funvs(k.functions@) =~= k_pre.functions.push(fv));
                assert(kind_v(k) =~~= (KindV { functions: k_pre.functions.push(fv), ..k_pre }));
            }
            Ok(k)
        },
        Declaration::UseDeclaration { name } => {
            let si = match find_kind(kinds, name.as_str()) {
                Some(si) => si,
                None => {
                    return Err(
                        RuntimeError::new(
                            concat3("no entity declaration named `", name.as_str(), "`"),
                        ),
                    );
                },
            };
            proof {
                lemma_lookup_kind(kindvs(kinds@), name@);
            }
            let src = &kinds[si];
            if k.draw_handler.is_some() && src.draw_handler.is_some() {
                return Err(
                    RuntimeError::new(
                        String::from_str(
                            "both used entity and target entity define `draw`, but that is not possible to merge",
                        ),
                    ),
                );
            }
            proof {
                assert(kindvs(kinds@)[si as int] == kind_v(kinds@[si as int]));
            }
            let ghost kv0 = kind_v(k);
            let ghost srcv = kind_v(kinds@[si as int]);

            // An instance variable declared on both sides would duplicate a
            // declaration, which the merge rejects.
            let mut ci: usize = 0;
            while ci < src.ivars.len()
                invariant
                    ci <= src.ivars@.len(),
                    0 <= si < kinds@.len(),
                    *src == kinds@[si as int],
                    srcv == kind_v(kinds@[si as int]),
                    srcv == kindvs(kinds@)[si as int],
                    lookup_kind(kindvs(kinds@), name@) == Some(si as int),
                    kind_v(k) == kv0,
                    decl_v(d) == (DeclV::Use { name: name@ }),
                    kv0.draw_handler is None || srcv.draw_handler is None,
                    forall|jj: int|
                        0 <= jj < ci ==> !kv0.ivars.contains(#[trigger] srcv.ivars[jj]),
                decreases src.ivars@.len() - ci,
            {
                if contains_name(&k.ivars, src.ivars[ci].as_str()) {
                    proof {
                        assert(srcv.ivars[ci as int] == src.ivars@[ci as int]@);
                        assert(kv0.ivars.contains(srcv.ivars[ci as int]));
                        assert(!names_disjoint(kv0.ivars, srcv.ivars));
                    }
                    return Err(
                        RuntimeError::new(
                            concat3(
                                "instance variable `",
                                src.ivars[ci].as_str(),
                                "` is already declared",
                            ),
                        ),
                    );
                }
                proof {
                    assert(strvs(src.ivars@)[ci as int] == src.ivars@[ci as int]@);
                }
                ci += 1;
            }
            proof {
                assert(names_disjoint(kv0.ivars, srcv.ivars)) by {
                    assert forall|ia: int, jb: int|
                        0 <= ia < kv0.ivars.len() && 0 <= jb < srcv.ivars.len() implies kv0.ivars[ia]
                        != srcv.ivars[jb] by {
                        assert(!kv0.ivars.contains(srcv.ivars[jb]));
                    }
                }
            }
            let EntityKind {
                name: kname,
                functions,
                constructor,
                tick_handler,
                draw_handler,
                ivars,
                constructor_declared,
                tick_declared,
            } = k;

            // Merge the imported functions, replacing same-named ones.
            let mut functions = functions;
            proof {
                assert(srcv.functions.subrange(0, srcv.functions.len() as int) =~= srcv.functions);
                assert(srcv.functions == funvs(kinds@[si as int].functions@));
            }
            let mut j: usize = 0;
            while j < src.functions.len()
                invariant
                    j <= src.functions@.len(),
                    j <= srcv.functions.len(),
                    0 <= si < kinds@.len(),
                    *src == kinds@[si as int],
                    srcv == kind_v(kinds@[si as int]),
                    srcv == kindvs(kinds@)[si as int],
                    lookup_kind(kindvs(kinds@), name@) == Some(si as int),
                    kind_v(k) == kv0,
                    decl_v(d) == (DeclV::Use { name: name@ }),
                    kv0.draw_handler is None || srcv.draw_handler is None,
                    merge_funs(kv0.functions, srcv.functions) == merge_funs(
                        funvs(functions@),
                        srcv.functions.subrange(j as int, srcv.functions.len() as int),
                    ),
                decreases src.functions@.len() - j,
            {
                let f = dup_fun(&src.functions[j]);
                let ghost pre = funvs(functions@);
                let ghost suffix = srcv.functions.subrange(j as int, srcv.functions.len() as int);
                proof {
                    assert(suffix[0] == funvs(src.functions@)[j as int]);
                    assert(funvs(src.functions@)[j as int] == fun_v(src.functions@[j as int]));
                    lemma_lookup_fun(pre, fun_v(f).name);
                }
                match find_fun(&functions, f.name.as_str()) {
                    Some(fi) => {
                        functions[fi] = f;
                        proof {
                            assert(funvs(functions@) =~= merge_fun(pre, suffix[0]));
                        }
                    },
                    None => {
                        functions.push(f);
                        proof {
                            assert(funvs(functions@) =~= merge_fun(pre, suffix[0]));
                        }
                    },
                }
                proof {
                    assert(suffix.drop_first() =~= srcv.functions.subrange(
                        j + 1,
                        srcv.functions.len() as int,
                    ));
                }
                j += 1;
            }
            proof {
                assert(srcv.functions.subrange(
                    srcv.functions.len() as int,
                    srcv.functions.len() as int,
                ).len() == 0);
                assert(merge_funs(kv0.functions, srcv.functions) == funvs(functions@));
            }

            // Concatenate the imported instance-variable names after the target's.
            let mut ivars = ivars;
            let mut src_ivars = dup_string_vec(&src.ivars);
            ivars.append(&mut src_ivars);
            proof {
                assert(strvs(ivars@) =~= kv0.ivars + srcv.ivars);
            }

            // The imported constructor and tick bodies run before the target's own.
            let imported_ctor = match &src.constructor {
                Some(b) => Some(dup_stmt_vec(b)),
                None => None,
            };
            let constructor = merge_body_vecs(imported_ctor, constructor);
            let imported_tick = match &src.tick_handler {
                Some(b) => Some(dup_stmt_vec(b)),
                None => None,
            };
            let tick_handler = merge_body_vecs(imported_tick, tick_handler);

            let kk = EntityKind {
                name: kname,
                functions,
                constructor,
                tick_handler,
                draw_handler,
                ivars,
                constructor_declared,
                tick_declared,
            };
            proof {
                assert(kind_v(kk) =~~= (KindV {
                    name: kv0.name,
                    functions: merge_funs(kv0.functions, srcv.functions),
                    constructor: merge_bodies(srcv.constructor, kv0.constructor),
                    tick_handler: merge_bodies(srcv.tick_handler, kv0.tick_handler),
                    draw_handler: kv0.draw_handler,
                    ivars: kv0.ivars + srcv.ivars,
                    constructor_declared: kv0.constructor_declared,
                    tick_declared: kv0.tick_declared,
                }));
            }
            Ok(kk)
        },
    }
}

impl Interpreter {
    /// Fold one top-level declaration into the program.
    ///
    /// Only entity declarations and a single top-level constructor may appear
    /// at the top level; an entity name already declared is rejected, and so
    /// is a second top-level constructor. On an error the program is left
    /// unchanged. The run state is never touched.
    pub fn interpret_declaration(&mut self, decl: Declaration) -> (r: Result<(), RuntimeError>)
        requires
            old(self).wf(),
        ensures
            final(self).wf(),
            final(self).sv() == old(self).sv(),
            match fold_top_decl(old(self).pv(), decl_v(decl)) {
                Ok(p2) => r is Ok && final(self).pv() == p2,
                Err(e) => r is Err && final(self).pv() == old(self).pv(),
            },
    {
        broadcast use crate::ast::group_ast_views;

        match decl {
            Declaration::EntityDeclaration { name, body } => {
                let ghost pv0 = self.pv();
                let ghost nv = name@;
                let ghost all = decls_v(body@);
                if find_kind(&self.program.entity_kinds, name.as_str()).is_some() {
                    return Err(
                        RuntimeError::new(
                            concat3("duplicate entity declaration `", name.as_str(), "`"),
                        ),
                    );
                }
                let mut k = EntityKind {
                    name,
                    functions: Vec::new(),
                    constructor: None,
                    tick_handler: None,
                    draw_handler: None,
                    ivars: Vec::new(),
                    constructor_declared: false,
                    tick_declared: false,
                };
                proof {
                    assert(kind_v(k) =~~= empty_kind(nv)) by {
                        assert(funvs(Seq::<FunctionDeclaration>::empty())
                            =~= Seq::<FunV>::empty());
                        assert(strvs(Seq::<String>::empty()) =~= Seq::<Seq<char>>::empty());
                    }
                    assert(all.subrange(0, all.len() as int) =~= all);
                }
                let mut body = body;
                while body.len() > 0
                    invariant
                        *self == *old(self),
                        self.wf(),
                        pv0 == self.pv(),
                        decl_v(decl) == (DeclV::Entity { name: nv, body: all }),
                        lookup_kind(pv0.kinds, nv) is None,
                        fold_entity_body(pv0.kinds, empty_kind(nv), all) == fold_entity_body(
                            pv0.kinds,
                            kind_v(k),
                            decls_v(body@),
                        ),
                    decreases body@.len(),
                {
                    let ghost pre_body = body@;
                    let dd = body.remove(0);
                    proof {
                        crate::ast::lemma_decls_v(pre_body);
                        crate::ast::lemma_decls_v(body@);
                        assert(decls_v(pre_body)[0] == decl_v(dd));
                        assert(body@ =~= pre_body.drop_first());
                        assert(decls_v(body@) =~= decls_v(pre_body).drop_first());
                    }
                    let kr = apply_entity_decl(&self.program.entity_kinds, k, dd);
                    k = match kr {
                        Ok(k2) => k2,
                        Err(e) => {
                            return Err(e);
                        },
                    };
                }
                proof {
                    crate::ast::lemma_decls_v(body@);
                    assert(decls_v(body@).len() == 0);
                    assert(fold_entity_body(pv0.kinds, empty_kind(nv), all) == Ok::<KindV, ()>(
                        kind_v(k),
                    ));
                }
                let ghost kv_final = kind_v(k);
                self.program.entity_kinds.push(k);
                proof {
                    lemma_lookup_kind(pv0.kinds, nv);
                    lemma_fold_entity_body_name(pv0.kinds, empty_kind(nv), all);
                    assert(kv_final.name == nv);
                    assert(kindvs(self.program.entity_kinds@) =~= pv0.kinds.push(kv_final));
                    assert(self.pv() =~~= (ProgV { kinds: pv0.kinds.push(kv_final), ..pv0 }));
                    assert(state_v(self.state) == old(self).sv());
                    assert(prog_wf(self.pv())) by {
                        assert(forall|i: int|
                            0 <= i < pv0.kinds.len() ==> (#[trigger] self.pv().kinds[i])
                                == pv0.kinds[i]);
                        assert(self.pv().kinds[pv0.kinds.len() as int].name == nv);
                    }
                    assert(state_wf(self.sv(), self.pv()));
                }
                Ok(())
            },
            Declaration::ConstructorDeclaration { body } => {
                if self.program.top_ctor_declared {
                    return Err(
                        RuntimeError::new(
                            String::from_str("top-level constructor is already declared"),
                        ),
                    );
                }
                let ghost pv0 = self.pv();
                self.program.top_level_constructor = body;
                self.program.top_ctor_declared = true;
                proof {
                    assert(self.pv() =~~= (ProgV {
                        top_ctor: stmts_v(body@),
                        top_ctor_declared: true,
                        ..pv0
                    }));
                }
                Ok(())
            },
            Declaration::TickDeclaration { body } => Err(
                RuntimeError::new(
                    String::from_str("tick declarations cannot appear outside of an entity"),
                ),
            ),
            Declaration::DrawDeclaration { body } => Err(
                RuntimeError::new(
                    String::from_str("draw declarations cannot appear outside of an entity"),
                ),
            ),
            Declaration::InstanceVarDeclaration { names } => Err(
                RuntimeError::new(
                    String::from_str(
                        "instance variable declarations cannot appear outside of an entity",
                    ),
                ),
            ),
            Declaration::FunctionDeclaration { name, parameters, body } => Err(
                RuntimeError::new(
                    String::from_str("function declarations cannot appear outside of an entity"),
                ),
            ),
            Declaration::UseDeclaration { name } => Err(
                RuntimeError::new(
                    String::from_str("use declarations cannot appear outside of an entity"),
                ),
            ),
        }
    }

    /// An interpreter loaded with the given declarations, folded in order;
    /// the first rejected declaration aborts the load.
    pub fn with_declarations(declarations: Vec<Declaration>) -> (r: Result<
        Interpreter,
        RuntimeError,
    >)
        ensures
            match fold_program(
                ProgV { kinds: Seq::empty(), top_ctor: Seq::empty(), top_ctor_declared: false },
                decls_v(declarations@),
            ) {
                Ok(p) => r matches Ok(it) && it.wf() && it.pv() == p && it.sv() == (StateV {
                    entities: Seq::empty(),
                    next_id: 1,
                    pending: Seq::empty(),
                    sounds: Seq::empty(),
                    echoes: Seq::empty(),
                    input: InputReport {
                        up: false,
                        down: false,
                        left: false,
                        right: false,
                        x: false,
                        z: false,
                    },
                    display: DisplayConfig { width: 0, height: 0 },
                }),
                Err(e) => r is Err,
            },
    {
        broadcast use crate::ast::group_ast_views;

        let mut interpreter = Interpreter::new();
        let ghost sv0 = interpreter.sv();
        let ghost all = decls_v(declarations@);
        proof {
            assert(interpreter.pv() =~~= (ProgV {
                kinds: Seq::empty(),
                top_ctor: Seq::empty(),
                top_ctor_declared: false,
            })) by {
                assert(kindvs(Seq::<EntityKind>::empty()) =~= Seq::<KindV>::empty());
                assert(stmts_v(Seq::<Statement>::empty()) =~= Seq::<StmtV>::empty());
            }
            assert(sv0 =~~= (StateV {
                entities: Seq::empty(),
                next_id: 1,
                pending: Seq::empty(),
                sounds: Seq::empty(),
                echoes: Seq::empty(),
                input: InputReport {
                    up: false,
                    down: false,
                    left: false,
                    right: false,
                    x: false,
                    z: false,
                },
                display: DisplayConfig { width: 0, height: 0 },
            }));
        }
        let mut ds = declarations;
        while ds.len() > 0
            invariant
                interpreter.wf(),
                interpreter.sv() == sv0,
                sv0 == (StateV {
                    entities: Seq::empty(),
                    next_id: 1,
                    pending: Seq::empty(),
                    sounds: Seq::empty(),
                    echoes: Seq::empty(),
                    input: InputReport {
                        up: false,
                        down: false,
                        left: false,
                        right: false,
                        x: false,
                        z: false,
                    },
                    display: DisplayConfig { width: 0, height: 0 },
                }),
                all == decls_v(declarations@),
                fold_program(
                    ProgV { kinds: Seq::empty(), top_ctor: Seq::empty(), top_ctor_declared: false },
                    all,
                ) == fold_program(interpreter.pv(), decls_v(ds@)),
            decreases ds@.len(),
        {
            let ghost pre = ds@;
            let dd = ds.remove(0);
            proof {
                crate::ast::lemma_decls_v(pre);
                crate::ast::lemma_decls_v(ds@);
                assert(decls_v(pre)[0] == decl_v(dd));
                assert(ds@ =~= pre.drop_first());
                assert(decls_v(ds@) =~= decls_v(pre).drop_first());
            }
            match interpreter.interpret_declaration(dd) {
                Ok(u) => u,
                Err(e) => {
                    return Err(e);
                },
            };
        }
        proof {
            crate::ast::lemma_decls_v(ds@);
            assert(decls_v(ds@).len() == 0);
        }
        Ok(interpreter)
    }
}

/// The object a value yields in an rvalue position, if reading it succeeds.
pub open spec fn val_read(vv: ValV) -> Option<ObjV> {
    match vv {
        ValV::ReadOnly(o) => Some(o),
        ValV::ReadWrite(o, t) => Some(o),
        ValV::WriteOnly(t) => None,
    }
}

/// What assigning `o` through a resolved target does: a local is updated or
/// created in the frame; an instance variable is updated on its live entity;
/// a read-only value admits no write.
pub open spec fn write_post(
    tvv: ValV,
    o: ObjV,
    pre: StateV,
    fpre: FrameV,
    post: StateV,
    fpost: FrameV,
) -> bool {
    match tvv {
        ValV::ReadOnly(x) => false,
        ValV::WriteOnly(t) => target_write_post(t, o, pre, fpre, post, fpost),
        ValV::ReadWrite(x, t) => target_write_post(t, o, pre, fpre, post, fpost),
    }
}

/// What assigning `o` through the resolved target itself does.
pub open spec fn target_write_post(
    t: TargetV,
    o: ObjV,
    pre: StateV,
    fpre: FrameV,
    post: StateV,
    fpost: FrameV,
) -> bool {
    match t {
        TargetV::Local(n) => post == pre && fpost == (FrameV {
            locals: assoc_set(fpre.locals, n, o),
            entity: fpre.entity,
        }),
        TargetV::InstanceVar(id, n) => fpost == fpre && pre.live(id) && post == (StateV {
            entities: pre.entities.update(
                pre.find(id)->0,
                EntityV {
                    ivars: assoc_set(pre.ivars_of(id), n, o),
                    ..pre.entities[pre.find(id)->0]
                },
            ),
            ..pre
        }),
    }
}

/// The result of one binary operation over the operands' values: arithmetic
/// and ordering require numbers and go through the IEEE-754 bit functions;
/// equality is the language's structural equality over any operands; a
/// logical operator reaching its right side requires booleans on both.
pub open spec fn binop_result(op: BinaryOperator, lo: ObjV, ro: ObjV, out: ObjV) -> bool {
    match op {
        BinaryOperator::Add => match (lo, ro) {
            (ObjV::Number(a), ObjV::Number(b)) => out == ObjV::Number(add_bits(a, b)),
            _ => false,
        },
        BinaryOperator::Subtract => match (lo, ro) {
            (ObjV::Number(a), ObjV::Number(b)) => out == ObjV::Number(sub_bits(a, b)),
            _ => false,
        },
        BinaryOperator::Multiply => match (lo, ro) {
            (ObjV::Number(a), ObjV::Number(b)) => out == ObjV::Number(mul_bits(a, b)),
            _ => false,
        },
        BinaryOperator::Divide => match (lo, ro) {
            (ObjV::Number(a), ObjV::Number(b)) => out == ObjV::Number(div_bits(a, b)),
            _ => false,
        },
        BinaryOperator::LessThan => match (lo, ro) {
            (ObjV::Number(a), ObjV::Number(b)) => out == ObjV::Boolean(lt_bits(a, b)),
            _ => false,
        },
        BinaryOperator::GreaterThan => match (lo, ro) {
            (ObjV::Number(a), ObjV::Number(b)) => out == ObjV::Boolean(lt_bits(b, a)),
            _ => false,
        },
        BinaryOperator::LessThanOrEquals => match (lo, ro) {
            (ObjV::Number(a), ObjV::Number(b)) => out == ObjV::Boolean(le_bits(a, b)),
            _ => false,
        },
        BinaryOperator::GreaterThanOrEquals => match (lo, ro) {
            (ObjV::Number(a), ObjV::Number(b)) => out == ObjV::Boolean(le_bits(b, a)),
            _ => false,
        },
        BinaryOperator::Equals => out == ObjV::Boolean(crate::object::obj_eq_v(lo, ro)),
        BinaryOperator::NotEquals => out == ObjV::Boolean(!crate::object::obj_eq_v(lo, ro)),
        BinaryOperator::And => lo == ObjV::Boolean(true) && (match ro {
            ObjV::Boolean(rb) => out == ObjV::Boolean(rb),
            _ => false,
        }),
        BinaryOperator::Or => lo == ObjV::Boolean(false) && (match ro {
            ObjV::Boolean(rb) => out == ObjV::Boolean(rb),
            _ => false,
        }),
    }
}

/// What evaluating `left op right` guarantees on success: the left operand
/// evaluates first; a false `and` or true `or` left side short-circuits with
/// the right side never evaluated; otherwise the right operand evaluates and
/// the result is `binop_result` over the two values.
pub open spec fn binop_post(
    pv: ProgV,
    parent: ExprV,
    left: ExprV,
    right: ExprV,
    operator: BinaryOperator,
    fuel: u64,
    pre: StateV,
    fpre: FrameV,
    post: StateV,
    r: Result<Value, RuntimeError>,
) -> bool
    decreases fuel, 3int, 0int,
{
    if fuel == 0 {
        true
    } else {
    match r {
        Ok(res) => exists|lv: Value, mid: StateV|
            #![trigger val_v(lv), state_wf(mid, pv)]
            {
                &&& expr_post(pv, pre, fpre, left, (fuel - 1) as u64, mid, Ok(lv))
                &&& (match val_read(val_v(lv)) {
                    Some(lo) => {
                        if operator == BinaryOperator::And && lo == ObjV::Boolean(false) {
                            post == mid && (match val_read(val_v(res)) {
                                Some(o) => o == ObjV::Boolean(false),
                                None => false,
                            })
                        } else if operator == BinaryOperator::Or && lo == ObjV::Boolean(true) {
                            post == mid && (match val_read(val_v(res)) {
                                Some(o) => o == ObjV::Boolean(true),
                                None => false,
                            })
                        } else {
                            exists|rv: Value, mid2: StateV|
                                #![trigger val_v(rv), state_wf(mid2, pv)]
                                {
                                    &&& expr_post(pv, mid, fpre, right, (fuel - 1) as u64, mid2, Ok(rv))
                                    &&& (match (val_read(val_v(rv)), val_read(val_v(res))) {
                                        (Some(ro_), Some(out)) => post == mid2 && binop_result(
                                            operator,
                                            lo,
                                            ro_,
                                            out,
                                        ),
                                        _ => false,
                                    })
                                }
                        }
                    },
                    None => false,
                })
            },
        Err(e) => true,
    }
    }
}

/// The call produced exactly this value.
pub open spec fn ok_val(r: Result<Value, RuntimeError>, vv: ValV) -> bool {
    match r {
        Ok(v) => val_v(v) == vv,
        Err(e) => false,
    }
}

/// The call produced exactly this read-only object.
pub open spec fn ok_ro(r: Result<Value, RuntimeError>, o: ObjV) -> bool {
    ok_val(r, ValV::ReadOnly(o))
}

/// Whatever the call produced, success is a read-only value.
pub open spec fn ok_is_ro(r: Result<Value, RuntimeError>) -> bool {
    match r {
        Ok(v) => val_v(v) is ReadOnly,
        Err(e) => true,
    }
}

/// Whatever the call produced, success is a read-only array.
pub open spec fn ok_is_ro_array(r: Result<Value, RuntimeError>) -> bool {
    match r {
        Ok(v) => val_v(v) matches ValV::ReadOnly(ObjV::Array(_)),
        Err(e) => true,
    }
}

/// Whatever the call produced, success falls through to the next statement.
pub open spec fn ok_is_continue(r: Result<ControlSignal, RuntimeError>) -> bool {
    match r {
        Ok(sig) => sig is Continue,
        Err(e) => true,
    }
}

/// Whatever the call produced, success is a break signal.
pub open spec fn ok_is_break(r: Result<ControlSignal, RuntimeError>) -> bool {
    match r {
        Ok(sig) => sig is Break,
        Err(e) => true,
    }
}

/// The call produced exactly this object.
pub open spec fn ok_obj(r: Result<Object, RuntimeError>, o: ObjV) -> bool {
    match r {
        Ok(ro) => obj_v(ro) == o,
        Err(e) => false,
    }
}

/// The call produced exactly this control signal.
pub open spec fn ok_sig(r: Result<ControlSignal, RuntimeError>, c: ControlV) -> bool {
    match r {
        Ok(sig) => control_v(sig) == c,
        Err(e) => false,
    }
}

/// The call-depth budget for one host entry point. The language has no
/// unbounded loops, so only nesting (expressions, bodies, user-function
/// calls, spawned constructors) consumes budget; exhausting it reports a
/// clean runtime error instead of overrunning the native stack.
pub const EVAL_FUEL: u64 = 4096;

/// The recursion budget for one description: instance variables may refer
/// back to their own entity, and a description trails off as `...` at this
/// depth.
pub const DESCRIBE_FUEL: u64 = 64;

/// What a bare identifier evaluates to: the fixed built-in singleton names
/// first, then a declared entity kind, then a local of the frame; an unknown
/// name is a write-only value that creates the local on assignment.
pub open spec fn ident_val(name: Seq<char>, pv: ProgV, fv: FrameV) -> ValV {
    if name == "Input"@ {
        ValV::ReadOnly(ObjV::InputSingleton)
    } else if name == "Display"@ {
        ValV::ReadOnly(ObjV::DisplaySingleton)
    } else if name == "Math"@ {
        ValV::ReadOnly(ObjV::MathSingleton)
    } else {
        match lookup_kind(pv.kinds, name) {
            Some(ki) => ValV::ReadOnly(ObjV::EntityKind(ki)),
            None => match assoc_get(fv.locals, name) {
                Some(o) => ValV::ReadWrite(o, TargetV::Local(name)),
                None => ValV::WriteOnly(TargetV::Local(name)),
            },
        }
    }
}

/// What an `@name` reference evaluates to: the named instance variable of
/// the frame's active entity, or nothing when no entity is active, the
/// entity is gone, or the variable was never declared on its kind.
pub open spec fn ivar_val(name: Seq<char>, fv: FrameV, sv: StateV) -> Option<ValV> {
    match fv.entity {
        None => None,
        Some(id) => {
            if !sv.live(id) {
                None
            } else {
                match assoc_get(sv.ivars_of(id), name) {
                    Some(o) => Some(ValV::ReadWrite(o, TargetV::InstanceVar(id, name))),
                    None => None,
                }
            }
        },
    }
}

/// A value's assignment target, if any, refers to a live entity.
pub open spec fn val_target_live(vv: ValV, sv: StateV) -> bool {
    match vv {
        ValV::WriteOnly(t) | ValV::ReadWrite(_, t) => match t {
            TargetV::InstanceVar(id, _) => sv.live(id),
            TargetV::Local(_) => true,
        },
        ValV::ReadOnly(_) => true,
    }
}

/// The entities of the given kind, in registry order, as entity values.
pub open spec fn all_of_kind(entities: Seq<EntityV>, ki: int) -> Seq<ObjV>
    decreases entities.len(),
{
    if entities.len() == 0 {
        Seq::empty()
    } else {
        all_of_kind(entities.drop_last(), ki) + (if entities.last().kind == ki {
            seq![ObjV::Entity(entities.last().id)]
        } else {
            Seq::empty()
        })
    }
}

/// The instance variables a fresh entity starts with: every declared name
/// bound to null, in declaration order, a repeated name bound once.
pub open spec fn init_ivars(
    names: Seq<Seq<char>>,
    acc: Seq<(Seq<char>, ObjV)>,
) -> Seq<(Seq<char>, ObjV)>
    decreases names.len(),
{
    if names.len() == 0 {
        acc
    } else {
        init_ivars(names.drop_first(), assoc_set(acc, names[0], ObjV::Null))
    }
}

/// The locals a user-function call starts from: each parameter bound to its
/// argument, left to right (a repeated parameter name keeps the last
/// argument, as the later binding overwrites the earlier).
pub open spec fn bind_params(
    params: Seq<Seq<char>>,
    args: Seq<ObjV>,
    acc: Seq<(Seq<char>, ObjV)>,
) -> Seq<(Seq<char>, ObjV)>
    decreases params.len(),
{
    if params.len() == 0 || args.len() == 0 {
        acc
    } else {
        bind_params(
            params.drop_first(),
            args.drop_first(),
            assoc_set(acc, params[0], args[0]),
        )
    }
}

/// Register a fresh instance of the kind at table index `ki`: allocate the
/// next id, set every declared instance variable to null, append the entity
/// to the registry, and then run the kind's constructor (if any) with the
/// new entity active. The entity is visible in the registry before its
/// constructor runs, and stays registered even if the constructor fails.
#[verifier::loop_isolation(false)]
pub(crate) fn spawn_kind(prog: &Program, st: &mut RunState, ki: usize, fuel: u64) -> (r: Result<
    EntityId,
    RuntimeError,
>)
    requires
        ki < prog.entity_kinds@.len(),
        prog_wf(prog_v(*prog)),
        state_wf(state_v(*old(st)), prog_v(*prog)),
    ensures
        state_wf(state_v(*final(st)), prog_v(*prog)),
        evolves(state_v(*old(st)), state_v(*final(st))),
        r matches Ok(id) ==> id.0 == state_v(*old(st)).next_id && state_v(*final(st)).live(id.0),
        state_v(*old(st)).next_id < u64::MAX ==> state_v(*final(st)).live(
            state_v(*old(st)).next_id,
        ) && state_v(*final(st)).next_id > state_v(*old(st)).next_id,
        state_v(*old(st)).next_id == u64::MAX ==> r is Err && *final(st) == *old(st),
        fuel > 0 && state_v(*old(st)).next_id < u64::MAX && prog_v(*prog).kinds[ki
            as int].constructor is None ==> r is Ok,
        r is Ok ==> exists|mid: StateV, fmid: FrameV, sig: Result<ControlSignal, RuntimeError>|
            #![trigger step_witness(mid, fmid, sig)]
            {
                &&& step_witness(mid, fmid, sig)
                &&& mid == (StateV {
                    entities: state_v(*old(st)).entities.push(
                        EntityV {
                            id: state_v(*old(st)).next_id,
                            kind: ki as int,
                            ivars: init_ivars(prog_v(*prog).kinds[ki as int].ivars, Seq::empty()),
                        },
                    ),
                    next_id: (state_v(*old(st)).next_id + 1) as u64,
                    ..state_v(*old(st))
                })
                &&& (match prog_v(*prog).kinds[ki as int].constructor {
                    Some(cb) => sig is Ok && body_post(
                        prog_v(*prog),
                        cb,
                        (fuel - 1) as u64,
                        mid,
                        FrameV { locals: Seq::empty(), entity: Some(state_v(*old(st)).next_id) },
                        state_v(*final(st)),
                        fmid,
                        sig,
                    ),
                    None => state_v(*final(st)) == mid && sig is Ok,
                })
            },
    decreases fuel, 0int,
{
    let ghost sv0 = state_v(*st);
    if st.next_entity_id == u64::MAX {
        return Err(RuntimeError::new(String::from_str("entity ids are exhausted")));
    }
    let id = EntityId(st.next_entity_id);
    st.next_entity_id = st.next_entity_id + 1;

    // Build the instance with every declared variable set to null. A name
    // declared twice is initialized once.
    let ghost namesv = prog_v(*prog).kinds[ki as int].ivars;
    let mut iv: Vec<(String, Object)> = Vec::new();
    let names = &prog.entity_kinds[ki].ivars;
    proof {
        assert(namesv == strvs(names@));
        assert(namesv.subrange(0, namesv.len() as int) =~= namesv);
        assert(assoc_v(iv@) =~= Seq::<(Seq<char>, ObjV)>::empty());
    }
    let mut i: usize = 0;
    while i < names.len()
        invariant
            i <= names@.len(),
            namesv == strvs(names@),
            namesv.len() == names@.len(),
            keys_unique(assoc_v(iv@)),
            init_ivars(namesv, Seq::empty()) == init_ivars(
                namesv.subrange(i as int, namesv.len() as int),
                assoc_v(iv@),
            ),
        decreases names@.len() - i,
    {
        let ghost suffix = namesv.subrange(i as int, namesv.len() as int);
        proof {
            assert(suffix[0] == strvs(names@)[i as int]);
            assert(suffix.drop_first() =~= namesv.subrange(i + 1, namesv.len() as int));
        }
        assoc_write(&mut iv, names[i].clone(), Object::Null);
        i += 1;
    }
    proof {
        assert(namesv.subrange(i as int, namesv.len() as int).len() == 0);
        assert(assoc_v(iv@) == init_ivars(namesv, Seq::empty()));
    }
    let ghost pre_push = state_v(*st);
    let ent = Entity { id, kind: ki, ivars: iv };
    let ghost newent = entity_v(ent);
    st.entities.push(ent);
    proof {
        assert(pre_push.entities =~= sv0.entities);
        assert(entityvs(st.entities@) =~= pre_push.entities.push(newent));
        assert(forall|j: int|
            0 <= j < pre_push.entities.len() ==> (#[trigger] entityvs(st.entities@)[j])
                == pre_push.entities[j]);
        assert(entityvs(st.entities@)[pre_push.entities.len() as int] == newent);
        assert(forall|j: int|
            0 <= j < pre_push.entities.len() ==> (#[trigger] pre_push.entities[j]).id < id.0) by {
            assert(forall|j: int|
                0 <= j < sv0.entities.len() ==> (#[trigger] sv0.entities[j]).id < sv0.next_id);
        }
        assert(keys_unique(newent.ivars));
        let svn = state_v(*st);
        let n0 = sv0.entities.len() as int;
        assert(svn.entities.len() == n0 + 1);
        assert forall|j: int| 0 <= j < svn.entities.len() implies 0 <= (
        #[trigger] svn.entities[j]).kind < prog_v(*prog).kinds.len() by {
            if j < n0 {
                assert(svn.entities[j] == sv0.entities[j]);
            } else {
                assert(svn.entities[j] == newent);
            }
        }
        assert forall|j: int| 0 <= j < svn.entities.len() implies (
        #[trigger] svn.entities[j]).id < svn.next_id by {
            if j < n0 {
                assert(svn.entities[j] == sv0.entities[j]);
            } else {
                assert(svn.entities[j] == newent);
            }
        }
        assert forall|ia: int, ja: int| 0 <= ia < ja < svn.entities.len() implies (
        #[trigger] svn.entities[ia]).id < (#[trigger] svn.entities[ja]).id by {
            assert(svn.entities[ia] == sv0.entities[ia]);
            if ja < n0 {
                assert(svn.entities[ja] == sv0.entities[ja]);
            } else {
                assert(svn.entities[ja] == newent);
            }
        }
        assert forall|j: int| 0 <= j < svn.entities.len() implies keys_unique(
            (#[trigger] svn.entities[j]).ivars,
        ) by {
            if j < n0 {
                assert(svn.entities[j] == sv0.entities[j]);
            } else {
                assert(svn.entities[j] == newent);
            }
        }
        assert(svn.pending == sv0.pending);
        assert(state_wf(svn, prog_v(*prog)));
        assert(svn.live(id.0));
        assert forall|xid: u64| #[trigger] sv0.live(xid) implies svn.live(xid) by {
            let wi = choose|wi: int| 0 <= wi < sv0.entities.len() && sv0.entities[wi].id == xid;
            assert(svn.entities[wi].id == xid);
        }
        assert forall|xid: u64| #[trigger] svn.live(xid) implies sv0.live(xid) || sv0.next_id
            <= xid by {
            let wi = choose|wi: int| 0 <= wi < svn.entities.len() && svn.entities[wi].id == xid;
            if wi < n0 {
                assert(sv0.entities[wi].id == xid);
            } else {
                assert(xid == id.0);
            }
        }
        assert(evolves(sv0, svn));
        assert(svn =~~= (StateV {
            entities: sv0.entities.push(
                EntityV {
                    id: sv0.next_id,
                    kind: ki as int,
                    ivars: init_ivars(namesv, Seq::empty()),
                },
            ),
            next_id: (sv0.next_id + 1) as u64,
            ..sv0
        }));
    }
    let ghost gmid = state_v(*st);

    // Execute the constructor with the new entity as the active context.
    if fuel == 0 {
        return Err(RuntimeError::new(String::from_str("evaluation budget exhausted")));
    }
    if let Some(body) = &prog.entity_kinds[ki].constructor {
        let ghost sv1 = state_v(*st);
        let mut ctor_frame = Frame { locals: Vec::new(), entity: Some(id) };
        proof {
            assert(frame_wf(frame_v(ctor_frame), state_v(*st)));
            assert(frame_v(ctor_frame) =~~= (FrameV {
                locals: Seq::empty(),
                entity: Some(sv0.next_id),
            }));
        }
        let res = exec_body(prog, st, &mut ctor_frame, body, fuel - 1);
        let ghost gsig = res;
        match res {
            Ok(_) => {},
            Err(e) => {
                proof {
                    lemma_evolves_trans(sv0, sv1, state_v(*st));
                }
                return Err(e);
            },
        }
        proof {
            lemma_evolves_trans(sv0, sv1, state_v(*st));
            // The constructor run witnesses the spawn's shape.
            assert(prog_v(*prog).kinds[ki as int].constructor == Some(stmts_v(body@)));
            assert(step_witness(gmid, frame_v(ctor_frame), gsig));
            assert(body_post(
                prog_v(*prog),
                stmts_v(body@),
                (fuel - 1) as u64,
                gmid,
                FrameV { locals: Seq::empty(), entity: Some(sv0.next_id) },
                state_v(*st),
                frame_v(ctor_frame),
                gsig,
            ));
        }
        return Ok(id);
    }
    proof {
        assert(prog_v(*prog).kinds[ki as int].constructor is None);
        let sig0 = Ok::<ControlSignal, RuntimeError>(ControlSignal::Continue);
        let fmid0 = FrameV { locals: Seq::empty(), entity: None };
        assert(step_witness(gmid, fmid0, sig0));
        assert(state_v(*st) == gmid);
    }
    Ok(id)
}

/// Run the statements of a body in order; a `return` stops the body and
/// carries its value up as a break signal.
#[verifier::loop_isolation(false)]
pub(crate) fn exec_body(
    prog: &Program,
    st: &mut RunState,
    frame: &mut Frame,
    body: &Vec<Statement>,
    fuel: u64,
) -> (r: Result<ControlSignal, RuntimeError>)
    requires
        prog_wf(prog_v(*prog)),
        state_wf(state_v(*old(st)), prog_v(*prog)),
        frame_wf(frame_v(*old(frame)), state_v(*old(st))),
    ensures
        state_wf(state_v(*final(st)), prog_v(*prog)),
        frame_wf(frame_v(*final(frame)), state_v(*final(st))),
        evolves(state_v(*old(st)), state_v(*final(st))),
        frame_v(*final(frame)).entity == frame_v(*old(frame)).entity,
        body@.len() == 0 ==> ok_sig(r, ControlV::Continue) && *final(st) == *old(st) && *final(frame) == *old(frame),
        body_post(
            prog_v(*prog),
            stmts_v(body@),
            fuel,
            state_v(*old(st)),
            frame_v(*old(frame)),
            state_v(*final(st)),
            frame_v(*final(frame)),
            r,
        ),
    decreases fuel, 0int,
{
    broadcast use crate::ast::group_ast_views;

    let ghost pvg = prog_v(*prog);
    let ghost whole = stmts_v(body@);
    let ghost pre0 = state_v(*st);
    let ghost fpre0 = frame_v(*frame);
    if body.len() == 0 {
        let out = Ok(ControlSignal::Continue);
        proof {
            assert(body_post(pvg, whole, fuel, pre0, fpre0, pre0, fpre0, out));
        }
        return out;
    }
    proof {
        assert(whole.subrange(0, whole.len() as int) =~= whole);
    }
    let mut i: usize = 0;
    while i < body.len()
        invariant
            prog_wf(pvg),
            pvg == prog_v(*prog),
            whole == stmts_v(body@),
            whole.len() == body@.len(),
            i <= body@.len(),
            state_wf(state_v(*st), pvg),
            frame_wf(frame_v(*frame), state_v(*st)),
            evolves(pre0, state_v(*st)),
            frame_v(*frame).entity == fpre0.entity,
            forall|p2: StateV, f2: FrameV, r2: Result<ControlSignal, RuntimeError>|
                body_post(
                    pvg,
                    whole.subrange(i as int, whole.len() as int),
                    fuel,
                    state_v(*st),
                    frame_v(*frame),
                    p2,
                    f2,
                    r2,
                ) ==> #[trigger] body_post(pvg, whole, fuel, pre0, fpre0, p2, f2, r2),
        decreases body@.len() - i,
    {
        let ghost svb = state_v(*st);
        let ghost fvb = frame_v(*frame);
        let ghost suffix = whole.subrange(i as int, whole.len() as int);
        proof {
            // Freeze the composition fact over this iteration's entry state.
            assert(forall|p2: StateV, f2: FrameV, r2: Result<ControlSignal, RuntimeError>|
                body_post(pvg, suffix, fuel, svb, fvb, p2, f2, r2) ==> #[trigger] body_post(
                    pvg,
                    whole,
                    fuel,
                    pre0,
                    fpre0,
                    p2,
                    f2,
                    r2,
                ));
            assert(suffix.len() > 0);
        }
        if fuel == 0 {
            let out = Err(RuntimeError::new(String::from_str("evaluation budget exhausted")));
            proof {
                assert(body_post(pvg, suffix, fuel, svb, fvb, svb, fvb, out));
            }
            return out;
        }
        let sig = exec_stmt(prog, st, frame, &body[i], fuel - 1);
        let ghost gstep = sig;
        proof {
            lemma_evolves_trans(pre0, svb, state_v(*st));
            assert(suffix[0] == stmt_v(body@[i as int]));
            assert(suffix.drop_first() =~= whole.subrange(i + 1, whole.len() as int));
            assert(step_witness(state_v(*st), frame_v(*frame), gstep));
            assert(stmt_post(
                pvg,
                suffix[0],
                svb,
                fvb,
                (fuel - 1) as u64,
                state_v(*st),
                frame_v(*frame),
                gstep,
            ));
        }
        match sig {
            Ok(ControlSignal::Continue) => {
                proof {
                    assert forall|p2: StateV, f2: FrameV, r2: Result<ControlSignal, RuntimeError>|
                        body_post(
                            pvg,
                            whole.subrange(i + 1, whole.len() as int),
                            fuel,
                            state_v(*st),
                            frame_v(*frame),
                            p2,
                            f2,
                            r2,
                        ) implies #[trigger] body_post(
                        pvg,
                        whole,
                        fuel,
                        pre0,
                        fpre0,
                        p2,
                        f2,
                        r2,
                    ) by {
                        assert(body_post(pvg, suffix, fuel, svb, fvb, p2, f2, r2));
                    }
                }
                i += 1;
            },
            Ok(ControlSignal::Break(v)) => {
                let out = Ok(ControlSignal::Break(v));
                let ghost gout = out;
                proof {
                    assert(evolves(svb, state_v(*st)));
                    assert(frame_v(*frame).entity == fvb.entity);
                    assert(gstep matches Ok(gsig) && gsig is Break);
                    assert(gout matches Ok(rs) && control_v(rs) == control_v(gstep->Ok_0));
                    assert(body_post(pvg, suffix, fuel, svb, fvb, state_v(*st), frame_v(*frame), gout));
                }
                return out;
            },
            Err(e) => {
                let out = Err(e);
                let ghost gout = out;
                proof {
                    assert(body_post(pvg, suffix, fuel, svb, fvb, state_v(*st), frame_v(*frame), gout));
                }
                return out;
            },
        }
    }
    let out = Ok(ControlSignal::Continue);
    proof {
        assert(whole.subrange(i as int, whole.len() as int).len() == 0);
        assert(body_post(
            pvg,
            whole.subrange(i as int, whole.len() as int),
            fuel,
            state_v(*st),
            frame_v(*frame),
            state_v(*st),
            frame_v(*frame),
            out,
        ));
    }
    out
}

/// What executing a statement guarantees, arm by arm.
pub open spec fn stmt_post(
    pv: ProgV,
    sv: StmtV,
    pre: StateV,
    fpre: FrameV,
    fuel: u64,
    post: StateV,
    fpost: FrameV,
    r: Result<ControlSignal, RuntimeError>,
) -> bool
    decreases fuel, 1int, 0int,
{
    match sv {
        StmtV::Return(re) => {
            &&& (re is None && fuel > 0 ==> ok_sig(r, ControlV::Break(ObjV::Null)) && post == pre
                && fpost == fpre)
            &&& ok_is_break(r)
            &&& (match re {
                Some(ev) => (match r {
                    Ok(sig) => fuel > 0 && exists|v: Value|
                        #![trigger val_v(v)]
                        {
                            &&& expr_post(pv, pre, fpre, ev, (fuel - 1) as u64, post, Ok(v))
                            &&& fpost == fpre
                            &&& (match val_read(val_v(v)) {
                                Some(o) => control_v(sig) == ControlV::Break(o),
                                None => false,
                            })
                        },
                    Err(e) => true,
                }),
                None => true,
            })
        },
        StmtV::Expr(ev) => {
            &&& ok_is_continue(r)
            &&& (match r {
                Ok(sig) => fuel > 0 && exists|v: Value|
                    #![trigger val_v(v)]
                    {
                        &&& expr_post(pv, pre, fpre, ev, (fuel - 1) as u64, post, Ok(v))
                        &&& fpost == fpre
                        &&& val_read(val_v(v)) is Some
                    },
                Err(e) => true,
            })
        },
        StmtV::Assign { target, value } => {
            &&& ok_is_continue(r)
            &&& ((match target {
                ExprV::Ident(n) => (match ident_val(n, pv, fpre) {
                    ValV::ReadOnly(_) => false,
                    _ => const_num_expr(value) && fuel > expr_height(value) + 1,
                }),
                _ => false,
            }) ==> r is Ok)
            &&& (match r {
                Ok(sig) => fuel > 0 && exists|v: Value, tv: Value, mid1: StateV, mid2: StateV|
                    #![trigger val_v(v), val_v(tv), state_wf(mid1, pv), state_wf(mid2, pv)]
                    {
                        &&& expr_post(pv, pre, fpre, value, (fuel - 1) as u64, mid1, Ok(v))
                        &&& expr_post(pv, mid1, fpre, target, (fuel - 1) as u64, mid2, Ok(tv))
                        &&& (match val_read(val_v(v)) {
                            Some(o) => write_post(val_v(tv), o, mid2, fpre, post, fpost),
                            None => false,
                        })
                    },
                Err(e) => true,
            })
        },
        StmtV::If { condition, true_body, false_body } => {
            match r {
                Ok(sig) => fuel > 0 && exists|cv: Value, mid: StateV|
                    #![trigger eval_witness(cv, mid)]
                    {
                        &&& eval_witness(cv, mid)
                        &&& expr_post(pv, pre, fpre, condition, (fuel - 1) as u64, mid, Ok(cv))
                        &&& (match val_read(val_v(cv)) {
                            Some(o) => match o {
                                ObjV::Boolean(b) => {
                                    if b {
                                        body_post(
                                            pv,
                                            true_body,
                                            (fuel - 1) as u64,
                                            mid,
                                            fpre,
                                            post,
                                            fpost,
                                            r,
                                        )
                                    } else {
                                        match false_body {
                                            Some(fb) => body_post(
                                                pv,
                                                fb,
                                                (fuel - 1) as u64,
                                                mid,
                                                fpre,
                                                post,
                                                fpost,
                                                r,
                                            ),
                                            None => post == mid && fpost == fpre && ok_sig(
                                                r,
                                                ControlV::Continue,
                                            ),
                                        }
                                    }
                                },
                                _ => false,
                            },
                            None => false,
                        })
                    },
                Err(e) => true,
            }
        },
        StmtV::Each { variable, source, body } => {
            match r {
                Ok(sig) => fuel > 0 && exists|sv2: Value, mid: StateV|
                    #![trigger eval_witness(sv2, mid)]
                    {
                        &&& eval_witness(sv2, mid)
                        &&& expr_post(pv, pre, fpre, source, (fuel - 1) as u64, mid, Ok(sv2))
                        &&& (match val_read(val_v(sv2)) {
                            Some(o) => match o {
                                ObjV::Array(items) => each_iters_post(
                                    pv,
                                    variable,
                                    items,
                                    body,
                                    (fuel - 1) as u64,
                                    mid,
                                    fpre,
                                    post,
                                    fpost,
                                    r,
                                ),
                                ObjV::Number(b) => each_iters_post(
                                    pv,
                                    variable,
                                    range_objs(crate::fp::round_i64_of(b)),
                                    body,
                                    (fuel - 1) as u64,
                                    mid,
                                    fpre,
                                    post,
                                    fpost,
                                    r,
                                ),
                                _ => false,
                            },
                            None => false,
                        })
                    },
                Err(e) => true,
            }
        },
    }
}

/// Marks a chosen evaluation result and intermediate state; used only as a
/// quantifier trigger.
pub open spec fn eval_witness(v: Value, mid: StateV) -> bool {
    true
}

/// Marks a chosen argument list and the state after its evaluation; used
/// only as a quantifier trigger.
pub open spec fn vals_witness(vals: Seq<ObjV>, mid: StateV) -> bool {
    true
}

/// Marks the object-level outcome of a dispatched call; used only as a
/// quantifier trigger.
pub open spec fn call_witness(cr: Result<Object, RuntimeError>) -> bool {
    true
}

/// What evaluating a list of expressions to objects, left to right,
/// guarantees: each expression is evaluated with one unit of budget less and
/// its value read as an object, and the intermediate states chain in order.
/// The frame is read, never changed.
pub open spec fn args_post(
    pv: ProgV,
    exprs: Seq<ExprV>,
    fuel: u64,
    pre: StateV,
    fv: FrameV,
    post: StateV,
    vals: Seq<ObjV>,
) -> bool
    decreases fuel, 2int, exprs.len(),
{
    if fuel == 0 {
        false
    } else if exprs.len() == 0 {
        post == pre && vals.len() == 0
    } else {
        exists|v: Value, mid: StateV|
            #![trigger eval_witness(v, mid)]
            {
                &&& eval_witness(v, mid)
                &&& expr_post(pv, pre, fv, exprs[0], (fuel - 1) as u64, mid, Ok(v))
                &&& (match val_read(val_v(v)) {
                    Some(o) => vals.len() > 0 && vals[0] == o && args_post(
                        pv,
                        exprs.drop_first(),
                        fuel,
                        mid,
                        fv,
                        post,
                        vals.drop_first(),
                    ),
                    None => false,
                })
            }
    }
}

/// Marks a chosen intermediate state of a statement chain; used only as a
/// quantifier trigger.
pub open spec fn step_witness(
    mid: StateV,
    fmid: FrameV,
    step: Result<ControlSignal, RuntimeError>,
) -> bool {
    true
}

/// What executing a whole statement body guarantees: the statements relate
/// the intermediate states in order through `stmt_post`; a break or an error
/// stops the chain and is handed up unchanged; running out of budget is an
/// error that leaves the state as it was.
pub open spec fn body_post(
    pv: ProgV,
    body: Seq<StmtV>,
    fuel: u64,
    pre: StateV,
    fpre: FrameV,
    post: StateV,
    fpost: FrameV,
    r: Result<ControlSignal, RuntimeError>,
) -> bool
    decreases fuel, 2int, body.len(),
{
    if body.len() == 0 {
        post == pre && fpost == fpre && ok_sig(r, ControlV::Continue)
    } else if fuel == 0 {
        post == pre && fpost == fpre && r is Err
    } else {
        exists|mid: StateV, fmid: FrameV, step: Result<ControlSignal, RuntimeError>|
            #![trigger step_witness(mid, fmid, step)]
            {
                &&& step_witness(mid, fmid, step)
                &&& evolves(pre, mid)
                &&& fmid.entity == fpre.entity
                &&& stmt_post(pv, body[0], pre, fpre, (fuel - 1) as u64, mid, fmid, step)
                &&& match step {
                    Ok(sig) => match sig {
                        ControlSignal::Continue => body_post(
                            pv,
                            body.drop_first(),
                            fuel,
                            mid,
                            fmid,
                            post,
                            fpost,
                            r,
                        ),
                        ControlSignal::Break(v) => post == mid && fpost == fmid && (r matches Ok(
                            rs,
                        ) && control_v(rs) == control_v(sig)),
                    },
                    Err(e) => post == mid && fpost == fmid && r is Err,
                }
            }
    }
}

/// The values an each-loop over the number with bits `b` visits: the
/// integers `0, 1, ..., k-1` for `k` the rounded source, each as a number.
pub open spec fn range_objs(k: i64) -> Seq<ObjV> {
    if k <= 0 {
        Seq::empty()
    } else {
        Seq::new(k as nat, |i: int| ObjV::Number(crate::fp::bits_of_i64(i as i64)))
    }
}

/// The iterations of an each-loop: before every round the loop variable is
/// rebound in the enclosing frame to the round's item (it stays bound after
/// the loop); a break or an error stops the iteration and is handed up.
pub open spec fn each_iters_post(
    pv: ProgV,
    var: Seq<char>,
    items: Seq<ObjV>,
    body: Seq<StmtV>,
    bfuel: u64,
    pre: StateV,
    fpre: FrameV,
    post: StateV,
    fpost: FrameV,
    r: Result<ControlSignal, RuntimeError>,
) -> bool
    decreases bfuel, 3int, items.len(),
{
    if items.len() == 0 {
        post == pre && fpost == fpre && ok_sig(r, ControlV::Continue)
    } else {
        exists|mid: StateV, fmid: FrameV, step: Result<ControlSignal, RuntimeError>|
            #![trigger step_witness(mid, fmid, step)]
            {
                &&& step_witness(mid, fmid, step)
                &&& body_post(
                    pv,
                    body,
                    bfuel,
                    pre,
                    FrameV {
                        locals: assoc_set(fpre.locals, var, items[0]),
                        entity: fpre.entity,
                    },
                    mid,
                    fmid,
                    step,
                )
                &&& match step {
                    Ok(sig) => match sig {
                        ControlSignal::Continue => each_iters_post(
                            pv,
                            var,
                            items.drop_first(),
                            body,
                            bfuel,
                            mid,
                            fmid,
                            post,
                            fpost,
                            r,
                        ),
                        ControlSignal::Break(v) => post == mid && fpost == fmid && (r matches Ok(
                            rs,
                        ) && control_v(rs) == control_v(sig)),
                    },
                    Err(e) => post == mid && fpost == fmid && r is Err,
                }
            }
    }
}

/// Execute one statement. A `return` produces a break signal carrying the
/// returned value (or null); every other statement falls through.
#[verifier::loop_isolation(false)]
pub(crate) fn exec_stmt(
    prog: &Program,
    st: &mut RunState,
    frame: &mut Frame,
    stmt: &Statement,
    fuel: u64,
) -> (r: Result<ControlSignal, RuntimeError>)
    requires
        prog_wf(prog_v(*prog)),
        state_wf(state_v(*old(st)), prog_v(*prog)),
        frame_wf(frame_v(*old(frame)), state_v(*old(st))),
    ensures
        state_wf(state_v(*final(st)), prog_v(*prog)),
        frame_wf(frame_v(*final(frame)), state_v(*final(st))),
        evolves(state_v(*old(st)), state_v(*final(st))),
        frame_v(*final(frame)).entity == frame_v(*old(frame)).entity,
        stmt_post(
            prog_v(*prog),
            stmt_v(*stmt),
            state_v(*old(st)),
            frame_v(*old(frame)),
            fuel,
            state_v(*final(st)),
            frame_v(*final(frame)),
            r,
        ),
    decreases fuel, 0int,
{
    if fuel == 0 {
        return Err(RuntimeError::new(String::from_str("evaluation budget exhausted")));
    }
    let ghost sv0 = state_v(*st);
    match stmt {
        Statement::Expression(expr) => {
            // Read the value even though it is discarded, to surface errors
            // such as an undefined identifier.
            let v = match exec_expr(prog, st, frame, expr, fuel - 1) {
                Ok(v) => v,
                Err(e) => {
                    return Err(e);
                },
            };
            match v.read() {
                Ok(_) => Ok(ControlSignal::Continue),
                Err(e) => Err(e),
            }
        },
        Statement::IfConditional { condition, true_body, false_body } => {
            let ghost pre0 = state_v(*old(st));
            let ghost fpre0 = frame_v(*old(frame));
            let res0 = exec_expr(prog, st, frame, condition, fuel - 1);
            let ghost gres0 = res0;
            let cv = match res0 {
                Ok(v) => v,
                Err(e) => {
                    return Err(e);
                },
            };
            let ghost gcv = cv;
            let c = match cv.read() {
                Ok(o) => o,
                Err(e) => {
                    return Err(e);
                },
            };
            let b = match c {
                Object::Boolean(b) => b,
                _ => {
                    return Err(
                        RuntimeError::new(String::from_str("if-condition must be a boolean")),
                    );
                },
            };
            let ghost svc = state_v(*st);
            proof {
                assert(gres0 == Ok::<Value, RuntimeError>(gcv));
                assert(eval_witness(gcv, svc));
                assert(expr_post(
                    prog_v(*prog),
                    pre0,
                    fpre0,
                    expr_v(*condition),
                    (fuel - 1) as u64,
                    svc,
                    Ok(gcv),
                ));
                assert(val_read(val_v(gcv)) == Some(ObjV::Boolean(b)));
            }
            let r = if b {
                exec_body(prog, st, frame, true_body, fuel - 1)
            } else {
                match false_body {
                    Some(fb) => exec_body(prog, st, frame, fb, fuel - 1),
                    None => Ok(ControlSignal::Continue),
                }
            };
            proof {
                lemma_evolves_trans(sv0, svc, state_v(*st));
            }
            r
        },
        Statement::EachLoop { variable, source, body } => {
            let ghost pvg = prog_v(*prog);
            let ghost pre0 = state_v(*old(st));
            let ghost fpre0 = frame_v(*old(frame));
            let ghost bf = (fuel - 1) as u64;
            let ghost varv = variable@;
            let ghost bodyv = stmts_v(body@);
            let res0 = exec_expr(prog, st, frame, source, fuel - 1);
            let ghost gres0 = res0;
            let srcv = match res0 {
                Ok(v) => v,
                Err(e) => {
                    return Err(e);
                },
            };
            let ghost gsrcv = srcv;
            let src = match srcv.read() {
                Ok(o) => o,
                Err(e) => {
                    return Err(e);
                },
            };
            let ghost gsrco = obj_v(src);
            let ghost sv1 = state_v(*st);
            proof {
                assert(gres0 == Ok::<Value, RuntimeError>(gsrcv));
                assert(eval_witness(gsrcv, sv1));
                assert(expr_post(pvg, pre0, fpre0, expr_v(*source), bf, sv1, Ok(gsrcv)));
                assert(val_read(val_v(gsrcv)) == Some(gsrco));
            }
            match src {
                Object::Array(items) => {
                    let ghost itemsv = objs_v(items@);
                    let ghost fpre_l = frame_v(*frame);
                    proof {
                        broadcast use crate::object::lemma_objs_v;

                        assert(gsrco == ObjV::Array(itemsv));
                        assert(fpre_l == fpre0);
                        assert(itemsv.subrange(0, itemsv.len() as int) =~= itemsv);
                    }
                    let mut i: usize = 0;
                    while i < items.len()
                        invariant
                            fuel >= 1,
                            bf == (fuel - 1) as u64,
                            prog_wf(pvg),
                            pvg == prog_v(*prog),
                            state_wf(state_v(*st), pvg),
                            frame_wf(frame_v(*frame), state_v(*st)),
                            evolves(sv1, state_v(*st)),
                            frame_v(*frame).entity == fpre0.entity,
                            i <= items@.len(),
                            itemsv == objs_v(items@),
                            itemsv.len() == items@.len(),
                            bodyv == stmts_v(body@),
                            forall|p2: StateV, f2: FrameV, r2: Result<ControlSignal, RuntimeError>|
                                each_iters_post(
                                    pvg,
                                    varv,
                                    itemsv.subrange(i as int, itemsv.len() as int),
                                    bodyv,
                                    bf,
                                    state_v(*st),
                                    frame_v(*frame),
                                    p2,
                                    f2,
                                    r2,
                                ) ==> #[trigger] each_iters_post(
                                    pvg,
                                    varv,
                                    itemsv,
                                    bodyv,
                                    bf,
                                    sv1,
                                    fpre_l,
                                    p2,
                                    f2,
                                    r2,
                                ),
                        decreases items@.len() - i,
                    {
                        let ghost svb = state_v(*st);
                        let ghost fvb = frame_v(*frame);
                        let ghost suffix = itemsv.subrange(i as int, itemsv.len() as int);
                        proof {
                            broadcast use crate::object::lemma_objs_v;

                            assert(forall|
                                p2: StateV,
                                f2: FrameV,
                                r2: Result<ControlSignal, RuntimeError>,
                            |
                                each_iters_post(
                                    pvg,
                                    varv,
                                    suffix,
                                    bodyv,
                                    bf,
                                    svb,
                                    fvb,
                                    p2,
                                    f2,
                                    r2,
                                ) ==> #[trigger] each_iters_post(
                                    pvg,
                                    varv,
                                    itemsv,
                                    bodyv,
                                    bf,
                                    sv1,
                                    fpre_l,
                                    p2,
                                    f2,
                                    r2,
                                ));
                            assert(suffix[0] == obj_v(items@[i as int]));
                        }
                        assoc_write(&mut frame.locals, variable.clone(), items[i].duplicate());
                        proof {
                            assert(frame_v(*frame) =~~= (FrameV {
                                locals: assoc_set(fvb.locals, varv, suffix[0]),
                                entity: fvb.entity,
                            }));
                        }
                        let res = exec_body(prog, st, frame, body, fuel - 1);
                        let ghost gstep = res;
                        proof {
                            assert(step_witness(state_v(*st), frame_v(*frame), gstep));
                            assert(body_post(
                                pvg,
                                bodyv,
                                bf,
                                svb,
                                FrameV {
                                    locals: assoc_set(fvb.locals, varv, suffix[0]),
                                    entity: fvb.entity,
                                },
                                state_v(*st),
                                frame_v(*frame),
                                gstep,
                            ));
                            lemma_evolves_trans(sv1, svb, state_v(*st));
                        }
                        match res {
                            Ok(ControlSignal::Continue) => {
                                proof {
                                    assert(suffix.drop_first() =~= itemsv.subrange(
                                        i + 1,
                                        itemsv.len() as int,
                                    ));
                                    assert forall|
                                        p2: StateV,
                                        f2: FrameV,
                                        r2: Result<ControlSignal, RuntimeError>,
                                    |
                                        each_iters_post(
                                            pvg,
                                            varv,
                                            itemsv.subrange(i + 1, itemsv.len() as int),
                                            bodyv,
                                            bf,
                                            state_v(*st),
                                            frame_v(*frame),
                                            p2,
                                            f2,
                                            r2,
                                        ) implies #[trigger] each_iters_post(
                                        pvg,
                                        varv,
                                        itemsv,
                                        bodyv,
                                        bf,
                                        sv1,
                                        fpre_l,
                                        p2,
                                        f2,
                                        r2,
                                    ) by {
                                        assert(each_iters_post(
                                            pvg,
                                            varv,
                                            suffix,
                                            bodyv,
                                            bf,
                                            svb,
                                            fvb,
                                            p2,
                                            f2,
                                            r2,
                                        ));
                                    }
                                }
                                i += 1;
                            },
                            Ok(ControlSignal::Break(v)) => {
                                let out = Ok(ControlSignal::Break(v));
                                let ghost gout = out;
                                proof {
                                    assert(each_iters_post(
                                        pvg,
                                        varv,
                                        suffix,
                                        bodyv,
                                        bf,
                                        svb,
                                        fvb,
                                        state_v(*st),
                                        frame_v(*frame),
                                        gout,
                                    ));
                                    assert(each_iters_post(
                                        pvg,
                                        varv,
                                        itemsv,
                                        bodyv,
                                        bf,
                                        sv1,
                                        fpre_l,
                                        state_v(*st),
                                        frame_v(*frame),
                                        gout,
                                    ));
                                    lemma_evolves_trans(sv0, sv1, state_v(*st));
                                }
                                return out;
                            },
                            Err(e) => {
                                let out = Err(e);
                                let ghost gout = out;
                                proof {
                                    assert(each_iters_post(
                                        pvg,
                                        varv,
                                        suffix,
                                        bodyv,
                                        bf,
                                        svb,
                                        fvb,
                                        state_v(*st),
                                        frame_v(*frame),
                                        gout,
                                    ));
                                    lemma_evolves_trans(sv0, sv1, state_v(*st));
                                }
                                return out;
                            },
                        }
                    }
                    let out = Ok(ControlSignal::Continue);
                    let ghost gout = out;
                    proof {
                        assert(itemsv.subrange(i as int, itemsv.len() as int).len() == 0);
                        assert(each_iters_post(
                            pvg,
                            varv,
                            itemsv.subrange(i as int, itemsv.len() as int),
                            bodyv,
                            bf,
                            state_v(*st),
                            frame_v(*frame),
                            state_v(*st),
                            frame_v(*frame),
                            gout,
                        ));
                        assert(each_iters_post(
                            pvg,
                            varv,
                            itemsv,
                            bodyv,
                            bf,
                            sv1,
                            fpre_l,
                            state_v(*st),
                            frame_v(*frame),
                            gout,
                        ));
                        lemma_evolves_trans(sv0, sv1, state_v(*st));
                        assert(eval_witness(gsrcv, sv1));
                        assert(stmt_post(
                            pvg,
                            stmt_v(*stmt),
                            pre0,
                            fpre0,
                            fuel,
                            state_v(*st),
                            frame_v(*frame),
                            gout,
                        ));
                    }
                    out
                },
                Object::Number(bits) => {
                    let max = crate::fp::f64_round_i64(bits);
                    let ghost itemsv = range_objs(max);
                    let ghost fpre_l = frame_v(*frame);
                    proof {
                        assert(gsrco == ObjV::Number(bits));
                        assert(fpre_l == fpre0);
                        assert(itemsv.len() == (if max <= 0 { 0int } else { max as int }));
                        assert(itemsv.subrange(0, itemsv.len() as int) =~= itemsv);
                    }
                    let mut n: i64 = 0;
                    while n < max
                        invariant
                            fuel >= 1,
                            bf == (fuel - 1) as u64,
                            0 <= n,
                            n <= max || max <= 0,
                            max <= 0 ==> n == 0,
                            prog_wf(pvg),
                            pvg == prog_v(*prog),
                            state_wf(state_v(*st), pvg),
                            frame_wf(frame_v(*frame), state_v(*st)),
                            evolves(sv1, state_v(*st)),
                            frame_v(*frame).entity == fpre0.entity,
                            itemsv == range_objs(max),
                            forall|p2: StateV, f2: FrameV, r2: Result<ControlSignal, RuntimeError>|
                                each_iters_post(
                                    pvg,
                                    varv,
                                    itemsv.subrange(n as int, itemsv.len() as int),
                                    bodyv,
                                    bf,
                                    state_v(*st),
                                    frame_v(*frame),
                                    p2,
                                    f2,
                                    r2,
                                ) ==> #[trigger] each_iters_post(
                                    pvg,
                                    varv,
                                    itemsv,
                                    bodyv,
                                    bf,
                                    sv1,
                                    fpre_l,
                                    p2,
                                    f2,
                                    r2,
                                ),
                        decreases max - n,
                    {
                        let ghost svb = state_v(*st);
                        let ghost fvb = frame_v(*frame);
                        let ghost suffix = itemsv.subrange(n as int, itemsv.len() as int);
                        proof {
                            assert(forall|
                                p2: StateV,
                                f2: FrameV,
                                r2: Result<ControlSignal, RuntimeError>,
                            |
                                each_iters_post(
                                    pvg,
                                    varv,
                                    suffix,
                                    bodyv,
                                    bf,
                                    svb,
                                    fvb,
                                    p2,
                                    f2,
                                    r2,
                                ) ==> #[trigger] each_iters_post(
                                    pvg,
                                    varv,
                                    itemsv,
                                    bodyv,
                                    bf,
                                    sv1,
                                    fpre_l,
                                    p2,
                                    f2,
                                    r2,
                                ));
                            assert(suffix[0] == ObjV::Number(crate::fp::bits_of_i64(n)));
                        }
                        assoc_write(
                            &mut frame.locals,
                            variable.clone(),
                            Object::Number(crate::fp::f64_from_i64(n)),
                        );
                        proof {
                            assert(frame_v(*frame) =~~= (FrameV {
                                locals: assoc_set(fvb.locals, varv, suffix[0]),
                                entity: fvb.entity,
                            }));
                        }
                        let res = exec_body(prog, st, frame, body, fuel - 1);
                        let ghost gstep = res;
                        proof {
                            assert(step_witness(state_v(*st), frame_v(*frame), gstep));
                            assert(body_post(
                                pvg,
                                bodyv,
                                bf,
                                svb,
                                FrameV {
                                    locals: assoc_set(fvb.locals, varv, suffix[0]),
                                    entity: fvb.entity,
                                },
                                state_v(*st),
                                frame_v(*frame),
                                gstep,
                            ));
                            lemma_evolves_trans(sv1, svb, state_v(*st));
                        }
                        match res {
                            Ok(ControlSignal::Continue) => {
                                proof {
                                    assert(suffix.drop_first() =~= itemsv.subrange(
                                        n + 1,
                                        itemsv.len() as int,
                                    ));
                                    assert forall|
                                        p2: StateV,
                                        f2: FrameV,
                                        r2: Result<ControlSignal, RuntimeError>,
                                    |
                                        each_iters_post(
                                            pvg,
                                            varv,
                                            itemsv.subrange(n + 1, itemsv.len() as int),
                                            bodyv,
                                            bf,
                                            state_v(*st),
                                            frame_v(*frame),
                                            p2,
                                            f2,
                                            r2,
                                        ) implies #[trigger] each_iters_post(
                                        pvg,
                                        varv,
                                        itemsv,
                                        bodyv,
                                        bf,
                                        sv1,
                                        fpre_l,
                                        p2,
                                        f2,
                                        r2,
                                    ) by {
                                        assert(each_iters_post(
                                            pvg,
                                            varv,
                                            suffix,
                                            bodyv,
                                            bf,
                                            svb,
                                            fvb,
                                            p2,
                                            f2,
                                            r2,
                                        ));
                                    }
                                }
                                n += 1;
                            },
                            Ok(ControlSignal::Break(v)) => {
                                let out = Ok(ControlSignal::Break(v));
                                let ghost gout = out;
                                proof {
                                    assert(each_iters_post(
                                        pvg,
                                        varv,
                                        suffix,
                                        bodyv,
                                        bf,
                                        svb,
                                        fvb,
                                        state_v(*st),
                                        frame_v(*frame),
                                        gout,
                                    ));
                                    assert(each_iters_post(
                                        pvg,
                                        varv,
                                        itemsv,
                                        bodyv,
                                        bf,
                                        sv1,
                                        fpre_l,
                                        state_v(*st),
                                        frame_v(*frame),
                                        gout,
                                    ));
                                    lemma_evolves_trans(sv0, sv1, state_v(*st));
                                }
                                return out;
                            },
                            Err(e) => {
                                let out = Err(e);
                                let ghost gout = out;
                                proof {
                                    assert(each_iters_post(
                                        pvg,
                                        varv,
                                        suffix,
                                        bodyv,
                                        bf,
                                        svb,
                                        fvb,
                                        state_v(*st),
                                        frame_v(*frame),
                                        gout,
                                    ));
                                    lemma_evolves_trans(sv0, sv1, state_v(*st));
                                }
                                return out;
                            },
                        }
                    }
                    let out = Ok(ControlSignal::Continue);
                    let ghost gout = out;
                    proof {
                        assert(itemsv.subrange(n as int, itemsv.len() as int).len() == 0);
                        assert(each_iters_post(
                            pvg,
                            varv,
                            itemsv.subrange(n as int, itemsv.len() as int),
                            bodyv,
                            bf,
                            state_v(*st),
                            frame_v(*frame),
                            state_v(*st),
                            frame_v(*frame),
                            gout,
                        ));
                        assert(each_iters_post(
                            pvg,
                            varv,
                            itemsv,
                            bodyv,
                            bf,
                            sv1,
                            fpre_l,
                            state_v(*st),
                            frame_v(*frame),
                            gout,
                        ));
                        lemma_evolves_trans(sv0, sv1, state_v(*st));
                        assert(eval_witness(gsrcv, sv1));
                        assert(stmt_post(
                            pvg,
                            stmt_v(*stmt),
                            pre0,
                            fpre0,
                            fuel,
                            state_v(*st),
                            frame_v(*frame),
                            gout,
                        ));
                    }
                    out
                },
                _ => Err(
                    RuntimeError::new(String::from_str("loop source must be an array or integer")),
                ),
            }
        },
        Statement::Assignment { target, value } => {
            let ghost fv0 = frame_v(*frame);
            let ghost owed = (match expr_v(*target) {
                ExprV::Ident(n) => (match ident_val(n, prog_v(*prog), fv0) {
                    ValV::ReadOnly(_) => false,
                    _ => const_num_expr(expr_v(*value)) && fuel > expr_height(expr_v(*value))
                        + 1,
                }),
                _ => false,
            });
            let res0 = exec_expr(prog, st, frame, value, fuel - 1);
            let ghost gres0 = res0;
            let vv = match res0 {
                Ok(v) => v,
                Err(e) => {
                    proof {
                        if owed {
                            lemma_const_num_ok(
                                prog_v(*prog),
                                sv0,
                                fv0,
                                expr_v(*value),
                                (fuel - 1) as u64,
                                state_v(*st),
                                gres0,
                            );
                        }
                    }
                    return Err(e);
                },
            };
            let ghost gvv = vv;
            let v = match vv.read() {
                Ok(o) => o,
                Err(e) => {
                    proof {
                        if owed {
                            lemma_const_num_ok(
                                prog_v(*prog),
                                sv0,
                                fv0,
                                expr_v(*value),
                                (fuel - 1) as u64,
                                state_v(*st),
                                gres0,
                            );
                        }
                    }
                    return Err(e);
                },
            };
            let ghost sv1 = state_v(*st);
            let tv = match exec_expr(prog, st, frame, target, fuel - 1) {
                Ok(t) => t,
                Err(e) => {
                    proof {
                        lemma_evolves_trans(sv0, sv1, state_v(*st));
                    }
                    return Err(e);
                },
            };
            proof {
                lemma_evolves_trans(sv0, sv1, state_v(*st));
            }
            let ghost gtv = tv;
            let ghost sv2 = state_v(*st);
            let r = tv.write(v, st, frame);
            proof {
                assert forall|id: u64| #[trigger] sv2.live(id) implies state_v(*st).live(
                    id,
                ) by {
                    let wi = choose|wi: int|
                        0 <= wi < sv2.entities.len() && sv2.entities[wi].id == id;
                    assert(state_v(*st).entities[wi].id == id);
                }
                assert forall|id: u64| #[trigger] state_v(*st).live(id) implies sv2.live(
                    id,
                ) by {
                    let wi = choose|wi: int|
                        0 <= wi < state_v(*st).entities.len() && state_v(*st).entities[wi].id
                            == id;
                    assert(sv2.entities[wi].id == id);
                }
                assert(evolves(sv2, state_v(*st)));
                lemma_evolves_trans(sv0, sv2, state_v(*st));
                assert(state_wf(state_v(*st), prog_v(*prog)));
            }
            match r {
                Ok(_) => Ok(ControlSignal::Continue),
                Err(e) => {
                    proof {
                        if owed {
                            assert(val_v(gtv) == ident_val(
                                expr_v(*target)->Ident_0,
                                prog_v(*prog),
                                fv0,
                            ));
                            assert(false);
                        }
                    }
                    Err(e)
                },
            }
        },
        Statement::Return(expr) => {
            match expr {
                Some(expr) => {
                    let v = match exec_expr(prog, st, frame, expr, fuel - 1) {
                        Ok(v) => v,
                        Err(e) => {
                            return Err(e);
                        },
                    };
                    match v.read() {
                        Ok(o) => Ok(ControlSignal::Break(o)),
                        Err(e) => Err(e),
                    }
                },
                None => Ok(ControlSignal::Break(Object::Null)),
            }
        },
    }
}

/// What evaluating an expression guarantees, arm by arm, relating the state
/// before (`pre`) and after (`post`) and the result.
/// An expression built only of literals, `this`, identifiers, instance
/// variables and binary operators: evaluating one reads the state but never
/// changes it, even when it ends in an error.
pub open spec fn pure_expr(e: ExprV) -> bool
    decreases e,
{
    match e {
        ExprV::This => true,
        ExprV::Null => true,
        ExprV::Number(_) => true,
        ExprV::Boolean(_) => true,
        ExprV::SpriteLit(_) => true,
        ExprV::SoundLit(_) => true,
        ExprV::Ident(_) => true,
        ExprV::IVar(_) => true,
        ExprV::BinaryOp { left, right, operator } => pure_expr(*left) && pure_expr(*right),
        _ => false,
    }
}

/// A constant numeric expression: number literals combined by the four
/// arithmetic operators. One always evaluates successfully, to a number,
/// given enough budget for its depth.
pub open spec fn const_num_expr(e: ExprV) -> bool
    decreases e,
{
    match e {
        ExprV::Number(_) => true,
        ExprV::BinaryOp { left, right, operator } => (operator == BinaryOperator::Add
            || operator == BinaryOperator::Subtract || operator == BinaryOperator::Multiply
            || operator == BinaryOperator::Divide) && const_num_expr(*left) && const_num_expr(
            *right,
        ),
        _ => false,
    }
}

/// The nesting depth of an expression's binary operators; the budget an
/// evaluation needs to reach its leaves.
pub open spec fn expr_height(e: ExprV) -> nat
    decreases e,
{
    match e {
        ExprV::BinaryOp { left, right, operator } => 1 + (if expr_height(*left) > expr_height(
            *right,
        ) {
            expr_height(*left)
        } else {
            expr_height(*right)
        }),
        _ => 0,
    }
}

/// The result is a read-only number.
pub open spec fn is_num_ro(vv: ValV) -> bool {
    vv matches ValV::ReadOnly(ObjV::Number(_))
}

/// A constant numeric expression is pure.
pub proof fn lemma_const_num_pure(e: ExprV)
    requires
        const_num_expr(e),
    ensures
        pure_expr(e),
    decreases e,
{
    match e {
        ExprV::BinaryOp { left, right, operator } => {
            lemma_const_num_pure(*left);
            lemma_const_num_pure(*right);
        },
        _ => {},
    }
}

/// A constant numeric expression, given a budget over its depth, evaluates
/// successfully to a number and leaves the state unchanged.
pub proof fn lemma_const_num_ok(
    pv: ProgV,
    pre: StateV,
    fv: FrameV,
    e: ExprV,
    fuel: u64,
    post: StateV,
    r: Result<Value, RuntimeError>,
)
    requires
        expr_post(pv, pre, fv, e, fuel, post, r),
        const_num_expr(e),
        fuel > expr_height(e),
    ensures
        match r {
            Ok(res) => is_num_ro(val_v(res)),
            Err(_) => false,
        },
        post == pre,
{
    lemma_const_num_pure(e);
}

pub open spec fn expr_post(
    pv: ProgV,
    pre: StateV,
    fv: FrameV,
    e: ExprV,
    fuel: u64,
    post: StateV,
    r: Result<Value, RuntimeError>,
) -> bool
    decreases fuel, 4int, 0int,
{
    &&& (pure_expr(e) ==> post == pre)
    &&& match e {
            ExprV::This => post == pre && (match fv.entity {
                Some(id) => ok_ro(r, ObjV::Entity(id)),
                None => r is Err,
            }),
            ExprV::Null => post == pre && ok_ro(r, ObjV::Null),
            ExprV::Number(n) => post == pre && ok_ro(r, ObjV::Number(n)),
            ExprV::Boolean(b) => post == pre && ok_ro(r, ObjV::Boolean(b)),
            ExprV::SpriteLit(spv) => post == pre && ok_ro(r, ObjV::Sprite(spv)),
            ExprV::SoundLit(t) => post == pre && ok_ro(r, ObjV::Sound(t)),
            ExprV::Ident(name) => post == pre && ok_val(
                r,
                ident_val(name, pv, fv),
            ),
            ExprV::IVar(name) => post == pre && (match ivar_val(
                name,
                fv,
                pre,
            ) {
                Some(vv) => ok_val(r, vv),
                None => r is Err,
            }),
            ExprV::Spawn { name } => match lookup_kind(pv.kinds, name) {
                None => r is Err && post == pre,
                Some(ki) => {
                    &&& (r is Ok ==> ok_ro(r, ObjV::Entity(pre.next_id)) && post.live(
                        pre.next_id,
                    ))
                    &&& (fuel > 0 && pre.next_id < u64::MAX ==> post.live(pre.next_id)
                        && post.next_id > pre.next_id)
                    &&& (fuel > 1 && pre.next_id < u64::MAX && pv.kinds[ki].constructor is None
                        ==> r is Ok)
                    &&& (fuel > 1 && r is Ok ==> exists|
                        mid: StateV,
                        fmid: FrameV,
                        sig: Result<ControlSignal, RuntimeError>,
                    |
                        #![trigger step_witness(mid, fmid, sig)]
                        {
                            &&& step_witness(mid, fmid, sig)
                            &&& mid == (StateV {
                                entities: pre.entities.push(
                                    EntityV {
                                        id: pre.next_id,
                                        kind: ki,
                                        ivars: init_ivars(pv.kinds[ki].ivars, Seq::empty()),
                                    },
                                ),
                                next_id: (pre.next_id + 1) as u64,
                                ..pre
                            })
                            &&& (match pv.kinds[ki].constructor {
                                Some(cb) => sig is Ok && body_post(
                                    pv,
                                    cb,
                                    (fuel - 2) as u64,
                                    mid,
                                    FrameV { locals: Seq::empty(), entity: Some(pre.next_id) },
                                    post,
                                    fmid,
                                    sig,
                                ),
                                None => post == mid && sig is Ok,
                            })
                        })
                },
            },
            ExprV::Destroy(inner) => {
                &&& (r is Ok ==> ok_ro(r, ObjV::Null))
                &&& (fuel > 0 && r is Ok ==> exists|v: Value, mid: StateV|
                    #![trigger eval_witness(v, mid)]
                    {
                        &&& eval_witness(v, mid)
                        &&& expr_post(pv, pre, fv, *inner, (fuel - 1) as u64, mid, Ok(v))
                        &&& (match val_read(val_v(v)) {
                            Some(o) => (match o {
                                ObjV::Entity(id) => (post == mid && mid.pending.contains(id))
                                    || post == (StateV { pending: mid.pending.push(id), ..mid }),
                                _ => false,
                            }),
                            None => false,
                        })
                    })
            },
            ExprV::Echo(inner) => {
                &&& ok_is_ro(r)
                &&& (fuel > 0 ==> match r {
                    Ok(res) => exists|v: Value, mid: StateV|
                        #![trigger eval_witness(v, mid)]
                        {
                            &&& eval_witness(v, mid)
                            &&& expr_post(pv, pre, fv, *inner, (fuel - 1) as u64, mid, Ok(v))
                            &&& (match val_read(val_v(v)) {
                                Some(o) => {
                                    &&& val_v(res) == ValV::ReadOnly(o)
                                    &&& post == (StateV {
                                        echoes: mid.echoes.push(
                                            crate::object::describe_v(
                                                o,
                                                pv,
                                                mid,
                                                DESCRIBE_FUEL as nat,
                                            ),
                                        ),
                                        ..mid
                                    })
                                },
                                None => false,
                            })
                        },
                    Err(e) => true,
                })
            },
            ExprV::Array(items) => {
                &&& ok_is_ro_array(r)
                &&& (fuel > 0 ==> match r {
                    Ok(res) => (match val_v(res) {
                        ValV::ReadOnly(o) => (match o {
                            ObjV::Array(vals) => args_post(pv, items, fuel, pre, fv, post, vals),
                            _ => false,
                        }),
                        _ => false,
                    }),
                    Err(e) => true,
                })
            },
            ExprV::Call { target, name, arguments } => {
                &&& ok_is_ro(r)
                &&& (fuel > 0 ==> match r {
                    Ok(res) => exists|v: Value, mid: StateV|
                        #![trigger eval_witness(v, mid)]
                        {
                            &&& eval_witness(v, mid)
                            &&& expr_post(pv, pre, fv, *target, (fuel - 1) as u64, mid, Ok(v))
                            &&& (match val_read(val_v(v)) {
                                Some(tobj) => exists|avals: Seq<ObjV>, mid2: StateV|
                                    #![trigger vals_witness(avals, mid2)]
                                    {
                                        &&& vals_witness(avals, mid2)
                                        &&& args_post(pv, arguments, fuel, mid, fv, mid2, avals)
                                        &&& exists|cr: Result<Object, RuntimeError>|
                                            #![trigger call_witness(cr)]
                                            {
                                                &&& call_witness(cr)
                                                &&& crate::object::call_post(
                                                    tobj,
                                                    pv,
                                                    mid2,
                                                    name,
                                                    avals,
                                                    (fuel - 1) as u64,
                                                    post,
                                                    cr,
                                                )
                                                &&& (match cr {
                                                    Ok(o) => val_v(res) == ValV::ReadOnly(
                                                        obj_v(o),
                                                    ),
                                                    Err(e2) => false,
                                                })
                                            }
                                    },
                                None => false,
                            })
                        },
                    Err(e) => true,
                })
            },
            ExprV::BinaryOp { left, right, operator } => {
                &&& ok_is_ro(r)
                &&& (fuel > expr_height(ExprV::BinaryOp { left, right, operator })
                    && const_num_expr(*left) && const_num_expr(*right) && operator
                    != BinaryOperator::And && operator != BinaryOperator::Or ==> r is Ok)
                &&& (fuel > expr_height(ExprV::BinaryOp { left, right, operator })
                    && const_num_expr(ExprV::BinaryOp { left, right, operator }) ==> (match r {
                    Ok(res) => is_num_ro(val_v(res)),
                    Err(_) => false,
                }))
                &&& (fuel > 0 ==> binop_post(
                    pv,
                    ExprV::BinaryOp { left, right, operator },
                    *left,
                    *right,
                    operator,
                    fuel,
                    pre,
                    fv,
                    post,
                    r,
                ))
                &&& (fuel > 0 && operator == BinaryOperator::And && *left == ExprV::Boolean(false)
                    ==> post == pre && ok_ro(r, ObjV::Boolean(false)))
                &&& (fuel > 0 && operator == BinaryOperator::Or && *left == ExprV::Boolean(true)
                    ==> post == pre && ok_ro(r, ObjV::Boolean(true)))
                &&& (match (*left, *right) {
                    (ExprV::Number(a), ExprV::Number(b)) => fuel > 0 ==> {
                    &&& (operator == BinaryOperator::Add ==> post == pre && ok_ro(
                        r,
                        ObjV::Number(add_bits(a, b)),
                    ))
                    &&& (operator == BinaryOperator::Subtract ==> post == pre && ok_ro(
                        r,
                        ObjV::Number(sub_bits(a, b)),
                    ))
                    &&& (operator == BinaryOperator::Multiply ==> post == pre && ok_ro(
                        r,
                        ObjV::Number(mul_bits(a, b)),
                    ))
                    &&& (operator == BinaryOperator::Divide ==> post == pre && ok_ro(
                        r,
                        ObjV::Number(div_bits(a, b)),
                    ))
                    &&& (operator == BinaryOperator::LessThan ==> post == pre && ok_ro(
                        r,
                        ObjV::Boolean(lt_bits(a, b)),
                    ))
                    &&& (operator == BinaryOperator::GreaterThan ==> post == pre
                        && ok_ro(r, ObjV::Boolean(lt_bits(b, a))))
                    &&& (operator == BinaryOperator::LessThanOrEquals ==> post == pre
                        && ok_ro(r, ObjV::Boolean(le_bits(a, b))))
                    &&& (operator == BinaryOperator::GreaterThanOrEquals ==> post == pre
                        && ok_ro(r, ObjV::Boolean(le_bits(b, a))))
                    &&& (operator == BinaryOperator::Equals ==> post == pre && ok_ro(
                        r,
                        ObjV::Boolean(eq_bits(a, b)),
                    ))
                    &&& (operator == BinaryOperator::NotEquals ==> post == pre && ok_ro(
                        r,
                        ObjV::Boolean(!eq_bits(a, b)),
                    ))
                    },
                    _ => true,
                })
            },
        }
}

/// Evaluate one expression to a readable and/or writable value.
#[verifier::loop_isolation(false)]
pub(crate) fn exec_expr(
    prog: &Program,
    st: &mut RunState,
    frame: &mut Frame,
    expr: &Expression,
    fuel: u64,
) -> (r: Result<Value, RuntimeError>)
    requires
        prog_wf(prog_v(*prog)),
        state_wf(state_v(*old(st)), prog_v(*prog)),
        frame_wf(frame_v(*old(frame)), state_v(*old(st))),
    ensures
        state_wf(state_v(*final(st)), prog_v(*prog)),
        evolves(state_v(*old(st)), state_v(*final(st))),
        *final(frame) == *old(frame),
        r matches Ok(v) ==> val_target_live(val_v(v), state_v(*final(st))),
        expr_post(
            prog_v(*prog),
            state_v(*old(st)),
            frame_v(*old(frame)),
            expr_v(*expr),
            fuel,
            state_v(*final(st)),
            r,
        ),
    decreases fuel, 1int,
{
    let ghost sv0 = state_v(*st);
    match expr {
        Expression::ThisLiteral => {
            match frame.entity {
                Some(id) => Ok(Value::ReadOnly(Object::Entity(id))),
                None => Err(RuntimeError::new(String::from_str("`this` is not valid here"))),
            }
        },
        Expression::NullLiteral => Ok(Value::ReadOnly(Object::Null)),
        Expression::NumberLiteral(n) => Ok(Value::ReadOnly(Object::Number(*n))),
        Expression::BooleanLiteral(b) => Ok(Value::ReadOnly(Object::Boolean(*b))),
        Expression::SpriteLiteral(s) => Ok(
            Value::ReadOnly(
                Object::Sprite(Sprite { width: s.width, height: s.height, pixels: s.pixels.clone() }),
            ),
        ),
        Expression::SoundLiteral(t) => Ok(Value::ReadOnly(Object::Sound(*t))),
        Expression::ArrayLiteral(item_exprs) => {
            if fuel == 0 {
                return Err(RuntimeError::new(String::from_str("evaluation budget exhausted")));
            }
            eval_array_lit(prog, st, frame, item_exprs, fuel)
        },
        Expression::Identifier(id) => {
            if str_eq(id.as_str(), "Input") {
                return Ok(Value::ReadOnly(Object::InputSingleton));
            }
            if str_eq(id.as_str(), "Display") {
                return Ok(Value::ReadOnly(Object::DisplaySingleton));
            }
            if str_eq(id.as_str(), "Math") {
                return Ok(Value::ReadOnly(Object::MathSingleton));
            }
            if let Some(ki) = find_kind(&prog.entity_kinds, id.as_str()) {
                return Ok(Value::ReadOnly(Object::EntityKind(ki)));
            }
            match assoc_read(&frame.locals, id.as_str()) {
                Some(o) => Ok(
                    Value::ReadWrite { value: o, target: AssignmentTarget::Local(id.clone()) },
                ),
                None => Ok(
                    Value::WriteOnly {
                        target: AssignmentTarget::Local(id.clone()),
                        error_on_read: RuntimeError::new(
                            concat3("undefined identifier `", id.as_str(), "`"),
                        ),
                    },
                ),
            }
        },
        Expression::InstanceVarIdentifier(id) => {
            let entity_id = match frame.entity {
                Some(e) => e,
                None => {
                    return Err(
                        RuntimeError::new(
                            concat3(
                                "cannot get instance variable `",
                                id.as_str(),
                                "` in non-entity context",
                            ),
                        ),
                    );
                },
            };
            let ei = match find_entity(&st.entities, entity_id.0) {
                Some(ei) => ei,
                None => {
                    proof {
                        assert(false);
                    }
                    return Err(RuntimeError::new(String::from_str("entity is already destroyed")));
                },
            };
            proof {
                let sv = state_v(*st);
                assert(sv.live(entity_id.0));
                let fi = sv.find(entity_id.0)->0;
                assert(0 <= fi < sv.entities.len() && sv.entities[fi].id == entity_id.0);
                assert(fi == ei as int);
            }
            match assoc_read(&st.entities[ei].ivars, id.as_str()) {
                Some(o) => Ok(
                    Value::ReadWrite {
                        value: o,
                        target: AssignmentTarget::InstanceVar(entity_id, id.clone()),
                    },
                ),
                None => Err(
                    RuntimeError::new(
                        concat3("undeclared instance variable `", id.as_str(), "`"),
                    ),
                ),
            }
        },
        Expression::FunctionCall { target, name, arguments } => {
            if fuel == 0 {
                return Err(RuntimeError::new(String::from_str("evaluation budget exhausted")));
            }
            eval_call_expr(prog, st, frame, target, name, arguments, fuel)
        },
        Expression::BinaryOperation { left, right, operator } => {
            if fuel == 0 {
                return Err(RuntimeError::new(String::from_str("evaluation budget exhausted")));
            }
            exec_binary_op(prog, st, frame, left, right, *operator, fuel)
        },
        Expression::SpawnEntity { name } => {
            let ki = match find_kind(&prog.entity_kinds, name.as_str()) {
                Some(ki) => ki,
                None => {
                    return Err(
                        RuntimeError::new(
                            concat3("no entity declaration named `", name.as_str(), "`"),
                        ),
                    );
                },
            };
            proof {
                lemma_lookup_kind(prog_v(*prog).kinds, name@);
            }
            if fuel == 0 {
                return Err(RuntimeError::new(String::from_str("evaluation budget exhausted")));
            }
            match spawn_kind(prog, st, ki, fuel - 1) {
                Ok(id) => Ok(Value::ReadOnly(Object::Entity(id))),
                Err(e) => Err(e),
            }
        },
        Expression::DestroyEntity(target) => {
            if fuel == 0 {
                return Err(RuntimeError::new(String::from_str("evaluation budget exhausted")));
            }
            eval_destroy(prog, st, frame, target, fuel)
        },
        Expression::Echo(target) => {
            if fuel == 0 {
                return Err(RuntimeError::new(String::from_str("evaluation budget exhausted")));
            }
            eval_echo(prog, st, frame, target, fuel)
        },
    }
}

/// Evaluate the elements of an array literal, left to right.
#[verifier::loop_isolation(false)]
fn eval_array_lit(
    prog: &Program,
    st: &mut RunState,
    frame: &mut Frame,
    item_exprs: &Vec<Expression>,
    fuel: u64,
) -> (r: Result<Value, RuntimeError>)
    requires
        fuel >= 1,
        prog_wf(prog_v(*prog)),
        state_wf(state_v(*old(st)), prog_v(*prog)),
        frame_wf(frame_v(*old(frame)), state_v(*old(st))),
    ensures
        state_wf(state_v(*final(st)), prog_v(*prog)),
        evolves(state_v(*old(st)), state_v(*final(st))),
        *final(frame) == *old(frame),
        ok_is_ro_array(r),
        r matches Ok(res) ==> (match val_v(res) {
            ValV::ReadOnly(o) => (match o {
                ObjV::Array(vals) => args_post(
                    prog_v(*prog),
                    exprs_v(item_exprs@),
                    fuel,
                    state_v(*old(st)),
                    frame_v(*old(frame)),
                    state_v(*final(st)),
                    vals,
                ),
                _ => false,
            }),
            _ => false,
        }),
    decreases fuel, 0int,
{
    broadcast use crate::ast::lemma_exprs_v;
    broadcast use crate::object::lemma_objs_v;

    let ghost sv0 = state_v(*st);
    let ghost fv0 = frame_v(*frame);
    let ghost pvg = prog_v(*prog);
    let ghost gexprs = exprs_v(item_exprs@);
    let ghost glen = gexprs.len() as int;
    let mut items: Vec<Object> = Vec::new();
    let mut i: usize = 0;
    proof {
        assert(gexprs.subrange(0, glen) =~= gexprs);
    }
    while i < item_exprs.len()
        invariant
            fuel >= 1,
            i <= item_exprs@.len(),
            items@.len() == i,
            prog_wf(prog_v(*prog)),
            state_wf(state_v(*st), prog_v(*prog)),
            frame_wf(frame_v(*frame), state_v(*st)),
            evolves(sv0, state_v(*st)),
            *frame == *old(frame),
            forall|p2: StateV, vals2: Seq<ObjV>|
                args_post(pvg, gexprs.subrange(i as int, glen), fuel, state_v(*st), fv0, p2, vals2)
                    ==> #[trigger] args_post(
                    pvg,
                    gexprs,
                    fuel,
                    sv0,
                    fv0,
                    p2,
                    objs_v(items@) + vals2,
                ),
        decreases item_exprs@.len() - i,
    {
        let ghost svb = state_v(*st);
        let ghost items_b = items@;
        let v = match exec_expr(prog, st, frame, &item_exprs[i], fuel - 1) {
            Ok(v) => v,
            Err(e) => {
                proof {
                    lemma_evolves_trans(sv0, svb, state_v(*st));
                }
                return Err(e);
            },
        };
        proof {
            lemma_evolves_trans(sv0, svb, state_v(*st));
        }
        let ghost gv = v;
        let o = match v.read() {
            Ok(o) => o,
            Err(e) => {
                return Err(e);
            },
        };
        let ghost go = o;
        items.push(o);
        proof {
            let svm = state_v(*st);
            assert(eval_witness(gv, svm));
            assert(val_read(val_v(gv)) == Some(obj_v(go)));
            assert(gexprs.subrange(i as int, glen)[0] == gexprs[i as int]);
            assert(gexprs[i as int] == expr_v(item_exprs@[i as int]));
            assert forall|p2: StateV, vals2: Seq<ObjV>|
                args_post(pvg, gexprs.subrange(i + 1, glen), fuel, svm, fv0, p2, vals2)
                    implies #[trigger] args_post(
                pvg,
                gexprs,
                fuel,
                sv0,
                fv0,
                p2,
                objs_v(items@) + vals2,
            ) by {
                let step_vals = seq![obj_v(go)] + vals2;
                assert(gexprs.subrange(i as int, glen).drop_first() =~= gexprs.subrange(
                    i + 1,
                    glen,
                ));
                assert(step_vals.drop_first() =~= vals2);
                assert(step_vals[0] == obj_v(go));
                assert(args_post(
                    pvg,
                    gexprs.subrange(i as int, glen),
                    fuel,
                    svb,
                    fv0,
                    p2,
                    step_vals,
                ));
                assert(args_post(pvg, gexprs, fuel, sv0, fv0, p2, objs_v(items_b) + step_vals));
                assert(objs_v(items@) + vals2 =~= objs_v(items_b) + step_vals);
            };
        }
        i += 1;
    }
    proof {
        assert(gexprs.subrange(glen, glen) =~= Seq::<ExprV>::empty());
        assert(args_post(
            pvg,
            gexprs.subrange(glen, glen),
            fuel,
            state_v(*st),
            fv0,
            state_v(*st),
            Seq::<ObjV>::empty(),
        ));
        assert(args_post(
            pvg,
            gexprs,
            fuel,
            sv0,
            fv0,
            state_v(*st),
            objs_v(items@) + Seq::<ObjV>::empty(),
        ));
        assert(objs_v(items@) + Seq::<ObjV>::empty() =~= objs_v(items@));
        assert(args_post(pvg, gexprs, fuel, sv0, fv0, state_v(*st), objs_v(items@)));
    }
    Ok(Value::ReadOnly(Object::Array(items)))
}

/// Evaluate a call expression: the target first, then the arguments left to
/// right, then dispatch on the target's runtime variant.
#[verifier::loop_isolation(false)]
fn eval_call_expr(
    prog: &Program,
    st: &mut RunState,
    frame: &mut Frame,
    target: &Expression,
    name: &String,
    arguments: &Vec<Expression>,
    fuel: u64,
) -> (r: Result<Value, RuntimeError>)
    requires
        fuel >= 1,
        prog_wf(prog_v(*prog)),
        state_wf(state_v(*old(st)), prog_v(*prog)),
        frame_wf(frame_v(*old(frame)), state_v(*old(st))),
    ensures
        state_wf(state_v(*final(st)), prog_v(*prog)),
        evolves(state_v(*old(st)), state_v(*final(st))),
        *final(frame) == *old(frame),
        ok_is_ro(r),
        match r {
            Ok(res) => exists|v: Value, mid: StateV|
                #![trigger eval_witness(v, mid)]
                {
                    &&& eval_witness(v, mid)
                    &&& expr_post(
                        prog_v(*prog),
                        state_v(*old(st)),
                        frame_v(*old(frame)),
                        expr_v(*target),
                        (fuel - 1) as u64,
                        mid,
                        Ok(v),
                    )
                    &&& (match val_read(val_v(v)) {
                        Some(tobjv) => exists|avals: Seq<ObjV>, mid2: StateV|
                            #![trigger vals_witness(avals, mid2)]
                            {
                                &&& vals_witness(avals, mid2)
                                &&& args_post(
                                    prog_v(*prog),
                                    exprs_v(arguments@),
                                    fuel,
                                    mid,
                                    frame_v(*old(frame)),
                                    mid2,
                                    avals,
                                )
                                &&& exists|cr: Result<Object, RuntimeError>|
                                    #![trigger call_witness(cr)]
                                    {
                                        &&& call_witness(cr)
                                        &&& crate::object::call_post(
                                            tobjv,
                                            prog_v(*prog),
                                            mid2,
                                            name@,
                                            avals,
                                            (fuel - 1) as u64,
                                            state_v(*final(st)),
                                            cr,
                                        )
                                        &&& (match cr {
                                            Ok(o) => val_v(res) == ValV::ReadOnly(obj_v(o)),
                                            Err(e2) => false,
                                        })
                                    }
                            },
                        None => false,
                    })
                },
            Err(e) => true,
        },
    decreases fuel, 0int,
{
    broadcast use crate::ast::lemma_exprs_v;
    broadcast use crate::object::lemma_objs_v;

    let ghost sv0 = state_v(*st);
    let ghost fv0 = frame_v(*frame);
    let ghost pvg = prog_v(*prog);
    let ghost gexprs = exprs_v(arguments@);
    let ghost glen = gexprs.len() as int;
    let tv = match exec_expr(prog, st, frame, target, fuel - 1) {
        Ok(v) => v,
        Err(e) => {
            return Err(e);
        },
    };
    let ghost gtv = tv;
    let tobj = match tv.read() {
        Ok(o) => o,
        Err(e) => {
            return Err(e);
        },
    };
    let ghost sv1 = state_v(*st);
    let mut args: Vec<Object> = Vec::new();
    let mut i: usize = 0;
    proof {
        assert(gexprs.subrange(0, glen) =~= gexprs);
    }
    while i < arguments.len()
        invariant
            fuel >= 1,
            i <= arguments@.len(),
            args@.len() == i,
            prog_wf(prog_v(*prog)),
            state_wf(state_v(*st), prog_v(*prog)),
            frame_wf(frame_v(*frame), state_v(*st)),
            evolves(sv1, state_v(*st)),
            *frame == *old(frame),
            forall|p2: StateV, vals2: Seq<ObjV>|
                args_post(pvg, gexprs.subrange(i as int, glen), fuel, state_v(*st), fv0, p2, vals2)
                    ==> #[trigger] args_post(
                    pvg,
                    gexprs,
                    fuel,
                    sv1,
                    fv0,
                    p2,
                    objs_v(args@) + vals2,
                ),
        decreases arguments@.len() - i,
    {
        let ghost svb = state_v(*st);
        let ghost args_b = args@;
        let v = match exec_expr(prog, st, frame, &arguments[i], fuel - 1) {
            Ok(v) => v,
            Err(e) => {
                proof {
                    lemma_evolves_trans(sv1, svb, state_v(*st));
                    lemma_evolves_trans(sv0, sv1, state_v(*st));
                }
                return Err(e);
            },
        };
        proof {
            lemma_evolves_trans(sv1, svb, state_v(*st));
        }
        let ghost gv = v;
        let o = match v.read() {
            Ok(o) => o,
            Err(e) => {
                proof {
                    lemma_evolves_trans(sv0, sv1, state_v(*st));
                }
                return Err(e);
            },
        };
        let ghost go = o;
        args.push(o);
        proof {
            let svm = state_v(*st);
            assert(eval_witness(gv, svm));
            assert(val_read(val_v(gv)) == Some(obj_v(go)));
            assert(gexprs.subrange(i as int, glen)[0] == gexprs[i as int]);
            assert(gexprs[i as int] == expr_v(arguments@[i as int]));
            assert forall|p2: StateV, vals2: Seq<ObjV>|
                args_post(pvg, gexprs.subrange(i + 1, glen), fuel, svm, fv0, p2, vals2)
                    implies #[trigger] args_post(
                pvg,
                gexprs,
                fuel,
                sv1,
                fv0,
                p2,
                objs_v(args@) + vals2,
            ) by {
                let step_vals = seq![obj_v(go)] + vals2;
                assert(gexprs.subrange(i as int, glen).drop_first() =~= gexprs.subrange(
                    i + 1,
                    glen,
                ));
                assert(step_vals.drop_first() =~= vals2);
                assert(step_vals[0] == obj_v(go));
                assert(args_post(
                    pvg,
                    gexprs.subrange(i as int, glen),
                    fuel,
                    svb,
                    fv0,
                    p2,
                    step_vals,
                ));
                assert(args_post(pvg, gexprs, fuel, sv1, fv0, p2, objs_v(args_b) + step_vals));
                assert(objs_v(args@) + vals2 =~= objs_v(args_b) + step_vals);
            };
        }
        i += 1;
    }
    proof {
        lemma_evolves_trans(sv0, sv1, state_v(*st));
    }
    let ghost sv2 = state_v(*st);
    let ghost gargs = args@;
    proof {
        assert(gexprs.subrange(glen, glen) =~= Seq::<ExprV>::empty());
        assert(args_post(
            pvg,
            gexprs.subrange(glen, glen),
            fuel,
            sv2,
            fv0,
            sv2,
            Seq::<ObjV>::empty(),
        ));
        assert(args_post(pvg, gexprs, fuel, sv1, fv0, sv2, objs_v(gargs) + Seq::<ObjV>::empty()));
        assert(objs_v(gargs) + Seq::<ObjV>::empty() =~= objs_v(gargs));
        assert(args_post(pvg, gexprs, fuel, sv1, fv0, sv2, objs_v(gargs)));
    }
    let res = crate::object::call_obj(&tobj, prog, st, name.as_str(), args, fuel - 1);
    proof {
        lemma_evolves_trans(sv0, sv2, state_v(*st));
    }
    let ghost gcr = res;
    match res {
        Ok(o) => {
            proof {
                assert(val_read(val_v(gtv)) == Some(obj_v(tobj)));
                assert(eval_witness(gtv, sv1));
                assert(vals_witness(objs_v(gargs), sv2));
                assert(call_witness(gcr));
            }
            Ok(Value::ReadOnly(o))
        },
        Err(e) => Err(e),
    }
}

/// Evaluate a `destroy` expression: mark the target entity for the
/// end-of-tick sweep. The entity stays fully usable for the rest of the
/// tick; destroying anything but an entity is an error.
#[verifier::loop_isolation(false)]
fn eval_destroy(
    prog: &Program,
    st: &mut RunState,
    frame: &mut Frame,
    target: &Expression,
    fuel: u64,
) -> (r: Result<Value, RuntimeError>)
    requires
        fuel >= 1,
        prog_wf(prog_v(*prog)),
        state_wf(state_v(*old(st)), prog_v(*prog)),
        frame_wf(frame_v(*old(frame)), state_v(*old(st))),
    ensures
        state_wf(state_v(*final(st)), prog_v(*prog)),
        evolves(state_v(*old(st)), state_v(*final(st))),
        *final(frame) == *old(frame),
        r is Ok ==> ok_ro(r, ObjV::Null),
        r is Ok ==> exists|v: Value, mid: StateV|
            #![trigger eval_witness(v, mid)]
            {
                &&& eval_witness(v, mid)
                &&& expr_post(
                    prog_v(*prog),
                    state_v(*old(st)),
                    frame_v(*old(frame)),
                    expr_v(*target),
                    (fuel - 1) as u64,
                    mid,
                    Ok(v),
                )
                &&& (match val_read(val_v(v)) {
                    Some(o) => (match o {
                        ObjV::Entity(id) => (state_v(*final(st)) == mid && mid.pending.contains(
                            id,
                        )) || state_v(*final(st)) == (StateV {
                            pending: mid.pending.push(id),
                            ..mid
                        }),
                        _ => false,
                    }),
                    None => false,
                })
            },
    decreases fuel, 0int,
{
    let ghost sv0 = state_v(*st);
    let tv = match exec_expr(prog, st, frame, target, fuel - 1) {
        Ok(v) => v,
        Err(e) => {
            return Err(e);
        },
    };
    let ghost gtv = tv;
    let tobj = match tv.read() {
        Ok(o) => o,
        Err(e) => {
            return Err(e);
        },
    };
    let ghost gtobj = tobj;
    let entity_id = match tobj {
        Object::Entity(id) => id,
        other => {
            let d = crate::object::describe_obj(&other, prog, st, DESCRIBE_FUEL);
            return Err(
                RuntimeError::new(concat2("used `destroy` on non-entity object: ", d.as_str())),
            );
        },
    };
    let ghost sv1 = state_v(*st);
    if !contains_id(&st.pending_destroy, entity_id.0) {
        st.pending_destroy.push(entity_id.0);
        proof {
            assert(state_v(*st) =~~= (StateV { pending: sv1.pending.push(entity_id.0), ..sv1 }));
            assert(state_wf(state_v(*st), prog_v(*prog)));
            lemma_evolves_trans(sv0, sv1, state_v(*st));
        }
    }
    proof {
        // The evaluated operand and the state after its evaluation witness
        // the effect shape: exactly the operand's entity was recorded, or it
        // already stood in the pending list.
        assert(val_read(val_v(gtv)) == Some(obj_v(gtobj)));
        assert(obj_v(gtobj) == ObjV::Entity(entity_id.0));
        assert(state_v(*st) == sv1 && sv1.pending.contains(entity_id.0) || state_v(*st)
            == (StateV { pending: sv1.pending.push(entity_id.0), ..sv1 }));
        assert(eval_witness(gtv, sv1));
    }
    Ok(Value::ReadOnly(Object::Null))
}

/// Evaluate an `echo` expression: append the operand's description to the
/// echo buffer and hand the operand back unchanged.
#[verifier::loop_isolation(false)]
fn eval_echo(
    prog: &Program,
    st: &mut RunState,
    frame: &mut Frame,
    target: &Expression,
    fuel: u64,
) -> (r: Result<Value, RuntimeError>)
    requires
        fuel >= 1,
        prog_wf(prog_v(*prog)),
        state_wf(state_v(*old(st)), prog_v(*prog)),
        frame_wf(frame_v(*old(frame)), state_v(*old(st))),
    ensures
        state_wf(state_v(*final(st)), prog_v(*prog)),
        evolves(state_v(*old(st)), state_v(*final(st))),
        *final(frame) == *old(frame),
        ok_is_ro(r),
        match r {
            Ok(res) => exists|v: Value, mid: StateV|
                #![trigger eval_witness(v, mid)]
                {
                    &&& eval_witness(v, mid)
                    &&& expr_post(
                        prog_v(*prog),
                        state_v(*old(st)),
                        frame_v(*old(frame)),
                        expr_v(*target),
                        (fuel - 1) as u64,
                        mid,
                        Ok(v),
                    )
                    &&& (match val_read(val_v(v)) {
                        Some(o) => {
                            &&& val_v(res) == ValV::ReadOnly(o)
                            &&& state_v(*final(st)) == (StateV {
                                echoes: mid.echoes.push(
                                    crate::object::describe_v(
                                        o,
                                        prog_v(*prog),
                                        mid,
                                        DESCRIBE_FUEL as nat,
                                    ),
                                ),
                                ..mid
                            })
                        },
                        None => false,
                    })
                },
            Err(e) => true,
        },
    decreases fuel, 0int,
{
    let ghost sv0 = state_v(*st);
    let tv = match exec_expr(prog, st, frame, target, fuel - 1) {
        Ok(v) => v,
        Err(e) => {
            return Err(e);
        },
    };
    let ghost gtv = tv;
    let tobj = match tv.read() {
        Ok(o) => o,
        Err(e) => {
            return Err(e);
        },
    };
    let ghost sv1 = state_v(*st);
    let line = crate::object::describe_obj(&tobj, prog, st, DESCRIBE_FUEL);
    st.echoes.push(line);
    proof {
        // The state after the operand was evaluated witnesses the effect
        // shape: exactly its description was appended to the echoes.
        assert(evolves(sv0, sv1));
        assert(state_v(*st) =~~= (StateV {
            echoes: sv1.echoes.push(
                crate::object::describe_v(
                    obj_v(tobj),
                    prog_v(*prog),
                    sv1,
                    DESCRIBE_FUEL as nat,
                ),
            ),
            ..sv1
        }));
        assert(state_wf(state_v(*st), prog_v(*prog)));
        lemma_evolves_trans(sv0, sv1, state_v(*st));
        assert(val_read(val_v(gtv)) == Some(obj_v(tobj)));
        assert(eval_witness(gtv, sv1));
    }
    Ok(Value::ReadOnly(tobj))
}

/// Whether the pending-destroy list holds the given id.
fn contains_id(l: &Vec<u64>, id: u64) -> (r: bool)
    ensures
        r == l@.contains(id),
{
    let mut i: usize = 0;
    while i < l.len()
        invariant
            i <= l@.len(),
            forall|j: int| 0 <= j < i ==> l@[j] != id,
        decreases l@.len() - i,
    {
        if l[i] == id {
            return true;
        }
        i += 1;
    }
    proof {
        assert(!l@.contains(id));
    }
    false
}

/// Evaluate a binary operation: `and`/`or` short-circuit over booleans;
/// arithmetic and ordering require numbers; equality compares the full
/// tagged value structurally.
#[verifier::loop_isolation(false)]
fn exec_binary_op(
    prog: &Program,
    st: &mut RunState,
    frame: &mut Frame,
    left: &Expression,
    right: &Expression,
    operator: BinaryOperator,
    fuel: u64,
) -> (r: Result<Value, RuntimeError>)
    requires
        fuel >= 1,
        prog_wf(prog_v(*prog)),
        state_wf(state_v(*old(st)), prog_v(*prog)),
        frame_wf(frame_v(*old(frame)), state_v(*old(st))),
    ensures
        state_wf(state_v(*final(st)), prog_v(*prog)),
        evolves(state_v(*old(st)), state_v(*final(st))),
        *final(frame) == *old(frame),
        ok_is_ro(r),
        pure_expr(ExprV::BinaryOp {
            left: Box::new(expr_v(*left)),
            right: Box::new(expr_v(*right)),
            operator,
        }) ==> state_v(*final(st)) == state_v(*old(st)),
        fuel > expr_height(ExprV::BinaryOp {
            left: Box::new(expr_v(*left)),
            right: Box::new(expr_v(*right)),
            operator,
        }) && const_num_expr(expr_v(*left)) && const_num_expr(expr_v(*right)) && operator
            != BinaryOperator::And && operator != BinaryOperator::Or ==> r is Ok,
        fuel > expr_height(ExprV::BinaryOp {
            left: Box::new(expr_v(*left)),
            right: Box::new(expr_v(*right)),
            operator,
        }) && const_num_expr(ExprV::BinaryOp {
            left: Box::new(expr_v(*left)),
            right: Box::new(expr_v(*right)),
            operator,
        }) ==> (match r {
            Ok(res) => is_num_ro(val_v(res)),
            Err(_) => false,
        }),
        binop_post(
            prog_v(*prog),
            ExprV::BinaryOp {
                left: Box::new(expr_v(*left)),
                right: Box::new(expr_v(*right)),
                operator,
            },
            expr_v(*left),
            expr_v(*right),
            operator,
            fuel,
            state_v(*old(st)),
            frame_v(*old(frame)),
            state_v(*final(st)),
            r,
        ),
        operator == BinaryOperator::And && expr_v(*left) == ExprV::Boolean(false)
            ==> state_v(*final(st)) == state_v(*old(st)) && ok_ro(r, ObjV::Boolean(false)),
        operator == BinaryOperator::Or && expr_v(*left) == ExprV::Boolean(true)
            ==> state_v(*final(st)) == state_v(*old(st)) && ok_ro(r, ObjV::Boolean(true)),
        match (expr_v(*left), expr_v(*right)) {
            (ExprV::Number(a), ExprV::Number(b)) => {
            &&& (operator == BinaryOperator::Add ==> state_v(*final(st)) == state_v(*old(st)) && ok_ro(
                r,
                ObjV::Number(add_bits(a, b)),
            ))
            &&& (operator == BinaryOperator::Subtract ==> state_v(*final(st)) == state_v(*old(st)) && ok_ro(
                r,
                ObjV::Number(sub_bits(a, b)),
            ))
            &&& (operator == BinaryOperator::Multiply ==> state_v(*final(st)) == state_v(*old(st)) && ok_ro(
                r,
                ObjV::Number(mul_bits(a, b)),
            ))
            &&& (operator == BinaryOperator::Divide ==> state_v(*final(st)) == state_v(*old(st)) && ok_ro(
                r,
                ObjV::Number(div_bits(a, b)),
            ))
            &&& (operator == BinaryOperator::LessThan ==> state_v(*final(st)) == state_v(*old(st)) && ok_ro(
                r,
                ObjV::Boolean(lt_bits(a, b)),
            ))
            &&& (operator == BinaryOperator::GreaterThan ==> state_v(*final(st)) == state_v(*old(st)) && ok_ro(
                r,
                ObjV::Boolean(lt_bits(b, a)),
            ))
            &&& (operator == BinaryOperator::LessThanOrEquals ==> state_v(*final(st)) == state_v(*old(st)) && ok_ro(
                r,
                ObjV::Boolean(le_bits(a, b)),
            ))
            &&& (operator == BinaryOperator::GreaterThanOrEquals ==> state_v(*final(st)) == state_v(*old(st))
                && ok_ro(r, ObjV::Boolean(le_bits(b, a))))
            &&& (operator == BinaryOperator::Equals ==> state_v(*final(st)) == state_v(*old(st)) && ok_ro(
                r,
                ObjV::Boolean(eq_bits(a, b)),
            ))
            &&& (operator == BinaryOperator::NotEquals ==> state_v(*final(st)) == state_v(*old(st)) && ok_ro(
                r,
                ObjV::Boolean(!eq_bits(a, b)),
            ))
            },
            _ => true,
        },
    decreases fuel, 0int,
{
    let ghost pvg = prog_v(*prog);
    let ghost pre0 = state_v(*old(st));
    let ghost fpre0 = frame_v(*old(frame));
    let ghost ebv = ExprV::BinaryOp {
        left: Box::new(expr_v(*left)),
        right: Box::new(expr_v(*right)),
        operator,
    };

    // Evaluate the left operand first, whatever the operator.
    let res0 = exec_expr(prog, st, frame, left, fuel - 1);
    let ghost gres0 = res0;
    let lv = match res0 {
        Ok(v) => v,
        Err(e) => {
            proof {
                if fuel > expr_height(ebv) && const_num_expr(expr_v(*left)) && const_num_expr(
                    expr_v(*right),
                ) && operator != BinaryOperator::And && operator != BinaryOperator::Or {
                    lemma_const_num_ok(
                        pvg,
                        pre0,
                        fpre0,
                        expr_v(*left),
                        (fuel - 1) as u64,
                        state_v(*st),
                        gres0,
                    );
                }
            }
            return Err(e);
        },
    };
    let ghost glv = lv;
    let lo = match lv.read() {
        Ok(o) => o,
        Err(e) => {
            proof {
                if fuel > expr_height(ebv) && const_num_expr(expr_v(*left)) && const_num_expr(
                    expr_v(*right),
                ) && operator != BinaryOperator::And && operator != BinaryOperator::Or {
                    lemma_const_num_ok(
                        pvg,
                        pre0,
                        fpre0,
                        expr_v(*left),
                        (fuel - 1) as u64,
                        state_v(*st),
                        gres0,
                    );
                }
            }
            return Err(e);
        },
    };
    let ghost glo = obj_v(lo);
    let ghost mid = state_v(*st);
    proof {
        assert(gres0 == Ok::<Value, RuntimeError>(glv));
        assert(expr_post(pvg, pre0, fpre0, expr_v(*left), (fuel - 1) as u64, mid, Ok(glv)));
        assert(val_read(val_v(glv)) == Some(glo));
        assert(state_wf(mid, pvg));
    }

    // The logical operators require a boolean left side and short-circuit.
    if matches!(operator, BinaryOperator::And) || matches!(operator, BinaryOperator::Or) {
        let l = match lo {
            Object::Boolean(b) => b,
            _ => {
                return Err(
                    RuntimeError::new(
                        String::from_str("both sides of logical operator must be booleans"),
                    ),
                );
            },
        };
        if matches!(operator, BinaryOperator::And) && !l {
            // If the left side is false, the conjunction can never be true;
            // the right side is not evaluated.
            let out = Ok(Value::ReadOnly(Object::Boolean(false)));
            let ghost gout = out;
            proof {
                assert(binop_post(
                pvg,
                ExprV::BinaryOp {
                    left: Box::new(expr_v(*left)),
                    right: Box::new(expr_v(*right)),
                    operator,
                },
                expr_v(*left),
                expr_v(*right),
                operator,
                fuel,
                pre0,
                fpre0,
                state_v(*st),
                gout,
            ));
            }
            return out;
        }
        if matches!(operator, BinaryOperator::Or) && l {
            // If the left side is true, the disjunction is already true.
            let out = Ok(Value::ReadOnly(Object::Boolean(true)));
            let ghost gout = out;
            proof {
                assert(binop_post(
                pvg,
                ExprV::BinaryOp {
                    left: Box::new(expr_v(*left)),
                    right: Box::new(expr_v(*right)),
                    operator,
                },
                expr_v(*left),
                expr_v(*right),
                operator,
                fuel,
                pre0,
                fpre0,
                state_v(*st),
                gout,
            ));
            }
            return out;
        }
        let res1 = exec_expr(prog, st, frame, right, fuel - 1);
        let ghost gres1 = res1;
        let rv = match res1 {
            Ok(v) => v,
            Err(e) => {
                proof {
                    lemma_evolves_trans(pre0, mid, state_v(*st));
                }
                return Err(e);
            },
        };
        let ghost grv = rv;
        proof {
            lemma_evolves_trans(pre0, mid, state_v(*st));
        }
        let ro = match rv.read() {
            Ok(o) => o,
            Err(e) => {
                return Err(e);
            },
        };
        let rb = match ro {
            Object::Boolean(b) => b,
            _ => {
                return Err(
                    RuntimeError::new(
                        String::from_str("both sides of logical operator must be booleans"),
                    ),
                );
            },
        };
        let ghost mid2 = state_v(*st);
        let out = Ok(Value::ReadOnly(Object::Boolean(rb)));
        let ghost gout = out;
        proof {
            assert(gres1 == Ok::<Value, RuntimeError>(grv));
            assert(expr_post(pvg, mid, fpre0, expr_v(*right), (fuel - 1) as u64, mid2, Ok(grv)));
            assert(val_read(val_v(grv)) == Some(ObjV::Boolean(rb)));
            assert(state_wf(mid2, pvg));
            assert(binop_result(operator, glo, ObjV::Boolean(rb), ObjV::Boolean(rb)));
            assert(binop_post(
                pvg,
                ExprV::BinaryOp {
                    left: Box::new(expr_v(*left)),
                    right: Box::new(expr_v(*right)),
                    operator,
                },
                expr_v(*left),
                expr_v(*right),
                operator,
                fuel,
                pre0,
                fpre0,
                state_v(*st),
                gout,
            ));
        }
        return out;
    }

    // Arithmetic, ordering and equality evaluate both sides.
    let res1 = exec_expr(prog, st, frame, right, fuel - 1);
    let ghost gres1 = res1;
    let rv = match res1 {
        Ok(v) => v,
        Err(e) => {
            proof {
                lemma_evolves_trans(pre0, mid, state_v(*st));
                if fuel > expr_height(ebv) && const_num_expr(expr_v(*left)) && const_num_expr(
                    expr_v(*right),
                ) && operator != BinaryOperator::And && operator != BinaryOperator::Or {
                    lemma_const_num_ok(
                        pvg,
                        mid,
                        fpre0,
                        expr_v(*right),
                        (fuel - 1) as u64,
                        state_v(*st),
                        gres1,
                    );
                }
            }
            return Err(e);
        },
    };
    let ghost grv = rv;
    proof {
        lemma_evolves_trans(pre0, mid, state_v(*st));
    }
    let ro = match rv.read() {
        Ok(o) => o,
        Err(e) => {
            proof {
                if fuel > expr_height(ebv) && const_num_expr(expr_v(*left)) && const_num_expr(
                    expr_v(*right),
                ) && operator != BinaryOperator::And && operator != BinaryOperator::Or {
                    lemma_const_num_ok(
                        pvg,
                        mid,
                        fpre0,
                        expr_v(*right),
                        (fuel - 1) as u64,
                        state_v(*st),
                        gres1,
                    );
                }
            }
            return Err(e);
        },
    };
    let ghost gro = obj_v(ro);
    let ghost mid2 = state_v(*st);
    proof {
        assert(gres1 == Ok::<Value, RuntimeError>(grv));
        assert(expr_post(pvg, mid, fpre0, expr_v(*right), (fuel - 1) as u64, mid2, Ok(grv)));
        assert(val_read(val_v(grv)) == Some(gro));
        assert(state_wf(mid2, pvg));
    }

    if matches!(operator, BinaryOperator::Equals) {
        let b = crate::object::obj_eq(&lo, &ro);
        let out = Ok(Value::ReadOnly(Object::Boolean(b)));
        let ghost gout = out;
        proof {
            assert(binop_result(operator, glo, gro, ObjV::Boolean(b)));
            assert(binop_post(
                pvg,
                ExprV::BinaryOp {
                    left: Box::new(expr_v(*left)),
                    right: Box::new(expr_v(*right)),
                    operator,
                },
                expr_v(*left),
                expr_v(*right),
                operator,
                fuel,
                pre0,
                fpre0,
                state_v(*st),
                gout,
            ));
        }
        return out;
    }
    if matches!(operator, BinaryOperator::NotEquals) {
        let b = crate::object::obj_eq(&lo, &ro);
        let out = Ok(Value::ReadOnly(Object::Boolean(!b)));
        let ghost gout = out;
        proof {
            assert(binop_result(operator, glo, gro, ObjV::Boolean(!b)));
            assert(binop_post(
                pvg,
                ExprV::BinaryOp {
                    left: Box::new(expr_v(*left)),
                    right: Box::new(expr_v(*right)),
                    operator,
                },
                expr_v(*left),
                expr_v(*right),
                operator,
                fuel,
                pre0,
                fpre0,
                state_v(*st),
                gout,
            ));
        }
        return out;
    }

    let ghost glo_obj = lo;
    let ghost gro_obj = ro;
    let (a, b) = match (lo, ro) {
        (Object::Number(a), Object::Number(b)) => (a, b),
        _ => {
            proof {
                if fuel > expr_height(ebv) && const_num_expr(expr_v(*left)) && const_num_expr(
                    expr_v(*right),
                ) && operator != BinaryOperator::And && operator != BinaryOperator::Or {
                    lemma_const_num_ok(pvg, pre0, fpre0, expr_v(*left), (fuel - 1) as u64, mid, gres0);
                    lemma_const_num_ok(
                        pvg,
                        mid,
                        fpre0,
                        expr_v(*right),
                        (fuel - 1) as u64,
                        mid2,
                        gres1,
                    );
                    assert(glo == obj_v(glo_obj));
                    assert(gro == obj_v(gro_obj));
                    assert(glo matches ObjV::Number(_));
                    assert(gro matches ObjV::Number(_));
                    assert(false);
                }
            }
            return Err(
                RuntimeError::new(
                    String::from_str("both sides of binary operator must be numbers"),
                ),
            );
        },
    };
    let out = match operator {
        BinaryOperator::Add => Ok(Value::ReadOnly(Object::Number(crate::fp::f64_add(a, b)))),
        BinaryOperator::Subtract => Ok(Value::ReadOnly(Object::Number(crate::fp::f64_sub(a, b)))),
        BinaryOperator::Multiply => Ok(Value::ReadOnly(Object::Number(crate::fp::f64_mul(a, b)))),
        BinaryOperator::Divide => Ok(Value::ReadOnly(Object::Number(crate::fp::f64_div(a, b)))),
        BinaryOperator::LessThan => Ok(Value::ReadOnly(Object::Boolean(crate::fp::f64_lt(a, b)))),
        BinaryOperator::GreaterThan => Ok(
            Value::ReadOnly(Object::Boolean(crate::fp::f64_lt(b, a))),
        ),
        BinaryOperator::LessThanOrEquals => Ok(
            Value::ReadOnly(Object::Boolean(crate::fp::f64_le(a, b))),
        ),
        BinaryOperator::GreaterThanOrEquals => Ok(
            Value::ReadOnly(Object::Boolean(crate::fp::f64_le(b, a))),
        ),
        _ => {
            return Err(
                RuntimeError::new(String::from_str("logical operator reached numeric path")),
            );
        },
    };
    let ghost gout = out;
    proof {
        match gout {
            Ok(resv) => {
                assert(val_read(val_v(resv)) is Some);
                assert(binop_result(operator, glo, gro, val_read(val_v(resv))->0));
                assert(binop_post(
                    pvg,
                    ExprV::BinaryOp {
                        left: Box::new(expr_v(*left)),
                        right: Box::new(expr_v(*right)),
                        operator,
                    },
                    expr_v(*left),
                    expr_v(*right),
                    operator,
                    fuel,
                    pre0,
                    fpre0,
                    state_v(*st),
                    gout,
                ));
            },
            Err(e) => {},
        }
    }
    out
}

/// The entities that survive the end-of-tick sweep: those whose id is not
/// marked for destruction, in registry order.
pub open spec fn remove_pending(entities: Seq<EntityV>, pending: Seq<u64>) -> Seq<EntityV>
    decreases entities.len(),
{
    if entities.len() == 0 {
        Seq::empty()
    } else if pending.contains(entities[0].id) {
        remove_pending(entities.drop_first(), pending)
    } else {
        seq![entities[0]] + remove_pending(entities.drop_first(), pending)
    }
}

/// Apply all pending destructions in one sweep: every entity whose id was
/// marked is removed from the registry; everything else is untouched.
#[verifier::loop_isolation(false)]
#[verifier::rlimit(50)]
fn apply_pending_destroys(st: &mut RunState)
    requires
        forall|i: int, j: int|
            0 <= i < j < state_v(*old(st)).entities.len() ==> (#[trigger] state_v(
                *old(st),
            ).entities[i]).id < (#[trigger] state_v(*old(st)).entities[j]).id,
    ensures
        state_v(*final(st)) == (StateV {
            entities: remove_pending(state_v(*old(st)).entities, state_v(*old(st)).pending),
            ..state_v(*old(st))
        }),
        forall|j: int|
            0 <= j < state_v(*final(st)).entities.len() ==> !state_v(*old(st)).pending.contains(
                (#[trigger] state_v(*final(st)).entities[j]).id,
            ),
        forall|j: int|
            0 <= j < state_v(*final(st)).entities.len() ==> exists|i: int|
                0 <= i < state_v(*old(st)).entities.len() && (#[trigger] state_v(
                    *final(st),
                ).entities[j]) == state_v(*old(st)).entities[i],
        forall|i: int, j: int|
            0 <= i < j < state_v(*final(st)).entities.len() ==> (#[trigger] state_v(
                *final(st),
            ).entities[i]).id < (#[trigger] state_v(*final(st)).entities[j]).id,
{
    let ghost all0 = state_v(*old(st)).entities;
    let ghost pend = state_v(*old(st)).pending;
    let mut kept: Vec<Entity> = Vec::new();
    let ghost total = st.entities@.len() as int;
    while st.entities.len() > 0
        invariant
            all0.len() == total,
            st.entities@.len() <= total,
            state_v(*st) == (StateV { entities: entityvs(st.entities@), ..state_v(*old(st)) }),
            pend == st.pending_destroy@,
            entityvs(st.entities@) =~= all0.subrange(
                total - st.entities@.len(),
                all0.len() as int,
            ),
            remove_pending(all0, pend) == entityvs(kept@) + remove_pending(
                entityvs(st.entities@),
                pend,
            ),
            forall|j: int|
                0 <= j < entityvs(kept@).len() ==> !pend.contains(
                    (#[trigger] entityvs(kept@)[j]).id,
                ),
            forall|j: int|
                0 <= j < entityvs(kept@).len() ==> exists|i: int|
                    0 <= i < all0.len() && (#[trigger] entityvs(kept@)[j]) == all0[i],
            forall|ka: int, ra: int|
                0 <= ka < entityvs(kept@).len() && 0 <= ra < entityvs(st.entities@).len() ==> (
                #[trigger] entityvs(kept@)[ka]).id < (#[trigger] entityvs(st.entities@)[ra]).id,
            forall|i: int, j: int|
                0 <= i < j < entityvs(kept@).len() ==> (#[trigger] entityvs(kept@)[i]).id < (
                #[trigger] entityvs(kept@)[j]).id,
        decreases st.entities@.len(),
    {
        let ghost remv = entityvs(st.entities@);
        let ghost keptv = entityvs(kept@);
        let e = st.entities.remove(0);
        let ghost ev = entity_v(e);
        proof {
            assert(ev == remv[0]);
            assert(entityvs(st.entities@) =~= remv.drop_first());
        }
        if contains_id(&st.pending_destroy, e.id.0) {
            proof {
                assert(remove_pending(remv, pend) == remove_pending(remv.drop_first(), pend));
            }
        } else {
            kept.push(e);
            proof {
                assert(entityvs(kept@) =~= keptv.push(ev));
                assert(remove_pending(remv, pend) == seq![ev] + remove_pending(
                    remv.drop_first(),
                    pend,
                ));
                assert(entityvs(kept@) + remove_pending(entityvs(st.entities@), pend) =~= keptv
                    + remove_pending(remv, pend));
                assert(exists|i: int| 0 <= i < all0.len() && ev == all0[i]) by {
                    assert(ev == all0[total - remv.len()]);
                }
            }
        }
    }
    proof {
        assert(entityvs(st.entities@).len() == 0);
        assert(remove_pending(entityvs(st.entities@), pend) =~= Seq::<EntityV>::empty());
        assert(remove_pending(all0, pend) =~= entityvs(kept@));
    }
    core::mem::swap(&mut st.entities, &mut kept);
    proof {
        assert(state_v(*st) =~~= (StateV { entities: remove_pending(all0, pend), ..state_v(
            *old(st),
        ) }));
    }
}

/// The (id, kind) pairs the tick and draw phases snapshot, in registry
/// order, before any handler runs.
pub open spec fn snapshot_of(entities: Seq<EntityV>) -> Seq<(u64, int)> {
    entities.map_values(|e: EntityV| (e.id, e.kind))
}

/// The view of a snapshot vector.
pub open spec fn snapvs(s: Seq<(EntityId, usize)>) -> Seq<(u64, int)> {
    s.map_values(|p: (EntityId, usize)| (p.0.0, p.1 as int))
}

/// The tick phase's handler runs: one run per snapshotted entity, in order,
/// each with a fresh frame whose active entity is the snapshotted id; a kind
/// without a tick handler contributes nothing. `ok` says the phase
/// completed without a handler error.
pub open spec fn ticks_post(
    pv: ProgV,
    snap: Seq<(u64, int)>,
    fuel: u64,
    pre: StateV,
    post: StateV,
    ok: bool,
) -> bool
    decreases snap.len(),
{
    if snap.len() == 0 {
        post == pre && ok
    } else if !(0 <= snap[0].1 < pv.kinds.len()) {
        false
    } else {
        match pv.kinds[snap[0].1].tick_handler {
            Some(tb) => exists|mid: StateV, fmid: FrameV, sig: Result<ControlSignal, RuntimeError>|
                #![trigger step_witness(mid, fmid, sig)]
                {
                    &&& step_witness(mid, fmid, sig)
                    &&& body_post(
                        pv,
                        tb,
                        fuel,
                        pre,
                        FrameV { locals: Seq::empty(), entity: Some(snap[0].0) },
                        mid,
                        fmid,
                        sig,
                    )
                    &&& (match sig {
                        Ok(s2) => ticks_post(pv, snap.drop_first(), fuel, mid, post, ok),
                        Err(e) => post == mid && !ok,
                    })
                },
            None => ticks_post(pv, snap.drop_first(), fuel, pre, post, ok),
        }
    }
}

/// The views of a list of draw operations.
pub open spec fn opvs(s: Seq<DrawOperation>) -> Seq<(u64, u64, SpriteV)> {
    s.map_values(|o: DrawOperation| (o.x_bits, o.y_bits, o.sprite.spec_v()))
}

/// The draw phase's handler runs: one per snapshotted entity in order, each
/// with a fresh frame. A handler breaking with a sprite contributes one
/// operation, positioned from the entity's `x` and `y` instance variables at
/// that moment; null or falling through contributes nothing; any other
/// break, a missing or non-numeric position, or a handler error fails the
/// phase (`ok` is false).
pub open spec fn draws_post(
    pv: ProgV,
    snap: Seq<(u64, int)>,
    fuel: u64,
    pre: StateV,
    post: StateV,
    ops: Seq<(u64, u64, SpriteV)>,
    ok: bool,
) -> bool
    decreases snap.len(),
{
    if snap.len() == 0 {
        post == pre && ops.len() == 0 && ok
    } else if !(0 <= snap[0].1 < pv.kinds.len()) {
        false
    } else {
        match pv.kinds[snap[0].1].draw_handler {
            Some(db) => exists|mid: StateV, fmid: FrameV, sig: Result<ControlSignal, RuntimeError>|
                #![trigger step_witness(mid, fmid, sig)]
                {
                    &&& step_witness(mid, fmid, sig)
                    &&& body_post(
                        pv,
                        db,
                        fuel,
                        pre,
                        FrameV { locals: Seq::empty(), entity: Some(snap[0].0) },
                        mid,
                        fmid,
                        sig,
                    )
                    &&& (match sig {
                        Ok(cs) => (match control_v(cs) {
                            ControlV::Continue => draws_post(
                                pv,
                                snap.drop_first(),
                                fuel,
                                mid,
                                post,
                                ops,
                                ok,
                            ),
                            ControlV::Break(bv) => match bv {
                                ObjV::Null => draws_post(
                                    pv,
                                    snap.drop_first(),
                                    fuel,
                                    mid,
                                    post,
                                    ops,
                                    ok,
                                ),
                                ObjV::Sprite(spv) => {
                                    if !mid.live(snap[0].0) {
                                        post == mid && !ok
                                    } else {
                                        match (
                                            assoc_get(mid.ivars_of(snap[0].0), "x"@),
                                            assoc_get(mid.ivars_of(snap[0].0), "y"@),
                                        ) {
                                            (
                                                Some(ObjV::Number(xb)),
                                                Some(ObjV::Number(yb)),
                                            ) => ops.len() > 0 && ops[0] == (xb, yb, spv)
                                                && draws_post(
                                                pv,
                                                snap.drop_first(),
                                                fuel,
                                                mid,
                                                post,
                                                ops.drop_first(),
                                                ok,
                                            ),
                                            _ => post == mid && !ok,
                                        }
                                    }
                                },
                                _ => post == mid && !ok,
                            },
                        }),
                        Err(e) => post == mid && !ok,
                    })
                },
            None => draws_post(pv, snap.drop_first(), fuel, pre, post, ops, ok),
        }
    }
}

impl Interpreter {
    /// Sound may only be enqueued during a tick: any sound still pending at
    /// the end of an init or draw phase is an error.
    fn forbid_sound(&self) -> (r: Result<(), RuntimeError>)
        ensures
            r is Ok <==> self.sv().sounds.len() == 0,
    {
        if self.state.pending_sounds.len() > 0 {
            return Err(
                RuntimeError::new(
                    String::from_str(
                        "cannot play sound from anywhere other than `tick` (or a function it calls)",
                    ),
                ),
            );
        }
        Ok(())
    }

    /// Run the top-level constructor once, before the first tick, with no
    /// active entity. Playing a sound during initialization is an error.
    pub fn execute_init(&mut self) -> (r: Result<(), RuntimeError>)
        requires
            old(self).wf(),
        ensures
            final(self).wf(),
            final(self).pv() == old(self).pv(),
            evolves(old(self).sv(), final(self).sv()),
            r is Ok ==> final(self).sv().sounds.len() == 0,
            old(self).sv().sounds.len() > 0 ==> r is Err,
            old(self).pv().top_ctor.len() == 0 && old(self).sv().sounds.len() == 0 ==> r is Ok
                && final(self).sv() == old(self).sv(),
            exists|fpost: FrameV, sig: Result<ControlSignal, RuntimeError>|
                {
                    &&& #[trigger] body_post(
                        old(self).pv(),
                        old(self).pv().top_ctor,
                        EVAL_FUEL,
                        old(self).sv(),
                        FrameV { locals: Seq::empty(), entity: None },
                        final(self).sv(),
                        fpost,
                        sig,
                    )
                    &&& (r is Ok <==> sig is Ok && final(self).sv().sounds.len() == 0)
                },
    {
        proof {
            crate::ast::lemma_stmts_v(self.program.top_level_constructor@);
        }
        let mut frame = Frame::new_for(None);
        proof {
            assert(frame_v(frame) =~~= (FrameV { locals: Seq::empty(), entity: None }));
        }
        let res = exec_body(
            &self.program,
            &mut self.state,
            &mut frame,
            &self.program.top_level_constructor,
            EVAL_FUEL,
        );
        let ghost gres = res;
        let ghost gfpost = frame_v(frame);
        match res {
            Ok(_) => {},
            Err(e) => {
                proof {
                    assert(body_post(
                        old(self).pv(),
                        old(self).pv().top_ctor,
                        EVAL_FUEL,
                        old(self).sv(),
                        FrameV { locals: Seq::empty(), entity: None },
                        state_v(self.state),
                        gfpost,
                        gres,
                    ));
                }
                return Err(e);
            },
        }
        proof {
            assert(body_post(
                old(self).pv(),
                old(self).pv().top_ctor,
                EVAL_FUEL,
                old(self).sv(),
                FrameV { locals: Seq::empty(), entity: None },
                state_v(self.state),
                gfpost,
                gres,
            ));
        }
        self.forbid_sound()
    }

    /// Run every entity's tick handler once, then apply the deferred
    /// destructions in one sweep, then hand out the sounds enqueued during
    /// the tick and clear the queue.
    ///
    /// The (id, kind) pairs are snapshotted first, so spawns and destroys
    /// triggered by one entity's tick do not perturb which handlers run this
    /// tick. Destruction is deferred: an entity destroyed during the tick
    /// stays present (queryable, its instance variables readable) until the
    /// sweep, and no swept id is live afterwards.
    #[verifier::loop_isolation(false)]
    pub fn execute_tick(&mut self) -> (r: Result<Vec<crate::ast::Tone>, RuntimeError>)
        requires
            old(self).wf(),
        ensures
            final(self).wf(),
            final(self).pv() == old(self).pv(),
            final(self).sv().input == old(self).sv().input,
            final(self).sv().display == old(self).sv().display,
            old(self).sv().next_id <= final(self).sv().next_id,
            old(self).sv().entities.len() == 0 && old(self).sv().sounds.len() == 0 ==> (r matches
            Ok(tones) && tones@.len() == 0 && final(self).sv() == (StateV {
                pending: Seq::empty(),
                ..old(self).sv()
            })),
            r matches Ok(tones) ==> {
                &&& final(self).sv().sounds.len() == 0
                &&& old(self).sv().sounds.len() <= tones@.len()
                &&& forall|i: int|
                    0 <= i < old(self).sv().sounds.len() ==> tones@[i] == old(self).sv().sounds[i]
                &&& forall|id: u64|
                    #[trigger] final(self).sv().live(id) ==> !final(self).sv().pending.contains(
                        id,
                    )
                &&& exists|mid: StateV|
                    {
                        &&& evolves(StateV { pending: Seq::empty(), ..old(self).sv() }, mid)
                        &&& #[trigger] state_wf(mid, old(self).pv())
                        &&& ticks_post(
                            old(self).pv(),
                            snapshot_of(old(self).sv().entities),
                            EVAL_FUEL,
                            StateV { pending: Seq::empty(), ..old(self).sv() },
                            mid,
                            true,
                        )
                        &&& tones@ == mid.sounds
                        &&& final(self).sv() == (StateV {
                            entities: remove_pending(mid.entities, mid.pending),
                            sounds: Seq::empty(),
                            ..mid
                        })
                    }
            },
    {
        let prog = &self.program;
        let st = &mut self.state;

        // Pending destructions from before this tick are forgotten.
        st.pending_destroy.clear();
        let ghost sv1 = state_v(*st);

        // Snapshot which entities tick, before any handler runs.
        proof {
            assert(state_wf(old(self).sv(), old(self).pv()));
            assert(sv1 =~~= (StateV { pending: Seq::empty(), ..old(self).sv() }));
            assert(prog_v(*prog) == old(self).pv());
            assert(state_wf(sv1, prog_v(*prog)));
        }
        let mut snapshot: Vec<(EntityId, usize)> = Vec::new();
        let mut i: usize = 0;
        while i < st.entities.len()
            invariant
                snapshot@.len() == i,
                i <= st.entities@.len(),
                state_v(*st) == sv1,
                snapvs(snapshot@) =~= snapshot_of(sv1.entities).subrange(0, i as int),
                forall|j: int|
                    0 <= j < i ==> (#[trigger] snapshot@[j]).1 < prog.entity_kinds@.len()
                        && sv1.live(snapshot@[j].0.0),
            decreases st.entities@.len() - i,
        {
            proof {
                assert(entityvs(st.entities@)[i as int] == entity_v(st.entities@[i as int]));
                assert(0 <= sv1.entities[i as int].kind < prog_v(*prog).kinds.len());
                assert(sv1.live(st.entities@[i as int].id.0)) by {
                    assert(sv1.entities[i as int].id == st.entities@[i as int].id.0);
                }
                assert(snapshot_of(sv1.entities)[i as int] == (
                    sv1.entities[i as int].id,
                    sv1.entities[i as int].kind,
                ));
            }
            snapshot.push((st.entities[i].id, st.entities[i].kind));
            i += 1;
        }
        let ghost snapv = snapvs(snapshot@);
        proof {
            assert(snapv =~= snapshot_of(sv1.entities));
            assert(snapv.subrange(0, snapv.len() as int) =~= snapv);
        }

        // Run the handlers.
        let mut k: usize = 0;
        while k < snapshot.len()
            invariant
                prog_wf(prog_v(*prog)),
                state_wf(state_v(*st), prog_v(*prog)),
                evolves(sv1, state_v(*st)),
                snapshot@.len() == 0 ==> state_v(*st) == sv1,
                k <= snapshot@.len(),
                snapv == snapvs(snapshot@),
                snapv.len() == snapshot@.len(),
                forall|j: int|
                    0 <= j < snapshot@.len() ==> (#[trigger] snapshot@[j]).1
                        < prog.entity_kinds@.len() && state_v(*st).live(snapshot@[j].0.0),
                forall|p2: StateV|
                    ticks_post(
                        prog_v(*prog),
                        snapv.subrange(k as int, snapv.len() as int),
                        EVAL_FUEL,
                        state_v(*st),
                        p2,
                        true,
                    ) ==> #[trigger] ticks_post(prog_v(*prog), snapv, EVAL_FUEL, sv1, p2, true),
            decreases snapshot@.len() - k,
        {
            let (id, kind_idx) = snapshot[k];
            let ghost svb = state_v(*st);
            let ghost suffix = snapv.subrange(k as int, snapv.len() as int);
            proof {
                assert(forall|p2: StateV|
                    ticks_post(prog_v(*prog), suffix, EVAL_FUEL, svb, p2, true)
                        ==> #[trigger] ticks_post(prog_v(*prog), snapv, EVAL_FUEL, sv1, p2, true));
                assert(suffix[0] == snapvs(snapshot@)[k as int]);
                assert(suffix[0] == (id.0, kind_idx as int));
                assert(suffix.drop_first() =~= snapv.subrange(k + 1, snapv.len() as int));
            }
            if let Some(body) = &prog.entity_kinds[kind_idx].tick_handler {
                let mut frame = Frame::new_for(Some(id));
                proof {
                    assert(frame_v(frame) =~~= (FrameV {
                        locals: Seq::empty(),
                        entity: Some(id.0),
                    }));
                }
                let res = exec_body(prog, st, &mut frame, body, EVAL_FUEL);
                let ghost gsig = res;
                proof {
                    assert(prog_v(*prog).kinds[kind_idx as int].tick_handler == Some(
                        stmts_v(body@),
                    ));
                    assert(step_witness(state_v(*st), frame_v(frame), gsig));
                    assert(body_post(
                        prog_v(*prog),
                        stmts_v(body@),
                        EVAL_FUEL,
                        svb,
                        FrameV { locals: Seq::empty(), entity: Some(id.0) },
                        state_v(*st),
                        frame_v(frame),
                        gsig,
                    ));
                }
                match res {
                    Ok(_) => {},
                    Err(e) => {
                        return Err(e);
                    },
                }
                proof {
                    lemma_evolves_trans(sv1, svb, state_v(*st));
                    assert forall|p2: StateV|
                        ticks_post(
                            prog_v(*prog),
                            snapv.subrange(k + 1, snapv.len() as int),
                            EVAL_FUEL,
                            state_v(*st),
                            p2,
                            true,
                        ) implies #[trigger] ticks_post(
                        prog_v(*prog),
                        snapv,
                        EVAL_FUEL,
                        sv1,
                        p2,
                        true,
                    ) by {
                        assert(ticks_post(prog_v(*prog), suffix, EVAL_FUEL, svb, p2, true));
                    }
                }
            } else {
                proof {
                    assert(prog_v(*prog).kinds[kind_idx as int].tick_handler is None);
                    assert forall|p2: StateV|
                        ticks_post(
                            prog_v(*prog),
                            snapv.subrange(k + 1, snapv.len() as int),
                            EVAL_FUEL,
                            state_v(*st),
                            p2,
                            true,
                        ) implies #[trigger] ticks_post(
                        prog_v(*prog),
                        snapv,
                        EVAL_FUEL,
                        sv1,
                        p2,
                        true,
                    ) by {
                        assert(ticks_post(prog_v(*prog), suffix, EVAL_FUEL, svb, p2, true));
                    }
                }
            }
            k += 1;
        }
        proof {
            assert(snapv.subrange(k as int, snapv.len() as int).len() == 0);
            assert(ticks_post(
                prog_v(*prog),
                snapv.subrange(k as int, snapv.len() as int),
                EVAL_FUEL,
                state_v(*st),
                state_v(*st),
                true,
            ));
            assert(ticks_post(prog_v(*prog), snapv, EVAL_FUEL, sv1, state_v(*st), true));
        }

        // Apply the deferred destructions in one sweep.
        let ghost sv2 = state_v(*st);
        apply_pending_destroys(st);
        proof {
            assert(state_wf(state_v(*st), prog_v(*prog))) by {
                assert forall|j: int| 0 <= j < state_v(*st).entities.len() implies 0 <= (
                #[trigger] state_v(*st).entities[j]).kind < prog_v(*prog).kinds.len() && state_v(
                    *st,
                ).entities[j].id < state_v(*st).next_id && keys_unique(
                    state_v(*st).entities[j].ivars,
                ) by {
                    let wi = choose|wi: int|
                        0 <= wi < sv2.entities.len() && state_v(*st).entities[j]
                            == sv2.entities[wi];
                    assert(0 <= sv2.entities[wi].kind < prog_v(*prog).kinds.len());
                }
            }
        }

        // Hand the tick's sounds to the host and clear the queue.
        let mut tones: Vec<crate::ast::Tone> = Vec::new();
        core::mem::swap(&mut tones, &mut st.pending_sounds);
        proof {
            assert(state_v(*st).sounds =~= Seq::<crate::ast::Tone>::empty());
            // The state after the handlers witnesses the run: the sweep kept
            // exactly its unmarked entities, and the tones are its queue.
            assert(evolves(StateV { pending: Seq::empty(), ..old(self).sv() }, sv2));
            assert(sv1.entities =~= old(self).sv().entities);
            assert(snapshot_of(old(self).sv().entities) =~= snapshot_of(sv1.entities));
            assert(ticks_post(
                old(self).pv(),
                snapshot_of(old(self).sv().entities),
                EVAL_FUEL,
                StateV { pending: Seq::empty(), ..old(self).sv() },
                sv2,
                true,
            ));
            assert(tones@ == sv2.sounds);
            assert(state_v(*st) =~~= (StateV {
                entities: remove_pending(sv2.entities, sv2.pending),
                sounds: Seq::empty(),
                ..sv2
            }));
        }
        Ok(tones)
    }

    /// Run every entity's draw handler once and collect the draw operations:
    /// a handler returning a sprite contributes `(x, y, sprite)` with the
    /// position read from the entity's `x` and `y` instance variables; null
    /// contributes nothing; anything else is an error, as is a sound still
    /// pending when the phase ends.
    #[verifier::loop_isolation(false)]
    #[verifier::rlimit(100)]
    pub fn execute_draw(&mut self) -> (r: Result<Vec<DrawOperation>, RuntimeError>)
        requires
            old(self).wf(),
        ensures
            final(self).wf(),
            final(self).pv() == old(self).pv(),
            evolves(old(self).sv(), final(self).sv()),
            r is Ok ==> final(self).sv().sounds.len() == 0,
            old(self).sv().sounds.len() > 0 ==> r is Err,
            old(self).sv().entities.len() == 0 && old(self).sv().sounds.len() == 0 ==> (r matches
            Ok(ops) && ops@.len() == 0 && final(self).sv() == old(self).sv()),
            r matches Ok(ops) ==> draws_post(
                old(self).pv(),
                snapshot_of(old(self).sv().entities),
                EVAL_FUEL,
                old(self).sv(),
                final(self).sv(),
                opvs(ops@),
                true,
            ),
    {
        let prog = &self.program;
        let st = &mut self.state;
        let ghost sv0 = state_v(*st);

        let mut snapshot: Vec<(EntityId, usize)> = Vec::new();
        let mut i: usize = 0;
        while i < st.entities.len()
            invariant
                snapshot@.len() == i,
                i <= st.entities@.len(),
                state_v(*st) == sv0,
                snapvs(snapshot@) =~= snapshot_of(sv0.entities).subrange(0, i as int),
                forall|j: int|
                    0 <= j < i ==> (#[trigger] snapshot@[j]).1 < prog.entity_kinds@.len()
                        && sv0.live(snapshot@[j].0.0),
            decreases st.entities@.len() - i,
        {
            proof {
                assert(entityvs(st.entities@)[i as int] == entity_v(st.entities@[i as int]));
                assert(0 <= sv0.entities[i as int].kind < prog_v(*prog).kinds.len());
                assert(sv0.live(st.entities@[i as int].id.0)) by {
                    assert(sv0.entities[i as int].id == st.entities@[i as int].id.0);
                }
                assert(snapshot_of(sv0.entities)[i as int] == (
                    sv0.entities[i as int].id,
                    sv0.entities[i as int].kind,
                ));
            }
            snapshot.push((st.entities[i].id, st.entities[i].kind));
            i += 1;
        }
        let ghost snapv = snapvs(snapshot@);
        proof {
            assert(snapv =~= snapshot_of(sv0.entities));
            assert(snapv.subrange(0, snapv.len() as int) =~= snapv);
        }

        let mut draw_ops: Vec<DrawOperation> = Vec::new();
        proof {
            assert(opvs(draw_ops@) =~= Seq::<(u64, u64, SpriteV)>::empty());
        }
        let mut k: usize = 0;
        while k < snapshot.len()
            invariant
                prog_wf(prog_v(*prog)),
                state_wf(state_v(*st), prog_v(*prog)),
                evolves(sv0, state_v(*st)),
                snapshot@.len() == 0 ==> state_v(*st) == sv0 && draw_ops@.len() == 0,
                k <= snapshot@.len(),
                snapv == snapvs(snapshot@),
                snapv.len() == snapshot@.len(),
                forall|j: int|
                    0 <= j < snapshot@.len() ==> (#[trigger] snapshot@[j]).1
                        < prog.entity_kinds@.len() && state_v(*st).live(snapshot@[j].0.0),
                forall|p2: StateV, ops2: Seq<(u64, u64, SpriteV)>|
                    draws_post(
                        prog_v(*prog),
                        snapv.subrange(k as int, snapv.len() as int),
                        EVAL_FUEL,
                        state_v(*st),
                        p2,
                        ops2,
                        true,
                    ) ==> #[trigger] draws_post(
                        prog_v(*prog),
                        snapv,
                        EVAL_FUEL,
                        sv0,
                        p2,
                        opvs(draw_ops@) + ops2,
                        true,
                    ),
            decreases snapshot@.len() - k,
        {
            let (id, kind_idx) = snapshot[k];
            let ghost svb = state_v(*st);
            let ghost opsb = opvs(draw_ops@);
            let ghost suffix = snapv.subrange(k as int, snapv.len() as int);
            proof {
                assert(forall|p2: StateV, ops2: Seq<(u64, u64, SpriteV)>|
                    draws_post(prog_v(*prog), suffix, EVAL_FUEL, svb, p2, ops2, true)
                        ==> #[trigger] draws_post(
                        prog_v(*prog),
                        snapv,
                        EVAL_FUEL,
                        sv0,
                        p2,
                        opsb + ops2,
                        true,
                    ));
                assert(suffix[0] == snapvs(snapshot@)[k as int]);
                assert(suffix[0] == (id.0, kind_idx as int));
                assert(suffix.drop_first() =~= snapv.subrange(k + 1, snapv.len() as int));
            }
            if let Some(body) = &prog.entity_kinds[kind_idx].draw_handler {
                let mut frame = Frame::new_for(Some(id));
                proof {
                    assert(frame_v(frame) =~~= (FrameV {
                        locals: Seq::empty(),
                        entity: Some(id.0),
                    }));
                }
                let res = exec_body(prog, st, &mut frame, body, EVAL_FUEL);
                let ghost gres = res;
                proof {
                    assert(prog_v(*prog).kinds[kind_idx as int].draw_handler == Some(
                        stmts_v(body@),
                    ));
                    assert(step_witness(state_v(*st), frame_v(frame), gres));
                    assert(body_post(
                        prog_v(*prog),
                        stmts_v(body@),
                        EVAL_FUEL,
                        svb,
                        FrameV { locals: Seq::empty(), entity: Some(id.0) },
                        state_v(*st),
                        frame_v(frame),
                        gres,
                    ));
                }
                let sig = match res {
                    Ok(sig) => sig,
                    Err(e) => {
                        return Err(e);
                    },
                };
                let ghost gsig0 = sig;
                proof {
                    lemma_evolves_trans(sv0, svb, state_v(*st));
                    assert(gres == Ok::<ControlSignal, RuntimeError>(gsig0));
                }
                match sig {
                    ControlSignal::Continue => {
                        proof {
                            assert forall|p2: StateV, ops2: Seq<(u64, u64, SpriteV)>|
                                draws_post(
                                    prog_v(*prog),
                                    snapv.subrange(k + 1, snapv.len() as int),
                                    EVAL_FUEL,
                                    state_v(*st),
                                    p2,
                                    ops2,
                                    true,
                                ) implies #[trigger] draws_post(
                                prog_v(*prog),
                                snapv,
                                EVAL_FUEL,
                                sv0,
                                p2,
                                opvs(draw_ops@) + ops2,
                                true,
                            ) by {
                                assert(draws_post(
                                    prog_v(*prog),
                                    suffix,
                                    EVAL_FUEL,
                                    svb,
                                    p2,
                                    ops2,
                                    true,
                                ));
                            }
                        }
                    },
                    ControlSignal::Break(Object::Null) => {
                        proof {
                            assert(control_v(gsig0) == ControlV::Break(ObjV::Null));
                            assert forall|p2: StateV, ops2: Seq<(u64, u64, SpriteV)>|
                                draws_post(
                                    prog_v(*prog),
                                    snapv.subrange(k + 1, snapv.len() as int),
                                    EVAL_FUEL,
                                    state_v(*st),
                                    p2,
                                    ops2,
                                    true,
                                ) implies #[trigger] draws_post(
                                prog_v(*prog),
                                snapv,
                                EVAL_FUEL,
                                sv0,
                                p2,
                                opvs(draw_ops@) + ops2,
                                true,
                            ) by {
                                assert(draws_post(
                                    prog_v(*prog),
                                    suffix,
                                    EVAL_FUEL,
                                    svb,
                                    p2,
                                    ops2,
                                    true,
                                ));
                            }
                        }
                    },
                    ControlSignal::Break(Object::Sprite(sprite)) => {
                        let ghost gspv = sprite.spec_v();
                        let ghost svc = state_v(*st);
                        proof {
                            assert(control_v(gsig0) == ControlV::Break(ObjV::Sprite(gspv)));
                            assert(svc.live(id.0));
                        }
                        let ei = match find_entity(&st.entities, id.0) {
                            Some(ei) => ei,
                            None => {
                                return Err(
                                    RuntimeError::new(
                                        String::from_str("drawing entity vanished"),
                                    ),
                                );
                            },
                        };
                        proof {
                            let fi2 = svc.find(id.0)->0;
                            assert(0 <= fi2 < svc.entities.len() && svc.entities[fi2].id
                                == id.0);
                            assert(entityvs(st.entities@)[ei as int].id == id.0);
                            assert(fi2 == ei as int);
                            assert(svc.ivars_of(id.0) == assoc_v(st.entities@[ei as int].ivars@));
                        }
                        let (x_bits, y_bits) = match st.entities[ei].draw_position_ivars() {
                            Ok(p) => p,
                            Err(e) => {
                                return Err(e);
                            },
                        };
                        draw_ops.push(DrawOperation { x_bits, y_bits, sprite });
                        proof {
                            assert(opvs(draw_ops@) =~= opsb.push((x_bits, y_bits, gspv)));
                            assert forall|p2: StateV, ops2: Seq<(u64, u64, SpriteV)>|
                                draws_post(
                                    prog_v(*prog),
                                    snapv.subrange(k + 1, snapv.len() as int),
                                    EVAL_FUEL,
                                    state_v(*st),
                                    p2,
                                    ops2,
                                    true,
                                ) implies #[trigger] draws_post(
                                prog_v(*prog),
                                snapv,
                                EVAL_FUEL,
                                sv0,
                                p2,
                                opvs(draw_ops@) + ops2,
                                true,
                            ) by {
                                let opsmid = seq![(x_bits, y_bits, gspv)] + ops2;
                                assert(opsmid[0] == (x_bits, y_bits, gspv));
                                assert(opsmid.drop_first() =~= ops2);
                                assert(draws_post(
                                    prog_v(*prog),
                                    suffix,
                                    EVAL_FUEL,
                                    svb,
                                    p2,
                                    opsmid,
                                    true,
                                ));
                                assert(opsb + opsmid =~= opvs(draw_ops@) + ops2);
                            }
                        }
                    },
                    ControlSignal::Break(_) => {
                        return Err(
                            RuntimeError::new(
                                String::from_str(
                                    "if `draw` returns something, it must be a sprite",
                                ),
                            ),
                        );
                    },
                }
            } else {
                proof {
                    assert(prog_v(*prog).kinds[kind_idx as int].draw_handler is None);
                    assert forall|p2: StateV, ops2: Seq<(u64, u64, SpriteV)>|
                        draws_post(
                            prog_v(*prog),
                            snapv.subrange(k + 1, snapv.len() as int),
                            EVAL_FUEL,
                            state_v(*st),
                            p2,
                            ops2,
                            true,
                        ) implies #[trigger] draws_post(
                        prog_v(*prog),
                        snapv,
                        EVAL_FUEL,
                        sv0,
                        p2,
                        opvs(draw_ops@) + ops2,
                        true,
                    ) by {
                        assert(draws_post(prog_v(*prog), suffix, EVAL_FUEL, svb, p2, ops2, true));
                    }
                }
            }
            k += 1;
        }
        proof {
            assert(snapv.subrange(k as int, snapv.len() as int).len() == 0);
            assert(draws_post(
                prog_v(*prog),
                snapv.subrange(k as int, snapv.len() as int),
                EVAL_FUEL,
                state_v(*st),
                state_v(*st),
                Seq::empty(),
                true,
            ));
            assert(opvs(draw_ops@) + Seq::<(u64, u64, SpriteV)>::empty() =~= opvs(draw_ops@));
            assert(draws_post(
                prog_v(*prog),
                snapv,
                EVAL_FUEL,
                sv0,
                state_v(*st),
                opvs(draw_ops@),
                true,
            ));
        }

        match self.forbid_sound() {
            Ok(_) => Ok(draw_ops),
            Err(e) => Err(e),
        }
    }

    /// Register a fresh instance of the named kind: look the kind up,
    /// allocate the next id, set every declared instance variable to null,
    /// make the entity visible in the registry, and then run its
    /// constructor with the new entity active. An unknown kind name is an
    /// error; a constructor failure leaves the entity registered.
    pub fn spawn(&mut self, kind_name: &str, fuel: u64) -> (r: Result<EntityId, RuntimeError>)
        requires
            old(self).wf(),
        ensures
            final(self).wf(),
            final(self).pv() == old(self).pv(),
            evolves(old(self).sv(), final(self).sv()),
            match lookup_kind(old(self).pv().kinds, kind_name@) {
                None => r is Err && final(self).sv() == old(self).sv(),
                Some(ki) => {
                    &&& (r matches Ok(id) ==> id.0 == old(self).sv().next_id && final(self).sv().live(id.0))
                    &&& (old(self).sv().next_id < u64::MAX ==> final(self).sv().live(
                        old(self).sv().next_id,
                    ) && final(self).sv().next_id > old(self).sv().next_id)
                    &&& (fuel > 0 && old(self).sv().next_id < u64::MAX && old(
                        self,
                    ).pv().kinds[ki].constructor is None ==> r is Ok)
                    &&& (r is Ok ==> exists|
                        mid: StateV,
                        fmid: FrameV,
                        sig: Result<ControlSignal, RuntimeError>,
                    |
                        #![trigger step_witness(mid, fmid, sig)]
                        {
                            &&& step_witness(mid, fmid, sig)
                            &&& mid == (StateV {
                                entities: old(self).sv().entities.push(
                                    EntityV {
                                        id: old(self).sv().next_id,
                                        kind: ki,
                                        ivars: init_ivars(
                                            old(self).pv().kinds[ki].ivars,
                                            Seq::empty(),
                                        ),
                                    },
                                ),
                                next_id: (old(self).sv().next_id + 1) as u64,
                                ..old(self).sv()
                            })
                            &&& (match old(self).pv().kinds[ki].constructor {
                                Some(cb) => sig is Ok && body_post(
                                    old(self).pv(),
                                    cb,
                                    (fuel - 1) as u64,
                                    mid,
                                    FrameV {
                                        locals: Seq::empty(),
                                        entity: Some(old(self).sv().next_id),
                                    },
                                    final(self).sv(),
                                    fmid,
                                    sig,
                                ),
                                None => final(self).sv() == mid && sig is Ok,
                            })
                        })
                },
            },
    {
        let ki = match find_kind(&self.program.entity_kinds, kind_name) {
            Some(ki) => ki,
            None => {
                return Err(
                    RuntimeError::new(
                        concat3("no entity declaration named `", kind_name, "`"),
                    ),
                );
            },
        };
        proof {
            lemma_lookup_kind(self.pv().kinds, kind_name@);
        }
        spawn_kind(&self.program, &mut self.state, ki, fuel)
    }

    /// Execute one statement against this interpreter, in the given frame.
    pub fn interpret_statement(&mut self, stmt: &Statement, frame: &mut Frame, fuel: u64) -> (r:
        Result<ControlSignal, RuntimeError>)
        requires
            old(self).wf(),
            frame_wf(frame_v(*old(frame)), old(self).sv()),
        ensures
            final(self).wf(),
            final(self).pv() == old(self).pv(),
            frame_wf(frame_v(*final(frame)), final(self).sv()),
            evolves(old(self).sv(), final(self).sv()),
            frame_v(*final(frame)).entity == frame_v(*old(frame)).entity,
            stmt_post(
                old(self).pv(),
                stmt_v(*stmt),
                old(self).sv(),
                frame_v(*old(frame)),
                fuel,
                final(self).sv(),
                frame_v(*final(frame)),
                r,
            ),
    {
        exec_stmt(&self.program, &mut self.state, frame, stmt, fuel)
    }

    /// Evaluate one expression against this interpreter, in the given frame.
    pub fn interpret_expression(&mut self, expr: &Expression, frame: &mut Frame, fuel: u64) -> (r:
        Result<Value, RuntimeError>)
        requires
            old(self).wf(),
            frame_wf(frame_v(*old(frame)), old(self).sv()),
        ensures
            final(self).wf(),
            final(self).pv() == old(self).pv(),
            evolves(old(self).sv(), final(self).sv()),
            *final(frame) == *old(frame),
            r matches Ok(v) ==> val_target_live(val_v(v), final(self).sv()),
            expr_post(
                old(self).pv(),
                old(self).sv(),
                frame_v(*old(frame)),
                expr_v(*expr),
                fuel,
                final(self).sv(),
                r,
            ),
    {
        exec_expr(&self.program, &mut self.state, frame, expr, fuel)
    }
}

impl Entity {
    /// The position a drawing entity contributes: the `x` and `y` instance
    /// variables, which must both be declared and numeric.
    pub fn draw_position_ivars(&self) -> (r: Result<(u64, u64), RuntimeError>)
        ensures
            match (
                assoc_get(assoc_v(self.ivars@), "x"@),
                assoc_get(assoc_v(self.ivars@), "y"@),
            ) {
                (Some(ObjV::Number(xb)), Some(ObjV::Number(yb))) => r matches Ok(p) && p == (
                    xb,
                    yb,
                ),
                _ => r is Err,
            },
    {
        let x = match assoc_read(&self.ivars, "x") {
            Some(o) => o,
            None => {
                return Err(
                    RuntimeError::new(
                        String::from_str(
                            "instance variable `x` must be declared when drawing a sprite",
                        ),
                    ),
                );
            },
        };
        let y = match assoc_read(&self.ivars, "y") {
            Some(o) => o,
            None => {
                return Err(
                    RuntimeError::new(
                        String::from_str(
                            "instance variable `y` must be declared when drawing a sprite",
                        ),
                    ),
                );
            },
        };
        match (x, y) {
            (Object::Number(xb), Object::Number(yb)) => Ok((xb, yb)),
            _ => Err(
                RuntimeError::new(
                    String::from_str("instance variables `x` and `y` must both be numbers"),
                ),
            ),
        }
    }

    /// A copy of the named instance variable's value, if declared.
    pub fn get_ivar(&self, name: &str) -> (r: Option<Object>)
        ensures
            match assoc_get(assoc_v(self.ivars@), name@) {
                Some(v) => r matches Some(o) && obj_v(o) == v,
                None => r is None,
            },
    {
        assoc_read(&self.ivars, name)
    }
}

/// One draw operation: a sprite placed at a position, both coordinates
/// IEEE-754 binary64 bit patterns read from the drawing entity's `x` and `y`
/// instance variables.
pub struct DrawOperation {
    pub x_bits: u64,
    pub y_bits: u64,
    pub sprite: Sprite,
}

/// Concatenate an imported handler body with the target's own, the imported
/// statements first.
fn merge_body_vecs(imported: Option<Vec<Statement>>, own: Option<Vec<Statement>>) -> (r: Option<
    Vec<Statement>,
>)
    ensures
        (match r {
            Some(b) => Some(stmts_v(b@)),
            None => None,
        }) == merge_bodies(
            match imported {
                Some(b) => Some(stmts_v(b@)),
                None => None,
            },
            match own {
                Some(b) => Some(stmts_v(b@)),
                None => None,
            },
        ),
{
    broadcast use crate::ast::group_ast_views;

    match (imported, own) {
        (None, o) => o,
        (Some(i), None) => Some(i),
        (Some(mut i), Some(mut o)) => {
            let ghost iv = stmts_v(i@);
            let ghost ov = stmts_v(o@);
            i.append(&mut o);
            proof {
                assert(stmts_v(i@) =~= iv + ov);
            }
            Some(i)
        },
    }
}

} // verus!
