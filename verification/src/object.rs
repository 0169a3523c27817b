//! The runtime value type: a tagged union over everything an expression can
//! evaluate to, with structural equality and a deep mathematical value.

use vstd::prelude::*;
use vstd::string::StringExecFns;

use crate::ast::{Note, Sprite, SpriteV, Tone};
use crate::fp::{dec_of_bits, eq_bits, f64_eq, f64_to_dec};
use crate::interpreter::{
    all_of_kind, assoc_v, assoc_write, bind_params, body_post, control_v, entityvs, evolves,
    exec_body, find_entity, frame_v, frame_wf, funvs, ids_unique, keys_unique, kind_v,
    lemma_lookup_fun, lookup_fun, ok_obj, prog_v, prog_wf, state_v, state_wf, step_witness,
    ControlSignal, ControlV, Frame, FrameV, Program, ProgV, RunState, RuntimeError, StateV,
};
use crate::text::{concat3, concat5, dec_of_nat, str_eq, u64_to_dec};

verus! {

/// Uniquely refers to an entity. Ids are handed out monotonically and never
/// reused, so a stale id can be compared safely and never aliases a newer
/// entity.
#[derive(Clone, Copy, Debug, PartialEq, Eq, Structural, Hash)]
pub struct EntityId(pub u64);

/// Some generic object which can be passed around the interpreter.
///
/// `Number` carries the IEEE-754 binary64 bit pattern of its value.
/// `EntityKind` carries the index of the kind in the program's kind table.
/// The three singletons are stateless namespaces for built-in functions.
#[derive(Debug, PartialEq)]
pub enum Object {
    Null,
    Number(u64),
    Boolean(bool),
    Entity(EntityId),
    EntityKind(usize),
    Sprite(Sprite),
    Sound(Tone),
    Array(Vec<Object>),
    InputSingleton,
    DisplaySingleton,
    MathSingleton,
}

/// The mathematical value of an `Object`.
pub enum ObjV {
    Null,
    Number(u64),
    Boolean(bool),
    Entity(u64),
    EntityKind(int),
    Sprite(SpriteV),
    Sound(Tone),
    Array(Seq<ObjV>),
    InputSingleton,
    DisplaySingleton,
    MathSingleton,
}

/// The mathematical value of an object.
pub open spec fn obj_v(o: Object) -> ObjV
    decreases o,
{
    match o {
        Object::Null => ObjV::Null,
        Object::Number(n) => ObjV::Number(n),
        Object::Boolean(b) => ObjV::Boolean(b),
        Object::Entity(id) => ObjV::Entity(id.0),
        Object::EntityKind(k) => ObjV::EntityKind(k as int),
        Object::Sprite(s) => ObjV::Sprite(s.spec_v()),
        Object::Sound(t) => ObjV::Sound(t),
        Object::Array(items) => ObjV::Array(objs_v(items@)),
        Object::InputSingleton => ObjV::InputSingleton,
        Object::DisplaySingleton => ObjV::DisplaySingleton,
        Object::MathSingleton => ObjV::MathSingleton,
    }
}

/// The mathematical values of a sequence of objects.
pub open spec fn objs_v(s: Seq<Object>) -> Seq<ObjV>
    decreases s,
{
    if s.len() == 0 {
        Seq::empty()
    } else {
        objs_v(s.subrange(0, s.len() - 1)).push(obj_v(s[s.len() - 1]))
    }
}

pub broadcast proof fn lemma_objs_v(s: Seq<Object>)
    ensures
        (#[trigger] objs_v(s)).len() == s.len(),
        forall|i: int| 0 <= i < s.len() ==> objs_v(s)[i] == obj_v(s[i]),
    decreases s,
{
    if s.len() != 0 {
        lemma_objs_v(s.subrange(0, s.len() - 1));
    }
}

/// The language's structural equality on runtime values (the `==` operator):
/// values of different variants are unequal; numbers compare by IEEE-754
/// equality (so do sound durations); entities compare by id, kinds by their
/// table index; arrays compare element by element.
pub open spec fn obj_eq_v(a: ObjV, b: ObjV) -> bool
    decreases a,
{
    match (a, b) {
        (ObjV::Null, ObjV::Null) => true,
        (ObjV::Number(x), ObjV::Number(y)) => eq_bits(x, y),
        (ObjV::Boolean(x), ObjV::Boolean(y)) => x == y,
        (ObjV::Entity(x), ObjV::Entity(y)) => x == y,
        (ObjV::EntityKind(x), ObjV::EntityKind(y)) => x == y,
        (ObjV::Sprite(x), ObjV::Sprite(y)) => x == y,
        (ObjV::Sound(x), ObjV::Sound(y)) => x.note == y.note && eq_bits(
            x.duration_bits,
            y.duration_bits,
        ),
        (ObjV::Array(x), ObjV::Array(y)) => arrays_eq_v(x, y),
        (ObjV::InputSingleton, ObjV::InputSingleton) => true,
        (ObjV::DisplaySingleton, ObjV::DisplaySingleton) => true,
        (ObjV::MathSingleton, ObjV::MathSingleton) => true,
        _ => false,
    }
}

/// Element-wise structural equality of two value sequences.
pub open spec fn arrays_eq_v(x: Seq<ObjV>, y: Seq<ObjV>) -> bool
    decreases x,
{
    if x.len() != y.len() {
        false
    } else if x.len() == 0 {
        true
    } else {
        obj_eq_v(x[x.len() - 1], y[y.len() - 1]) && arrays_eq_v(
            x.subrange(0, x.len() - 1),
            y.subrange(0, y.len() - 1),
        )
    }
}

pub proof fn lemma_arrays_eq_pointwise(x: Seq<ObjV>, y: Seq<ObjV>)
    ensures
        arrays_eq_v(x, y) <==> (x.len() == y.len() && forall|i: int|
            0 <= i < x.len() ==> obj_eq_v(x[i], y[i])),
    decreases x,
{
    if x.len() == y.len() && x.len() > 0 {
        let xp = x.subrange(0, x.len() - 1);
        let yp = y.subrange(0, y.len() - 1);
        lemma_arrays_eq_pointwise(xp, yp);
        assert(forall|i: int| 0 <= i < xp.len() ==> xp[i] == x[i] && yp[i] == y[i]);
        if arrays_eq_v(x, y) {
            assert(forall|i: int| 0 <= i < x.len() ==> obj_eq_v(x[i], y[i])) by {
                assert(forall|i: int| 0 <= i < xp.len() ==> obj_eq_v(xp[i], yp[i]));
            }
        }
    }
}

/// Equality of two sprites' mathematical values.
fn sprite_eq(a: &Sprite, b: &Sprite) -> (r: bool)
    ensures
        r == (a.spec_v() == b.spec_v()),
{
    if a.width != b.width || a.height != b.height || a.pixels.len() != b.pixels.len() {
        return false;
    }
    let mut i: usize = 0;
    while i < a.pixels.len()
        invariant
            i <= a.pixels@.len(),
            a.pixels@.len() == b.pixels@.len(),
            a.width == b.width,
            a.height == b.height,
            forall|j: int| 0 <= j < i ==> a.pixels@[j] == b.pixels@[j],
        decreases a.pixels@.len() - i,
    {
        if a.pixels[i] != b.pixels[i] {
            return false;
        }
        i += 1;
    }
    proof {
        assert(a.pixels@ =~= b.pixels@);
    }
    true
}

/// The language's `==` on two runtime values.
pub fn obj_eq(a: &Object, b: &Object) -> (r: bool)
    ensures
        r == obj_eq_v(obj_v(*a), obj_v(*b)),
    decreases *a,
{
    broadcast use lemma_objs_v;

    match (a, b) {
        (Object::Null, Object::Null) => true,
        (Object::Number(x), Object::Number(y)) => f64_eq(*x, *y),
        (Object::Boolean(x), Object::Boolean(y)) => *x == *y,
        (Object::Entity(x), Object::Entity(y)) => x.0 == y.0,
        (Object::EntityKind(x), Object::EntityKind(y)) => *x == *y,
        (Object::Sprite(x), Object::Sprite(y)) => sprite_eq(x, y),
        (Object::Sound(x), Object::Sound(y)) => x.note == y.note && f64_eq(
            x.duration_bits,
            y.duration_bits,
        ),
        (Object::Array(x), Object::Array(y)) => {
            proof {
                lemma_arrays_eq_pointwise(objs_v(x@), objs_v(y@));
            }
            if x.len() != y.len() {
                return false;
            }
            let mut i: usize = 0;
            while i < x.len()
                invariant
                    *a is Array,
                    *b is Array,
                    x@ == a->Array_0@,
                    y@ == b->Array_0@,
                    x@.len() == y@.len(),
                    i <= x@.len(),
                    forall|j: int| 0 <= j < i ==> obj_eq_v(obj_v(x@[j]), obj_v(y@[j])),
                decreases x@.len() - i,
            {
                proof {
                    broadcast use vstd::std_specs::vec::group_vec_axioms;

                    assert(decreases_to!(*a => a->Array_0));
                    assert(decreases_to!(a->Array_0 => a->Array_0@[i as int]));
                }
                if !obj_eq(&x[i], &y[i]) {
                    proof {
                        lemma_objs_v(x@);
                        lemma_objs_v(y@);
                        lemma_arrays_eq_pointwise(objs_v(x@), objs_v(y@));
                        assert(!obj_eq_v(objs_v(x@)[i as int], objs_v(y@)[i as int]));
                    }
                    return false;
                }
                i += 1;
            }
            proof {
                lemma_objs_v(x@);
                lemma_objs_v(y@);
                lemma_arrays_eq_pointwise(objs_v(x@), objs_v(y@));
            }
            true
        },
        (Object::InputSingleton, Object::InputSingleton) => true,
        (Object::DisplaySingleton, Object::DisplaySingleton) => true,
        (Object::MathSingleton, Object::MathSingleton) => true,
        _ => false,
    }
}

/// The name of a note.
pub open spec fn note_name_v(n: Note) -> Seq<char> {
    match n {
        Note::A => "A"@,
        Note::B => "B"@,
        Note::C => "C"@,
        Note::D => "D"@,
        Note::E => "E"@,
        Note::F => "F"@,
        Note::G => "G"@,
    }
}

/// The human-readable description of a value: numbers print as their decimal
/// value, booleans as `true`/`false`, entities as `Entity <kind> (k=v, ...)`
/// over their instance variables (or `destroyed entity` for a stale id),
/// sprites as `sprite (WxH)`, sounds as their tone, arrays as bracketed
/// comma-joined descriptions, singletons as their name.
///
/// `fuel` bounds the recursion (instance variables may refer back to their
/// own entity); when it runs out the description trails off as `...`.
pub open spec fn describe_v(o: ObjV, pv: ProgV, sv: StateV, fuel: nat) -> Seq<char>
    decreases fuel,
{
    if fuel == 0 {
        "..."@
    } else {
        match o {
            ObjV::Null => "null"@,
            ObjV::Number(b) => dec_of_bits(b),
            ObjV::Boolean(x) => if x {
                "true"@
            } else {
                "false"@
            },
            ObjV::Entity(id) => {
                if sv.live(id) {
                    let e = sv.entities[sv.find(id)->0];
                    let kname = if 0 <= e.kind < pv.kinds.len() {
                        pv.kinds[e.kind].name
                    } else {
                        Seq::empty()
                    };
                    "Entity "@ + kname + " ("@ + describe_ivars_v(
                        e.ivars,
                        pv,
                        sv,
                        (fuel - 1) as nat,
                    ) + ")"@
                } else {
                    "destroyed entity"@
                }
            },
            ObjV::EntityKind(ki) => "Entity Declaration "@ + (if 0 <= ki < pv.kinds.len() {
                pv.kinds[ki].name
            } else {
                Seq::empty()
            }),
            ObjV::Sprite(spr) => "sprite ("@ + dec_of_nat(spr.width) + "x"@ + dec_of_nat(
                spr.height,
            ) + ")"@,
            ObjV::Sound(t) => "sound: Tone { note: "@ + note_name_v(t.note) + ", duration: "@
                + dec_of_bits(t.duration_bits) + " }"@,
            ObjV::Array(items) => {
                if items.len() == 0 {
                    "[ ]"@
                } else {
                    "[ "@ + describe_items_v(items, pv, sv, (fuel - 1) as nat) + " ]"@
                }
            },
            ObjV::InputSingleton => "Input"@,
            ObjV::DisplaySingleton => "Display"@,
            ObjV::MathSingleton => "Math"@,
        }
    }
}

/// The comma-joined descriptions of the values of a sequence.
pub open spec fn describe_items_v(items: Seq<ObjV>, pv: ProgV, sv: StateV, fuel: nat) -> Seq<char>
    decreases fuel,
{
    if items.len() == 0 {
        Seq::empty()
    } else if fuel == 0 {
        "..."@
    } else if items.len() == 1 {
        describe_v(items[0], pv, sv, (fuel - 1) as nat)
    } else {
        describe_v(items[0], pv, sv, (fuel - 1) as nat) + ", "@ + describe_items_v(
            items.drop_first(),
            pv,
            sv,
            (fuel - 1) as nat,
        )
    }
}

/// The comma-joined `name=value` descriptions of an entity's instance
/// variables.
pub open spec fn describe_ivars_v(
    ivs: Seq<(Seq<char>, ObjV)>,
    pv: ProgV,
    sv: StateV,
    fuel: nat,
) -> Seq<char>
    decreases fuel,
{
    if ivs.len() == 0 {
        Seq::empty()
    } else if fuel == 0 {
        "..."@
    } else if ivs.len() == 1 {
        ivs[0].0 + "="@ + describe_v(ivs[0].1, pv, sv, (fuel - 1) as nat)
    } else {
        ivs[0].0 + "="@ + describe_v(ivs[0].1, pv, sv, (fuel - 1) as nat) + ", "@
            + describe_ivars_v(ivs.drop_first(), pv, sv, (fuel - 1) as nat)
    }
}

/// The name of a note.
fn note_str(n: &Note) -> (r: &'static str)
    ensures
        r@ == note_name_v(*n),
{
    match n {
        Note::A => "A",
        Note::B => "B",
        Note::C => "C",
        Note::D => "D",
        Note::E => "E",
        Note::F => "F",
        Note::G => "G",
    }
}

/// The human-readable description of a value, against the program and the
/// live entities.
pub(crate) fn describe_obj(o: &Object, prog: &Program, st: &RunState, fuel: u64) -> (r: String)
    requires
        ids_unique(state_v(*st).entities),
    ensures
        r@ == describe_v(obj_v(*o), prog_v(*prog), state_v(*st), fuel as nat),
    decreases fuel,
{
    broadcast use lemma_objs_v;

    if fuel == 0 {
        return String::from_str("...");
    }
    match o {
        Object::Null => String::from_str("null"),
        Object::Number(b) => f64_to_dec(*b),
        Object::Boolean(x) => {
            if *x {
                String::from_str("true")
            } else {
                String::from_str("false")
            }
        },
        Object::Entity(id) => {
            let ghost sv = state_v(*st);
            match crate::interpreter::find_entity(&st.entities, id.0) {
                Some(i) => {
                    proof {
                        assert(sv.live(id.0));
                        let ei = sv.find(id.0)->0;
                        assert(0 <= ei < sv.entities.len() && sv.entities[ei].id == id.0);
                        assert(ei == i as int);
                    }
                    let e = &st.entities[i];
                    let mut s = String::from_str("Entity ");
                    if e.kind < prog.entity_kinds.len() {
                        s.append(prog.entity_kinds[e.kind].name.as_str());
                        proof {
                            assert(prog_v(*prog).kinds[e.kind as int].name
                                == prog.entity_kinds@[e.kind as int].name@);
                        }
                    }
                    s.append(" (");
                    let ivstr = describe_ivars_exec(&e.ivars, 0, prog, st, fuel - 1);
                    s.append(ivstr.as_str());
                    s.append(")");
                    proof {
                        assert(sv.entities[i as int].ivars == assoc_v(st.entities@[i as int].ivars@));
                        assert(assoc_v(e.ivars@).subrange(0, assoc_v(e.ivars@).len() as int)
                            =~= sv.entities[i as int].ivars);
                        assert(s@ =~= describe_v(obj_v(*o), prog_v(*prog), sv, fuel as nat));
                    }
                    s
                },
                None => {
                    proof {
                        assert(!sv.live(id.0));
                    }
                    String::from_str("destroyed entity")
                },
            }
        },
        Object::EntityKind(ki) => {
            let mut s = String::from_str("Entity Declaration ");
            if *ki < prog.entity_kinds.len() {
                s.append(prog.entity_kinds[*ki].name.as_str());
                proof {
                    assert(prog_v(*prog).kinds[*ki as int].name
                        == prog.entity_kinds@[*ki as int].name@);
                }
            }
            proof {
                assert(s@ =~= describe_v(obj_v(*o), prog_v(*prog), state_v(*st), fuel as nat));
            }
            s
        },
        Object::Sprite(spr) => {
            let mut s = String::from_str("sprite (");
            let w = u64_to_dec(spr.width as u64);
            s.append(w.as_str());
            s.append("x");
            let h = u64_to_dec(spr.height as u64);
            s.append(h.as_str());
            s.append(")");
            proof {
                assert(s@ =~= describe_v(obj_v(*o), prog_v(*prog), state_v(*st), fuel as nat));
            }
            s
        },
        Object::Sound(t) => {
            let mut s = String::from_str("sound: Tone { note: ");
            s.append(note_str(&t.note));
            s.append(", duration: ");
            let d = f64_to_dec(t.duration_bits);
            s.append(d.as_str());
            s.append(" }");
            proof {
                assert(s@ =~= describe_v(obj_v(*o), prog_v(*prog), state_v(*st), fuel as nat));
            }
            s
        },
        Object::Array(items) => {
            if items.len() == 0 {
                proof {
                    assert(objs_v(items@).len() == 0);
                }
                String::from_str("[ ]")
            } else {
                let mut s = String::from_str("[ ");
                let inner = describe_items_exec(items, 0, Ghost(*o), prog, st, fuel - 1);
                s.append(inner.as_str());
                s.append(" ]");
                proof {
                    assert(objs_v(items@).subrange(0, objs_v(items@).len() as int) =~= objs_v(
                        items@,
                    ));
                    assert(s@ =~= describe_v(obj_v(*o), prog_v(*prog), state_v(*st), fuel as nat));
                }
                s
            }
        },
        Object::InputSingleton => String::from_str("Input"),
        Object::DisplaySingleton => String::from_str("Display"),
        Object::MathSingleton => String::from_str("Math"),
    }
}

/// The comma-joined descriptions of the values from `idx` on.
fn describe_items_exec(
    items: &Vec<Object>,
    idx: usize,
    parent: Ghost<Object>,
    prog: &Program,
    st: &RunState,
    fuel: u64,
) -> (r: String)
    requires
        ids_unique(state_v(*st).entities),
        idx <= items@.len(),
        decreases_to!(parent@ => items@),
    ensures
        r@ == describe_items_v(
            objs_v(items@).subrange(idx as int, objs_v(items@).len() as int),
            prog_v(*prog),
            state_v(*st),
            fuel as nat,
        ),
    decreases fuel,
{
    broadcast use lemma_objs_v;

    let ghost suffix = objs_v(items@).subrange(idx as int, objs_v(items@).len() as int);
    if idx >= items.len() {
        proof {
            assert(suffix.len() == 0);
        }
        return String::new();
    }
    if fuel == 0 {
        return String::from_str("...");
    }
    proof {
        assert(decreases_to!(items@ => items@[idx as int]));
        assert(suffix[0] == objs_v(items@)[idx as int]);
    }
    let mut s = describe_obj(&items[idx], prog, st, fuel - 1);
    if idx + 1 < items.len() {
        s.append(", ");
        let rest = describe_items_exec(items, idx + 1, parent, prog, st, fuel - 1);
        s.append(rest.as_str());
        proof {
            assert(suffix.drop_first() =~= objs_v(items@).subrange(
                idx + 1,
                objs_v(items@).len() as int,
            ));
            assert(s@ =~= describe_items_v(suffix, prog_v(*prog), state_v(*st), fuel as nat));
        }
    } else {
        proof {
            assert(suffix.len() == 1);
        }
    }
    s
}

/// The comma-joined `name=value` descriptions of the instance variables from
/// `idx` on.
fn describe_ivars_exec(
    l: &Vec<(String, Object)>,
    idx: usize,
    prog: &Program,
    st: &RunState,
    fuel: u64,
) -> (r: String)
    requires
        ids_unique(state_v(*st).entities),
        idx <= l@.len(),
    ensures
        r@ == describe_ivars_v(
            assoc_v(l@).subrange(idx as int, assoc_v(l@).len() as int),
            prog_v(*prog),
            state_v(*st),
            fuel as nat,
        ),
    decreases fuel,
{
    let ghost suffix = assoc_v(l@).subrange(idx as int, assoc_v(l@).len() as int);
    if idx >= l.len() {
        proof {
            assert(suffix.len() == 0);
        }
        return String::new();
    }
    if fuel == 0 {
        return String::from_str("...");
    }
    proof {
        assert(suffix[0] == assoc_v(l@)[idx as int]);
        assert(assoc_v(l@)[idx as int] == (l@[idx as int].0@, obj_v(l@[idx as int].1)));
    }
    let mut s = l[idx].0.clone();
    s.append("=");
    let d = describe_obj(&l[idx].1, prog, st, fuel - 1);
    s.append(d.as_str());
    if idx + 1 < l.len() {
        s.append(", ");
        let rest = describe_ivars_exec(l, idx + 1, prog, st, fuel - 1);
        s.append(rest.as_str());
        proof {
            assert(suffix.drop_first() =~= assoc_v(l@).subrange(idx + 1, assoc_v(l@).len() as int));
            assert(s@ =~= describe_ivars_v(suffix, prog_v(*prog), state_v(*st), fuel as nat));
        }
    } else {
        proof {
            assert(suffix.len() == 1);
        }
    }
    s
}

/// The error for a call with the wrong number of arguments.
fn incorrect_arity(name: &str, expected: u64, actual: u64) -> RuntimeError {
    let mut s = String::from_str("function declaration for `");
    s.append(name);
    s.append("` has ");
    let e = u64_to_dec(expected);
    s.append(e.as_str());
    s.append(" parameters, but ");
    let a = u64_to_dec(actual);
    s.append(a.as_str());
    s.append(" arguments were provided");
    RuntimeError::new(s)
}

/// What calling a function on a value guarantees, variant by variant,
/// relating the state before (`pre`) and after (`post`), the call's name,
/// argument values, and result.
pub open spec fn call_post(
    tgt: ObjV,
    pv: ProgV,
    pre: StateV,
    name: Seq<char>,
    args: Seq<ObjV>,
    fuel: u64,
    post: StateV,
    r: Result<Object, RuntimeError>,
) -> bool
    decreases fuel, 0int, 0int,
{
    match tgt {
            ObjV::Entity(id) => {
                &&& (!pre.live(id) ==> r is Err && post == pre)
                &&& (pre.live(id) && 0 <= pre.kind_of(id) < pv.kinds.len() ==> (
                match lookup_fun(pv.kinds[pre.kind_of(id)].functions, name) {
                    None => r is Err && post == pre,
                    Some(fi) => {
                        &&& (pv.kinds[pre.kind_of(id)].functions[fi].parameters.len()
                            != args.len() ==> r is Err && post == pre)
                        &&& (pv.kinds[pre.kind_of(id)].functions[fi].parameters.len()
                            == args.len() && fuel > 0 ==> exists|
                            fmid: FrameV,
                            sig: Result<ControlSignal, RuntimeError>,
                        |
                            #![trigger step_witness(post, fmid, sig)]
                            {
                                &&& step_witness(post, fmid, sig)
                                &&& body_post(
                                    pv,
                                    pv.kinds[pre.kind_of(id)].functions[fi].body,
                                    (fuel - 1) as u64,
                                    pre,
                                    FrameV {
                                        locals: bind_params(
                                            pv.kinds[pre.kind_of(id)].functions[fi].parameters,
                                            args,
                                            Seq::empty(),
                                        ),
                                        entity: Some(id),
                                    },
                                    post,
                                    fmid,
                                    sig,
                                )
                                &&& (match r {
                                    Ok(o) => (match sig {
                                        Ok(cs) => (match control_v(cs) {
                                            ControlV::Break(bv) => obj_v(o) == bv,
                                            ControlV::Continue => obj_v(o) == ObjV::Null,
                                        }),
                                        Err(e2) => false,
                                    }),
                                    Err(e) => sig is Err,
                                })
                            })
                    },
                }))
            },
            ObjV::EntityKind(ki) => post == pre && (if args.len() != 0 {
                r is Err
            } else if name == "all"@ {
                ok_obj(r, ObjV::Array(all_of_kind(pre.entities, ki)))
            } else {
                r is Err
            }),
            ObjV::Sprite(spv) => post == pre && (if args.len() != 0 {
                r is Err
            } else if name == "width"@ {
                ok_obj(r, ObjV::Number(crate::fp::bits_of_u64(spv.width as u64)))
            } else if name == "height"@ {
                ok_obj(r, ObjV::Number(crate::fp::bits_of_u64(spv.height as u64)))
            } else {
                r is Err
            }),
            ObjV::Sound(t) => {
                if args.len() == 0 && name == "play"@ {
                    ok_obj(r, ObjV::Null) && post == (StateV {
                        sounds: pre.sounds.push(t),
                        ..pre
                    })
                } else {
                    r is Err && post == pre
                }
            },
            ObjV::InputSingleton => post == pre && (if args.len() != 0 {
                r is Err
            } else if name == "up_pressed"@ {
                ok_obj(r, ObjV::Boolean(pre.input.up))
            } else if name == "down_pressed"@ {
                ok_obj(r, ObjV::Boolean(pre.input.down))
            } else if name == "left_pressed"@ {
                ok_obj(r, ObjV::Boolean(pre.input.left))
            } else if name == "right_pressed"@ {
                ok_obj(r, ObjV::Boolean(pre.input.right))
            } else if name == "x_pressed"@ {
                ok_obj(r, ObjV::Boolean(pre.input.x))
            } else if name == "z_pressed"@ {
                ok_obj(r, ObjV::Boolean(pre.input.z))
            } else {
                r is Err
            }),
            ObjV::DisplaySingleton => post == pre && (if args.len() != 0 {
                r is Err
            } else if name == "width"@ {
                ok_obj(r, ObjV::Number(crate::fp::bits_of_u64(pre.display.width as u64)))
            } else if name == "height"@ {
                ok_obj(r, ObjV::Number(crate::fp::bits_of_u64(pre.display.height as u64)))
            } else {
                r is Err
            }),
            ObjV::MathSingleton => post == pre && (if name == "random_int"@ {
                if args.len() == 2 {
                    match (args[0], args[1]) {
                        (ObjV::Number(ab), ObjV::Number(bb)) => {
                            if crate::fp::round_i64_of(ab) <= crate::fp::round_i64_of(bb) {
                                r is Ok && (r matches Ok(o) ==> exists|k: i64|
                                    crate::fp::round_i64_of(ab) <= k <= crate::fp::round_i64_of(
                                        bb,
                                    ) && obj_v(o) == ObjV::Number(
                                        #[trigger] crate::fp::bits_of_i64(k),
                                    ))
                            } else {
                                r is Err
                            }
                        },
                        _ => r is Err,
                    }
                } else {
                    r is Err
                }
            } else {
                r is Err
            }),
            ObjV::Null | ObjV::Number(_) | ObjV::Boolean(_) | ObjV::Array(_) => r is Err && post == pre,
        }
}

/// Sound may be enqueued only through `play`, and each call appends exactly
/// that one tone to the pending queue; `execute_tick` hands the queue out
/// and clears it, and the init and draw phases reject a non-empty queue, so
/// a tone played during a tick appears exactly once in that tick's result.
pub proof fn lemma_play_enqueues_exactly_once(
    t: Tone,
    pv: ProgV,
    pre: StateV,
    fuel: u64,
    post: StateV,
    r: Result<Object, RuntimeError>,
)
    requires
        call_post(ObjV::Sound(t), pv, pre, "play"@, Seq::empty(), fuel, post, r),
        r is Ok,
    ensures
        post.sounds == pre.sounds.push(t),
{
}

/// Call a built-in or user function on a target value. Every runtime
/// variant has a closed set of callable names; an unknown name or a wrong
/// argument count is a runtime error, and `Null`, numbers, booleans and
/// arrays expose no functions at all.
#[verifier::loop_isolation(false)]
pub(crate) fn call_obj(
    target: &Object,
    prog: &Program,
    st: &mut RunState,
    name: &str,
    arguments: Vec<Object>,
    fuel: u64,
) -> (r: Result<Object, RuntimeError>)
    requires
        prog_wf(prog_v(*prog)),
        state_wf(state_v(*old(st)), prog_v(*prog)),
    ensures
        state_wf(state_v(*final(st)), prog_v(*prog)),
        evolves(state_v(*old(st)), state_v(*final(st))),
        call_post(
            obj_v(*target),
            prog_v(*prog),
            state_v(*old(st)),
            name@,
            objs_v(arguments@),
            fuel,
            state_v(*final(st)),
            r,
        ),
    decreases fuel, 0int,
{
    broadcast use lemma_objs_v;

    let ghost sv0 = state_v(*st);
    match target {
        Object::Entity(entity_id) => {
            let ei = match find_entity(&st.entities, entity_id.0) {
                Some(ei) => ei,
                None => {
                    return Err(
                        RuntimeError::new(
                            concat3("cannot call `", name, "` on a destroyed entity"),
                        ),
                    );
                },
            };
            proof {
                assert(sv0.live(entity_id.0)) by {
                    assert(entityvs(st.entities@)[ei as int].id == entity_id.0);
                }
                let fi = sv0.find(entity_id.0)->0;
                assert(0 <= fi < sv0.entities.len() && sv0.entities[fi].id == entity_id.0);
                assert(fi == ei as int);
            }
            let kind_idx = st.entities[ei].kind;
            proof {
                assert(sv0.kind_of(entity_id.0) == kind_idx as int);
                assert(prog_v(*prog).kinds[kind_idx as int] == kind_v(
                    prog.entity_kinds@[kind_idx as int],
                ));
            }
            let funs = &prog.entity_kinds[kind_idx].functions;
            let fi = match crate::interpreter::find_fun(funs, name) {
                Some(fi) => fi,
                None => {
                    return Err(
                        RuntimeError::new(
                            concat5(
                                "entity declaration `",
                                prog.entity_kinds[kind_idx].name.as_str(),
                                "` has no function named `",
                                name,
                                "`",
                            ),
                        ),
                    );
                },
            };
            proof {
                crate::interpreter::lemma_lookup_fun(funvs(funs@), name@);
            }
            let params = &funs[fi].parameters;
            if params.len() != arguments.len() {
                return Err(
                    incorrect_arity(name, params.len() as u64, arguments.len() as u64),
                );
            }
            if fuel == 0 {
                return Err(RuntimeError::new(String::from_str("evaluation budget exhausted")));
            }

            // A fresh frame: the parameters bound to the arguments, the
            // callee as the active entity.
            let ghost funv = funvs(funs@)[fi as int];
            let ghost paramsv = funv.parameters;
            let ghost argsv0 = objs_v(arguments@);
            proof {
                broadcast use lemma_objs_v;

                assert(funv == crate::interpreter::fun_v(funs@[fi as int]));
                assert(paramsv == crate::ast::strvs(params@));
                assert(paramsv.subrange(0, paramsv.len() as int) =~= paramsv);
            }
            let mut call_frame = Frame { locals: Vec::new(), entity: Some(*entity_id) };
            proof {
                assert(assoc_v(call_frame.locals@) =~= Seq::<(Seq<char>, ObjV)>::empty());
            }
            let nparams = params.len();
            let mut args = arguments;
            let mut pi: usize = 0;
            while args.len() > 0
                invariant
                    nparams == params@.len(),
                    pi + args@.len() == nparams,
                    *params == prog.entity_kinds@[kind_idx as int].functions@[fi as int].parameters,
                    kind_idx < prog.entity_kinds@.len(),
                    fi < prog.entity_kinds@[kind_idx as int].functions@.len(),
                    keys_unique(frame_v(call_frame).locals),
                    frame_v(call_frame).entity == Some(entity_id.0),
                    paramsv == crate::ast::strvs(params@),
                    bind_params(paramsv, argsv0, Seq::empty()) == bind_params(
                        paramsv.subrange(pi as int, paramsv.len() as int),
                        objs_v(args@),
                        assoc_v(call_frame.locals@),
                    ),
                decreases args@.len(),
            {
                let ghost pre_args = args@;
                let ghost suffix = paramsv.subrange(pi as int, paramsv.len() as int);
                let a = args.remove(0);
                proof {
                    broadcast use lemma_objs_v;

                    assert(suffix[0] == crate::ast::strvs(params@)[pi as int]);
                    assert(objs_v(pre_args)[0] == obj_v(a));
                    assert(args@ =~= pre_args.drop_first());
                    assert(objs_v(args@) =~= objs_v(pre_args).drop_first());
                    assert(suffix.drop_first() =~= paramsv.subrange(
                        pi + 1,
                        paramsv.len() as int,
                    ));
                }
                assoc_write(&mut call_frame.locals, params[pi].clone(), a);
                pi += 1;
            }
            proof {
                assert(paramsv.subrange(pi as int, paramsv.len() as int).len() == 0);
                assert(assoc_v(call_frame.locals@) == bind_params(paramsv, argsv0, Seq::empty()));
                assert(state_v(*st).live(entity_id.0)) by {
                    assert(entityvs(st.entities@)[ei as int].id == entity_id.0);
                }
                assert(frame_wf(frame_v(call_frame), state_v(*st)));
                assert(frame_v(call_frame) =~~= (FrameV {
                    locals: bind_params(paramsv, argsv0, Seq::empty()),
                    entity: Some(entity_id.0),
                }));
            }
            let body = &funs[fi].body;
            let res = exec_body(prog, st, &mut call_frame, body, fuel - 1);
            let ghost gsig = res;
            proof {
                assert(step_witness(state_v(*st), frame_v(call_frame), gsig));
                assert(funv.body == crate::ast::stmts_v(body@));
                assert(body_post(
                    prog_v(*prog),
                    funv.body,
                    (fuel - 1) as u64,
                    sv0,
                    FrameV {
                        locals: bind_params(paramsv, argsv0, Seq::empty()),
                        entity: Some(entity_id.0),
                    },
                    state_v(*st),
                    frame_v(call_frame),
                    gsig,
                ));
            }
            match res {
                Ok(ControlSignal::Break(v)) => Ok(v),
                Ok(ControlSignal::Continue) => Ok(Object::Null),
                Err(e) => Err(e),
            }
        },
        Object::EntityKind(ki) => {
            if arguments.len() != 0 {
                return Err(incorrect_arity(name, 0, arguments.len() as u64));
            }
            if str_eq(name, "all") {
                let mut out: Vec<Object> = Vec::new();
                let mut i: usize = 0;
                while i < st.entities.len()
                    invariant
                        *st == *old(st),
                        i <= st.entities@.len(),
                        objs_v(out@) == all_of_kind(
                            entityvs(st.entities@).subrange(0, i as int),
                            *ki as int,
                        ),
                    decreases st.entities@.len() - i,
                {
                    let ghost pre = entityvs(st.entities@).subrange(0, i as int);
                    let ghost cur = entityvs(st.entities@).subrange(0, i + 1);
                    let ghost prev_out = out@;
                    proof {
                        assert(cur.drop_last() =~= pre);
                        assert(cur.last() == entityvs(st.entities@)[i as int]);
                    }
                    if st.entities[i].kind == *ki {
                        out.push(Object::Entity(st.entities[i].id));
                        proof {
                            lemma_objs_v(prev_out);
                            lemma_objs_v(out@);
                            assert(objs_v(out@) =~= all_of_kind(cur, *ki as int));
                        }
                    } else {
                        proof {
                            assert(objs_v(out@) =~= all_of_kind(cur, *ki as int));
                        }
                    }
                    i += 1;
                }
                proof {
                    assert(entityvs(st.entities@).subrange(0, st.entities@.len() as int)
                        =~= entityvs(st.entities@));
                }
                Ok(Object::Array(out))
            } else {
                let d = describe_obj(target, prog, st, crate::interpreter::DESCRIBE_FUEL);
                Err(RuntimeError::new(concat5("`", d.as_str(), "` has no function named `", name, "`")))
            }
        },
        Object::Sprite(sprite) => {
            if arguments.len() != 0 {
                return Err(incorrect_arity(name, 0, arguments.len() as u64));
            }
            if str_eq(name, "width") {
                Ok(Object::Number(crate::fp::f64_from_u64(sprite.width as u64)))
            } else if str_eq(name, "height") {
                Ok(Object::Number(crate::fp::f64_from_u64(sprite.height as u64)))
            } else {
                Err(RuntimeError::new(concat3("sprite has no function named `", name, "`")))
            }
        },
        Object::Sound(sound) => {
            if arguments.len() != 0 {
                return Err(incorrect_arity(name, 0, arguments.len() as u64));
            }
            if str_eq(name, "play") {
                st.pending_sounds.push(*sound);
                proof {
                    assert(state_v(*st) =~~= (StateV { sounds: sv0.sounds.push(*sound), ..sv0 }));
                }
                Ok(Object::Null)
            } else {
                Err(RuntimeError::new(concat3("sound has no function named `", name, "`")))
            }
        },
        Object::InputSingleton => {
            if arguments.len() != 0 {
                return Err(incorrect_arity(name, 0, arguments.len() as u64));
            }
            if str_eq(name, "up_pressed") {
                Ok(Object::Boolean(st.input_report.up))
            } else if str_eq(name, "down_pressed") {
                Ok(Object::Boolean(st.input_report.down))
            } else if str_eq(name, "left_pressed") {
                Ok(Object::Boolean(st.input_report.left))
            } else if str_eq(name, "right_pressed") {
                Ok(Object::Boolean(st.input_report.right))
            } else if str_eq(name, "x_pressed") {
                Ok(Object::Boolean(st.input_report.x))
            } else if str_eq(name, "z_pressed") {
                Ok(Object::Boolean(st.input_report.z))
            } else {
                Err(RuntimeError::new(concat3("`Input` has no function named `", name, "`")))
            }
        },
        Object::DisplaySingleton => {
            if arguments.len() != 0 {
                return Err(incorrect_arity(name, 0, arguments.len() as u64));
            }
            if str_eq(name, "width") {
                Ok(Object::Number(crate::fp::f64_from_u64(st.display_config.width as u64)))
            } else if str_eq(name, "height") {
                Ok(Object::Number(crate::fp::f64_from_u64(st.display_config.height as u64)))
            } else {
                Err(RuntimeError::new(concat3("`Display` has no function named `", name, "`")))
            }
        },
        Object::MathSingleton => {
            if str_eq(name, "random_int") {
                if arguments.len() != 2 {
                    return Err(incorrect_arity(name, 2, arguments.len() as u64));
                }
                let ab = match &arguments[0] {
                    Object::Number(a) => *a,
                    _ => {
                        return Err(
                            RuntimeError::new(
                                String::from_str(
                                    "arguments to `Math.random_int` must be numbers",
                                ),
                            ),
                        );
                    },
                };
                let bb = match &arguments[1] {
                    Object::Number(b) => *b,
                    _ => {
                        return Err(
                            RuntimeError::new(
                                String::from_str(
                                    "arguments to `Math.random_int` must be numbers",
                                ),
                            ),
                        );
                    },
                };
                let lo = crate::fp::f64_round_i64(ab);
                let hi = crate::fp::f64_round_i64(bb);
                if lo > hi {
                    return Err(
                        RuntimeError::new(
                            String::from_str("`Math.random_int` was given an empty range"),
                        ),
                    );
                }
                let k = crate::rng::random_in(lo, hi);
                Ok(Object::Number(crate::fp::f64_from_i64(k)))
            } else {
                Err(RuntimeError::new(concat3("`Math` has no function named `", name, "`")))
            }
        },
        _ => Err(
            RuntimeError::new(
                concat3(
                    "cannot call function `",
                    name,
                    "` on an object that doesn't have functions",
                ),
            ),
        ),
    }
}

impl Object {
    /// Call a built-in or user function on this value.
    pub fn call_function(
        &self,
        interpreter: &mut crate::interpreter::Interpreter,
        name: &str,
        arguments: Vec<Object>,
        fuel: u64,
    ) -> (r: Result<Object, RuntimeError>)
        requires
            old(interpreter).wf(),
        ensures
            final(interpreter).wf(),
            final(interpreter).pv() == old(interpreter).pv(),
            evolves(old(interpreter).sv(), final(interpreter).sv()),
            call_post(
                obj_v(*self),
                old(interpreter).pv(),
                old(interpreter).sv(),
                name@,
                objs_v(arguments@),
                fuel,
                final(interpreter).sv(),
                r,
            ),
    {
        call_obj(self, &interpreter.program, &mut interpreter.state, name, arguments, fuel)
    }

    /// The human-readable description of this value. Instance variables may
    /// refer back to their own entity, so the recursion is bounded by
    /// `fuel` and trails off as `...` at that depth.
    pub fn describe(&self, interpreter: &crate::interpreter::Interpreter, fuel: u64) -> (r:
        String)
        requires
            interpreter.wf(),
        ensures
            r@ == describe_v(obj_v(*self), interpreter.pv(), interpreter.sv(), fuel as nat),
    {
        proof {
            assert(ids_unique(interpreter.sv().entities));
        }
        describe_obj(self, &interpreter.program, &interpreter.state, fuel)
    }

    /// A deep copy: the same mathematical value.
    pub fn duplicate(&self) -> (r: Object)
        ensures
            obj_v(r) == obj_v(*self),
        decreases *self,
    {
        broadcast use lemma_objs_v;

        match self {
            Object::Null => Object::Null,
            Object::Number(n) => Object::Number(*n),
            Object::Boolean(b) => Object::Boolean(*b),
            Object::Entity(id) => Object::Entity(*id),
            Object::EntityKind(k) => Object::EntityKind(*k),
            Object::Sprite(s) => Object::Sprite(
                Sprite { width: s.width, height: s.height, pixels: s.pixels.clone() },
            ),
            Object::Sound(t) => Object::Sound(*t),
            Object::Array(items) => {
                let mut out: Vec<Object> = Vec::new();
                let mut i: usize = 0;
                while i < items.len()
                    invariant
                        *self is Array,
                        items@ == self->Array_0@,
                        i <= items@.len(),
                        out@.len() == i,
                        forall|j: int| 0 <= j < i ==> obj_v(out@[j]) == obj_v(items@[j]),
                    decreases items@.len() - i,
                {
                    proof {
                        broadcast use vstd::std_specs::vec::group_vec_axioms;

                        assert(decreases_to!(*self => self->Array_0));
                        assert(decreases_to!(self->Array_0 => self->Array_0@[i as int]));
                    }
                    let d = items[i].duplicate();
                    out.push(d);
                    i += 1;
                }
                proof {
                    assert(objs_v(out@) =~= objs_v(items@)) by {
                        lemma_objs_v(out@);
                        lemma_objs_v(items@);
                    }
                }
                Object::Array(out)
            },
            Object::InputSingleton => Object::InputSingleton,
            Object::DisplaySingleton => Object::DisplaySingleton,
            Object::MathSingleton => Object::MathSingleton,
        }
    }
}

} // verus!
