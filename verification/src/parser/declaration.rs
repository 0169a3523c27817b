//! The declaration grammar: entity declarations with their bodies,
//! constructors, tick and draw handlers, instance variables, functions, and
//! `use` imports.

use vstd::prelude::*;

use crate::ast::{decl_v, decls_v, strvs, Declaration, DeclV};
use crate::parser::statement::{p_stmt_body, stmt_body};
use crate::parser::{ident, ivar_ident, p_ident, p_ivar_ident, p_tag, p_ws0, p_ws1, tag, ws0, ws1};

verus! {

/// The instance-variable names after the first, separated by commas with
/// surrounding whitespace.
pub open spec fn p_ivar_items(s: Seq<char>, pos: int, acc: Seq<Seq<char>>) -> (
    int,
    Seq<Seq<char>>,
)
    decreases s.len() - pos, 24int,
{
    if !(0 <= pos <= s.len()) {
        (pos, acc)
    } else {
        let w1 = p_ws0(s, pos);
        if 0 <= w1 < s.len() && s[w1] == ',' {
            let w2 = p_ws0(s, w1 + 1);
            match p_ivar_ident(s, w2) {
                Some((p, name)) => {
                    if pos < p <= s.len() {
                        p_ivar_items(s, p, acc.push(name))
                    } else {
                        (pos, acc)
                    }
                },
                None => (pos, acc),
            }
        } else {
            (pos, acc)
        }
    }
}

/// A `var @a, @b;` declaration; the semicolon follows the last name
/// directly.
pub open spec fn p_ivar_decl(s: Seq<char>, pos: int) -> Option<(int, DeclV)>
    decreases s.len() - pos, 25int,
{
    match p_tag(s, pos, "var"@) {
        Some(t) => {
            if 0 <= t <= s.len() {
                match p_ws1(s, t) {
                    Some(w) => {
                        if pos < w <= s.len() {
                            match p_ivar_ident(s, w) {
                                Some((iend, first)) => {
                                    if pos < iend <= s.len() {
                                        let (e, names) = p_ivar_items(s, iend, seq![first]);
                                        if 0 <= e < s.len() && s[e] == ';' {
                                            Some((e + 1, DeclV::InstanceVars { names }))
                                        } else {
                                            None
                                        }
                                    } else {
                                        None
                                    }
                                },
                                None => None,
                            }
                        } else {
                            None
                        }
                    },
                    None => None,
                }
            } else {
                None
            }
        },
        None => None,
    }
}

/// The parameters after the first, separated by commas with surrounding
/// whitespace.
pub open spec fn p_params_rest(s: Seq<char>, pos: int, acc: Seq<Seq<char>>) -> (
    int,
    Seq<Seq<char>>,
)
    decreases s.len() - pos, 24int,
{
    if !(0 <= pos <= s.len()) {
        (pos, acc)
    } else {
        let w1 = p_ws0(s, pos);
        if 0 <= w1 < s.len() && s[w1] == ',' {
            let w2 = p_ws0(s, w1 + 1);
            match p_ident(s, w2) {
                Some((p, name)) => {
                    if pos < p <= s.len() {
                        p_params_rest(s, p, acc.push(name))
                    } else {
                        (pos, acc)
                    }
                },
                None => (pos, acc),
            }
        } else {
            (pos, acc)
        }
    }
}

/// A parameter list: identifiers separated by commas, possibly none; the
/// parentheses enclose it directly.
pub open spec fn p_params(s: Seq<char>, pos: int) -> (int, Seq<Seq<char>>)
    decreases s.len() - pos, 25int,
{
    match p_ident(s, pos) {
        Some((p, first)) => {
            if 0 <= pos < p <= s.len() {
                p_params_rest(s, p, seq![first])
            } else {
                (pos, Seq::empty())
            }
        },
        None => (pos, Seq::empty()),
    }
}

/// A `func name(p1, p2) { ... }` declaration.
pub open spec fn p_func_decl(s: Seq<char>, pos: int) -> Option<(int, DeclV)>
    decreases s.len() - pos, 25int,
{
    match p_tag(s, pos, "func"@) {
        Some(t) => {
            if 0 <= t <= s.len() {
                match p_ws1(s, t) {
                    Some(w) => {
                        if pos < w <= s.len() {
                            match p_ident(s, w) {
                                Some((iend, name)) => {
                                    if pos < iend <= s.len() {
                                        let w2 = p_ws0(s, iend);
                                        if pos < w2 < s.len() && s[w2] == '(' {
                                            let (pend, parameters) = p_params(s, w2 + 1);
                                            if pos < pend < s.len() && s[pend] == ')' {
                                                match p_stmt_body(s, pend + 1) {
                                                    Some((p, body)) => Some(
                                                        (
                                                            p,
                                                            DeclV::Function {
                                                                name,
                                                                parameters,
                                                                body,
                                                            },
                                                        ),
                                                    ),
                                                    None => None,
                                                }
                                            } else {
                                                None
                                            }
                                        } else {
                                            None
                                        }
                                    } else {
                                        None
                                    }
                                },
                                None => None,
                            }
                        } else {
                            None
                        }
                    },
                    None => None,
                }
            } else {
                None
            }
        },
        None => None,
    }
}

/// A `use OtherEntity;` import.
pub open spec fn p_use_decl(s: Seq<char>, pos: int) -> Option<(int, DeclV)> {
    match p_tag(s, pos, "use"@) {
        Some(t) => {
            if 0 <= t <= s.len() {
                match p_ws1(s, t) {
                    Some(w) => match p_ident(s, w) {
                        Some((iend, name)) => {
                            if 0 <= iend < s.len() && s[iend] == ';' {
                                Some((iend + 1, DeclV::Use { name }))
                            } else {
                                None
                            }
                        },
                        None => None,
                    },
                    None => None,
                }
            } else {
                None
            }
        },
        None => None,
    }
}

/// The declarations of an entity body after the opening brace, each
/// surrounded by whitespace.
pub open spec fn p_decls_rest(s: Seq<char>, pos: int, acc: Seq<DeclV>) -> (int, Seq<DeclV>)
    decreases s.len() - pos, 27int,
{
    if !(0 <= pos <= s.len()) {
        (pos, acc)
    } else {
        let w1 = p_ws0(s, pos);
        if pos <= w1 <= s.len() {
            match p_decl(s, w1) {
                Some((p, d)) => {
                    if pos <= p <= s.len() {
                        let w2 = p_ws0(s, p);
                        if pos < w2 <= s.len() {
                            p_decls_rest(s, w2, acc.push(d))
                        } else {
                            (pos, acc)
                        }
                    } else {
                        (pos, acc)
                    }
                },
                None => (pos, acc),
            }
        } else {
            (pos, acc)
        }
    }
}

/// A braced declaration body: `{ ... }`, with surrounding whitespace
/// consumed.
pub open spec fn p_decl_body(s: Seq<char>, pos: int) -> Option<(int, Seq<DeclV>)>
    decreases s.len() - pos, 28int,
{
    if !(0 <= pos <= s.len()) {
        None
    } else {
        let w = p_ws0(s, pos);
        if pos <= w < s.len() && s[w] == '{' {
            let (e, ds) = p_decls_rest(s, w + 1, Seq::empty());
            if 0 <= e < s.len() && s[e] == '}' {
                Some((p_ws0(s, e + 1), ds))
            } else {
                None
            }
        } else {
            None
        }
    }
}

/// A declaration, tried in order: an entity, a constructor, a tick handler,
/// a draw handler, instance variables, a function, a `use` import.
pub open spec fn p_decl(s: Seq<char>, pos: int) -> Option<(int, DeclV)>
    decreases s.len() - pos, 26int,
{
    if !(0 <= pos <= s.len()) {
        None
    } else if p_entity_decl(s, pos) is Some {
        p_entity_decl(s, pos)
    } else if p_handler_decl(s, pos, 0) is Some {
        p_handler_decl(s, pos, 0)
    } else if p_handler_decl(s, pos, 1) is Some {
        p_handler_decl(s, pos, 1)
    } else if p_handler_decl(s, pos, 2) is Some {
        p_handler_decl(s, pos, 2)
    } else if p_ivar_decl(s, pos) is Some {
        p_ivar_decl(s, pos)
    } else if p_func_decl(s, pos) is Some {
        p_func_decl(s, pos)
    } else {
        p_use_decl(s, pos)
    }
}

/// An `entity Name { ... }` declaration.
pub open spec fn p_entity_decl(s: Seq<char>, pos: int) -> Option<(int, DeclV)>
    decreases s.len() - pos, 25int,
{
    match p_tag(s, pos, "entity"@) {
        Some(t) => {
            if 0 <= t <= s.len() {
                match p_ws1(s, t) {
                    Some(w) => {
                        if pos < w <= s.len() {
                            match p_ident(s, w) {
                                Some((iend, name)) => {
                                    if pos < iend <= s.len() {
                                        let w2 = p_ws0(s, iend);
                                        if pos < w2 <= s.len() {
                                            match p_decl_body(s, w2) {
                                                Some((p, body)) => Some(
                                                    (p, DeclV::Entity { name, body }),
                                                ),
                                                None => None,
                                            }
                                        } else {
                                            None
                                        }
                                    } else {
                                        None
                                    }
                                },
                                None => None,
                            }
                        } else {
                            None
                        }
                    },
                    None => None,
                }
            } else {
                None
            }
        },
        None => None,
    }
}

/// A `constructor`, `tick` or `draw` handler declaration (selected by
/// `which`: 0, 1 or 2), holding a braced statement body.
pub open spec fn p_handler_decl(s: Seq<char>, pos: int, which: int) -> Option<(int, DeclV)>
    decreases s.len() - pos, 25int,
{
    let kw = if which == 0 {
        "constructor"@
    } else if which == 1 {
        "tick"@
    } else {
        "draw"@
    };
    match p_tag(s, pos, kw) {
        Some(t) => {
            if pos <= t <= s.len() {
                match p_stmt_body(s, t) {
                    Some((p, body)) => Some(
                        (
                            p,
                            if which == 0 {
                                DeclV::Constructor { body }
                            } else if which == 1 {
                                DeclV::Tick { body }
                            } else {
                                DeclV::Draw { body }
                            },
                        ),
                    ),
                    None => None,
                }
            } else {
                None
            }
        },
        None => None,
    }
}

/// Parse one declaration.
#[verifier::loop_isolation(false)]
pub(crate) fn decl(s: &Vec<char>, pos: usize) -> (r: Option<(usize, Declaration)>)
    requires
        pos <= s@.len(),
    ensures
        match p_decl(s@, pos as int) {
            Some((p, d)) => r matches Some(rp) && rp.0 == p && decl_v(rp.1) == d && pos <= rp.0
                <= s@.len(),
            None => r is None,
        },
    decreases s@.len() - pos, 26int,
{
    broadcast use crate::ast::group_ast_views;

    // `entity Name { ... }`
    if let Some(t) = tag(s, pos, "entity") {
        if let Some(w) = ws1(s, t) {
            if let Some((iend, name)) = ident(s, w) {
                let w2 = ws0(s, iend);
                if let Some((p, body)) = decl_body(s, w2) {
                    return Some((p, Declaration::EntityDeclaration { name, body }));
                }
            }
        }
    }
    proof {
        assert(p_entity_decl(s@, pos as int) is None);
    }
    // `constructor { ... }`
    if let Some(t) = tag(s, pos, "constructor") {
        if let Some((p, body)) = stmt_body(s, t) {
            return Some((p, Declaration::ConstructorDeclaration { body }));
        }
    }
    proof {
        assert(p_handler_decl(s@, pos as int, 0) is None);
    }
    // `tick { ... }`
    if let Some(t) = tag(s, pos, "tick") {
        if let Some((p, body)) = stmt_body(s, t) {
            return Some((p, Declaration::TickDeclaration { body }));
        }
    }
    proof {
        assert(p_handler_decl(s@, pos as int, 1) is None);
    }
    // `draw { ... }`
    if let Some(t) = tag(s, pos, "draw") {
        if let Some((p, body)) = stmt_body(s, t) {
            return Some((p, Declaration::DrawDeclaration { body }));
        }
    }
    proof {
        assert(p_handler_decl(s@, pos as int, 2) is None);
    }
    // `var @a, @b;`
    if let Some(x) = ivar_decl(s, pos) {
        return Some(x);
    }
    proof {
        assert(p_ivar_decl(s@, pos as int) is None);
    }
    // `func name(p1, p2) { ... }`
    if let Some(x) = func_decl(s, pos) {
        return Some(x);
    }
    proof {
        assert(p_func_decl(s@, pos as int) is None);
    }
    // `use OtherEntity;`
    if let Some(t) = tag(s, pos, "use") {
        if let Some(w) = ws1(s, t) {
            if let Some((iend, name)) = ident(s, w) {
                if iend < s.len() && s[iend] == ';' {
                    return Some((iend + 1, Declaration::UseDeclaration { name }));
                }
            }
        }
    }
    proof {
        assert(p_use_decl(s@, pos as int) is None);
    }
    None
}

/// Parse a `var` declaration.
#[verifier::loop_isolation(false)]
fn ivar_decl(s: &Vec<char>, pos: usize) -> (r: Option<(usize, Declaration)>)
    requires
        pos <= s@.len(),
    ensures
        match p_ivar_decl(s@, pos as int) {
            Some((p, d)) => r matches Some(rp) && rp.0 == p && decl_v(rp.1) == d && pos <= rp.0
                <= s@.len(),
            None => r is None,
        },
    decreases s@.len() - pos, 25int,
{
    let t = match tag(s, pos, "var") {
        Some(t) => t,
        None => {
            return None;
        },
    };
    let w = match ws1(s, t) {
        Some(w) => w,
        None => {
            return None;
        },
    };
    let (iend, first) = match ivar_ident(s, w) {
        Some(x) => x,
        None => {
            return None;
        },
    };
    let ghost firstv = first@;
    let mut names: Vec<String> = Vec::new();
    names.push(first);
    proof {
        assert(strvs(names@) =~= seq![firstv]);
    }
    let mut cur = iend;
    loop
        invariant
            pos < cur <= s@.len(),
            p_ivar_items(s@, iend as int, seq![firstv]) == p_ivar_items(
                s@,
                cur as int,
                strvs(names@),
            ),
        decreases s@.len() - cur,
    {
        let ghost acc_cur = strvs(names@);
        let w1 = ws0(s, cur);
        if !(w1 < s.len() && s[w1] == ',') {
            break;
        }
        let w2 = ws0(s, w1 + 1);
        match ivar_ident(s, w2) {
            Some((p, name)) => {
                if cur < p {
                    let ghost nv = name@;
                    names.push(name);
                    proof {
                        assert(strvs(names@) =~= acc_cur.push(nv));
                    }
                    cur = p;
                } else {
                    break;
                }
            },
            None => {
                break;
            },
        }
    }
    if cur < s.len() && s[cur] == ';' {
        Some((cur + 1, Declaration::InstanceVarDeclaration { names }))
    } else {
        None
    }
}

/// Parse a `func` declaration.
#[verifier::loop_isolation(false)]
fn func_decl(s: &Vec<char>, pos: usize) -> (r: Option<(usize, Declaration)>)
    requires
        pos <= s@.len(),
    ensures
        match p_func_decl(s@, pos as int) {
            Some((p, d)) => r matches Some(rp) && rp.0 == p && decl_v(rp.1) == d && pos <= rp.0
                <= s@.len(),
            None => r is None,
        },
    decreases s@.len() - pos, 25int,
{
    let t = match tag(s, pos, "func") {
        Some(t) => t,
        None => {
            return None;
        },
    };
    let w = match ws1(s, t) {
        Some(w) => w,
        None => {
            return None;
        },
    };
    let (iend, name) = match ident(s, w) {
        Some(x) => x,
        None => {
            return None;
        },
    };
    let w2 = ws0(s, iend);
    if !(w2 < s.len() && s[w2] == '(') {
        return None;
    }
    // The parameter list.
    let mut parameters: Vec<String> = Vec::new();
    let mut pend = w2 + 1;
    proof {
        assert(strvs(parameters@) =~= Seq::<Seq<char>>::empty());
    }
    match ident(s, w2 + 1) {
        Some((p0, first)) => {
            let ghost firstv = first@;
            parameters.push(first);
            proof {
                assert(strvs(parameters@) =~= seq![firstv]);
            }
            let mut cur = p0;
            loop
                invariant
                    w2 + 1 < cur <= s@.len(),
                    p_params_rest(s@, p0 as int, seq![firstv]) == p_params_rest(
                        s@,
                        cur as int,
                        strvs(parameters@),
                    ),
                decreases s@.len() - cur,
            {
                let ghost acc_cur = strvs(parameters@);
                let w1 = ws0(s, cur);
                if !(w1 < s.len() && s[w1] == ',') {
                    break;
                }
                let w3 = ws0(s, w1 + 1);
                match ident(s, w3) {
                    Some((p, pname)) => {
                        if cur < p {
                            let ghost nv = pname@;
                            parameters.push(pname);
                            proof {
                                assert(strvs(parameters@) =~= acc_cur.push(nv));
                            }
                            cur = p;
                        } else {
                            break;
                        }
                    },
                    None => {
                        break;
                    },
                }
            }
            pend = cur;
        },
        None => {},
    }
    if !(pend < s.len() && s[pend] == ')') {
        return None;
    }
    match stmt_body(s, pend + 1) {
        Some((p, body)) => Some((p, Declaration::FunctionDeclaration { name, parameters, body })),
        None => None,
    }
}

/// Parse a braced declaration body.
#[verifier::loop_isolation(false)]
fn decl_body(s: &Vec<char>, pos: usize) -> (r: Option<(usize, Vec<Declaration>)>)
    requires
        pos <= s@.len(),
    ensures
        match p_decl_body(s@, pos as int) {
            Some((p, ds)) => r matches Some(rp) && rp.0 == p && decls_v(rp.1@) == ds && pos
                <= rp.0 <= s@.len(),
            None => r is None,
        },
    decreases s@.len() - pos, 28int,
{
    broadcast use crate::ast::group_ast_views;

    let w = ws0(s, pos);
    if !(w < s.len() && s[w] == '{') {
        return None;
    }
    let mut ds: Vec<Declaration> = Vec::new();
    proof {
        assert(decls_v(ds@) =~= Seq::<DeclV>::empty());
    }
    let mut cur = w + 1;
    let ghost start = w + 1;
    loop
        invariant
            start <= cur <= s@.len(),
            p_decls_rest(s@, start as int, Seq::empty()) == p_decls_rest(
                s@,
                cur as int,
                decls_v(ds@),
            ),
        decreases s@.len() - cur,
    {
        let ghost acc_cur = decls_v(ds@);
        let w1 = ws0(s, cur);
        match decl(s, w1) {
            Some((p, d)) => {
                let w2 = ws0(s, p);
                if cur < w2 {
                    let ghost dv = decl_v(d);
                    proof {
                        crate::ast::lemma_decls_v(ds@);
                    }
                    ds.push(d);
                    proof {
                        crate::ast::lemma_decls_v(ds@);
                        assert(decls_v(ds@) =~= acc_cur.push(dv));
                    }
                    cur = w2;
                } else {
                    break;
                }
            },
            None => {
                break;
            },
        }
    }
    if cur < s.len() && s[cur] == '}' {
        let e2 = ws0(s, cur + 1);
        Some((e2, ds))
    } else {
        None
    }
}

} // verus!
