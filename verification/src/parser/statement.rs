//! The statement grammar: `if`, `each`, `return`, assignment, and bare
//! expression statements, each form tried in that order.

use vstd::prelude::*;

use crate::ast::{expr_v, stmt_v, stmts_v, Expression, ExprV, Statement, StmtV};
use crate::parser::expression::{expr, p_expr};
use crate::parser::{ident, p_ident, p_tag, p_ws0, p_ws1, tag, ws0, ws1};

verus! {

/// A parenthesised expression: `( expr )`.
pub open spec fn p_paren(s: Seq<char>, pos: int) -> Option<(int, ExprV)>
    decreases s.len() - pos, 20int,
{
    if 0 <= pos < s.len() && s[pos] == '(' {
        let w = p_ws0(s, pos + 1);
        if pos < w <= s.len() {
            match p_expr(s, w) {
                Some((pe, e)) => {
                    if pos < pe <= s.len() {
                        let w2 = p_ws0(s, pe);
                        if 0 <= w2 < s.len() && s[w2] == ')' {
                            Some((w2 + 1, e))
                        } else {
                            None
                        }
                    } else {
                        None
                    }
                },
                None => None,
            }
        } else {
            None
        }
    } else {
        None
    }
}

/// Parse a parenthesised expression.
fn paren_expr(s: &Vec<char>, pos: usize) -> (r: Option<(usize, Expression)>)
    requires
        pos <= s@.len(),
    ensures
        match p_paren(s@, pos as int) {
            Some((p, ev)) => r matches Some(rp) && rp.0 == p && expr_v(rp.1) == ev && pos < rp.0
                <= s@.len(),
            None => r is None,
        },
    decreases s@.len() - pos, 20int,
{
    if !(pos < s.len() && s[pos] == '(') {
        return None;
    }
    let w = ws0(s, pos + 1);
    let (pe, e) = match expr(s, w) {
        Some(x) => x,
        None => {
            return None;
        },
    };
    let w2 = ws0(s, pe);
    if w2 < s.len() && s[w2] == ')' {
        Some((w2 + 1, e))
    } else {
        None
    }
}

/// The statements of a braced body after the opening brace, each surrounded
/// by whitespace.
pub open spec fn p_stmts_rest(s: Seq<char>, pos: int, acc: Seq<StmtV>) -> (int, Seq<StmtV>)
    decreases s.len() - pos, 23int,
{
    if !(0 <= pos <= s.len()) {
        (pos, acc)
    } else {
        let w1 = p_ws0(s, pos);
        if pos <= w1 <= s.len() {
            match p_stmt(s, w1) {
                Some((p, st)) => {
                    if pos <= p <= s.len() {
                        let w2 = p_ws0(s, p);
                        if pos < w2 <= s.len() {
                            p_stmts_rest(s, w2, acc.push(st))
                        } else {
                            (pos, acc)
                        }
                    } else {
                        (pos, acc)
                    }
                },
                None => (pos, acc),
            }
        } else {
            (pos, acc)
        }
    }
}

/// A braced statement body: `{ ... }`, with whitespace before the brace and
/// after the closing brace consumed.
pub open spec fn p_stmt_body(s: Seq<char>, pos: int) -> Option<(int, Seq<StmtV>)>
    decreases s.len() - pos, 24int,
{
    if !(0 <= pos <= s.len()) {
        None
    } else {
        let w = p_ws0(s, pos);
        if pos <= w < s.len() && s[w] == '{' {
            let (e, sts) = p_stmts_rest(s, w + 1, Seq::empty());
            if 0 <= e < s.len() && s[e] == '}' {
                Some((p_ws0(s, e + 1), sts))
            } else {
                None
            }
        } else {
            None
        }
    }
}

/// An `if` statement: `if (cond) { ... }`, with no `else` form.
pub open spec fn p_if(s: Seq<char>, pos: int) -> Option<(int, StmtV)>
    decreases s.len() - pos, 21int,
{
    if !(0 <= pos <= s.len()) {
        None
    } else {
        match p_tag(s, pos, "if"@) {
            Some(t) => {
                if pos <= t <= s.len() {
                    let w1 = p_ws0(s, t);
                    if pos <= w1 <= s.len() {
                        match p_paren(s, w1) {
                            Some((pe, cond)) => {
                                if pos < pe <= s.len() {
                                    let w2 = p_ws0(s, pe);
                                    if pos < w2 <= s.len() {
                                        match p_stmt_body(s, w2) {
                                            Some((p, body)) => Some(
                                                (
                                                    p,
                                                    StmtV::If {
                                                        condition: cond,
                                                        true_body: body,
                                                        false_body: None,
                                                    },
                                                ),
                                            ),
                                            None => None,
                                        }
                                    } else {
                                        None
                                    }
                                } else {
                                    None
                                }
                            },
                            None => None,
                        }
                    } else {
                        None
                    }
                } else {
                    None
                }
            },
            None => None,
        }
    }
}

/// An `each` loop: `each x in (source) { ... }`.
pub open spec fn p_each(s: Seq<char>, pos: int) -> Option<(int, StmtV)>
    decreases s.len() - pos, 21int,
{
    if !(0 <= pos <= s.len()) {
        None
    } else {
        match p_tag(s, pos, "each"@) {
            Some(t) => {
                if pos <= t <= s.len() {
                    match p_ws1(s, t) {
                        Some(w1) => {
                            if pos <= w1 <= s.len() {
                                match p_ident(s, w1) {
                                    Some((iend, var)) => {
                                        if pos <= iend <= s.len() {
                                            match p_ws1(s, iend) {
                                                Some(w2) => {
                                                    if pos <= w2 <= s.len() {
                                                        match p_tag(s, w2, "in"@) {
                                                            Some(t2) => {
                                                                if pos <= t2 <= s.len() {
                                                                    let w3 = p_ws0(s, t2);
                                                                    if pos < w3 <= s.len() {
                                                                        p_each_tail(s, pos, w3, var)
                                                                    } else {
                                                                        None
                                                                    }
                                                                } else {
                                                                    None
                                                                }
                                                            },
                                                            None => None,
                                                        }
                                                    } else {
                                                        None
                                                    }
                                                },
                                                None => None,
                                            }
                                        } else {
                                            None
                                        }
                                    },
                                    None => None,
                                }
                            } else {
                                None
                            }
                        },
                        None => None,
                    }
                } else {
                    None
                }
            },
            None => None,
        }
    }
}

/// The source and body of an `each` loop, from the parenthesised source on.
pub open spec fn p_each_tail(s: Seq<char>, pos: int, w3: int, var: Seq<char>) -> Option<
    (int, StmtV),
>
    decreases s.len() - w3, 21int,
{
    if !(pos < w3 <= s.len()) {
        None
    } else {
        match p_paren(s, w3) {
            Some((pe, source)) => {
                if w3 < pe <= s.len() {
                    let w4 = p_ws0(s, pe);
                    if w3 < w4 <= s.len() {
                        match p_stmt_body(s, w4) {
                            Some((p, body)) => Some(
                                (p, StmtV::Each { variable: var, source, body }),
                            ),
                            None => None,
                        }
                    } else {
                        None
                    }
                } else {
                    None
                }
            },
            None => None,
        }
    }
}

/// A statement, tried in order: `if`, `each`, `return expr;`, `return;`,
/// `target = value;`, `expr;`.
pub open spec fn p_stmt(s: Seq<char>, pos: int) -> Option<(int, StmtV)>
    decreases s.len() - pos, 22int,
{
    if !(0 <= pos <= s.len()) {
        None
    } else if p_if(s, pos) is Some {
        p_if(s, pos)
    } else if p_each(s, pos) is Some {
        p_each(s, pos)
    } else if p_return_expr(s, pos) is Some {
        p_return_expr(s, pos)
    } else if p_return_bare(s, pos) is Some {
        p_return_bare(s, pos)
    } else if p_assign(s, pos) is Some {
        p_assign(s, pos)
    } else {
        p_expr_stmt(s, pos)
    }
}

/// `return expr;`
pub open spec fn p_return_expr(s: Seq<char>, pos: int) -> Option<(int, StmtV)>
    decreases s.len() - pos, 21int,
{
    match p_tag(s, pos, "return"@) {
        Some(t) => {
            if 0 <= t <= s.len() {
                match p_ws1(s, t) {
                    Some(w) => {
                        if pos < w <= s.len() {
                            match p_expr(s, w) {
                                Some((pe, e)) => {
                                    if pos < pe <= s.len() {
                                        let w2 = p_ws0(s, pe);
                                        if 0 <= w2 < s.len() && s[w2] == ';' {
                                            Some((w2 + 1, StmtV::Return(Some(e))))
                                        } else {
                                            None
                                        }
                                    } else {
                                        None
                                    }
                                },
                                None => None,
                            }
                        } else {
                            None
                        }
                    },
                    None => None,
                }
            } else {
                None
            }
        },
        None => None,
    }
}

/// `return;`
pub open spec fn p_return_bare(s: Seq<char>, pos: int) -> Option<(int, StmtV)> {
    match p_tag(s, pos, "return"@) {
        Some(t) => {
            if 0 <= t <= s.len() {
                let w = p_ws0(s, t);
                if 0 <= w < s.len() && s[w] == ';' {
                    Some((w + 1, StmtV::Return(None)))
                } else {
                    None
                }
            } else {
                None
            }
        },
        None => None,
    }
}

/// `target = value;`
pub open spec fn p_assign(s: Seq<char>, pos: int) -> Option<(int, StmtV)>
    decreases s.len() - pos, 21int,
{
    match p_expr(s, pos) {
        Some((pt, target)) => {
            if 0 <= pos <= pt <= s.len() {
                let w1 = p_ws0(s, pt);
                if 0 <= w1 < s.len() && s[w1] == '=' {
                    let w2 = p_ws0(s, w1 + 1);
                    if pos < w2 <= s.len() {
                        match p_expr(s, w2) {
                            Some((pv, value)) => {
                                if pos < pv <= s.len() {
                                    let w3 = p_ws0(s, pv);
                                    if 0 <= w3 < s.len() && s[w3] == ';' {
                                        Some((w3 + 1, StmtV::Assign { target, value }))
                                    } else {
                                        None
                                    }
                                } else {
                                    None
                                }
                            },
                            None => None,
                        }
                    } else {
                        None
                    }
                } else {
                    None
                }
            } else {
                None
            }
        },
        None => None,
    }
}

/// `expr;`
pub open spec fn p_expr_stmt(s: Seq<char>, pos: int) -> Option<(int, StmtV)>
    decreases s.len() - pos, 21int,
{
    match p_expr(s, pos) {
        Some((pe, e)) => {
            if 0 <= pos <= pe <= s.len() {
                let w = p_ws0(s, pe);
                if 0 <= w < s.len() && s[w] == ';' {
                    Some((w + 1, StmtV::Expr(e)))
                } else {
                    None
                }
            } else {
                None
            }
        },
        None => None,
    }
}

/// Parse a braced statement body.
#[verifier::loop_isolation(false)]
pub(crate) fn stmt_body(s: &Vec<char>, pos: usize) -> (r: Option<(usize, Vec<Statement>)>)
    requires
        pos <= s@.len(),
    ensures
        match p_stmt_body(s@, pos as int) {
            Some((p, sts)) => r matches Some(rp) && rp.0 == p && stmts_v(rp.1@) == sts && pos
                <= rp.0 <= s@.len(),
            None => r is None,
        },
    decreases s@.len() - pos, 24int,
{
    broadcast use crate::ast::group_ast_views;

    let w = ws0(s, pos);
    if !(w < s.len() && s[w] == '{') {
        return None;
    }
    let mut sts: Vec<Statement> = Vec::new();
    proof {
        assert(stmts_v(sts@) =~= Seq::<StmtV>::empty());
    }
    let mut cur = w + 1;
    let ghost start = w + 1;
    loop
        invariant
            start <= cur <= s@.len(),
            p_stmts_rest(s@, start as int, Seq::empty()) == p_stmts_rest(
                s@,
                cur as int,
                stmts_v(sts@),
            ),
        decreases s@.len() - cur,
    {
        let ghost acc_cur = stmts_v(sts@);
        let w1 = ws0(s, cur);
        match stmt(s, w1) {
            Some((p, st)) => {
                let w2 = ws0(s, p);
                if cur < w2 {
                    let ghost sv = stmt_v(st);
                    proof {
                        crate::ast::lemma_stmts_v(sts@);
                    }
                    sts.push(st);
                    proof {
                        crate::ast::lemma_stmts_v(sts@);
                        assert(stmts_v(sts@) =~= acc_cur.push(sv));
                    }
                    cur = w2;
                } else {
                    break;
                }
            },
            None => {
                break;
            },
        }
    }
    if cur < s.len() && s[cur] == '}' {
        let e2 = ws0(s, cur + 1);
        Some((e2, sts))
    } else {
        None
    }
}

/// Parse one statement.
#[verifier::loop_isolation(false)]
pub(crate) fn stmt(s: &Vec<char>, pos: usize) -> (r: Option<(usize, Statement)>)
    requires
        pos <= s@.len(),
    ensures
        match p_stmt(s@, pos as int) {
            Some((p, sv)) => r matches Some(rp) && rp.0 == p && stmt_v(rp.1) == sv && pos <= rp.0
                <= s@.len(),
            None => r is None,
        },
    decreases s@.len() - pos, 22int,
{
    // `if (cond) { ... }`
    if let Some(t) = tag(s, pos, "if") {
        let w1 = ws0(s, t);
        if let Some((pe, cond)) = paren_expr(s, w1) {
            let w2 = ws0(s, pe);
            if let Some((p, body)) = stmt_body(s, w2) {
                return Some(
                    (
                        p,
                        Statement::IfConditional {
                            condition: cond,
                            true_body: body,
                            false_body: None,
                        },
                    ),
                );
            }
        }
    }
    proof {
        assert(p_if(s@, pos as int) is None);
    }
    // `each x in (source) { ... }`
    if let Some(t) = tag(s, pos, "each") {
        if let Some(w1) = ws1(s, t) {
            if let Some((iend, var)) = ident(s, w1) {
                if let Some(w2) = ws1(s, iend) {
                    if let Some(t2) = tag(s, w2, "in") {
                        let w3 = ws0(s, t2);
                        if let Some((pe, source)) = paren_expr(s, w3) {
                            let w4 = ws0(s, pe);
                            if let Some((p, body)) = stmt_body(s, w4) {
                                return Some(
                                    (p, Statement::EachLoop { variable: var, source, body }),
                                );
                            }
                        }
                    }
                }
            }
        }
    }
    proof {
        assert(p_each(s@, pos as int) is None);
    }
    // `return expr;`
    if let Some(t) = tag(s, pos, "return") {
        if let Some(w) = ws1(s, t) {
            if let Some((pe, e)) = expr(s, w) {
                let w2 = ws0(s, pe);
                if w2 < s.len() && s[w2] == ';' {
                    return Some((w2 + 1, Statement::Return(Some(e))));
                }
            }
        }
    }
    proof {
        assert(p_return_expr(s@, pos as int) is None);
    }
    // `return;`
    if let Some(t) = tag(s, pos, "return") {
        let w = ws0(s, t);
        if w < s.len() && s[w] == ';' {
            return Some((w + 1, Statement::Return(None)));
        }
    }
    proof {
        assert(p_return_bare(s@, pos as int) is None);
    }
    // `target = value;`
    if let Some((pt, target)) = expr(s, pos) {
        let w1 = ws0(s, pt);
        if w1 < s.len() && s[w1] == '=' {
            let w2 = ws0(s, w1 + 1);
            if let Some((pv, value)) = expr(s, w2) {
                let w3 = ws0(s, pv);
                if w3 < s.len() && s[w3] == ';' {
                    return Some((w3 + 1, Statement::Assignment { target, value }));
                }
            }
        }
    }
    proof {
        assert(p_assign(s@, pos as int) is None);
    }
    // `expr;`
    if let Some((pe, e)) = expr(s, pos) {
        let w = ws0(s, pe);
        if w < s.len() && s[w] == ';' {
            return Some((w + 1, Statement::Expression(e)));
        }
    }
    proof {
        assert(p_expr_stmt(s@, pos as int) is None);
    }
    None
}

} // verus!
