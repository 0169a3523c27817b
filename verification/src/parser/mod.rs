//! A recursive-descent parser for the language, specified by a positional
//! grammar over character sequences: each production has a spec function
//! giving exactly what it consumes and yields, and the executable parser is
//! proved to match it.
//!
//! Tokens match by prefix; whitespace is consumed liberally between them.
//! A parse fails when no production matches, or when input remains after the
//! last top-level declaration.

use vstd::prelude::*;

use crate::ast::{decls_v, Declaration, DeclV};
use crate::text::{chars_to_string, str_chars};

pub(crate) mod declaration;
pub(crate) mod expression;
pub(crate) mod statement;

verus! {

/// Whether a character counts as whitespace (Unicode).
pub uninterp spec fn is_ws_char(c: char) -> bool;

/// Relies on `char::is_whitespace`: a fixed Unicode property of the
/// character alone.
#[verifier::external_body]
pub(crate) fn ws_char(c: char) -> (r: bool)
    ensures
        r == is_ws_char(c),
{
    c.is_whitespace()
}

/// Whether a character is alphabetic (Unicode).
pub uninterp spec fn is_alpha_char(c: char) -> bool;

/// Relies on `char::is_alphabetic`: a fixed Unicode property of the
/// character alone.
#[verifier::external_body]
pub(crate) fn alpha_char(c: char) -> (r: bool)
    ensures
        r == is_alpha_char(c),
{
    c.is_alphabetic()
}

/// Whether a character is alphanumeric (Unicode).
pub uninterp spec fn is_alnum_char(c: char) -> bool;

/// Relies on `char::is_alphanumeric`: a fixed Unicode property of the
/// character alone.
#[verifier::external_body]
pub(crate) fn alnum_char(c: char) -> (r: bool)
    ensures
        r == is_alnum_char(c),
{
    c.is_alphanumeric()
}

/// The position after consuming any run of whitespace at `pos`.
pub open spec fn p_ws0(s: Seq<char>, pos: int) -> int
    decreases s.len() - pos,
{
    if 0 <= pos < s.len() && is_ws_char(s[pos]) {
        p_ws0(s, pos + 1)
    } else {
        pos
    }
}

/// `p_ws0` only moves forward, and never past the end.
pub proof fn lemma_ws0(s: Seq<char>, pos: int)
    requires
        0 <= pos <= s.len(),
    ensures
        pos <= p_ws0(s, pos) <= s.len(),
    decreases s.len() - pos,
{
    if pos < s.len() && is_ws_char(s[pos]) {
        lemma_ws0(s, pos + 1);
    }
}

/// The position after consuming at least one whitespace character, if any.
pub open spec fn p_ws1(s: Seq<char>, pos: int) -> Option<int> {
    if 0 <= pos < s.len() && is_ws_char(s[pos]) {
        Some(p_ws0(s, pos))
    } else {
        None
    }
}

/// Consume any run of whitespace.
pub(crate) fn ws0(s: &Vec<char>, pos: usize) -> (r: usize)
    requires
        pos <= s@.len(),
    ensures
        r == p_ws0(s@, pos as int),
        pos <= r <= s@.len(),
{
    let mut cur = pos;
    while cur < s.len() && ws_char(s[cur])
        invariant
            pos <= cur <= s@.len(),
            p_ws0(s@, pos as int) == p_ws0(s@, cur as int),
        decreases s@.len() - cur,
    {
        cur += 1;
    }
    cur
}

/// Consume at least one whitespace character.
pub(crate) fn ws1(s: &Vec<char>, pos: usize) -> (r: Option<usize>)
    requires
        pos <= s@.len(),
    ensures
        match p_ws1(s@, pos as int) {
            Some(p) => r matches Some(rp) && rp == p && pos < rp <= s@.len(),
            None => r is None,
        },
{
    if pos < s.len() && ws_char(s[pos]) {
        proof {
            lemma_ws0(s@, pos + 1);
        }
        Some(ws0(s, pos))
    } else {
        None
    }
}

/// The position after the literal `t` at `pos`, if the input carries it
/// there (a prefix match, with no word boundary).
pub open spec fn p_tag(s: Seq<char>, pos: int, t: Seq<char>) -> Option<int> {
    if 0 <= pos && pos + t.len() <= s.len() && s.subrange(pos, pos + t.len()) == t {
        Some(pos + t.len())
    } else {
        None
    }
}

/// Match the literal `t` at `pos`.
pub(crate) fn tag(s: &Vec<char>, pos: usize, t: &str) -> (r: Option<usize>)
    requires
        pos <= s@.len(),
    ensures
        match p_tag(s@, pos as int, t@) {
            Some(p) => r matches Some(rp) && rp == p && pos <= rp <= s@.len(),
            None => r is None,
        },
{
    let n = t.unicode_len();
    let slen = s.len();
    if n > slen - pos {
        proof {
            assert(p_tag(s@, pos as int, t@) is None);
        }
        return None;
    }
    let mut i: usize = 0;
    while i < n
        invariant
            i <= n,
            n == t@.len(),
            pos + n <= slen,
            slen == s@.len(),
            forall|j: int| 0 <= j < i ==> s@[pos + j] == t@[j],
        decreases n - i,
    {
        if s[pos + i] != t.get_char(i) {
            proof {
                assert(s@.subrange(pos as int, pos + t@.len()) != t@) by {
                    assert(s@.subrange(pos as int, pos + t@.len())[i as int] == s@[pos + i]);
                }
            }
            return None;
        }
        i += 1;
    }
    proof {
        assert(s@.subrange(pos as int, pos + t@.len()) =~= t@);
    }
    Some(pos + n)
}

/// Whether a character may begin an identifier.
pub open spec fn is_ident_start(c: char) -> bool {
    is_alpha_char(c) || c == '_'
}

/// Whether a character may continue an identifier.
pub open spec fn is_ident_char(c: char) -> bool {
    is_alnum_char(c) || c == '_'
}

/// The position after the identifier characters running from `pos`.
pub open spec fn p_ident_rest(s: Seq<char>, pos: int) -> int
    decreases s.len() - pos,
{
    if 0 <= pos < s.len() && is_ident_char(s[pos]) {
        p_ident_rest(s, pos + 1)
    } else {
        pos
    }
}

/// `p_ident_rest` only moves forward, and never past the end.
pub proof fn lemma_ident_rest(s: Seq<char>, pos: int)
    requires
        0 <= pos <= s.len(),
    ensures
        pos <= p_ident_rest(s, pos) <= s.len(),
    decreases s.len() - pos,
{
    if pos < s.len() && is_ident_char(s[pos]) {
        lemma_ident_rest(s, pos + 1);
    }
}

/// An identifier: an alphabetic character or `_`, then any run of
/// alphanumeric characters or `_`.
pub open spec fn p_ident(s: Seq<char>, pos: int) -> Option<(int, Seq<char>)> {
    if 0 <= pos < s.len() && is_ident_start(s[pos]) {
        let end = p_ident_rest(s, pos + 1);
        Some((end, s.subrange(pos, end)))
    } else {
        None
    }
}

/// Parse an identifier.
pub(crate) fn ident(s: &Vec<char>, pos: usize) -> (r: Option<(usize, String)>)
    requires
        pos <= s@.len(),
    ensures
        match p_ident(s@, pos as int) {
            Some((p, name)) => r matches Some(rp) && rp.0 == p && rp.1@ == name && pos < rp.0
                <= s@.len(),
            None => r is None,
        },
{
    if !(pos < s.len() && (alpha_char(s[pos]) || s[pos] == '_')) {
        return None;
    }
    proof {
        lemma_ident_rest(s@, pos + 1);
    }
    let mut end = pos + 1;
    while end < s.len() && (alnum_char(s[end]) || s[end] == '_')
        invariant
            pos < end <= s@.len(),
            p_ident_rest(s@, pos + 1) == p_ident_rest(s@, end as int),
        decreases s@.len() - end,
    {
        end += 1;
    }
    let mut buf: Vec<char> = Vec::new();
    let mut i = pos;
    while i < end
        invariant
            pos <= i <= end <= s@.len(),
            buf@ =~= s@.subrange(pos as int, i as int),
        decreases end - i,
    {
        buf.push(s[i]);
        i += 1;
    }
    proof {
        assert(buf@ =~= s@.subrange(pos as int, end as int));
    }
    Some((end, chars_to_string(&buf)))
}

/// An `@name` instance-variable reference.
pub open spec fn p_ivar_ident(s: Seq<char>, pos: int) -> Option<(int, Seq<char>)> {
    if 0 <= pos < s.len() && s[pos] == '@' {
        p_ident(s, pos + 1)
    } else {
        None
    }
}

/// Parse an `@name` instance-variable reference.
pub(crate) fn ivar_ident(s: &Vec<char>, pos: usize) -> (r: Option<(usize, String)>)
    requires
        pos <= s@.len(),
    ensures
        match p_ivar_ident(s@, pos as int) {
            Some((p, name)) => r matches Some(rp) && rp.0 == p && rp.1@ == name && pos < rp.0
                <= s@.len(),
            None => r is None,
        },
{
    if pos < s.len() && s[pos] == '@' {
        ident(s, pos + 1)
    } else {
        None
    }
}

/// A parse failure: the grammar could not consume the whole input.
#[derive(Debug)]
pub struct ParseError {}

/// The sequence of top-level declarations from `pos` on: declarations
/// surrounded by whitespace, as many as match.
pub open spec fn p_decls(s: Seq<char>, pos: int, acc: Seq<DeclV>) -> (int, Seq<DeclV>)
    decreases s.len() - pos, 30int,
{
    if !(0 <= pos <= s.len()) {
        (pos, acc)
    } else {
        let w1 = p_ws0(s, pos);
        if pos <= w1 <= s.len() {
            match declaration::p_decl(s, w1) {
                Some((p, d)) => {
                    if pos <= p <= s.len() {
                        let w2 = p_ws0(s, p);
                        if pos < w2 <= s.len() {
                            p_decls(s, w2, acc.push(d))
                        } else {
                            (pos, acc)
                        }
                    } else {
                        (pos, acc)
                    }
                },
                None => (pos, acc),
            }
        } else {
            (pos, acc)
        }
    }
}

/// The whole program: every top-level declaration, with nothing left over.
/// Trailing unconsumed input is a parse error, never silently ignored.
pub open spec fn spec_parse(s: Seq<char>) -> Option<Seq<DeclV>> {
    let (p, ds) = p_decls(s, 0, Seq::empty());
    if p == s.len() {
        Some(ds)
    } else {
        None
    }
}

/// Parse a source text into its top-level declarations.
#[verifier::loop_isolation(false)]
pub fn parse(input: &str) -> (r: Result<Vec<Declaration>, ParseError>)
    ensures
        match spec_parse(input@) {
            Some(ds) => r matches Ok(v) && decls_v(v@) == ds,
            None => r is Err,
        },
{
    broadcast use crate::ast::group_ast_views;

    let s = str_chars(input);
    let ghost sq = input@;
    let mut out: Vec<Declaration> = Vec::new();
    let mut pos: usize = 0;
    loop
        invariant
            s@ == sq,
            pos <= s@.len(),
            p_decls(sq, 0, Seq::empty()) == p_decls(sq, pos as int, decls_v(out@)),
        decreases s@.len() - pos,
    {
        let ghost pre_acc = decls_v(out@);
        let w1 = ws0(&s, pos);
        let step = declaration::decl(&s, w1);
        match step {
            Some((p, d)) => {
                let w2 = ws0(&s, p);
                if w2 > pos {
                    let ghost dv = crate::ast::decl_v(d);
                    proof {
                        crate::ast::lemma_decls_v(out@);
                    }
                    out.push(d);
                    proof {
                        crate::ast::lemma_decls_v(out@);
                        assert(decls_v(out@) =~= pre_acc.push(dv));
                    }
                    pos = w2;
                } else {
                    break;
                }
            },
            None => {
                break;
            },
        }
    }
    if pos == s.len() {
        Ok(out)
    } else {
        Err(ParseError {})
    }
}

/// Parse a single expression at the start of the text; the returned index
/// is where parsing stopped.
pub fn expression(input: &str) -> (r: Option<(usize, crate::ast::Expression)>)
    ensures
        match expression::p_expr(input@, 0) {
            Some((p, ev)) => r matches Some(rp) && rp.0 == p && crate::ast::expr_v(rp.1) == ev,
            None => r is None,
        },
{
    let s = str_chars(input);
    expression::expr(&s, 0)
}

/// Parse a single statement at the start of the text.
pub fn statement(input: &str) -> (r: Option<(usize, crate::ast::Statement)>)
    ensures
        match statement::p_stmt(input@, 0) {
            Some((p, sv)) => r matches Some(rp) && rp.0 == p && crate::ast::stmt_v(rp.1) == sv,
            None => r is None,
        },
{
    let s = str_chars(input);
    statement::stmt(&s, 0)
}

/// Parse a single declaration at the start of the text.
pub fn declaration(input: &str) -> (r: Option<(usize, Declaration)>)
    ensures
        match declaration::p_decl(input@, 0) {
            Some((p, d)) => r matches Some(rp) && rp.0 == p && crate::ast::decl_v(rp.1) == d,
            None => r is None,
        },
{
    let s = str_chars(input);
    declaration::decl(&s, 0)
}

} // verus!
