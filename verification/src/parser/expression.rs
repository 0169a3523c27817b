//! The expression grammar, lowest to highest binding: comparison/equality,
//! additive, multiplicative, prefix forms (`echo`, `spawn`, `destroy`,
//! member-call chains), atoms (literals, identifiers, `this`, `null`,
//! booleans, arrays, sprite literals). Member-call chains are
//! left-associative.

use vstd::prelude::*;

use crate::ast::{expr_v, BinaryOperator, Expression, ExprV, Pixel, Sprite, SpriteV};
use crate::fp::{bits_of_dec, f64_from_dec};
use crate::parser::{
    alnum_char, ident, is_ident_char, ivar_ident, p_ident, p_ivar_ident, p_tag, p_ws0, p_ws1, tag,
    ws0, ws1,
};
use crate::text::chars_to_string;

verus! {

/// Whether a character is a decimal digit.
pub open spec fn is_digit(c: char) -> bool {
    '0' <= c && c <= '9'
}

/// The position after the run of decimal digits at `pos`.
pub open spec fn p_digits0(s: Seq<char>, pos: int) -> int
    decreases s.len() - pos,
{
    if 0 <= pos < s.len() && is_digit(s[pos]) {
        p_digits0(s, pos + 1)
    } else {
        pos
    }
}

/// `p_digits0` only moves forward, and never past the end.
pub proof fn lemma_digits0(s: Seq<char>, pos: int)
    requires
        0 <= pos <= s.len(),
    ensures
        pos <= p_digits0(s, pos) <= s.len(),
    decreases s.len() - pos,
{
    if pos < s.len() && is_digit(s[pos]) {
        lemma_digits0(s, pos + 1);
    }
}

/// Consume a run of decimal digits.
fn digits0(s: &Vec<char>, pos: usize) -> (r: usize)
    requires
        pos <= s@.len(),
    ensures
        r == p_digits0(s@, pos as int),
        pos <= r <= s@.len(),
{
    let mut cur = pos;
    while cur < s.len() && s[cur] >= '0' && s[cur] <= '9'
        invariant
            pos <= cur <= s@.len(),
            p_digits0(s@, pos as int) == p_digits0(s@, cur as int),
        decreases s@.len() - cur,
    {
        cur += 1;
    }
    cur
}

/// The end of the exponent part at `pos` (`e` or `E`, an optional sign, and
/// at least one digit); `pos` itself when there is none or it is malformed,
/// in which case nothing of it is consumed.
pub open spec fn p_exp_end(s: Seq<char>, pos: int) -> int {
    if 0 <= pos < s.len() && (s[pos] == 'e' || s[pos] == 'E') {
        let es = if pos + 1 < s.len() && (s[pos + 1] == '+' || s[pos + 1] == '-') {
            pos + 2
        } else {
            pos + 1
        };
        if es < s.len() && is_digit(s[es]) {
            p_digits0(s, es)
        } else {
            pos
        }
    } else {
        pos
    }
}

/// The end of the number literal at `pos`: an optional sign, then either
/// digits with an optional fraction or a fraction alone, then an optional
/// exponent.
pub open spec fn p_number_lit(s: Seq<char>, pos: int) -> Option<int> {
    if !(0 <= pos <= s.len()) {
        None
    } else {
        let p1 = if pos < s.len() && (s[pos] == '+' || s[pos] == '-') {
            pos + 1
        } else {
            pos
        };
        if p1 < s.len() && is_digit(s[p1]) {
            let d1 = p_digits0(s, p1);
            let m = if d1 < s.len() && s[d1] == '.' {
                p_digits0(s, d1 + 1)
            } else {
                d1
            };
            Some(p_exp_end(s, m))
        } else if p1 + 1 < s.len() && s[p1] == '.' && is_digit(s[p1 + 1]) {
            Some(p_exp_end(s, p_digits0(s, p1 + 1)))
        } else {
            None
        }
    }
}

/// A number literal and its IEEE-754 binary64 value; text that the decimal
/// conversion cannot take fails the production.
pub open spec fn p_number(s: Seq<char>, pos: int) -> Option<(int, u64)> {
    match p_number_lit(s, pos) {
        Some(end) => match bits_of_dec(s.subrange(pos, end)) {
            Some(b) => Some((end, b)),
            None => None,
        },
        None => None,
    }
}

/// Parse a number literal.
fn number(s: &Vec<char>, pos: usize) -> (r: Option<(usize, u64)>)
    requires
        pos <= s@.len(),
    ensures
        match p_number(s@, pos as int) {
            Some((p, b)) => r matches Some(rp) && rp.0 == p && rp.1 == b && pos <= rp.0
                <= s@.len(),
            None => r is None,
        },
{
    let p1 = if pos < s.len() && (s[pos] == '+' || s[pos] == '-') {
        pos + 1
    } else {
        pos
    };
    let m: usize;
    if p1 < s.len() && s[p1] >= '0' && s[p1] <= '9' {
        let d1 = digits0(s, p1);
        if d1 < s.len() && s[d1] == '.' {
            m = digits0(s, d1 + 1);
        } else {
            m = d1;
        }
    } else if p1 < s.len() && s[p1] == '.' && p1 + 1 < s.len() && s[p1 + 1] >= '0' && s[p1 + 1]
        <= '9' {
        m = digits0(s, p1 + 2);
        proof {
            assert(p_digits0(s@, p1 + 1) == p_digits0(s@, p1 + 2));
        }
    } else {
        return None;
    }
    // Optional exponent; malformed exponents are left unconsumed.
    let end: usize;
    if m < s.len() && (s[m] == 'e' || s[m] == 'E') {
        let es = if m + 1 < s.len() && (s[m + 1] == '+' || s[m + 1] == '-') {
            m + 2
        } else {
            m + 1
        };
        if es < s.len() && s[es] >= '0' && s[es] <= '9' {
            end = digits0(s, es);
        } else {
            end = m;
        }
    } else {
        end = m;
    }
    let mut buf: Vec<char> = Vec::new();
    let mut i = pos;
    while i < end
        invariant
            pos <= i <= end <= s@.len(),
            buf@ =~= s@.subrange(pos as int, i as int),
        decreases end - i,
    {
        buf.push(s[i]);
        i += 1;
    }
    proof {
        assert(buf@ =~= s@.subrange(pos as int, end as int));
    }
    let text = chars_to_string(&buf);
    match f64_from_dec(text.as_str()) {
        Some(b) => Some((end, b)),
        None => None,
    }
}

/// One sprite pixel: `#` is part of the shape, `.` is background.
pub open spec fn p_pixel(s: Seq<char>, pos: int) -> Option<(int, Pixel)> {
    if 0 <= pos < s.len() && s[pos] == '#' {
        Some((pos + 1, Pixel::Filled))
    } else if 0 <= pos < s.len() && s[pos] == '.' {
        Some((pos + 1, Pixel::Clear))
    } else {
        None
    }
}

/// The rest of a pixel row, accumulating onto `acc`.
pub open spec fn p_row_rest(s: Seq<char>, pos: int, acc: Seq<Pixel>) -> (int, Seq<Pixel>)
    decreases s.len() - pos, 2int,
{
    match p_pixel(s, pos) {
        Some((p, px)) => {
            if p > pos {
                p_row_rest(s, p, acc.push(px))
            } else {
                (pos, acc)
            }
        },
        None => (pos, acc),
    }
}

/// A row of at least one pixel.
pub open spec fn p_pixel_row(s: Seq<char>, pos: int) -> Option<(int, Seq<Pixel>)> {
    if p_pixel(s, pos) is Some {
        Some(p_row_rest(s, pos, Seq::empty()))
    } else {
        None
    }
}

/// The remaining rows: whitespace-separated pixel rows after the first.
pub open spec fn p_rows_rest(s: Seq<char>, pos: int, acc: Seq<Seq<Pixel>>) -> (
    int,
    Seq<Seq<Pixel>>,
)
    decreases s.len() - pos, 4int,
{
    match p_ws1(s, pos) {
        Some(w) => match p_pixel_row(s, w) {
            Some((p, row)) => {
                if pos < p <= s.len() {
                    p_rows_rest(s, p, acc.push(row))
                } else {
                    (pos, acc)
                }
            },
            None => (pos, acc),
        },
        None => (pos, acc),
    }
}

/// Zero or more whitespace-separated pixel rows.
pub open spec fn p_rows(s: Seq<char>, pos: int) -> (int, Seq<Seq<Pixel>>) {
    match p_pixel_row(s, pos) {
        Some((p, r0)) => p_rows_rest(s, p, seq![r0]),
        None => (pos, Seq::empty()),
    }
}

/// All rows carry the same length.
pub open spec fn rows_ok(rows: Seq<Seq<Pixel>>) -> bool {
    forall|i: int| 0 <= i < rows.len() ==> (#[trigger] rows[i]).len() == rows[0].len()
}

/// The rows flattened into one row-major pixel sequence.
pub open spec fn flatten_rows(rows: Seq<Seq<Pixel>>) -> Seq<Pixel>
    decreases rows.len(),
{
    if rows.len() == 0 {
        Seq::empty()
    } else {
        rows[0] + flatten_rows(rows.drop_first())
    }
}

/// A sprite literal: `sprite { ... }` around whitespace-separated rows of
/// `#`/`.` characters. A row-length mismatch is a hard parse failure.
pub open spec fn p_sprite(s: Seq<char>, pos: int) -> Option<(int, SpriteV)> {
    match p_tag(s, pos, "sprite"@) {
        None => None,
        Some(t) => {
            let w1 = p_ws0(s, t);
            if 0 <= w1 < s.len() && s[w1] == '{' {
                let w2 = p_ws0(s, w1 + 1);
                let (rend, rows) = p_rows(s, w2);
                let w3 = p_ws0(s, rend);
                if 0 <= w3 < s.len() && s[w3] == '}' && rows_ok(rows) {
                    let width = if rows.len() == 0 {
                        0int
                    } else {
                        rows[0].len() as int
                    };
                    Some(
                        (
                            w3 + 1,
                            SpriteV {
                                width,
                                height: rows.len() as int,
                                pixels: flatten_rows(rows),
                            },
                        ),
                    )
                } else {
                    None
                }
            } else {
                None
            }
        },
    }
}

/// The views of a vector of pixel rows.
pub open spec fn rowvs(rs: Seq<Vec<Pixel>>) -> Seq<Seq<Pixel>> {
    rs.map_values(|r: Vec<Pixel>| r@)
}

/// Parse the rows of a sprite literal.
#[verifier::loop_isolation(false)]
fn sprite_rows(s: &Vec<char>, pos: usize) -> (r: (usize, Vec<Vec<Pixel>>))
    requires
        pos <= s@.len(),
    ensures
        ({
            let (p, rows) = p_rows(s@, pos as int);
            r.0 == p && rowvs(r.1@) == rows && pos <= r.0 <= s@.len()
        }),
{
    let mut rows: Vec<Vec<Pixel>> = Vec::new();
    // The first row, if any.
    let (mut cur, first) = match pixel_row(s, pos) {
        Some((p, row)) => (p, row),
        None => {
            proof {
                assert(rowvs(rows@) =~= Seq::<Seq<Pixel>>::empty());
            }
            return (pos, rows);
        },
    };
    let ghost first_v = first@;
    rows.push(first);
    proof {
        assert(rowvs(rows@) =~= seq![first_v]);
    }
    // The remaining whitespace-separated rows.
    loop
        invariant
            pos <= cur <= s@.len(),
            p_rows(s@, pos as int) == p_rows_rest(s@, cur as int, rowvs(rows@)),
        decreases s@.len() - cur,
    {
        let ghost acc0 = rowvs(rows@);
        let w = match ws1(s, cur) {
            Some(w) => w,
            None => {
                break;
            },
        };
        let (p, row) = match pixel_row(s, w) {
            Some(x) => x,
            None => {
                break;
            },
        };
        if p > cur {
            let ghost row_v = row@;
            rows.push(row);
            proof {
                assert(rowvs(rows@) =~= acc0.push(row_v));
            }
            cur = p;
        } else {
            break;
        }
    }
    (cur, rows)
}

/// Parse one pixel row.
#[verifier::loop_isolation(false)]
fn pixel_row(s: &Vec<char>, pos: usize) -> (r: Option<(usize, Vec<Pixel>)>)
    requires
        pos <= s@.len(),
    ensures
        match p_pixel_row(s@, pos as int) {
            Some((p, row)) => r matches Some(rp) && rp.0 == p && rp.1@ == row && pos <= rp.0
                <= s@.len(),
            None => r is None,
        },
{
    if !(pos < s.len() && (s[pos] == '#' || s[pos] == '.')) {
        return None;
    }
    let mut row: Vec<Pixel> = Vec::new();
    let mut cur = pos;
    proof {
        assert(row@ =~= Seq::<Pixel>::empty());
    }
    while cur < s.len() && (s[cur] == '#' || s[cur] == '.')
        invariant
            pos <= cur <= s@.len(),
            p_row_rest(s@, pos as int, Seq::empty()) == p_row_rest(s@, cur as int, row@),
        decreases s@.len() - cur,
    {
        let ghost acc0 = row@;
        if s[cur] == '#' {
            row.push(Pixel::Filled);
            proof {
                assert(row@ =~= acc0.push(Pixel::Filled));
            }
        } else {
            row.push(Pixel::Clear);
            proof {
                assert(row@ =~= acc0.push(Pixel::Clear));
            }
        }
        cur += 1;
    }
    Some((cur, row))
}

/// Parse a sprite literal into a `Sprite` value.
#[verifier::loop_isolation(false)]
pub(crate) fn sprite_expression(s: &Vec<char>, pos: usize) -> (r: Option<(usize, Sprite)>)
    requires
        pos <= s@.len(),
    ensures
        match p_sprite(s@, pos as int) {
            Some((p, sv)) => r matches Some(rp) && rp.0 == p && rp.1.spec_v() == sv && pos <= rp.0
                <= s@.len(),
            None => r is None,
        },
{
    let t = match tag(s, pos, "sprite") {
        Some(t) => t,
        None => {
            return None;
        },
    };
    let w1 = ws0(s, t);
    if !(w1 < s.len() && s[w1] == '{') {
        return None;
    }
    let w2 = ws0(s, w1 + 1);
    let (rend, rows) = sprite_rows(s, w2);
    let w3 = ws0(s, rend);
    if !(w3 < s.len() && s[w3] == '}') {
        return None;
    }
    // Validate that all rows carry the same length; a mismatch fails the
    // whole production.
    let width: usize = if rows.len() == 0 {
        0
    } else {
        rows[0].len()
    };
    let mut i: usize = 0;
    while i < rows.len()
        invariant
            i <= rows@.len(),
            forall|j: int| 0 <= j < i ==> (#[trigger] rowvs(rows@)[j]).len() == width,
            rows@.len() > 0 ==> width == rowvs(rows@)[0].len(),
        decreases rows@.len() - i,
    {
        if rows[i].len() != width {
            proof {
                assert(rowvs(rows@)[i as int].len() != rowvs(rows@)[0].len());
                assert(!rows_ok(rowvs(rows@)));
            }
            return None;
        }
        proof {
            assert(rowvs(rows@)[i as int].len() == width);
        }
        i += 1;
    }
    proof {
        assert(rows_ok(rowvs(rows@)));
    }
    // Concatenate the rows, row-major.
    let height = rows.len();
    let mut pixels: Vec<Pixel> = Vec::new();
    proof {
        assert(rowvs(rows@).subrange(0, rowvs(rows@).len() as int) =~= rowvs(rows@));
        assert(pixels@ =~= Seq::<Pixel>::empty());
        assert(pixels@ + flatten_rows(rowvs(rows@)) =~= flatten_rows(rowvs(rows@)));
    }
    let mut k: usize = 0;
    while k < rows.len()
        invariant
            k <= rows@.len(),
            flatten_rows(rowvs(rows@)) =~= pixels@ + flatten_rows(
                rowvs(rows@).subrange(k as int, rowvs(rows@).len() as int),
            ),
        decreases rows@.len() - k,
    {
        let ghost pre = pixels@;
        let ghost suffix = rowvs(rows@).subrange(k as int, rowvs(rows@).len() as int);
        let row = &rows[k];
        let mut j: usize = 0;
        while j < row.len()
            invariant
                j <= row@.len(),
                pixels@ =~= pre + row@.subrange(0, j as int),
            decreases row@.len() - j,
        {
            pixels.push(row[j]);
            j += 1;
        }
        proof {
            assert(pixels@ =~= pre + rowvs(rows@)[k as int]);
            assert(suffix[0] == rowvs(rows@)[k as int]);
            assert(suffix.drop_first() =~= rowvs(rows@).subrange(
                k + 1,
                rowvs(rows@).len() as int,
            ));
            assert(flatten_rows(suffix) == suffix[0] + flatten_rows(suffix.drop_first()));
        }
        k += 1;
    }
    proof {
        assert(rowvs(rows@).subrange(rows@.len() as int, rowvs(rows@).len() as int).len() == 0);
        assert(pixels@ =~= flatten_rows(rowvs(rows@)));
    }
    let sp = Sprite { width, height, pixels };
    proof {
        assert(sp.spec_v() =~~= p_sprite(s@, pos as int)->Some_0.1);
    }
    Some((w3 + 1, sp))
}

/// The elements of an array literal after the first, separated by commas
/// with surrounding whitespace.
pub open spec fn p_arr_rest(s: Seq<char>, pos: int, acc: Seq<ExprV>) -> (int, Seq<ExprV>)
    decreases s.len() - pos, 20int,
{
    if !(0 <= pos <= s.len()) {
        (pos, acc)
    } else {
        let w1 = p_ws0(s, pos);
        if 0 <= w1 < s.len() && s[w1] == ',' {
            let w2 = p_ws0(s, w1 + 1);
            if pos < w2 <= s.len() {
                match p_expr(s, w2) {
                    Some((p, e)) => {
                        if pos < p <= s.len() {
                            p_arr_rest(s, p, acc.push(e))
                        } else {
                            (pos, acc)
                        }
                    },
                    None => (pos, acc),
                }
            } else {
                (pos, acc)
            }
        } else {
            (pos, acc)
        }
    }
}

/// An array literal: `[a, b, c]`, possibly empty.
pub open spec fn p_array(s: Seq<char>, pos: int) -> Option<(int, ExprV)>
    decreases s.len() - pos, 6int,
{
    if 0 <= pos < s.len() && s[pos] == '[' && pos < p_ws0(s, pos + 1) <= s.len() {
        let w = p_ws0(s, pos + 1);
        let (iend, items) = (match p_expr(s, w) {
            Some((p0, e0)) => {
                if w < p0 <= s.len() {
                    p_arr_rest(s, p0, seq![e0])
                } else {
                    (w, Seq::empty())
                }
            },
            None => (w, Seq::<ExprV>::empty()),
        });
        let w2 = p_ws0(s, iend);
        if 0 <= w2 < s.len() && s[w2] == ']' {
            Some((w2 + 1, ExprV::Array(items)))
        } else {
            None
        }
    } else {
        None
    }
}

/// An atom, tried in order: `null`, `this`, `true`, `false`, a sprite
/// literal, an array literal, an identifier, an `@name` reference, a number.
pub open spec fn p_atom(s: Seq<char>, pos: int) -> Option<(int, ExprV)>
    decreases s.len() - pos, 7int,
{
    if p_tag(s, pos, "null"@) is Some {
        Some((p_tag(s, pos, "null"@)->0, ExprV::Null))
    } else if p_tag(s, pos, "this"@) is Some {
        Some((p_tag(s, pos, "this"@)->0, ExprV::This))
    } else if p_tag(s, pos, "true"@) is Some {
        Some((p_tag(s, pos, "true"@)->0, ExprV::Boolean(true)))
    } else if p_tag(s, pos, "false"@) is Some {
        Some((p_tag(s, pos, "false"@)->0, ExprV::Boolean(false)))
    } else if p_sprite(s, pos) is Some {
        let (p, sv) = p_sprite(s, pos)->0;
        Some((p, ExprV::SpriteLit(sv)))
    } else if p_array(s, pos) is Some {
        p_array(s, pos)
    } else if p_ident(s, pos) is Some {
        let (p, name) = p_ident(s, pos)->0;
        Some((p, ExprV::Ident(name)))
    } else if p_ivar_ident(s, pos) is Some {
        let (p, name) = p_ivar_ident(s, pos)->0;
        Some((p, ExprV::IVar(name)))
    } else {
        match p_number(s, pos) {
            Some((p, b)) => Some((p, ExprV::Number(b))),
            None => None,
        }
    }
}

/// The arguments of a call: expressions with surrounding whitespace,
/// separated by commas, possibly none.
pub open spec fn p_args_first(s: Seq<char>, pos: int) -> (int, Seq<ExprV>)
    decreases s.len() - pos, 20int,
{
    if !(0 <= pos <= s.len()) {
        (pos, Seq::empty())
    } else {
        let w = p_ws0(s, pos);
        if pos <= w <= s.len() {
            match p_expr(s, w) {
                Some((pe, e)) => {
                    if pos <= pe <= s.len() && pos <= p_ws0(s, pe) <= s.len() {
                        p_args_rest(s, p_ws0(s, pe), seq![e])
                    } else {
                        (pos, Seq::empty())
                    }
                },
                None => (pos, Seq::empty()),
            }
        } else {
            (pos, Seq::empty())
        }
    }
}

/// The remaining call arguments after the first.
pub open spec fn p_args_rest(s: Seq<char>, pos: int, acc: Seq<ExprV>) -> (int, Seq<ExprV>)
    decreases s.len() - pos, 19int,
{
    if !(0 <= pos <= s.len()) {
        (pos, acc)
    } else if pos < s.len() && s[pos] == ',' {
        let w = p_ws0(s, pos + 1);
        if pos < w <= s.len() {
            match p_expr(s, w) {
                Some((pe, e)) => {
                    if pos < pe <= s.len() {
                        let we = p_ws0(s, pe);
                        if pos < we <= s.len() {
                            p_args_rest(s, we, acc.push(e))
                        } else {
                            (pos, acc)
                        }
                    } else {
                        (pos, acc)
                    }
                },
                None => (pos, acc),
            }
        } else {
            (pos, acc)
        }
    } else {
        (pos, acc)
    }
}

/// One `.name(args)` link of a member-call chain.
pub open spec fn p_call_elem(s: Seq<char>, pos: int) -> Option<(int, Seq<char>, Seq<ExprV>)>
    decreases s.len() - pos, 8int,
{
    if !(0 <= pos <= s.len()) {
        None
    } else {
        let w1 = p_ws0(s, pos);
        if 0 <= w1 < s.len() && s[w1] == '.' {
            let w2 = p_ws0(s, w1 + 1);
            match p_ident(s, w2) {
                Some((iend, name)) => {
                    if w2 <= iend <= s.len() {
                        let w3 = p_ws0(s, iend);
                        if pos <= w3 < s.len() && s[w3] == '(' {
                            let (aend, args) = p_args_first(s, w3 + 1);
                            if 0 <= aend < s.len() && s[aend] == ')' {
                                Some((aend + 1, name, args))
                            } else {
                                None
                            }
                        } else {
                            None
                        }
                    } else {
                        None
                    }
                },
                None => None,
            }
        } else {
            None
        }
    }
}

/// Fold call links onto a target, left-associatively: `a.f().g()` is
/// `(a.f()).g()`.
pub open spec fn p_call_chain(s: Seq<char>, pos: int, acc: ExprV) -> (int, ExprV)
    decreases s.len() - pos, 9int,
{
    match p_call_elem(s, pos) {
        Some((p, name, args)) => {
            if pos < p <= s.len() {
                p_call_chain(
                    s,
                    p,
                    ExprV::Call { target: Box::new(acc), name, arguments: args },
                )
            } else {
                (pos, acc)
            }
        },
        None => (pos, acc),
    }
}

/// An atom followed by any member-call chain.
pub open spec fn p_call(s: Seq<char>, pos: int) -> Option<(int, ExprV)>
    decreases s.len() - pos, 10int,
{
    match p_atom(s, pos) {
        Some((p, a)) => {
            if pos <= p <= s.len() {
                Some(p_call_chain(s, p, a))
            } else {
                Some((p, a))
            }
        },
        None => None,
    }
}

/// An `echo` expression: the operand's description is emitted and the
/// operand handed back.
pub open spec fn p_echo(s: Seq<char>, pos: int) -> Option<(int, ExprV)>
    decreases s.len() - pos, 11int,
{
    match p_tag(s, pos, "echo"@) {
        Some(t) => {
            if 0 <= t <= s.len() {
                match p_ws1(s, t) {
                    Some(w) => {
                        if pos < w <= s.len() {
                            match p_expr(s, w) {
                                Some((p, e)) => Some((p, ExprV::Echo(Box::new(e)))),
                                None => None,
                            }
                        } else {
                            None
                        }
                    },
                    None => None,
                }
            } else {
                None
            }
        },
        None => None,
    }
}

/// A `spawn Name` expression.
pub open spec fn p_spawn(s: Seq<char>, pos: int) -> Option<(int, ExprV)> {
    match p_tag(s, pos, "spawn"@) {
        Some(t) => {
            if 0 <= t <= s.len() {
                match p_ws1(s, t) {
                    Some(w) => match p_ident(s, w) {
                        Some((p, name)) => Some((p, ExprV::Spawn { name })),
                        None => None,
                    },
                    None => None,
                }
            } else {
                None
            }
        },
        None => None,
    }
}

/// A `destroy expr` expression.
pub open spec fn p_destroy(s: Seq<char>, pos: int) -> Option<(int, ExprV)>
    decreases s.len() - pos, 11int,
{
    match p_tag(s, pos, "destroy"@) {
        Some(t) => {
            if 0 <= t <= s.len() {
                match p_ws1(s, t) {
                    Some(w) => {
                        if pos < w <= s.len() {
                            match p_expr(s, w) {
                                Some((p, e)) => Some((p, ExprV::Destroy(Box::new(e)))),
                                None => None,
                            }
                        } else {
                            None
                        }
                    },
                    None => None,
                }
            } else {
                None
            }
        },
        None => None,
    }
}

/// A prefix form, tried in order: `echo`, `spawn`, `destroy`, then a
/// member-call chain.
pub open spec fn p_prefix(s: Seq<char>, pos: int) -> Option<(int, ExprV)>
    decreases s.len() - pos, 12int,
{
    if p_echo(s, pos) is Some {
        p_echo(s, pos)
    } else if p_spawn(s, pos) is Some {
        p_spawn(s, pos)
    } else if p_destroy(s, pos) is Some {
        p_destroy(s, pos)
    } else {
        p_call(s, pos)
    }
}

/// A multiplicative operator.
pub open spec fn p_muldiv_op(s: Seq<char>, pos: int) -> Option<(int, BinaryOperator)> {
    if 0 <= pos < s.len() && s[pos] == '*' {
        Some((pos + 1, BinaryOperator::Multiply))
    } else if 0 <= pos < s.len() && s[pos] == '/' {
        Some((pos + 1, BinaryOperator::Divide))
    } else {
        None
    }
}

/// An additive operator.
pub open spec fn p_addsub_op(s: Seq<char>, pos: int) -> Option<(int, BinaryOperator)> {
    if 0 <= pos < s.len() && s[pos] == '+' {
        Some((pos + 1, BinaryOperator::Add))
    } else if 0 <= pos < s.len() && s[pos] == '-' {
        Some((pos + 1, BinaryOperator::Subtract))
    } else {
        None
    }
}

/// A comparison or equality operator; the two-character tokens are tried
/// before their one-character prefixes.
pub open spec fn p_cmp_op(s: Seq<char>, pos: int) -> Option<(int, BinaryOperator)> {
    if p_tag(s, pos, "=="@) is Some {
        Some((p_tag(s, pos, "=="@)->0, BinaryOperator::Equals))
    } else if p_tag(s, pos, "!="@) is Some {
        Some((p_tag(s, pos, "!="@)->0, BinaryOperator::NotEquals))
    } else if p_tag(s, pos, "<="@) is Some {
        Some((p_tag(s, pos, "<="@)->0, BinaryOperator::LessThanOrEquals))
    } else if p_tag(s, pos, ">="@) is Some {
        Some((p_tag(s, pos, ">="@)->0, BinaryOperator::GreaterThanOrEquals))
    } else if 0 <= pos < s.len() && s[pos] == '<' {
        Some((pos + 1, BinaryOperator::LessThan))
    } else if 0 <= pos < s.len() && s[pos] == '>' {
        Some((pos + 1, BinaryOperator::GreaterThan))
    } else {
        None
    }
}

/// The rest of a left-associative operator chain at one precedence level.
pub open spec fn p_chain_rest(
    s: Seq<char>,
    pos: int,
    acc: ExprV,
    level: int,
) -> (int, ExprV)
    decreases s.len() - pos, 13int,
{
    if !(0 <= pos <= s.len()) {
        (pos, acc)
    } else {
        let w1 = p_ws0(s, pos);
        let op = if level == 0 {
            p_muldiv_op(s, w1)
        } else if level == 1 {
            p_addsub_op(s, w1)
        } else if level == 2 {
            p_cmp_op(s, w1)
        } else {
            p_logic_op(s, w1)
        };
        match op {
            Some((opend, operator)) => {
                let w2 = p_ws0(s, opend);
                if !(pos < w2 <= s.len()) {
                    (pos, acc)
                } else {
                let rhs = if level == 0 {
                    p_prefix(s, w2)
                } else if level == 1 {
                    p_muldiv(s, w2)
                } else if level == 2 {
                    p_addsub(s, w2)
                } else {
                    p_cmp(s, w2)
                };
                match rhs {
                    Some((p, right)) => {
                        if pos < p <= s.len() {
                            p_chain_rest(
                                s,
                                p,
                                ExprV::BinaryOp {
                                    left: Box::new(acc),
                                    right: Box::new(right),
                                    operator,
                                },
                                level,
                            )
                        } else {
                            (pos, acc)
                        }
                    },
                    None => (pos, acc),
                }
                }
            },
            None => (pos, acc),
        }
    }
}

/// A multiplicative chain over prefix forms.
pub open spec fn p_muldiv(s: Seq<char>, pos: int) -> Option<(int, ExprV)>
    decreases s.len() - pos, 14int,
{
    match p_prefix(s, pos) {
        Some((p, e)) => {
            if pos <= p <= s.len() {
                Some(p_chain_rest(s, p, e, 0))
            } else {
                Some((p, e))
            }
        },
        None => None,
    }
}

/// An additive chain over multiplicative chains.
pub open spec fn p_addsub(s: Seq<char>, pos: int) -> Option<(int, ExprV)>
    decreases s.len() - pos, 16int,
{
    match p_muldiv(s, pos) {
        Some((p, e)) => {
            if pos <= p <= s.len() {
                Some(p_chain_rest(s, p, e, 1))
            } else {
                Some((p, e))
            }
        },
        None => None,
    }
}

/// A comparison chain over additive chains.
pub open spec fn p_cmp(s: Seq<char>, pos: int) -> Option<(int, ExprV)>
    decreases s.len() - pos, 18int,
{
    match p_addsub(s, pos) {
        Some((p, e)) => {
            if pos <= p <= s.len() {
                Some(p_chain_rest(s, p, e, 2))
            } else {
                Some((p, e))
            }
        },
        None => None,
    }
}

/// A logical operator: `and` or `or`, the lowest-binding level.
pub open spec fn p_logic_op(s: Seq<char>, pos: int) -> Option<(int, BinaryOperator)> {
    if p_tag(s, pos, "and"@) is Some && !(p_tag(s, pos, "and"@)->0 < s.len() && is_ident_char(
        s[p_tag(s, pos, "and"@)->0],
    )) {
        Some((p_tag(s, pos, "and"@)->0, BinaryOperator::And))
    } else if p_tag(s, pos, "or"@) is Some && !(p_tag(s, pos, "or"@)->0 < s.len()
        && is_ident_char(s[p_tag(s, pos, "or"@)->0])) {
        Some((p_tag(s, pos, "or"@)->0, BinaryOperator::Or))
    } else {
        None
    }
}

/// A full expression: a logical chain over comparison chains.
pub open spec fn p_expr(s: Seq<char>, pos: int) -> Option<(int, ExprV)>
    decreases s.len() - pos, 19int,
{
    match p_cmp(s, pos) {
        Some((p, e)) => {
            if pos <= p <= s.len() {
                Some(p_chain_rest(s, p, e, 3))
            } else {
                Some((p, e))
            }
        },
        None => None,
    }
}

/// Parse the elements of an array literal after the first.
#[verifier::loop_isolation(false)]
fn arr_rest(s: &Vec<char>, pos: usize, first: Expression) -> (r: (usize, Vec<Expression>))
    requires
        pos <= s@.len(),
    ensures
        ({
            let (p, items) = p_arr_rest(s@, pos as int, seq![expr_v(first)]);
            r.0 == p && crate::ast::exprs_v(r.1@) == items && pos <= r.0 <= s@.len()
        }),
    decreases s@.len() - pos, 21int,
{
    broadcast use crate::ast::group_ast_views;

    let ghost acc0 = seq![expr_v(first)];
    let mut items: Vec<Expression> = Vec::new();
    items.push(first);
    proof {
        crate::ast::lemma_exprs_v(items@);
        assert(crate::ast::exprs_v(items@) =~= acc0);
    }
    let mut cur = pos;
    loop
        invariant
            pos <= cur <= s@.len(),
            p_arr_rest(s@, pos as int, acc0) == p_arr_rest(
                s@,
                cur as int,
                crate::ast::exprs_v(items@),
            ),
        decreases s@.len() - cur,
    {
        let ghost acc_cur = crate::ast::exprs_v(items@);
        let w1 = ws0(s, cur);
        if !(w1 < s.len() && s[w1] == ',') {
            break;
        }
        let w2 = ws0(s, w1 + 1);
        if !(cur < w2) {
            break;
        }
        match expr(s, w2) {
            Some((p, e)) => {
                if cur < p {
                    let ghost ev = expr_v(e);
                    proof {
                        crate::ast::lemma_exprs_v(items@);
                    }
                    items.push(e);
                    proof {
                        crate::ast::lemma_exprs_v(items@);
                        assert(crate::ast::exprs_v(items@) =~= acc_cur.push(ev));
                    }
                    cur = p;
                } else {
                    break;
                }
            },
            None => {
                break;
            },
        }
    }
    (cur, items)
}

/// Parse an array literal.
fn array_expression(s: &Vec<char>, pos: usize) -> (r: Option<(usize, Expression)>)
    requires
        pos <= s@.len(),
    ensures
        match p_array(s@, pos as int) {
            Some((p, ev)) => r matches Some(rp) && rp.0 == p && expr_v(rp.1) == ev
                && pos <= rp.0 <= s@.len(),
            None => r is None,
        },
    decreases s@.len() - pos, 6int,
{
    broadcast use crate::ast::group_ast_views;

    if !(pos < s.len() && s[pos] == '[') {
        return None;
    }
    let w = ws0(s, pos + 1);
    let (iend, items) = (match expr(s, w) {
        Some((p0, e0)) => {
            if w < p0 {
                arr_rest(s, p0, e0)
            } else {
                (w, Vec::new())
            }
        },
        None => (w, Vec::<Expression>::new()),
    });
    proof {
        crate::ast::lemma_exprs_v(items@);
    }
    let w2 = ws0(s, iend);
    if w2 < s.len() && s[w2] == ']' {
        let r = Expression::ArrayLiteral(items);
        proof {
            if crate::ast::exprs_v(r->ArrayLiteral_0@).len() == 0 {
                assert(crate::ast::exprs_v(r->ArrayLiteral_0@) =~= Seq::<ExprV>::empty());
            }
        }
        Some((w2 + 1, r))
    } else {
        None
    }
}

/// Parse an atom.
fn atom_expression(s: &Vec<char>, pos: usize) -> (r: Option<(usize, Expression)>)
    requires
        pos <= s@.len(),
    ensures
        match p_atom(s@, pos as int) {
            Some((p, ev)) => r matches Some(rp) && rp.0 == p && expr_v(rp.1) == ev
                && pos <= rp.0 <= s@.len(),
            None => r is None,
        },
    decreases s@.len() - pos, 7int,
{
    if let Some(t) = tag(s, pos, "null") {
        return Some((t, Expression::NullLiteral));
    }
    if let Some(t) = tag(s, pos, "this") {
        return Some((t, Expression::ThisLiteral));
    }
    if let Some(t) = tag(s, pos, "true") {
        return Some((t, Expression::BooleanLiteral(true)));
    }
    if let Some(t) = tag(s, pos, "false") {
        return Some((t, Expression::BooleanLiteral(false)));
    }
    if let Some((p, sp)) = sprite_expression(s, pos) {
        return Some((p, Expression::SpriteLiteral(sp)));
    }
    proof {
        assert(p_sprite(s@, pos as int) is None);
    }
    if let Some((p, a)) = array_expression(s, pos) {
        return Some((p, a));
    }
    if let Some((p, name)) = ident(s, pos) {
        return Some((p, Expression::Identifier(name)));
    }
    if let Some((p, name)) = ivar_ident(s, pos) {
        return Some((p, Expression::InstanceVarIdentifier(name)));
    }
    match number(s, pos) {
        Some((p, b)) => Some((p, Expression::NumberLiteral(b))),
        None => None,
    }
}

/// Parse the arguments of one call.
#[verifier::loop_isolation(false)]
fn call_args(s: &Vec<char>, pos: usize) -> (r: (usize, Vec<Expression>))
    requires
        pos <= s@.len(),
    ensures
        ({
            let (p, args) = p_args_first(s@, pos as int);
            r.0 == p && crate::ast::exprs_v(r.1@) == args && pos <= r.0 <= s@.len()
        }),
    decreases s@.len() - pos, 20int,
{
    broadcast use crate::ast::group_ast_views;

    let mut args: Vec<Expression> = Vec::new();
    let w = ws0(s, pos);
    let (pe, e0) = match expr(s, w) {
        Some(x) => x,
        None => {
            proof {
                assert(crate::ast::exprs_v(args@) =~= Seq::<ExprV>::empty());
            }
            return (pos, args);
        },
    };
    let ghost e0v = expr_v(e0);
    args.push(e0);
    proof {
        crate::ast::lemma_exprs_v(args@);
        assert(crate::ast::exprs_v(args@) =~= seq![e0v]);
    }
    let mut cur = ws0(s, pe);
    let ghost acc0 = seq![e0v];
    loop
        invariant
            pos <= cur <= s@.len(),
            p_args_rest(s@, p_ws0(s@, pe as int), acc0) == p_args_rest(
                s@,
                cur as int,
                crate::ast::exprs_v(args@),
            ),
        decreases s@.len() - cur,
    {
        let ghost acc_cur = crate::ast::exprs_v(args@);
        if !(cur < s.len() && s[cur] == ',') {
            break;
        }
        let w1 = ws0(s, cur + 1);
        if !(cur < w1) {
            break;
        }
        match expr(s, w1) {
            Some((pe2, e)) => {
                if !(cur < pe2) {
                    break;
                }
                let we = ws0(s, pe2);
                if cur < we {
                    let ghost ev = expr_v(e);
                    proof {
                        crate::ast::lemma_exprs_v(args@);
                    }
                    args.push(e);
                    proof {
                        crate::ast::lemma_exprs_v(args@);
                        assert(crate::ast::exprs_v(args@) =~= acc_cur.push(ev));
                    }
                    cur = we;
                } else {
                    break;
                }
            },
            None => {
                break;
            },
        }
    }
    (cur, args)
}

/// Parse one `.name(args)` link.
fn call_elem(s: &Vec<char>, pos: usize) -> (r: Option<(usize, String, Vec<Expression>)>)
    requires
        pos <= s@.len(),
    ensures
        match p_call_elem(s@, pos as int) {
            Some((p, name, args)) => r matches Some(rp) && rp.0 == p && rp.1@ == name
                && crate::ast::exprs_v(rp.2@) == args && pos <= rp.0 <= s@.len(),
            None => r is None,
        },
    decreases s@.len() - pos, 8int,
{
    let w1 = ws0(s, pos);
    if !(w1 < s.len() && s[w1] == '.') {
        return None;
    }
    let w2 = ws0(s, w1 + 1);
    let (iend, name) = match ident(s, w2) {
        Some(x) => x,
        None => {
            return None;
        },
    };
    let w3 = ws0(s, iend);
    if !(w3 < s.len() && s[w3] == '(') {
        return None;
    }
    let (aend, args) = call_args(s, w3 + 1);
    if aend < s.len() && s[aend] == ')' {
        Some((aend + 1, name, args))
    } else {
        None
    }
}

/// Parse an atom followed by its member-call chain.
#[verifier::loop_isolation(false)]
fn call_expression(s: &Vec<char>, pos: usize) -> (r: Option<(usize, Expression)>)
    requires
        pos <= s@.len(),
    ensures
        match p_call(s@, pos as int) {
            Some((p, ev)) => r matches Some(rp) && rp.0 == p && expr_v(rp.1) == ev
                && pos <= rp.0 <= s@.len(),
            None => r is None,
        },
    decreases s@.len() - pos, 10int,
{
    let (p0, a) = match atom_expression(s, pos) {
        Some(x) => x,
        None => {
            return None;
        },
    };
    let ghost acc0 = expr_v(a);
    let mut e = a;
    let mut cur = p0;
    loop
        invariant
            pos <= cur <= s@.len(),
            p_call_chain(s@, p0 as int, acc0) == p_call_chain(
                s@,
                cur as int,
                expr_v(e),
            ),
        decreases s@.len() - cur,
    {
        match call_elem(s, cur) {
            Some((p, name, args)) => {
                if cur < p {
                    e = Expression::FunctionCall { target: Box::new(e), name, arguments: args };
                    cur = p;
                } else {
                    break;
                }
            },
            None => {
                break;
            },
        }
    }
    Some((cur, e))
}

/// Parse an `echo` expression.
fn echo_expression(s: &Vec<char>, pos: usize) -> (r: Option<(usize, Expression)>)
    requires
        pos <= s@.len(),
    ensures
        match p_echo(s@, pos as int) {
            Some((p, ev)) => r matches Some(rp) && rp.0 == p && expr_v(rp.1) == ev
                && pos <= rp.0 <= s@.len(),
            None => r is None,
        },
    decreases s@.len() - pos, 11int,
{
    let t = match tag(s, pos, "echo") {
        Some(t) => t,
        None => {
            return None;
        },
    };
    let w = match ws1(s, t) {
        Some(w) => w,
        None => {
            return None;
        },
    };
    if !(pos < w) {
        return None;
    }
    match expr(s, w) {
        Some((p, e)) => Some((p, Expression::Echo(Box::new(e)))),
        None => None,
    }
}

/// Parse a `spawn Name` expression.
fn spawn_expression(s: &Vec<char>, pos: usize) -> (r: Option<(usize, Expression)>)
    requires
        pos <= s@.len(),
    ensures
        match p_spawn(s@, pos as int) {
            Some((p, ev)) => r matches Some(rp) && rp.0 == p && expr_v(rp.1) == ev
                && pos <= rp.0 <= s@.len(),
            None => r is None,
        },
{
    let t = match tag(s, pos, "spawn") {
        Some(t) => t,
        None => {
            return None;
        },
    };
    let w = match ws1(s, t) {
        Some(w) => w,
        None => {
            return None;
        },
    };
    match ident(s, w) {
        Some((p, name)) => Some((p, Expression::SpawnEntity { name })),
        None => None,
    }
}

/// Parse a `destroy expr` expression.
fn destroy_expression(s: &Vec<char>, pos: usize) -> (r: Option<(usize, Expression)>)
    requires
        pos <= s@.len(),
    ensures
        match p_destroy(s@, pos as int) {
            Some((p, ev)) => r matches Some(rp) && rp.0 == p && expr_v(rp.1) == ev
                && pos <= rp.0 <= s@.len(),
            None => r is None,
        },
    decreases s@.len() - pos, 11int,
{
    let t = match tag(s, pos, "destroy") {
        Some(t) => t,
        None => {
            return None;
        },
    };
    let w = match ws1(s, t) {
        Some(w) => w,
        None => {
            return None;
        },
    };
    if !(pos < w) {
        return None;
    }
    match expr(s, w) {
        Some((p, e)) => Some((p, Expression::DestroyEntity(Box::new(e)))),
        None => None,
    }
}

/// Parse a prefix form.
fn prefix_expression(s: &Vec<char>, pos: usize) -> (r: Option<(usize, Expression)>)
    requires
        pos <= s@.len(),
    ensures
        match p_prefix(s@, pos as int) {
            Some((p, ev)) => r matches Some(rp) && rp.0 == p && expr_v(rp.1) == ev
                && pos <= rp.0 <= s@.len(),
            None => r is None,
        },
    decreases s@.len() - pos, 12int,
{
    if let Some(x) = echo_expression(s, pos) {
        return Some(x);
    }
    if let Some(x) = spawn_expression(s, pos) {
        return Some(x);
    }
    if let Some(x) = destroy_expression(s, pos) {
        return Some(x);
    }
    call_expression(s, pos)
}

/// Parse a multiplicative operator.
fn muldiv_op(s: &Vec<char>, pos: usize) -> (r: Option<(usize, BinaryOperator)>)
    requires
        pos <= s@.len(),
    ensures
        match p_muldiv_op(s@, pos as int) {
            Some((p, op)) => r matches Some(rp) && rp.0 == p && rp.1 == op && rp.0 <= s@.len(),
            None => r is None,
        },
{
    if pos < s.len() && s[pos] == '*' {
        Some((pos + 1, BinaryOperator::Multiply))
    } else if pos < s.len() && s[pos] == '/' {
        Some((pos + 1, BinaryOperator::Divide))
    } else {
        None
    }
}

/// Parse an additive operator.
fn addsub_op(s: &Vec<char>, pos: usize) -> (r: Option<(usize, BinaryOperator)>)
    requires
        pos <= s@.len(),
    ensures
        match p_addsub_op(s@, pos as int) {
            Some((p, op)) => r matches Some(rp) && rp.0 == p && rp.1 == op && rp.0 <= s@.len(),
            None => r is None,
        },
{
    if pos < s.len() && s[pos] == '+' {
        Some((pos + 1, BinaryOperator::Add))
    } else if pos < s.len() && s[pos] == '-' {
        Some((pos + 1, BinaryOperator::Subtract))
    } else {
        None
    }
}

/// Parse a comparison operator.
fn cmp_op(s: &Vec<char>, pos: usize) -> (r: Option<(usize, BinaryOperator)>)
    requires
        pos <= s@.len(),
    ensures
        match p_cmp_op(s@, pos as int) {
            Some((p, op)) => r matches Some(rp) && rp.0 == p && rp.1 == op && rp.0 <= s@.len(),
            None => r is None,
        },
{
    if let Some(t) = tag(s, pos, "==") {
        return Some((t, BinaryOperator::Equals));
    }
    if let Some(t) = tag(s, pos, "!=") {
        return Some((t, BinaryOperator::NotEquals));
    }
    if let Some(t) = tag(s, pos, "<=") {
        return Some((t, BinaryOperator::LessThanOrEquals));
    }
    if let Some(t) = tag(s, pos, ">=") {
        return Some((t, BinaryOperator::GreaterThanOrEquals));
    }
    if pos < s.len() && s[pos] == '<' {
        return Some((pos + 1, BinaryOperator::LessThan));
    }
    if pos < s.len() && s[pos] == '>' {
        return Some((pos + 1, BinaryOperator::GreaterThan));
    }
    None
}

/// Parse a logical operator; the keyword must not run into an identifier
/// (`b ordinal` holds no `or`).
fn logic_op(s: &Vec<char>, pos: usize) -> (r: Option<(usize, BinaryOperator)>)
    requires
        pos <= s@.len(),
    ensures
        match p_logic_op(s@, pos as int) {
            Some((p, op)) => r matches Some(rp) && rp.0 == p && rp.1 == op && rp.0 <= s@.len(),
            None => r is None,
        },
{
    if let Some(t) = tag(s, pos, "and") {
        if !(t < s.len() && (alnum_char(s[t]) || s[t] == '_')) {
            return Some((t, BinaryOperator::And));
        }
    }
    if let Some(t) = tag(s, pos, "or") {
        if !(t < s.len() && (alnum_char(s[t]) || s[t] == '_')) {
            return Some((t, BinaryOperator::Or));
        }
    }
    None
}

/// Fold one precedence level's operator chain onto a first operand.
#[verifier::loop_isolation(false)]
fn chain_rest(s: &Vec<char>, pos: usize, acc: Expression, level: usize) -> (r: (
    usize,
    Expression,
))
    requires
        pos <= s@.len(),
        level <= 3,
    ensures
        ({
            let (p, ev) = p_chain_rest(s@, pos as int, expr_v(acc), level as int);
            r.0 == p && expr_v(r.1) == ev && pos <= r.0 <= s@.len()
        }),
    decreases s@.len() - pos, 13int,
{
    let ghost acc0 = expr_v(acc);
    let mut e = acc;
    let mut cur = pos;
    loop
        invariant
            pos <= cur <= s@.len(),
            level <= 3,
            p_chain_rest(s@, pos as int, acc0, level as int) == p_chain_rest(
                s@,
                cur as int,
                expr_v(e),
                level as int,
            ),
        decreases s@.len() - cur,
    {
        let w1 = ws0(s, cur);
        let op = if level == 0 {
            muldiv_op(s, w1)
        } else if level == 1 {
            addsub_op(s, w1)
        } else if level == 2 {
            cmp_op(s, w1)
        } else {
            logic_op(s, w1)
        };
        let (opend, operator) = match op {
            Some(x) => x,
            None => {
                break;
            },
        };
        let w2 = ws0(s, opend);
        if !(cur < w2) {
            break;
        }
        let rhs = if level == 0 {
            prefix_expression(s, w2)
        } else if level == 1 {
            muldiv_expression(s, w2)
        } else if level == 2 {
            addsub_expression(s, w2)
        } else {
            cmp_expression(s, w2)
        };
        match rhs {
            Some((p, right)) => {
                if cur < p {
                    e = Expression::BinaryOperation {
                        left: Box::new(e),
                        right: Box::new(right),
                        operator,
                    };
                    cur = p;
                } else {
                    break;
                }
            },
            None => {
                break;
            },
        }
    }
    (cur, e)
}

/// Parse a multiplicative chain.
fn muldiv_expression(s: &Vec<char>, pos: usize) -> (r: Option<(usize, Expression)>)
    requires
        pos <= s@.len(),
    ensures
        match p_muldiv(s@, pos as int) {
            Some((p, ev)) => r matches Some(rp) && rp.0 == p && expr_v(rp.1) == ev
                && pos <= rp.0 <= s@.len(),
            None => r is None,
        },
    decreases s@.len() - pos, 14int,
{
    match prefix_expression(s, pos) {
        Some((p, e)) => Some(chain_rest(s, p, e, 0)),
        None => None,
    }
}

/// Parse an additive chain.
fn addsub_expression(s: &Vec<char>, pos: usize) -> (r: Option<(usize, Expression)>)
    requires
        pos <= s@.len(),
    ensures
        match p_addsub(s@, pos as int) {
            Some((p, ev)) => r matches Some(rp) && rp.0 == p && expr_v(rp.1) == ev
                && pos <= rp.0 <= s@.len(),
            None => r is None,
        },
    decreases s@.len() - pos, 16int,
{
    match muldiv_expression(s, pos) {
        Some((p, e)) => Some(chain_rest(s, p, e, 1)),
        None => None,
    }
}

/// Parse a comparison chain.
fn cmp_expression(s: &Vec<char>, pos: usize) -> (r: Option<(usize, Expression)>)
    requires
        pos <= s@.len(),
    ensures
        match p_cmp(s@, pos as int) {
            Some((p, ev)) => r matches Some(rp) && rp.0 == p && expr_v(rp.1) == ev
                && pos <= rp.0 <= s@.len(),
            None => r is None,
        },
    decreases s@.len() - pos, 18int,
{
    match addsub_expression(s, pos) {
        Some((p, e)) => Some(chain_rest(s, p, e, 2)),
        None => None,
    }
}

/// Parse a full expression.
pub(crate) fn expr(s: &Vec<char>, pos: usize) -> (r: Option<(usize, Expression)>)
    requires
        pos <= s@.len(),
    ensures
        match p_expr(s@, pos as int) {
            Some((p, ev)) => r matches Some(rp) && rp.0 == p && expr_v(rp.1) == ev
                && pos <= rp.0 <= s@.len(),
            None => r is None,
        },
    decreases s@.len() - pos, 19int,
{
    match cmp_expression(s, pos) {
        Some((p, e)) => Some(chain_rest(s, p, e, 3)),
        None => None,
    }
}

} // verus!
