//! What the grammar guarantees: every expression tree is read back from its
//! fully parenthesised text, and the operators group and bind as the grammar
//! says (subtraction to the left, power to the right, signs tighter than
//! powers, products tighter than sums).
use vstd::prelude::*;
use crate::expr::{
    BinOp, ExprModel, Parsed, is_blank, is_number_char, lemma_number_end, number_end,
    parse_expr, parse_expr_rest, parse_factor, parse_from, parse_power, parse_term,
    parse_term_rest, skip_blanks, valid_number, expr_op, term_op, lemma_skip_blanks,
};

verus! {

/// A tree the parser can produce: its numbers are valid literals.
pub open spec fn well_formed(e: ExprModel) -> bool
    decreases e,
{
    match e {
        ExprModel::Number(t) => t.len() > 0 && (forall|k: int|
            0 <= k < t.len() ==> is_number_char(#[trigger] t[k])) && valid_number(t),
        ExprModel::Neg(a) => well_formed(*a),
        ExprModel::Binary(_, a, b) => well_formed(*a) && well_formed(*b),
    }
}

pub open spec fn op_char(op: BinOp) -> char {
    match op {
        BinOp::Add => '+',
        BinOp::Sub => '-',
        BinOp::Mul => '*',
        BinOp::Div => '/',
        BinOp::Rem => '%',
        BinOp::Pow => '^',
    }
}

pub open spec fn paren(t: Seq<char>) -> Seq<char> {
    seq!['('] + t + seq![')']
}

/// The text of a tree with every operand in parentheses: `-(a)` and
/// `(a)+(b)`.
pub open spec fn render(e: ExprModel) -> Seq<char>
    decreases e,
{
    match e {
        ExprModel::Number(t) => t,
        ExprModel::Neg(a) => seq!['-'] + paren(render(*a)),
        ExprModel::Binary(op, a, b) => paren(render(*a)) + seq![op_char(op)] + paren(render(*b)),
    }
}

/// Position `k` ends a rendered tree: the input ends there or a `)` follows.
pub open spec fn stop_at(s: Seq<char>, k: int) -> bool {
    k == s.len() || (0 <= k < s.len() && s[k] == ')')
}

/// `s` holds `t` from position `i`.
pub open spec fn holds_at(s: Seq<char>, i: int, t: Seq<char>) -> bool {
    0 <= i && i + t.len() <= s.len() && s.subrange(i, i + t.len()) == t
}

proof fn lemma_holds_split(s: Seq<char>, i: int, x: Seq<char>, y: Seq<char>)
    requires
        holds_at(s, i, x + y),
    ensures
        holds_at(s, i, x),
        holds_at(s, i + x.len(), y),
{
    let n = x.len() + y.len();
    let whole = s.subrange(i, i + n);
    assert(whole == x + y);
    assert forall|k: int| 0 <= k < x.len() implies #[trigger] s.subrange(i, i + x.len())[k]
        == x[k] by {
        assert(whole[k] == s[i + k]);
        assert((x + y)[k] == x[k]);
    }
    assert(s.subrange(i, i + x.len()) =~= x);
    assert forall|k: int| 0 <= k < y.len() implies #[trigger] s.subrange(
        i + x.len(),
        i + x.len() + y.len(),
    )[k] == y[k] by {
        assert(whole[x.len() + k] == s[i + x.len() + k]);
        assert((x + y)[x.len() + k] == y[k]);
    }
    assert(s.subrange(i + x.len(), i + x.len() + y.len()) =~= y);
}

proof fn lemma_holds_char(s: Seq<char>, i: int, t: Seq<char>, k: int)
    requires
        holds_at(s, i, t),
        0 <= k < t.len(),
    ensures
        s[i + k] == t[k],
{
    assert(s.subrange(i, i + t.len())[k] == s[i + k]);
}

proof fn lemma_render_shape(e: ExprModel)
    requires
        well_formed(e),
    ensures
        render(e).len() > 0,
        !is_blank(render(e)[0]),
        render(e)[0] != ')',
        e is Number ==> is_number_char(render(e)[0]),
        e is Neg ==> render(e)[0] == '-',
        e is Binary ==> render(e)[0] == '(',
{
}

proof fn lemma_skip_at_nonblank(s: Seq<char>, k: int)
    requires
        0 <= k <= s.len(),
        k == s.len() || !is_blank(s[k]),
    ensures
        skip_blanks(s, k) == k,
{
}

/// A parenthesised tree reads as a factor.
proof fn lemma_atom(e: ExprModel, s: Seq<char>, i: int)
    requires
        well_formed(e),
        holds_at(s, i, paren(render(e))),
    ensures
        parse_factor(s, i) == Parsed::Done(e, i + render(e).len() + 2),
    decreases e, 2int,
{
    let r = render(e);
    lemma_holds_split(s, i, seq!['('] + r, seq![')']);
    lemma_holds_split(s, i, seq!['('], r);
    lemma_holds_char(s, i, seq!['('], 0);
    let end = i + 1 + r.len();
    lemma_holds_char(s, end, seq![')'], 0);
    lemma_skip_at_nonblank(s, i);
    lemma_expr(e, s, i + 1);
    lemma_skip_at_nonblank(s, end);
}

/// A number or a negation reads as a factor.
proof fn lemma_primary(e: ExprModel, s: Seq<char>, i: int)
    requires
        well_formed(e),
        !(e is Binary),
        holds_at(s, i, render(e)),
        stop_at(s, i + render(e).len()),
    ensures
        parse_factor(s, i) == Parsed::Done(e, i + render(e).len()),
    decreases e, 0int,
{
    let r = render(e);
    lemma_render_shape(e);
    lemma_holds_char(s, i, r, 0);
    lemma_skip_at_nonblank(s, i);
    match e {
        ExprModel::Number(t) => {
            assert forall|k: int| i <= k < i + t.len() implies is_number_char(#[trigger] s[k]) by {
                lemma_holds_char(s, i, t, k - i);
            }
            lemma_number_end(s, i);
            let ne = number_end(s, i);
            if ne < i + t.len() {
                assert(is_number_char(s[ne]));
            }
            if ne > i + t.len() {
                assert(is_number_char(s[i + t.len()]));
            }
            assert(ne == i + t.len());
        },
        ExprModel::Neg(a) => {
            lemma_holds_split(s, i, seq!['-'], paren(render(*a)));
            lemma_atom(*a, s, i + 1);
        },
        ExprModel::Binary(_, _, _) => {},
    }
}

/// A factor followed by a stop reads the same as a whole expression.
proof fn lemma_lift(e: ExprModel, s: Seq<char>, i: int, end: int)
    requires
        parse_factor(s, i) == Parsed::Done(e, end),
        0 <= i <= end,
        stop_at(s, end),
    ensures
        parse_power(s, i) == Parsed::Done(e, end),
        parse_term(s, i) == Parsed::Done(e, end),
        parse_expr(s, i) == Parsed::Done(e, end),
{
    lemma_skip_at_nonblank(s, end);
    assert(parse_term_rest(s, end, e) == Parsed::Done(e, end));
    assert(parse_expr_rest(s, end, e) == Parsed::Done(e, end));
}

/// A rendered tree followed by a stop reads as an expression.
proof fn lemma_expr(e: ExprModel, s: Seq<char>, i: int)
    requires
        well_formed(e),
        holds_at(s, i, render(e)),
        stop_at(s, i + render(e).len()),
    ensures
        parse_expr(s, i) == Parsed::Done(e, i + render(e).len()),
    decreases e, 1int,
{
    let r = render(e);
    let end = i + r.len();
    match e {
        ExprModel::Binary(op, a, b) => {
            let ra = paren(render(*a));
            let rb = paren(render(*b));
            let p = i + ra.len();
            lemma_holds_split(s, i, ra + seq![op_char(op)], rb);
            lemma_holds_split(s, i, ra, seq![op_char(op)]);
            lemma_holds_char(s, p, seq![op_char(op)], 0);
            lemma_atom(*a, s, i);
            lemma_atom(*b, s, p + 1);
            lemma_skip_at_nonblank(s, p);
            lemma_skip_at_nonblank(s, end);
            let ea = *a;
            let eb = *b;
            let whole = ExprModel::Binary(op, Box::new(ea), Box::new(eb));
            assert(whole == e);
            if op == BinOp::Pow {
                assert(parse_power(s, p + 1) == Parsed::Done(eb, end));
                assert(parse_power(s, i) == Parsed::Done(e, end));
                assert(parse_term_rest(s, end, e) == Parsed::Done(e, end));
                assert(parse_term(s, i) == Parsed::Done(e, end));
                assert(parse_expr_rest(s, end, e) == Parsed::Done(e, end));
            } else if term_op(op_char(op)) is Some {
                assert(term_op(op_char(op)) == Some(op));
                assert(parse_power(s, i) == Parsed::Done(ea, p));
                assert(parse_power(s, p + 1) == Parsed::Done(eb, end));
                assert(parse_term_rest(s, end, e) == Parsed::Done(e, end));
                assert(parse_term_rest(s, p, ea) == Parsed::Done(e, end));
                assert(parse_term(s, i) == Parsed::Done(e, end));
                assert(parse_expr_rest(s, end, e) == Parsed::Done(e, end));
            } else {
                assert(expr_op(op_char(op)) == Some(op));
                assert(parse_power(s, i) == Parsed::Done(ea, p));
                assert(parse_term_rest(s, p, ea) == Parsed::Done(ea, p));
                assert(parse_term(s, i) == Parsed::Done(ea, p));
                lemma_lift(eb, s, p + 1, end);
                assert(parse_term(s, p + 1) == Parsed::Done(eb, end));
                assert(parse_expr_rest(s, end, e) == Parsed::Done(e, end));
                assert(parse_expr_rest(s, p, ea) == Parsed::Done(e, end));
            }
        },
        _ => {
            lemma_primary(e, s, i);
            lemma_lift(e, s, i, end);
        },
    }
}

/// Every tree the parser can produce is read back from its fully
/// parenthesised text: the grammar is unambiguous and the parser builds the
/// tree that the text writes.
pub proof fn lemma_parse_render(e: ExprModel)
    requires
        well_formed(e),
    ensures
        parse_from(render(e), 0) == Ok::<ExprModel, (Seq<ExprModel>, Seq<char>)>(e),
{
    let s = render(e);
    assert(s.subrange(0, s.len() as int) =~= s);
    lemma_expr(e, s, 0);
    lemma_skip_at_nonblank(s, s.len() as int);
}

/// A factor followed by a character that is neither a blank nor `^` is a
/// whole power.
proof fn lemma_power_stops(s: Seq<char>, i: int, x: ExprModel, k: int)
    requires
        parse_factor(s, i) == Parsed::Done(x, k),
        0 <= i <= k < s.len(),
        !is_blank(s[k]),
        s[k] != '^',
    ensures
        parse_power(s, i) == Parsed::Done(x, k),
{
    lemma_skip_at_nonblank(s, k);
}

/// A power followed by a character that is neither a blank nor `*`, `/`,
/// `%` is a whole term.
proof fn lemma_term_stops(s: Seq<char>, i: int, x: ExprModel, k: int)
    requires
        parse_power(s, i) == Parsed::Done(x, k),
        0 <= i <= k < s.len(),
        !is_blank(s[k]),
        term_op(s[k]) is None,
    ensures
        parse_term(s, i) == Parsed::Done(x, k),
{
    lemma_skip_at_nonblank(s, k);
    assert(parse_term_rest(s, k, x) == Parsed::Done(x, k));
}

/// A term that ends the input is a whole expression and a whole input.
proof fn lemma_ends_input(s: Seq<char>, i: int, x: ExprModel)
    requires
        parse_term(s, i) == Parsed::Done(x, s.len() as int),
        0 <= i <= s.len(),
    ensures
        parse_expr(s, i) == Parsed::Done(x, s.len() as int),
        i == 0 ==> parse_from(s, 0) == Ok::<ExprModel, (Seq<ExprModel>, Seq<char>)>(x),
{
    lemma_skip_at_nonblank(s, s.len() as int);
    assert(parse_expr_rest(s, s.len() as int, x) == Parsed::Done(x, s.len() as int));
}

proof fn lemma_whole(s: Seq<char>)
    ensures
        holds_at(s, 0, s),
{
    assert(s.subrange(0, s.len() as int) =~= s);
}

/// Subtraction groups to the left: `(a)-(b)-(c)` is `((a)-(b))-(c)`.
#[verifier::rlimit(40)]
pub proof fn lemma_sub_groups_left(a: ExprModel, b: ExprModel, c: ExprModel)
    requires
        well_formed(a),
        well_formed(b),
        well_formed(c),
    ensures
        parse_from(
            paren(render(a)) + seq!['-'] + paren(render(b)) + seq!['-'] + paren(render(c)),
            0,
        ) == Ok::<ExprModel, (Seq<ExprModel>, Seq<char>)>(ExprModel::Binary(
            BinOp::Sub,
            Box::new(ExprModel::Binary(BinOp::Sub, Box::new(a), Box::new(b))),
            Box::new(c),
        )),
{
    let (ta, tb, tc) = (paren(render(a)), paren(render(b)), paren(render(c)));
    let m = seq!['-'];
    let s = ta + m + tb + m + tc;
    let p1 = ta.len() as int;
    let p2 = p1 + 1 + tb.len() as int;
    let end = s.len() as int;
    lemma_whole(s);
    lemma_holds_split(s, 0, ta + m + tb + m, tc);
    lemma_holds_split(s, 0, ta + m + tb, m);
    lemma_holds_split(s, 0, ta + m, tb);
    lemma_holds_split(s, 0, ta, m);
    lemma_holds_char(s, p1, m, 0);
    lemma_holds_char(s, p2, m, 0);
    lemma_atom(a, s, 0);
    lemma_atom(b, s, p1 + 1);
    lemma_atom(c, s, p2 + 1);
    let ab = ExprModel::Binary(BinOp::Sub, Box::new(a), Box::new(b));
    let whole = ExprModel::Binary(BinOp::Sub, Box::new(ab), Box::new(c));
    lemma_power_stops(s, 0, a, p1);
    lemma_term_stops(s, 0, a, p1);
    lemma_power_stops(s, p1 + 1, b, p2);
    lemma_term_stops(s, p1 + 1, b, p2);
    lemma_lift(c, s, p2 + 1, end);
    lemma_skip_at_nonblank(s, p1);
    lemma_skip_at_nonblank(s, p2);
    lemma_skip_at_nonblank(s, end);
    assert(expr_op(s[p1]) == Some(BinOp::Sub));
    assert(parse_expr_rest(s, end, whole) == Parsed::Done(whole, end));
    assert(parse_expr_rest(s, p2, ab) == Parsed::Done(whole, end));
    assert(parse_expr_rest(s, p1, a) == Parsed::Done(whole, end));
    assert(parse_expr(s, 0) == Parsed::Done(whole, end));
}

/// Power groups to the right: `(a)^(b)^(c)` is `(a)^((b)^(c))`.
pub proof fn lemma_pow_groups_right(a: ExprModel, b: ExprModel, c: ExprModel)
    requires
        well_formed(a),
        well_formed(b),
        well_formed(c),
    ensures
        parse_from(
            paren(render(a)) + seq!['^'] + paren(render(b)) + seq!['^'] + paren(render(c)),
            0,
        ) == Ok::<ExprModel, (Seq<ExprModel>, Seq<char>)>(ExprModel::Binary(
            BinOp::Pow,
            Box::new(a),
            Box::new(ExprModel::Binary(BinOp::Pow, Box::new(b), Box::new(c))),
        )),
{
    let (ta, tb, tc) = (paren(render(a)), paren(render(b)), paren(render(c)));
    let m = seq!['^'];
    let s = ta + m + tb + m + tc;
    let p1 = ta.len() as int;
    let p2 = p1 + 1 + tb.len() as int;
    let end = s.len() as int;
    lemma_whole(s);
    lemma_holds_split(s, 0, ta + m + tb + m, tc);
    lemma_holds_split(s, 0, ta + m + tb, m);
    lemma_holds_split(s, 0, ta + m, tb);
    lemma_holds_split(s, 0, ta, m);
    lemma_holds_char(s, p1, m, 0);
    lemma_holds_char(s, p2, m, 0);
    lemma_atom(a, s, 0);
    lemma_atom(b, s, p1 + 1);
    lemma_atom(c, s, p2 + 1);
    let bc = ExprModel::Binary(BinOp::Pow, Box::new(b), Box::new(c));
    let whole = ExprModel::Binary(BinOp::Pow, Box::new(a), Box::new(bc));
    lemma_skip_at_nonblank(s, p1);
    lemma_skip_at_nonblank(s, p2);
    lemma_skip_at_nonblank(s, end);
    assert(parse_power(s, p2 + 1) == Parsed::Done(c, end));
    assert(parse_power(s, p1 + 1) == Parsed::Done(bc, end));
    assert(parse_power(s, 0) == Parsed::Done(whole, end));
    assert(parse_term_rest(s, end, whole) == Parsed::Done(whole, end));
    lemma_ends_input(s, 0, whole);
}

/// A sign binds tighter than a power: `-(a)^(b)` is `(-(a))^(b)`.
pub proof fn lemma_minus_binds_tighter_than_power(a: ExprModel, b: ExprModel)
    requires
        well_formed(a),
        well_formed(b),
    ensures
        parse_from(seq!['-'] + paren(render(a)) + seq!['^'] + paren(render(b)), 0) == Ok::<
            ExprModel,
            (Seq<ExprModel>, Seq<char>),
        >(ExprModel::Binary(
            BinOp::Pow,
            Box::new(ExprModel::Neg(Box::new(a))),
            Box::new(b),
        )),
{
    let (ta, tb) = (paren(render(a)), paren(render(b)));
    let n = seq!['-'];
    let m = seq!['^'];
    let s = n + ta + m + tb;
    let p1 = 1 + ta.len() as int;
    let end = s.len() as int;
    lemma_whole(s);
    lemma_holds_split(s, 0, n + ta + m, tb);
    lemma_holds_split(s, 0, n + ta, m);
    lemma_holds_split(s, 0, n, ta);
    lemma_holds_char(s, 0, n, 0);
    lemma_holds_char(s, p1, m, 0);
    lemma_atom(a, s, 1);
    lemma_atom(b, s, p1 + 1);
    let na = ExprModel::Neg(Box::new(a));
    let whole = ExprModel::Binary(BinOp::Pow, Box::new(na), Box::new(b));
    lemma_skip_at_nonblank(s, 0);
    lemma_skip_at_nonblank(s, p1);
    lemma_skip_at_nonblank(s, end);
    assert(parse_factor(s, 0) == Parsed::Done(na, p1));
    assert(parse_power(s, p1 + 1) == Parsed::Done(b, end));
    assert(parse_power(s, 0) == Parsed::Done(whole, end));
    assert(parse_term_rest(s, end, whole) == Parsed::Done(whole, end));
    lemma_ends_input(s, 0, whole);
}

/// A product binds tighter than a sum: `(a)+(b)*(c)` is `(a)+((b)*(c))`.
pub proof fn lemma_product_binds_tighter_than_sum(a: ExprModel, b: ExprModel, c: ExprModel)
    requires
        well_formed(a),
        well_formed(b),
        well_formed(c),
    ensures
        parse_from(
            paren(render(a)) + seq!['+'] + paren(render(b)) + seq!['*'] + paren(render(c)),
            0,
        ) == Ok::<ExprModel, (Seq<ExprModel>, Seq<char>)>(ExprModel::Binary(
            BinOp::Add,
            Box::new(a),
            Box::new(ExprModel::Binary(BinOp::Mul, Box::new(b), Box::new(c))),
        )),
{
    let (ta, tb, tc) = (paren(render(a)), paren(render(b)), paren(render(c)));
    let m1 = seq!['+'];
    let m2 = seq!['*'];
    let s = ta + m1 + tb + m2 + tc;
    let p1 = ta.len() as int;
    let p2 = p1 + 1 + tb.len() as int;
    let end = s.len() as int;
    lemma_whole(s);
    lemma_holds_split(s, 0, ta + m1 + tb + m2, tc);
    lemma_holds_split(s, 0, ta + m1 + tb, m2);
    lemma_holds_split(s, 0, ta + m1, tb);
    lemma_holds_split(s, 0, ta, m1);
    lemma_holds_char(s, p1, m1, 0);
    lemma_holds_char(s, p2, m2, 0);
    lemma_atom(a, s, 0);
    lemma_atom(b, s, p1 + 1);
    lemma_atom(c, s, p2 + 1);
    let bc = ExprModel::Binary(BinOp::Mul, Box::new(b), Box::new(c));
    let whole = ExprModel::Binary(BinOp::Add, Box::new(a), Box::new(bc));
    lemma_power_stops(s, 0, a, p1);
    lemma_term_stops(s, 0, a, p1);
    lemma_power_stops(s, p1 + 1, b, p2);
    lemma_skip_at_nonblank(s, p1);
    lemma_skip_at_nonblank(s, p2);
    lemma_skip_at_nonblank(s, end);
    assert(parse_power(s, p2 + 1) == Parsed::Done(c, end));
    assert(term_op(s[p2]) == Some(BinOp::Mul));
    assert(parse_term_rest(s, end, bc) == Parsed::Done(bc, end));
    assert(parse_term_rest(s, p2, b) == Parsed::Done(bc, end));
    assert(parse_term(s, p1 + 1) == Parsed::Done(bc, end));
    assert(expr_op(s[p1]) == Some(BinOp::Add));
    assert(parse_expr_rest(s, end, whole) == Parsed::Done(whole, end));
    assert(parse_expr_rest(s, p1, a) == Parsed::Done(whole, end));
    assert(parse_expr(s, 0) == Parsed::Done(whole, end));
}

/// A run of blanks (possibly empty).
pub open spec fn all_blank(g: Seq<char>) -> bool {
    forall|k: int| 0 <= k < g.len() ==> is_blank(#[trigger] g[k])
}

/// `t` in parentheses with the blanks `g` inside them.
pub open spec fn paren_spaced(t: Seq<char>, g: Seq<char>) -> Seq<char> {
    seq!['('] + g + t + g + seq![')']
}

/// The fully parenthesised text of a tree with the blanks `g` between every
/// two tokens around each operator and parenthesis: `( a ) + ( b )` for a
/// single space.
pub open spec fn render_spaced(e: ExprModel, g: Seq<char>) -> Seq<char>
    decreases e,
{
    match e {
        ExprModel::Number(t) => t,
        ExprModel::Neg(a) => seq!['-'] + g + paren_spaced(render_spaced(*a, g), g),
        ExprModel::Binary(op, a, b) => paren_spaced(render_spaced(*a, g), g) + g + seq![
            op_char(op),
        ] + g + paren_spaced(render_spaced(*b, g), g),
    }
}

/// After position `k`, past any blanks, the input ends or a `)` follows.
pub open spec fn closes_after(s: Seq<char>, k: int) -> bool {
    let j = skip_blanks(s, k);
    j == s.len() || (0 <= j < s.len() && s[j] == ')')
}

proof fn lemma_skip_gap(s: Seq<char>, k: int, g: Seq<char>)
    requires
        holds_at(s, k, g),
        all_blank(g),
        k + g.len() == s.len() || !is_blank(s[k + g.len()]),
    ensures
        skip_blanks(s, k) == k + g.len(),
    decreases g.len(),
{
    if g.len() > 0 {
        lemma_holds_char(s, k, g, 0);
        assert(seq![g[0]] + g.drop_first() =~= g);
        lemma_holds_split(s, k, seq![g[0]], g.drop_first());
        lemma_skip_gap(s, k + 1, g.drop_first());
    }
}

proof fn lemma_render_spaced_shape(e: ExprModel, g: Seq<char>)
    requires
        well_formed(e),
    ensures
        render_spaced(e, g).len() > 0,
        !is_blank(render_spaced(e, g)[0]),
        e is Number ==> is_number_char(render_spaced(e, g)[0]),
        e is Neg ==> render_spaced(e, g)[0] == '-',
        e is Binary ==> render_spaced(e, g)[0] == '(',
{
}

/// A spaced parenthesised tree reads as a factor, from before any blanks in
/// front of it.
proof fn lemma_atom_spaced(e: ExprModel, g: Seq<char>, s: Seq<char>, i0: int, i: int)
    requires
        well_formed(e),
        all_blank(g),
        0 <= i0 <= i,
        skip_blanks(s, i0) == i,
        holds_at(s, i, paren_spaced(render_spaced(e, g), g)),
    ensures
        parse_factor(s, i0) == Parsed::Done(e, i + render_spaced(e, g).len() + 2 * g.len() + 2),
    decreases e, 2int,
{
    let r = render_spaced(e, g);
    let open = seq!['('];
    let close = seq![')'];
    lemma_holds_split(s, i, open + g + r + g, close);
    lemma_holds_split(s, i, open + g + r, g);
    lemma_holds_split(s, i, open + g, r);
    lemma_holds_split(s, i, open, g);
    lemma_holds_char(s, i, open, 0);
    let q = i + 1 + g.len() + r.len() + g.len();
    lemma_holds_char(s, q, close, 0);
    lemma_render_spaced_shape(e, g);
    lemma_holds_char(s, i + 1 + g.len(), r, 0);
    lemma_skip_gap(s, i + 1, g);
    lemma_skip_gap(s, i + 1 + g.len() + r.len(), g);
    lemma_skip_at_nonblank(s, q);
    lemma_expr_spaced(e, g, s, i + 1, i + 1 + g.len());
}

/// A number or a spaced negation reads as a factor.
proof fn lemma_primary_spaced(e: ExprModel, g: Seq<char>, s: Seq<char>, i0: int, i: int)
    requires
        well_formed(e),
        all_blank(g),
        !(e is Binary),
        0 <= i0 <= i,
        skip_blanks(s, i0) == i,
        holds_at(s, i, render_spaced(e, g)),
        closes_after(s, i + render_spaced(e, g).len()),
    ensures
        parse_factor(s, i0) == Parsed::Done(e, i + render_spaced(e, g).len()),
    decreases e, 0int,
{
    let r = render_spaced(e, g);
    lemma_render_spaced_shape(e, g);
    lemma_holds_char(s, i, r, 0);
    match e {
        ExprModel::Number(t) => {
            assert forall|k: int| i <= k < i + t.len() implies is_number_char(#[trigger] s[k]) by {
                lemma_holds_char(s, i, t, k - i);
            }
            let end = i + t.len();
            lemma_skip_blanks(s, end);
            if end < s.len() {
                if !is_blank(s[end]) {
                    lemma_skip_at_nonblank(s, end);
                }
                assert(!is_number_char(s[end]));
            }
            lemma_number_end(s, i);
            let ne = number_end(s, i);
            if ne < end {
                assert(is_number_char(s[ne]));
            }
            if ne > end {
                assert(is_number_char(s[end]));
            }
            assert(ne == end);
        },
        ExprModel::Neg(a) => {
            let pa = paren_spaced(render_spaced(*a, g), g);
            lemma_holds_split(s, i, seq!['-'] + g, pa);
            lemma_holds_split(s, i, seq!['-'], g);
            lemma_holds_char(s, i + 1 + g.len(), pa, 0);
            lemma_skip_gap(s, i + 1, g);
            lemma_atom_spaced(*a, g, s, i + 1, i + 1 + g.len());
        },
        ExprModel::Binary(_, _, _) => {},
    }
}

/// A factor that ends where only blanks and then a `)` or the end follow is a
/// whole expression.
proof fn lemma_lift_spaced(e: ExprModel, s: Seq<char>, i0: int, end: int)
    requires
        parse_factor(s, i0) == Parsed::Done(e, end),
        0 <= i0 <= end <= s.len(),
        closes_after(s, end),
    ensures
        parse_power(s, i0) == Parsed::Done(e, skip_blanks(s, end)),
        parse_term(s, i0) == Parsed::Done(e, skip_blanks(s, end)),
        parse_expr(s, i0) == Parsed::Done(e, skip_blanks(s, end)),
{
    let j = skip_blanks(s, end);
    lemma_skip_blanks(s, end);
    lemma_skip_at_nonblank(s, j);
    assert(parse_term_rest(s, j, e) == Parsed::Done(e, j));
    assert(parse_expr_rest(s, j, e) == Parsed::Done(e, j));
}

/// A spaced rendered tree followed by blanks and then a `)` or the end reads
/// as an expression.
#[verifier::rlimit(80)]
proof fn lemma_expr_spaced(e: ExprModel, g: Seq<char>, s: Seq<char>, i0: int, i: int)
    requires
        well_formed(e),
        all_blank(g),
        0 <= i0 <= i,
        skip_blanks(s, i0) == i,
        holds_at(s, i, render_spaced(e, g)),
        closes_after(s, i + render_spaced(e, g).len()),
    ensures
        parse_expr(s, i0) == Parsed::Done(e, skip_blanks(s, i + render_spaced(e, g).len())),
    decreases e, 1int,
{
    let r = render_spaced(e, g);
    let end = i + r.len();
    let j = skip_blanks(s, end);
    lemma_skip_blanks(s, end);
    lemma_skip_at_nonblank(s, j);
    match e {
        ExprModel::Binary(op, a, b) => {
            let pa = paren_spaced(render_spaced(*a, g), g);
            let pb = paren_spaced(render_spaced(*b, g), g);
            let m = seq![op_char(op)];
            let p = i + pa.len();
            let q = p + g.len();
            lemma_holds_split(s, i, pa + g + m + g, pb);
            lemma_holds_split(s, i, pa + g + m, g);
            lemma_holds_split(s, i, pa + g, m);
            lemma_holds_split(s, i, pa, g);
            lemma_holds_char(s, q, m, 0);
            lemma_holds_char(s, q + 1 + g.len(), pb, 0);
            lemma_skip_gap(s, p, g);
            lemma_skip_gap(s, q + 1, g);
            lemma_skip_at_nonblank(s, q);
            lemma_atom_spaced(*a, g, s, i0, i);
            lemma_atom_spaced(*b, g, s, q + 1, q + 1 + g.len());
            let ea = *a;
            let eb = *b;
            assert(ExprModel::Binary(op, Box::new(ea), Box::new(eb)) == e);
            if op == BinOp::Pow {
                assert(parse_power(s, q + 1) == Parsed::Done(eb, j));
                assert(parse_power(s, i0) == Parsed::Done(e, j));
                assert(parse_term_rest(s, j, e) == Parsed::Done(e, j));
                assert(parse_term(s, i0) == Parsed::Done(e, j));
                assert(parse_expr_rest(s, j, e) == Parsed::Done(e, j));
            } else if term_op(op_char(op)) is Some {
                assert(term_op(op_char(op)) == Some(op));
                assert(parse_power(s, i0) == Parsed::Done(ea, q));
                assert(parse_power(s, q + 1) == Parsed::Done(eb, j));
                assert(parse_term_rest(s, j, e) == Parsed::Done(e, j));
                assert(parse_term_rest(s, q, ea) == Parsed::Done(e, j));
                assert(parse_term(s, i0) == Parsed::Done(e, j));
                assert(parse_expr_rest(s, j, e) == Parsed::Done(e, j));
            } else {
                assert(expr_op(op_char(op)) == Some(op));
                assert(parse_power(s, i0) == Parsed::Done(ea, q));
                assert(parse_term_rest(s, q, ea) == Parsed::Done(ea, q));
                assert(parse_term(s, i0) == Parsed::Done(ea, q));
                lemma_lift_spaced(eb, s, q + 1, end);
                assert(parse_expr_rest(s, j, e) == Parsed::Done(e, j));
                assert(parse_expr_rest(s, q, ea) == Parsed::Done(e, j));
            }
        },
        _ => {
            lemma_primary_spaced(e, g, s, i0, i);
            lemma_lift_spaced(e, s, i0, end);
        },
    }
}

/// Blanks may stand between the tokens: every tree the parser can produce is
/// read back from its fully parenthesised text with any run of blanks put
/// around each operator and inside each pair of parentheses (a factor,
/// blanks, `^` and a power read as a power).
pub proof fn lemma_blanks_between_tokens(e: ExprModel, g: Seq<char>)
    requires
        well_formed(e),
        all_blank(g),
    ensures
        parse_from(render_spaced(e, g), 0) == Ok::<ExprModel, (Seq<ExprModel>, Seq<char>)>(e),
{
    let s = render_spaced(e, g);
    lemma_whole(s);
    lemma_render_spaced_shape(e, g);
    lemma_skip_at_nonblank(s, 0);
    lemma_skip_at_nonblank(s, s.len() as int);
    lemma_expr_spaced(e, g, s, 0, 0);
}

} // verus!
