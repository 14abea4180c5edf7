//! Conversions of 128-bit signed integers between decimal and binary text.
//!
//! Reading follows `i128::from_str_radix`: an optional `+` or `-`, then at
//! least one digit of the radix, and a value that fits in an `i128`. Decimal
//! output is the usual signed notation; binary output is that of `{:b}`, which
//! writes a negative number as its 128-bit two's complement.
use vstd::prelude::*;
use crate::text::{append_str, chars_of, push_char, trim, trim_end, trim_start, trimmed_chars};

verus! {

pub open spec fn i128_min() -> int {
    -0x8000_0000_0000_0000_0000_0000_0000_0000int
}

pub open spec fn i128_max() -> int {
    0x7fff_ffff_ffff_ffff_ffff_ffff_ffff_ffffint
}

/// 2 to the power 128.
pub open spec fn two_pow_128() -> int {
    0x1_0000_0000_0000_0000_0000_0000_0000_0000int
}

/// The value of an ASCII digit.
pub open spec fn digit_value(c: char) -> int {
    (c as int) - 48
}

/// The ASCII digit of value `d`.
pub open spec fn digit_char(d: int) -> char {
    (48 + d) as char
}

pub open spec fn is_radix_digit(c: char, radix: int) -> bool {
    48 <= (c as int) && (c as int) < 48 + radix
}

pub open spec fn all_radix_digits(t: Seq<char>, radix: int) -> bool {
    forall|k: int| 0 <= k < t.len() ==> is_radix_digit(#[trigger] t[k], radix)
}

/// The number that the digits `t` write in base `radix`.
pub open spec fn digits_value(t: Seq<char>, radix: int) -> int
    decreases t.len(),
{
    if t.len() == 0 {
        0
    } else {
        digits_value(t.drop_last(), radix) * radix + digit_value(t.last())
    }
}

/// What `i128::from_str_radix(t, radix)` gives: `None` for an error.
pub open spec fn parse_i128(t: Seq<char>, radix: int) -> Option<int> {
    let negative = t.len() > 0 && t[0] == '-';
    let signed = t.len() > 0 && (t[0] == '-' || t[0] == '+');
    let d = if signed {
        t.drop_first()
    } else {
        t
    };
    if d.len() == 0 || !all_radix_digits(d, radix) {
        None
    } else {
        let v = if negative {
            -digits_value(d, radix)
        } else {
            digits_value(d, radix)
        };
        if i128_min() <= v <= i128_max() {
            Some(v)
        } else {
            None
        }
    }
}

/// The digits of `n` in base `radix`, most significant first, without
/// leading zeros (`0` is written `0`).
pub open spec fn radix_digits(n: nat, radix: nat) -> Seq<char>
    decreases n,
{
    if radix < 2 || n < radix {
        seq![digit_char(n as int)]
    } else {
        proof {
            assert(n / radix < n) by (nonlinear_arith)
                requires
                    radix >= 2,
                    n >= radix,
            ;
        }
        radix_digits(n / radix, radix).push(digit_char((n % radix) as int))
    }
}

/// How `{}` writes an `i128`.
pub open spec fn decimal_text(v: int) -> Seq<char> {
    if v < 0 {
        seq!['-'] + radix_digits((-v) as nat, 10)
    } else {
        radix_digits(v as nat, 10)
    }
}

/// How `{:b}` writes an `i128`: the binary digits of its 128-bit two's
/// complement.
pub open spec fn binary_text(v: int) -> Seq<char> {
    if v < 0 {
        radix_digits((v + two_pow_128()) as nat, 2)
    } else {
        radix_digits(v as nat, 2)
    }
}

pub open spec fn invalid_decimal_message(arg: Seq<char>) -> Seq<char> {
    "Invalid decimal integer: "@ + arg
}

pub open spec fn invalid_binary_message(arg: Seq<char>) -> Seq<char> {
    "Invalid binary integer: "@ + arg
}

/// The result of the decimal-to-binary command on its argument.
pub open spec fn spec_decimal_to_binary(arg: Seq<char>) -> Result<Seq<char>, Seq<char>> {
    match parse_i128(arg, 10) {
        Some(v) => Ok(binary_text(v)),
        None => Err(invalid_decimal_message(arg)),
    }
}

/// The result of the binary-to-decimal command on its argument, which is
/// trimmed first.
pub open spec fn spec_binary_to_decimal(arg: Seq<char>) -> Result<Seq<char>, Seq<char>> {
    match parse_i128(trim(arg), 2) {
        Some(v) => Ok(decimal_text(v)),
        None => Err(invalid_binary_message(arg)),
    }
}

proof fn lemma_digits_value_nonneg(t: Seq<char>, radix: int)
    requires
        radix >= 2,
        all_radix_digits(t, radix),
    ensures
        digits_value(t, radix) >= 0,
    decreases t.len(),
{
    if t.len() > 0 {
        assert(all_radix_digits(t.drop_last(), radix)) by {
            assert forall|k: int| 0 <= k < t.drop_last().len() implies is_radix_digit(
                #[trigger] t.drop_last()[k],
                radix,
            ) by {
                assert(t.drop_last()[k] == t[k]);
            }
        }
        lemma_digits_value_nonneg(t.drop_last(), radix);
        let x = digits_value(t.drop_last(), radix);
        assert(x * radix >= 0) by (nonlinear_arith)
            requires
                x >= 0,
                radix >= 2,
        ;
        assert(is_radix_digit(t[t.len() - 1], radix));
    }
}

/// A prefix of a digit string has a value no greater than the whole.
proof fn lemma_digits_value_prefix(t: Seq<char>, radix: int, j: int)
    requires
        radix >= 2,
        all_radix_digits(t, radix),
        0 <= j <= t.len(),
    ensures
        digits_value(t.subrange(0, j), radix) <= digits_value(t, radix),
    decreases t.len(),
{
    if j < t.len() {
        let p = t.drop_last();
        assert(all_radix_digits(p, radix)) by {
            assert forall|k: int| 0 <= k < p.len() implies is_radix_digit(#[trigger] p[k], radix) by {
                assert(p[k] == t[k]);
            }
        }
        lemma_digits_value_prefix(p, radix, j);
        assert(p.subrange(0, j) =~= t.subrange(0, j));
        lemma_digits_value_nonneg(p, radix);
        let x = digits_value(p, radix);
        assert(x * radix >= x) by (nonlinear_arith)
            requires
                x >= 0,
                radix >= 2,
        ;
        assert(is_radix_digit(t[t.len() - 1], radix));
    } else {
        assert(t.subrange(0, j) =~= t);
    }
}

/// The digits of `n` read back give `n`.
proof fn lemma_radix_digits_value(n: nat, radix: nat)
    requires
        radix == 2 || radix == 10,
    ensures
        digits_value(radix_digits(n, radix), radix as int) == n,
        all_radix_digits(radix_digits(n, radix), radix as int),
        radix_digits(n, radix).len() >= 1,
        radix_digits(n, radix)[0] != '-' && radix_digits(n, radix)[0] != '+',
    decreases n,
{
    let t = radix_digits(n, radix);
    if n < radix {
        assert(t.drop_last() =~= Seq::<char>::empty());
        assert(digit_value(digit_char(n as int)) == n);
        assert(digits_value(t.drop_last(), radix as int) == 0);
        assert(digits_value(t, radix as int) == n);
    } else {
        assert(n / radix < n) by (nonlinear_arith)
            requires
                radix >= 2,
                n >= radix,
        ;
        let q = n / radix;
        let r = n % radix;
        lemma_radix_digits_value(q, radix);
        let u = radix_digits(q, radix);
        assert(t == u.push(digit_char(r as int)));
        assert(t.drop_last() =~= u);
        assert(0 <= r < radix) by (nonlinear_arith)
            requires
                radix >= 2,
                r == n % radix,
        ;
        assert(digit_value(digit_char(r as int)) == r);
        assert(q * radix + r == n) by (nonlinear_arith)
            requires
                radix >= 2,
                q == n / radix,
                r == n % radix,
        ;
        assert forall|k: int| 0 <= k < t.len() implies is_radix_digit(
            #[trigger] t[k],
            radix as int,
        ) by {
            if k < u.len() {
                assert(t[k] == u[k]);
            }
        }
        assert(t[0] == u[0]);
        assert(digits_value(u, radix as int) == q);
        assert(digits_value(t, radix as int) == digits_value(u, radix as int) * radix + r);
    }
}

/// Reading back what `{}` writes gives the number again.
pub proof fn lemma_decimal_roundtrip(v: int)
    requires
        i128_min() <= v <= i128_max(),
    ensures
        parse_i128(decimal_text(v), 10) == Some(v),
{
    if v < 0 {
        let d = radix_digits((-v) as nat, 10);
        lemma_radix_digits_value((-v) as nat, 10);
        let t = decimal_text(v);
        assert(t.drop_first() =~= d);
    } else {
        lemma_radix_digits_value(v as nat, 10);
    }
}

/// Reading back in base 2 what `{:b}` writes gives the number again, for every
/// number that is not negative. (A negative number is written as its 128-bit
/// two's complement, which does not read back as an `i128`.)
pub proof fn lemma_binary_roundtrip(v: int)
    requires
        0 <= v <= i128_max(),
    ensures
        parse_i128(binary_text(v), 2) == Some(v),
{
    lemma_radix_digits_value(v as nat, 2);
}


/// Converting a decimal integer that is not negative to binary, and the
/// binary text back to decimal, gives the integer's decimal text.
pub proof fn lemma_binary_commands_roundtrip(arg: Seq<char>, v: int)
    requires
        parse_i128(arg, 10) == Some(v),
        v >= 0,
    ensures
        spec_decimal_to_binary(arg) == Ok::<Seq<char>, Seq<char>>(binary_text(v)),
        spec_binary_to_decimal(binary_text(v)) == Ok::<Seq<char>, Seq<char>>(decimal_text(v)),
{
    let t = binary_text(v);
    lemma_radix_digits_value(v as nat, 2);
    assert(is_radix_digit(t[0], 2));
    assert(is_radix_digit(t.last(), 2));
    assert(trim_start(t) == t);
    assert(trim_end(t) == t);
    lemma_binary_roundtrip(v);
}

/// The ASCII digit of value `d`, as a character.
fn digit_to_char(d: u128) -> (c: char)
    requires
        d < 10,
    ensures
        c == digit_char(d as int),
{
    let b: u8 = 48u8 + (d as u8);
    b as char
}

/// The digits of `n` in base `radix`.
fn radix_digits_exec(n: u128, radix: u128) -> (v: Vec<char>)
    requires
        radix == 2 || radix == 10,
    ensures
        v@ == radix_digits(n as nat, radix as nat),
{
    let mut acc: Vec<char> = Vec::new();
    let mut q: u128 = n;
    while q >= radix
        invariant
            radix == 2 || radix == 10,
            radix_digits(n as nat, radix as nat) == radix_digits(q as nat, radix as nat) + acc@,
        decreases q,
    {
        let ghost old_acc = acc@;
        let d = q % radix;
        let next = q / radix;
        assert(radix_digits(q as nat, radix as nat) == radix_digits(next as nat, radix as nat).push(
            digit_char(d as int),
        ));
        acc.insert(0, digit_to_char(d));
        assert(radix_digits(next as nat, radix as nat) + acc@ =~= radix_digits(
            next as nat,
            radix as nat,
        ).push(digit_char(d as int)) + old_acc);
        q = next;
    }
    acc.insert(0, digit_to_char(q));
    assert(radix_digits(q as nat, radix as nat) =~= seq![digit_char(q as int)]);
    assert(acc@ =~= radix_digits(q as nat, radix as nat) + acc@.drop_first());
    acc
}

/// `i128::from_str_radix` for radix 2 or 10.
pub fn parse_i128_exec(t: &[char], radix: u32) -> (r: Option<i128>)
    requires
        radix == 2 || radix == 10,
    ensures
        match r {
            Some(v) => parse_i128(t@, radix as int) == Some(v as int),
            None => parse_i128(t@, radix as int) is None,
        },
{
    let n = t.len();
    if n == 0 {
        return None;
    }
    let negative = t[0] == '-';
    let start: usize = if t[0] == '-' || t[0] == '+' {
        1
    } else {
        0
    };
    let ghost d = if start == 1 {
        t@.drop_first()
    } else {
        t@
    };
    assert(d =~= t@.subrange(start as int, n as int));
    if start == n {
        return None;
    }
    let r128: u128 = radix as u128;
    let mut mag: u128 = 0;
    let mut i: usize = start;
    while i < n
        invariant
            start <= i <= n,
            n == t@.len(),
            d == t@.subrange(start as int, n as int),
            d == (if t@.len() > 0 && (t@[0] == '-' || t@[0] == '+') {
                t@.drop_first()
            } else {
                t@
            }),
            d.len() > 0,
            r128 == radix as u128,
            radix == 2 || radix == 10,
            all_radix_digits(d.subrange(0, i - start), radix as int),
            mag == digits_value(d.subrange(0, i - start), radix as int),
        decreases n - i,
    {
        let c = t[i];
        let top: char = if radix == 2 {
            '1'
        } else {
            '9'
        };
        assert(d[i - start] == c);
        if !('0' <= c && c <= top) {
            assert(!is_radix_digit(d[i - start], radix as int));
            assert(!all_radix_digits(d, radix as int));
            return None;
        }
        let code: u32 = c as u32;
        assert(code as int == c as int);
        assert(is_radix_digit(c, radix as int));
        let ghost pre = d.subrange(0, i - start);
        let ghost post = d.subrange(0, i - start + 1);
        assert(post.drop_last() =~= pre);
        assert(post.last() == c);
        assert(all_radix_digits(post, radix as int)) by {
            assert forall|k: int| 0 <= k < post.len() implies is_radix_digit(
                #[trigger] post[k],
                radix as int,
            ) by {
                if k < pre.len() {
                    assert(post[k] == pre[k]);
                } else {
                    assert(post[k] == c);
                }
            }
        }
        let dv: u128 = (code - 48) as u128;
        let m1 = mag.checked_mul(r128);
        let m2 = match m1 {
            Some(x) => x.checked_add(dv),
            None => None,
        };
        match m2 {
            Some(x) => {
                mag = x;
            },
            None => {
                proof {
                    lemma_digits_value_nonneg(pre, radix as int);
                    assert(digits_value(post, radix as int) > u128::MAX) by (nonlinear_arith)
                        requires
                            digits_value(post, radix as int) == mag * radix + (code - 48),
                            (m1 is None ==> mag * radix > u128::MAX),
                            (m1 is Some ==> m1->0 == mag * radix && m1->0 + dv
                                > u128::MAX),
                            dv == code - 48,
                            mag >= 0,
                            code >= 48,
                    ;
                    assert(all_radix_digits(d, radix as int)
                        ==> digits_value(d, radix as int) > u128::MAX) by {
                        if all_radix_digits(d, radix as int) {
                            lemma_digits_value_prefix(d, radix as int, i - start + 1);
                        }
                    }
                }
                return None;
            },
        }
        i = i + 1;
    }
    assert(d.subrange(0, n - start) =~= d);
    if negative {
        if mag <= 0x8000_0000_0000_0000_0000_0000_0000_0000u128 {
            if mag == 0x8000_0000_0000_0000_0000_0000_0000_0000u128 {
                Some(i128::MIN)
            } else {
                let m: i128 = mag as i128;
                Some(-m)
            }
        } else {
            None
        }
    } else {
        if mag <= 0x7fff_ffff_ffff_ffff_ffff_ffff_ffff_ffffu128 {
            Some(mag as i128)
        } else {
            None
        }
    }
}

/// How `{}` writes `v`.
pub fn decimal_string(v: i128) -> (s: String)
    ensures
        s@ == decimal_text(v as int),
{
    let mut s = String::new();
    let mag: u128 = if v < 0 {
        push_char(&mut s, '-');
        let w: i128 = -(v + 1);
        (w as u128) + 1
    } else {
        v as u128
    };
    let digits = radix_digits_exec(mag, 10);
    let mut i: usize = 0;
    let ghost start = s@;
    while i < digits.len()
        invariant
            i <= digits@.len(),
            s@ == start + digits@.subrange(0, i as int),
        decreases digits@.len() - i,
    {
        push_char(&mut s, digits[i]);
        i = i + 1;
    }
    assert(digits@.subrange(0, digits@.len() as int) =~= digits@);
    s
}

/// How `{:b}` writes `v`.
pub fn binary_string(v: i128) -> (s: String)
    ensures
        s@ == binary_text(v as int),
{
    let bits: u128 = if v < 0 {
        let w: i128 = v + 1 + i128::MAX;
        (w as u128) + 0x8000_0000_0000_0000_0000_0000_0000_0000u128
    } else {
        v as u128
    };
    let digits = radix_digits_exec(bits, 2);
    crate::text::string_from_chars(digits.as_slice(), 0, digits.len())
}

/// The decimal-to-binary command: the binary text of the decimal integer
/// `arg`, or the message that `arg` is not one.
pub fn decimal_to_binary(arg: &str) -> (r: Result<String, String>)
    ensures
        match r {
            Ok(out) => spec_decimal_to_binary(arg@) == Ok::<Seq<char>, Seq<char>>(out@),
            Err(msg) => spec_decimal_to_binary(arg@) == Err::<Seq<char>, Seq<char>>(msg@),
        },
{
    let chars = chars_of(arg);
    match parse_i128_exec(chars.as_slice(), 10) {
        Some(v) => Ok(binary_string(v)),
        None => {
            let mut m = String::from_str("Invalid decimal integer: ");
            append_str(&mut m, arg);
            Err(m)
        },
    }
}

/// The binary-to-decimal command: the decimal text of the binary integer
/// `arg` (blanks around it ignored), or the message that `arg` is not one.
pub fn binary_to_decimal(arg: &str) -> (r: Result<String, String>)
    ensures
        match r {
            Ok(out) => spec_binary_to_decimal(arg@) == Ok::<Seq<char>, Seq<char>>(out@),
            Err(msg) => spec_binary_to_decimal(arg@) == Err::<Seq<char>, Seq<char>>(msg@),
        },
{
    let chars = trimmed_chars(arg);
    match parse_i128_exec(chars.as_slice(), 2) {
        Some(v) => Ok(decimal_string(v)),
        None => {
            let mut m = String::from_str("Invalid binary integer: ");
            append_str(&mut m, arg);
            Err(m)
        },
    }
}

} // verus!
