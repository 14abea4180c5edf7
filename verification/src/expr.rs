//! The calculator's expression language.
//!
//! ```text
//! expr   := term (('+' | '-') term)*
//! term   := power (('*' | '/' | '%') power)*
//! power  := factor ('^' power)?          (right-associative)
//! factor := '-' factor | '+' factor | '(' expr ')' | number
//! number := [0-9.]+                       (at most one '.', at least one digit)
//! ```
//!
//! Blanks (space and tab) may stand between any two tokens. Parsing builds an
//! [`Expr`] tree; a syntax error carries the subtrees that were complete
//! before it, in the order in which they were finished, so that a caller that
//! evaluates them first reports the errors of evaluation (division by zero)
//! exactly where a left-to-right evaluating parser would have met them.
use vstd::prelude::*;
use crate::text::{append_str, is_ascii_digit, string_from_chars, chars_of};

verus! {

/// A binary operator of the language.
#[derive(Clone, Copy, Debug, PartialEq, Eq, Structural)]
pub enum BinOp {
    Add,
    Sub,
    Mul,
    Div,
    Rem,
    Pow,
}

/// An expression tree; a number keeps its literal text.
#[derive(Debug)]
pub enum Expr {
    Number(String),
    Neg(Box<Expr>),
    Binary(BinOp, Box<Expr>, Box<Expr>),
}

/// The mathematical model of an [`Expr`].
pub enum ExprModel {
    Number(Seq<char>),
    Neg(Box<ExprModel>),
    Binary(BinOp, Box<ExprModel>, Box<ExprModel>),
}

impl Expr {
    pub open spec fn model(self) -> ExprModel
        decreases self,
    {
        match self {
            Expr::Number(t) => ExprModel::Number(t@),
            Expr::Neg(a) => ExprModel::Neg(Box::new((*a).model())),
            Expr::Binary(op, a, b) => ExprModel::Binary(
                op,
                Box::new((*a).model()),
                Box::new((*b).model()),
            ),
        }
    }
}

impl View for Expr {
    type V = ExprModel;

    open spec fn view(&self) -> ExprModel {
        self.model()
    }
}

/// A syntax error: the subtrees finished before it (in the order in which
/// they were finished) and the message.
#[derive(Debug)]
pub struct SyntaxError {
    pub evaluated: Vec<Expr>,
    pub message: String,
}

pub open spec fn models(v: Seq<Expr>) -> Seq<ExprModel> {
    v.map_values(|e: Expr| e@)
}

impl View for SyntaxError {
    type V = (Seq<ExprModel>, Seq<char>);

    open spec fn view(&self) -> (Seq<ExprModel>, Seq<char>) {
        (models(self.evaluated@), self.message@)
    }
}

/// What parsing a piece of the input gives: a tree and the position after it,
/// or the subtrees finished before a syntax error and its message.
pub enum Parsed {
    Done(ExprModel, int),
    Failed(Seq<ExprModel>, Seq<char>),
}

pub open spec fn unexpected_char_message(c: char) -> Seq<char> {
    "Unexpected character: '"@.push(c) + "'"@
}

pub open spec fn missing_paren_message() -> Seq<char> {
    "')' not found"@
}

pub open spec fn unexpected_end_message() -> Seq<char> {
    "Expression ended unexpectedly"@
}

pub open spec fn invalid_number_message(t: Seq<char>) -> Seq<char> {
    "Invalid number: '"@ + t + "'"@
}

/// The characters that separate tokens.
pub open spec fn is_blank(c: char) -> bool {
    c == ' ' || c == '\t'
}

/// The characters a number literal is made of.
pub open spec fn is_number_char(c: char) -> bool {
    is_ascii_digit(c) || c == '.'
}

/// The first position at or after `i` that does not hold a blank.
pub open spec fn skip_blanks(s: Seq<char>, i: int) -> int
    decreases s.len() - i,
{
    if 0 <= i < s.len() && is_blank(s[i]) {
        skip_blanks(s, i + 1)
    } else {
        i
    }
}

/// The end of the run of number characters that starts at `i`.
pub open spec fn number_end(s: Seq<char>, i: int) -> int
    decreases s.len() - i,
{
    if 0 <= i < s.len() && is_number_char(s[i]) {
        number_end(s, i + 1)
    } else {
        i
    }
}

pub open spec fn count_dots(t: Seq<char>) -> nat
    decreases t.len(),
{
    if t.len() == 0 {
        0
    } else {
        count_dots(t.drop_last()) + if t.last() == '.' {
            1nat
        } else {
            0nat
        }
    }
}

pub open spec fn count_digits(t: Seq<char>) -> nat
    decreases t.len(),
{
    if t.len() == 0 {
        0
    } else {
        count_digits(t.drop_last()) + if is_ascii_digit(t.last()) {
            1nat
        } else {
            0nat
        }
    }
}

/// A run of digits and dots that reads as a floating-point number: it has at
/// least one digit and at most one dot (`1`, `1.`, `.5`, `1.5`).
pub open spec fn valid_number(t: Seq<char>) -> bool {
    count_dots(t) <= 1 && count_digits(t) >= 1
}

pub proof fn lemma_skip_blanks(s: Seq<char>, i: int)
    requires
        0 <= i <= s.len(),
    ensures
        i <= skip_blanks(s, i) <= s.len(),
        skip_blanks(s, i) == s.len() || !is_blank(s[skip_blanks(s, i)]),
        forall|k: int| i <= k < skip_blanks(s, i) ==> is_blank(#[trigger] s[k]),
    decreases s.len() - i,
{
    if i < s.len() && is_blank(s[i]) {
        lemma_skip_blanks(s, i + 1);
    }
}

pub proof fn lemma_number_end(s: Seq<char>, i: int)
    requires
        0 <= i <= s.len(),
    ensures
        i <= number_end(s, i) <= s.len(),
        number_end(s, i) == s.len() || !is_number_char(s[number_end(s, i)]),
        forall|k: int| i <= k < number_end(s, i) ==> is_number_char(#[trigger] s[k]),
    decreases s.len() - i,
{
    if i < s.len() && is_number_char(s[i]) {
        lemma_number_end(s, i + 1);
    }
}

/// The number literal that starts at `i`.
pub open spec fn parse_number(s: Seq<char>, i: int) -> Parsed {
    let e = number_end(s, i);
    let t = s.subrange(i, e);
    if valid_number(t) {
        Parsed::Done(ExprModel::Number(t), e)
    } else {
        Parsed::Failed(seq![], invalid_number_message(t))
    }
}

/// `factor` at position `i`.
pub open spec fn parse_factor(s: Seq<char>, i: int) -> Parsed
    decreases s.len() - i, 0int,
{
    if !(0 <= i <= s.len()) {
        Parsed::Failed(seq![], unexpected_end_message())
    } else {
        let j = skip_blanks(s, i);
        proof {
            lemma_skip_blanks(s, i);
        }
        if j >= s.len() {
            Parsed::Failed(seq![], unexpected_end_message())
        } else if s[j] == '-' {
            match parse_factor(s, j + 1) {
                Parsed::Done(e, k) => Parsed::Done(ExprModel::Neg(Box::new(e)), k),
                Parsed::Failed(l, m) => Parsed::Failed(l, m),
            }
        } else if s[j] == '+' {
            parse_factor(s, j + 1)
        } else if s[j] == '(' {
            match parse_expr(s, j + 1) {
                Parsed::Done(e, k) => {
                    let k2 = skip_blanks(s, k);
                    if 0 <= k2 < s.len() && s[k2] == ')' {
                        Parsed::Done(e, k2 + 1)
                    } else {
                        Parsed::Failed(seq![e], missing_paren_message())
                    }
                },
                Parsed::Failed(l, m) => Parsed::Failed(l, m),
            }
        } else if is_number_char(s[j]) {
            parse_number(s, j)
        } else {
            Parsed::Failed(seq![], unexpected_char_message(s[j]))
        }
    }
}

/// `power` at position `i`.
pub open spec fn parse_power(s: Seq<char>, i: int) -> Parsed
    decreases s.len() - i, 1int,
{
    if !(0 <= i <= s.len()) {
        Parsed::Failed(seq![], unexpected_end_message())
    } else {
        match parse_factor(s, i) {
            Parsed::Failed(l, m) => Parsed::Failed(l, m),
            Parsed::Done(b, k) => {
                if !(i <= k <= s.len()) {
                    Parsed::Failed(seq![], unexpected_end_message())
                } else {
                    let k2 = skip_blanks(s, k);
                    proof {
                        lemma_skip_blanks(s, k);
                    }
                    if k2 < s.len() && s[k2] == '^' {
                        match parse_power(s, k2 + 1) {
                            Parsed::Done(e, k3) => Parsed::Done(
                                ExprModel::Binary(BinOp::Pow, Box::new(b), Box::new(e)),
                                k3,
                            ),
                            Parsed::Failed(l, m) => Parsed::Failed(seq![b] + l, m),
                        }
                    } else {
                        Parsed::Done(b, k2)
                    }
                }
            },
        }
    }
}

/// The operator of `term` that `c` stands for, if any.
pub open spec fn term_op(c: char) -> Option<BinOp> {
    if c == '*' {
        Some(BinOp::Mul)
    } else if c == '/' {
        Some(BinOp::Div)
    } else if c == '%' {
        Some(BinOp::Rem)
    } else {
        None
    }
}

/// The operator of `expr` that `c` stands for, if any.
pub open spec fn expr_op(c: char) -> Option<BinOp> {
    if c == '+' {
        Some(BinOp::Add)
    } else if c == '-' {
        Some(BinOp::Sub)
    } else {
        None
    }
}

/// The rest of a `term` after its operand `left`, from position `i`.
pub open spec fn parse_term_rest(s: Seq<char>, i: int, left: ExprModel) -> Parsed
    decreases s.len() - i, 2int,
{
    if !(0 <= i <= s.len()) {
        Parsed::Failed(seq![], unexpected_end_message())
    } else {
        let j = skip_blanks(s, i);
        proof {
            lemma_skip_blanks(s, i);
        }
        if j < s.len() && term_op(s[j]) is Some {
            match parse_power(s, j + 1) {
                Parsed::Done(r, k) => {
                    if !(j + 1 <= k <= s.len()) {
                        Parsed::Failed(seq![], unexpected_end_message())
                    } else {
                        parse_term_rest(
                            s,
                            k,
                            ExprModel::Binary(term_op(s[j])->0, Box::new(left), Box::new(r)),
                        )
                    }
                },
                Parsed::Failed(l, m) => Parsed::Failed(seq![left] + l, m),
            }
        } else {
            Parsed::Done(left, j)
        }
    }
}

/// `term` at position `i`.
pub open spec fn parse_term(s: Seq<char>, i: int) -> Parsed
    decreases s.len() - i, 3int,
{
    if !(0 <= i <= s.len()) {
        Parsed::Failed(seq![], unexpected_end_message())
    } else {
        match parse_power(s, i) {
            Parsed::Failed(l, m) => Parsed::Failed(l, m),
            Parsed::Done(left, k) => {
                if !(i <= k <= s.len()) {
                    Parsed::Failed(seq![], unexpected_end_message())
                } else {
                    parse_term_rest(s, k, left)
                }
            },
        }
    }
}

/// The rest of an `expr` after its operand `left`, from position `i`.
pub open spec fn parse_expr_rest(s: Seq<char>, i: int, left: ExprModel) -> Parsed
    decreases s.len() - i, 4int,
{
    if !(0 <= i <= s.len()) {
        Parsed::Failed(seq![], unexpected_end_message())
    } else {
        let j = skip_blanks(s, i);
        proof {
            lemma_skip_blanks(s, i);
        }
        if j < s.len() && expr_op(s[j]) is Some {
            match parse_term(s, j + 1) {
                Parsed::Done(r, k) => {
                    if !(j + 1 <= k <= s.len()) {
                        Parsed::Failed(seq![], unexpected_end_message())
                    } else {
                        parse_expr_rest(
                            s,
                            k,
                            ExprModel::Binary(expr_op(s[j])->0, Box::new(left), Box::new(r)),
                        )
                    }
                },
                Parsed::Failed(l, m) => Parsed::Failed(seq![left] + l, m),
            }
        } else {
            Parsed::Done(left, j)
        }
    }
}

/// `expr` at position `i`.
pub open spec fn parse_expr(s: Seq<char>, i: int) -> Parsed
    decreases s.len() - i, 5int,
{
    if !(0 <= i <= s.len()) {
        Parsed::Failed(seq![], unexpected_end_message())
    } else {
        match parse_term(s, i) {
            Parsed::Failed(l, m) => Parsed::Failed(l, m),
            Parsed::Done(left, k) => {
                if !(i <= k <= s.len()) {
                    Parsed::Failed(seq![], unexpected_end_message())
                } else {
                    parse_expr_rest(s, k, left)
                }
            },
        }
    }
}

/// A whole input read from position `i`: an expression followed by nothing
/// but blanks.
pub open spec fn parse_from(s: Seq<char>, i: int) -> Result<
    ExprModel,
    (Seq<ExprModel>, Seq<char>),
> {
    match parse_expr(s, i) {
        Parsed::Failed(l, m) => Err((l, m)),
        Parsed::Done(e, k) => {
            let j = skip_blanks(s, k);
            if 0 <= j < s.len() {
                Err((seq![e], unexpected_char_message(s[j])))
            } else {
                Ok(e)
            }
        },
    }
}

/// How an exec result of a parsing step stands to its model.
pub open spec fn step_matches(r: Result<Expr, SyntaxError>, pos: int, p: Parsed) -> bool {
    match r {
        Ok(e) => p == Parsed::Done(e@, pos),
        Err(err) => p == Parsed::Failed(err@.0, err@.1),
    }
}

/// A syntax error with nothing evaluated before it.
fn plain_error(message: String) -> (e: SyntaxError)
    ensures
        e@ == (Seq::<ExprModel>::empty(), message@),
{
    let e = SyntaxError { evaluated: Vec::new(), message };
    assert(models(e.evaluated@) =~= Seq::<ExprModel>::empty());
    e
}

/// A syntax error that comes after the finished subtree `done`.
fn error_after(done: Expr, message: String) -> (e: SyntaxError)
    ensures
        e@ == (seq![done@], message@),
{
    let mut evaluated: Vec<Expr> = Vec::new();
    evaluated.push(done);
    let e = SyntaxError { evaluated, message };
    assert(models(e.evaluated@) =~= seq![done@]);
    e
}

/// `err` with the finished subtree `done` put before the subtrees it carries.
fn prepend_finished(done: Expr, err: SyntaxError) -> (e: SyntaxError)
    ensures
        e@ == (seq![done@] + err@.0, err@.1),
{
    let ghost before = err.evaluated@;
    let mut evaluated = err.evaluated;
    evaluated.insert(0, done);
    let e = SyntaxError { evaluated, message: err.message };
    assert(models(e.evaluated@) =~= seq![done@] + models(before));
    e
}

fn unexpected_char_error(c: char) -> (e: SyntaxError)
    ensures
        e@ == (Seq::<ExprModel>::empty(), unexpected_char_message(c)),
{
    let mut m = String::from_str("Unexpected character: '");
    crate::text::push_char(&mut m, c);
    append_str(&mut m, "'");
    plain_error(m)
}

fn number_char(c: char) -> (r: bool)
    ensures
        r == is_number_char(c),
{
    ('0' <= c && c <= '9') || c == '.'
}

/// A parser over the characters of one input, with its position.
pub struct Parser {
    pub chars: Vec<char>,
    pub pos: usize,
}

impl Parser {
    pub open spec fn wf(&self) -> bool {
        self.pos <= self.chars@.len()
    }

    /// A parser at the start of `input`.
    pub fn new(input: &str) -> (p: Parser)
        ensures
            p.chars@ == input@,
            p.pos == 0,
            p.wf(),
    {
        Parser { chars: chars_of(input), pos: 0 }
    }

    /// Moves past the blanks at the position.
    pub fn skip_whitespace(&mut self)
        requires
            old(self).wf(),
        ensures
            final(self).wf(),
            final(self).chars@ == old(self).chars@,
            final(self).pos == skip_blanks(old(self).chars@, old(self).pos as int),
    {
        let ghost s = self.chars@;
        let ghost i = self.pos as int;
        while self.pos < self.chars.len() && (self.chars[self.pos] == ' ' || self.chars[self.pos]
            == '\t')
            invariant
                self.wf(),
                self.chars@ == s,
                skip_blanks(s, i) == skip_blanks(s, self.pos as int),
            decreases self.chars@.len() - self.pos,
        {
            self.pos = self.pos + 1;
        }
    }

    /// The whole input from the position: an expression and then only blanks.
    pub fn parse(&mut self) -> (r: Result<Expr, SyntaxError>)
        requires
            old(self).wf(),
        ensures
            final(self).wf(),
            final(self).chars@ == old(self).chars@,
            match r {
                Ok(e) => parse_from(old(self).chars@, old(self).pos as int) == Ok::<
                    ExprModel,
                    (Seq<ExprModel>, Seq<char>),
                >(e@),
                Err(err) => parse_from(old(self).chars@, old(self).pos as int) == Err::<
                    ExprModel,
                    (Seq<ExprModel>, Seq<char>),
                >(err@),
            },
            r is Ok ==> final(self).pos == old(self).chars@.len(),
    {
        let e = match self.expr() {
            Ok(e) => e,
            Err(err) => {
                return Err(err);
            },
        };
        self.skip_whitespace();
        if self.pos < self.chars.len() {
            let c = self.chars[self.pos];
            let err = unexpected_char_error(c);
            Err(error_after(e, err.message))
        } else {
            Ok(e)
        }
    }

    fn expr(&mut self) -> (r: Result<Expr, SyntaxError>)
        requires
            old(self).wf(),
        ensures
            final(self).wf(),
            final(self).chars@ == old(self).chars@,
            old(self).pos <= final(self).pos,
            step_matches(r, final(self).pos as int, parse_expr(old(self).chars@, old(self).pos as int)),
        decreases old(self).chars@.len() - old(self).pos, 5int,
    {
        let ghost s = self.chars@;
        let ghost i = self.pos as int;
        let mut left = match self.term() {
            Ok(e) => e,
            Err(err) => {
                return Err(err);
            },
        };
        loop
            invariant
                self.wf(),
                self.chars@ == s,
                s == old(self).chars@,
                i == old(self).pos,
                i <= self.pos,
                parse_expr(s, i) == parse_expr_rest(s, self.pos as int, left@),
            decreases s.len() - self.pos,
        {
            let ghost p = self.pos as int;
            self.skip_whitespace();
            proof {
                lemma_skip_blanks(s, p);
            }
            if self.pos >= self.chars.len() {
                return Ok(left);
            }
            let c = self.chars[self.pos];
            let op = if c == '+' {
                BinOp::Add
            } else if c == '-' {
                BinOp::Sub
            } else {
                return Ok(left);
            };
            assert(expr_op(c) == Some(op));
            self.pos = self.pos + 1;
            match self.term() {
                Ok(right) => {
                    left = Expr::Binary(op, Box::new(left), Box::new(right));
                },
                Err(err) => {
                    return Err(prepend_finished(left, err));
                },
            }
        }
    }

    fn term(&mut self) -> (r: Result<Expr, SyntaxError>)
        requires
            old(self).wf(),
        ensures
            final(self).wf(),
            final(self).chars@ == old(self).chars@,
            old(self).pos <= final(self).pos,
            step_matches(r, final(self).pos as int, parse_term(old(self).chars@, old(self).pos as int)),
        decreases old(self).chars@.len() - old(self).pos, 3int,
    {
        let ghost s = self.chars@;
        let ghost i = self.pos as int;
        let mut left = match self.power() {
            Ok(e) => e,
            Err(err) => {
                return Err(err);
            },
        };
        loop
            invariant
                self.wf(),
                self.chars@ == s,
                s == old(self).chars@,
                i == old(self).pos,
                i <= self.pos,
                parse_term(s, i) == parse_term_rest(s, self.pos as int, left@),
            decreases s.len() - self.pos,
        {
            let ghost p = self.pos as int;
            self.skip_whitespace();
            proof {
                lemma_skip_blanks(s, p);
            }
            if self.pos >= self.chars.len() {
                return Ok(left);
            }
            let c = self.chars[self.pos];
            let op = if c == '*' {
                BinOp::Mul
            } else if c == '/' {
                BinOp::Div
            } else if c == '%' {
                BinOp::Rem
            } else {
                return Ok(left);
            };
            assert(term_op(c) == Some(op));
            self.pos = self.pos + 1;
            match self.power() {
                Ok(right) => {
                    left = Expr::Binary(op, Box::new(left), Box::new(right));
                },
                Err(err) => {
                    return Err(prepend_finished(left, err));
                },
            }
        }
    }

    fn power(&mut self) -> (r: Result<Expr, SyntaxError>)
        requires
            old(self).wf(),
        ensures
            final(self).wf(),
            final(self).chars@ == old(self).chars@,
            old(self).pos <= final(self).pos,
            step_matches(r, final(self).pos as int, parse_power(old(self).chars@, old(self).pos as int)),
        decreases old(self).chars@.len() - old(self).pos, 1int,
    {
        let ghost s = self.chars@;
        let ghost i = self.pos as int;
        let base = match self.factor() {
            Ok(e) => e,
            Err(err) => {
                return Err(err);
            },
        };
        let ghost k = self.pos as int;
        self.skip_whitespace();
        proof {
            lemma_skip_blanks(s, k);
        }
        if self.pos < self.chars.len() && self.chars[self.pos] == '^' {
            self.pos = self.pos + 1;
            match self.power() {
                Ok(e) => Ok(Expr::Binary(BinOp::Pow, Box::new(base), Box::new(e))),
                Err(err) => Err(prepend_finished(base, err)),
            }
        } else {
            Ok(base)
        }
    }

    fn factor(&mut self) -> (r: Result<Expr, SyntaxError>)
        requires
            old(self).wf(),
        ensures
            final(self).wf(),
            final(self).chars@ == old(self).chars@,
            old(self).pos <= final(self).pos,
            step_matches(r, final(self).pos as int, parse_factor(old(self).chars@, old(self).pos as int)),
        decreases old(self).chars@.len() - old(self).pos, 0int,
    {
        let ghost s = self.chars@;
        let ghost i = self.pos as int;
        self.skip_whitespace();
        proof {
            lemma_skip_blanks(s, i);
        }
        if self.pos >= self.chars.len() {
            return Err(plain_error(String::from_str("Expression ended unexpectedly")));
        }
        let c = self.chars[self.pos];
        if c == '-' {
            self.pos = self.pos + 1;
            match self.factor() {
                Ok(e) => Ok(Expr::Neg(Box::new(e))),
                Err(err) => Err(err),
            }
        } else if c == '+' {
            self.pos = self.pos + 1;
            self.factor()
        } else if c == '(' {
            self.pos = self.pos + 1;
            match self.expr() {
                Ok(e) => {
                    let ghost k = self.pos as int;
                    self.skip_whitespace();
                    proof {
                        lemma_skip_blanks(s, k);
                    }
                    if self.pos < self.chars.len() && self.chars[self.pos] == ')' {
                        self.pos = self.pos + 1;
                        Ok(e)
                    } else {
                        Err(error_after(e, String::from_str("')' not found")))
                    }
                },
                Err(err) => Err(err),
            }
        } else if number_char(c) {
            self.number()
        } else {
            Err(unexpected_char_error(c))
        }
    }

    fn number(&mut self) -> (r: Result<Expr, SyntaxError>)
        requires
            old(self).wf(),
        ensures
            final(self).wf(),
            final(self).chars@ == old(self).chars@,
            old(self).pos <= final(self).pos,
            step_matches(r, final(self).pos as int, parse_number(old(self).chars@, old(self).pos as int)),
            final(self).pos == number_end(old(self).chars@, old(self).pos as int),
    {
        let ghost s = self.chars@;
        let start = self.pos;
        let mut dots: usize = 0;
        let mut digits: usize = 0;
        while self.pos < self.chars.len() && number_char(self.chars[self.pos])
            invariant
                self.wf(),
                self.chars@ == s,
                start <= self.pos,
                number_end(s, start as int) == number_end(s, self.pos as int),
                dots == count_dots(s.subrange(start as int, self.pos as int)),
                digits == count_digits(s.subrange(start as int, self.pos as int)),
                dots + digits == self.pos - start,
            decreases self.chars@.len() - self.pos,
        {
            let c = self.chars[self.pos];
            assert(s.subrange(start as int, self.pos + 1).drop_last() =~= s.subrange(
                start as int,
                self.pos as int,
            ));
            if c == '.' {
                dots = dots + 1;
            } else {
                digits = digits + 1;
            }
            self.pos = self.pos + 1;
        }
        let text = string_from_chars(self.chars.as_slice(), start, self.pos);
        if dots <= 1 && digits >= 1 {
            Ok(Expr::Number(text))
        } else {
            let mut m = String::from_str("Invalid number: '");
            append_str(&mut m, text.as_str());
            append_str(&mut m, "'");
            Err(plain_error(m))
        }
    }
}

} // verus!
