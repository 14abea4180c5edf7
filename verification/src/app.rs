//! The state of the interactive screen and what each key does to it.
//!
//! The screen keeps a history of evaluated expressions, an input line with a
//! cursor, and a sequence mode (`:add`, `:sub`, ...) in which each new value is
//! combined with a running accumulator. Work that needs the outside world
//! (floating-point evaluation, the clipboard, the clock) is asked for through a
//! [`KeyAction`]; its outcome comes back through the methods that record it.
use vstd::prelude::*;
use crate::expr::{Expr, Parser, SyntaxError, parse_from, ExprModel};
use crate::text::{
    append_str, is_ascii_digit, is_ascii_lowercase, push_char, string_from_chars, trim,
    trim_bounds, trim_start, ascii_lowercase, to_ascii_lowercase_char,
};
use crate::theme::{Theme, ThemeColor};

verus! {

/// What the screen is showing.
#[derive(Clone, Copy, Debug, PartialEq, Eq, Structural)]
pub enum Mode {
    Input,
    Navigate,
    Help,
}

/// The sequence mode: how a new value is combined with the accumulator.
#[derive(Clone, Copy, Debug, PartialEq, Eq, Structural)]
pub enum CalcMode {
    Calc,
    Add,
    Sub,
    Mul,
    Div,
    Pow,
}

pub open spec fn spec_label(m: CalcMode) -> Seq<char> {
    match m {
        CalcMode::Calc => "CALC"@,
        CalcMode::Add => "ADD"@,
        CalcMode::Sub => "SUB"@,
        CalcMode::Mul => "MUL"@,
        CalcMode::Div => "DIV"@,
        CalcMode::Pow => "POW"@,
    }
}

pub open spec fn spec_symbol(m: CalcMode) -> Seq<char> {
    match m {
        CalcMode::Calc => ""@,
        CalcMode::Add => "+"@,
        CalcMode::Sub => "-"@,
        CalcMode::Mul => "*"@,
        CalcMode::Div => "/"@,
        CalcMode::Pow => "^"@,
    }
}

impl CalcMode {
    /// The mode's name on the status line.
    pub fn label(self) -> (s: &'static str)
        ensures
            s@ == spec_label(self),
    {
        match self {
            CalcMode::Calc => "CALC",
            CalcMode::Add => "ADD",
            CalcMode::Sub => "SUB",
            CalcMode::Mul => "MUL",
            CalcMode::Div => "DIV",
            CalcMode::Pow => "POW",
        }
    }

    /// The operator the mode writes into the history.
    pub fn symbol(self) -> (s: &'static str)
        ensures
            s@ == spec_symbol(self),
    {
        match self {
            CalcMode::Calc => "",
            CalcMode::Add => "+",
            CalcMode::Sub => "-",
            CalcMode::Mul => "*",
            CalcMode::Div => "/",
            CalcMode::Pow => "^",
        }
    }
}

/// A key press, as far as the screen tells keys apart.
#[derive(Clone, Copy, Debug, PartialEq, Eq, Structural)]
pub enum Key {
    Char(char),
    Enter,
    Esc,
    Backspace,
    Delete,
    Left,
    Right,
    Home,
    End,
    Up,
    Down,
    Other,
}

/// What a key asks of the caller besides the change of state.
#[derive(Clone, Copy, Debug, PartialEq, Eq, Structural)]
pub enum KeyAction {
    /// Nothing more.
    Nothing,
    /// Leave the program.
    Quit,
    /// Evaluate the input line (see [`App::finish_evaluation`]).
    Evaluate,
    /// Read the clipboard (see [`App::paste_clipboard_to_input`]).
    Paste,
    /// Copy the selected result to the clipboard (see
    /// [`App::copy_selected_result`]).
    Copy,
}

/// How a new value is combined with the accumulator; an accumulator is the
/// IEEE-754 bit pattern of an `f64`.
#[derive(Clone, Copy, Debug, PartialEq, Eq, Structural)]
pub enum Combination {
    /// The new value is the result.
    Value,
    /// The accumulator plus the value.
    Add(u64),
    /// The accumulator minus the value.
    Sub(u64),
    /// The accumulator times the value.
    Mul(u64),
    /// The accumulator divided by the value; a zero value is an error.
    Div(u64),
    /// The accumulator to the power of the value.
    Pow(u64),
}

/// How the input line is drawn.
#[derive(Clone, Copy, Debug, PartialEq, Eq, Structural)]
pub enum LineStyle {
    Plain,
    Error,
    Copied,
}

/// The interactive screen.
pub struct App {
    /// Evaluated lines, oldest first: the expression as shown and its result.
    pub history: Vec<(String, String)>,
    pub input: Vec<char>,
    pub cursor: usize,
    /// The selected history entry, counted from the newest (0).
    pub selected: Option<usize>,
    pub mode: Mode,
    pub calc_mode: CalcMode,
    /// The running value of a sequence mode, as the bits of an `f64`.
    pub accumulator: Option<u64>,
    pub theme: Theme,
    pub error: Option<String>,
    /// A first `y` was pressed in the history.
    pub yank_pending: bool,
    /// The time, in milliseconds, until which "copied!" is shown.
    pub copied_until: Option<u64>,
}

/// The model of an [`App`].
pub struct AppView {
    pub history: Seq<(Seq<char>, Seq<char>)>,
    pub input: Seq<char>,
    pub cursor: int,
    pub selected: Option<int>,
    pub mode: Mode,
    pub calc_mode: CalcMode,
    pub accumulator: Option<u64>,
    pub theme: Theme,
    pub error: Option<Seq<char>>,
    pub yank_pending: bool,
    pub copied_until: Option<u64>,
}

pub open spec fn history_view(h: Seq<(String, String)>) -> Seq<(Seq<char>, Seq<char>)> {
    h.map_values(|p: (String, String)| (p.0@, p.1@))
}

pub open spec fn opt_string_view(o: Option<String>) -> Option<Seq<char>> {
    match o {
        Some(s) => Some(s@),
        None => None,
    }
}

pub open spec fn opt_usize_view(o: Option<usize>) -> Option<int> {
    match o {
        Some(s) => Some(s as int),
        None => None,
    }
}

impl View for App {
    type V = AppView;

    open spec fn view(&self) -> AppView {
        AppView {
            history: history_view(self.history@),
            input: self.input@,
            cursor: self.cursor as int,
            selected: opt_usize_view(self.selected),
            mode: self.mode,
            calc_mode: self.calc_mode,
            accumulator: self.accumulator,
            theme: self.theme,
            error: opt_string_view(self.error),
            yank_pending: self.yank_pending,
            copied_until: self.copied_until,
        }
    }
}

impl AppView {
    /// The cursor lies within the input, and a selection names a history
    /// entry.
    pub open spec fn wf(self) -> bool {
        &&& 0 <= self.cursor <= self.input.len()
        &&& self.selected matches Some(s) ==> 0 <= s < self.history.len()
    }

    /// The input is a command (it starts with `:`).
    pub open spec fn command_input(self) -> bool {
        self.input.len() > 0 && self.input[0] == ':'
    }

    /// Whether typing `c` is accepted: small letters in a command, `:` to
    /// start one, otherwise digits, operators, parentheses, `P` and space.
    pub open spec fn allowed_char(self, c: char) -> bool {
        if self.command_input() {
            is_ascii_lowercase(c)
        } else if self.input.len() == 0 && self.cursor == 0 && c == ':' {
            true
        } else {
            is_ascii_digit(c) || c == '+' || c == '-' || c == '*' || c == '/' || c == '%' || c
                == '^' || c == 'P' || c == '(' || c == ')' || c == ' '
        }
    }

    /// `c` typed at the cursor.
    pub open spec fn with_char(self, c: char) -> AppView {
        AppView { input: self.input.insert(self.cursor, c), cursor: self.cursor + 1, ..self }
    }

    pub open spec fn cleared_input(self) -> AppView {
        AppView { input: Seq::empty(), cursor: 0, ..self }
    }

    /// The result of the selected entry.
    pub open spec fn selected_result(self) -> Option<Seq<char>> {
        match self.selected {
            Some(s) => Some(self.history[self.history.len() - 1 - s].1),
            None => None,
        }
    }
}

/// The sequence mode a command selects, if it is one.
pub open spec fn command_mode(cmd: Seq<char>) -> Option<CalcMode> {
    if cmd == ":add"@ {
        Some(CalcMode::Add)
    } else if cmd == ":sub"@ {
        Some(CalcMode::Sub)
    } else if cmd == ":mul"@ {
        Some(CalcMode::Mul)
    } else if cmd == ":div"@ {
        Some(CalcMode::Div)
    } else if cmd == ":pow"@ {
        Some(CalcMode::Pow)
    } else if cmd == ":calc"@ {
        Some(CalcMode::Calc)
    } else {
        None
    }
}

pub open spec fn lowercase(s: Seq<char>) -> Seq<char> {
    s.map_values(|c: char| ascii_lowercase(c))
}

pub open spec fn unknown_command_message(command: Seq<char>) -> Seq<char> {
    "Unknown command: "@ + command
}

pub open spec fn copy_failed_message(e: Seq<char>) -> Seq<char> {
    "Copy failed: "@ + e
}

pub open spec fn paste_failed_message(e: Seq<char>) -> Seq<char> {
    "Paste failed: "@ + e
}

pub open spec fn division_by_zero_message() -> Seq<char> {
    "Division by zero"@
}

impl AppView {
    /// A command run: a known one switches the sequence mode and clears the
    /// accumulator and the error, an unknown one sets the error; either way
    /// the input is cleared.
    pub open spec fn after_command(self, command: Seq<char>) -> AppView {
        let v = match command_mode(lowercase(trim(command))) {
            Some(m) => AppView { calc_mode: m, accumulator: None, error: None, ..self },
            None => AppView { error: Some(unknown_command_message(command)), ..self },
        };
        AppView { input: Seq::empty(), cursor: 0, yank_pending: false, ..v }
    }

    /// The input evaluated: nothing for a blank input, a command run for a
    /// command; otherwise the state stays and a numeric evaluation is asked
    /// for (the `bool`).
    pub open spec fn after_evaluate(self) -> (AppView, bool) {
        if trim(self.input).len() == 0 {
            (self, false)
        } else if trim_start(self.input)[0] == ':' {
            (self.after_command(self.input), false)
        } else {
            (self, true)
        }
    }

    /// The text `t` inserted at the cursor, with the cursor after it.
    pub open spec fn with_text(self, t: Seq<char>) -> AppView {
        AppView {
            input: self.input.subrange(0, self.cursor) + t + self.input.subrange(
                self.cursor,
                self.input.len() as int,
            ),
            cursor: self.cursor + t.len(),
            ..self
        }
    }

    /// The characters of `t` typed one by one, those not accepted skipped.
    pub open spec fn with_pasted(self, t: Seq<char>) -> AppView
        decreases t.len(),
    {
        if t.len() == 0 {
            self
        } else {
            let v = if self.allowed_char(t[0]) {
                self.with_char(t[0])
            } else {
                self
            };
            v.with_pasted(t.drop_first())
        }
    }

    /// A key in input mode.
    pub open spec fn input_key(self, key: Key) -> (AppView, KeyAction) {
        let v = AppView { yank_pending: false, ..self };
        match key {
            Key::Enter => {
                let (w, ask) = self.after_evaluate();
                (w, if ask { KeyAction::Evaluate } else { KeyAction::Nothing })
            },
            Key::Char('=') => {
                let (w, ask) = self.after_evaluate();
                (w, if ask { KeyAction::Evaluate } else { KeyAction::Nothing })
            },
            Key::Esc => (AppView { error: None, ..v.cleared_input() }, KeyAction::Nothing),
            Key::Backspace => (
                if self.error is Some {
                    AppView { error: None, ..v }
                } else if self.cursor > 0 {
                    AppView {
                        cursor: self.cursor - 1,
                        input: self.input.remove(self.cursor - 1),
                        ..v
                    }
                } else {
                    v
                },
                KeyAction::Nothing,
            ),
            Key::Delete => (
                if self.cursor < self.input.len() {
                    AppView { input: self.input.remove(self.cursor), error: None, ..v }
                } else {
                    v
                },
                KeyAction::Nothing,
            ),
            Key::Left => (
                if self.cursor > 0 {
                    AppView { cursor: self.cursor - 1, ..v }
                } else {
                    v
                },
                KeyAction::Nothing,
            ),
            Key::Right => (
                if self.cursor < self.input.len() {
                    AppView { cursor: self.cursor + 1, ..v }
                } else {
                    v
                },
                KeyAction::Nothing,
            ),
            Key::Home => (AppView { cursor: 0, ..v }, KeyAction::Nothing),
            Key::End => (AppView { cursor: self.input.len() as int, ..v }, KeyAction::Nothing),
            _ => {
                let to_history = (key == Key::Char('j') || key == Key::Down || key == Key::Char(
                    'k',
                ) || key == Key::Up) && self.history.len() > 0;
                if to_history {
                    (AppView { mode: Mode::Navigate, selected: Some(0), ..v }, KeyAction::Nothing)
                } else {
                    match key {
                        Key::Char(c) => if self.allowed_char(c) {
                            (AppView { error: None, ..v.with_char(c) }, KeyAction::Nothing)
                        } else {
                            (v, KeyAction::Nothing)
                        },
                        _ => (v, KeyAction::Nothing),
                    }
                }
            },
        }
    }

    /// A key in history navigation.
    pub open spec fn navigate_key(self, key: Key) -> (AppView, KeyAction) {
        let v = AppView { yank_pending: false, ..self };
        let back = AppView { mode: Mode::Input, selected: None, ..v };
        match key {
            Key::Esc => (back, KeyAction::Nothing),
            Key::Char('j') | Key::Down => (
                match self.selected {
                    Some(s) => if s > 0 {
                        AppView { selected: Some(s - 1), ..v }
                    } else {
                        v
                    },
                    None => v,
                },
                KeyAction::Nothing,
            ),
            Key::Char('k') | Key::Up => (
                match self.selected {
                    Some(s) => if s + 1 < self.history.len() {
                        AppView { selected: Some(s + 1), ..v }
                    } else {
                        v
                    },
                    None => v,
                },
                KeyAction::Nothing,
            ),
            Key::Enter => (
                match self.selected_result() {
                    Some(r) => AppView { mode: Mode::Input, selected: None, ..v.with_text(r) },
                    None => v,
                },
                KeyAction::Nothing,
            ),
            Key::Char('y') => if self.yank_pending {
                (v, if self.selected is Some { KeyAction::Copy } else { KeyAction::Nothing })
            } else {
                (AppView { yank_pending: true, ..self }, KeyAction::Nothing)
            },
            Key::Backspace => (
                if self.cursor > 0 {
                    AppView {
                        cursor: self.cursor - 1,
                        input: self.input.remove(self.cursor - 1),
                        error: None,
                        ..back
                    }
                } else {
                    back
                },
                KeyAction::Nothing,
            ),
            Key::Char(c) => if self.allowed_char(c) {
                (AppView { error: None, ..back.with_char(c) }, KeyAction::Nothing)
            } else {
                (back, KeyAction::Nothing)
            },
            _ => (back, KeyAction::Nothing),
        }
    }

    /// What a key does: the next state and what it asks of the caller.
    pub open spec fn after_key(self, key: Key) -> (AppView, KeyAction) {
        let plain_input = self.mode == Mode::Input && !self.command_input();
        if key == Key::Char('?') {
            (AppView { mode: Mode::Help, selected: None, yank_pending: false, ..self }, KeyAction::Nothing)
        } else if self.mode == Mode::Help {
            (
                AppView {
                    mode: if key == Key::Esc {
                        Mode::Input
                    } else {
                        Mode::Help
                    },
                    yank_pending: false,
                    ..self
                },
                KeyAction::Nothing,
            )
        } else if key == Key::Char('q') && plain_input {
            (AppView { yank_pending: false, ..self }, KeyAction::Quit)
        } else if key == Key::Char('c') && plain_input {
            (
                AppView {
                    accumulator: None,
                    error: None,
                    yank_pending: false,
                    ..self.cleared_input()
                },
                KeyAction::Nothing,
            )
        } else if key == Key::Char('p') && plain_input {
            (AppView { yank_pending: false, ..self }, KeyAction::Paste)
        } else if self.mode == Mode::Input {
            self.input_key(key)
        } else {
            self.navigate_key(key)
        }
    }
}

/// How a numeric outcome stands as plain values.
pub open spec fn outcome_view(outcome: Result<(u64, String), String>) -> Result<
    (u64, Seq<char>),
    Seq<char>,
> {
    match outcome {
        Ok((bits, text)) => Ok((bits, text@)),
        Err(m) => Err(m@),
    }
}

impl AppView {
    /// The state after a numeric evaluation of the input: its failure sets the
    /// error; a value (its bits and its text) is recorded in the history, with
    /// the accumulator's text (`previous_text`) and the mode's operator in
    /// front of the input when a sequence mode has one, becomes the
    /// accumulator in a sequence mode, and clears the input and the error.
    pub open spec fn after_evaluation(
        self,
        outcome: Result<(u64, Seq<char>), Seq<char>>,
        previous_text: Seq<char>,
    ) -> AppView {
        match outcome {
            Err(m) => AppView { error: Some(m), ..self },
            Ok((bits, text)) => {
                let shown = if self.calc_mode == CalcMode::Calc {
                    self.input
                } else if self.accumulator is Some {
                    previous_text + " "@ + spec_symbol(self.calc_mode) + " "@ + self.input
                } else {
                    self.input
                };
                AppView {
                    accumulator: if self.calc_mode == CalcMode::Calc {
                        self.accumulator
                    } else {
                        Some(bits)
                    },
                    history: self.history.push((shown, text)),
                    input: Seq::empty(),
                    cursor: 0,
                    error: None,
                    ..self
                }
            },
        }
    }

    /// How the mode combines a new value with the accumulator; an addition
    /// starts from zero (the bits `0`).
    pub open spec fn combination(self) -> Combination {
        match self.calc_mode {
            CalcMode::Calc => Combination::Value,
            CalcMode::Add => Combination::Add(
                match self.accumulator {
                    Some(a) => a,
                    None => 0,
                },
            ),
            CalcMode::Sub => match self.accumulator {
                Some(a) => Combination::Sub(a),
                None => Combination::Value,
            },
            CalcMode::Mul => match self.accumulator {
                Some(a) => Combination::Mul(a),
                None => Combination::Value,
            },
            CalcMode::Div => match self.accumulator {
                Some(a) => Combination::Div(a),
                None => Combination::Value,
            },
            CalcMode::Pow => match self.accumulator {
                Some(a) => Combination::Pow(a),
                None => Combination::Value,
            },
        }
    }

    /// The clock at `now` (milliseconds): "copied!" ends once its time is
    /// reached.
    pub open spec fn after_tick(self, now: u64) -> AppView {
        AppView {
            copied_until: match self.copied_until {
                Some(u) => if now >= u {
                    None
                } else {
                    Some(u)
                },
                None => None,
            },
            ..self
        }
    }

    /// The outcome of copying the selected result to the clipboard at `now`:
    /// success shows "copied!" for a second and clears the error, failure sets
    /// the error. Without a selection nothing was copied and nothing changes.
    pub open spec fn after_copy(self, outcome: Result<(), Seq<char>>, now: u64) -> AppView {
        if self.selected is None {
            self
        } else {
            match outcome {
                Ok(()) => AppView {
                    copied_until: Some(
                        if now + 1000 <= u64::MAX {
                            (now + 1000) as u64
                        } else {
                            u64::MAX
                        },
                    ),
                    error: None,
                    ..self
                },
                Err(e) => AppView { error: Some(copy_failed_message(e)), ..self },
            }
        }
    }

    /// The outcome of reading the clipboard: its text is typed at the cursor
    /// (characters that are not accepted skipped) and the error cleared; a
    /// failure sets the error.
    pub open spec fn after_paste(self, outcome: Result<Seq<char>, Seq<char>>) -> AppView {
        match outcome {
            Ok(t) => AppView { error: None, ..self.with_pasted(t) },
            Err(e) => AppView { error: Some(paste_failed_message(e)), ..self },
        }
    }
}

/// Whether the characters `v` spell `lit`.
fn chars_eq_str(v: &[char], lit: &str) -> (r: bool)
    ensures
        r == (v@ == lit@),
{
    let n = lit.unicode_len();
    if v.len() != n {
        return false;
    }
    let mut i: usize = 0;
    while i < n
        invariant
            n == lit@.len(),
            n == v@.len(),
            i <= n,
            forall|k: int| 0 <= k < i ==> v@[k] == lit@[k],
        decreases n - i,
    {
        if v[i] != lit.get_char(i) {
            return false;
        }
        i = i + 1;
    }
    assert(v@ =~= lit@);
    true
}

/// A `String` holding `v`.
fn string_of(v: &Vec<char>) -> (s: String)
    ensures
        s@ == v@,
{
    let s = string_from_chars(v.as_slice(), 0, v.len());
    assert(v@.subrange(0, v@.len() as int) =~= v@);
    s
}

/// `prefix` followed by `rest`.
fn message(prefix: &str, rest: &str) -> (s: String)
    ensures
        s@ == prefix@ + rest@,
{
    let mut s = String::from_str(prefix);
    append_str(&mut s, rest);
    s
}

impl App {
    /// A fresh screen: empty history and input, plain calculation.
    pub fn new(theme: Theme) -> (a: App)
        ensures
            a@ == (AppView {
                history: Seq::empty(),
                input: Seq::empty(),
                cursor: 0,
                selected: None,
                mode: Mode::Input,
                calc_mode: CalcMode::Calc,
                accumulator: None,
                theme: theme,
                error: None,
                yank_pending: false,
                copied_until: None,
            }),
            a@.wf(),
    {
        let a = App {
            history: Vec::new(),
            input: Vec::new(),
            cursor: 0,
            selected: None,
            mode: Mode::Input,
            calc_mode: CalcMode::Calc,
            accumulator: None,
            theme,
            error: None,
            yank_pending: false,
            copied_until: None,
        };
        assert(a@.history =~= Seq::<(Seq<char>, Seq<char>)>::empty());
        a
    }

    /// The input line as text.
    pub fn input_string(&self) -> (s: String)
        ensures
            s@ == self.input@,
    {
        string_of(&self.input)
    }

    pub fn is_command_input(&self) -> (b: bool)
        ensures
            b == self@.command_input(),
    {
        self.input.len() > 0 && self.input[0] == ':'
    }

    pub fn is_allowed_input_char(&self, c: char) -> (b: bool)
        ensures
            b == self@.allowed_char(c),
    {
        if self.is_command_input() {
            'a' <= c && c <= 'z'
        } else if self.input.len() == 0 && self.cursor == 0 && c == ':' {
            true
        } else {
            ('0' <= c && c <= '9') || c == '+' || c == '-' || c == '*' || c == '/' || c == '%' || c
                == '^' || c == 'P' || c == '(' || c == ')' || c == ' '
        }
    }

    /// Parses `input` as an expression.
    pub fn parse_value(input: &str) -> (r: Result<Expr, SyntaxError>)
        ensures
            match r {
                Ok(e) => parse_from(input@, 0) == Ok::<ExprModel, (Seq<ExprModel>, Seq<char>)>(
                    e@,
                ),
                Err(err) => parse_from(input@, 0) == Err::<
                    ExprModel,
                    (Seq<ExprModel>, Seq<char>),
                >(err@),
            },
    {
        let mut parser = Parser::new(input);
        parser.parse()
    }

    /// Runs the command `command` (see [`AppView::after_command`]).
    pub fn apply_command(&mut self, command: &str)
        requires
            old(self)@.wf(),
        ensures
            final(self)@ == old(self)@.after_command(command@),
            final(self)@.wf(),
    {
        let trimmed = crate::text::trimmed_chars(command);
        let mut cmd: Vec<char> = Vec::new();
        let mut i: usize = 0;
        while i < trimmed.len()
            invariant
                i <= trimmed@.len(),
                cmd@ == lowercase(trimmed@.subrange(0, i as int)),
            decreases trimmed@.len() - i,
        {
            cmd.push(to_ascii_lowercase_char(trimmed[i]));
            i = i + 1;
            assert(cmd@ =~= lowercase(trimmed@.subrange(0, i as int)));
        }
        assert(trimmed@.subrange(0, trimmed@.len() as int) =~= trimmed@);
        let next = if chars_eq_str(cmd.as_slice(), ":add") {
            Some(CalcMode::Add)
        } else if chars_eq_str(cmd.as_slice(), ":sub") {
            Some(CalcMode::Sub)
        } else if chars_eq_str(cmd.as_slice(), ":mul") {
            Some(CalcMode::Mul)
        } else if chars_eq_str(cmd.as_slice(), ":div") {
            Some(CalcMode::Div)
        } else if chars_eq_str(cmd.as_slice(), ":pow") {
            Some(CalcMode::Pow)
        } else if chars_eq_str(cmd.as_slice(), ":calc") {
            Some(CalcMode::Calc)
        } else {
            None
        };
        match next {
            Some(mode) => {
                self.calc_mode = mode;
                self.accumulator = None;
                self.error = None;
            },
            None => {
                self.error = Some(message("Unknown command: ", command));
            },
        }
        self.input.clear();
        self.cursor = 0;
        self.yank_pending = false;
    }

    /// Enter in input mode (see [`AppView::after_evaluate`]); `true` asks the
    /// caller to evaluate the input and report through
    /// [`App::finish_evaluation`].
    pub fn evaluate(&mut self) -> (ask: bool)
        requires
            old(self)@.wf(),
        ensures
            (final(self)@, ask) == old(self)@.after_evaluate(),
            final(self)@.wf(),
    {
        let (a, b) = trim_bounds(self.input.as_slice());
        if a == b {
            assert(trim(self.input@).len() == 0);
            return false;
        }
        assert(trim_start(self.input@)[0] == self.input@[a as int]);
        if self.input[a] == ':' {
            let expr = self.input_string();
            self.apply_command(expr.as_str());
            false
        } else {
            true
        }
    }

    /// How the sequence mode combines the next value with the accumulator.
    pub fn combination(&self) -> (c: Combination)
        ensures
            c == self@.combination(),
    {
        match self.calc_mode {
            CalcMode::Calc => Combination::Value,
            CalcMode::Add => Combination::Add(
                match self.accumulator {
                    Some(a) => a,
                    None => 0,
                },
            ),
            CalcMode::Sub => match self.accumulator {
                Some(a) => Combination::Sub(a),
                None => Combination::Value,
            },
            CalcMode::Mul => match self.accumulator {
                Some(a) => Combination::Mul(a),
                None => Combination::Value,
            },
            CalcMode::Div => match self.accumulator {
                Some(a) => Combination::Div(a),
                None => Combination::Value,
            },
            CalcMode::Pow => match self.accumulator {
                Some(a) => Combination::Pow(a),
                None => Combination::Value,
            },
        }
    }

    /// Records the outcome of evaluating the input: `Ok` with the bits of the
    /// combined value and its text, or the error message; `previous_text` is
    /// the text of the accumulator before (see [`AppView::after_evaluation`]).
    pub fn finish_evaluation(
        &mut self,
        outcome: Result<(u64, String), String>,
        previous_text: &str,
    )
        requires
            old(self)@.wf(),
        ensures
            final(self)@ == old(self)@.after_evaluation(outcome_view(outcome), previous_text@),
            final(self)@.wf(),
    {
        match outcome {
            Err(m) => {
                self.error = Some(m);
            },
            Ok((bits, text)) => {
                let expr = self.input_string();
                let shown = if self.calc_mode == CalcMode::Calc {
                    expr
                } else if self.accumulator.is_some() {
                    let mut h = String::from_str(previous_text);
                    append_str(&mut h, " ");
                    append_str(&mut h, self.calc_mode.symbol());
                    append_str(&mut h, " ");
                    append_str(&mut h, expr.as_str());
                    h
                } else {
                    expr
                };
                if self.calc_mode != CalcMode::Calc {
                    self.accumulator = Some(bits);
                }
                self.history.push((shown, text));
                self.input.clear();
                self.cursor = 0;
                self.error = None;
                proof {
                    assert(history_view(self.history@) =~= history_view(old(self).history@).push(
                        (shown@, text@),
                    ));
                }
            },
        }
    }

    /// Types `s` at the cursor and moves the cursor after it.
    pub fn insert_result_at_cursor(&mut self, s: &str)
        requires
            old(self)@.wf(),
        ensures
            final(self)@ == old(self)@.with_text(s@),
            final(self)@.wf(),
    {
        let chars = crate::text::chars_of(s);
        let ghost before = self.input@;
        let ghost c0 = self.cursor as int;
        let mut i: usize = 0;
        while i < chars.len()
            invariant
                i <= chars@.len(),
                self.cursor == old(self).cursor,
                c0 == self.cursor,
                before == old(self).input@,
                0 <= c0 <= before.len(),
                self.input@ == before.subrange(0, c0) + chars@.subrange(0, i as int)
                    + before.subrange(c0, before.len() as int),
                self.history@ == old(self).history@,
                self.selected == old(self).selected,
                self.mode == old(self).mode,
                self.calc_mode == old(self).calc_mode,
                self.accumulator == old(self).accumulator,
                self.theme == old(self).theme,
                self.error == old(self).error,
                self.yank_pending == old(self).yank_pending,
                self.copied_until == old(self).copied_until,
            decreases chars@.len() - i,
        {
            assert(self.input@.len() == before.len() + i);
            let len_now = self.input.len();
            assert(self.cursor + i <= len_now);
            self.input.insert(self.cursor + i, chars[i]);
            i = i + 1;
            assert(self.input@ =~= before.subrange(0, c0) + chars@.subrange(0, i as int)
                + before.subrange(c0, before.len() as int));
        }
        assert(chars@.subrange(0, chars@.len() as int) =~= chars@);
        let len_now = self.input.len();
        assert(self.cursor + chars.len() <= len_now);
        self.cursor = self.cursor + chars.len();
    }
}

impl App {
    /// The clock at `now_ms` (see [`AppView::after_tick`]).
    pub fn tick(&mut self, now_ms: u64)
        requires
            old(self)@.wf(),
        ensures
            final(self)@ == old(self)@.after_tick(now_ms),
            final(self)@.wf(),
    {
        if let Some(until) = self.copied_until {
            if now_ms >= until {
                self.copied_until = None;
            }
        }
    }

    /// The result of the selected history entry, which [`KeyAction::Copy`]
    /// asks to be copied.
    pub fn selected_result(&self) -> (r: Option<String>)
        requires
            self@.wf(),
        ensures
            opt_string_view(r) == self@.selected_result(),
    {
        match self.selected {
            Some(sel) => {
                let index = self.history.len() - 1 - sel;
                let result = self.history[index].1.clone();
                Some(result)
            },
            None => None,
        }
    }

    /// Records the outcome of copying [`App::selected_result`] to the
    /// clipboard at `now_ms` (see [`AppView::after_copy`]).
    pub fn copy_selected_result(&mut self, outcome: Result<(), String>, now_ms: u64)
        requires
            old(self)@.wf(),
        ensures
            final(self)@ == old(self)@.after_copy(
                match outcome {
                    Ok(()) => Ok(()),
                    Err(e) => Err(e@),
                },
                now_ms,
            ),
            final(self)@.wf(),
    {
        if self.selected.is_none() {
            return;
        }
        match outcome {
            Ok(()) => {
                let until: u64 = if now_ms <= u64::MAX - 1000 {
                    now_ms + 1000
                } else {
                    u64::MAX
                };
                self.copied_until = Some(until);
                self.error = None;
            },
            Err(e) => {
                self.error = Some(message("Copy failed: ", e.as_str()));
            },
        }
    }

    /// Records the outcome of reading the clipboard (see
    /// [`AppView::after_paste`]).
    pub fn paste_clipboard_to_input(&mut self, outcome: Result<String, String>)
        requires
            old(self)@.wf(),
        ensures
            final(self)@ == old(self)@.after_paste(
                match outcome {
                    Ok(t) => Ok(t@),
                    Err(e) => Err(e@),
                },
            ),
            final(self)@.wf(),
    {
        match outcome {
            Ok(text) => {
                let chars = crate::text::chars_of(text.as_str());
                let ghost t = chars@;
                assert(t.subrange(0, t.len() as int) =~= t);
                let mut i: usize = 0;
                while i < chars.len()
                    invariant
                        i <= t.len(),
                        t == chars@,
                        self@.wf(),
                        old(self)@.with_pasted(t) == self@.with_pasted(
                            t.subrange(i as int, t.len() as int),
                        ),
                    decreases t.len() - i,
                {
                    let c = chars[i];
                    let ghost rest = t.subrange(i as int, t.len() as int);
                    assert(rest[0] == c);
                    assert(rest.drop_first() =~= t.subrange(i + 1, t.len() as int));
                    if self.is_allowed_input_char(c) {
                        let len_now = self.input.len();
                        assert(self.cursor <= len_now);
                        self.input.insert(self.cursor, c);
                        let len_after = self.input.len();
                        assert(self.cursor < len_after);
                        self.cursor = self.cursor + 1;
                    }
                    i = i + 1;
                }
                assert(t.subrange(t.len() as int, t.len() as int) =~= Seq::<char>::empty());
                self.error = None;
            },
            Err(e) => {
                self.error = Some(message("Paste failed: ", e.as_str()));
            },
        }
    }

    fn type_char(&mut self, c: char)
        requires
            old(self)@.wf(),
        ensures
            final(self)@ == old(self)@.with_char(c),
            final(self)@.wf(),
    {
        let len_now = self.input.len();
        assert(self.cursor <= len_now);
        self.input.insert(self.cursor, c);
        let len_after = self.input.len();
        assert(self.cursor < len_after);
        self.cursor = self.cursor + 1;
    }

    fn input_key(&mut self, key: Key) -> (r: KeyAction)
        requires
            old(self)@.wf(),
            old(self).mode == Mode::Input,
        ensures
            (final(self)@, r) == old(self)@.input_key(key),
            final(self)@.wf(),
    {
        match key {
            Key::Enter => {
                if self.evaluate() {
                    KeyAction::Evaluate
                } else {
                    KeyAction::Nothing
                }
            },
            Key::Char('=') => {
                if self.evaluate() {
                    KeyAction::Evaluate
                } else {
                    KeyAction::Nothing
                }
            },
            Key::Esc => {
                self.input.clear();
                self.cursor = 0;
                self.error = None;
                self.yank_pending = false;
                KeyAction::Nothing
            },
            Key::Backspace => {
                self.yank_pending = false;
                if self.error.is_some() {
                    self.error = None;
                } else if self.cursor > 0 {
                    self.cursor = self.cursor - 1;
                    self.input.remove(self.cursor);
                }
                KeyAction::Nothing
            },
            Key::Delete => {
                self.yank_pending = false;
                if self.cursor < self.input.len() {
                    self.input.remove(self.cursor);
                    self.error = None;
                }
                KeyAction::Nothing
            },
            Key::Left => {
                self.yank_pending = false;
                if self.cursor > 0 {
                    self.cursor = self.cursor - 1;
                }
                KeyAction::Nothing
            },
            Key::Right => {
                self.yank_pending = false;
                if self.cursor < self.input.len() {
                    self.cursor = self.cursor + 1;
                }
                KeyAction::Nothing
            },
            Key::Home => {
                self.yank_pending = false;
                self.cursor = 0;
                KeyAction::Nothing
            },
            Key::End => {
                self.yank_pending = false;
                self.cursor = self.input.len();
                KeyAction::Nothing
            },
            _ => {
                let to_history = (key == Key::Char('j') || key == Key::Down || key == Key::Char(
                    'k',
                ) || key == Key::Up) && self.history.len() > 0;
                self.yank_pending = false;
                if to_history {
                    self.mode = Mode::Navigate;
                    self.selected = Some(0);
                } else {
                    match key {
                        Key::Char(c) => {
                            if self.is_allowed_input_char(c) {
                                self.type_char(c);
                                self.error = None;
                            }
                        },
                        _ => {},
                    }
                }
                KeyAction::Nothing
            },
        }
    }

    fn navigate_key(&mut self, key: Key) -> (r: KeyAction)
        requires
            old(self)@.wf(),
            old(self).mode == Mode::Navigate,
        ensures
            (final(self)@, r) == old(self)@.navigate_key(key),
            final(self)@.wf(),
    {
        match key {
            Key::Esc => {
                self.mode = Mode::Input;
                self.selected = None;
                self.yank_pending = false;
                KeyAction::Nothing
            },
            Key::Char('j') | Key::Down => {
                self.yank_pending = false;
                if let Some(sel) = self.selected {
                    if sel > 0 {
                        self.selected = Some(sel - 1);
                    }
                }
                KeyAction::Nothing
            },
            Key::Char('k') | Key::Up => {
                self.yank_pending = false;
                if let Some(sel) = self.selected {
                    let n = self.history.len();
                    assert(sel < n);
                    if sel + 1 < n {
                        self.selected = Some(sel + 1);
                    }
                }
                KeyAction::Nothing
            },
            Key::Enter => {
                self.yank_pending = false;
                if let Some(result) = self.selected_result() {
                    self.insert_result_at_cursor(result.as_str());
                    self.mode = Mode::Input;
                    self.selected = None;
                }
                KeyAction::Nothing
            },
            Key::Char('y') => {
                if self.yank_pending {
                    self.yank_pending = false;
                    if self.selected.is_some() {
                        KeyAction::Copy
                    } else {
                        KeyAction::Nothing
                    }
                } else {
                    self.yank_pending = true;
                    KeyAction::Nothing
                }
            },
            Key::Backspace => {
                self.yank_pending = false;
                self.mode = Mode::Input;
                self.selected = None;
                if self.cursor > 0 {
                    self.cursor = self.cursor - 1;
                    self.input.remove(self.cursor);
                    self.error = None;
                }
                KeyAction::Nothing
            },
            Key::Char(c) => {
                self.yank_pending = false;
                self.mode = Mode::Input;
                self.selected = None;
                if self.is_allowed_input_char(c) {
                    self.type_char(c);
                    self.error = None;
                }
                KeyAction::Nothing
            },
            _ => {
                self.yank_pending = false;
                self.mode = Mode::Input;
                self.selected = None;
                KeyAction::Nothing
            },
        }
    }

    /// What a key does (see [`AppView::after_key`]): the state changes, and
    /// the returned action says what the caller has to do besides.
    pub fn handle_key(&mut self, key: Key) -> (r: KeyAction)
        requires
            old(self)@.wf(),
        ensures
            (final(self)@, r) == old(self)@.after_key(key),
            final(self)@.wf(),
    {
        if key == Key::Char('?') {
            self.mode = Mode::Help;
            self.selected = None;
            self.yank_pending = false;
            return KeyAction::Nothing;
        }
        if self.mode == Mode::Help {
            if key == Key::Esc {
                self.mode = Mode::Input;
            }
            self.yank_pending = false;
            return KeyAction::Nothing;
        }
        let plain_input = self.mode == Mode::Input && !self.is_command_input();
        if key == Key::Char('q') && plain_input {
            self.yank_pending = false;
            return KeyAction::Quit;
        }
        if key == Key::Char('c') && plain_input {
            self.accumulator = None;
            self.error = None;
            self.input.clear();
            self.cursor = 0;
            self.yank_pending = false;
            return KeyAction::Nothing;
        }
        if key == Key::Char('p') && plain_input {
            self.yank_pending = false;
            return KeyAction::Paste;
        }
        if self.mode == Mode::Input {
            self.input_key(key)
        } else {
            self.navigate_key(key)
        }
    }
}

/// A history entry as the list shows it.
pub open spec fn history_line(e: (Seq<char>, Seq<char>)) -> Seq<char> {
    e.0 + " = "@ + e.1
}

/// `s` padded with spaces on the right to at least `w` characters.
pub open spec fn pad_right(s: Seq<char>, w: nat) -> Seq<char> {
    if s.len() >= w {
        s
    } else {
        s + Seq::new((w - s.len()) as nat, |k: int| ' ')
    }
}

/// The prompt in front of the input line.
pub open spec fn prompt() -> Seq<char> {
    "#vical > "@
}

impl AppView {
    /// The history list, newest entry first.
    pub open spec fn history_items(self) -> Seq<Seq<char>> {
        Seq::new(
            self.history.len(),
            |k: int| history_line(self.history[self.history.len() - 1 - k]),
        )
    }

    /// The mode's name on the status line.
    pub open spec fn mode_text(self) -> Seq<char> {
        match self.mode {
            Mode::Input => spec_label(self.calc_mode),
            Mode::Navigate => "SELECT/"@ + spec_label(self.calc_mode),
            Mode::Help => "HELP"@,
        }
    }

    /// The key hints on the status line.
    pub open spec fn help_hint(self) -> Seq<char> {
        match self.mode {
            Mode::Input => "[Enter:run  q:quit  c:clear-seq  p:paste  j/k/↑/↓:history  :add/:sub/:mul/:div/:pow/:calc]"@,
            Mode::Navigate => "[j/↓:newer  k/↑:older  Enter:insert  Esc:cancel]"@,
            Mode::Help => "[Esc:back]"@,
        }
    }

    /// The status line: the mode's name in a column of eight, then the hints.
    pub open spec fn status_line(self) -> Seq<char> {
        pad_right(self.mode_text(), 8) + " "@ + self.help_hint()
    }

    /// The input line and how it is drawn: "copied!" while a copy is shown,
    /// else the error, else the input, after the prompt.
    pub open spec fn input_line(self) -> (Seq<char>, LineStyle) {
        if self.copied_until is Some {
            (prompt() + "copied!"@, LineStyle::Copied)
        } else if self.error is Some {
            (prompt() + self.error->0, LineStyle::Error)
        } else {
            (prompt() + self.input, LineStyle::Plain)
        }
    }

    /// The background and text colours of the status line.
    pub open spec fn status_colors(self) -> (ThemeColor, ThemeColor) {
        if self.mode == Mode::Input {
            (self.theme.accent_bg, self.theme.accent_fg)
        } else {
            (ThemeColor::Gray, ThemeColor::Black)
        }
    }

    /// Where the terminal cursor goes on an input line that starts at column
    /// `x` of row `y` and is `width` wide: after the prompt and the characters
    /// before the cursor (the cursor counted modulo 2^16, as a `u16`), when
    /// input is being typed and that column is within the line.
    pub open spec fn cursor_position(self, x: u16, y: u16, width: u16) -> Option<(u16, u16)> {
        let column = x + 9 + self.cursor % 65536;
        if self.mode == Mode::Input && self.error is None && column <= x + width {
            Some((column as u16, y))
        } else {
            None
        }
    }
}

/// The help screen.
pub fn help_screen_text() -> (s: &'static str)
    ensures
        s@ == "\nGeneral\n  q: Quit app (Input mode)\n  ?: Open help\n  p: Paste clipboard into input\n  Esc: Close help / cancel history selection\n\nHistory\n  j or Down: Move to newer entry\n  k or Up: Move to older entry\n  Enter: Insert selected result\n  yy: Copy selected result\n\nCommands\n  :add  :sub  :mul  :div  :pow  :calc\n\nSequence\n  c: Clear sequence accumulator"@,
{
    "\nGeneral\n  q: Quit app (Input mode)\n  ?: Open help\n  p: Paste clipboard into input\n  Esc: Close help / cancel history selection\n\nHistory\n  j or Down: Move to newer entry\n  k or Up: Move to older entry\n  Enter: Insert selected result\n  yy: Copy selected result\n\nCommands\n  :add  :sub  :mul  :div  :pow  :calc\n\nSequence\n  c: Clear sequence accumulator"
}

impl App {
    /// The history list, newest entry first, as `expression = result`.
    pub fn history_items(&self) -> (items: Vec<String>)
        ensures
            items@.len() == self@.history_items().len(),
            forall|k: int| 0 <= k < items@.len() ==> #[trigger] items@[k]@ == self@.history_items()[k],
    {
        let n = self.history.len();
        let mut items: Vec<String> = Vec::new();
        let mut k: usize = 0;
        while k < n
            invariant
                n == self.history@.len(),
                k <= n,
                items@.len() == k,
                forall|j: int| 0 <= j < k ==> #[trigger] items@[j]@ == self@.history_items()[j],
            decreases n - k,
        {
            let entry = &self.history[n - 1 - k];
            let mut line = entry.0.clone();
            append_str(&mut line, " = ");
            append_str(&mut line, entry.1.as_str());
            items.push(line);
            k = k + 1;
        }
        items
    }

    /// The mode's name on the status line.
    pub fn mode_text(&self) -> (s: String)
        ensures
            s@ == self@.mode_text(),
    {
        match self.mode {
            Mode::Input => String::from_str(self.calc_mode.label()),
            Mode::Navigate => message("SELECT/", self.calc_mode.label()),
            Mode::Help => String::from_str("HELP"),
        }
    }

    /// The key hints on the status line.
    pub fn help_hint(&self) -> (s: &'static str)
        ensures
            s@ == self@.help_hint(),
    {
        match self.mode {
            Mode::Input => "[Enter:run  q:quit  c:clear-seq  p:paste  j/k/↑/↓:history  :add/:sub/:mul/:div/:pow/:calc]",
            Mode::Navigate => "[j/↓:newer  k/↑:older  Enter:insert  Esc:cancel]",
            Mode::Help => "[Esc:back]",
        }
    }

    /// The status line.
    pub fn status_line(&self) -> (s: String)
        ensures
            s@ == self@.status_line(),
    {
        let mut s = self.mode_text();
        let ghost text = s@;
        let n = s.as_str().unicode_len();
        let mut k: usize = n;
        while k < 8
            invariant
                n == text.len(),
                n <= k <= 8 || (n > 8 && k == n),
                s@ == text + Seq::new((k - n) as nat, |j: int| ' '),
            decreases 8 - k,
        {
            push_char(&mut s, ' ');
            k = k + 1;
            assert(s@ =~= text + Seq::new((k - n) as nat, |j: int| ' '));
        }
        assert(s@ =~= pad_right(text, 8));
        append_str(&mut s, " ");
        append_str(&mut s, self.help_hint());
        s
    }

    /// The input line and how it is drawn.
    pub fn input_line(&self) -> (r: (String, LineStyle))
        ensures
            (r.0@, r.1) == self@.input_line(),
    {
        if self.copied_until.is_some() {
            (message("#vical > ", "copied!"), LineStyle::Copied)
        } else if let Some(e) = &self.error {
            (message("#vical > ", e.as_str()), LineStyle::Error)
        } else {
            let mut s = String::from_str("#vical > ");
            let t = self.input_string();
            append_str(&mut s, t.as_str());
            (s, LineStyle::Plain)
        }
    }

    /// The background and text colours of the status line.
    pub fn status_colors(&self) -> (r: (ThemeColor, ThemeColor))
        ensures
            r == self@.status_colors(),
    {
        if self.mode == Mode::Input {
            (self.theme.accent_bg, self.theme.accent_fg)
        } else {
            (ThemeColor::Gray, ThemeColor::Black)
        }
    }

    /// Where the terminal cursor goes (see [`AppView::cursor_position`]).
    pub fn cursor_position(&self, x: u16, y: u16, width: u16) -> (r: Option<(u16, u16)>)
        requires
            x + width <= u16::MAX,
            x + 9 + self.cursor % 65536 <= u16::MAX,
        ensures
            r == self@.cursor_position(x, y, width),
    {
        if self.mode == Mode::Input && self.error.is_none() {
            let offset: u16 = (self.cursor % 65536) as u16;
            let column: u16 = x + 9 + offset;
            let max_x: u16 = x + width;
            if column <= max_x {
                Some((column, y))
            } else {
                None
            }
        } else {
            None
        }
    }
}

} // verus!
