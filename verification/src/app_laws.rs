//! What the screen promises of its keys, as the help screen lists them, and
//! what holds of every key.
use vstd::prelude::*;
use crate::app::{
    AppView, CalcMode, Combination, Key, KeyAction, Mode, lowercase, spec_label, spec_symbol,
};
use crate::expr::BinOp;
use crate::expr_laws::op_char;
use crate::text::{
    is_unicode_whitespace, lemma_trim_end_keeps_first, lemma_trim_start_at, trim, trim_start,
};

verus! {

/// No key changes the history: entries are only ever added by an evaluation.
pub proof fn lemma_keys_keep_history(v: AppView, key: Key)
    requires
        v.wf(),
    ensures
        v.after_key(key).0.history == v.history,
{
}

/// Every key keeps the state well formed.
pub proof fn lemma_keys_keep_wf(v: AppView, key: Key)
    requires
        v.wf(),
    ensures
        v.after_key(key).0.wf(),
{
    if v.mode == Mode::Navigate && key == Key::Enter && v.selected is Some {
        let r = v.selected_result()->0;
        assert(v.with_text(r).input.len() == v.input.len() + r.len());
    }
}

/// `q` quits, and nothing else does: only `q` typed while editing an input
/// that is not a command.
pub proof fn lemma_quit_only_on_q(v: AppView, key: Key)
    requires
        v.wf(),
    ensures
        (v.after_key(key).1 == KeyAction::Quit) <==> (key == Key::Char('q') && v.mode
            == Mode::Input && !v.command_input()),
{
}

/// `?` opens the help from anywhere and drops the history selection.
pub proof fn lemma_question_mark_opens_help(v: AppView)
    ensures
        v.after_key(Key::Char('?')).0.mode == Mode::Help,
        v.after_key(Key::Char('?')).0.selected is None,
        v.after_key(Key::Char('?')).1 == KeyAction::Nothing,
{
}

/// In the help, Esc closes it and every other key but `?` is ignored (it only
/// forgets a pending `y`).
pub proof fn lemma_help_keys(v: AppView, key: Key)
    requires
        v.mode == Mode::Help,
        key != Key::Char('?'),
    ensures
        v.after_key(key) == (AppView {
            mode: if key == Key::Esc {
                Mode::Input
            } else {
                Mode::Help
            },
            yank_pending: false,
            ..v
        }, KeyAction::Nothing),
{
}

/// `p` while editing a plain input asks for the clipboard and changes
/// nothing else but the pending `y`.
pub proof fn lemma_p_pastes(v: AppView)
    requires
        v.mode == Mode::Input,
        !v.command_input(),
    ensures
        v.after_key(Key::Char('p')) == (AppView { yank_pending: false, ..v }, KeyAction::Paste),
{
}

/// `c` while editing a plain input clears the sequence accumulator, the
/// input and the error.
pub proof fn lemma_c_clears_accumulator(v: AppView)
    requires
        v.mode == Mode::Input,
        !v.command_input(),
    ensures
        v.after_key(Key::Char('c')).0.accumulator is None,
        v.after_key(Key::Char('c')).0.input.len() == 0,
        v.after_key(Key::Char('c')).0.error is None,
        v.after_key(Key::Char('c')).0.calc_mode == v.calc_mode,
{
}

/// In the history, Esc cancels the selection and returns to the input.
pub proof fn lemma_esc_cancels_selection(v: AppView)
    requires
        v.mode == Mode::Navigate,
    ensures
        v.after_key(Key::Esc).0.mode == Mode::Input,
        v.after_key(Key::Esc).0.selected is None,
        v.after_key(Key::Esc).0.input == v.input,
{
}

/// In the history, `j` and Down move to the next newer entry and `k` and Up
/// to the next older one, stopping at the ends.
pub proof fn lemma_history_moves(v: AppView, s: int)
    requires
        v.wf(),
        v.mode == Mode::Navigate,
        v.selected == Some(s),
    ensures
        v.after_key(Key::Char('j')).0.selected == Some(if s > 0 { s - 1 } else { s }),
        v.after_key(Key::Down).0.selected == Some(if s > 0 { s - 1 } else { s }),
        v.after_key(Key::Char('k')).0.selected == Some(
            if s + 1 < v.history.len() {
                s + 1
            } else {
                s
            },
        ),
        v.after_key(Key::Up).0.selected == Some(
            if s + 1 < v.history.len() {
                s + 1
            } else {
                s
            },
        ),
{
}

/// `j`, `k`, Down or Up while editing enter the history at the newest entry,
/// when there is one.
pub proof fn lemma_enter_history(v: AppView, key: Key)
    requires
        v.mode == Mode::Input,
        v.history.len() > 0,
        key == Key::Char('j') || key == Key::Char('k') || key == Key::Down || key == Key::Up,
    ensures
        v.after_key(key).0.mode == Mode::Navigate,
        v.after_key(key).0.selected == Some(0int),
{
}

/// Enter in the history types the selected result at the cursor and returns
/// to the input.
pub proof fn lemma_enter_inserts_selected(v: AppView, s: int)
    requires
        v.wf(),
        v.mode == Mode::Navigate,
        v.selected == Some(s),
    ensures
        v.after_key(Key::Enter).0.input == v.input.subrange(0, v.cursor) + v.history[v.history.len()
            - 1 - s].1 + v.input.subrange(v.cursor, v.input.len() as int),
        v.after_key(Key::Enter).0.mode == Mode::Input,
        v.after_key(Key::Enter).0.selected is None,
{
}

/// `y` twice in the history asks for the selected result to be copied; the
/// first `y` only arms the second.
pub proof fn lemma_yy_copies(v: AppView)
    requires
        v.mode == Mode::Navigate,
        v.selected is Some,
        !v.yank_pending,
    ensures
        v.after_key(Key::Char('y')).1 == KeyAction::Nothing,
        v.after_key(Key::Char('y')).0.after_key(Key::Char('y')).1 == KeyAction::Copy,
        v.after_key(Key::Char('y')).0.after_key(Key::Char('y')).0 == v,
{
}

/// "copied!" shows from a successful copy until a second has passed.
pub proof fn lemma_copied_lasts_a_second(v: AppView, now: u64, later: u64)
    requires
        v.selected is Some,
        now + 1000 <= u64::MAX,
        now <= later,
    ensures
        v.after_copy(Ok(()), now).after_tick(later).copied_until is None <==> later >= now
            + 1000,
{
}

/// Enter on an expression asks for its evaluation and changes nothing yet; a
/// value then adds exactly one history entry, holding the value's text, and
/// clears the input, while a failure only sets the error.
pub proof fn lemma_evaluation_records_one_entry(
    v: AppView,
    bits: u64,
    text: Seq<char>,
    failure: Seq<char>,
    previous_text: Seq<char>,
)
    requires
        v.wf(),
        v.mode == Mode::Input,
        v.after_evaluate().1,
    ensures
        v.after_key(Key::Enter) == (v, KeyAction::Evaluate),
        v.after_evaluation(Ok((bits, text)), previous_text).history.len() == v.history.len() + 1,
        v.after_evaluation(Ok((bits, text)), previous_text).history.last().1 == text,
        v.after_evaluation(Ok((bits, text)), previous_text).history.subrange(
            0,
            v.history.len() as int,
        ) == v.history,
        v.after_evaluation(Ok((bits, text)), previous_text).input.len() == 0,
        v.after_evaluation(Ok((bits, text)), previous_text).wf(),
        v.after_evaluation(Err(failure), previous_text) == (AppView { error: Some(failure), ..v }),
{
    let w = v.after_evaluation(Ok((bits, text)), previous_text);
    assert(w.history.subrange(0, v.history.len() as int) =~= v.history);
}

/// In a sequence mode each value becomes the accumulator; in plain
/// calculation the accumulator stays.
pub proof fn lemma_accumulator_follows_values(v: AppView, bits: u64, text: Seq<char>, p: Seq<char>)
    ensures
        v.after_evaluation(Ok((bits, text)), p).accumulator == (if v.calc_mode == CalcMode::Calc {
            v.accumulator
        } else {
            Some(bits)
        }),
{
}

/// The operator and accumulator that a combination applies to the new value.
pub open spec fn applied(c: Combination) -> Option<(BinOp, u64)> {
    match c {
        Combination::Value => None,
        Combination::Add(a) => Some((BinOp::Add, a)),
        Combination::Sub(a) => Some((BinOp::Sub, a)),
        Combination::Mul(a) => Some((BinOp::Mul, a)),
        Combination::Div(a) => Some((BinOp::Div, a)),
        Combination::Pow(a) => Some((BinOp::Pow, a)),
    }
}

/// In a sequence mode with an accumulator, the new value is combined with
/// the accumulator by the very operator that the history shows for the mode
/// (`3 * 4` in `:mul`); without an accumulator the value stands alone, except
/// that an addition starts from zero; plain calculation never combines.
pub proof fn lemma_combination_applies_the_shown_operator(v: AppView)
    ensures
        v.calc_mode != CalcMode::Calc && v.accumulator is Some ==> (applied(v.combination())
            matches Some((op, a)) && a == v.accumulator->0 && spec_symbol(v.calc_mode) == seq![
            op_char(op),
        ]),
        v.calc_mode == CalcMode::Calc ==> v.combination() == Combination::Value,
        v.accumulator is None && v.calc_mode != CalcMode::Add ==> v.combination()
            == Combination::Value,
        v.accumulator is None && v.calc_mode == CalcMode::Add ==> v.combination()
            == Combination::Add(0),
{
    reveal_strlit("+");
    reveal_strlit("-");
    reveal_strlit("*");
    reveal_strlit("/");
    reveal_strlit("^");
}

/// A command selects the mode whose label it spells after the `:`, in any
/// case and with blanks around it; the accumulator and the error are
/// cleared.
pub proof fn lemma_command_selects_named_mode(v: AppView, command: Seq<char>, m: CalcMode)
    requires
        lowercase(trim(command)) == seq![':'] + lowercase(spec_label(m)),
    ensures
        v.after_command(command).calc_mode == m,
        v.after_command(command).accumulator is None,
        v.after_command(command).error is None,
        v.after_command(command).input.len() == 0,
{
    reveal_strlit("CALC");
    reveal_strlit("ADD");
    reveal_strlit("SUB");
    reveal_strlit("MUL");
    reveal_strlit("DIV");
    reveal_strlit("POW");
    reveal_strlit(":add");
    reveal_strlit(":sub");
    reveal_strlit(":mul");
    reveal_strlit(":div");
    reveal_strlit(":pow");
    reveal_strlit(":calc");
    let cmd = lowercase(trim(command));
    let l = lowercase(spec_label(m));
    assert(cmd.len() == l.len() + 1);
    assert(cmd[0] == ':');
    assert forall|k: int| 0 <= k < l.len() implies cmd[k + 1] == #[trigger] l[k] by {}
    match m {
        CalcMode::Calc => {
            assert(cmd =~= ":calc"@);
        },
        CalcMode::Add => {
            assert(cmd =~= ":add"@);
        },
        CalcMode::Sub => {
            assert(cmd =~= ":sub"@);
            assert(cmd[1] != ":add"@[1]);
        },
        CalcMode::Mul => {
            assert(cmd =~= ":mul"@);
            assert(cmd[1] != ":add"@[1]);
            assert(cmd[1] != ":sub"@[1]);
        },
        CalcMode::Div => {
            assert(cmd =~= ":div"@);
            assert(cmd[1] != ":add"@[1]);
            assert(cmd[1] != ":sub"@[1]);
            assert(cmd[1] != ":mul"@[1]);
        },
        CalcMode::Pow => {
            assert(cmd =~= ":pow"@);
            assert(cmd[1] != ":add"@[1]);
            assert(cmd[1] != ":sub"@[1]);
            assert(cmd[1] != ":mul"@[1]);
            assert(cmd[1] != ":div"@[1]);
        },
    }
}

/// While editing, Left and Right move the cursor one place (stopping at the
/// ends), Home and End move it to the ends, and none of them changes the
/// input.
pub proof fn lemma_cursor_keys(v: AppView)
    requires
        v.wf(),
        v.mode == Mode::Input,
    ensures
        v.after_key(Key::Right).0.cursor == (if v.cursor + 1 <= v.input.len() {
            v.cursor + 1
        } else {
            v.input.len() as int
        }),
        v.after_key(Key::Left).0.cursor == (if v.cursor >= 1 {
            v.cursor - 1
        } else {
            0
        }),
        v.after_key(Key::Home).0.cursor == 0,
        v.after_key(Key::End).0.cursor == v.input.len(),
        v.after_key(Key::Right).0.input == v.input,
        v.after_key(Key::Left).0.input == v.input,
        v.after_key(Key::Home).0.input == v.input,
        v.after_key(Key::End).0.input == v.input,
{
}

/// While editing, an accepted character is typed at the cursor, Backspace
/// deletes the character before the cursor (once any error is dismissed) and
/// Delete the one under it.
pub proof fn lemma_editing_keys(v: AppView, c: char)
    requires
        v.wf(),
        v.mode == Mode::Input,
    ensures
        (v.allowed_char(c) && c != '?' && c != '=' && c != 'j' && c != 'k' && (v.command_input()
            || (c != 'q' && c != 'c' && c != 'p'))) ==> {
            let w = v.after_key(Key::Char(c)).0;
            &&& w.input == v.input.subrange(0, v.cursor) + seq![c] + v.input.subrange(
                v.cursor,
                v.input.len() as int,
            )
            &&& w.cursor == v.cursor + 1
        },
        (v.error is None && v.cursor > 0) ==> {
            let w = v.after_key(Key::Backspace).0;
            &&& w.input == v.input.subrange(0, v.cursor - 1) + v.input.subrange(
                v.cursor,
                v.input.len() as int,
            )
            &&& w.cursor == v.cursor - 1
        },
        v.cursor < v.input.len() ==> {
            let w = v.after_key(Key::Delete).0;
            &&& w.input == v.input.subrange(0, v.cursor) + v.input.subrange(
                v.cursor + 1,
                v.input.len() as int,
            )
            &&& w.cursor == v.cursor
        },
{
    let t = v.input.insert(v.cursor, c);
    assert(t =~= v.input.subrange(0, v.cursor) + seq![c] + v.input.subrange(
        v.cursor,
        v.input.len() as int,
    ));
    if v.cursor > 0 {
        assert(v.input.remove(v.cursor - 1) =~= v.input.subrange(0, v.cursor - 1)
            + v.input.subrange(v.cursor, v.input.len() as int));
    }
    if v.cursor < v.input.len() {
        assert(v.input.remove(v.cursor) =~= v.input.subrange(0, v.cursor) + v.input.subrange(
            v.cursor + 1,
            v.input.len() as int,
        ));
    }
}

/// `k` is the first character of `s` that is not whitespace.
pub open spec fn first_nonblank_at(s: Seq<char>, k: int) -> bool {
    &&& 0 <= k < s.len()
    &&& !is_unicode_whitespace(s[k])
    &&& forall|j: int| 0 <= j < k ==> is_unicode_whitespace(#[trigger] s[j])
}

/// Enter while editing: an input of only whitespace does nothing; one whose
/// first character other than whitespace is `:` runs as a command; any other
/// is handed over for evaluation, with the state unchanged.
pub proof fn lemma_enter_decides(v: AppView, k: int)
    requires
        v.mode == Mode::Input,
    ensures
        (forall|j: int| 0 <= j < v.input.len() ==> is_unicode_whitespace(#[trigger] v.input[j]))
            ==> v.after_key(Key::Enter) == (v, KeyAction::Nothing),
        first_nonblank_at(v.input, k) && v.input[k] == ':' ==> v.after_key(Key::Enter) == (
        v.after_command(v.input), KeyAction::Nothing),
        first_nonblank_at(v.input, k) && v.input[k] != ':' ==> v.after_key(Key::Enter) == (
        v, KeyAction::Evaluate),
{
    let s = v.input;
    if forall|j: int| 0 <= j < s.len() ==> is_unicode_whitespace(#[trigger] s[j]) {
        lemma_trim_start_at(s, s.len() as int);
        assert(trim_start(s).len() == 0);
        assert(trim(s).len() == 0);
    }
    if first_nonblank_at(s, k) {
        lemma_trim_start_at(s, k);
        let t = trim_start(s);
        assert(t[0] == s[k]);
        lemma_trim_end_keeps_first(t);
    }
}

/// A command that spells no mode's label after the `:` changes neither the
/// mode nor the accumulator, and reports itself as unknown, as typed.
pub proof fn lemma_unknown_command(v: AppView, command: Seq<char>)
    requires
        forall|m: CalcMode| lowercase(trim(command)) != seq![':'] + lowercase(spec_label(m)),
    ensures
        v.after_command(command).calc_mode == v.calc_mode,
        v.after_command(command).accumulator == v.accumulator,
        v.after_command(command).error == Some("Unknown command: "@ + command),
        v.after_command(command).input.len() == 0,
{
    reveal_strlit("CALC");
    reveal_strlit("ADD");
    reveal_strlit("SUB");
    reveal_strlit("MUL");
    reveal_strlit("DIV");
    reveal_strlit("POW");
    reveal_strlit(":add");
    reveal_strlit(":sub");
    reveal_strlit(":mul");
    reveal_strlit(":div");
    reveal_strlit(":pow");
    reveal_strlit(":calc");
    assert(seq![':'] + lowercase(spec_label(CalcMode::Add)) =~= ":add"@);
    assert(seq![':'] + lowercase(spec_label(CalcMode::Sub)) =~= ":sub"@);
    assert(seq![':'] + lowercase(spec_label(CalcMode::Mul)) =~= ":mul"@);
    assert(seq![':'] + lowercase(spec_label(CalcMode::Div)) =~= ":div"@);
    assert(seq![':'] + lowercase(spec_label(CalcMode::Pow)) =~= ":pow"@);
    assert(seq![':'] + lowercase(spec_label(CalcMode::Calc)) =~= ":calc"@);
}

} // verus!
