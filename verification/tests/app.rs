use vical::app::{help_screen_text, App, CalcMode, Combination, Key, KeyAction, LineStyle, Mode};
use vical::theme::{Theme, ThemeColor};

fn app() -> App {
    App::new(Theme::default())
}

fn type_text(a: &mut App, text: &str) {
    for c in text.chars() {
        assert_eq!(a.handle_key(Key::Char(c)), KeyAction::Nothing);
    }
}

#[test]
fn new_screen_is_empty() {
    let a = app();
    assert!(a.history.is_empty());
    assert!(a.input.is_empty());
    assert_eq!(a.cursor, 0);
    assert_eq!(a.mode, Mode::Input);
    assert_eq!(a.calc_mode, CalcMode::Calc);
    assert_eq!(a.accumulator, None);
}

#[test]
fn labels_and_symbols() {
    assert_eq!(CalcMode::Calc.label(), "CALC");
    assert_eq!(CalcMode::Pow.label(), "POW");
    assert_eq!(CalcMode::Calc.symbol(), "");
    assert_eq!(CalcMode::Div.symbol(), "/");
}

#[test]
fn typing_accepts_only_calculator_characters() {
    let mut a = app();
    type_text(&mut a, "1+x2");
    assert_eq!(a.input_string(), "1+2");
    assert_eq!(a.cursor, 3);
    assert!(!a.is_allowed_input_char('a'));
    assert!(a.is_allowed_input_char('P'));
}

#[test]
fn colon_starts_a_command_of_small_letters() {
    let mut a = app();
    assert!(a.is_allowed_input_char(':'));
    type_text(&mut a, ":ad1d");
    assert_eq!(a.input_string(), ":add");
    assert!(a.is_command_input());
    assert!(!a.is_allowed_input_char('1'));
}

#[test]
fn enter_asks_for_evaluation_and_records_the_result() {
    let mut a = app();
    type_text(&mut a, "1+2");
    assert_eq!(a.handle_key(Key::Enter), KeyAction::Evaluate);
    assert_eq!(a.combination(), Combination::Value);
    a.finish_evaluation(Ok((3.0f64.to_bits(), "3".to_string())), "");
    assert_eq!(a.history, vec![("1+2".to_string(), "3".to_string())]);
    assert!(a.input.is_empty());
    assert_eq!(a.accumulator, None);
}

#[test]
fn equals_sign_also_evaluates() {
    let mut a = app();
    type_text(&mut a, "4");
    assert_eq!(a.handle_key(Key::Char('=')), KeyAction::Evaluate);
}

#[test]
fn blank_input_is_not_evaluated() {
    let mut a = app();
    type_text(&mut a, "  ");
    assert_eq!(a.handle_key(Key::Enter), KeyAction::Nothing);
    assert_eq!(a.input_string(), "  ");
}

#[test]
fn evaluation_error_keeps_the_input() {
    let mut a = app();
    type_text(&mut a, "1/0");
    assert_eq!(a.handle_key(Key::Enter), KeyAction::Evaluate);
    a.finish_evaluation(Err("Division by zero".to_string()), "");
    assert_eq!(a.error, Some("Division by zero".to_string()));
    assert_eq!(a.input_string(), "1/0");
    assert_eq!(a.input_line(), ("#vical > Division by zero".to_string(), LineStyle::Error));
    a.handle_key(Key::Backspace);
    assert_eq!(a.error, None);
    assert_eq!(a.input_string(), "1/0");
}

#[test]
fn sequence_mode_records_accumulator_and_operator() {
    let mut a = app();
    type_text(&mut a, ":add");
    assert_eq!(a.handle_key(Key::Enter), KeyAction::Nothing);
    assert_eq!(a.calc_mode, CalcMode::Add);
    assert_eq!(a.combination(), Combination::Add(0));
    type_text(&mut a, "5");
    assert_eq!(a.handle_key(Key::Enter), KeyAction::Evaluate);
    a.finish_evaluation(Ok((5.0f64.to_bits(), "5".to_string())), "");
    assert_eq!(a.accumulator, Some(5.0f64.to_bits()));
    assert_eq!(a.history[0], ("5".to_string(), "5".to_string()));
    type_text(&mut a, "2");
    a.handle_key(Key::Enter);
    assert_eq!(a.combination(), Combination::Add(5.0f64.to_bits()));
    a.finish_evaluation(Ok((7.0f64.to_bits(), "7".to_string())), "5");
    assert_eq!(a.history[1], ("5 + 2".to_string(), "7".to_string()));
}

#[test]
fn sub_mode_starts_with_the_first_value() {
    let mut a = app();
    a.apply_command(":SUB ");
    assert_eq!(a.calc_mode, CalcMode::Sub);
    assert_eq!(a.combination(), Combination::Value);
    a.accumulator = Some(9.0f64.to_bits());
    assert_eq!(a.combination(), Combination::Sub(9.0f64.to_bits()));
}

#[test]
fn unknown_command_sets_the_error() {
    let mut a = app();
    type_text(&mut a, ":foo");
    a.handle_key(Key::Enter);
    assert_eq!(a.error, Some("Unknown command: :foo".to_string()));
    assert!(a.input.is_empty());
    assert_eq!(a.calc_mode, CalcMode::Calc);
}

#[test]
fn q_quits_only_outside_commands() {
    let mut a = app();
    assert_eq!(a.handle_key(Key::Char('q')), KeyAction::Quit);
    type_text(&mut a, ":");
    assert_eq!(a.handle_key(Key::Char('q')), KeyAction::Nothing);
    assert_eq!(a.input_string(), ":q");
}

#[test]
fn c_clears_the_sequence() {
    let mut a = app();
    a.accumulator = Some(1);
    type_text(&mut a, "12");
    a.handle_key(Key::Char('c'));
    assert_eq!(a.accumulator, None);
    assert!(a.input.is_empty());
}

#[test]
fn cursor_keys_edit_in_place() {
    let mut a = app();
    type_text(&mut a, "123");
    a.handle_key(Key::Left);
    a.handle_key(Key::Backspace);
    assert_eq!(a.input_string(), "13");
    assert_eq!(a.cursor, 1);
    a.handle_key(Key::Home);
    a.handle_key(Key::Delete);
    assert_eq!(a.input_string(), "3");
    a.handle_key(Key::End);
    assert_eq!(a.cursor, 1);
    a.handle_key(Key::Right);
    assert_eq!(a.cursor, 1);
    a.handle_key(Key::Esc);
    assert!(a.input.is_empty());
}

fn with_history() -> App {
    let mut a = app();
    for (e, r) in [("1", "1"), ("2", "2"), ("3", "3")] {
        type_text(&mut a, e);
        a.handle_key(Key::Enter);
        a.finish_evaluation(Ok((0, r.to_string())), "");
    }
    a
}

#[test]
fn history_navigation() {
    let mut a = with_history();
    a.handle_key(Key::Up);
    assert_eq!(a.mode, Mode::Navigate);
    assert_eq!(a.selected, Some(0));
    a.handle_key(Key::Char('k'));
    a.handle_key(Key::Char('k'));
    a.handle_key(Key::Char('k'));
    assert_eq!(a.selected, Some(2));
    a.handle_key(Key::Char('j'));
    assert_eq!(a.selected, Some(1));
    assert_eq!(a.selected_result(), Some("2".to_string()));
    a.handle_key(Key::Enter);
    assert_eq!(a.mode, Mode::Input);
    assert_eq!(a.selected, None);
    assert_eq!(a.input_string(), "2");
    assert_eq!(a.cursor, 1);
}

#[test]
fn j_without_history_is_just_a_rejected_character() {
    let mut a = app();
    a.handle_key(Key::Char('j'));
    assert_eq!(a.mode, Mode::Input);
    assert!(a.input.is_empty());
}

#[test]
fn yy_copies_the_selection() {
    let mut a = with_history();
    a.handle_key(Key::Down);
    assert_eq!(a.handle_key(Key::Char('y')), KeyAction::Nothing);
    assert!(a.yank_pending);
    assert_eq!(a.handle_key(Key::Char('y')), KeyAction::Copy);
    assert_eq!(a.selected_result(), Some("3".to_string()));
    a.copy_selected_result(Ok(()), 5000);
    assert_eq!(a.copied_until, Some(6000));
    assert_eq!(a.input_line(), ("#vical > copied!".to_string(), LineStyle::Copied));
    a.tick(5999);
    assert_eq!(a.copied_until, Some(6000));
    a.tick(6000);
    assert_eq!(a.copied_until, None);
    a.copy_selected_result(Err("no display".to_string()), 7000);
    assert_eq!(a.error, Some("Copy failed: no display".to_string()));
}

#[test]
fn copy_outcome_without_selection_changes_nothing() {
    let mut a = app();
    a.copy_selected_result(Ok(()), 10);
    assert_eq!(a.copied_until, None);
}

#[test]
fn other_keys_leave_the_history() {
    let mut a = with_history();
    a.handle_key(Key::Up);
    a.handle_key(Key::Char('5'));
    assert_eq!(a.mode, Mode::Input);
    assert_eq!(a.input_string(), "5");
    a.handle_key(Key::Up);
    a.handle_key(Key::Other);
    assert_eq!(a.mode, Mode::Input);
    assert_eq!(a.selected, None);
}

#[test]
fn help_opens_and_closes() {
    let mut a = with_history();
    a.handle_key(Key::Up);
    a.handle_key(Key::Char('?'));
    assert_eq!(a.mode, Mode::Help);
    assert_eq!(a.selected, None);
    a.handle_key(Key::Char('1'));
    assert_eq!(a.mode, Mode::Help);
    assert!(a.input.is_empty());
    a.handle_key(Key::Esc);
    assert_eq!(a.mode, Mode::Input);
    assert!(help_screen_text().contains("yy: Copy selected result"));
}

#[test]
fn paste_keeps_only_accepted_characters() {
    let mut a = app();
    assert_eq!(a.handle_key(Key::Char('p')), KeyAction::Paste);
    a.paste_clipboard_to_input(Ok("12 + x3".to_string()));
    assert_eq!(a.input_string(), "12 + 3");
    a.paste_clipboard_to_input(Err("empty".to_string()));
    assert_eq!(a.error, Some("Paste failed: empty".to_string()));
    let mut b = app();
    b.paste_clipboard_to_input(Ok(":mul9".to_string()));
    assert_eq!(b.input_string(), ":mul");
}

#[test]
fn insert_result_at_cursor_splices() {
    let mut a = app();
    type_text(&mut a, "1+2");
    a.handle_key(Key::Left);
    a.insert_result_at_cursor("34");
    assert_eq!(a.input_string(), "1+342");
    assert_eq!(a.cursor, 4);
}

#[test]
fn screen_texts() {
    let mut a = with_history();
    assert_eq!(a.history_items(), vec!["3 = 3".to_string(), "2 = 2".to_string(), "1 = 1".to_string()]);
    assert_eq!(a.mode_text(), "CALC");
    assert!(a.status_line().starts_with("CALC     [Enter:run"));
    a.handle_key(Key::Up);
    assert_eq!(a.mode_text(), "SELECT/CALC");
    assert!(a.status_line().starts_with("SELECT/CALC [j/"));
    assert_eq!(a.status_colors(), (ThemeColor::Gray, ThemeColor::Black));
    a.handle_key(Key::Esc);
    assert_eq!(a.status_colors(), (ThemeColor::Rgb(173, 216, 230), ThemeColor::Black));
    type_text(&mut a, "12");
    assert_eq!(a.input_line(), ("#vical > 12".to_string(), LineStyle::Plain));
    assert_eq!(a.cursor_position(0, 5, 80), Some((11, 5)));
    assert_eq!(a.cursor_position(0, 5, 10), None);
}
