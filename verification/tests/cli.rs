use vical::cli::{cli_help_text, concat_arguments, parse_cli, prompt_input, CliCommand, PromptInput};
use vical::theme::{default_setting_toml, load_theme, RgbSetting, SettingFile, Theme, ThemeColor};

fn args(list: &[&str]) -> Vec<String> {
    list.iter().map(|s| s.to_string()).collect()
}

#[test]
fn no_arguments_open_the_screen() {
    let r = parse_cli(&args(&["vical"]));
    assert_eq!(r.command, CliCommand::Tui);
}

#[test]
fn copy_flag_anywhere() {
    let r = parse_cli(&args(&["vical", "1", "-c", "+2"]));
    assert_eq!(r.command, CliCommand::Expression);
    assert!(r.copy);
    assert_eq!(r.positional, args(&["1", "+2"]));
    assert_eq!(concat_arguments(&r.positional), "1+2");
}

#[test]
fn only_flags_is_missing_an_expression() {
    let r = parse_cli(&args(&["vical", "--copy"]));
    assert_eq!(r.command, CliCommand::Missing);
    assert!(r.copy);
}

#[test]
fn command_names() {
    assert_eq!(parse_cli(&args(&["vical", "-h"])).command, CliCommand::Help);
    assert_eq!(parse_cli(&args(&["vical", "--add"])).command, CliCommand::Add);
    assert_eq!(parse_cli(&args(&["vical", "-s"])).command, CliCommand::Sub);
    assert_eq!(parse_cli(&args(&["vical", "--pow"])).command, CliCommand::Pow);
    assert_eq!(parse_cli(&args(&["vical", "-b", "5"])).command, CliCommand::Binary);
    assert_eq!(parse_cli(&args(&["vical", "-fb", "101"])).command, CliCommand::FromBinary);
    assert_eq!(parse_cli(&args(&["vical", "2", "-b"])).command, CliCommand::Expression);
}

#[test]
fn prompt_lines() {
    assert!(matches!(prompt_input(" Q \n"), PromptInput::Quit));
    assert!(matches!(prompt_input("q"), PromptInput::Quit));
    match prompt_input("  2.5\n") {
        PromptInput::Operand(t) => assert_eq!(t, "2.5"),
        PromptInput::Quit => panic!("not a quit"),
    }
    match prompt_input("qq") {
        PromptInput::Operand(t) => assert_eq!(t, "qq"),
        PromptInput::Quit => panic!("not a quit"),
    }
}

#[test]
fn help_text_lists_the_commands() {
    let h = cli_help_text();
    assert!(h.starts_with("vical - A versatile CLI calculator\n"));
    assert!(h.contains("    -fb, --from-binary  Binary to decimal conversion\n"));
}

#[test]
fn theme_from_settings() {
    assert_eq!(Theme::default(), Theme { accent_bg: ThemeColor::Rgb(173, 216, 230), accent_fg: ThemeColor::Black });
    assert_eq!(load_theme(None), Theme::default());
    let file = SettingFile { accent_color: RgbSetting { r: 1, g: 2, b: 3 }, accent_text_color: None };
    assert_eq!(load_theme(Some(file)), Theme { accent_bg: ThemeColor::Rgb(1, 2, 3), accent_fg: ThemeColor::Black });
    let file = SettingFile {
        accent_color: RgbSetting { r: 173, g: 216, b: 230 },
        accent_text_color: Some(RgbSetting { r: 0, g: 0, b: 0 }),
    };
    assert_eq!(load_theme(Some(file)).accent_fg, ThemeColor::Rgb(0, 0, 0));
    assert_eq!(RgbSetting { r: 9, g: 8, b: 7 }.to_color(), ThemeColor::Rgb(9, 8, 7));
}

#[test]
fn default_settings_file_text() {
    assert_eq!(
        default_setting_toml(),
        "[accent_color]\nr = 173\ng = 216\nb = 230\n\n[accent_text_color]\nr = 0\ng = 0\nb = 0\n"
    );
}
