use vibe_studio::terminal::{parse_terminal_command, trim_command, Preset, TerminalCommand};

#[test]
fn trims_unicode_white_space() {
    assert_eq!(trim_command("  help \t"), "help");
    assert_eq!(trim_command("\u{3000}bloom 1.5\u{a0}"), "bloom 1.5");
    assert_eq!(trim_command(" \n "), "");
    assert_eq!(trim_command(""), "");
    assert_eq!(trim_command("a  b"), "a  b");
}

#[test]
fn first_word_picks_the_command() {
    assert!(matches!(parse_terminal_command("help"), TerminalCommand::Help));
    assert!(matches!(parse_terminal_command("clear"), TerminalCommand::Clear));
    assert!(matches!(parse_terminal_command("current now"), TerminalCommand::Current));
    assert!(matches!(parse_terminal_command("settings"), TerminalCommand::Settings));
    match parse_terminal_command("launch rockets") {
        TerminalCommand::Unknown(w) => assert_eq!(w, "launch"),
        _ => panic!("expected an unknown command"),
    }
}

#[test]
fn presets_and_bloom_arguments() {
    assert!(matches!(parse_terminal_command("preset clean"), TerminalCommand::Preset(Preset::Clean)));
    assert!(matches!(parse_terminal_command("preset dreamy"), TerminalCommand::Preset(Preset::Dreamy)));
    assert!(matches!(parse_terminal_command("preset intense"), TerminalCommand::Preset(Preset::Intense)));
    match parse_terminal_command("preset loud now") {
        TerminalCommand::UnknownPreset(p) => assert_eq!(p, "loud now"),
        _ => panic!("expected an unknown preset"),
    }
    match parse_terminal_command("preset") {
        TerminalCommand::UnknownPreset(p) => assert_eq!(p, ""),
        _ => panic!("expected an unknown preset"),
    }
    match parse_terminal_command("bloom 0.75") {
        TerminalCommand::Bloom(Some(v)) => assert_eq!(v, "0.75"),
        _ => panic!("expected a bloom value"),
    }
    assert!(matches!(parse_terminal_command("bloom"), TerminalCommand::Bloom(None)));
}

#[test]
fn terminal_message_lines() {
    let help = vibe_studio::terminal::help_lines();
    assert_eq!(help.len(), 8);
    assert_eq!(help[0], "[INFO] Available commands:");
    assert_eq!(help[7], "[INFO]   clear            — clear terminal");
    assert_eq!(vibe_studio::terminal::echo_line("bloom 1"), "> bloom 1");
    assert_eq!(vibe_studio::terminal::unknown_command_line("foo"), "[INFO] Unknown command: foo  (type 'help')");
    assert_eq!(vibe_studio::terminal::unknown_preset_line("x"), "[INFO] Unknown preset: x. Try clean|dreamy|intense");
    assert_eq!(vibe_studio::terminal::bloom_usage_line(), "[INFO] Usage: bloom <0.0-2.0>");
    let mut s = vibe_studio::state::AppState::default();
    s.log_terminal("more");
    s.clear_terminal();
    assert!(s.terminal_logs.is_empty());
}
