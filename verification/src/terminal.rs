use vstd::prelude::*;
use crate::ids::text_eq;

verus! {

/// A colour preset the terminal can apply.
#[derive(Clone, Copy, Debug, PartialEq, Eq, Structural)]
pub enum Preset {
    Clean,
    Dreamy,
    Intense,
}

/// What a line typed into the editor's terminal asks for.
#[derive(Debug)]
pub enum TerminalCommand {
    /// `help`: list the commands.
    Help,
    /// `clear`: empty the terminal.
    Clear,
    /// `current`: list the layers and global settings.
    Current,
    /// `settings`: show the global settings.
    Settings,
    /// `preset clean|dreamy|intense`.
    Preset(Preset),
    /// `preset` followed by anything else (possibly nothing).
    UnknownPreset(String),
    /// `bloom` and the text after it, if any.
    Bloom(Option<String>),
    /// Any other first word.
    Unknown(String),
}

/// The characters Unicode counts as white space.
pub open spec fn is_ws(c: char) -> bool {
    ('\u{9}' <= c && c <= '\u{d}') || c == ' ' || c == '\u{85}' || c == '\u{a0}' || c == '\u{1680}'
        || ('\u{2000}' <= c && c <= '\u{200a}') || c == '\u{2028}' || c == '\u{2029}' || c == '\u{202f}'
        || c == '\u{205f}' || c == '\u{3000}'
}

/// Index of the first non-white-space character at or after `k` (the length when none).
pub open spec fn ws_front(s: Seq<char>, k: int) -> int
    decreases s.len() - k,
{
    if k < 0 || k >= s.len() {
        s.len() as int
    } else if is_ws(s[k]) {
        ws_front(s, k + 1)
    } else {
        k
    }
}

/// One past the last non-white-space character before `k` (zero when none).
pub open spec fn ws_back(s: Seq<char>, k: int) -> int
    decreases k,
{
    if k <= 0 || k > s.len() {
        0
    } else if is_ws(s[k - 1]) {
        ws_back(s, k - 1)
    } else {
        k
    }
}

/// `s` without leading and trailing white space.
pub open spec fn trimmed(s: Seq<char>) -> Seq<char> {
    let a = ws_front(s, 0);
    let b = ws_back(s, s.len() as int);
    if a < b {
        s.subrange(a, b)
    } else {
        Seq::empty()
    }
}

/// Index of the first space at or after `k` (the length when none).
pub open spec fn space_from(s: Seq<char>, k: int) -> int
    decreases s.len() - k,
{
    if k < 0 || k >= s.len() {
        s.len() as int
    } else if s[k] == ' ' {
        k
    } else {
        space_from(s, k + 1)
    }
}

/// The text before the first space.
pub open spec fn first_word(s: Seq<char>) -> Seq<char> {
    s.subrange(0, space_from(s, 0))
}

/// The text after the first space, when there is one.
pub open spec fn after_first_word(s: Seq<char>) -> Option<Seq<char>> {
    let p = space_from(s, 0);
    if p < s.len() {
        Some(s.subrange(p + 1, s.len() as int))
    } else {
        None
    }
}

pub open spec fn opt_text(o: Option<String>) -> Option<Seq<char>> {
    match o {
        Some(s) => Some(s@),
        None => None,
    }
}

/// Whether `c` is what the terminal makes of the line `cmd`.
pub open spec fn command_of(cmd: Seq<char>, c: TerminalCommand) -> bool {
    let w = first_word(cmd);
    let rest = after_first_word(cmd);
    if w == "help"@ {
        c is Help
    } else if w == "clear"@ {
        c is Clear
    } else if w == "current"@ {
        c is Current
    } else if w == "settings"@ {
        c is Settings
    } else if w == "preset"@ {
        let p = match rest {
            Some(r) => r,
            None => Seq::empty(),
        };
        if p == "clean"@ {
            c == TerminalCommand::Preset(Preset::Clean)
        } else if p == "dreamy"@ {
            c == TerminalCommand::Preset(Preset::Dreamy)
        } else if p == "intense"@ {
            c == TerminalCommand::Preset(Preset::Intense)
        } else {
            c matches TerminalCommand::UnknownPreset(u) && u@ == p
        }
    } else if w == "bloom"@ {
        c matches TerminalCommand::Bloom(b) && opt_text(b) == rest
    } else {
        c matches TerminalCommand::Unknown(u) && u@ == w
    }
}

fn is_ws_exec(c: char) -> (r: bool)
    ensures
        r == is_ws(c),
{
    ('\u{9}' <= c && c <= '\u{d}') || c == ' ' || c == '\u{85}' || c == '\u{a0}' || c == '\u{1680}'
        || ('\u{2000}' <= c && c <= '\u{200a}') || c == '\u{2028}' || c == '\u{2029}' || c == '\u{202f}'
        || c == '\u{205f}' || c == '\u{3000}'
}

/// The typed line without leading and trailing white space.
pub fn trim_command(input: &str) -> (r: String)
    ensures
        r@ == trimmed(input@),
{
    let n = input.unicode_len();
    let mut a: usize = 0;
    while a < n && is_ws_exec(input.get_char(a))
        invariant
            n == input@.len(),
            a <= n,
            ws_front(input@, 0) == ws_front(input@, a as int),
        decreases n - a,
    {
        a = a + 1;
    }
    let mut b: usize = n;
    while b > 0 && is_ws_exec(input.get_char(b - 1))
        invariant
            n == input@.len(),
            b <= n,
            ws_back(input@, n as int) == ws_back(input@, b as int),
        decreases b,
    {
        b = b - 1;
    }
    if a < b {
        String::from_str(input.substring_char(a, b))
    } else {
        String::new()
    }
}

fn word_is(s: &str, lit: &str) -> (r: bool)
    ensures
        r == (s@ == lit@),
{
    let owned = String::from_str(s);
    text_eq(&owned, lit)
}

/// What a (trimmed, non-empty) line typed into the terminal asks for: the
/// first word picks the command, the text after the first space is its argument.
pub fn parse_terminal_command(cmd: &str) -> (c: TerminalCommand)
    ensures
        command_of(cmd@, c),
{
    let n = cmd.unicode_len();
    let mut p: usize = 0;
    while p < n && cmd.get_char(p) != ' '
        invariant
            n == cmd@.len(),
            p <= n,
            space_from(cmd@, 0) == space_from(cmd@, p as int),
        decreases n - p,
    {
        p = p + 1;
    }
    let word = cmd.substring_char(0, p);
    assert(word@ == first_word(cmd@));
    let rest: Option<&str> = if p < n {
        Some(cmd.substring_char(p + 1, n))
    } else {
        None
    };
    assert(match rest {
        Some(r) => after_first_word(cmd@) == Some(r@),
        None => after_first_word(cmd@) is None,
    });
    if word_is(word, "help") {
        TerminalCommand::Help
    } else if word_is(word, "clear") {
        TerminalCommand::Clear
    } else if word_is(word, "current") {
        TerminalCommand::Current
    } else if word_is(word, "settings") {
        TerminalCommand::Settings
    } else if word_is(word, "preset") {
        let arg: &str = match rest {
            Some(r) => r,
            None => "",
        };
        proof {
            reveal_strlit("");
            assert(""@ =~= Seq::<char>::empty());
        }
        if word_is(arg, "clean") {
            TerminalCommand::Preset(Preset::Clean)
        } else if word_is(arg, "dreamy") {
            TerminalCommand::Preset(Preset::Dreamy)
        } else if word_is(arg, "intense") {
            TerminalCommand::Preset(Preset::Intense)
        } else {
            TerminalCommand::UnknownPreset(String::from_str(arg))
        }
    } else if word_is(word, "bloom") {
        TerminalCommand::Bloom(
            match rest {
                Some(r) => Some(String::from_str(r)),
                None => None,
            },
        )
    } else {
        TerminalCommand::Unknown(String::from_str(word))
    }
}

/// The lines the `help` command writes.
pub open spec fn help_text() -> Seq<Seq<char>> {
    seq![
        "[INFO] Available commands:"@,
        "[INFO]   current          — list all active layers and global settings"@,
        "[INFO]   settings         — show current global settings"@,
        "[INFO]   preset clean     — apply Clean preset (bloom 0.15)"@,
        "[INFO]   preset dreamy    — apply Dreamy preset (bloom 0.85)"@,
        "[INFO]   preset intense   — apply Intense preset (bloom 2.0)"@,
        "[INFO]   bloom <0.0-2.0>  — set bloom strength directly"@,
        "[INFO]   clear            — clear terminal"@,
    ]
}

/// The lines the `help` command writes, in order.
pub fn help_lines() -> (r: Vec<String>)
    ensures
        r@.len() == help_text().len(),
        forall|k: int| 0 <= k < r@.len() ==> #[trigger] r@[k]@ == help_text()[k],
{
    let mut r: Vec<String> = Vec::new();
    r.push(String::from_str("[INFO] Available commands:"));
    r.push(String::from_str("[INFO]   current          — list all active layers and global settings"));
    r.push(String::from_str("[INFO]   settings         — show current global settings"));
    r.push(String::from_str("[INFO]   preset clean     — apply Clean preset (bloom 0.15)"));
    r.push(String::from_str("[INFO]   preset dreamy    — apply Dreamy preset (bloom 0.85)"));
    r.push(String::from_str("[INFO]   preset intense   — apply Intense preset (bloom 2.0)"));
    r.push(String::from_str("[INFO]   bloom <0.0-2.0>  — set bloom strength directly"));
    r.push(String::from_str("[INFO]   clear            — clear terminal"));
    r
}

/// The line that echoes a command typed into the terminal: "> " and the command.
pub fn echo_line(cmd: &str) -> (r: String)
    ensures
        r@ == "> "@ + cmd@,
{
    let mut r = String::from_str("> ");
    r.append(cmd);
    r
}

/// The line written for a command the terminal does not know.
pub fn unknown_command_line(word: &str) -> (r: String)
    ensures
        r@ == "[INFO] Unknown command: "@ + word@ + "  (type 'help')"@,
{
    let mut r = String::from_str("[INFO] Unknown command: ");
    r.append(word);
    r.append("  (type 'help')");
    r
}

/// The line written for `preset` followed by a name the terminal does not know.
pub fn unknown_preset_line(name: &str) -> (r: String)
    ensures
        r@ == "[INFO] Unknown preset: "@ + name@ + ". Try clean|dreamy|intense"@,
{
    let mut r = String::from_str("[INFO] Unknown preset: ");
    r.append(name);
    r.append(". Try clean|dreamy|intense");
    r
}

/// The line written for `bloom` followed by something that is not a number.
pub fn bloom_usage_line() -> (r: String)
    ensures
        r@ == "[INFO] Usage: bloom <0.0-2.0>"@,
{
    String::from_str("[INFO] Usage: bloom <0.0-2.0>")
}

} // verus!
