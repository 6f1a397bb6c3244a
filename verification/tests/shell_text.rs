use rustforge::command::CommandLine;
use rustforge::shell::{format_args_iter, format_command, format_command_refs, shell_escape};
use rustforge::text::trim;

#[test]
fn plain_segments_are_shown_as_they_are() {
    for segment in ["git", "a/b.c_d-e:f=g", "AZaz09", "--features=x"] {
        assert_eq!(shell_escape(segment), segment);
    }
}

#[test]
fn empty_segment_is_shown_as_quotes() {
    assert_eq!(shell_escape(""), "''");
}

#[test]
fn other_segments_are_quoted() {
    assert_eq!(shell_escape("a b"), "'a b'");
    assert_eq!(shell_escape("$HOME"), "'$HOME'");
    assert_eq!(shell_escape("é"), "'é'");
    assert_eq!(shell_escape("a,b"), "'a,b'");
    assert_eq!(shell_escape("\n"), "'\n'");
}

#[test]
fn quotes_are_kept_apart() {
    assert_eq!(shell_escape("it's"), "'it'\"'\"'s'");
    assert_eq!(shell_escape("'"), "''\"'\"''");
}

#[test]
fn commands_are_shown_with_blanks_between() {
    let args = vec!["commit".to_owned(), "-m".to_owned(), "a b".to_owned(), String::new()];
    assert_eq!(format_command("git", &args), "git commit -m 'a b' ''");
    assert_eq!(format_command_refs("git", &["rev-parse", "HEAD^{commit}"]), "git rev-parse 'HEAD^{commit}'");
    assert_eq!(format_args_iter("my tool", &[]), "'my tool'");
}

#[test]
fn failed_commands_are_named() {
    let command = CommandLine {
        program: "git".to_owned(),
        args: vec!["fetch".to_owned(), "a b".to_owned()],
        dir: "/p".to_owned(),
    };
    assert_eq!(command.shown(), "git fetch 'a b'");
    assert_eq!(command.start_failure(), "failed to start `git fetch 'a b'`");
    assert_eq!(
        command.exit_failure("exit status: 1"),
        "`git fetch 'a b'` exited with status exit status: 1"
    );
}

#[test]
fn white_space_around_a_text_is_trimmed() {
    assert_eq!(trim("  abc\n"), "abc");
    assert_eq!(trim("\u{3000}a b\u{a0}"), "a b");
    assert_eq!(trim(" \t\r\n"), "");
    assert_eq!(trim(""), "");
    assert_eq!(trim("\u{200b}x"), "\u{200b}x");
}

#[test]
fn every_character_is_trimmed_as_std_trims_it() {
    for code in 0..=0x10ffffu32 {
        if let Some(c) = char::from_u32(code) {
            if c.is_whitespace() || code < 0x3100 {
                let text = format!("{c}x{c}");
                assert_eq!(trim(&text), text.trim());
            }
        }
    }
}
