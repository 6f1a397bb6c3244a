//! Commands that the tool asks for.

use vstd::prelude::*;
use vstd::utf8::{encode_utf8, valid_utf8};

use crate::shell::{command_text, format_command, law_shell_reads_back, shell_words, slice_views};
use crate::text::{
    concat, concat3, decoded, ends, occurs_at, occurs_in, utf8_complaint, views,
};

verus! {

/// A command and the directory that it runs in.
#[derive(Debug)]
pub struct CommandLine {
    pub program: String,
    pub args: Vec<String>,
    pub dir: String,
}

/// The texts of a [`CommandLine`].
#[verifier::ext_equal]
pub struct CommandWords {
    pub program: Seq<char>,
    pub args: Seq<Seq<char>>,
    pub dir: Seq<char>,
}

impl View for CommandLine {
    type V = CommandWords;

    open spec fn view(&self) -> CommandWords {
        CommandWords { program: self.program@, args: views(self.args@), dir: self.dir@ }
    }
}

/// How a command ended.
#[derive(Debug)]
pub enum CommandEnd {
    /// It did not start, and why.
    NotStarted(String),
    /// It ended, with success or not, and with what status.
    Ended { success: bool, status: String },
}

/// Whether a command started and succeeded.
pub open spec fn succeeded(end: CommandEnd) -> bool {
    match end {
        CommandEnd::NotStarted(_) => false,
        CommandEnd::Ended { success, .. } => success,
    }
}

/// What is said of a command that did not start or did not succeed.
pub open spec fn command_failure(command: CommandWords, end: CommandEnd) -> Seq<char> {
    let shown = command_text(command.program, command.args);
    match end {
        CommandEnd::NotStarted(cause) => "failed to start `"@ + shown + "`"@ + ": "@ + cause@,
        CommandEnd::Ended { status, .. } => "`"@ + shown + "` exited with status "@ + status@,
    }
}

/// What is said of output that is no text.
pub open spec fn undecoded(stdout: Seq<u8>) -> Seq<char> {
    "command output was not valid UTF-8: "@ + utf8_complaint(stdout)
}

/// A `git` command.
pub open spec fn git_words(args: Seq<Seq<char>>, dir: Seq<char>) -> CommandWords {
    CommandWords { program: "git"@, args, dir }
}

/// A `cargo` command.
pub open spec fn cargo_words(args: Seq<Seq<char>>, dir: Seq<char>) -> CommandWords {
    CommandWords { program: "cargo"@, args, dir }
}

/// Owned copies of a list of string slices.
pub(crate) fn owned(args: &Vec<&str>) -> (list: Vec<String>)
    ensures
        views(list@) == slice_views(args@),
{
    let mut list: Vec<String> = Vec::new();
    let mut i: usize = 0;
    while i < args.len()
        invariant
            i <= args@.len(),
            views(list@) =~= slice_views(args@).take(i as int),
        decreases args@.len() - i,
    {
        let ghost before = views(list@);
        list.push(args[i].to_owned());
        proof {
            assert(views(list@) =~= before.push(args@[i as int]@));
            assert(slice_views(args@).take(i + 1) =~= slice_views(args@).take(i as int).push(
                args@[i as int]@,
            ));
        }
        i += 1;
    }
    assert(slice_views(args@).take(i as int) =~= slice_views(args@));
    list
}

/// A `git` command.
pub(crate) fn git(args: &Vec<&str>, dir: &str) -> (command: CommandLine)
    ensures
        command@ == git_words(slice_views(args@), dir@),
{
    CommandLine { program: "git".to_owned(), args: owned(args), dir: dir.to_owned() }
}

/// A `cargo` command.
pub(crate) fn cargo(args: Vec<String>, dir: &str) -> (command: CommandLine)
    ensures
        command@ == cargo_words(views(args@), dir@),
{
    CommandLine { program: "cargo".to_owned(), args, dir: dir.to_owned() }
}

impl CommandLine {
    /// The command in a form that a shell reads back.
    pub fn shown(&self) -> (text: String)
        ensures
            text@ == command_text(self@.program, self@.args),
    {
        format_command(self.program.as_str(), self.args.as_slice())
    }

    /// What is said of a command that does not start.
    pub fn start_failure(&self) -> (message: String)
        ensures
            message@ == "failed to start `"@ + command_text(self@.program, self@.args) + "`"@,
    {
        concat(concat("failed to start `", self.shown().as_str()).as_str(), "`")
    }

    /// What is said of a command that ends with a status other than success.
    pub fn exit_failure(&self, status: &str) -> (message: String)
        ensures
            message@ == "`"@ + command_text(self@.program, self@.args) + "` exited with status "@
                + status@,
    {
        let shown = concat("`", self.shown().as_str());
        concat(concat(shown.as_str(), "` exited with status ").as_str(), status)
    }

    /// What a command that has to succeed comes to: it is done exactly where it
    /// started and succeeded.
    pub fn ran(&self, end: CommandEnd) -> (outcome: Result<(), String>)
        ensures
            if succeeded(end) {
                outcome is Ok
            } else {
                outcome matches Err(message) && message@ == command_failure(self@, end)
            },
    {
        match end {
            CommandEnd::NotStarted(cause) => Err(
                concat3(self.start_failure().as_str(), ": ", cause.as_str()),
            ),
            CommandEnd::Ended { success, status } => if success {
                Ok(())
            } else {
                Err(self.exit_failure(status.as_str()))
            },
        }
    }

    /// What a command that has to succeed and to print a text comes to: the text
    /// that it printed, exactly where it started and succeeded and what it printed
    /// is UTF-8.
    pub fn captured(&self, end: CommandEnd, stdout: Vec<u8>) -> (outcome: Result<String, String>)
        ensures
            match outcome {
                Ok(text) => succeeded(end) && valid_utf8(stdout@) && encode_utf8(text@)
                    == stdout@,
                Err(message) => if succeeded(end) {
                    !valid_utf8(stdout@) && message@ == undecoded(stdout@)
                } else {
                    message@ == command_failure(self@, end)
                },
            },
    {
        match self.ran(end) {
            Err(message) => Err(message),
            Ok(()) => match decoded(stdout) {
                Ok(text) => Ok(text),
                Err(cause) => Err(concat("command output was not valid UTF-8: ", cause.as_str())),
            },
        }
    }
}

/// A command succeeds exactly where it started and ended with success.
pub proof fn law_command_succeeds_where_it_ends_with_success(end: CommandEnd)
    ensures
        succeeded(end) <==> (end matches CommandEnd::Ended { success, .. } && success),
{
}

/// A command that is shown can be read back: the program comes first, and then
/// the arguments in their order.
pub proof fn law_shown_command_reads_back(command: CommandWords)
    ensures
        shell_words(command_text(command.program, command.args)) == Some(
            seq![command.program] + command.args,
        ),
{
    law_shell_reads_back(seq![command.program] + command.args);
}

/// What is said of a command that failed shows the command between backquotes,
/// and ends with why it did not start, or with its status.
pub proof fn law_failed_command_is_shown(command: CommandWords, end: CommandEnd)
    ensures
        occurs_in(
            command_failure(command, end),
            "`"@ + command_text(command.program, command.args) + "`"@,
        ),
        match end {
            CommandEnd::NotStarted(cause) => ends(command_failure(command, end), cause@),
            CommandEnd::Ended { status, .. } => ends(command_failure(command, end), status@),
        },
{
    reveal_strlit("`");
    reveal_strlit("failed to start `");
    reveal_strlit("` exited with status ");
    let text = command_failure(command, end);
    let line = command_text(command.program, command.args);
    let shown = "`"@ + line + "`"@;
    match end {
        CommandEnd::NotStarted(cause) => {
            assert(text.subrange(16, 16 + shown.len() as int) =~= shown);
            assert(occurs_at(text, shown, 16));
            assert(text.skip(text.len() - cause@.len()) =~= cause@);
        },
        CommandEnd::Ended { status, .. } => {
            assert(text.subrange(0, shown.len() as int) =~= shown);
            assert(occurs_at(text, shown, 0));
            assert(text.skip(text.len() - status@.len()) =~= status@);
        },
    }
}

} // verus!
