//! One turn of the read-dispatch loop: what to do with what was read.

use vstd::prelude::*;
use crate::utils::parser::{is_word, lemma_single_word, parse_input, tokens, word_views};
use crate::utils::text::{
    blank, eq_ignoring_ascii_case, order_of, same_ignoring_ascii_case, Standing,
};

verus! {

/// What a blocking read of one line came back with.
#[derive(Clone, Copy, Debug, PartialEq, Eq)]
pub enum ReadEvent<'a> {
    /// A line was submitted.
    Line(&'a str),
    /// The user cancelled the read.
    Interrupted,
    /// The input ended.
    Eof,
    /// The read failed, with the error's text.
    Failed(&'a str),
}

/// What the loop does next.
#[derive(Clone, Debug, PartialEq, Eq)]
pub enum Action<'a> {
    /// Say goodbye and end the session.
    Exit,
    /// Nothing to do: prompt again.
    Skip,
    /// Report the read error and prompt again.
    ReportReadError(&'a str),
    /// Report that `cd` needs a directory, and prompt again.
    UsageError,
    /// Change the working directory to the target.
    ChangeDirectory(&'a str),
    /// Run the external command with its arguments.
    Run { command: &'a str, args: Vec<&'a str> },
}

/// An action by the characters of its strings.
pub enum ActionView {
    Exit,
    Skip,
    ReportReadError(Seq<char>),
    UsageError,
    ChangeDirectory(Seq<char>),
    Run { command: Seq<char>, args: Seq<Seq<char>> },
}

impl<'a> View for Action<'a> {
    type V = ActionView;

    open spec fn view(&self) -> ActionView {
        match *self {
            Action::Exit => ActionView::Exit,
            Action::Skip => ActionView::Skip,
            Action::ReportReadError(e) => ActionView::ReportReadError(e@),
            Action::UsageError => ActionView::UsageError,
            Action::ChangeDirectory(d) => ActionView::ChangeDirectory(d@),
            Action::Run { command, args } => ActionView::Run {
                command: command@,
                args: word_views(args@),
            },
        }
    }
}

/// What a submitted line asks for. A blank line asks for nothing. A line
/// that holds the one word `exit`, in any ASCII case, ends the session. The
/// command word `cd` changes the directory to its first argument and is a
/// usage error without one. Any other command word is run with the words
/// after it as its arguments.
pub open spec fn line_action(line: Seq<char>) -> ActionView {
    let words = tokens(line);
    if words.len() == 0 {
        ActionView::Skip
    } else if words.len() == 1 && same_ignoring_ascii_case(words[0], "exit"@) {
        ActionView::Exit
    } else if words[0] == "cd"@ {
        if words.len() >= 2 {
            ActionView::ChangeDirectory(words[1])
        } else {
            ActionView::UsageError
        }
    } else {
        ActionView::Run { command: words[0], args: words.skip(1) }
    }
}

/// What the loop does after a read: a line is interpreted, an interruption
/// or the end of the input ends the session, and a failed read is reported.
pub open spec fn event_action(event: ReadEvent) -> ActionView {
    match event {
        ReadEvent::Line(line) => line_action(line@),
        ReadEvent::Interrupted => ActionView::Exit,
        ReadEvent::Eof => ActionView::Exit,
        ReadEvent::Failed(e) => ActionView::ReportReadError(e@),
    }
}

/// Only `Exit` ends the session: after every other action the loop prompts
/// again, whatever the action's result was.
pub open spec fn ends_session(action: ActionView) -> bool {
    action is Exit
}

/// Whether a line ends the session is decided on the line without the
/// whitespace around it: a word between whitespace ends it exactly when it
/// is `exit` in any ASCII case.
pub proof fn lemma_exit_is_the_whole_line(a: Seq<char>, w: Seq<char>, b: Seq<char>)
    requires
        blank(a),
        blank(b),
        is_word(w),
    ensures
        line_action(a + w + b) is Exit <==> same_ignoring_ascii_case(w, "exit"@),
{
    lemma_single_word(a, w, b);
}

/// A line of two or more words never ends the session.
pub proof fn lemma_exit_takes_no_arguments(line: Seq<char>)
    requires
        tokens(line).len() >= 2,
    ensures
        !(line_action(line) is Exit),
{
}

/// Interprets a submitted line.
pub fn interpret_line<'a>(line: &'a str) -> (r: Action<'a>)
    ensures
        r@ == line_action(line@),
{
    match parse_input(line) {
        None => Action::Skip,
        Some((command, args)) => {
            assert(word_views(args@).len() == tokens(line@).len() - 1);
            if args.len() == 0 && eq_ignoring_ascii_case(command, "exit") {
                return Action::Exit;
            }
            match order_of(command, "cd") {
                Standing::Same => {
                    if args.len() >= 1 {
                        assert(word_views(args@)[0] == tokens(line@)[1]);
                        Action::ChangeDirectory(args[0])
                    } else {
                        Action::UsageError
                    }
                },
                _ => Action::Run { command, args },
            }
        },
    }
}

/// Decides what the loop does after a read.
pub fn next_action<'a>(event: ReadEvent<'a>) -> (r: Action<'a>)
    ensures
        r@ == event_action(event),
{
    match event {
        ReadEvent::Line(line) => interpret_line(line),
        ReadEvent::Interrupted => Action::Exit,
        ReadEvent::Eof => Action::Exit,
        ReadEvent::Failed(e) => Action::ReportReadError(e),
    }
}

impl<'a> Action<'a> {
    /// Tells whether this action ends the session.
    pub fn is_exit(&self) -> (r: bool)
        ensures
            r == ends_session(self@),
    {
        match self {
            Action::Exit => true,
            _ => false,
        }
    }
}

} // verus!
