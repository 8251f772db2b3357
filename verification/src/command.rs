//! The commands of the broker's shell.
//!
//! A command is one line of text: a verb and, separated by single spaces, its
//! arguments. `subscribe` and `unsubscribe` take a channel; `publish` takes a
//! channel and a message, which is the rest of the line and may hold spaces
//! itself; `exit` takes nothing.

use vstd::prelude::*;
use vstd::string::*;

verus! {

/// The verbs that take arguments.
#[derive(Clone, Copy, Debug, PartialEq, Eq)]
pub enum Verb {
    Subscribe,
    Unsubscribe,
    Publish,
}

/// What one line asks for.
#[derive(Debug, PartialEq, Eq)]
pub enum Command {
    /// Subscribe to the channel of this name.
    Subscribe(String),
    /// Give up the subscription to the channel of this name.
    Unsubscribe(String),
    /// Publish on the channel of this name the message that follows it.
    Publish(String, String),
    /// Leave the shell.
    Exit,
    /// The verb is known but the line lacks an argument that it takes.
    Incomplete(Verb),
    /// The line does not start with a known verb.
    Unknown,
}

/// A [`Command`] as a mathematical value, with texts as sequences of
/// characters.
pub enum CommandView {
    Subscribe(Seq<char>),
    Unsubscribe(Seq<char>),
    Publish(Seq<char>, Seq<char>),
    Exit,
    Incomplete(Verb),
    Unknown,
}

impl View for Command {
    type V = CommandView;

    open spec fn view(&self) -> CommandView {
        match self {
            Command::Subscribe(channel) => CommandView::Subscribe(channel@),
            Command::Unsubscribe(channel) => CommandView::Unsubscribe(channel@),
            Command::Publish(channel, message) => CommandView::Publish(channel@, message@),
            Command::Exit => CommandView::Exit,
            Command::Incomplete(verb) => CommandView::Incomplete(*verb),
            Command::Unknown => CommandView::Unknown,
        }
    }
}

/// The number of characters of `text` in front of its first space; the
/// length of `text` if it has no space.
pub open spec fn first_space(text: Seq<char>) -> int
    decreases text.len(),
{
    if text.len() == 0 || text[0] == ' ' {
        0
    } else {
        1 + first_space(text.drop_first())
    }
}

/// The first word of `text`: what stands in front of its first space.
pub open spec fn word(text: Seq<char>) -> Seq<char> {
    text.take(first_space(text))
}

/// What follows the first space of `text`, if it has one.
pub open spec fn after_word(text: Seq<char>) -> Option<Seq<char>> {
    if first_space(text) < text.len() {
        Some(text.skip(first_space(text) + 1))
    } else {
        None
    }
}

/// What a line asks for, once the white space around it is gone.
pub open spec fn interpretation(line: Seq<char>) -> CommandView {
    let verb = word(line);
    if verb == "subscribe"@ {
        match after_word(line) {
            Some(rest) => CommandView::Subscribe(word(rest)),
            None => CommandView::Incomplete(Verb::Subscribe),
        }
    } else if verb == "unsubscribe"@ {
        match after_word(line) {
            Some(rest) => CommandView::Unsubscribe(word(rest)),
            None => CommandView::Incomplete(Verb::Unsubscribe),
        }
    } else if verb == "publish"@ {
        match after_word(line) {
            Some(rest) => match after_word(rest) {
                Some(message) => CommandView::Publish(word(rest), message),
                None => CommandView::Incomplete(Verb::Publish),
            },
            None => CommandView::Incomplete(Verb::Publish),
        }
    } else if verb == "exit"@ {
        CommandView::Exit
    } else {
        CommandView::Unknown
    }
}

/// `line` without the white space at its start and at its end, as
/// `str::trim` returns it.
pub uninterp spec fn trimmed(line: Seq<char>) -> Seq<char>;

/// Removes the white space around `line` by `str::trim`.
///
/// Trusted: nothing but that the result is a function of the line. Which
/// characters count as white space is the standard library's matter.
#[verifier::external_body]
fn trim(line: &str) -> (inner: &str)
    ensures
        inner@ == trimmed(line@),
{
    line.trim()
}

/// Reads a command from a line as it was typed: the white space around the
/// line is dropped, the rest is interpreted.
pub fn parse(line: &str) -> (command: Command)
    ensures
        command@ == interpretation(trimmed(line@)),
{
    interpret(trim(line))
}

/// Reads a command from a line that has no white space around it.
pub fn interpret(line: &str) -> (command: Command)
    ensures
        command@ == interpretation(line@),
{
    let (first, second, end) = spaces(line);
    let verb = line.substring_char(0, first).to_owned();
    proof {
        assert(line@.subrange(0, first as int) =~= word(line@));
        if first < end {
            let rest = line@.skip(first + 1);
            assert(after_word(line@) == Some(rest));
            assert(line@.subrange(first + 1, second as int) =~= word(rest));
            if second < end {
                assert(line@.subrange(second + 1, end as int) =~= rest.skip(
                    first_space(rest) + 1,
                ));
            }
        }
    }
    if verb == String::from_str("subscribe") {
        if first < end {
            Command::Subscribe(line.substring_char(first + 1, second).to_owned())
        } else {
            Command::Incomplete(Verb::Subscribe)
        }
    } else if verb == String::from_str("unsubscribe") {
        if first < end {
            Command::Unsubscribe(line.substring_char(first + 1, second).to_owned())
        } else {
            Command::Incomplete(Verb::Unsubscribe)
        }
    } else if verb == String::from_str("publish") {
        if second < end {
            Command::Publish(
                line.substring_char(first + 1, second).to_owned(),
                line.substring_char(second + 1, end).to_owned(),
            )
        } else {
            Command::Incomplete(Verb::Publish)
        }
    } else if verb == String::from_str("exit") {
        Command::Exit
    } else {
        Command::Unknown
    }
}

/// Finds the first two spaces of `line`: the position of the first, the
/// position of the next one behind it, and the number of characters of the
/// line, which also stands for a space that is not there.
fn spaces(line: &str) -> (found: (usize, usize, usize))
    ensures
        found.2 == line@.len(),
        found.0 <= found.1 <= found.2,
        found.0 == first_space(line@),
        found.0 < found.2 ==> found.0 < found.1 && found.1 == found.0 + 1 + first_space(
            line@.skip(found.0 + 1),
        ),
{
    let end = line.unicode_len();
    let mut at: usize = 0;
    let mut first: usize = end;
    let mut second: usize = end;
    for c in it: line.chars()
        invariant
            it.seq() == line@,
            end == line@.len(),
            at == it.index(),
            first <= second <= end,
            first == end ==> forall|j: int| 0 <= j < at ==> line@[j] != ' ',
            first < end ==> first < at && line@[first as int] == ' ' && first < second && forall|
                j: int,
            | 0 <= j < first ==> line@[j] != ' ',
            first < end && second == end ==> forall|j: int| first < j < at ==> line@[j] != ' ',
            second < end ==> second < at && line@[second as int] == ' ' && forall|j: int|
                first < j < second ==> line@[j] != ' ',
    {
        if c == ' ' {
            if first == end {
                first = at;
            } else if second == end {
                second = at;
            }
        }
        at = at + 1;
    }
    proof {
        lemma_first_space(line@, first as int);
        if first < end {
            let rest = line@.skip(first + 1);
            assert forall|j: int| 0 <= j < second - first - 1 implies rest[j] != ' ' by {
                assert(rest[j] == line@[first + 1 + j]);
            }
            lemma_first_space(rest, second - first - 1);
        }
    }
    (first, second, end)
}

/// The first space of a text is where a space stands with none in front of
/// it.
proof fn lemma_first_space(text: Seq<char>, at: int)
    requires
        0 <= at <= text.len(),
        forall|j: int| 0 <= j < at ==> text[j] != ' ',
        at < text.len() ==> text[at] == ' ',
    ensures
        first_space(text) == at,
    decreases text.len(),
{
    if at > 0 {
        let rest = text.drop_first();
        assert forall|j: int| 0 <= j < at - 1 implies rest[j] != ' ' by {
            assert(rest[j] == text[j + 1]);
        }
        lemma_first_space(rest, at - 1);
    }
}

} // verus!
