//! The interactive text protocol: what one line of input asks for.
//!
//! A line is taken without the whitespace that it ends with, its line end
//! included. The line `quit` ends the input; any other line, an empty one
//! too, is a word to record.

use vstd::prelude::*;

verus! {

/// Whether `c` has the Unicode property `White_Space`: what
/// `char::is_whitespace` returns for `c`. Which characters have the property
/// is not spelled out here.
pub uninterp spec fn is_whitespace(c: char) -> bool;

/// Believed of `char::is_whitespace`, not proved: its result depends on the
/// character alone, and it is `true` for the characters with the property
/// `White_Space` and for no others.
pub assume_specification[ char::is_whitespace ](c: char) -> (b: bool)
    ensures
        b == is_whitespace(c),
;

/// `text` without the whitespace that it ends with.
pub open spec fn trimmed(text: Seq<char>) -> Seq<char>
    decreases text.len(),
{
    if text.len() > 0 && is_whitespace(text.last()) {
        trimmed(text.drop_last())
    } else {
        text
    }
}

/// The word that ends the input.
pub const QUIT: &'static str = "quit";

/// What a line of input asks for.
#[derive(Debug, PartialEq, Eq)]
pub enum Command {
    /// Record one occurrence of this word.
    Record(String),
    /// End the input.
    Quit,
}

impl View for Command {
    type V = Option<Seq<char>>;

    /// The word to record, or `None` for the end of the input.
    open spec fn view(&self) -> Option<Seq<char>> {
        match self {
            Command::Record(word) => Some(word@),
            Command::Quit => None,
        }
    }
}

/// What the trimmed line `word` asks for: the end of the input where it is
/// exactly `quit`, in lower case, and else the recording of `word`.
pub open spec fn command_for(word: Seq<char>) -> Option<Seq<char>> {
    if word == QUIT@ {
        None
    } else {
        Some(word)
    }
}

/// The trimmed text is a prefix of the text, what was cut off is whitespace,
/// and what is left does not end with whitespace.
pub proof fn lemma_trimmed(text: Seq<char>)
    ensures
        trimmed(text).len() <= text.len(),
        trimmed(text) == text.take(trimmed(text).len() as int),
        forall|i: int| trimmed(text).len() <= i < text.len() ==> is_whitespace(#[trigger] text[i]),
        trimmed(text).len() > 0 ==> !is_whitespace(trimmed(text).last()),
    decreases text.len(),
{
    if text.len() > 0 && is_whitespace(text.last()) {
        let front = text.drop_last();
        lemma_trimmed(front);
        assert forall|i: int| trimmed(text).len() <= i < text.len() implies is_whitespace(
            #[trigger] text[i],
        ) by {
            if i < front.len() {
                assert(front[i] == text[i]);
            }
        }
    }
}

/// The trimmed text is the text up to `end`, where all from `end` on is
/// whitespace and the character before `end`, if there is one, is not.
proof fn lemma_trimmed_at(text: Seq<char>, end: int)
    requires
        0 <= end <= text.len(),
        forall|i: int| end <= i < text.len() ==> is_whitespace(#[trigger] text[i]),
        end > 0 ==> !is_whitespace(text[end - 1]),
    ensures
        trimmed(text) == text.take(end),
    decreases text.len(),
{
    if end < text.len() {
        lemma_trimmed_at(text.drop_last(), end);
    }
}

/// The part of `line` before the whitespace that it ends with: all of
/// `line` where it ends with none, nothing where it holds nothing else.
pub fn trim_end(line: &str) -> (word: &str)
    ensures
        word@ == trimmed(line@),
{
    let length = line.unicode_len();
    let mut end: usize = 0;
    let mut seen: usize = 0;
    for c in chars: line.chars()
        invariant
            chars.seq() == line@,
            seen == chars.index(),
            length == line@.len(),
            end <= seen <= length,
            forall|i: int| end <= i < seen ==> is_whitespace(#[trigger] line@[i]),
            end > 0 ==> !is_whitespace(line@[end - 1]),
    {
        seen += 1;
        if !c.is_whitespace() {
            end = seen;
        }
    }
    proof {
        lemma_trimmed_at(line@, end as int);
    }
    line.substring_char(0, end)
}

/// Decides what a line that is already trimmed asks for.
pub fn interpret(word: String) -> (command: Command)
    ensures
        command@ == command_for(word@),
        command@ != Some(QUIT@),
{
    if word == QUIT.to_owned() {
        Command::Quit
    } else {
        Command::Record(word)
    }
}

/// Decides what a line of input asks for, whatever whitespace or line end
/// still follows its text. The word `quit` never comes out as a word to
/// record.
pub fn parse_line(line: &str) -> (command: Command)
    ensures
        command@ == command_for(trimmed(line@)),
        command@ != Some(QUIT@),
{
    interpret(trim_end(line).to_owned())
}

} // verus!
