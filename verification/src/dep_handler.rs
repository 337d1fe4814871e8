//! The line that keeps the arguments of one dependency.

use crate::rustc_arg_handlers::{argument_behind, get_crate_name};
use crate::text::{chars_of, remove_matches, same_text, strings_view, text_of, without};
use vstd::prelude::*;

verus! {

/// The text that `{:?}` gives for a list of strings with the texts `args`.
pub uninterp spec fn debug_text(args: Seq<Seq<char>>) -> Seq<char>;

/// Formats `args` with `{:?}`, as `format!` does for a `Vec<String>`: the
/// result is a function of the texts alone.
#[verifier::external_body]
fn debug_format(args: &Vec<String>) -> (text: String)
    ensures
        text@ == debug_text(strings_view(args@)),
{
    format!("{:?}", args)
}

/// `text` without its brackets, then without its quotes, then without its
/// commas.
pub open spec fn unmarked(text: Seq<char>) -> Seq<char> {
    without(without(without(without(text, "["@), "]"@), "\""@), ","@)
}

/// Takes the brackets, the quotes and the commas out of `text`.
pub fn strip_marks(text: &str) -> (plain: String)
    ensures
        plain@ == unmarked(text@),
{
    let chars = chars_of(text);
    let open = chars_of("[");
    let close = chars_of("]");
    let quote = chars_of("\"");
    let comma = chars_of(",");
    let cut = remove_matches(&chars, &open);
    let cut = remove_matches(&cut, &close);
    let cut = remove_matches(&cut, &quote);
    let cut = remove_matches(&cut, &comma);
    let plain = text_of(&cut, 0, cut.len());
    assert(cut@.subrange(0, cut@.len() as int) =~= cut@);
    plain
}

/// The arguments as one text: their `{:?}` form without brackets, quotes
/// and commas.
pub fn serialize_args(args: Vec<String>) -> (text: String)
    ensures
        text@ == unmarked(debug_text(strings_view(args@))),
{
    let formatted = debug_format(&args);
    strip_marks(formatted.as_str())
}

/// The line kept for the unit that `args` build: its name, a space, and
/// the arguments as one text. A build script gets no line.
pub open spec fn kept_row(args: Seq<Seq<char>>) -> Option<Seq<char>> {
    let name = argument_behind(args, "--crate-name"@, 1)->0;
    if name == "build_script_build"@ {
        None
    } else {
        Some(name + " "@ + unmarked(debug_text(args)))
    }
}

/// The line to keep for the unit that `args` build, if it gets one.
pub fn args_row(args: Vec<String>) -> (row: Option<String>)
    requires
        argument_behind(strings_view(args@), "--crate-name"@, 1) is Some,
    ensures
        match kept_row(strings_view(args@)) {
            Some(text) => row matches Some(found) && found@ == text,
            None => row is None,
        },
{
    let mut row = match get_crate_name(args.as_slice()) {
        Ok(name) => name,
        Err(_) => {
            return None;
        },
    };
    if same_text(row.as_str(), "build_script_build") {
        return None;
    }
    let ghost name = row@;
    let space = chars_of(" ");
    let mut i: usize = 0;
    while i < space.len()
        invariant
            i <= space@.len(),
            row@ == name + space@.subrange(0, i as int),
        decreases space@.len() - i,
    {
        row.push(space[i]);
        assert(row@ =~= name + space@.subrange(0, i + 1));
        i += 1;
    }
    assert(space@.subrange(0, space@.len() as int) =~= space@);
    let serialized = chars_of(serialize_args(args).as_str());
    let ghost spaced = row@;
    let mut i: usize = 0;
    while i < serialized.len()
        invariant
            i <= serialized@.len(),
            row@ == spaced + serialized@.subrange(0, i as int),
        decreases serialized@.len() - i,
    {
        row.push(serialized[i]);
        assert(row@ =~= spaced + serialized@.subrange(0, i + 1));
        i += 1;
    }
    assert(serialized@.subrange(0, serialized@.len() as int) =~= serialized@);
    Some(row)
}


/// Whether `ch` is white space, as `char::is_whitespace` says.
pub uninterp spec fn is_space(ch: char) -> bool;

/// `char::is_whitespace`: whether the character has the Unicode property
/// `White_Space`, which depends on the character alone.
#[verifier::external_body]
fn is_whitespace(ch: char) -> (space: bool)
    ensures
        space == is_space(ch),
{
    ch.is_whitespace()
}

/// `words` with `word` behind them, if `word` holds anything.
pub open spec fn with_word(words: Seq<Seq<char>>, word: Seq<char>) -> Seq<Seq<char>> {
    if word.len() > 0 {
        words.push(word)
    } else {
        words
    }
}

/// Whether `spaces` marks the character at position `at` as white space.
pub open spec fn is_marked(spaces: Seq<bool>, at: int) -> bool {
    0 <= at < spaces.len() && spaces[at]
}

/// The words of `text`, once its first `upto` characters are read: the
/// runs of characters that `spaces` does not mark. The last of them may go
/// on.
pub open spec fn words_upto(text: Seq<char>, spaces: Seq<bool>, upto: int) -> (
    Seq<Seq<char>>,
    Seq<char>,
)
    decreases upto,
{
    if upto <= 0 {
        (Seq::empty(), Seq::empty())
    } else {
        let (words, word) = words_upto(text, spaces, upto - 1);
        if is_marked(spaces, upto - 1) {
            (with_word(words, word), Seq::empty())
        } else {
            (words, word.push(text[upto - 1]))
        }
    }
}

/// The words of `text`: the runs of characters that `spaces` does not
/// mark.
pub open spec fn words_between(text: Seq<char>, spaces: Seq<bool>) -> Seq<Seq<char>> {
    let (words, word) = words_upto(text, spaces, text.len() as int);
    with_word(words, word)
}

/// For each character of `text`, whether it is white space.
pub open spec fn spaces_of(text: Seq<char>) -> Seq<bool> {
    text.map_values(|ch: char| is_space(ch))
}

/// The words of `text`: what white space separates.
pub open spec fn words_of(text: Seq<char>) -> Seq<Seq<char>> {
    words_between(text, spaces_of(text))
}

/// The words of `chars`: the runs of characters that `spaces` does not
/// mark.
pub fn split_at_spaces(chars: &Vec<char>, spaces: &Vec<bool>) -> (words: Vec<String>)
    ensures
        strings_view(words@) == words_between(chars@, spaces@),
{
    let mut words: Vec<String> = Vec::new();
    let mut word = String::new();
    let mut length: usize = 0;
    assert(strings_view(words@) =~= Seq::empty());
    let mut i: usize = 0;
    while i < chars.len()
        invariant
            i <= chars@.len(),
            length == word@.len(),
            length <= i,
            (strings_view(words@), word@) == words_upto(chars@, spaces@, i as int),
        decreases chars@.len() - i,
    {
        if i < spaces.len() && spaces[i] {
            if length > 0 {
                let ghost before = strings_view(words@);
                let ghost ended = word@;
                words.push(word);
                assert(strings_view(words@) =~= before.push(ended));
            }
            word = String::new();
            length = 0;
        } else {
            word.push(chars[i]);
            length += 1;
        }
        i += 1;
    }
    if length > 0 {
        let ghost before = strings_view(words@);
        let ghost ended = word@;
        words.push(word);
        assert(strings_view(words@) =~= before.push(ended));
    }
    words
}

/// The words of `text`: what white space separates.
pub fn split_words(text: &str) -> (words: Vec<String>)
    ensures
        strings_view(words@) == words_of(text@),
{
    let chars = chars_of(text);
    let mut spaces: Vec<bool> = Vec::new();
    let mut i: usize = 0;
    while i < chars.len()
        invariant
            i <= chars@.len(),
            chars@ == text@,
            spaces@.len() == i,
            forall|k: int| 0 <= k < i ==> spaces@[k] == is_space(chars@[k]),
        decreases chars@.len() - i,
    {
        spaces.push(is_whitespace(chars[i]));
        i += 1;
    }
    assert(spaces@ =~= spaces_of(text@));
    split_at_spaces(&chars, &spaces)
}

/// What a line of kept arguments says: the name of a unit, and the
/// arguments that build it. A line without a word says nothing.
pub fn parse_deps_line(line: &str) -> (parsed: Option<(String, Vec<String>)>)
    ensures
        match parsed {
            Some(entry) => words_of(line@).len() > 0 && entry.0@ == words_of(line@)[0]
                && strings_view(entry.1@) == words_of(line@).subrange(
                1,
                words_of(line@).len() as int,
            ),
            None => words_of(line@).len() == 0,
        },
{
    let mut words = split_words(line);
    if words.len() == 0 {
        return None;
    }
    let ghost all = strings_view(words@);
    let name = words.remove(0);
    assert(strings_view(words@) =~= all.subrange(1, all.len() as int));
    Some((name, words))
}

} // verus!
