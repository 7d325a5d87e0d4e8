//! The command grammar: text in, `Command` out.
//!
//! Six verbs, matched without regard to ASCII case; arguments are the
//! whitespace-separated words that follow. `incr`/`decr` take an optional
//! amount that defaults to 1. Missing, surplus and malformed arguments are
//! reported as `ParseError`s.

use std::str::FromStr;

use vstd::prelude::*;

use crate::message::ErrorMessage;
use crate::text::{
    ascii_lowercase, debug_text, debug_text_of, int_error_message, is_whitespace, is_word,
    lemma_words_leading_whitespace, lemma_words_of_spaced, lemma_words_same_shape,
    lemma_words_trailing_whitespace, lowercase_is, parse_u64, parse_u64_text, spans_of_words,
    word_spans, words,
};

verus! {

broadcast use vstd::string::group_string_axioms;

/// A parsed command.
#[derive(Debug, PartialEq)]
pub enum Command {
    SetValue { key: String, value: String },
    Get { key: String },
    Del { key: String },
    Exists { key: String },
    Incr { key: String, by: u64 },
    Decr { key: String, by: u64 },
}

/// What a `Command` is, over key and value text.
pub enum CommandView {
    SetValue { key: Seq<char>, value: Seq<char> },
    Get { key: Seq<char> },
    Del { key: Seq<char> },
    Exists { key: Seq<char> },
    Incr { key: Seq<char>, by: u64 },
    Decr { key: Seq<char>, by: u64 },
}

impl View for Command {
    type V = CommandView;

    open spec fn view(&self) -> CommandView {
        match self {
            Command::SetValue { key, value } => CommandView::SetValue { key: key@, value: value@ },
            Command::Get { key } => CommandView::Get { key: key@ },
            Command::Del { key } => CommandView::Del { key: key@ },
            Command::Exists { key } => CommandView::Exists { key: key@ },
            Command::Incr { key, by } => CommandView::Incr { key: key@, by: *by },
            Command::Decr { key, by } => CommandView::Decr { key: key@, by: *by },
        }
    }
}

/// Why a line is not a command.
#[derive(Debug, PartialEq)]
pub enum ParseError {
    Empty,
    MissingArg(&'static str),
    UnknownCommand(String),
    InvalidAmount { input: String, reason: String },
    TooManyArgs(&'static str),
}

/// What a `ParseError` is, over text.
pub enum ParseErrorView {
    Empty,
    MissingArg(Seq<char>),
    UnknownCommand(Seq<char>),
    InvalidAmount { input: Seq<char>, reason: Seq<char> },
    TooManyArgs(Seq<char>),
}

impl View for ParseError {
    type V = ParseErrorView;

    open spec fn view(&self) -> ParseErrorView {
        match self {
            ParseError::Empty => ParseErrorView::Empty,
            ParseError::MissingArg(label) => ParseErrorView::MissingArg(label@),
            ParseError::UnknownCommand(verb) => ParseErrorView::UnknownCommand(verb@),
            ParseError::InvalidAmount { input, reason } => ParseErrorView::InvalidAmount {
                input: input@,
                reason: reason@,
            },
            ParseError::TooManyArgs(command) => ParseErrorView::TooManyArgs(command@),
        }
    }
}

/// A parse result with its error taken by view.
pub open spec fn parsed<T>(r: Result<T, ParseError>) -> Result<T, ParseErrorView> {
    match r {
        Ok(v) => Ok(v),
        Err(e) => Err(e@),
    }
}

/// A command result taken by view.
pub open spec fn parsed_command(r: Result<Command, ParseError>) -> Result<CommandView, ParseErrorView> {
    match r {
        Ok(c) => Ok(c@),
        Err(e) => Err(e@),
    }
}

/// The word after the verb as a key, for verbs that take nothing else.
pub open spec fn key_only(w: Seq<Seq<char>>, command: Seq<char>) -> Result<Seq<char>, ParseErrorView> {
    if w.len() < 2 {
        Err(ParseErrorView::MissingArg("key"@))
    } else if w.len() > 2 {
        Err(ParseErrorView::TooManyArgs(command))
    } else {
        Ok(w[1])
    }
}

/// An amount word: a `u64` numeral, or `InvalidAmount` with the word and
/// the reason `str::parse::<u64>` gives.
pub open spec fn amount_from(word: Seq<char>) -> Result<u64, ParseErrorView> {
    match parse_u64(word) {
        Ok(n) => Ok(n),
        Err(k) => Err(ParseErrorView::InvalidAmount { input: word, reason: int_error_message(k) }),
    }
}

/// A key and an optional amount (1 when absent), for `incr` and `decr`.
pub open spec fn key_and_amount(w: Seq<Seq<char>>, command: Seq<char>) -> Result<
    (Seq<char>, u64),
    ParseErrorView,
> {
    if w.len() < 2 {
        Err(ParseErrorView::MissingArg("key"@))
    } else {
        let amount = if w.len() < 3 {
            Ok(1u64)
        } else {
            amount_from(w[2])
        };
        match amount {
            Err(e) => Err(e),
            Ok(by) => if w.len() > 3 {
                Err(ParseErrorView::TooManyArgs(command))
            } else {
                Ok((w[1], by))
            },
        }
    }
}

/// The grammar over the words of a line, the verb first.
pub open spec fn parse_words(w: Seq<Seq<char>>) -> Result<CommandView, ParseErrorView>
    recommends
        w.len() > 0,
{
    let verb = ascii_lowercase(w[0]);
    if verb == "set"@ {
        if w.len() < 2 {
            Err(ParseErrorView::MissingArg("key"@))
        } else if w.len() < 3 {
            Err(ParseErrorView::MissingArg("value"@))
        } else if w.len() > 3 {
            Err(ParseErrorView::TooManyArgs("set"@))
        } else {
            Ok(CommandView::SetValue { key: w[1], value: w[2] })
        }
    } else if verb == "get"@ {
        match key_only(w, "get"@) {
            Ok(key) => Ok(CommandView::Get { key }),
            Err(e) => Err(e),
        }
    } else if verb == "del"@ {
        match key_only(w, "del"@) {
            Ok(key) => Ok(CommandView::Del { key }),
            Err(e) => Err(e),
        }
    } else if verb == "exists"@ {
        match key_only(w, "exists"@) {
            Ok(key) => Ok(CommandView::Exists { key }),
            Err(e) => Err(e),
        }
    } else if verb == "incr"@ {
        match key_and_amount(w, "incr"@) {
            Ok((key, by)) => Ok(CommandView::Incr { key, by }),
            Err(e) => Err(e),
        }
    } else if verb == "decr"@ {
        match key_and_amount(w, "decr"@) {
            Ok((key, by)) => Ok(CommandView::Decr { key, by }),
            Err(e) => Err(e),
        }
    } else {
        Err(ParseErrorView::UnknownCommand(w[0]))
    }
}

/// What a line of text parses to.
pub open spec fn parse_command(input: Seq<char>) -> Result<CommandView, ParseErrorView> {
    let w = words(input);
    if w.len() == 0 {
        Err(ParseErrorView::Empty)
    } else {
        parse_words(w)
    }
}

/// Whitespace before and after a line changes nothing about how it parses.
pub proof fn lemma_surrounding_whitespace_ignored(p: Seq<char>, s: Seq<char>, t: Seq<char>)
    requires
        forall|i: int| 0 <= i < p.len() ==> is_whitespace(#[trigger] p[i]),
        forall|i: int| 0 <= i < t.len() ==> is_whitespace(#[trigger] t[i]),
    ensures
        parse_command(p + s + t) == parse_command(s),
{
    lemma_words_trailing_whitespace(p + s, t);
    lemma_words_leading_whitespace(p, s);
}

/// Every character of Unicode's White_Space set — tab, line feed,
/// vertical tab, form feed, carriage return, space, next line, no-break
/// space, ogham space mark, the spaces U+2000 to U+200A, line and
/// paragraph separators, narrow no-break space, medium mathematical space
/// and ideographic space — separates words and is dropped: a line parses
/// the same with it added at either end, and it splits words just as a
/// space does. So a line ending in `\r` (CRLF input) parses as the line
/// without it.
pub proof fn lemma_unicode_whitespace_separates(
    c: char,
    s: Seq<char>,
    a: Seq<char>,
    b: Seq<char>,
)
    requires
        c == '\u{9}' || c == '\u{a}' || c == '\u{b}' || c == '\u{c}' || c == '\u{d}' || c == ' '
            || c == '\u{85}' || c == '\u{a0}' || c == '\u{1680}' || c == '\u{2000}' || c
            == '\u{2001}' || c == '\u{2002}' || c == '\u{2003}' || c == '\u{2004}' || c
            == '\u{2005}' || c == '\u{2006}' || c == '\u{2007}' || c == '\u{2008}' || c
            == '\u{2009}' || c == '\u{200a}' || c == '\u{2028}' || c == '\u{2029}' || c
            == '\u{202f}' || c == '\u{205f}' || c == '\u{3000}',
    ensures
        parse_command(s + seq![c]) == parse_command(s),
        parse_command(seq![c] + s) == parse_command(s),
        parse_command(a + seq![c] + b) == parse_command(a + seq![' '] + b),
{
    let w: Seq<char> = seq![c];
    assert(is_whitespace(c));
    assert forall|i: int| 0 <= i < w.len() implies is_whitespace(#[trigger] w[i]) by {}
    lemma_words_trailing_whitespace(s, w);
    lemma_words_leading_whitespace(w, s);
    let s1 = a + seq![c] + b;
    let s2 = a + seq![' '] + b;
    assert forall|i: int| 0 <= i < s1.len() implies (is_whitespace(#[trigger] s1[i])
        <==> is_whitespace(s2[i])) by {
        if i != a.len() {
            assert(s1[i] == s2[i]);
        }
    }
    assert forall|i: int| 0 <= i < s1.len() && !is_whitespace(#[trigger] s1[i]) implies s1[i]
        == s2[i] by {
        if i != a.len() {
            assert(s1[i] == s2[i]);
        }
    }
    lemma_words_same_shape(s1, s2);
}

/// Any character outside Unicode's White_Space set is part of a word: a
/// line made of such characters is one word, kept as written, so a verb
/// with such a character glued on is not that verb.
pub proof fn lemma_other_characters_join_words(w: Seq<char>)
    requires
        w.len() > 0,
        forall|i: int|
            0 <= i < w.len() ==> {
                let c = #[trigger] w[i];
                !(('\u{9}' <= c && c <= '\u{d}') || c == ' ' || c == '\u{85}' || c == '\u{a0}' || c
                    == '\u{1680}' || ('\u{2000}' <= c && c <= '\u{200a}') || c == '\u{2028}' || c
                    == '\u{2029}' || c == '\u{202f}' || c == '\u{205f}' || c == '\u{3000}')
            },
    ensures
        words(w) == seq![w],
{
    assert(is_word(w));
    lemma_words_of_spaced(seq![w]);
}

/// Verbs match without regard to ASCII case: two verbs that fold to the
/// same text parse the same arguments alike, except that an unknown verb
/// is reported as it was typed.
pub proof fn lemma_verb_case_insensitive(v1: Seq<char>, v2: Seq<char>, args: Seq<Seq<char>>)
    requires
        ascii_lowercase(v1) == ascii_lowercase(v2),
    ensures
        parse_words(seq![v1] + args) == parse_words(seq![v2] + args) || (parse_words(
            seq![v1] + args,
        ) == Err::<CommandView, ParseErrorView>(ParseErrorView::UnknownCommand(v1)) && parse_words(
            seq![v2] + args,
        ) == Err::<CommandView, ParseErrorView>(ParseErrorView::UnknownCommand(v2))),
{
    let w1 = seq![v1] + args;
    let w2 = seq![v2] + args;
    assert(w1[0] == v1);
    assert(w2[0] == v2);
    assert(w1.len() == w2.len());
    assert forall|i: int| 1 <= i < w1.len() implies w1[i] == w2[i] by {
        assert(w1[i] == args[i - 1]);
        assert(w2[i] == args[i - 1]);
    }
    if w1.len() >= 2 {
        assert(w1[1] == w2[1]);
    }
    if w1.len() >= 3 {
        assert(w1[2] == w2[2]);
    }
}

/// The words of a line, handed out one at a time.
struct Words<'a> {
    text: &'a str,
    spans: Vec<(usize, usize)>,
    next: usize,
}

impl<'a> Words<'a> {
    spec fn wf(&self) -> bool {
        &&& spans_of_words(self.text@, self.spans@)
        &&& self.next <= self.spans@.len()
    }

    /// The words not yet handed out.
    spec fn rest(&self) -> Seq<Seq<char>> {
        words(self.text@).skip(self.next as int)
    }

    fn new(text: &'a str) -> (w: Self)
        ensures
            w.wf(),
            w.rest() == words(text@),
    {
        let w = Words { text, spans: word_spans(text), next: 0 };
        assert(w.rest() =~= words(text@));
        w
    }

    fn next_word(&mut self) -> (r: Option<&'a str>)
        requires
            old(self).wf(),
        ensures
            final(self).wf(),
            match r {
                None => old(self).rest().len() == 0 && final(self).rest() == old(self).rest(),
                Some(t) => old(self).rest().len() > 0 && t@ == old(self).rest()[0]
                    && final(self).rest() == old(self).rest().drop_first(),
            },
    {
        if self.next < self.spans.len() {
            let (start, end) = self.spans[self.next];
            let word = self.text.substring_char(start, end);
            assert(word@ == self.rest()[0]);
            self.next = self.next + 1;
            assert(self.rest() =~= old(self).rest().drop_first());
            Some(word)
        } else {
            None
        }
    }
}

/// The command has all its arguments: nothing may follow.
fn expect_done(parts: &mut Words, command: &'static str) -> (r: Result<(), ParseError>)
    requires
        old(parts).wf(),
    ensures
        final(parts).wf(),
        parsed(r) == if old(parts).rest().len() == 0 {
            Ok(())
        } else {
            Err(ParseErrorView::TooManyArgs(command@))
        },
{
    match parts.next_word() {
        None => Ok(()),
        Some(_) => Err(ParseError::TooManyArgs(command)),
    }
}

/// The next word as an owned argument, or `MissingArg(label)`.
fn take_arg(parts: &mut Words, label: &'static str) -> (r: Result<String, ParseError>)
    requires
        old(parts).wf(),
    ensures
        final(parts).wf(),
        match r {
            Ok(s) => old(parts).rest().len() > 0 && s@ == old(parts).rest()[0]
                && final(parts).rest() == old(parts).rest().drop_first(),
            Err(e) => old(parts).rest().len() == 0 && e@ == ParseErrorView::MissingArg(label@)
                && final(parts).rest() == old(parts).rest(),
        },
{
    match parts.next_word() {
        Some(word) => Ok(word.to_owned()),
        None => Err(ParseError::MissingArg(label)),
    }
}

/// An optional amount: 1 when no word is left, else the next word as a
/// `u64` or `InvalidAmount`.
fn take_amount(parts: &mut Words) -> (r: Result<u64, ParseError>)
    requires
        old(parts).wf(),
    ensures
        final(parts).wf(),
        old(parts).rest().len() == 0 ==> r == Ok::<u64, ParseError>(1) && final(parts).rest()
            == old(parts).rest(),
        old(parts).rest().len() > 0 ==> parsed(r) == amount_from(old(parts).rest()[0])
            && final(parts).rest() == old(parts).rest().drop_first(),
{
    match parts.next_word() {
        None => Ok(1),
        Some(word) => match parse_u64_text(word) {
            Ok(n) => Ok(n),
            Err(e) => Err(ParseError::InvalidAmount { input: word.to_owned(), reason: e.message() }),
        },
    }
}

/// The text shown for a parse error.
pub open spec fn parse_error_message(e: ParseErrorView) -> Seq<char> {
    match e {
        ParseErrorView::Empty => "empty input"@,
        ParseErrorView::MissingArg(label) => "missing argument: "@ + label,
        ParseErrorView::UnknownCommand(verb) => "unknown command: "@ + verb,
        ParseErrorView::InvalidAmount { input, reason } => "invalid amount "@ + debug_text_of(input)
            + ": "@ + reason,
        ParseErrorView::TooManyArgs(command) => "too many arguments: "@ + command,
    }
}

impl ErrorMessage for ParseError {
    open spec fn message_text(&self) -> Seq<char> {
        parse_error_message(self@)
    }

    fn message(&self) -> (s: String) {
        match self {
            ParseError::Empty => "empty input".to_owned(),
            ParseError::MissingArg(label) => {
                let mut s = "missing argument: ".to_owned();
                s.append(label);
                s
            },
            ParseError::UnknownCommand(verb) => {
                let mut s = "unknown command: ".to_owned();
                s.append(verb.as_str());
                s
            },
            ParseError::InvalidAmount { input, reason } => {
                let mut s = "invalid amount ".to_owned();
                let quoted = debug_text(input.as_str());
                s.append(quoted.as_str());
                s.append(": ");
                s.append(reason.as_str());
                s
            },
            ParseError::TooManyArgs(command) => {
                let mut s = "too many arguments: ".to_owned();
                s.append(command);
                s
            },
        }
    }
}

impl FromStr for Command {
    type Err = ParseError;

    /// Parse one line of text into a command (see `parse_command`).
    fn from_str(input: &str) -> (r: Result<Command, ParseError>)
        ensures
            parsed_command(r) == parse_command(input@),
    {
        let mut parts = Words::new(input);
        let ghost w = words(input@);
        let verb = match parts.next_word() {
            Some(v) => v,
            None => {
                return Err(ParseError::Empty);
            },
        };
        assert(parts.rest() =~= w.skip(1));
        if lowercase_is(verb, "set") {
            let key = match take_arg(&mut parts, "key") {
                Ok(k) => k,
                Err(e) => {
                    return Err(e);
                },
            };
            let value = match take_arg(&mut parts, "value") {
                Ok(v) => v,
                Err(e) => {
                    return Err(e);
                },
            };
            match expect_done(&mut parts, "set") {
                Ok(()) => {},
                Err(e) => {
                    return Err(e);
                },
            }
            Ok(Command::SetValue { key, value })
        } else if lowercase_is(verb, "get") {
            let key = match take_arg(&mut parts, "key") {
                Ok(k) => k,
                Err(e) => {
                    return Err(e);
                },
            };
            match expect_done(&mut parts, "get") {
                Ok(()) => {},
                Err(e) => {
                    return Err(e);
                },
            }
            Ok(Command::Get { key })
        } else if lowercase_is(verb, "del") {
            let key = match take_arg(&mut parts, "key") {
                Ok(k) => k,
                Err(e) => {
                    return Err(e);
                },
            };
            match expect_done(&mut parts, "del") {
                Ok(()) => {},
                Err(e) => {
                    return Err(e);
                },
            }
            Ok(Command::Del { key })
        } else if lowercase_is(verb, "exists") {
            let key = match take_arg(&mut parts, "key") {
                Ok(k) => k,
                Err(e) => {
                    return Err(e);
                },
            };
            match expect_done(&mut parts, "exists") {
                Ok(()) => {},
                Err(e) => {
                    return Err(e);
                },
            }
            Ok(Command::Exists { key })
        } else if lowercase_is(verb, "incr") {
            let key = match take_arg(&mut parts, "key") {
                Ok(k) => k,
                Err(e) => {
                    return Err(e);
                },
            };
            let by = match take_amount(&mut parts) {
                Ok(n) => n,
                Err(e) => {
                    return Err(e);
                },
            };
            match expect_done(&mut parts, "incr") {
                Ok(()) => {},
                Err(e) => {
                    return Err(e);
                },
            }
            Ok(Command::Incr { key, by })
        } else if lowercase_is(verb, "decr") {
            let key = match take_arg(&mut parts, "key") {
                Ok(k) => k,
                Err(e) => {
                    return Err(e);
                },
            };
            let by = match take_amount(&mut parts) {
                Ok(n) => n,
                Err(e) => {
                    return Err(e);
                },
            };
            match expect_done(&mut parts, "decr") {
                Ok(()) => {},
                Err(e) => {
                    return Err(e);
                },
            }
            Ok(Command::Decr { key, by })
        } else {
            Err(ParseError::UnknownCommand(verb.to_owned()))
        }
    }
}

} // verus!
