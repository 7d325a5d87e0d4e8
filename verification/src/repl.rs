//! The line-oriented session: prompt, read a line, answer, repeat.
//!
//! Each non-blank line is parsed, executed and rendered; parse and execution
//! errors are shown as `ERR <msg>` and the session goes on. Blank lines get
//! no answer. The session ends at the end of the input, or with an error
//! when a line is not valid UTF-8.

use vstd::prelude::*;
use vstd::slice::slice_subrange;
use vstd::utf8::{
    decode_utf8, encode_utf8, is_char_boundary_iff_not_is_continuation_byte,
    is_continuation_byte, pop_first_scalar, valid_first_scalar, valid_utf8, valid_utf8_concat, valid_utf8_split,
};

use crate::server::connection::{process_line, respond, utf8_text};
use crate::storage::{Storage, ValueView};
use crate::text::{word_spans, words};

verus! {

broadcast use vstd::string::group_string_axioms;

/// The prompt written before each line is read.
pub const PROMPT: &'static str = "> ";

/// Why a session stopped early.
#[derive(Debug, PartialEq, Eq, Clone, Copy)]
pub enum ReplError {
    /// A line of input is not valid UTF-8.
    InvalidUtf8,
}

/// The answer to one input line, and the store afterwards: nothing for a
/// blank line, else the response followed by a newline.
pub open spec fn repl_answer(m: Map<Seq<char>, ValueView>, line: Seq<char>) -> (
    Option<Seq<char>>,
    Map<Seq<char>, ValueView>,
) {
    if words(line).len() == 0 {
        (None, m)
    } else {
        let (out, m2) = respond(m, line);
        (Some(out.push('\n')), m2)
    }
}

/// An optional answer taken by view.
pub open spec fn answer_view(r: Option<String>) -> Option<Seq<char>> {
    match r {
        Some(s) => Some(s@),
        None => None,
    }
}

/// Answer one input line (see `repl_answer`).
pub fn respond_line<S: Storage>(line: &str, storage: &mut S) -> (r: Option<String>)
    ensures
        (answer_view(r), final(storage).contents()) == repl_answer(old(storage).contents(), line@),
{
    if word_spans(line).len() == 0 {
        return None;
    }
    let mut out = process_line(line, storage);
    out.append("\n");
    proof {
        reveal_strlit("\n");
    }
    Some(out)
}

/// The length in bytes of the first line of `input`, its newline included
/// (all of `input` when there is no newline).
pub open spec fn line_len(input: Seq<u8>) -> nat
    decreases input.len(),
{
    if input.len() == 0 {
        0
    } else if input[0] == 10 {
        1
    } else {
        1 + line_len(input.drop_first())
    }
}

/// The text to show for an optional answer.
pub open spec fn answer_text(a: Option<Seq<char>>) -> Seq<char> {
    match a {
        Some(t) => t,
        None => seq![],
    }
}

/// A whole session over `input`: everything written, the store at the end,
/// and whether it ended at the end of the input (`true`) or at a line that
/// is not valid UTF-8 (`false`). A prompt is written before every attempt
/// to read a line, the last one included.
pub open spec fn session(m: Map<Seq<char>, ValueView>, input: Seq<u8>) -> (
    Seq<char>,
    Map<Seq<char>, ValueView>,
    bool,
)
    decreases input.len(),
{
    if input.len() == 0 {
        ("> "@, m, true)
    } else {
        let n = line_len(input);
        let line = input.take(n as int);
        if !valid_utf8(line) {
            ("> "@, m, false)
        } else {
            let (answer, m2) = repl_answer(m, decode_utf8(line));
            proof {
                lemma_line_len_bounds(input);
            }
            let (rest, m3, ok) = session(m2, input.skip(n as int));
            ("> "@ + answer_text(answer) + rest, m3, ok)
        }
    }
}

/// Encoding a concatenation is concatenating the encodings.
pub proof fn lemma_encode_utf8_concat(a: Seq<char>, b: Seq<char>)
    ensures
        encode_utf8(a + b) == encode_utf8(a) + encode_utf8(b),
    decreases a.len(),
{
    if a.len() == 0 {
        assert(a + b =~= b);
        assert(encode_utf8(a) + encode_utf8(b) =~= encode_utf8(b));
    } else {
        lemma_encode_utf8_concat(a.drop_first(), b);
        assert((a + b).drop_first() =~= a.drop_first() + b);
        assert((a + b)[0] == a[0]);
        assert(encode_utf8(a + b) =~= encode_utf8(a) + encode_utf8(b));
    }
}

/// A non-empty input has a non-empty first line.
pub proof fn lemma_line_len_bounds(input: Seq<u8>)
    ensures
        line_len(input) <= input.len(),
        input.len() > 0 ==> line_len(input) >= 1,
    decreases input.len(),
{
    if input.len() > 0 && input[0] != 10 {
        lemma_line_len_bounds(input.drop_first());
    }
}

/// The first line ends at a newline, or at the end of the input.
proof fn lemma_line_len_ends(input: Seq<u8>)
    requires
        input.len() > 0,
    ensures
        line_len(input) == input.len() || input[line_len(input) - 1] == 10,
    decreases input.len(),
{
    lemma_line_len_bounds(input);
    if input[0] != 10 && input.len() > 1 {
        lemma_line_len_ends(input.drop_first());
        assert(input.drop_first()[line_len(input.drop_first()) - 1] == input[line_len(input) - 1]);
    }
}

/// Splitting valid UTF-8 after its first line leaves two valid pieces.
proof fn lemma_first_line_split(input: Seq<u8>)
    requires
        valid_utf8(input),
        input.len() > 0,
    ensures
        valid_utf8(input.take(line_len(input) as int)),
        valid_utf8(input.skip(line_len(input) as int)),
{
    let n = line_len(input) as int;
    lemma_line_len_bounds(input);
    lemma_line_len_ends(input);
    if n == input.len() {
        assert(input.take(n) =~= input);
        assert(input.skip(n).len() == 0);
    } else {
        let i = n - 1;
        assert(!is_continuation_byte(input[i]));
        is_char_boundary_iff_not_is_continuation_byte(input, i);
        valid_utf8_split(input, i);
        let r = input.subrange(i, input.len() as int);
        assert(r[0] == 10);
        assert(pop_first_scalar(r) =~= input.skip(n));
        let nl: Seq<u8> = seq![10u8];
        assert((10u8 & 0x7F) == 10u8) by (bit_vector);
        assert(nl[0] == 10u8);
        assert(pop_first_scalar(nl).len() == 0);
        assert(valid_utf8(pop_first_scalar(nl)));
        assert(valid_first_scalar(nl));
        assert(valid_utf8(nl));
        valid_utf8_concat(input.subrange(0, i), nl);
        assert(input.take(n) =~= input.subrange(0, i) + nl);
    }
}

/// A session over valid UTF-8 input runs to the end of the input: parse
/// and execution errors are answered and never stop it.
pub proof fn lemma_valid_input_session_completes(m: Map<Seq<char>, ValueView>, input: Seq<u8>)
    requires
        valid_utf8(input),
    ensures
        session(m, input).2,
    decreases input.len(),
{
    if input.len() > 0 {
        let n = line_len(input);
        lemma_line_len_bounds(input);
        lemma_first_line_split(input);
        let (_, m2) = repl_answer(m, decode_utf8(input.take(n as int)));
        lemma_valid_input_session_completes(m2, input.skip(n as int));
    }
}

/// Append the UTF-8 bytes of `text` to `output`.
fn write_text(output: &mut Vec<u8>, text: &str)
    ensures
        final(output)@ == old(output)@ + encode_utf8(text@),
{
    let mut bytes = text.as_bytes_vec();
    output.append(&mut bytes);
}

/// Run a session over `input`, writing prompts and answers to `output`
/// (see `session`). Returns an error when a line is not valid UTF-8; the
/// lines before it have been answered.
pub fn run<S: Storage>(input: &[u8], output: &mut Vec<u8>, storage: &mut S) -> (r: Result<
    (),
    ReplError,
>)
    ensures
        ({
            let (text, m, ok) = session(old(storage).contents(), input@);
            &&& final(output)@ == old(output)@ + encode_utf8(text)
            &&& final(storage).contents() == m
            &&& (r is Ok) == ok
        }),
{
    let n = input.len();
    let mut pos: usize = 0;
    let ghost mut produced: Seq<char> = seq![];
    assert(input@.skip(0) =~= input@);
    assert(encode_utf8(produced) =~= Seq::<u8>::empty());
    assert(old(output)@ + encode_utf8(produced) =~= old(output)@);
    loop
        invariant
            n == input@.len(),
            pos <= n,
            output@ == old(output)@ + encode_utf8(produced),
            ({
                let (whole, m_end, ok_end) = session(old(storage).contents(), input@);
                let (rest, m_rest, ok_rest) = session(storage.contents(), input@.skip(pos as int));
                &&& whole == produced + rest
                &&& m_end == m_rest
                &&& ok_end == ok_rest
            }),
        decreases n - pos,
    {
        let ghost s = input@.skip(pos as int);
        let ghost m = storage.contents();
        let ghost before = output@;
        write_text(output, PROMPT);
        proof {
            lemma_encode_utf8_concat(produced, "> "@);
            assert(output@ =~= old(output)@ + encode_utf8(produced + "> "@));
        }
        if pos == n {
            assert(s.len() == 0);
            assert(produced + "> "@ + seq![] =~= produced + "> "@);
            return Ok(());
        }
        let mut end: usize = pos;
        while end < n && input[end] != 10u8
            invariant
                n == input@.len(),
                pos <= end <= n,
                line_len(input@.skip(pos as int)) == (end - pos) + line_len(input@.skip(end as int)),
            decreases n - end,
        {
            assert(input@.skip(end as int).drop_first() =~= input@.skip(end + 1));
            end = end + 1;
        }
        if end < n {
            assert(input@.skip(end as int)[0] == 10u8);
            end = end + 1;
        } else {
            assert(input@.skip(end as int).len() == 0);
        }
        proof {
            lemma_line_len_bounds(s);
            assert(line_len(s) == end - pos);
            assert(s.take(line_len(s) as int) =~= input@.subrange(pos as int, end as int));
            assert(s.skip(line_len(s) as int) =~= input@.skip(end as int));
        }
        let line_bytes = slice_subrange(input, pos, end);
        match utf8_text(line_bytes) {
            None => {
                assert(produced + "> "@ =~= produced + "> "@);
                return Err(ReplError::InvalidUtf8);
            },
            Some(line) => {
                let answer = respond_line(line, storage);
                let ghost added = "> "@ + answer_text(answer_view(answer));
                match answer {
                    Some(text) => {
                        write_text(output, text.as_str());
                        proof {
                            lemma_encode_utf8_concat(produced + "> "@, text@);
                        }
                    },
                    None => {},
                }
                proof {
                    assert(produced + "> "@ + answer_text(answer_view(answer)) =~= produced + added);
                    assert(output@ =~= old(output)@ + encode_utf8(produced + added));
                    let (rest, m3, ok) = session(storage.contents(), input@.skip(end as int));
                    assert(session(m, s).0 =~= added + rest);
                    assert(produced + session(m, s).0 =~= (produced + added) + rest);
                    produced = produced + added;
                }
                pos = end;
            },
        }
    }
}

} // verus!
