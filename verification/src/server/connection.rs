//! Per-connection request handling: one frame in, one frame out.
//!
//! A frame's payload is read as UTF-8 command text, parsed, executed and
//! rendered. Parse and execution errors become `ERR <msg>` responses and the
//! connection goes on; a payload that is not UTF-8 ends the connection. The
//! socket loop that feeds frames in and writes responses out lives with the
//! binary.

use std::str::FromStr;

use vstd::prelude::*;
use vstd::utf8::{decode_utf8, encode_utf8, valid_utf8};

use crate::cmd::{parse_command, parse_error_message, Command};
use crate::executor::{execute, execute_command, ExecuteResultView};
use crate::format::{format_error, format_result, render_result};
use crate::message::ErrorMessage;
use crate::server::codec::Frame;
use crate::storage::{value_from_text, Storage, ValueView};
use crate::text::{ascii_lowercase, is_word, lemma_words_of_spaced, spaced};

verus! {

broadcast use vstd::string::group_string_axioms;

/// `std::str::from_utf8`: the bytes read as text when they are valid
/// UTF-8, and nothing otherwise.
#[verifier::external_body]
pub fn utf8_text(bytes: &[u8]) -> (r: Option<&str>)
    ensures
        match r {
            Some(s) => valid_utf8(bytes@) && s@ == decode_utf8(bytes@),
            None => !valid_utf8(bytes@),
        },
{
    std::str::from_utf8(bytes).ok()
}

/// The answer to one command line, and the store afterwards: the rendered
/// result, or `ERR <msg>` for a parse or execution error.
pub open spec fn respond(m: Map<Seq<char>, ValueView>, line: Seq<char>) -> (
    Seq<char>,
    Map<Seq<char>, ValueView>,
) {
    match parse_command(line) {
        Err(e) => ("ERR "@ + parse_error_message(e), m),
        Ok(command) => {
            let (m2, r) = execute_command(m, command);
            match r {
                Ok(result) => (render_result(result), m2),
                Err(e) => ("ERR "@ + e.message_text(), m2),
            }
        },
    }
}

/// What a read gives back of a write, line by line: after `set <key>
/// <value>` is answered `OK`, `get <key>` answers the value as it was typed
/// in (`value_from_text`), and leaves the store as it was.
pub proof fn lemma_set_then_get(m: Map<Seq<char>, ValueView>, key: Seq<char>, value: Seq<char>)
    requires
        is_word(key),
        is_word(value),
    ensures
        ({
            let (out, m1) = respond(m, spaced(seq!["set"@, key, value]));
            &&& out == "OK"@
            &&& m1 == m.insert(key, value_from_text(value))
            &&& respond(m1, spaced(seq!["get"@, key])) == (
                render_result(ExecuteResultView::Read(Some(value_from_text(value)))),
                m1,
            )
        }),
{
    reveal_strlit("set");
    reveal_strlit("get");
    reveal_strlit("OK");
    let set_words = seq!["set"@, key, value];
    let get_words = seq!["get"@, key];
    assert(is_word("set"@));
    assert(is_word("get"@));
    assert forall|i: int| 0 <= i < set_words.len() implies is_word(#[trigger] set_words[i]) by {}
    assert forall|i: int| 0 <= i < get_words.len() implies is_word(#[trigger] get_words[i]) by {}
    lemma_words_of_spaced(set_words);
    lemma_words_of_spaced(get_words);
    assert(ascii_lowercase("set"@) =~= "set"@);
    assert(ascii_lowercase("get"@) =~= "get"@);
    assert("get"@ != "set"@) by {
        assert("get"@[0] != "set"@[0]);
    }
}

/// Parse, execute and format one line. Errors become `ERR <msg>` strings.
pub fn process_line<S: Storage>(line: &str, storage: &mut S) -> (r: String)
    ensures
        (r@, final(storage).contents()) == respond(old(storage).contents(), line@),
{
    let command = match Command::from_str(line) {
        Ok(c) => c,
        Err(e) => {
            return format_error(&e);
        },
    };
    let exec_result = execute(storage, command);
    match exec_result {
        Ok(r) => format_result(&r),
        Err(e) => format_error(&e),
    }
}

/// Answer one request frame. `None` means the payload is not UTF-8 and the
/// connection must close; otherwise the response frame carries the UTF-8
/// bytes of `respond`.
pub fn handle_frame<S: Storage>(frame: &Frame, storage: &mut S) -> (r: Option<Frame>)
    ensures
        !valid_utf8(frame.payload@) ==> r is None && final(storage).contents() == old(
            storage,
        ).contents(),
        valid_utf8(frame.payload@) ==> {
            let (text, m) = respond(old(storage).contents(), decode_utf8(frame.payload@));
            &&& r is Some
            &&& r->0.payload@ == encode_utf8(text)
            &&& final(storage).contents() == m
        },
{
    match utf8_text(frame.payload.as_slice()) {
        None => None,
        Some(line) => {
            let response = process_line(line, storage);
            Some(Frame::new(response.as_str().as_bytes_vec()))
        },
    }
}

} // verus!
