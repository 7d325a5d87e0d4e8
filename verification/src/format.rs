//! Output formatting for execution results and errors.
//!
//! A Redis-like rendering shared by the REPL and the TCP server, without a
//! trailing newline: mutations answer `OK` (or the new counter), reads
//! answer `(nil)`, a quoted string or a bare number, existence answers
//! `1`/`0`, and errors answer `ERR <message>`.

use vstd::prelude::*;

use crate::executor::{ExecuteResult, ExecuteResultView};
use crate::storage::{MutationOutcome, StoredValue, ValueView};
use crate::message::ErrorMessage;
use crate::text::{decimal, decimal_string, lemma_decimal_starts_with_digit, lemma_parse_decimal};

verus! {

broadcast use vstd::string::group_string_axioms;

/// Render any error as the wire `ERR <msg>` form.
pub fn format_error<E: ErrorMessage>(err: &E) -> (s: String)
    ensures
        s@ == "ERR "@ + err.message_text(),
{
    let mut s = "ERR ".to_owned();
    let m = err.message();
    s.append(m.as_str());
    s
}

/// The rendering of an execution result.
pub open spec fn render_result(r: ExecuteResultView) -> Seq<char> {
    match r {
        ExecuteResultView::Mutation(MutationOutcome::Stored) => "OK"@,
        ExecuteResultView::Mutation(MutationOutcome::Deleted) => "OK"@,
        ExecuteResultView::Mutation(MutationOutcome::Counter { new_value }) => decimal(
            new_value as nat,
        ),
        ExecuteResultView::Read(None) => "(nil)"@,
        ExecuteResultView::Read(Some(ValueView::Str(s))) => seq!['"'] + s + seq!['"'],
        ExecuteResultView::Read(Some(ValueView::Int(n))) => decimal(n as nat),
        ExecuteResultView::Existence(true) => "1"@,
        ExecuteResultView::Existence(false) => "0"@,
    }
}

/// Render an execution result as a Redis-like string, without a newline.
pub fn format_result(result: &ExecuteResult) -> (s: String)
    ensures
        s@ == render_result(result@),
{
    match result {
        ExecuteResult::Mutation(MutationOutcome::Stored) => "OK".to_owned(),
        ExecuteResult::Mutation(MutationOutcome::Deleted) => "OK".to_owned(),
        ExecuteResult::Mutation(MutationOutcome::Counter { new_value }) => decimal_string(
            *new_value,
        ),
        ExecuteResult::Read(None) => "(nil)".to_owned(),
        ExecuteResult::Read(Some(StoredValue::Str(s))) => {
            let mut out = "\"".to_owned();
            out.append(s.as_str());
            out.append("\"");
            proof {
                reveal_strlit("\"");
            }
            out
        },
        ExecuteResult::Read(Some(StoredValue::Int(n))) => decimal_string(*n),
        ExecuteResult::Existence(true) => "1".to_owned(),
        ExecuteResult::Existence(false) => "0".to_owned(),
    }
}

/// A read's rendering tells its outcome apart: a missing key, each text
/// (the empty text included) and each number render differently.
pub proof fn lemma_read_rendering_distinguishes(a: Option<ValueView>, b: Option<ValueView>)
    requires
        render_result(ExecuteResultView::Read(a)) == render_result(ExecuteResultView::Read(b)),
    ensures
        a == b,
{
    reveal_strlit("(nil)");
    let ra = render_result(ExecuteResultView::Read(a));
    if let Some(ValueView::Int(n)) = a {
        lemma_decimal_starts_with_digit(n as nat);
    }
    if let Some(ValueView::Int(n)) = b {
        lemma_decimal_starts_with_digit(n as nat);
    }
    match (a, b) {
        (Some(ValueView::Str(x)), Some(ValueView::Str(y))) => {
            assert(x =~= ra.subrange(1, ra.len() - 1));
            assert(y =~= ra.subrange(1, ra.len() - 1));
        },
        (Some(ValueView::Int(x)), Some(ValueView::Int(y))) => {
            lemma_parse_decimal(x);
            lemma_parse_decimal(y);
        },
        _ => {
            assert(ra[0] == render_result(ExecuteResultView::Read(b))[0]);
        },
    }
}

} // verus!
