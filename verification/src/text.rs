//! Character-level text rules shared by the parser and the formatter:
//! whitespace, word splitting, ASCII case folding, and decimal numbers.

use vstd::prelude::*;

verus! {

broadcast use vstd::string::group_string_axioms;

/// Unicode `White_Space`: the characters that `char::is_whitespace` accepts.
pub open spec fn is_whitespace(c: char) -> bool {
    ||| '\u{9}' <= c <= '\u{d}'
    ||| c == ' '
    ||| c == '\u{85}'
    ||| c == '\u{a0}'
    ||| c == '\u{1680}'
    ||| '\u{2000}' <= c <= '\u{200a}'
    ||| c == '\u{2028}'
    ||| c == '\u{2029}'
    ||| c == '\u{202f}'
    ||| c == '\u{205f}'
    ||| c == '\u{3000}'
}

/// Whether `c` is a whitespace character.
pub fn char_is_whitespace(c: char) -> (r: bool)
    ensures
        r == is_whitespace(c),
{
    ('\u{9}' <= c && c <= '\u{d}') || c == ' ' || c == '\u{85}' || c == '\u{a0}' || c
        == '\u{1680}' || ('\u{2000}' <= c && c <= '\u{200a}') || c == '\u{2028}' || c
        == '\u{2029}' || c == '\u{202f}' || c == '\u{205f}' || c == '\u{3000}'
}

/// The whitespace-separated words of `s`, in order, as `str::split_whitespace`
/// yields them. Read left to right: whitespace adds nothing, a character that
/// follows whitespace (or starts the text) begins a new word, and any other
/// character extends the last word.
pub open spec fn words(s: Seq<char>) -> Seq<Seq<char>>
    decreases s.len(),
{
    if s.len() == 0 {
        seq![]
    } else {
        let prev = words(s.drop_last());
        let c = s.last();
        if is_whitespace(c) {
            prev
        } else if s.len() == 1 || is_whitespace(s[s.len() - 2]) {
            prev.push(seq![c])
        } else {
            prev.update(prev.len() - 1, prev.last().push(c))
        }
    }
}

} // verus!

verus! {

/// Whitespace at the end of a text adds no word.
pub proof fn lemma_words_trailing_whitespace(s: Seq<char>, t: Seq<char>)
    requires
        forall|i: int| 0 <= i < t.len() ==> is_whitespace(#[trigger] t[i]),
    ensures
        words(s + t) == words(s),
    decreases t.len(),
{
    if t.len() == 0 {
        assert(s + t =~= s);
    } else {
        assert((s + t).drop_last() =~= s + t.drop_last());
        assert((s + t).last() == t[t.len() - 1]);
        lemma_words_trailing_whitespace(s, t.drop_last());
    }
}

/// Whitespace at the start of a text adds no word and changes none.
pub proof fn lemma_words_leading_whitespace(p: Seq<char>, s: Seq<char>)
    requires
        forall|i: int| 0 <= i < p.len() ==> is_whitespace(#[trigger] p[i]),
    ensures
        words(p + s) == words(s),
    decreases s.len(),
{
    if s.len() == 0 {
        assert(p + s =~= Seq::<char>::empty() + p);
        lemma_words_trailing_whitespace(Seq::<char>::empty(), p);
    } else {
        let t = p + s;
        assert(t.drop_last() =~= p + s.drop_last());
        assert(t.last() == s.last());
        lemma_words_leading_whitespace(p, s.drop_last());
        if s.len() >= 2 {
            assert(t[t.len() - 2] == s[s.len() - 2]);
        } else if p.len() > 0 {
            assert(t[t.len() - 2] == p[p.len() - 1]);
        }
    }
}

/// Two texts of the same length with whitespace at the same places and the
/// same characters everywhere else split into the same words.
pub proof fn lemma_words_same_shape(s1: Seq<char>, s2: Seq<char>)
    requires
        s1.len() == s2.len(),
        forall|i: int|
            0 <= i < s1.len() ==> (is_whitespace(#[trigger] s1[i]) <==> is_whitespace(s2[i])),
        forall|i: int| 0 <= i < s1.len() && !is_whitespace(#[trigger] s1[i]) ==> s1[i] == s2[i],
    ensures
        words(s1) == words(s2),
    decreases s1.len(),
{
    if s1.len() > 0 {
        let t1 = s1.drop_last();
        let t2 = s2.drop_last();
        assert forall|i: int| 0 <= i < t1.len() implies (is_whitespace(#[trigger] t1[i])
            <==> is_whitespace(t2[i])) by {
            assert(t1[i] == s1[i] && t2[i] == s2[i]);
        }
        assert forall|i: int| 0 <= i < t1.len() && !is_whitespace(#[trigger] t1[i]) implies t1[i]
            == t2[i] by {
            assert(t1[i] == s1[i] && t2[i] == s2[i]);
        }
        lemma_words_same_shape(t1, t2);
        let n = s1.len() - 1;
        assert(is_whitespace(s1[n]) <==> is_whitespace(s2[n]));
        if s1.len() > 1 {
            assert(is_whitespace(s1[n - 1]) <==> is_whitespace(s2[n - 1]));
        }
    }
}

/// Whether `w` can stand as one word: non-empty, with no whitespace.
pub open spec fn is_word(w: Seq<char>) -> bool {
    &&& w.len() > 0
    &&& forall|i: int| 0 <= i < w.len() ==> !is_whitespace(#[trigger] w[i])
}

/// Words written out with one space between each two.
pub open spec fn spaced(ws: Seq<Seq<char>>) -> Seq<char>
    decreases ws.len(),
{
    if ws.len() == 0 {
        seq![]
    } else if ws.len() == 1 {
        ws[0]
    } else {
        spaced(ws.drop_last()) + seq![' '] + ws.last()
    }
}

/// A word written after nothing or after whitespace is one more word.
proof fn lemma_words_append_word(s: Seq<char>, w: Seq<char>)
    requires
        s.len() == 0 || is_whitespace(s.last()),
        is_word(w),
    ensures
        words(s + w) == words(s).push(w),
    decreases w.len(),
{
    let t = s + w;
    assert(t.last() == w.last());
    if w.len() == 1 {
        assert(t.drop_last() =~= s);
        if s.len() > 0 {
            assert(t[t.len() - 2] == s.last());
        }
        assert(w =~= seq![w.last()]);
    } else {
        let u = w.drop_last();
        assert(t.drop_last() =~= s + u);
        assert(t[t.len() - 2] == w[w.len() - 2]);
        lemma_words_append_word(s, u);
        assert(u.push(w.last()) =~= w);
    }
}

/// Splitting words written out with single spaces gives back the words.
pub proof fn lemma_words_of_spaced(ws: Seq<Seq<char>>)
    requires
        forall|i: int| 0 <= i < ws.len() ==> is_word(#[trigger] ws[i]),
    ensures
        words(spaced(ws)) == ws,
    decreases ws.len(),
{
    if ws.len() == 1 {
        lemma_words_append_word(Seq::<char>::empty(), ws[0]);
        assert(Seq::<char>::empty() + ws[0] =~= ws[0]);
        assert(seq![ws[0]] =~= ws);
    } else if ws.len() > 1 {
        let front = ws.drop_last();
        lemma_words_of_spaced(front);
        let sp: Seq<char> = seq![' '];
        assert(is_whitespace(' '));
        assert forall|i: int| 0 <= i < sp.len() implies is_whitespace(#[trigger] sp[i]) by {}
        lemma_words_trailing_whitespace(spaced(front), sp);
        assert((spaced(front) + sp).last() == ' ');
        lemma_words_append_word(spaced(front) + sp, ws.last());
        assert(front.push(ws.last()) =~= ws);
    }
}

/// How word `i` of `s` sits in `s`: spans `[start, end)` that cover exactly
/// the words of `s`, in order.
pub open spec fn spans_of_words(s: Seq<char>, spans: Seq<(usize, usize)>) -> bool {
    &&& spans.len() == words(s).len()
    &&& forall|i: int|
        #![trigger spans[i]]
        0 <= i < spans.len() ==> {
            &&& spans[i].0 <= spans[i].1 <= s.len()
            &&& s.subrange(spans[i].0 as int, spans[i].1 as int) == words(s)[i]
        }
}

/// How `words` grows by one character.
proof fn lemma_words_step(s: Seq<char>, i: int)
    requires
        0 <= i < s.len(),
    ensures
        ({
            let w = words(s.take(i));
            let c = s[i];
            words(s.take(i + 1)) == if is_whitespace(c) {
                w
            } else if i == 0 || is_whitespace(s[i - 1]) {
                w.push(seq![c])
            } else {
                w.update(w.len() - 1, w.last().push(c))
            }
        }),
{
    let t = s.take(i + 1);
    assert(t.drop_last() =~= s.take(i));
    assert(t.last() == s[i]);
    if i > 0 {
        assert(t[t.len() - 2] == s[i - 1]);
    }
}

/// Words are never empty: a non-whitespace character just before the end
/// means the last word exists.
proof fn lemma_words_nonempty_after_char(s: Seq<char>, i: int)
    requires
        0 < i <= s.len(),
        !is_whitespace(s[i - 1]),
    ensures
        words(s.take(i)).len() > 0,
    decreases i,
{
    lemma_words_step(s, i - 1);
    if i > 1 && !is_whitespace(s[i - 2]) {
        lemma_words_nonempty_after_char(s, i - 1);
    }
}

/// The spans found so far, with the word in progress (if any) closed at `i`.
spec fn spans_so_far(done: Seq<(usize, usize)>, in_word: bool, start: usize, i: usize) -> Seq<(usize, usize)> {
    if in_word {
        done.push((start, i))
    } else {
        done
    }
}

/// The `[start, end)` character positions of each word of `text`.
pub fn word_spans(text: &str) -> (spans: Vec<(usize, usize)>)
    ensures
        spans_of_words(text@, spans@),
{
    let n = text.unicode_len();
    let mut spans: Vec<(usize, usize)> = Vec::new();
    let mut start: usize = 0;
    let mut in_word = false;
    let mut i: usize = 0;
    for c in it: text.chars()
        invariant
            n == text@.len(),
            it.seq() == text@,
            i == it.index(),
            i <= n,
            in_word == (i > 0 && !is_whitespace(text@[i - 1])),
            in_word ==> start < i,
            spans_of_words(text@.take(i as int), spans_so_far(spans@, in_word, start, i)),
    {
        let ghost s = text@;
        let ghost prev = spans_so_far(spans@, in_word, start, i);
        proof {
            lemma_words_step(s, i as int);
            if in_word {
                lemma_words_nonempty_after_char(s, i as int);
            }
            assert forall|k: int| 0 <= k < prev.len() implies
                s.take(i + 1).subrange(prev[k].0 as int, prev[k].1 as int) =~=
                s.take(i as int).subrange(prev[k].0 as int, prev[k].1 as int) by {}
        }
        assert(c == s[i as int]);
        if char_is_whitespace(c) {
            if in_word {
                spans.push((start, i));
                in_word = false;
            }
            assert(spans_so_far(spans@, in_word, start, (i + 1) as usize) == prev);
            assert(words(s.take(i + 1)) == words(s.take(i as int)));
            assert forall|k: int| 0 <= k < prev.len() implies
                #[trigger] prev[k].0 <= prev[k].1 <= s.take(i + 1).len()
                && s.take(i + 1).subrange(prev[k].0 as int, prev[k].1 as int) == words(s.take(i + 1))[k] by {}
        } else if !in_word {
            start = i;
            in_word = true;
            assert(spans_so_far(spans@, in_word, start, (i + 1) as usize) == prev.push((i, (i + 1) as usize)));
            assert(s.take(i + 1).subrange(i as int, i + 1) =~= seq![c]);
            let ghost next = prev.push((i, (i + 1) as usize));
            let ghost nw = words(s.take(i + 1));
            assert(nw == words(s.take(i as int)).push(seq![c]));
            assert forall|k: int| 0 <= k < next.len() implies
                #[trigger] next[k].0 <= next[k].1 <= s.take(i + 1).len()
                && s.take(i + 1).subrange(next[k].0 as int, next[k].1 as int) == nw[k] by {
                if k < prev.len() {
                    assert(next[k] == prev[k]);
                }
            }
        } else {
            assert(spans_so_far(spans@, in_word, start, (i + 1) as usize) ==
                prev.update(prev.len() - 1, (start, (i + 1) as usize)));
            assert(s.take(i + 1).subrange(start as int, i + 1) =~=
                s.take(i as int).subrange(start as int, i as int).push(c));
            let ghost next = prev.update(prev.len() - 1, (start, (i + 1) as usize));
            let ghost w = words(s.take(i as int));
            let ghost nw = words(s.take(i + 1));
            assert(nw == w.update(w.len() - 1, w.last().push(c)));
            assert(prev[prev.len() - 1] == (start, i));
            assert forall|k: int| 0 <= k < next.len() implies
                #[trigger] next[k].0 <= next[k].1 <= s.take(i + 1).len()
                && s.take(i + 1).subrange(next[k].0 as int, next[k].1 as int) == nw[k] by {
                if k < prev.len() - 1 {
                    assert(next[k] == prev[k]);
                }
            }
        }
        i = i + 1;
    }
    assert(text@.take(n as int) =~= text@);
    if in_word {
        spans.push((start, n));
    }
    spans
}

} // verus!

verus! {

/// ASCII case folding of one character: `A`..`Z` become `a`..`z`, every
/// other character is left as it is (`char::to_ascii_lowercase`).
pub open spec fn ascii_lower(c: char) -> char {
    if 'A' <= c <= 'Z' {
        ((c as u32) + 32) as char
    } else {
        c
    }
}

/// `str::to_ascii_lowercase`, character by character.
pub open spec fn ascii_lowercase(s: Seq<char>) -> Seq<char> {
    s.map_values(|c: char| ascii_lower(c))
}

/// Whether `word`, folded to ASCII lower case, is exactly `target`.
pub fn lowercase_is(word: &str, target: &str) -> (r: bool)
    ensures
        r == (ascii_lowercase(word@) == target@),
{
    broadcast use vstd::utf8::char_u32_cast;

    let n = word.unicode_len();
    let m = target.unicode_len();
    if n != m {
        proof {
            assert(ascii_lowercase(word@).len() != target@.len());
        }
        return false;
    }
    let mut i: usize = 0;
    while i < n
        invariant
            n == word@.len(),
            n == target@.len(),
            i <= n,
            forall|j: int| 0 <= j < i ==> ascii_lower(#[trigger] word@[j]) == target@[j],
        decreases n - i,
    {
        let a = word.get_char(i);
        let b = target.get_char(i);
        let same = if 'A' <= a && a <= 'Z' {
            (a as u32) + 32 == (b as u32)
        } else {
            a == b
        };
        if !same {
            proof {
                assert(ascii_lowercase(word@)[i as int] != target@[i as int]);
            }
            return false;
        }
        i = i + 1;
    }
    assert(ascii_lowercase(word@) =~= target@);
    true
}

/// The character for a decimal digit.
pub open spec fn digit_char(d: nat) -> char {
    (d + 48) as char
}

/// The decimal numeral for `n`, most significant digit first, with no sign
/// and no leading zeros (`u64::to_string`).
pub open spec fn decimal(n: nat) -> Seq<char>
    decreases n,
{
    if n < 10 {
        seq![digit_char(n)]
    } else {
        decimal(n / 10).push(digit_char(n % 10))
    }
}

/// The one-character text of a decimal digit.
fn digit_text(d: u64) -> (s: &'static str)
    requires
        d < 10,
    ensures
        s@ == seq![digit_char(d as nat)],
{
    proof {
        reveal_strlit("0");
        reveal_strlit("1");
        reveal_strlit("2");
        reveal_strlit("3");
        reveal_strlit("4");
        reveal_strlit("5");
        reveal_strlit("6");
        reveal_strlit("7");
        reveal_strlit("8");
        reveal_strlit("9");
    }
    match d {
        0 => "0",
        1 => "1",
        2 => "2",
        3 => "3",
        4 => "4",
        5 => "5",
        6 => "6",
        7 => "7",
        8 => "8",
        _ => "9",
    }
}

/// Append the decimal numeral of `n` to `out`.
pub fn push_decimal(out: &mut String, n: u64)
    ensures
        final(out)@ == old(out)@ + decimal(n as nat),
    decreases n,
{
    if n >= 10 {
        push_decimal(out, n / 10);
    }
    out.append(digit_text(n % 10));
}

/// The decimal numeral of `n` as a new string.
pub fn decimal_string(n: u64) -> (s: String)
    ensures
        s@ == decimal(n as nat),
{
    let mut s = String::new();
    push_decimal(&mut s, n);
    assert(s@ =~= decimal(n as nat));
    s
}

} // verus!

verus! {

/// Why a numeral is not a `u64` (the kinds `str::parse::<u64>` reports).
#[derive(Debug, PartialEq, Eq, Clone, Copy)]
pub enum IntError {
    Empty,
    InvalidDigit,
    PosOverflow,
}

/// The text `ParseIntError` displays for each kind.
pub open spec fn int_error_message(e: IntError) -> Seq<char> {
    match e {
        IntError::Empty => "cannot parse integer from empty string"@,
        IntError::InvalidDigit => "invalid digit found in string"@,
        IntError::PosOverflow => "number too large to fit in target type"@,
    }
}

impl IntError {
    /// The text `ParseIntError` displays for this kind.
    pub fn message(&self) -> (s: String)
        ensures
            s@ == int_error_message(*self),
    {
        match self {
            IntError::Empty => "cannot parse integer from empty string".to_owned(),
            IntError::InvalidDigit => "invalid digit found in string".to_owned(),
            IntError::PosOverflow => "number too large to fit in target type".to_owned(),
        }
    }
}

/// Whether `c` is an ASCII decimal digit.
pub open spec fn is_digit(c: char) -> bool {
    '0' <= c <= '9'
}

/// The value of a decimal digit character.
pub open spec fn digit_value(c: char) -> nat {
    (c as u32 - 48) as nat
}

/// Reading decimal digits left to right onto `acc`: the first character
/// that is not a digit, or that takes the value past `u64::MAX`, decides
/// the error.
pub open spec fn scan_digits(d: Seq<char>, acc: nat) -> Result<u64, IntError>
    decreases d.len(),
{
    if d.len() == 0 {
        Ok(acc as u64)
    } else if !is_digit(d[0]) {
        Err(IntError::InvalidDigit)
    } else if acc * 10 + digit_value(d[0]) > u64::MAX {
        Err(IntError::PosOverflow)
    } else {
        scan_digits(d.drop_first(), acc * 10 + digit_value(d[0]))
    }
}

/// `str::parse::<u64>`: an optional `+`, then one or more decimal digits
/// whose value fits in a `u64`.
pub open spec fn parse_u64(s: Seq<char>) -> Result<u64, IntError> {
    if s.len() == 0 {
        Err(IntError::Empty)
    } else {
        let d = if s[0] == '+' {
            s.drop_first()
        } else {
            s
        };
        if d.len() == 0 {
            Err(IntError::InvalidDigit)
        } else {
            scan_digits(d, 0)
        }
    }
}

/// A decimal digit character is a digit, and stands for its value.
proof fn lemma_digit_char(d: nat)
    requires
        d < 10,
    ensures
        is_digit(digit_char(d)),
        digit_value(digit_char(d)) == d,
{
    assert(digit_char(d) as u32 == d + 48);
}

/// A numeral starts with a digit.
pub proof fn lemma_decimal_starts_with_digit(n: nat)
    ensures
        decimal(n).len() > 0,
        is_digit(decimal(n)[0]),
    decreases n,
{
    if n < 10 {
        lemma_digit_char(n);
    } else {
        lemma_decimal_starts_with_digit(n / 10);
    }
}

/// Scanning one more character after digits that scanned cleanly to `v`.
proof fn lemma_scan_push(s: Seq<char>, c: char, acc: nat, v: u64)
    requires
        acc <= u64::MAX,
        scan_digits(s, acc) == Ok::<u64, IntError>(v),
    ensures
        scan_digits(s.push(c), acc) == if !is_digit(c) {
            Err::<u64, IntError>(IntError::InvalidDigit)
        } else if v * 10 + digit_value(c) > u64::MAX {
            Err::<u64, IntError>(IntError::PosOverflow)
        } else {
            Ok::<u64, IntError>((v * 10 + digit_value(c)) as u64)
        },
    decreases s.len(),
{
    if s.len() == 0 {
        assert(v == acc);
        assert(s.push(c).drop_first() =~= Seq::<char>::empty());
        assert(s.push(c)[0] == c);
        if is_digit(c) && acc * 10 + digit_value(c) <= u64::MAX {
            assert(scan_digits(s.push(c).drop_first(), acc * 10 + digit_value(c)) == Ok::<
                u64,
                IntError,
            >((acc * 10 + digit_value(c)) as u64));
        }
    } else {
        assert(s.push(c)[0] == s[0]);
        assert(s.push(c).drop_first() =~= s.drop_first().push(c));
        lemma_scan_push(s.drop_first(), c, acc * 10 + digit_value(s[0]), v);
    }
}

/// Reading back the numeral of a `u64` gives the number: what
/// `u64::to_string` writes, `str::parse::<u64>` reads.
pub proof fn lemma_parse_decimal(n: u64)
    ensures
        parse_u64(decimal(n as nat)) == Ok::<u64, IntError>(n),
    decreases n,
{
    lemma_decimal_starts_with_digit(n as nat);
    lemma_scan_decimal(n);
}

/// Scanning the numeral of `n` from nothing gives `n`.
proof fn lemma_scan_decimal(n: u64)
    ensures
        scan_digits(decimal(n as nat), 0) == Ok::<u64, IntError>(n),
    decreases n,
{
    if n < 10 {
        lemma_digit_char(n as nat);
        assert(decimal(n as nat).drop_first() =~= Seq::<char>::empty());
        assert(scan_digits(decimal(n as nat).drop_first(), n as nat) == Ok::<u64, IntError>(n));
    } else {
        let q = n / 10;
        lemma_scan_decimal(q);
        lemma_digit_char((n % 10) as nat);
        lemma_scan_push(decimal(q as nat), digit_char((n % 10) as nat), 0, q);
        assert(decimal(n as nat) == decimal(q as nat).push(digit_char((n % 10) as nat)));
        assert(q * 10 + n % 10 == n);
    }
}

/// Whether every character of `s` is an ASCII decimal digit.
pub open spec fn all_digits(s: Seq<char>) -> bool {
    forall|i: int| 0 <= i < s.len() ==> is_digit(#[trigger] s[i])
}

/// The number that a run of decimal digits stands for, read positionally:
/// each digit is worth ten times the one after it. Leading zeros add
/// nothing.
pub open spec fn numeral_value(s: Seq<char>) -> nat
    decreases s.len(),
{
    if s.len() == 0 {
        0
    } else {
        numeral_value(s.drop_last()) * 10 + digit_value(s.last())
    }
}

/// Once scanning fails, more characters do not rescue it.
proof fn lemma_scan_err_push(s: Seq<char>, c: char, acc: nat)
    requires
        scan_digits(s, acc) is Err,
    ensures
        scan_digits(s.push(c), acc) is Err,
    decreases s.len(),
{
    assert(s.len() > 0);
    assert(s.push(c)[0] == s[0]);
    if is_digit(s[0]) && acc * 10 + digit_value(s[0]) <= u64::MAX {
        assert(s.push(c).drop_first() =~= s.drop_first().push(c));
        lemma_scan_err_push(s.drop_first(), c, acc * 10 + digit_value(s[0]));
    }
}

/// Scanning from nothing accepts exactly the digit runs whose value fits
/// in a `u64`, and gives that value.
proof fn lemma_scan_numeral(s: Seq<char>)
    ensures
        all_digits(s) && numeral_value(s) <= u64::MAX ==> scan_digits(s, 0) == Ok::<u64, IntError>(
            numeral_value(s) as u64,
        ),
        !(all_digits(s) && numeral_value(s) <= u64::MAX) ==> scan_digits(s, 0) is Err,
    decreases s.len(),
{
    if s.len() > 0 {
        let t = s.drop_last();
        let c = s.last();
        assert(t.push(c) =~= s);
        lemma_scan_numeral(t);
        assert(all_digits(s) ==> all_digits(t)) by {
            if all_digits(s) {
                assert forall|i: int| 0 <= i < t.len() implies is_digit(#[trigger] t[i]) by {
                    assert(t[i] == s[i]);
                }
            }
        }
        assert(all_digits(t) && is_digit(c) ==> all_digits(s)) by {
            if all_digits(t) && is_digit(c) {
                assert forall|i: int| 0 <= i < s.len() implies is_digit(#[trigger] s[i]) by {
                    if i < t.len() {
                        assert(s[i] == t[i]);
                    }
                }
            }
        }
        assert(!is_digit(c) ==> !all_digits(s)) by {
            if !is_digit(c) {
                assert(!is_digit(s[s.len() - 1]));
            }
        }
        if all_digits(t) && numeral_value(t) <= u64::MAX {
            lemma_scan_push(t, c, 0, numeral_value(t) as u64);
        } else {
            lemma_scan_err_push(t, c, 0);
        }
    } else {
        assert(scan_digits(s, 0) == Ok::<u64, IntError>(0));
    }
}

/// `str::parse::<u64>` on text without a leading `+` reads exactly the
/// non-empty runs of decimal digits whose value fits in a `u64` (leading
/// zeros included), and gives that value; everything else is an error.
pub proof fn lemma_parse_reads_numerals(s: Seq<char>)
    requires
        s.len() == 0 || s[0] != '+',
    ensures
        (s.len() > 0 && all_digits(s) && numeral_value(s) <= u64::MAX) ==> parse_u64(s) == Ok::<
            u64,
            IntError,
        >(numeral_value(s) as u64),
        !(s.len() > 0 && all_digits(s) && numeral_value(s) <= u64::MAX) ==> parse_u64(s) is Err,
{
    lemma_scan_numeral(s);
}

/// `str::parse::<u64>` accepts one leading `+` and reads the rest as
/// digits: `+` alone, or `+` before anything but a fitting digit run, is
/// an error.
pub proof fn lemma_parse_after_plus(s: Seq<char>)
    requires
        s.len() > 0,
        s[0] == '+',
    ensures
        ({
            let d = s.drop_first();
            &&& (d.len() > 0 && all_digits(d) && numeral_value(d) <= u64::MAX) ==> parse_u64(s)
                == Ok::<u64, IntError>(numeral_value(d) as u64)
            &&& !(d.len() > 0 && all_digits(d) && numeral_value(d) <= u64::MAX) ==> parse_u64(s) is Err
        }),
{
    lemma_scan_numeral(s.drop_first());
}

/// Parse `s` as an unsigned decimal number.
pub fn parse_u64_text(s: &str) -> (r: Result<u64, IntError>)
    ensures
        r == parse_u64(s@),
{
    let n = s.unicode_len();
    if n == 0 {
        return Err(IntError::Empty);
    }
    let skip: usize = if s.get_char(0) == '+' {
        1
    } else {
        0
    };
    if n == skip {
        return Err(IntError::InvalidDigit);
    }
    let ghost d = if s@[0] == '+' {
        s@.drop_first()
    } else {
        s@
    };
    assert(d =~= s@.skip(skip as int));
    assert(d.skip(0) =~= d);
    assert(parse_u64(s@) == scan_digits(d, 0));
    let mut acc: u64 = 0;
    let mut i: usize = 0;
    for c in it: s.chars()
        invariant
            n == s@.len(),
            it.seq() == s@,
            i == it.index(),
            i <= n,
            skip <= 1,
            skip < n,
            d == s@.skip(skip as int),
            parse_u64(s@) == scan_digits(d, 0),
            i <= skip ==> acc == 0,
            scan_digits(d, 0) == scan_digits(d.skip(if i <= skip { 0 } else { i - skip }), acc as nat),
    {
        assert(c == s@[i as int]);
        if i >= skip {
            let ghost k = if i <= skip { 0 } else { (i - skip) as int };
            assert(k == i - skip);
            assert(d.skip(k).len() > 0);
            assert(d.skip(k)[0] == c);
            assert(d.skip(k).drop_first() =~= d.skip(k + 1));
            if !('0' <= c && c <= '9') {
                assert(scan_digits(d.skip(k), acc as nat) == Err::<u64, IntError>(IntError::InvalidDigit));
                return Err(IntError::InvalidDigit);
            }
            let digit = (c as u32 - 48) as u64;
            assert(digit == digit_value(c));
            if acc > (u64::MAX - digit) / 10 {
                assert(acc * 10 + digit > u64::MAX) by (nonlinear_arith)
                    requires
                        acc > (u64::MAX - digit) / 10,
                        digit < 10,
                ;
                assert(scan_digits(d.skip(k), acc as nat) == Err::<u64, IntError>(IntError::PosOverflow));
                return Err(IntError::PosOverflow);
            }
            assert(acc * 10 + digit <= u64::MAX) by (nonlinear_arith)
                requires
                    acc <= (u64::MAX - digit) / 10,
                    digit < 10,
            ;
            acc = acc * 10 + digit;
        }
        i = i + 1;
    }
    assert(d.skip((n - skip) as int) =~= Seq::<char>::empty());
    Ok(acc)
}

} // verus!

verus! {

/// The text that `{:?}` gives for a string: the string in double quotes,
/// with quotes, backslashes and unprintable characters escaped.
pub uninterp spec fn debug_text_of(s: Seq<char>) -> Seq<char>;

/// Render `s` the way `{:?}` does, by calling std's `Debug` for `str`.
/// Trusted: the result is taken to be `debug_text_of(s@)`, a function of
/// the text alone; nothing is claimed about its characters.
#[verifier::external_body]
pub fn debug_text(s: &str) -> (r: String)
    ensures
        r@ == debug_text_of(s@),
{
    format!("{:?}", s)
}

} // verus!
