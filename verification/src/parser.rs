//! The text of a cron expression: fields separated by whitespace, each of
//! them `*`, a number, or two numbers joined by `-`.
//!
//! A field holds nothing else: a list such as `0,10,20` or a step such as
//! `*/5` is no field, and text that holds one is refused.

use vstd::prelude::*;

verus! {

/// One field of a cron expression.
#[derive(Clone, Copy, Debug, PartialEq, Eq, Structural)]
pub enum Field {
    /// `*`: every value.
    All,
    /// `start-end`: the values from `start` to `end`, both included.
    Range { start: u32, end: u32 },
    /// A single value.
    Number(u32),
}

/// The text is no cron expression.
#[derive(Clone, Copy, Debug, PartialEq, Eq, Structural)]
pub struct ParseError;

/// The byte of `*`.
pub const ASTERISK: u8 = 42;

/// The byte of `-`.
pub const HYPHEN: u8 = 45;

/// The byte of the digit `0`.
pub const ZERO: u8 = 48;

/// The byte of the digit `9`.
pub const NINE: u8 = 57;

/// The byte of a space.
pub const SPACE: u8 = 32;

/// The byte of a tab.
pub const TAB: u8 = 9;

/// The byte of a line feed.
pub const LINE_FEED: u8 = 10;

/// The byte of a carriage return.
pub const CARRIAGE_RETURN: u8 = 13;

/// Whether `b` is a space, a tab, a line feed or a carriage return.
pub open spec fn is_space(b: u8) -> bool {
    b == SPACE || b == TAB || b == LINE_FEED || b == CARRIAGE_RETURN
}

/// Whether `b` is a decimal digit.
pub open spec fn is_digit(b: u8) -> bool {
    ZERO <= b <= NINE
}

/// The first position from `from` on at which `s` holds whitespace; the
/// length of `s` where there is none.
pub open spec fn token_end(s: Seq<u8>, from: int) -> int
    decreases s.len() - from,
{
    if from >= s.len() || is_space(s[from]) {
        from
    } else {
        token_end(s, from + 1)
    }
}

/// The first position from `from` on at which `s` holds no digit; the length
/// of `s` where there is none.
pub open spec fn digits_end(s: Seq<u8>, from: int) -> int
    decreases s.len() - from,
{
    if from >= s.len() || !is_digit(s[from]) {
        from
    } else {
        digits_end(s, from + 1)
    }
}

/// The number that a run of digits writes in base ten.
pub open spec fn number_value(digits: Seq<u8>) -> nat
    decreases digits.len(),
{
    if digits.len() == 0 {
        0
    } else {
        number_value(digits.drop_last()) * 10 + (digits.last() - ZERO) as nat
    }
}

/// Whether `s` is one digit or more and writes a number that `u32` holds.
pub open spec fn is_number(s: Seq<u8>) -> bool {
    s.len() > 0 && digits_end(s, 0) == s.len() && number_value(s) <= u32::MAX
}

/// The field that a token writes; `None` where it writes none.
pub open spec fn field_of(token: Seq<u8>) -> Option<Field> {
    let k = digits_end(token, 0);
    if token =~= seq![ASTERISK] {
        Some(Field::All)
    } else if is_number(token) {
        Some(Field::Number(number_value(token) as u32))
    } else if 0 < k < token.len() && token[k] == HYPHEN && is_number(token.take(k)) && is_number(
        token.skip(k + 1),
    ) {
        Some(
            Field::Range {
                start: number_value(token.take(k)) as u32,
                end: number_value(token.skip(k + 1)) as u32,
            },
        )
    } else {
        None
    }
}

/// The tokens of `s` from the position `from` on: the longest runs of bytes
/// that are no whitespace, in their order.
pub open spec fn tokens_from(s: Seq<u8>, from: int) -> Seq<Seq<u8>>
    decreases s.len() - from,
{
    if from >= s.len() || from < 0 {
        Seq::empty()
    } else if is_space(s[from]) {
        tokens_from(s, from + 1)
    } else {
        let end = token_end(s, from);
        if from < end <= s.len() {
            seq![s.subrange(from, end)] + tokens_from(s, end)
        } else {
            Seq::empty()
        }
    }
}

/// The tokens of `s`.
pub open spec fn tokens(s: Seq<u8>) -> Seq<Seq<u8>> {
    tokens_from(s, 0)
}

/// The fields that the text `s` writes: one for each token, where there is
/// a token and each token writes a field.
pub open spec fn parsed(s: Seq<u8>) -> Option<Seq<Field>> {
    let ts = tokens(s);
    if ts.len() > 0 && forall|k: int| 0 <= k < ts.len() ==> field_of(#[trigger] ts[k]) is Some {
        Some(Seq::new(ts.len(), |k: int| field_of(ts[k]).unwrap()))
    } else {
        None
    }
}

/// A token ends behind its first byte, within the text, at whitespace or at
/// the end, and holds no whitespace.
pub proof fn lemma_token_end(s: Seq<u8>, from: int)
    requires
        0 <= from <= s.len(),
    ensures
        from <= token_end(s, from) <= s.len(),
        from < s.len() && !is_space(s[from]) ==> from < token_end(s, from),
        token_end(s, from) < s.len() ==> is_space(s[token_end(s, from)]),
        forall|k: int| from <= k < token_end(s, from) ==> !is_space(#[trigger] s[k]),
    decreases s.len() - from,
{
    if from < s.len() && !is_space(s[from]) {
        lemma_token_end(s, from + 1);
    }
}

/// Each token holds a byte or more and no whitespace, and each field that a
/// text writes is the field of one of its tokens, in their order.
pub proof fn lemma_tokens(s: Seq<u8>, from: int, k: int)
    requires
        0 <= from <= s.len(),
        0 <= k < tokens_from(s, from).len(),
    ensures
        tokens_from(s, from)[k].len() > 0,
        forall|j: int|
            0 <= j < tokens_from(s, from)[k].len() ==> !is_space(#[trigger] tokens_from(s, from)[k][j]),
        from == 0 && parsed(s) is Some ==> parsed(s).unwrap().len() == tokens(s).len() && field_of(
            tokens(s)[k],
        ) == Some(parsed(s).unwrap()[k]),
    decreases s.len() - from,
{
    if from < s.len() {
        if is_space(s[from]) {
            lemma_tokens(s, from + 1, k);
        } else {
            let end = token_end(s, from);
            lemma_token_end(s, from);
            if k > 0 {
                lemma_tokens(s, end, k - 1);
            }
        }
    }
}

/// A run of digits ends within the text, at a byte that is no digit or at
/// the end, and holds digits only.
pub proof fn lemma_digits_end(s: Seq<u8>, from: int)
    requires
        0 <= from <= s.len(),
    ensures
        from <= digits_end(s, from) <= s.len(),
        digits_end(s, from) < s.len() ==> !is_digit(s[digits_end(s, from)]),
        forall|k: int| from <= k < digits_end(s, from) ==> is_digit(#[trigger] s[k]),
    decreases s.len() - from,
{
    if from < s.len() && is_digit(s[from]) {
        lemma_digits_end(s, from + 1);
    }
}

/// The end of a run of digits is the first position that holds no digit.
pub proof fn lemma_digits_end_is(s: Seq<u8>, from: int, end: int)
    requires
        0 <= from <= end <= s.len(),
        forall|k: int| from <= k < end ==> is_digit(#[trigger] s[k]),
        end == s.len() || !is_digit(s[end]),
    ensures
        digits_end(s, from) == end,
    decreases end - from,
{
    if from < end {
        lemma_digits_end_is(s, from + 1, end);
    }
}

/// The end of a token is the first position that holds whitespace.
pub proof fn lemma_token_end_is(s: Seq<u8>, from: int, end: int)
    requires
        0 <= from <= end <= s.len(),
        forall|k: int| from <= k < end ==> !is_space(#[trigger] s[k]),
        end == s.len() || is_space(s[end]),
    ensures
        token_end(s, from) == end,
    decreases end - from,
{
    if from < end {
        lemma_token_end_is(s, from + 1, end);
    }
}

/// Whether `b` is a space, a tab, a line feed or a carriage return.
pub fn space(b: u8) -> (r: bool)
    ensures
        r == is_space(b),
{
    b == SPACE || b == TAB || b == LINE_FEED || b == CARRIAGE_RETURN
}

/// Whether `b` is a decimal digit.
pub fn digit(b: u8) -> (r: bool)
    ensures
        r == is_digit(b),
{
    ZERO <= b && b <= NINE
}

/// Reads the run of digits that begins at `start` and ends before `end` at
/// the latest. Gives the position behind the run, and the number that the
/// run writes where `u32` holds it.
fn read_number(input: &[u8], start: usize, end: usize) -> (r: (usize, Option<u32>))
    requires
        start <= end <= input@.len(),
    ensures
        r.0 == start + digits_end(input@.subrange(start as int, end as int), 0),
        start <= r.0 <= end,
        r.1 == if number_value(input@.subrange(start as int, r.0 as int)) <= u32::MAX {
            Some(number_value(input@.subrange(start as int, r.0 as int)) as u32)
        } else {
            None
        },
{
    let ghost token = input@.subrange(start as int, end as int);
    let mut pos: usize = start;
    let mut value: u64 = 0;
    let mut fits: bool = true;
    while pos < end && digit(input[pos])
        invariant
            start <= pos <= end <= input@.len(),
            token == input@.subrange(start as int, end as int),
            forall|k: int| 0 <= k < pos - start ==> is_digit(#[trigger] token[k]),
            fits ==> value == number_value(token.take(pos - start)) && value <= u32::MAX,
            !fits ==> number_value(token.take(pos - start)) > u32::MAX,
        decreases end - pos,
    {
        let ghost before = token.take(pos - start);
        let ghost after = token.take(pos - start + 1);
        proof {
            assert(after.drop_last() =~= before);
            assert(after.last() == input@[pos as int]);
        }
        if fits {
            value = value * 10 + (input[pos] - ZERO) as u64;
            if value > u32::MAX as u64 {
                fits = false;
            }
        }
        pos = pos + 1;
    }
    proof {
        lemma_digits_end_is(token, 0, pos - start);
        assert(token.take(pos - start) =~= input@.subrange(start as int, pos as int));
    }
    if fits {
        (pos, Some(value as u32))
    } else {
        (pos, None)
    }
}

/// The field that the bytes from `start` up to `end` write.
fn read_field(input: &[u8], start: usize, end: usize) -> (r: Option<Field>)
    requires
        start < end <= input@.len(),
    ensures
        r == field_of(input@.subrange(start as int, end as int)),
{
    let ghost token = input@.subrange(start as int, end as int);
    if end - start == 1 && input[start] == ASTERISK {
        assert(token =~= seq![ASTERISK]);
        return Some(Field::All);
    }
    assert(!(token =~= seq![ASTERISK])) by {
        if token =~= seq![ASTERISK] {
            assert(token.len() == 1);
            assert(token[0] == input@[start as int]);
        }
    }
    let (mid, first) = read_number(input, start, end);
    let ghost k = mid - start;
    proof {
        lemma_digits_end(token, 0);
        assert(token.take(k) =~= input@.subrange(start as int, mid as int));
    }
    if mid == start {
        return None;
    }
    if mid == end {
        proof {
            assert(token.take(k) =~= token);
        }
        return match first {
            Some(n) => Some(Field::Number(n)),
            None => None,
        };
    }
    if input[mid] != HYPHEN {
        return None;
    }
    assert(token[k] == input@[mid as int]);
    let ghost rest = token.skip(k + 1);
    assert(rest =~= input@.subrange(mid + 1, end as int));
    let (last, second) = read_number(input, mid + 1, end);
    proof {
        lemma_digits_end(rest, 0);
        assert(rest.take(last - mid - 1) =~= input@.subrange(mid + 1, last as int));
        if last == end {
            assert(rest.take(last - mid - 1) =~= rest);
        }
    }
    if last != end || last == mid + 1 {
        return None;
    }
    proof {
        lemma_digits_end_is(token.take(k), 0, k);
    }
    match (first, second) {
        (Some(a), Some(b)) => Some(Field::Range { start: a, end: b }),
        _ => None,
    }
}

/// Reads a cron expression: the fields that `input` writes, in their order.
/// Whitespace separates the fields and may stand before the first and
/// behind the last of them. Fails where `input` holds no field, or a token
/// that writes no field.
pub fn parse(input: &[u8]) -> (r: Result<Vec<Field>, ParseError>)
    ensures
        match r {
            Ok(fields) => parsed(input@) == Some(fields@),
            Err(_) => parsed(input@) is None,
        },
{
    let mut fields: Vec<Field> = Vec::new();
    let mut pos: usize = 0;
    let ghost mut done: Seq<Seq<u8>> = Seq::empty();
    while pos < input.len()
        invariant
            pos <= input@.len(),
            tokens(input@) == done + tokens_from(input@, pos as int),
            fields@.len() == done.len(),
            forall|k: int| 0 <= k < done.len() ==> field_of(#[trigger] done[k]) == Some(fields@[k]),
        decreases input@.len() - pos,
    {
        if space(input[pos]) {
            pos = pos + 1;
        } else {
            let mut end: usize = pos + 1;
            while end < input.len() && !space(input[end])
                invariant
                    pos < end <= input@.len(),
                    forall|k: int| pos <= k < end ==> !is_space(#[trigger] input@[k]),
                decreases input@.len() - end,
            {
                end = end + 1;
            }
            proof {
                lemma_token_end_is(input@, pos as int, end as int);
            }
            let ghost token = input@.subrange(pos as int, end as int);
            match read_field(input, pos, end) {
                Some(field) => {
                    fields.push(field);
                    proof {
                        assert(done + (seq![token] + tokens_from(input@, end as int)) =~= done.push(
                            token,
                        ) + tokens_from(input@, end as int));
                        done = done.push(token);
                    }
                },
                None => {
                    proof {
                        let ts = tokens(input@);
                        assert(ts[done.len() as int] == token);
                    }
                    return Err(ParseError);
                },
            }
            pos = end;
        }
    }
    proof {
        assert(tokens(input@) =~= done);
    }
    if fields.len() == 0 {
        Err(ParseError)
    } else {
        proof {
            let ts = tokens(input@);
            assert(Seq::new(ts.len(), |k: int| field_of(ts[k]).unwrap()) =~= fields@);
        }
        Ok(fields)
    }
}

} // verus!
