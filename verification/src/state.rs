//! What the indexer keeps between runs: a cursor and a time, as text under
//! two keys of a local store.

use vstd::prelude::*;
use crate::text::{
    chars_of, decimal, digits_value, is_digit, is_numeral, lemma_decimal_is_numeral, push_i64,
    signed_decimal,
};

verus! {

/// The key of the cursor.
pub const CURSOR_KEY: &'static str = "messages_cursor";

/// The key of the time of the last indexed message.
pub const LAST_SYNC_TS_KEY: &'static str = "last_sync_ts";

/// The integer that a text denotes: digits, with `+` or `-` before them
/// if at all, and a value that fits an `i64`.
pub open spec fn parsed_i64(s: Seq<char>) -> Option<i64> {
    if s.len() > 0 && s[0] == '-' {
        if is_numeral(s.drop_first()) && digits_value(s.drop_first()) <= -(i64::MIN as int) {
            Some((-(digits_value(s.drop_first()) as int)) as i64)
        } else {
            None
        }
    } else if s.len() > 0 && s[0] == '+' {
        if is_numeral(s.drop_first()) && digits_value(s.drop_first()) <= i64::MAX {
            Some(digits_value(s.drop_first()) as i64)
        } else {
            None
        }
    } else if is_numeral(s) && digits_value(s) <= i64::MAX {
        Some(digits_value(s) as i64)
    } else {
        None
    }
}

/// The time that the store holds: the integer that the stored text
/// denotes, zero when nothing is stored or the text denotes none.
pub open spec fn last_sync_ts_of(stored: Option<Seq<char>>) -> i64 {
    match stored {
        Some(s) => match parsed_i64(s) {
            Some(n) => n,
            None => 0,
        },
        None => 0,
    }
}

/// Reads a run of digits from `from` on: its value, unless a character is
/// no digit, there is no digit, or the value passes `limit`.
fn parse_digits(chars: &Vec<char>, from: usize, limit: u64) -> (r: Option<u64>)
    requires
        from <= chars.len(),
        limit <= u64::MAX - 9,
    ensures
        match r {
            Some(n) => is_numeral(chars@.skip(from as int)) && n == digits_value(
                chars@.skip(from as int),
            ) && n <= limit,
            None => !is_numeral(chars@.skip(from as int)) || digits_value(chars@.skip(from as int))
                > limit,
        },
{
    let ghost run = chars@.skip(from as int);
    if from == chars.len() {
        return None;
    }
    let mut value: u64 = 0;
    let mut over = false;
    let mut i: usize = from;
    while i < chars.len()
        invariant
            from <= i <= chars.len(),
            run == chars@.skip(from as int),
            limit <= u64::MAX - 9,
            forall|j: int| 0 <= j < i - from ==> is_digit(#[trigger] run[j]),
            !over ==> value == digits_value(run.take(i - from)) && value <= limit,
            over ==> digits_value(run.take(i - from)) > limit,
        decreases chars.len() - i,
    {
        let c = chars[i];
        if !('0' <= c && c <= '9') {
            assert(!is_digit(run[i - from]));
            return None;
        }
        let d: u64 = (c as u32 - 48) as u64;
        proof {
            let next = run.take(i - from + 1);
            assert(next.drop_last() =~= run.take(i - from));
            assert(next.last() == c);
        }
        if !over && d <= limit && value <= (limit - d) / 10 {
            value = value * 10 + d;
        } else {
            over = true;
        }
        i += 1;
    }
    assert(run.take(i - from) =~= run);
    if over {
        None
    } else {
        Some(value)
    }
}

/// Reads the integer that a text denotes.
pub fn parse_i64(text: &str) -> (r: Option<i64>)
    ensures
        r == parsed_i64(text@),
{
    let chars = chars_of(text);
    if chars.len() > 0 && chars[0] == '-' {
        assert(chars@.skip(1) =~= chars@.drop_first());
        match parse_digits(&chars, 1, 9223372036854775808u64) {
            Some(n) => if n == 9223372036854775808u64 {
                Some(i64::MIN)
            } else {
                Some(-(n as i64))
            },
            None => None,
        }
    } else if chars.len() > 0 && chars[0] == '+' {
        assert(chars@.skip(1) =~= chars@.drop_first());
        match parse_digits(&chars, 1, i64::MAX as u64) {
            Some(n) => Some(n as i64),
            None => None,
        }
    } else {
        assert(chars@.skip(0) =~= chars@);
        match parse_digits(&chars, 0, i64::MAX as u64) {
            Some(n) => Some(n as i64),
            None => None,
        }
    }
}

/// Reads the time of the last indexed message from what the store holds.
pub fn read_last_sync_ts(stored: Option<&str>) -> (ts: i64)
    ensures
        ts == last_sync_ts_of(
            match stored {
                Some(s) => Some(s@),
                None => None,
            },
        ),
{
    match stored {
        Some(s) => match parse_i64(s) {
            Some(n) => n,
            None => 0,
        },
        None => 0,
    }
}

/// Writes a time as the store keeps it: in decimal.
pub fn write_last_sync_ts(ts: i64) -> (text: String)
    ensures
        text@ == signed_decimal(ts as int),
{
    let mut text = String::new();
    push_i64(&mut text, ts);
    text
}

/// A time that was written is read back as it was.
pub proof fn lemma_time_round_trip(ts: i64)
    ensures
        last_sync_ts_of(Some(signed_decimal(ts as int))) == ts,
{
    if ts < 0 {
        let m = (-(ts as int)) as nat;
        lemma_decimal_is_numeral(m);
        let s = signed_decimal(ts as int);
        assert(s.drop_first() =~= decimal(m));
        assert(s[0] == '-');
    } else {
        lemma_decimal_is_numeral(ts as nat);
        let s = decimal(ts as nat);
        assert(is_digit(s[0]));
    }
}

} // verus!
