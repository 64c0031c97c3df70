//! The batch file grammar and its parser.
//!
//! A batch file is a JSON array of records, each an object with the fields
//! `id` (an unsigned 64-bit decimal), `user`, `date` and `message` (string
//! literals), in that order, with whitespace allowed between tokens. The
//! grammar is fixed by the `spec_parse_*` functions below; `read_tweets`
//! returns exactly what the grammar yields, record for record and in file
//! order, and an error on every other input.

use vstd::prelude::*;

use crate::json_text::esc;
use crate::json_text::is_digit;
use crate::json_text::is_plain;
use crate::json_text::is_ws;
use crate::json_text::lemma_digits_are_digits;
use crate::json_text::lemma_esc_plain;
use crate::json_text::lemma_parse_esc_run;
use crate::json_text::lemma_parse_string_bounds;
use crate::json_text::lemma_parse_u64_run;
use crate::json_text::spec_digits;
use crate::json_text::lemma_parse_u64_bounds;
use crate::json_text::lemma_skip_ws_bounds;
use crate::json_text::parse_string;
use crate::json_text::parse_u64;
use crate::json_text::skip_ws;
use crate::json_text::spec_parse_string;
use crate::json_text::spec_parse_u64;
use crate::json_text::spec_skip_ws;
use crate::json_text::str_eq;
use crate::tweet::Message;
use crate::tweet::Tweet;
use crate::tweet::TweetData;
use crate::tweet::User;

verus! {

/// The error of `read_tweets`: the input is not a well-formed batch.
#[derive(Debug, Clone, Copy, PartialEq, Eq, Structural)]
pub enum BatchError {
    Malformed,
}

/// A member key at `i`: whitespace, a string literal equal to `name`,
/// whitespace, a colon; yields the position after the colon.
pub open spec fn spec_key(s: Seq<char>, i: int, name: Seq<char>) -> Option<int> {
    let j = spec_skip_ws(s, i);
    match spec_parse_string(s, j) {
        Some((k, j2)) => if k == name {
            let j3 = spec_skip_ws(s, j2);
            if j3 < s.len() && s[j3] == ':' {
                Some(j3 + 1)
            } else {
                None
            }
        } else {
            None
        },
        None => None,
    }
}

/// A comma at `i` after optional whitespace; yields the position after it.
pub open spec fn spec_comma(s: Seq<char>, i: int) -> Option<int> {
    let j = spec_skip_ws(s, i);
    if j < s.len() && s[j] == ',' {
        Some(j + 1)
    } else {
        None
    }
}

/// A member `"name": <number>` at `i`.
pub open spec fn spec_u64_member(s: Seq<char>, i: int, name: Seq<char>) -> Option<(u64, int)> {
    match spec_key(s, i, name) {
        Some(j) => spec_parse_u64(s, spec_skip_ws(s, j)),
        None => None,
    }
}

/// A member `"name": "<text>"` at `i`.
pub open spec fn spec_str_member(s: Seq<char>, i: int, name: Seq<char>) -> Option<
    (Seq<char>, int),
> {
    match spec_key(s, i, name) {
        Some(j) => spec_parse_string(s, spec_skip_ws(s, j)),
        None => None,
    }
}

/// One record at `i`: `{ "id": ..., "user": ..., "date": ..., "message": ... }`.
pub open spec fn spec_parse_tweet(s: Seq<char>, i: int) -> Option<(TweetData, int)> {
    let j0 = spec_skip_ws(s, i);
    if j0 < s.len() && s[j0] == '{' {
        match spec_u64_member(s, j0 + 1, "id"@) {
            Some((id, a)) => match spec_comma(s, a) {
                Some(b) => match spec_str_member(s, b, "user"@) {
                    Some((user, c)) => match spec_comma(s, c) {
                        Some(d) => match spec_str_member(s, d, "date"@) {
                            Some((date, e)) => match spec_comma(s, e) {
                                Some(f) => match spec_str_member(s, f, "message"@) {
                                    Some((message, g)) => {
                                        let h = spec_skip_ws(s, g);
                                        if h < s.len() && s[h] == '}' {
                                            Some(
                                                (
                                                    TweetData { id, user, date, message },
                                                    h + 1,
                                                ),
                                            )
                                        } else {
                                            None
                                        }
                                    },
                                    None => None,
                                },
                                None => None,
                            },
                            None => None,
                        },
                        None => None,
                    },
                    None => None,
                },
                None => None,
            },
            None => None,
        }
    } else {
        None
    }
}

pub proof fn lemma_key_bounds(s: Seq<char>, i: int, name: Seq<char>)
    requires
        0 <= i <= s.len(),
        spec_key(s, i, name) is Some,
    ensures
        i < spec_key(s, i, name).unwrap() <= s.len(),
{
    lemma_skip_ws_bounds(s, i);
    let j = spec_skip_ws(s, i);
    lemma_parse_string_bounds(s, j);
    let j2 = spec_parse_string(s, j).unwrap().1;
    lemma_skip_ws_bounds(s, j2);
}

pub proof fn lemma_comma_bounds(s: Seq<char>, i: int)
    requires
        0 <= i <= s.len(),
        spec_comma(s, i) is Some,
    ensures
        i < spec_comma(s, i).unwrap() <= s.len(),
{
    lemma_skip_ws_bounds(s, i);
}

pub proof fn lemma_u64_member_bounds(s: Seq<char>, i: int, name: Seq<char>)
    requires
        0 <= i <= s.len(),
        spec_u64_member(s, i, name) is Some,
    ensures
        i < spec_u64_member(s, i, name).unwrap().1 <= s.len(),
{
    lemma_key_bounds(s, i, name);
    let j = spec_key(s, i, name).unwrap();
    lemma_skip_ws_bounds(s, j);
    lemma_parse_u64_bounds(s, spec_skip_ws(s, j));
}

pub proof fn lemma_str_member_bounds(s: Seq<char>, i: int, name: Seq<char>)
    requires
        0 <= i <= s.len(),
        spec_str_member(s, i, name) is Some,
    ensures
        i < spec_str_member(s, i, name).unwrap().1 <= s.len(),
{
    lemma_key_bounds(s, i, name);
    let j = spec_key(s, i, name).unwrap();
    lemma_skip_ws_bounds(s, j);
    lemma_parse_string_bounds(s, spec_skip_ws(s, j));
}

pub proof fn lemma_parse_tweet_bounds(s: Seq<char>, i: int)
    requires
        0 <= i <= s.len(),
        spec_parse_tweet(s, i) is Some,
    ensures
        i < spec_parse_tweet(s, i).unwrap().1 <= s.len(),
{
    lemma_skip_ws_bounds(s, i);
    let j0 = spec_skip_ws(s, i);
    lemma_u64_member_bounds(s, j0 + 1, "id"@);
    let a = spec_u64_member(s, j0 + 1, "id"@).unwrap().1;
    lemma_comma_bounds(s, a);
    let b = spec_comma(s, a).unwrap();
    lemma_str_member_bounds(s, b, "user"@);
    let c = spec_str_member(s, b, "user"@).unwrap().1;
    lemma_comma_bounds(s, c);
    let d = spec_comma(s, c).unwrap();
    lemma_str_member_bounds(s, d, "date"@);
    let e = spec_str_member(s, d, "date"@).unwrap().1;
    lemma_comma_bounds(s, e);
    let f = spec_comma(s, e).unwrap();
    lemma_str_member_bounds(s, f, "message"@);
    let g = spec_str_member(s, f, "message"@).unwrap().1;
    lemma_skip_ws_bounds(s, g);
}

pub proof fn lemma_skip_ws_at_nonws(s: Seq<char>, i: int)
    requires
        0 <= i < s.len(),
        !is_ws(s[i]),
    ensures
        spec_skip_ws(s, i) == i,
{
}

/// A member key laid out exactly as the document writer prints it: a quoted
/// plain name followed by a colon, with no whitespace.
pub proof fn lemma_key_run(s: Seq<char>, i: int, name: Seq<char>)
    requires
        0 <= i,
        i + name.len() + 3 <= s.len(),
        forall|k: int| 0 <= k < name.len() ==> is_plain(#[trigger] name[k]),
        s[i] == '"',
        forall|k: int| 0 <= k < name.len() ==> s[i + 1 + k] == name[k],
        s[i + 1 + name.len()] == '"',
        s[i + 2 + name.len()] == ':',
    ensures
        spec_key(s, i, name) == Some(i + name.len() + 3),
{
    lemma_skip_ws_at_nonws(s, i);
    lemma_esc_plain(name);
    assert forall|k: int| 0 <= k < esc(name).len() implies #[trigger] s[i + 1 + k] == esc(name)[k]
        by {
        assert(esc(name)[k] == name[k]);
    }
    lemma_parse_esc_run(s, i + 1, Seq::empty(), name);
    assert(Seq::<char>::empty() + name =~= name);
    let j2 = i + 1 + name.len() + 1;
    lemma_skip_ws_at_nonws(s, j2);
}

/// A `"name": <digits>` member laid out exactly as the document writer
/// prints it.
pub proof fn lemma_u64_member_run(s: Seq<char>, i: int, name: Seq<char>, m: u64)
    requires
        0 <= i,
        i + name.len() + 3 + spec_digits(m as nat).len() < s.len(),
        forall|k: int| 0 <= k < name.len() ==> is_plain(#[trigger] name[k]),
        s[i] == '"',
        forall|k: int| 0 <= k < name.len() ==> s[i + 1 + k] == name[k],
        s[i + 1 + name.len()] == '"',
        s[i + 2 + name.len()] == ':',
        forall|k: int| 0 <= k < spec_digits(m as nat).len() ==> s[i + 3 + name.len() + k]
            == spec_digits(m as nat)[k],
        !is_digit(s[i + 3 + name.len() + spec_digits(m as nat).len()]),
    ensures
        spec_u64_member(s, i, name) == Some(
            (m, i + name.len() + 3 + spec_digits(m as nat).len() as int),
        ),
{
    lemma_key_run(s, i, name);
    let j = i + name.len() + 3;
    let dl = spec_digits(m as nat).len() as int;
    lemma_digits_are_digits(m as nat);
    assert(s[j] == s[i + 3 + name.len() + 0]);
    assert(s[j] == spec_digits(m as nat)[0]);
    assert(!is_ws(s[j]));
    lemma_skip_ws_at_nonws(s, j);
    assert(s.subrange(j, j + dl) =~= spec_digits(m as nat)) by {
        assert forall|k: int| 0 <= k < dl implies s.subrange(j, j + dl)[k] == spec_digits(
            m as nat,
        )[k] by {
            assert(s.subrange(j, j + dl)[k] == s[i + 3 + name.len() + k]);
        }
    }
    lemma_parse_u64_run(s, j, m);
}

/// A `"name": "<text>"` member laid out exactly as the document writer
/// prints it.
pub proof fn lemma_str_member_run(s: Seq<char>, i: int, name: Seq<char>, v: Seq<char>)
    requires
        0 <= i,
        i + name.len() + 4 + esc(v).len() + 1 <= s.len(),
        forall|k: int| 0 <= k < name.len() ==> is_plain(#[trigger] name[k]),
        s[i] == '"',
        forall|k: int| 0 <= k < name.len() ==> s[i + 1 + k] == name[k],
        s[i + 1 + name.len()] == '"',
        s[i + 2 + name.len()] == ':',
        s[i + 3 + name.len()] == '"',
        forall|k: int| 0 <= k < esc(v).len() ==> s[i + 4 + name.len() + k] == esc(v)[k],
        s[i + 4 + name.len() + esc(v).len()] == '"',
    ensures
        spec_str_member(s, i, name) == Some((v, i + name.len() + esc(v).len() + 5)),
{
    lemma_key_run(s, i, name);
    let j = i + name.len() + 3;
    lemma_skip_ws_at_nonws(s, j);
    assert forall|k: int| 0 <= k < esc(v).len() implies #[trigger] s[j + 1 + k] == esc(v)[k] by {
        assert(s[i + 4 + name.len() + k] == esc(v)[k]);
    }
    assert(s[j + 1 + esc(v).len()] == '"');
    lemma_parse_esc_run(s, j + 1, Seq::empty(), v);
    assert(Seq::<char>::empty() + v =~= v);
}

/// A comma with nothing before it, as the writer prints one.
pub proof fn lemma_comma_run(s: Seq<char>, i: int)
    requires
        0 <= i < s.len(),
        s[i] == ',',
    ensures
        spec_comma(s, i) == Some(i + 1),
{
    lemma_skip_ws_at_nonws(s, i);
}

/// The records of the array body from `i` on, with `acc` the records read so
/// far: records separated by commas, closed by `]`; yields the records and
/// the position after the closing bracket.
pub open spec fn spec_batch_items(s: Seq<char>, i: int, acc: Seq<TweetData>) -> Option<
    (Seq<TweetData>, int),
>
    decreases s.len() - i when 0 <= i <= s.len() via spec_batch_items_dec
{
    match spec_parse_tweet(s, i) {
        Some((t, j)) => {
            let j2 = spec_skip_ws(s, j);
            if j2 < s.len() && s[j2] == ',' {
                spec_batch_items(s, j2 + 1, acc.push(t))
            } else if j2 < s.len() && s[j2] == ']' {
                Some((acc.push(t), j2 + 1))
            } else {
                None
            }
        },
        None => None,
    }
}

#[via_fn]
proof fn spec_batch_items_dec(s: Seq<char>, i: int, acc: Seq<TweetData>) {
    if spec_parse_tweet(s, i) is Some {
        lemma_parse_tweet_bounds(s, i);
        let j = spec_parse_tweet(s, i).unwrap().1;
        lemma_skip_ws_bounds(s, j);
    }
}

/// A whole batch: whitespace, `[`, records or nothing, `]`, whitespace, end
/// of input. `None` on every input the grammar does not accept.
pub open spec fn spec_parse_batch(s: Seq<char>) -> Option<Seq<TweetData>> {
    let i = spec_skip_ws(s, 0);
    if i < s.len() && s[i] == '[' {
        let j = spec_skip_ws(s, i + 1);
        if j < s.len() && s[j] == ']' {
            if spec_skip_ws(s, j + 1) == s.len() {
                Some(Seq::empty())
            } else {
                None
            }
        } else {
            match spec_batch_items(s, i + 1, Seq::empty()) {
                Some((ts, k)) => if spec_skip_ws(s, k) == s.len() {
                    Some(ts)
                } else {
                    None
                },
                None => None,
            }
        }
    } else {
        None
    }
}

/// The models of a sequence of records.
pub open spec fn tweets_view(ts: Seq<Tweet>) -> Seq<TweetData> {
    ts.map_values(|t: Tweet| t@)
}

/// Parses a member key equal to `name`.
fn parse_key(s: &str, n: usize, i: usize, name: &str) -> (r: Option<usize>)
    requires
        n == s@.len(),
        i <= n,
    ensures
        match r {
            Some(j) => spec_key(s@, i as int, name@) == Some(j as int) && i < j <= n,
            None => spec_key(s@, i as int, name@) is None,
        },
{
    let j = skip_ws(s, n, i);
    match parse_string(s, n, j) {
        Some((k, j2)) => {
            if str_eq(k.as_str(), name) {
                let j3 = skip_ws(s, n, j2);
                if j3 < n {
                    let c = s.get_char(j3);
                    if c == ':' {
                        Some(j3 + 1)
                    } else {
                        None
                    }
                } else {
                    None
                }
            } else {
                None
            }
        },
        None => None,
    }
}

/// Parses a comma after optional whitespace.
fn parse_comma(s: &str, n: usize, i: usize) -> (r: Option<usize>)
    requires
        n == s@.len(),
        i <= n,
    ensures
        match r {
            Some(j) => spec_comma(s@, i as int) == Some(j as int) && i < j <= n,
            None => spec_comma(s@, i as int) is None,
        },
{
    let j = skip_ws(s, n, i);
    if j < n {
        let c = s.get_char(j);
        if c == ',' {
            Some(j + 1)
        } else {
            None
        }
    } else {
        None
    }
}

/// Parses a `"name": <number>` member.
fn parse_u64_member(s: &str, n: usize, i: usize, name: &str) -> (r: Option<(u64, usize)>)
    requires
        n == s@.len(),
        i <= n,
    ensures
        match r {
            Some(v) => spec_u64_member(s@, i as int, name@) == Some((v.0, v.1 as int)) && i < v.1
                <= n,
            None => spec_u64_member(s@, i as int, name@) is None,
        },
{
    match parse_key(s, n, i, name) {
        Some(j) => {
            let j2 = skip_ws(s, n, j);
            parse_u64(s, n, j2)
        },
        None => None,
    }
}

/// Parses a `"name": "<text>"` member.
fn parse_str_member(s: &str, n: usize, i: usize, name: &str) -> (r: Option<(String, usize)>)
    requires
        n == s@.len(),
        i <= n,
    ensures
        match r {
            Some(v) => spec_str_member(s@, i as int, name@) == Some((v.0@, v.1 as int)) && i < v.1
                <= n,
            None => spec_str_member(s@, i as int, name@) is None,
        },
{
    match parse_key(s, n, i, name) {
        Some(j) => {
            let j2 = skip_ws(s, n, j);
            parse_string(s, n, j2)
        },
        None => None,
    }
}

/// Parses one record at `i`.
pub fn parse_tweet(s: &str, n: usize, i: usize) -> (r: Option<(Tweet, usize)>)
    requires
        n == s@.len(),
        i <= n,
    ensures
        match r {
            Some(v) => spec_parse_tweet(s@, i as int) == Some((v.0@, v.1 as int)) && i < v.1 <= n,
            None => spec_parse_tweet(s@, i as int) is None,
        },
{
    let j0 = skip_ws(s, n, i);
    if j0 >= n {
        return None;
    }
    let c0 = s.get_char(j0);
    if c0 != '{' {
        return None;
    }
    match parse_u64_member(s, n, j0 + 1, "id") {
        Some((id, a)) => match parse_comma(s, n, a) {
            Some(b) => match parse_str_member(s, n, b, "user") {
                Some((user, c)) => match parse_comma(s, n, c) {
                    Some(d) => match parse_str_member(s, n, d, "date") {
                        Some((date, e)) => match parse_comma(s, n, e) {
                            Some(f) => match parse_str_member(s, n, f, "message") {
                                Some((message, g)) => {
                                    let h = skip_ws(s, n, g);
                                    if h < n {
                                        let ch = s.get_char(h);
                                        if ch == '}' {
                                            let t = Tweet {
                                                id,
                                                user: User(user),
                                                date,
                                                message: Message(message),
                                            };
                                            Some((t, h + 1))
                                        } else {
                                            None
                                        }
                                    } else {
                                        None
                                    }
                                },
                                None => None,
                            },
                            None => None,
                        },
                        None => None,
                    },
                    None => None,
                },
                None => None,
            },
            None => None,
        },
        None => None,
    }
}

/// A single record document: one record and nothing else but whitespace.
pub open spec fn spec_parse_tweet_doc(s: Seq<char>) -> Option<TweetData> {
    match spec_parse_tweet(s, 0) {
        Some((t, j)) => if spec_skip_ws(s, j) == s.len() {
            Some(t)
        } else {
            None
        },
        None => None,
    }
}

/// Parses a whole document holding one record.
pub fn parse_tweet_doc(s: &str) -> (r: Option<Tweet>)
    ensures
        match r {
            Some(t) => spec_parse_tweet_doc(s@) == Some(t@),
            None => spec_parse_tweet_doc(s@) is None,
        },
{
    let n: usize = s.unicode_len();
    match parse_tweet(s, n, 0) {
        Some((t, j)) => {
            let k = skip_ws(s, n, j);
            if k == n {
                Some(t)
            } else {
                None
            }
        },
        None => None,
    }
}

/// Reads a whole batch: the records of `content`, in file order, or an error
/// if `content` is not a well-formed batch.
pub fn read_tweets(content: &str) -> (r: Result<Vec<Tweet>, BatchError>)
    ensures
        match r {
            Ok(ts) => spec_parse_batch(content@) == Some(tweets_view(ts@)),
            Err(_) => spec_parse_batch(content@) is None,
        },
{
    let n: usize = content.unicode_len();
    let i = skip_ws(content, n, 0);
    if i >= n {
        return Err(BatchError::Malformed);
    }
    let c = content.get_char(i);
    if c != '[' {
        return Err(BatchError::Malformed);
    }
    let j = skip_ws(content, n, i + 1);
    if j < n {
        let cj = content.get_char(j);
        if cj == ']' {
            let k = skip_ws(content, n, j + 1);
            if k == n {
                let out: Vec<Tweet> = Vec::new();
                proof {
                    assert(tweets_view(out@) =~= Seq::<TweetData>::empty());
                }
                return Ok(out);
            } else {
                return Err(BatchError::Malformed);
            }
        }
    }
    let mut out: Vec<Tweet> = Vec::new();
    let mut cur: usize = i + 1;
    proof {
        assert(tweets_view(out@) =~= Seq::<TweetData>::empty());
    }
    loop
        invariant
            n == content@.len(),
            cur <= n,
            0 <= i < n,
            content@[i as int] == '[',
            i == spec_skip_ws(content@, 0),
            !(spec_skip_ws(content@, (i + 1) as int) < n && content@[spec_skip_ws(
                content@,
                (i + 1) as int,
            )] == ']'),
            spec_batch_items(content@, (i + 1) as int, Seq::empty()) == spec_batch_items(
                content@,
                cur as int,
                tweets_view(out@),
            ),
        decreases n - cur,
    {
        match parse_tweet(content, n, cur) {
            Some((t, j1)) => {
                let j2 = skip_ws(content, n, j1);
                proof {
                    assert(tweets_view(out@.push(t)) =~= tweets_view(out@).push(t@));
                }
                out.push(t);
                if j2 < n {
                    let cj = content.get_char(j2);
                    if cj == ',' {
                        cur = j2 + 1;
                    } else if cj == ']' {
                        let k = skip_ws(content, n, j2 + 1);
                        if k == n {
                            return Ok(out);
                        } else {
                            return Err(BatchError::Malformed);
                        }
                    } else {
                        return Err(BatchError::Malformed);
                    }
                } else {
                    return Err(BatchError::Malformed);
                }
            },
            None => {
                return Err(BatchError::Malformed);
            },
        }
    }
}

} // verus!
