//! Single-document upsert support: the JSON document of a record, the
//! action line of a bulk operation, and the engine's reported outcome.

use vstd::prelude::*;

use crate::batch::lemma_comma_run;
use crate::batch::lemma_skip_ws_at_nonws;
use crate::batch::lemma_str_member_run;
use crate::batch::lemma_u64_member_run;
use crate::batch::spec_comma;
use crate::batch::spec_parse_tweet;
use crate::batch::spec_parse_tweet_doc;
use crate::batch::spec_str_member;
use crate::batch::spec_u64_member;
use crate::json_text::append_escaped;
use crate::json_text::esc;
use crate::json_text::is_plain;
use crate::json_text::lemma_digits_are_digits;
use crate::json_text::spec_digits;
use crate::json_text::spec_skip_ws;
use crate::json_text::str_eq;
use crate::json_text::u64_to_string;
use crate::tweet::Tweet;
use crate::tweet::TweetData;
use vstd::string::StrSliceExecFns;
use vstd::string::StringExecFns;

verus! {

/// What the engine reports of an upsert: the id was new (`Created`) or the
/// prior document with that id was replaced (`Updated`).
#[derive(Debug, Clone, Copy, PartialEq, Eq, Structural)]
pub enum IndexResult {
    Created,
    Updated,
}

impl IndexResult {
    /// The engine's word for the outcome.
    pub fn label(&self) -> (r: &'static str)
        ensures
            *self is Created ==> r@ == "created"@,
            *self is Updated ==> r@ == "updated"@,
    {
        match self {
            IndexResult::Created => "created",
            IndexResult::Updated => "updated",
        }
    }
}

/// The outcome named by the engine's `result` word, `None` for any other
/// word.
pub open spec fn spec_index_result(s: Seq<char>) -> Option<IndexResult> {
    if s == "created"@ {
        Some(IndexResult::Created)
    } else if s == "updated"@ {
        Some(IndexResult::Updated)
    } else {
        None
    }
}

/// Maps the engine's reported `result` word to the outcome it names.
pub fn index_result_from_str(s: &str) -> (r: Option<IndexResult>)
    ensures
        r == spec_index_result(s@),
{
    if str_eq(s, "created") {
        Some(IndexResult::Created)
    } else if str_eq(s, "updated") {
        Some(IndexResult::Updated)
    } else {
        None
    }
}

/// The JSON document of a record, as both the single upsert and the bulk
/// loader send it: the four fields in declaration order, text escaped.
pub open spec fn spec_tweet_json(t: TweetData) -> Seq<char> {
    "{\"id\":"@ + spec_digits(t.id as nat) + ",\"user\":\""@ + esc(t.user) + "\",\"date\":\""@
        + esc(t.date) + "\",\"message\":\""@ + esc(t.message) + "\"}"@
}

/// Prints the JSON document of a record.
pub fn tweet_json(t: &Tweet) -> (s: String)
    ensures
        s@ == spec_tweet_json(t@),
{
    let mut s = String::from_str("{\"id\":");
    let num = u64_to_string(t.id);
    s.append(num.as_str());
    s.append(",\"user\":\"");
    append_escaped(&mut s, t.user.0.as_str());
    s.append("\",\"date\":\"");
    append_escaped(&mut s, t.date.as_str());
    s.append("\",\"message\":\"");
    append_escaped(&mut s, t.message.0.as_str());
    s.append("\"}");
    proof {
        assert(s@ =~= spec_tweet_json(t@));
    }
    s
}

/// Round trip law: the JSON document printed for a record parses back to
/// exactly that record, so a document sent for an id carries precisely the
/// record's contents, and re-reading a stored document recovers the record.
#[verifier::rlimit(100)]
#[verifier::spinoff_prover]
pub proof fn lemma_tweet_doc_round_trip(t: TweetData)
    ensures
        spec_parse_tweet_doc(spec_tweet_json(t)) == Some(t),
{
    reveal_strlit("{\"id\":");
    reveal_strlit(",\"user\":\"");
    reveal_strlit("\",\"date\":\"");
    reveal_strlit("\",\"message\":\"");
    reveal_strlit("\"}");
    reveal_strlit("id");
    reveal_strlit("user");
    reveal_strlit("date");
    reveal_strlit("message");
    let l1 = "{\"id\":"@;
    let l2 = ",\"user\":\""@;
    let l3 = "\",\"date\":\""@;
    let l4 = "\",\"message\":\""@;
    let l5 = "\"}"@;
    let d = spec_digits(t.id as nat);
    let eu = esc(t.user);
    let ed = esc(t.date);
    let em = esc(t.message);
    let s = spec_tweet_json(t);
    lemma_digits_are_digits(t.id as nat);
    let dl = d.len() as int;
    let ul = eu.len() as int;
    let el = ed.len() as int;
    let ml = em.len() as int;
    assert(l1.len() == 6);
    assert(l2.len() == 9);
    assert(l3.len() == 10);
    assert(l4.len() == 13);
    assert(l5.len() == 2);
    assert(s.len() == 40 + dl + ul + el + ml);
    let r1 = s.subrange(0, 6);
    let rd = s.subrange(6, 6 + dl);
    let r2 = s.subrange(6 + dl, 15 + dl);
    let ru = s.subrange(15 + dl, 15 + dl + ul);
    let r3 = s.subrange(15 + dl + ul, 25 + dl + ul);
    let re = s.subrange(25 + dl + ul, 25 + dl + ul + el);
    let r4 = s.subrange(25 + dl + ul + el, 38 + dl + ul + el);
    let rm = s.subrange(38 + dl + ul + el, 38 + dl + ul + el + ml);
    let r5 = s.subrange(38 + dl + ul + el + ml, 40 + dl + ul + el + ml);
    assert(r1 =~= l1);
    assert(rd =~= d);
    assert(r2 =~= l2);
    assert(ru =~= eu);
    assert(r3 =~= l3);
    assert(re =~= ed);
    assert(r4 =~= l4);
    assert(rm =~= em);
    assert(r5 =~= l5);
    // the id member at position 1
    assert(s[1] == r1[1] && s[4] == r1[4] && s[5] == r1[5]);
    assert(s[1] == '"' && s[4] == '"' && s[5] == ':');
    assert forall|k: int| 0 <= k < 2 implies is_plain(#[trigger] "id"@[k]) by {
        if k == 0 {
            assert("id"@[0] == 'i');
        } else {
            assert("id"@[1] == 'd');
        }
    }
    assert forall|k: int| 0 <= k < 2 implies #[trigger] s[1 + 1 + k] == "id"@[k] by {
        assert(s[2 + k] == r1[2 + k]);
        if k == 0 {
            assert(r1[2] == 'i' && "id"@[0] == 'i');
        } else {
            assert(r1[3] == 'd' && "id"@[1] == 'd');
        }
    }
    assert forall|k: int| 0 <= k < d.len() implies #[trigger] s[1 + 3 + 2 + k] == spec_digits(
        t.id as nat,
    )[k] by {
        assert(s[6 + k] == rd[k]);
    }
    assert(s[6 + dl] == r2[0]);
    assert(s[6 + dl] == ',');
    assert(!crate::json_text::is_digit(s[1 + 3 + 2 + spec_digits(t.id as nat).len() as int]));
    lemma_u64_member_run(s, 1, "id"@, t.id);
    assert(spec_u64_member(s, 1, "id"@) == Some((t.id, 6 + dl)));
    lemma_comma_run(s, 6 + dl);
    // the user member at position 7 + dl
    assert(s[7 + dl] == r2[1] && s[12 + dl] == r2[6] && s[13 + dl] == r2[7] && s[14 + dl]
        == r2[8]);
    assert(s[7 + dl] == '"' && s[12 + dl] == '"' && s[13 + dl] == ':' && s[14 + dl] == '"');
    assert forall|k: int| 0 <= k < 4 implies is_plain(#[trigger] "user"@[k]) by {
        if k == 0 {
            assert("user"@[0] == 'u');
        } else if k == 1 {
            assert("user"@[1] == 's');
        } else if k == 2 {
            assert("user"@[2] == 'e');
        } else {
            assert("user"@[3] == 'r');
        }
    }
    assert forall|k: int| 0 <= k < 4 implies #[trigger] s[7 + dl + 1 + k] == "user"@[k] by {
        assert(s[8 + dl + k] == r2[2 + k]);
        if k == 0 {
            assert(r2[2] == 'u' && "user"@[0] == 'u');
        } else if k == 1 {
            assert(r2[3] == 's' && "user"@[1] == 's');
        } else if k == 2 {
            assert(r2[4] == 'e' && "user"@[2] == 'e');
        } else {
            assert(r2[5] == 'r' && "user"@[3] == 'r');
        }
    }
    assert forall|k: int| 0 <= k < esc(t.user).len() implies #[trigger] s[7 + dl + 4 + 4 + k]
        == esc(t.user)[k] by {
        assert(s[15 + dl + k] == ru[k]);
    }
    assert(s[15 + dl + ul] == r3[0]);
    assert(s[7 + dl + 4 + 4 + esc(t.user).len()] == '"');
    lemma_str_member_run(s, 7 + dl, "user"@, t.user);
    assert(spec_str_member(s, 7 + dl, "user"@) == Some((t.user, 16 + dl + ul)));
    assert(s[16 + dl + ul] == r3[1]);
    assert(s[16 + dl + ul] == ',');
    lemma_comma_run(s, 16 + dl + ul);
    // the date member at position 17 + dl + ul
    assert(s[17 + dl + ul] == r3[2] && s[22 + dl + ul] == r3[7] && s[23 + dl + ul] == r3[8] && s[24
        + dl + ul] == r3[9]);
    assert(s[17 + dl + ul] == '"' && s[22 + dl + ul] == '"' && s[23 + dl + ul] == ':' && s[24 + dl
        + ul] == '"');
    assert forall|k: int| 0 <= k < 4 implies is_plain(#[trigger] "date"@[k]) by {
        if k == 0 {
            assert("date"@[0] == 'd');
        } else if k == 1 {
            assert("date"@[1] == 'a');
        } else if k == 2 {
            assert("date"@[2] == 't');
        } else {
            assert("date"@[3] == 'e');
        }
    }
    assert forall|k: int| 0 <= k < 4 implies #[trigger] s[17 + dl + ul + 1 + k] == "date"@[k] by {
        assert(s[18 + dl + ul + k] == r3[3 + k]);
        if k == 0 {
            assert(r3[3] == 'd' && "date"@[0] == 'd');
        } else if k == 1 {
            assert(r3[4] == 'a' && "date"@[1] == 'a');
        } else if k == 2 {
            assert(r3[5] == 't' && "date"@[2] == 't');
        } else {
            assert(r3[6] == 'e' && "date"@[3] == 'e');
        }
    }
    assert forall|k: int| 0 <= k < esc(t.date).len() implies #[trigger] s[17 + dl + ul + 4 + 4 + k]
        == esc(t.date)[k] by {
        assert(s[25 + dl + ul + k] == re[k]);
    }
    assert(s[25 + dl + ul + el] == r4[0]);
    assert(s[17 + dl + ul + 4 + 4 + esc(t.date).len()] == '"');
    lemma_str_member_run(s, 17 + dl + ul, "date"@, t.date);
    assert(spec_str_member(s, 17 + dl + ul, "date"@) == Some((t.date, 26 + dl + ul + el)));
    assert(s[26 + dl + ul + el] == r4[1]);
    assert(s[26 + dl + ul + el] == ',');
    lemma_comma_run(s, 26 + dl + ul + el);
    // the message member at position 27 + dl + ul + el
    assert(s[27 + dl + ul + el] == r4[2] && s[35 + dl + ul + el] == r4[10] && s[36 + dl + ul + el]
        == r4[11] && s[37 + dl + ul + el] == r4[12]);
    assert(s[27 + dl + ul + el] == '"' && s[35 + dl + ul + el] == '"' && s[36 + dl + ul + el]
        == ':' && s[37 + dl + ul + el] == '"');
    assert forall|k: int| 0 <= k < 7 implies is_plain(#[trigger] "message"@[k]) by {
        if k == 0 {
            assert("message"@[0] == 'm');
        } else if k == 1 {
            assert("message"@[1] == 'e');
        } else if k == 2 {
            assert("message"@[2] == 's');
        } else if k == 3 {
            assert("message"@[3] == 's');
        } else if k == 4 {
            assert("message"@[4] == 'a');
        } else if k == 5 {
            assert("message"@[5] == 'g');
        } else {
            assert("message"@[6] == 'e');
        }
    }
    assert forall|k: int| 0 <= k < 7 implies #[trigger] s[27 + dl + ul + el + 1 + k]
        == "message"@[k] by {
        assert(s[28 + dl + ul + el + k] == r4[3 + k]);
        if k == 0 {
            assert(r4[3] == 'm' && "message"@[0] == 'm');
        } else if k == 1 {
            assert(r4[4] == 'e' && "message"@[1] == 'e');
        } else if k == 2 {
            assert(r4[5] == 's' && "message"@[2] == 's');
        } else if k == 3 {
            assert(r4[6] == 's' && "message"@[3] == 's');
        } else if k == 4 {
            assert(r4[7] == 'a' && "message"@[4] == 'a');
        } else if k == 5 {
            assert(r4[8] == 'g' && "message"@[5] == 'g');
        } else {
            assert(r4[9] == 'e' && "message"@[6] == 'e');
        }
    }
    assert forall|k: int| 0 <= k < esc(t.message).len() implies #[trigger] s[27 + dl + ul + el + 4
        + 7 + k] == esc(t.message)[k] by {
        assert(s[38 + dl + ul + el + k] == rm[k]);
    }
    assert(s[38 + dl + ul + el + ml] == r5[0]);
    assert(s[27 + dl + ul + el + 4 + 7 + esc(t.message).len()] == '"');
    lemma_str_member_run(s, 27 + dl + ul + el, "message"@, t.message);
    assert(spec_str_member(s, 27 + dl + ul + el, "message"@) == Some(
        (t.message, 39 + dl + ul + el + ml),
    ));
    // the closing brace and the end of the document
    assert(s[39 + dl + ul + el + ml] == r5[1]);
    assert(s[39 + dl + ul + el + ml] == '}');
    lemma_skip_ws_at_nonws(s, 39 + dl + ul + el + ml);
    assert(s[0] == r1[0]);
    assert(s[0] == '{');
    lemma_skip_ws_at_nonws(s, 0);
    assert(spec_parse_tweet(s, 0) == Some(
        (TweetData { id: t.id, user: t.user, date: t.date, message: t.message }, s.len() as int),
    ));
    assert(spec_skip_ws(s, s.len() as int) == s.len());
    assert(TweetData { id: t.id, user: t.user, date: t.date, message: t.message } == t);
}

/// The action line of one bulk operation: index-or-replace, keyed by the
/// record's id, so that loading the same record again replaces rather than
/// duplicates.
pub open spec fn spec_bulk_header(id: u64) -> Seq<char> {
    "{\"index\":{\"_id\":\""@ + spec_digits(id as nat) + "\"}}"@
}

/// Prints the action line of one bulk operation.
pub fn bulk_header(id: u64) -> (s: String)
    ensures
        s@ == spec_bulk_header(id),
{
    let mut s = String::from_str("{\"index\":{\"_id\":\"");
    let num = u64_to_string(id);
    s.append(num.as_str());
    s.append("\"}}");
    proof {
        assert(s@ =~= spec_bulk_header(id));
    }
    s
}

} // verus!
