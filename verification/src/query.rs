//! The query layer's computable parts: the request bodies of the count-all
//! and full-text match queries, the reading of the reported count, and the
//! fail-soft parsing of search hits back into records.

use vstd::prelude::*;

use crate::batch::parse_tweet_doc;
use crate::batch::spec_parse_tweet_doc;
use crate::batch::tweets_view;
use crate::json_text::append_escaped;
use crate::json_text::esc;
use crate::tweet::Tweet;
use crate::tweet::TweetData;
use vstd::string::StrSliceExecFns;
use vstd::string::StringExecFns;

verus! {

/// The body of the count request: match every document.
pub fn match_all_body() -> (s: String)
    ensures
        s@ == "{\"query\":{\"match_all\":{}}}"@,
{
    String::from_str("{\"query\":{\"match_all\":{}}}")
}

/// The body of the full-text search: a match query on the message field,
/// with OR term matching (any query term may match).
pub open spec fn spec_search_body(term: Seq<char>) -> Seq<char> {
    "{\"query\":{\"match\":{\"message\":{\"query\":\""@ + esc(term)
        + "\",\"operator\":\"or\"}}}}"@
}

/// Prints the full-text search body for `term`.
pub fn search_body(term: &str) -> (s: String)
    ensures
        s@ == spec_search_body(term@),
{
    let mut s = String::from_str("{\"query\":{\"match\":{\"message\":{\"query\":\"");
    append_escaped(&mut s, term);
    s.append("\",\"operator\":\"or\"}}}}");
    proof {
        assert(s@ =~= spec_search_body(term@));
    }
    s
}

/// The count the engine reported, or zero where the response body carried
/// none.
pub fn count_value(c: Option<u64>) -> (r: u64)
    ensures
        r == (match c {
            Some(v) => v,
            None => 0u64,
        }),
{
    match c {
        Some(v) => v,
        None => 0,
    }
}

/// The views of a sequence of hit documents.
pub open spec fn views_of(ss: Seq<String>) -> Seq<Seq<char>> {
    ss.map_values(|s: String| s@)
}

/// The hit documents that parse as records, in hit order; a document that
/// does not parse is dropped, not reported.
pub open spec fn spec_hits(ss: Seq<Seq<char>>) -> Seq<TweetData>
    decreases ss.len(),
{
    if ss.len() == 0 {
        Seq::empty()
    } else {
        match spec_parse_tweet_doc(ss.last()) {
            Some(t) => spec_hits(ss.drop_last()).push(t),
            None => spec_hits(ss.drop_last()),
        }
    }
}

/// A search whose hits hold exactly one stored document, the document
/// printed for a record, yields exactly that one record.
pub proof fn lemma_hit_of_document(t: TweetData)
    ensures
        spec_hits(seq![crate::indexing::spec_tweet_json(t)]) == seq![t],
{
    crate::indexing::lemma_tweet_doc_round_trip(t);
    let ss = seq![crate::indexing::spec_tweet_json(t)];
    assert(ss.last() == crate::indexing::spec_tweet_json(t));
    assert(ss.drop_last() =~= Seq::<Seq<char>>::empty());
    assert(spec_hits(Seq::<Seq<char>>::empty()).push(t) =~= seq![t]);
}

/// Parses each hit's stored document back into a record, keeping exactly
/// those that parse, in hit order.
pub fn deserialize_hits(sources: &Vec<String>) -> (r: Vec<Tweet>)
    ensures
        tweets_view(r@) == spec_hits(views_of(sources@)),
{
    let mut r: Vec<Tweet> = Vec::new();
    let mut i: usize = 0;
    proof {
        assert(tweets_view(r@) =~= Seq::<TweetData>::empty());
        assert(views_of(sources@.subrange(0, 0)) =~= Seq::<Seq<char>>::empty());
    }
    while i < sources.len()
        invariant
            i <= sources@.len(),
            tweets_view(r@) == spec_hits(views_of(sources@.subrange(0, i as int))),
        decreases sources@.len() - i,
    {
        proof {
            assert(views_of(sources@.subrange(0, (i + 1) as int)).drop_last() =~= views_of(
                sources@.subrange(0, i as int),
            ));
            assert(views_of(sources@.subrange(0, (i + 1) as int)).last() == sources@[i as int]@);
        }
        let src: &String = &sources[i];
        match parse_tweet_doc(src.as_str()) {
            Some(t) => {
                proof {
                    assert(tweets_view(r@.push(t)) =~= tweets_view(r@).push(t@));
                }
                r.push(t);
            },
            None => {},
        }
        i = i + 1;
    }
    proof {
        assert(sources@.subrange(0, sources@.len() as int) =~= sources@);
    }
    r
}

} // verus!
