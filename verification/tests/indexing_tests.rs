use elasticsearch_in_action::batch::parse_tweet_doc;
use elasticsearch_in_action::indexing::bulk_header;
use elasticsearch_in_action::indexing::index_result_from_str;
use elasticsearch_in_action::indexing::tweet_json;
use elasticsearch_in_action::indexing::IndexResult;
use elasticsearch_in_action::json_text::u64_to_string;
use elasticsearch_in_action::setup::mappings_body;
use elasticsearch_in_action::setup::plan_index_setup;
use elasticsearch_in_action::setup::TWEETS_INDEX;
use elasticsearch_in_action::tweet::Message;
use elasticsearch_in_action::tweet::Tweet;
use elasticsearch_in_action::tweet::User;

#[test]
fn index_result_words() {
    // a new id is reported as created, a replaced one as updated
    assert_eq!(index_result_from_str("created"), Some(IndexResult::Created));
    assert_eq!(index_result_from_str("updated"), Some(IndexResult::Updated));
    assert_eq!(index_result_from_str("noop"), None);
    assert_eq!(index_result_from_str(""), None);
    assert_eq!(IndexResult::Created.label(), "created");
    assert_eq!(IndexResult::Updated.label(), "updated");
}

#[test]
fn tweet_json_is_exact() {
    let t = Tweet {
        id: 1,
        user: User("Arnau".to_string()),
        date: "2019-03-31T08:16:22 -02:00".to_string(),
        message: Message("This is an example".to_string()),
    };
    assert_eq!(
        tweet_json(&t),
        "{\"id\":1,\"user\":\"Arnau\",\"date\":\"2019-03-31T08:16:22 -02:00\",\"message\":\"This is an example\"}"
    );
}

#[test]
fn tweet_json_escapes_text_fields() {
    let t = Tweet {
        id: 2,
        user: User("a\"b".to_string()),
        date: "d".to_string(),
        message: Message("tab\there \\ \"quoted\"\n".to_string()),
    };
    assert_eq!(
        tweet_json(&t),
        "{\"id\":2,\"user\":\"a\\\"b\",\"date\":\"d\",\"message\":\"tab\\there \\\\ \\\"quoted\\\"\\n\"}"
    );
}

#[test]
fn document_round_trip() {
    // a document written for a record parses back to that record, so
    // re-indexing it replaces the same id with the same contents
    let t = Tweet {
        id: u64::MAX,
        user: User("Juanita \\ \"q\"".to_string()),
        date: "2019-03-31T08:16:22 -02:00".to_string(),
        message: Message("line\none\ttab".to_string()),
    };
    let doc = tweet_json(&t);
    assert_eq!(parse_tweet_doc(&doc), Some(t));
}

#[test]
fn bulk_header_carries_the_id() {
    assert_eq!(bulk_header(0), "{\"index\":{\"_id\":\"0\"}}");
    assert_eq!(bulk_header(123456789), "{\"index\":{\"_id\":\"123456789\"}}");
}

#[test]
fn u64_to_string_prints_decimal() {
    assert_eq!(u64_to_string(0), "0");
    assert_eq!(u64_to_string(7), "7");
    assert_eq!(u64_to_string(1234567890123456789), "1234567890123456789");
    assert_eq!(u64_to_string(u64::MAX), "18446744073709551615");
}

#[test]
fn mappings_body_is_the_fixed_schema() {
    assert_eq!(
        mappings_body(),
        "{\"mappings\":{\"properties\":{\"user\":{\"type\":\"keyword\"},\"date\":{\"type\":\"date\"},\"message\":{\"type\":\"text\"}}}}"
    );
    assert_eq!(TWEETS_INDEX, "tweets");
}

#[test]
fn index_setup_decisions() {
    // (exists, absent, recreate) -> (delete, create)
    assert_eq!(plan_index_setup(true, false, true), (true, true));
    assert_eq!(plan_index_setup(true, false, false), (false, false));
    assert_eq!(plan_index_setup(false, true, false), (false, true));
    assert_eq!(plan_index_setup(false, true, true), (false, true));
}
