use elasticsearch_in_action::indexing::tweet_json;
use elasticsearch_in_action::query::count_value;
use elasticsearch_in_action::query::deserialize_hits;
use elasticsearch_in_action::query::match_all_body;
use elasticsearch_in_action::query::search_body;
use elasticsearch_in_action::tweet::Message;
use elasticsearch_in_action::tweet::Tweet;
use elasticsearch_in_action::tweet::User;

#[test]
fn match_all_body_is_exact() {
    assert_eq!(match_all_body(), "{\"query\":{\"match_all\":{}}}");
}

#[test]
fn search_body_is_exact() {
    assert_eq!(
        search_body("example"),
        "{\"query\":{\"match\":{\"message\":{\"query\":\"example\",\"operator\":\"or\"}}}}"
    );
}

#[test]
fn search_body_escapes_the_term() {
    assert_eq!(
        search_body("a\"b\\c"),
        "{\"query\":{\"match\":{\"message\":{\"query\":\"a\\\"b\\\\c\",\"operator\":\"or\"}}}}"
    );
}

#[test]
fn count_value_reads_the_reported_count() {
    assert_eq!(count_value(Some(42)), 42);
    assert_eq!(count_value(None), 0);
}

#[test]
fn deserialize_hits_returns_the_matching_record() {
    // an index holding exactly one record whose message contains "example":
    // the search returns that one record
    let t = Tweet {
        id: 11,
        user: User("Arnau".to_string()),
        date: "2019-03-31T08:16:22 -02:00".to_string(),
        message: Message("This is an example".to_string()),
    };
    let sources = vec![tweet_json(&t)];
    let hits = deserialize_hits(&sources);
    assert_eq!(hits.len(), 1);
    assert_eq!(hits[0].id, 11);
    assert_eq!(hits[0], t);
}

#[test]
fn deserialize_hits_drops_documents_that_do_not_parse() {
    let good1 = "{\"id\":1,\"user\":\"a\",\"date\":\"d\",\"message\":\"m one\"}".to_string();
    let bad = "{\"unexpected\":true}".to_string();
    let good2 = " { \"id\" : 2 , \"user\" : \"b\" , \"date\" : \"d\" , \"message\" : \"m two\" } "
        .to_string();
    let hits = deserialize_hits(&vec![good1, bad, good2]);
    assert_eq!(hits.len(), 2);
    assert_eq!(hits[0].id, 1);
    assert_eq!(hits[1].id, 2);
    assert_eq!(hits[1].user, User("b".to_string()));
}

#[test]
fn deserialize_hits_of_nothing_is_empty() {
    let hits = deserialize_hits(&Vec::new());
    assert_eq!(hits.len(), 0);
}
