use elasticsearch_in_action::batch::read_tweets;
use elasticsearch_in_action::batch::BatchError;
use elasticsearch_in_action::tweet::Message;
use elasticsearch_in_action::tweet::Tweet;
use elasticsearch_in_action::tweet::User;

fn sample_batch(n: usize) -> String {
    let mut s = String::from("[");
    for i in 0..n {
        if i > 0 {
            s.push(',');
        }
        if i == 0 {
            s.push_str(
                "{\"id\":0,\"user\":\"Juanita\",\"date\":\"2019-03-31T08:16:22 -02:00\",\"message\":\"excepteur ea aute aute in sunt consequat amet duis non\"}",
            );
        } else {
            s.push_str(&format!(
                "{{\"id\":{},\"user\":\"user{}\",\"date\":\"2019-03-31T08:16:22 -02:00\",\"message\":\"message number {}\"}}",
                i, i, i
            ));
        }
    }
    s.push(']');
    s
}

#[test]
fn read_tweets_test() {
    let content = sample_batch(100);
    let tweets = read_tweets(&content).unwrap();
    assert_eq!(tweets.len(), 100);
    assert_eq!(
        tweets[0],
        Tweet {
            id: 0,
            user: User("Juanita".to_string()),
            date: "2019-03-31T08:16:22 -02:00".to_string(),
            message: Message(
                "excepteur ea aute aute in sunt consequat amet duis non".to_string()
            ),
        }
    );
}

#[test]
fn read_tweets_keeps_file_order() {
    let content = "[ {\"id\": 7, \"user\": \"a\", \"date\": \"d1\", \"message\": \"m1\"},\n  {\"id\": 3, \"user\": \"b\", \"date\": \"d2\", \"message\": \"m2\"},\n  {\"id\": 5, \"user\": \"c\", \"date\": \"d3\", \"message\": \"m3\"} ]";
    let tweets = read_tweets(content).unwrap();
    assert_eq!(tweets.len(), 3);
    let ids: Vec<u64> = tweets.iter().map(|t| t.id).collect();
    assert_eq!(ids, vec![7, 3, 5]);
    assert_eq!(tweets[1].user, User("b".to_string()));
    assert_eq!(tweets[2].message, Message("m3".to_string()));
}

#[test]
fn read_tweets_empty_array() {
    assert_eq!(read_tweets("[]").unwrap().len(), 0);
    assert_eq!(read_tweets("  [\n]\t").unwrap().len(), 0);
}

#[test]
fn read_tweets_unescapes_strings() {
    let content =
        "[{\"id\":1,\"user\":\"a\\\"b\",\"date\":\"d\",\"message\":\"line\\none\\ttab \\\\ \\/ end\"}]";
    let tweets = read_tweets(content).unwrap();
    assert_eq!(tweets[0].user, User("a\"b".to_string()));
    assert_eq!(tweets[0].message, Message("line\none\ttab \\ / end".to_string()));
}

#[test]
fn read_tweets_rejects_malformed() {
    // not an array
    assert_eq!(read_tweets("{}"), Err(BatchError::Malformed));
    // unterminated array
    assert_eq!(
        read_tweets("[{\"id\":1,\"user\":\"a\",\"date\":\"d\",\"message\":\"m\"}"),
        Err(BatchError::Malformed)
    );
    // trailing garbage after the array
    assert_eq!(
        read_tweets("[{\"id\":1,\"user\":\"a\",\"date\":\"d\",\"message\":\"m\"}] x"),
        Err(BatchError::Malformed)
    );
    // a field is missing
    assert_eq!(
        read_tweets("[{\"id\":1,\"user\":\"a\",\"message\":\"m\"}]"),
        Err(BatchError::Malformed)
    );
    // id is not a number
    assert_eq!(
        read_tweets("[{\"id\":\"1\",\"user\":\"a\",\"date\":\"d\",\"message\":\"m\"}]"),
        Err(BatchError::Malformed)
    );
    // empty input
    assert_eq!(read_tweets(""), Err(BatchError::Malformed));
}

#[test]
fn read_tweets_rejects_id_overflow() {
    // one more than u64::MAX
    let content = "[{\"id\":18446744073709551616,\"user\":\"a\",\"date\":\"d\",\"message\":\"m\"}]";
    assert_eq!(read_tweets(content), Err(BatchError::Malformed));
    // u64::MAX itself is fine
    let content =
        "[{\"id\":18446744073709551615,\"user\":\"a\",\"date\":\"d\",\"message\":\"m\"}]";
    assert_eq!(read_tweets(content).unwrap()[0].id, u64::MAX);
}
