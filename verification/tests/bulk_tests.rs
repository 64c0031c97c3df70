use elasticsearch_in_action::bulk::bulk_chunk_ops;
use elasticsearch_in_action::bulk::chunk_bounds;
use elasticsearch_in_action::bulk::count_failures;
use elasticsearch_in_action::bulk::CHUNK_SIZE;
use elasticsearch_in_action::tweet::Message;
use elasticsearch_in_action::tweet::Tweet;
use elasticsearch_in_action::tweet::User;

fn make_tweets(n: usize) -> Vec<Tweet> {
    let mut v = Vec::new();
    for i in 0..n {
        v.push(Tweet {
            id: i as u64,
            user: User(format!("user{}", i)),
            date: "2019-03-31T08:16:22 -02:00".to_string(),
            message: Message(format!("message {}", i)),
        });
    }
    v
}

#[test]
fn chunking_of_2500_gives_three_requests() {
    // 2500 records: exactly 3 bulk requests, of 1000, 1000 and 500 records.
    let bounds = chunk_bounds(2500);
    assert_eq!(bounds, vec![(0, 1000), (1000, 2000), (2000, 2500)]);
    let sizes: Vec<usize> = bounds.iter().map(|(s, e)| e - s).collect();
    assert_eq!(sizes, vec![1000, 1000, 500]);
    // the plan covers every record exactly once, so with zero reported
    // errors the loaded count is the batch length
    let total: usize = sizes.iter().sum();
    assert_eq!(total, 2500);
}

#[test]
fn chunking_edges() {
    assert_eq!(chunk_bounds(0), Vec::<(usize, usize)>::new());
    assert_eq!(chunk_bounds(1), vec![(0, 1)]);
    assert_eq!(chunk_bounds(CHUNK_SIZE), vec![(0, CHUNK_SIZE)]);
    assert_eq!(chunk_bounds(CHUNK_SIZE + 1), vec![(0, CHUNK_SIZE), (CHUNK_SIZE, CHUNK_SIZE + 1)]);
}

#[test]
fn bulk_ops_are_action_then_document() {
    let tweets = make_tweets(2);
    let ops = bulk_chunk_ops(&tweets, 0, 2);
    assert_eq!(ops.len(), 4);
    assert_eq!(ops[0], "{\"index\":{\"_id\":\"0\"}}");
    assert_eq!(
        ops[1],
        "{\"id\":0,\"user\":\"user0\",\"date\":\"2019-03-31T08:16:22 -02:00\",\"message\":\"message 0\"}"
    );
    assert_eq!(ops[2], "{\"index\":{\"_id\":\"1\"}}");
    assert_eq!(
        ops[3],
        "{\"id\":1,\"user\":\"user1\",\"date\":\"2019-03-31T08:16:22 -02:00\",\"message\":\"message 1\"}"
    );
}

#[test]
fn bulk_ops_of_equal_batches_are_equal() {
    // loading the same batch again issues the same operations, keyed by the
    // same ids: the engine replaces rather than duplicates
    let a = make_tweets(5);
    let b = make_tweets(5);
    assert_eq!(bulk_chunk_ops(&a, 0, 5), bulk_chunk_ops(&b, 0, 5));
}

#[test]
fn bulk_ops_respect_chunk_window() {
    let tweets = make_tweets(7);
    let ops = bulk_chunk_ops(&tweets, 2, 5);
    assert_eq!(ops.len(), 6);
    assert_eq!(ops[0], "{\"index\":{\"_id\":\"2\"}}");
    assert_eq!(ops[4], "{\"index\":{\"_id\":\"4\"}}");
}

#[test]
fn count_failures_counts_set_flags() {
    assert_eq!(count_failures(&vec![]), 0);
    assert_eq!(count_failures(&vec![false, false]), 0);
    assert_eq!(count_failures(&vec![true, false, true, true]), 3);
}
