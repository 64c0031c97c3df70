//! Index lifecycle decisions: the fixed field schema and the choice of
//! which setup steps to run.

use vstd::prelude::*;

use vstd::string::StringExecFns;

verus! {

/// The name of the index the tool works against.
pub const TWEETS_INDEX: &'static str = "tweets";

/// The fixed schema of the index: `user` an exact-match keyword field,
/// `date` a date field, `message` analyzed text.
pub fn mappings_body() -> (s: String)
    ensures
        s@
            == "{\"mappings\":{\"properties\":{\"user\":{\"type\":\"keyword\"},\"date\":{\"type\":\"date\"},\"message\":{\"type\":\"text\"}}}}"@,
{
    String::from_str(
        "{\"mappings\":{\"properties\":{\"user\":{\"type\":\"keyword\"},\"date\":{\"type\":\"date\"},\"message\":{\"type\":\"text\"}}}}",
    )
}

/// The decisions of index setup, from what the existence probe reported and
/// whether recreation was asked for: delete exactly when the index exists
/// and recreation was asked for (a destructive step), create exactly when
/// the index is absent or recreation was asked for.
pub fn plan_index_setup(exists: bool, absent: bool, recreate: bool) -> (r: (bool, bool))
    ensures
        r.0 == (exists && recreate),
        r.1 == (absent || recreate),
{
    (exists && recreate, absent || recreate)
}

} // verus!
