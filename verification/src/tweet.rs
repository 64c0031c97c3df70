//! The record model: a tweet-like record with a caller-supplied stable id,
//! an exact-match user handle, an ISO-8601 date string and a free-text
//! message.

use vstd::prelude::*;

verus! {

/// An opaque user handle, stored in the index as an exact-match keyword
/// field.
#[derive(Debug)]
pub struct User(pub String);

/// Free message text, stored in the index as an analyzed text field.
#[derive(Debug)]
pub struct Message(pub String);

/// One record of the batch. `id` is the unique document key in the index:
/// re-indexing the same `id` replaces the prior document.
#[derive(Debug)]
pub struct Tweet {
    pub id: u64,
    pub user: User,
    pub date: String,
    pub message: Message,
}

/// The mathematical model of a `Tweet`: the id and the three field texts as
/// character sequences.
pub struct TweetData {
    pub id: u64,
    pub user: Seq<char>,
    pub date: Seq<char>,
    pub message: Seq<char>,
}

impl View for User {
    type V = Seq<char>;

    open spec fn view(&self) -> Seq<char> {
        self.0@
    }
}

impl View for Message {
    type V = Seq<char>;

    open spec fn view(&self) -> Seq<char> {
        self.0@
    }
}

impl View for Tweet {
    type V = TweetData;

    open spec fn view(&self) -> TweetData {
        TweetData { id: self.id, user: self.user@, date: self.date@, message: self.message@ }
    }
}

impl PartialEq for User {
    fn eq(&self, other: &User) -> (r: bool) {
        self.0 == other.0
    }
}

impl vstd::std_specs::cmp::PartialEqSpecImpl for User {
    open spec fn obeys_eq_spec() -> bool {
        true
    }

    open spec fn eq_spec(&self, other: &User) -> bool {
        self.0@ == other.0@
    }
}

impl PartialEq for Message {
    fn eq(&self, other: &Message) -> (r: bool) {
        self.0 == other.0
    }
}

impl vstd::std_specs::cmp::PartialEqSpecImpl for Message {
    open spec fn obeys_eq_spec() -> bool {
        true
    }

    open spec fn eq_spec(&self, other: &Message) -> bool {
        self.0@ == other.0@
    }
}

impl PartialEq for Tweet {
    fn eq(&self, other: &Tweet) -> (r: bool) {
        self.id == other.id && self.user == other.user && self.date == other.date
            && self.message == other.message
    }
}

impl vstd::std_specs::cmp::PartialEqSpecImpl for Tweet {
    open spec fn obeys_eq_spec() -> bool {
        true
    }

    open spec fn eq_spec(&self, other: &Tweet) -> bool {
        self.id == other.id && self.user@ == other.user@ && self.date@ == other.date@
            && self.message@ == other.message@
    }
}

} // verus!
