use crate::clock::Timestamp;
use vstd::prelude::*;

verus! {

/// How one post refers to another.
#[derive(Clone, Copy, Debug, PartialEq, Eq, Structural)]
pub enum ReferencedTweetKind {
    Retweeted,
    Quoted,
    RepliedTo,
}

/// A reference as the remote source sends it.
#[derive(Clone, Copy, Debug, PartialEq, Eq, Structural)]
pub struct ReferencedTweet {
    pub kind: ReferencedTweetKind,
    pub id: u64,
}

/// A post as the remote source sends it. Every field but `id` and `text`
/// may be missing from a reply.
#[derive(Debug, PartialEq, Eq)]
pub struct Tweet {
    pub id: u64,
    pub text: String,
    pub author_id: Option<u64>,
    pub conversation_id: Option<u64>,
    pub created_at: Option<Timestamp>,
    pub referenced_tweets: Option<Vec<ReferencedTweet>>,
}

/// The mathematical value of a [`Tweet`].
pub struct TweetView {
    pub id: u64,
    pub text: String,
    pub author_id: Option<u64>,
    pub conversation_id: Option<u64>,
    pub created_at: Option<Timestamp>,
    pub referenced_tweets: Option<Seq<ReferencedTweet>>,
}

impl View for Tweet {
    type V = TweetView;

    open spec fn view(&self) -> TweetView {
        TweetView {
            id: self.id,
            text: self.text,
            author_id: self.author_id,
            conversation_id: self.conversation_id,
            created_at: self.created_at,
            referenced_tweets: match self.referenced_tweets {
                Some(list) => Some(list@),
                None => None,
            },
        }
    }
}

impl DeepView for Tweet {
    type V = TweetView;

    open spec fn deep_view(&self) -> TweetView {
        self@
    }
}

impl Clone for Tweet {
    fn clone(&self) -> (copy: Self)
        ensures
            copy@ == self@,
    {
        let referenced_tweets = match &self.referenced_tweets {
            Some(list) => Some(copy_references(list)),
            None => None,
        };
        Tweet {
            id: self.id,
            text: self.text.clone(),
            author_id: self.author_id,
            conversation_id: self.conversation_id,
            created_at: self.created_at,
            referenced_tweets,
        }
    }
}

/// A fresh vector with the same references in the same order.
pub fn copy_references(list: &Vec<ReferencedTweet>) -> (copy: Vec<ReferencedTweet>)
    ensures
        copy@ == list@,
{
    let mut copy: Vec<ReferencedTweet> = Vec::new();
    let mut i: usize = 0;
    while i < list.len()
        invariant
            i <= list.len(),
            copy@ == list@.take(i as int),
        decreases list.len() - i,
    {
        copy.push(list[i]);
        i += 1;
        assert(list@.take(i as int) == list@.take(i - 1).push(list@[i - 1]));
    }
    assert(list@.take(list.len() as int) == list@);
    copy
}

/// An author as the remote source sends it.
#[derive(Debug, PartialEq, Eq)]
pub struct User {
    pub id: u64,
    pub name: String,
    pub username: String,
    pub description: Option<String>,
}

impl Clone for User {
    fn clone(&self) -> (copy: Self)
        ensures
            copy == *self,
    {
        let description = match &self.description {
            Some(text) => Some(text.clone()),
            None => None,
        };
        User { id: self.id, name: self.name.clone(), username: self.username.clone(), description }
    }
}

} // verus!
