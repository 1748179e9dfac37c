use crate::clock::Timestamp;
use crate::error::ArchiveError;
use crate::utils::{decoded_tweet, TweetDataView, TweetReferenceData};
use crate::wire::{ReferencedTweet, Tweet, TweetView};
use vstd::prelude::*;

verus! {

/// A post as the local store holds it.
#[derive(Debug, PartialEq, Eq)]
pub struct Model {
    pub id: i64,
    pub content: String,
    pub author_id: i64,
    pub conversation_id: i64,
    pub created_at: Timestamp,
}

impl Clone for Model {
    fn clone(&self) -> (copy: Self)
        ensures
            copy == *self,
    {
        Model {
            id: self.id,
            content: self.content.clone(),
            author_id: self.author_id,
            conversation_id: self.conversation_id,
            created_at: self.created_at,
        }
    }
}

/// The remote forms of edges, in their order.
pub open spec fn encoded_references(references: Seq<TweetReferenceData>) -> Seq<ReferencedTweet> {
    Seq::new(
        references.len(),
        |i: int|
            ReferencedTweet {
                kind: references[i].reference_type,
                id: references[i].reference_tweet_id as u64,
            },
    )
}

/// The remote form of a stored post with its edges: the creation time is
/// written in UTC, and every optional field that the store does not keep is
/// left out. A negative id of the post, its author, its conversation root
/// or the target of an edge is a data error.
pub open spec fn encoded_tweet(model: Model, references: Seq<TweetReferenceData>) -> Result<
    TweetView,
    ArchiveError,
> {
    if model.id < 0 || model.author_id < 0 || model.conversation_id < 0 || exists|i: int|
        0 <= i < references.len() && (#[trigger] references[i]).reference_tweet_id < 0 {
        Err(ArchiveError::DataError)
    } else {
        Ok(
            TweetView {
                id: model.id as u64,
                text: model.content,
                author_id: Some(model.author_id as u64),
                conversation_id: Some(model.conversation_id as u64),
                created_at: Some(Timestamp { seconds: model.created_at.seconds, offset: 0 }),
                referenced_tweets: Some(encoded_references(references)),
            },
        )
    }
}

/// The remote form of a post decodes to the post: a post whose creation
/// time is written in UTC, with edges that all leave from it, is what its
/// remote form decodes to.
pub proof fn lemma_tweet_round_trip(model: Model, references: Seq<TweetReferenceData>)
    requires
        encoded_tweet(model, references) is Ok,
        model.created_at.offset == 0,
        forall|i: int|
            0 <= i < references.len() ==> (#[trigger] references[i]).source_tweet_id == model.id,
    ensures
        decoded_tweet(encoded_tweet(model, references)->Ok_0) == Ok::<TweetDataView, ArchiveError>(
            TweetDataView { tweet: Some(model), references },
        ),
{
    let remote = encoded_tweet(model, references)->Ok_0;
    let list = encoded_references(references);
    assert forall|i: int| 0 <= i < list.len() implies (#[trigger] list[i]).id <= i64::MAX by {
        assert(references[i].reference_tweet_id >= 0);
    }
    let back = crate::utils::decoded_references(model.id, list)->Ok_0;
    assert(back =~= references) by {
        assert forall|i: int| 0 <= i < references.len() implies back[i] == references[i] by {
            assert(references[i].source_tweet_id == model.id);
            assert(references[i].reference_tweet_id >= 0);
        }
    }
}

impl Model {
    /// The remote form of this post with the given edges.
    pub fn to_tweet(&self, references: Vec<TweetReferenceData>) -> (tweet: Result<
        Tweet,
        ArchiveError,
    >)
        ensures
            match tweet {
                Ok(tweet) => encoded_tweet(*self, references@) == Ok::<TweetView, ArchiveError>(
                    tweet@,
                ),
                Err(error) => encoded_tweet(*self, references@) == Err::<TweetView, ArchiveError>(
                    error,
                ),
            },
    {
        if self.id < 0 || self.author_id < 0 || self.conversation_id < 0 {
            return Err(ArchiveError::DataError);
        }
        let mut list: Vec<ReferencedTweet> = Vec::new();
        let mut at: usize = 0;
        while at < references.len()
            invariant
                at <= references.len(),
                list@.len() == at,
                forall|j: int| 0 <= j < at ==> (#[trigger] references@[j]).reference_tweet_id >= 0,
                forall|j: int|
                    0 <= j < at ==> #[trigger] list@[j] == (ReferencedTweet {
                        kind: references@[j].reference_type,
                        id: references@[j].reference_tweet_id as u64,
                    }),
            decreases references.len() - at,
        {
            match references[at].to_referenced_tweet() {
                Ok(reference) => {
                    list.push(reference);
                },
                Err(error) => {
                    assert(references@[at as int].reference_tweet_id < 0);
                    return Err(error);
                },
            }
            at += 1;
        }
        assert(list@ =~= encoded_references(references@));
        Ok(
            Tweet {
                id: self.id as u64,
                text: self.content.clone(),
                author_id: Some(self.author_id as u64),
                conversation_id: Some(self.conversation_id as u64),
                created_at: Some(Timestamp { seconds: self.created_at.seconds, offset: 0 }),
                referenced_tweets: Some(list),
            },
        )
    }
}

} // verus!
