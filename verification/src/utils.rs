//! The values that the archive hands around, and the conversions between the
//! remote source's objects and the local records.

use crate::clock::Timestamp;
use crate::entities::tweets;
use crate::entities::user;
use crate::error::ArchiveError;
use crate::wire::{ReferencedTweet, ReferencedTweetKind, Tweet, TweetView, User};
use vstd::prelude::*;

verus! {

/// A non-negative `i64` as a `u64`; a negative one is a data error.
pub fn i64_to_u64(i: i64) -> (converted: Result<u64, ArchiveError>)
    ensures
        i >= 0 ==> converted == Ok::<u64, ArchiveError>(i as u64),
        i < 0 ==> converted == Err::<u64, ArchiveError>(ArchiveError::DataError),
{
    if i >= 0 {
        Ok(i as u64)
    } else {
        Err(ArchiveError::DataError)
    }
}

/// A `u64` that fits as an `i64`; a larger one is a data error.
pub fn u64_to_i64(u: u64) -> (converted: Result<i64, ArchiveError>)
    ensures
        u <= i64::MAX ==> converted == Ok::<i64, ArchiveError>(u as i64),
        u > i64::MAX ==> converted == Err::<i64, ArchiveError>(ArchiveError::DataError),
{
    if u <= 0x7fff_ffff_ffff_ffff {
        Ok(u as i64)
    } else {
        Err(ArchiveError::DataError)
    }
}

/// The creation time of a remote post; a post without one is a data error.
pub fn convert_date_to_chrono(date: Option<Timestamp>) -> (converted: Result<
    Timestamp,
    ArchiveError,
>)
    ensures
        converted == match date {
            Some(stamp) => Ok::<Timestamp, ArchiveError>(stamp),
            None => Err::<Timestamp, ArchiveError>(ArchiveError::DataError),
        },
{
    match date {
        Some(stamp) => Ok(stamp),
        None => Err(ArchiveError::DataError),
    }
}

/// A directed edge from one post to another.
#[derive(Copy, Debug, PartialEq, Eq, Structural)]
pub struct TweetReferenceData {
    pub reference_type: ReferencedTweetKind,
    pub source_tweet_id: i64,
    pub reference_tweet_id: i64,
}

impl Clone for TweetReferenceData {
    fn clone(&self) -> (copy: Self)
        ensures
            copy == *self,
    {
        TweetReferenceData {
            reference_type: self.reference_type,
            source_tweet_id: self.source_tweet_id,
            reference_tweet_id: self.reference_tweet_id,
        }
    }
}

/// The name under which a kind of reference is stored.
pub open spec fn kind_text(kind: ReferencedTweetKind) -> Seq<char> {
    match kind {
        ReferencedTweetKind::RepliedTo => "replied_to"@,
        ReferencedTweetKind::Retweeted => "retweeted"@,
        ReferencedTweetKind::Quoted => "quoted"@,
    }
}

/// The kind of reference that a stored name stands for.
pub open spec fn kind_of_text(text: Seq<char>) -> Option<ReferencedTweetKind> {
    if text == "replied_to"@ {
        Some(ReferencedTweetKind::RepliedTo)
    } else if text == "retweeted"@ {
        Some(ReferencedTweetKind::Retweeted)
    } else if text == "quoted"@ {
        Some(ReferencedTweetKind::Quoted)
    } else {
        None
    }
}

/// Reading back the name of a kind gives that kind.
pub proof fn lemma_kind_text_round_trip(kind: ReferencedTweetKind)
    ensures
        kind_of_text(kind_text(kind)) == Some(kind),
{
    reveal_strlit("replied_to");
    reveal_strlit("retweeted");
    reveal_strlit("quoted");
    assert("replied_to"@.len() == 10);
    assert("retweeted"@.len() == 9);
    assert("quoted"@.len() == 6);
}

impl TweetReferenceData {
    /// The name under which the kind of this edge is stored.
    pub fn type_to_string(&self) -> (text: String)
        ensures
            text@ == kind_text(self.reference_type),
    {
        match self.reference_type {
            ReferencedTweetKind::RepliedTo => String::from_str("replied_to"),
            ReferencedTweetKind::Retweeted => String::from_str("retweeted"),
            ReferencedTweetKind::Quoted => String::from_str("quoted"),
        }
    }

    /// The kind of reference that a stored name stands for.
    pub fn kind_from_string(input: &str) -> (kind: Option<ReferencedTweetKind>)
        ensures
            kind == kind_of_text(input@),
    {
        let text = input.to_owned();
        if text == String::from_str("replied_to") {
            Some(ReferencedTweetKind::RepliedTo)
        } else if text == String::from_str("retweeted") {
            Some(ReferencedTweetKind::Retweeted)
        } else if text == String::from_str("quoted") {
            Some(ReferencedTweetKind::Quoted)
        } else {
            None
        }
    }

    /// The edge from post `id` that a remote reference describes. A target id
    /// beyond `i64::MAX` is a data error.
    pub fn from_referenced_tweet(id: i64, referenced_tweet: &ReferencedTweet) -> (edge: Result<
        Self,
        ArchiveError,
    >)
        ensures
            edge == edge_of(id, *referenced_tweet),
    {
        match u64_to_i64(referenced_tweet.id) {
            Ok(target) => Ok(
                TweetReferenceData {
                    reference_type: referenced_tweet.kind,
                    source_tweet_id: id,
                    reference_tweet_id: target,
                },
            ),
            Err(error) => Err(error),
        }
    }

    /// The remote form of the edge. A negative target id is a data error.
    pub fn to_referenced_tweet(&self) -> (reference: Result<ReferencedTweet, ArchiveError>)
        ensures
            self.reference_tweet_id >= 0 ==> reference == Ok::<ReferencedTweet, ArchiveError>(
                ReferencedTweet {
                    kind: self.reference_type,
                    id: self.reference_tweet_id as u64,
                },
            ),
            self.reference_tweet_id < 0 ==> reference == Err::<ReferencedTweet, ArchiveError>(
                ArchiveError::DataError,
            ),
    {
        match i64_to_u64(self.reference_tweet_id) {
            Ok(id) => Ok(ReferencedTweet { kind: self.reference_type, id }),
            Err(error) => Err(error),
        }
    }
}

/// The edge that [`TweetReferenceData::from_referenced_tweet`] makes.
pub open spec fn edge_of(source: i64, reference: ReferencedTweet) -> Result<
    TweetReferenceData,
    ArchiveError,
> {
    if reference.id <= i64::MAX {
        Ok(
            TweetReferenceData {
                reference_type: reference.kind,
                source_tweet_id: source,
                reference_tweet_id: reference.id as i64,
            },
        )
    } else {
        Err(ArchiveError::DataError)
    }
}

/// The post that the first `replied_to` edge of `references` points to.
pub open spec fn reply_target(references: Seq<TweetReferenceData>) -> Option<i64>
    decreases references.len(),
{
    if references.len() == 0 {
        None
    } else if references[0].reference_type == ReferencedTweetKind::RepliedTo {
        Some(references[0].reference_tweet_id)
    } else {
        reply_target(references.drop_first())
    }
}

/// A post together with its outgoing references, or the absence of a post.
#[derive(Debug, PartialEq, Eq)]
pub struct TweetData {
    pub tweet: Option<tweets::Model>,
    pub references: Vec<TweetReferenceData>,
}

/// The mathematical value of a [`TweetData`].
pub struct TweetDataView {
    pub tweet: Option<tweets::Model>,
    pub references: Seq<TweetReferenceData>,
}

impl View for TweetData {
    type V = TweetDataView;

    open spec fn view(&self) -> TweetDataView {
        TweetDataView { tweet: self.tweet, references: self.references@ }
    }
}

impl DeepView for TweetData {
    type V = TweetDataView;

    open spec fn deep_view(&self) -> TweetDataView {
        self@
    }
}

/// A fresh vector with the same edges in the same order.
pub fn copy_edges(list: &Vec<TweetReferenceData>) -> (copy: Vec<TweetReferenceData>)
    ensures
        copy@ == list@,
{
    let mut copy: Vec<TweetReferenceData> = Vec::new();
    let mut i: usize = 0;
    while i < list.len()
        invariant
            i <= list.len(),
            copy@ == list@.take(i as int),
        decreases list.len() - i,
    {
        copy.push(list[i]);
        i += 1;
        assert(list@.take(i as int) == list@.take(i - 1).push(list@[i - 1]));
    }
    assert(list@.take(list.len() as int) == list@);
    copy
}

impl Clone for TweetData {
    fn clone(&self) -> (copy: Self)
        ensures
            copy@ == self@,
    {
        let tweet = match &self.tweet {
            Some(model) => Some(model.clone()),
            None => None,
        };
        TweetData { tweet, references: copy_edges(&self.references) }
    }
}

/// The edges that a remote post's references decode to, in their order; a
/// data error if any target id is beyond `i64::MAX`.
pub open spec fn decoded_references(source: i64, list: Seq<ReferencedTweet>) -> Result<
    Seq<TweetReferenceData>,
    ArchiveError,
> {
    if forall|i: int| 0 <= i < list.len() ==> (#[trigger] list[i]).id <= i64::MAX {
        Ok(
            Seq::new(
                list.len(),
                |i: int|
                    TweetReferenceData {
                        reference_type: list[i].kind,
                        source_tweet_id: source,
                        reference_tweet_id: list[i].id as i64,
                    },
            ),
        )
    } else {
        Err(ArchiveError::DataError)
    }
}

/// The local form of a remote post: its record and its edges. A post whose
/// id, author, conversation root or any reference target is beyond
/// `i64::MAX`, or whose author, conversation root or creation time is
/// missing, is a data error. A post without a reference list has no edges.
pub open spec fn decoded_tweet(tweet: TweetView) -> Result<TweetDataView, ArchiveError> {
    if tweet.id > i64::MAX || tweet.author_id is None || tweet.author_id->0 > i64::MAX
        || tweet.conversation_id is None || tweet.conversation_id->0 > i64::MAX
        || tweet.created_at is None {
        Err(ArchiveError::DataError)
    } else {
        let list = match tweet.referenced_tweets {
            Some(list) => list,
            None => Seq::empty(),
        };
        match decoded_references(tweet.id as i64, list) {
            Ok(references) => Ok(
                TweetDataView {
                    tweet: Some(
                        tweets::Model {
                            id: tweet.id as i64,
                            content: tweet.text,
                            author_id: tweet.author_id->0 as i64,
                            conversation_id: tweet.conversation_id->0 as i64,
                            created_at: tweet.created_at->0,
                        },
                    ),
                    references,
                },
            ),
            Err(error) => Err(error),
        }
    }
}

/// What [`TweetData::from_api_tweet`] returns: nothing decodes to the absent
/// post.
pub open spec fn decoded_reply(tweet: Option<TweetView>) -> Result<TweetDataView, ArchiveError> {
    match tweet {
        Some(tweet) => decoded_tweet(tweet),
        None => Ok(TweetDataView { tweet: None, references: Seq::empty() }),
    }
}

/// The views of a result of [`TweetData`].
pub open spec fn tweet_result_view(result: Result<TweetData, ArchiveError>) -> Result<
    TweetDataView,
    ArchiveError,
> {
    match result {
        Ok(data) => Ok(data@),
        Err(error) => Err(error),
    }
}

/// Decodes the references of the remote post `source`.
fn decode_references(source: i64, list: &Vec<ReferencedTweet>) -> (edges: Result<
    Vec<TweetReferenceData>,
    ArchiveError,
>)
    ensures
        match edges {
            Ok(edges) => decoded_references(source, list@) == Ok::<
                Seq<TweetReferenceData>,
                ArchiveError,
            >(edges@),
            Err(error) => decoded_references(source, list@) == Err::<
                Seq<TweetReferenceData>,
                ArchiveError,
            >(error),
        },
{
    let mut edges: Vec<TweetReferenceData> = Vec::new();
    let mut i: usize = 0;
    while i < list.len()
        invariant
            i <= list.len(),
            edges@.len() == i,
            forall|j: int| 0 <= j < i ==> (#[trigger] list@[j]).id <= i64::MAX,
            forall|j: int|
                0 <= j < i ==> #[trigger] edges@[j] == (TweetReferenceData {
                    reference_type: list@[j].kind,
                    source_tweet_id: source,
                    reference_tweet_id: list@[j].id as i64,
                }),
        decreases list.len() - i,
    {
        match TweetReferenceData::from_referenced_tweet(source, &list[i]) {
            Ok(edge) => {
                edges.push(edge);
            },
            Err(error) => {
                assert(list@[i as int].id > i64::MAX);
                return Err(error);
            },
        }
        i += 1;
    }
    assert(edges@ =~= decoded_references(source, list@)->Ok_0);
    Ok(edges)
}

impl TweetData {
    /// A post with its edges.
    pub fn new(tweet: tweets::Model, references: Vec<TweetReferenceData>) -> (data: Self)
        ensures
            data@ == (TweetDataView { tweet: Some(tweet), references: references@ }),
    {
        TweetData { tweet: Some(tweet), references }
    }

    /// The absent post.
    pub fn empty() -> (data: Self)
        ensures
            data@ == (TweetDataView { tweet: None, references: Seq::empty() }),
    {
        TweetData { tweet: None, references: Vec::new() }
    }

    /// The local form of what the remote source answered for one post.
    pub fn from_api_tweet(tweet: Option<Tweet>) -> (data: Result<Self, ArchiveError>)
        ensures
            tweet_result_view(data) == decoded_reply(
                match tweet {
                    Some(tweet) => Some(tweet@),
                    None => None,
                },
            ),
    {
        match tweet {
            None => Ok(TweetData::empty()),
            Some(tweet) => {
                let id = match u64_to_i64(tweet.id) {
                    Ok(id) => id,
                    Err(error) => {
                        return Err(error);
                    },
                };
                let author_id = match tweet.author_id {
                    Some(author) => match u64_to_i64(author) {
                        Ok(author) => author,
                        Err(error) => {
                            return Err(error);
                        },
                    },
                    None => {
                        return Err(ArchiveError::DataError);
                    },
                };
                let conversation_id = match tweet.conversation_id {
                    Some(root) => match u64_to_i64(root) {
                        Ok(root) => root,
                        Err(error) => {
                            return Err(error);
                        },
                    },
                    None => {
                        return Err(ArchiveError::DataError);
                    },
                };
                let created_at = match convert_date_to_chrono(tweet.created_at) {
                    Ok(stamp) => stamp,
                    Err(error) => {
                        return Err(error);
                    },
                };
                let references = match &tweet.referenced_tweets {
                    Some(list) => match decode_references(id, list) {
                        Ok(edges) => edges,
                        Err(error) => {
                            return Err(error);
                        },
                    },
                    None => {
                        let ghost none: Seq<ReferencedTweet> = Seq::empty();
                        assert(decoded_references(id, none)->Ok_0 =~= Seq::empty());
                        Vec::new()
                    },
                };
                Ok(
                    TweetData {
                        tweet: Some(
                            tweets::Model {
                                id,
                                content: tweet.text,
                                author_id,
                                conversation_id,
                                created_at,
                            },
                        ),
                        references,
                    },
                )
            },
        }
    }

    /// The post that this post replies to: the target of its first
    /// `replied_to` edge.
    pub fn replied_to(&self) -> (target: Option<i64>)
        ensures
            target == reply_target(self.references@),
    {
        let mut i: usize = 0;
        assert(self.references@.skip(0) == self.references@);
        while i < self.references.len()
            invariant
                i <= self.references.len(),
                reply_target(self.references@) == reply_target(self.references@.skip(i as int)),
            decreases self.references.len() - i,
        {
            let edge = self.references[i];
            assert(self.references@.skip(i as int)[0] == edge);
            if edge.reference_type == ReferencedTweetKind::RepliedTo {
                return Some(edge.reference_tweet_id);
            }
            assert(self.references@.skip(i as int).drop_first() == self.references@.skip(
                i + 1,
            ));
            i += 1;
        }
        None
    }
}

/// An author, or the absence of one.
#[derive(Debug, PartialEq, Eq)]
pub struct UserData {
    pub user: Option<user::Model>,
}

impl Clone for UserData {
    fn clone(&self) -> (copy: Self)
        ensures
            copy == *self,
    {
        match &self.user {
            Some(model) => UserData { user: Some(model.clone()) },
            None => UserData { user: None },
        }
    }
}

/// The local form of a remote author. An id beyond `i64::MAX` or a missing
/// description is a data error.
pub open spec fn decoded_user(api_user: User) -> Result<UserData, ArchiveError> {
    if api_user.id > i64::MAX || api_user.description is None {
        Err(ArchiveError::DataError)
    } else {
        Ok(
            UserData {
                user: Some(
                    user::Model {
                        id: api_user.id as i64,
                        username: api_user.username,
                        name: api_user.name,
                        description: api_user.description->0,
                    },
                ),
            },
        )
    }
}

impl UserData {
    /// The local form of a remote author.
    pub fn from_api_user(api_user: &User) -> (data: Result<Self, ArchiveError>)
        ensures
            data == decoded_user(*api_user),
    {
        let id = match u64_to_i64(api_user.id) {
            Ok(id) => id,
            Err(error) => {
                return Err(error);
            },
        };
        match &api_user.description {
            Some(description) => Ok(
                UserData {
                    user: Some(
                        user::Model {
                            id,
                            username: api_user.username.clone(),
                            name: api_user.name.clone(),
                            description: description.clone(),
                        },
                    ),
                },
            ),
            None => Err(ArchiveError::DataError),
        }
    }

    /// The absent author.
    pub fn empty() -> (data: Self)
        ensures
            data == (UserData { user: None }),
    {
        UserData { user: None }
    }

    /// A stored author.
    pub fn from_data_model(user_from_db: user::Model) -> (data: Self)
        ensures
            data == (UserData { user: Some(user_from_db) }),
    {
        UserData { user: Some(user_from_db) }
    }
}

/// A reply thread from its root to the post it was asked for.
#[derive(Debug, PartialEq, Eq)]
pub struct ConversationData {
    pub id: i64,
    pub tweets: Vec<TweetData>,
}

/// The mathematical value of a [`ConversationData`].
pub struct ConversationDataView {
    pub id: i64,
    pub tweets: Seq<TweetDataView>,
}

impl View for ConversationData {
    type V = ConversationDataView;

    open spec fn view(&self) -> ConversationDataView {
        ConversationDataView { id: self.id, tweets: self.tweets.deep_view() }
    }
}

} // verus!
