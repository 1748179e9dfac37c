//! The questions that the archive puts to the local store and to the remote
//! source, and the answers it understands.

use crate::clock::Timestamp;
use crate::entities::tweets;
use crate::entities::user;
use crate::utils::{TweetData, TweetDataView, TweetReferenceData, UserData};
use crate::wire::{Tweet, TweetView, User};
use vstd::prelude::*;

verus! {

/// The limits that an archive works under.
#[derive(Clone, Copy, Debug, PartialEq, Eq, Structural)]
pub struct Settings {
    /// Seconds to wait before the single retry of a rate-limited request.
    pub cooldown_seconds: u64,
    /// Posts asked for per page while fetching an author's whole history.
    pub page_size: u32,
    /// Posts asked for when only the newest remote post is wanted.
    pub recent_count: u32,
    /// Pages fetched at most while fetching an author's whole history.
    pub page_ceiling: u32,
}

impl Settings {
    /// A cooldown of 910 seconds, pages of 100 posts, 5 posts per staleness
    /// check and at most 32 pages of history.
    pub fn standard() -> (settings: Settings)
        ensures
            settings == (Settings {
                cooldown_seconds: 910,
                page_size: 100,
                recent_count: 5,
                page_ceiling: 32,
            }),
    {
        Settings { cooldown_seconds: 910, page_size: 100, recent_count: 5, page_ceiling: 32 }
    }
}

/// Which of an author's remote posts are asked for, newest first.
#[derive(Clone, Copy, Debug, PartialEq, Eq, Structural)]
pub struct Timeline {
    pub user_id: u64,
    /// At most this many posts; all of them where `None`.
    pub max_results: Option<u32>,
    /// Only posts created strictly after this instant.
    pub start_time: Option<Timestamp>,
    /// Only posts whose id is strictly below this one.
    pub until_id: Option<u64>,
}

/// One question to the local store or to the remote source.
#[derive(Debug, PartialEq, Eq)]
#[allow(inconsistent_fields)]
pub enum Request {
    /// The stored post `id` with its edges.
    FindTweet { id: i64 },
    /// The stored author `id`.
    FindUser { id: i64 },
    /// The stored author with this handle.
    FindUserByHandle { handle: String },
    /// Whether a post `id` is stored.
    TweetExists { id: i64 },
    /// Whether a conversation root marker `id` is stored.
    ConversationExists { id: i64 },
    /// The stored posts of an author, newest first.
    UserTweets { author_id: i64 },
    /// The stored posts of an author created strictly after an instant,
    /// newest first.
    UserTweetsSince { author_id: i64, after: Timestamp },
    /// The newest stored post of an author.
    LatestTweet { author_id: i64 },
    /// The stored posts whose body contains a text, newest first.
    SearchTweets { query: String },
    /// Every stored post.
    AllTweets,
    /// Every stored author.
    AllUsers,
    /// The stored posts of a conversation, oldest first.
    ConversationTweets { id: i64 },
    /// A new author, keyed by the id.
    InsertUser { user: user::Model },
    /// A new conversation root marker.
    InsertConversation { id: i64 },
    /// A new post, keyed by the id.
    InsertTweet { tweet: tweets::Model },
    /// A new edge, keyed by all that it holds: a post may have several
    /// edges, and even several of one kind.
    InsertReference { reference: TweetReferenceData },
    /// The remote post `id`.
    RemoteTweet { id: u64 },
    /// The remote author `id`.
    RemoteUser { id: u64 },
    /// The remote author with this handle.
    RemoteUserByHandle { handle: String },
    /// Some of an author's remote posts.
    RemoteTimeline { query: Timeline },
    /// Wait this many seconds.
    Cooldown { seconds: u64 },
}

impl Clone for Request {
    fn clone(&self) -> (copy: Self)
        ensures
            copy == *self,
    {
        match self {
            Request::FindTweet { id } => Request::FindTweet { id: *id },
            Request::FindUser { id } => Request::FindUser { id: *id },
            Request::FindUserByHandle { handle } => Request::FindUserByHandle {
                handle: handle.clone(),
            },
            Request::TweetExists { id } => Request::TweetExists { id: *id },
            Request::ConversationExists { id } => Request::ConversationExists { id: *id },
            Request::UserTweets { author_id } => Request::UserTweets { author_id: *author_id },
            Request::UserTweetsSince { author_id, after } => Request::UserTweetsSince {
                author_id: *author_id,
                after: *after,
            },
            Request::LatestTweet { author_id } => Request::LatestTweet { author_id: *author_id },
            Request::SearchTweets { query } => Request::SearchTweets { query: query.clone() },
            Request::AllTweets => Request::AllTweets,
            Request::AllUsers => Request::AllUsers,
            Request::ConversationTweets { id } => Request::ConversationTweets { id: *id },
            Request::InsertUser { user } => Request::InsertUser { user: user.clone() },
            Request::InsertConversation { id } => Request::InsertConversation { id: *id },
            Request::InsertTweet { tweet } => Request::InsertTweet { tweet: tweet.clone() },
            Request::InsertReference { reference } => Request::InsertReference {
                reference: *reference,
            },
            Request::RemoteTweet { id } => Request::RemoteTweet { id: *id },
            Request::RemoteUser { id } => Request::RemoteUser { id: *id },
            Request::RemoteUserByHandle { handle } => Request::RemoteUserByHandle {
                handle: handle.clone(),
            },
            Request::RemoteTimeline { query } => Request::RemoteTimeline { query: *query },
            Request::Cooldown { seconds } => Request::Cooldown { seconds: *seconds },
        }
    }
}

/// The mathematical value of a [`Request`]: texts are sequences of
/// characters.
#[allow(inconsistent_fields)]
pub enum RequestView {
    FindTweet { id: i64 },
    FindUser { id: i64 },
    FindUserByHandle { handle: Seq<char> },
    TweetExists { id: i64 },
    ConversationExists { id: i64 },
    UserTweets { author_id: i64 },
    UserTweetsSince { author_id: i64, after: Timestamp },
    LatestTweet { author_id: i64 },
    SearchTweets { query: Seq<char> },
    AllTweets,
    AllUsers,
    ConversationTweets { id: i64 },
    InsertUser { user: user::Model },
    InsertConversation { id: i64 },
    InsertTweet { tweet: tweets::Model },
    InsertReference { reference: TweetReferenceData },
    RemoteTweet { id: u64 },
    RemoteUser { id: u64 },
    RemoteUserByHandle { handle: Seq<char> },
    RemoteTimeline { query: Timeline },
    Cooldown { seconds: u64 },
}

impl View for Request {
    type V = RequestView;

    open spec fn view(&self) -> RequestView {
        match *self {
            Request::FindTweet { id } => RequestView::FindTweet { id },
            Request::FindUser { id } => RequestView::FindUser { id },
            Request::FindUserByHandle { handle } => RequestView::FindUserByHandle {
                handle: handle@,
            },
            Request::TweetExists { id } => RequestView::TweetExists { id },
            Request::ConversationExists { id } => RequestView::ConversationExists { id },
            Request::UserTweets { author_id } => RequestView::UserTweets { author_id },
            Request::UserTweetsSince { author_id, after } => RequestView::UserTweetsSince {
                author_id,
                after,
            },
            Request::LatestTweet { author_id } => RequestView::LatestTweet { author_id },
            Request::SearchTweets { query } => RequestView::SearchTweets { query: query@ },
            Request::AllTweets => RequestView::AllTweets,
            Request::AllUsers => RequestView::AllUsers,
            Request::ConversationTweets { id } => RequestView::ConversationTweets { id },
            Request::InsertUser { user } => RequestView::InsertUser { user },
            Request::InsertConversation { id } => RequestView::InsertConversation { id },
            Request::InsertTweet { tweet } => RequestView::InsertTweet { tweet },
            Request::InsertReference { reference } => RequestView::InsertReference { reference },
            Request::RemoteTweet { id } => RequestView::RemoteTweet { id },
            Request::RemoteUser { id } => RequestView::RemoteUser { id },
            Request::RemoteUserByHandle { handle } => RequestView::RemoteUserByHandle {
                handle: handle@,
            },
            Request::RemoteTimeline { query } => RequestView::RemoteTimeline { query },
            Request::Cooldown { seconds } => RequestView::Cooldown { seconds },
        }
    }
}

/// How the store took an insert.
#[derive(Clone, Copy, Debug, PartialEq, Eq, Structural)]
pub enum WriteOutcome {
    /// The row is new.
    Inserted,
    /// A row with this key was there already; nothing changed.
    Duplicate,
    /// The store rejected the row for another reason.
    Failed,
}

/// One answer of the local store or of the remote source.
#[derive(Debug, PartialEq, Eq)]
pub enum Response {
    Tweet(TweetData),
    User(UserData),
    Users(Vec<UserData>),
    Flag(bool),
    Tweets(Vec<TweetData>),
    Written(WriteOutcome),
    /// The remote post, or `None` where the remote source has none.
    RemoteTweet(Option<Tweet>),
    /// The remote author, or `None` where the remote source has none.
    RemoteUser(Option<User>),
    /// Remote posts, newest first.
    RemoteTimeline(Vec<Tweet>),
    /// The remote source is rate limited or cannot be reached for the
    /// moment.
    RateLimited,
    /// The remote source failed, or its reply could not be read.
    RemoteFailed,
    /// The store failed, or its reply could not be read.
    StoreFailed,
    /// A wait is over.
    Resumed,
}

/// The mathematical value of a [`Response`].
pub enum ResponseView {
    Tweet(TweetDataView),
    User(UserData),
    Users(Seq<UserData>),
    Flag(bool),
    Tweets(Seq<TweetDataView>),
    Written(WriteOutcome),
    RemoteTweet(Option<TweetView>),
    RemoteUser(Option<User>),
    RemoteTimeline(Seq<TweetView>),
    RateLimited,
    RemoteFailed,
    StoreFailed,
    Resumed,
}

impl View for Response {
    type V = ResponseView;

    open spec fn view(&self) -> ResponseView {
        match *self {
            Response::Tweet(data) => ResponseView::Tweet(data@),
            Response::User(data) => ResponseView::User(data),
            Response::Users(list) => ResponseView::Users(list@),
            Response::Flag(flag) => ResponseView::Flag(flag),
            Response::Tweets(list) => ResponseView::Tweets(list.deep_view()),
            Response::Written(outcome) => ResponseView::Written(outcome),
            Response::RemoteTweet(tweet) => ResponseView::RemoteTweet(tweet.deep_view()),
            Response::RemoteUser(user) => ResponseView::RemoteUser(user),
            Response::RemoteTimeline(list) => ResponseView::RemoteTimeline(list.deep_view()),
            Response::RateLimited => ResponseView::RateLimited,
            Response::RemoteFailed => ResponseView::RemoteFailed,
            Response::StoreFailed => ResponseView::StoreFailed,
            Response::Resumed => ResponseView::Resumed,
        }
    }
}

impl DeepView for Response {
    type V = ResponseView;

    open spec fn deep_view(&self) -> ResponseView {
        self@
    }
}

/// A fresh vector with equal posts in the same order.
pub fn copy_tweets(list: &Vec<TweetData>) -> (copy: Vec<TweetData>)
    ensures
        copy.deep_view() == list.deep_view(),
{
    let mut copy: Vec<TweetData> = Vec::new();
    let mut i: usize = 0;
    while i < list.len()
        invariant
            i <= list.len(),
            copy@.len() == i,
            forall|j: int| 0 <= j < i ==> (#[trigger] copy@[j])@ == list@[j]@,
        decreases list.len() - i,
    {
        copy.push(list[i].clone());
        i += 1;
    }
    assert(copy.deep_view() =~= list.deep_view());
    copy
}

/// A fresh vector with the same authors in the same order.
pub fn copy_users(list: &Vec<UserData>) -> (copy: Vec<UserData>)
    ensures
        copy@ == list@,
{
    let mut copy: Vec<UserData> = Vec::new();
    let mut i: usize = 0;
    while i < list.len()
        invariant
            i <= list.len(),
            copy@ == list@.take(i as int),
        decreases list.len() - i,
    {
        copy.push(list[i].clone());
        i += 1;
        assert(list@.take(i as int) == list@.take(i - 1).push(list@[i - 1]));
    }
    assert(list@.take(list.len() as int) == list@);
    copy
}

/// A fresh vector with equal remote posts in the same order.
pub fn copy_remote_tweets(list: &Vec<Tweet>) -> (copy: Vec<Tweet>)
    ensures
        copy.deep_view() == list.deep_view(),
{
    let mut copy: Vec<Tweet> = Vec::new();
    let mut i: usize = 0;
    while i < list.len()
        invariant
            i <= list.len(),
            copy@.len() == i,
            forall|j: int| 0 <= j < i ==> (#[trigger] copy@[j])@ == list@[j]@,
        decreases list.len() - i,
    {
        copy.push(list[i].clone());
        i += 1;
    }
    assert(copy.deep_view() =~= list.deep_view());
    copy
}

impl Clone for Response {
    fn clone(&self) -> (copy: Self)
        ensures
            copy@ == self@,
    {
        match self {
            Response::Tweet(data) => Response::Tweet(data.clone()),
            Response::User(data) => Response::User(data.clone()),
            Response::Users(list) => Response::Users(copy_users(list)),
            Response::Flag(flag) => Response::Flag(*flag),
            Response::Tweets(list) => Response::Tweets(copy_tweets(list)),
            Response::Written(outcome) => Response::Written(*outcome),
            Response::RemoteTweet(tweet) => Response::RemoteTweet(
                match tweet {
                    Some(tweet) => Some(tweet.clone()),
                    None => None,
                },
            ),
            Response::RemoteUser(user) => Response::RemoteUser(
                match user {
                    Some(user) => Some(user.clone()),
                    None => None,
                },
            ),
            Response::RemoteTimeline(list) => Response::RemoteTimeline(copy_remote_tweets(list)),
            Response::RateLimited => Response::RateLimited,
            Response::RemoteFailed => Response::RemoteFailed,
            Response::StoreFailed => Response::StoreFailed,
            Response::Resumed => Response::Resumed,
        }
    }
}

} // verus!
