//! Running an operation of the archive for a caller that does the input and
//! output itself: the caller collects the answers to the requests of an
//! operation one by one, and every call of [`advance`] either names the next
//! request or ends the operation.

use crate::archive::{
    backfill, backfilled, conversation_loaded, conversation_views, has_new_tweets,
    has_user_tweeted_since_date, load_offset_datetime_for_users_latest_tweet,
    load_offset_datetime_for_users_latest_tweet_in_database, load_tweet_from_id,
    load_twitter_conversation_from_tweet_id, load_user_conversations_from_twitter_handle,
    load_user_from_id, load_user_from_twitter_handle, load_user_tweets_from_twitter_handle,
    load_users_new_tweets, load_users_tweets_since_date, local_latest_stamp, new_tweets_fetched,
    remote_latest_stamp, remote_newer_than, search_tweets_in_db, staleness, tweet_loaded,
    tweets_since_loaded, user_conversations_loaded, user_loaded, user_loaded_by_handle,
    user_tweets_loaded,
};
use crate::clock::Timestamp;
use crate::error::ArchiveError;
use crate::gateway::{Gateway, GatewayView, Halt, HaltView, Source};
use crate::protocol::{Request, RequestView, Response, ResponseView, Settings};
use crate::read::{search_read, tweets_read_all, users_read_all};
use crate::seed::{all_tweets, history_seeded};
use crate::utils::{ConversationData, ConversationDataView, TweetData, TweetDataView, UserData};
use vstd::prelude::*;

verus! {

/// What a caller can ask of the archive.
#[derive(Debug, PartialEq, Eq)]
#[allow(inconsistent_fields)]
pub enum Operation {
    /// The post `id`, loaded through the store.
    Tweet { id: i64 },
    /// The author `id`, loaded through the store.
    UserById { id: i64 },
    /// The author with a handle, loaded through the store.
    UserByHandle { handle: String },
    /// The posts of an author, brought up to date first.
    UserTweets { handle: String },
    /// The conversations that end in the posts of an author.
    UserConversations { handle: String },
    /// The conversation that ends in the post `id`.
    Conversation { id: i64 },
    /// The creation time of the newest remote post of an author.
    LatestRemote { handle: String },
    /// Whether an author has posted strictly after `seconds` after the
    /// epoch.
    HasTweetedSince { handle: String, seconds: i64 },
    /// The posts of an author created strictly after an RFC 3339 date.
    TweetsSince { handle: String, date: String },
    /// The stored posts whose body contains a text.
    Search { query: String },
    /// Every stored post.
    Tweets,
    /// Every stored author.
    Users,
    /// The creation time of the newest stored post of an author.
    LatestStored { handle: String },
    /// Whether the stored posts of an author are stale.
    HasNewTweets { handle: String },
    /// The remote posts of an author that are newer than the stored ones.
    NewTweets { handle: String },
    /// The posts of an author after the new remote ones are stored.
    Backfill { handle: String },
    /// The whole remote history of an author, stored page by page.
    History { handle: String },
}

/// The mathematical value of an [`Operation`].
#[allow(inconsistent_fields)]
pub enum OperationView {
    Tweet { id: i64 },
    UserById { id: i64 },
    UserByHandle { handle: Seq<char> },
    UserTweets { handle: Seq<char> },
    UserConversations { handle: Seq<char> },
    Conversation { id: i64 },
    LatestRemote { handle: Seq<char> },
    HasTweetedSince { handle: Seq<char>, seconds: i64 },
    TweetsSince { handle: Seq<char>, date: Seq<char> },
    Search { query: Seq<char> },
    Tweets,
    Users,
    LatestStored { handle: Seq<char> },
    HasNewTweets { handle: Seq<char> },
    NewTweets { handle: Seq<char> },
    Backfill { handle: Seq<char> },
    History { handle: Seq<char> },
}

impl View for Operation {
    type V = OperationView;

    open spec fn view(&self) -> OperationView {
        match *self {
            Operation::Tweet { id } => OperationView::Tweet { id },
            Operation::UserById { id } => OperationView::UserById { id },
            Operation::UserByHandle { handle } => OperationView::UserByHandle { handle: handle@ },
            Operation::UserTweets { handle } => OperationView::UserTweets { handle: handle@ },
            Operation::UserConversations { handle } => OperationView::UserConversations {
                handle: handle@,
            },
            Operation::Conversation { id } => OperationView::Conversation { id },
            Operation::LatestRemote { handle } => OperationView::LatestRemote { handle: handle@ },
            Operation::HasTweetedSince { handle, seconds } => OperationView::HasTweetedSince {
                handle: handle@,
                seconds,
            },
            Operation::TweetsSince { handle, date } => OperationView::TweetsSince {
                handle: handle@,
                date: date@,
            },
            Operation::Search { query } => OperationView::Search { query: query@ },
            Operation::Tweets => OperationView::Tweets,
            Operation::Users => OperationView::Users,
            Operation::LatestStored { handle } => OperationView::LatestStored { handle: handle@ },
            Operation::HasNewTweets { handle } => OperationView::HasNewTweets { handle: handle@ },
            Operation::NewTweets { handle } => OperationView::NewTweets { handle: handle@ },
            Operation::Backfill { handle } => OperationView::Backfill { handle: handle@ },
            Operation::History { handle } => OperationView::History { handle: handle@ },
        }
    }
}

/// What an operation hands out.
#[derive(Debug, PartialEq, Eq)]
pub enum Outcome {
    Tweet(TweetData),
    User(UserData),
    Users(Vec<UserData>),
    Tweets(Vec<TweetData>),
    Conversation(ConversationData),
    Conversations(Vec<ConversationData>),
    Stamp(Timestamp),
    Flag(bool),
    /// The operation has nothing to hand out.
    Nothing,
}

/// The mathematical value of an [`Outcome`].
pub enum OutcomeView {
    Tweet(TweetDataView),
    User(UserData),
    Users(Seq<UserData>),
    Tweets(Seq<TweetDataView>),
    Conversation(ConversationDataView),
    Conversations(Seq<ConversationDataView>),
    Stamp(Timestamp),
    Flag(bool),
    Nothing,
}

impl View for Outcome {
    type V = OutcomeView;

    open spec fn view(&self) -> OutcomeView {
        match *self {
            Outcome::Tweet(data) => OutcomeView::Tweet(data@),
            Outcome::User(data) => OutcomeView::User(data),
            Outcome::Users(list) => OutcomeView::Users(list@),
            Outcome::Tweets(list) => OutcomeView::Tweets(list.deep_view()),
            Outcome::Conversation(conversation) => OutcomeView::Conversation(conversation@),
            Outcome::Conversations(list) => OutcomeView::Conversations(conversation_views(list@)),
            Outcome::Stamp(stamp) => OutcomeView::Stamp(stamp),
            Outcome::Flag(flag) => OutcomeView::Flag(flag),
            Outcome::Nothing => OutcomeView::Nothing,
        }
    }
}

/// Where an operation stands after the answers collected so far.
#[derive(Debug, PartialEq, Eq)]
pub enum Step {
    /// The operation needs the answer to this request next.
    Ask(Request),
    /// The operation has ended with this outcome.
    Done(Outcome),
    /// The operation has failed.
    Failed(ArchiveError),
}

/// The mathematical value of a [`Step`].
pub enum StepView {
    Ask(RequestView),
    Done(OutcomeView),
    Failed(ArchiveError),
}

impl View for Step {
    type V = StepView;

    open spec fn view(&self) -> StepView {
        match *self {
            Step::Ask(request) => StepView::Ask(request@),
            Step::Done(outcome) => StepView::Done(outcome@),
            Step::Failed(error) => StepView::Failed(error),
        }
    }
}

/// An outcome made of the result of an operation.
pub open spec fn wrapped<T>(
    result: (GatewayView, Result<T, HaltView>),
    wrap: spec_fn(T) -> OutcomeView,
) -> (GatewayView, Result<OutcomeView, HaltView>) {
    (
        result.0,
        match result.1 {
            Ok(value) => Ok(wrap(value)),
            Err(halt) => Err(halt),
        },
    )
}

/// What an operation does through a gateway, and what it hands out.
pub open spec fn performed(gateway: GatewayView, operation: OperationView) -> (
    GatewayView,
    Result<OutcomeView, HaltView>,
) {
    match operation {
        OperationView::Tweet { id } => wrapped(
            tweet_loaded(gateway, id),
            |data: TweetDataView| OutcomeView::Tweet(data),
        ),
        OperationView::UserById { id } => wrapped(
            user_loaded(gateway, id),
            |data: UserData| OutcomeView::User(data),
        ),
        OperationView::UserByHandle { handle } => wrapped(
            user_loaded_by_handle(gateway, handle),
            |data: UserData| OutcomeView::User(data),
        ),
        OperationView::UserTweets { handle } => wrapped(
            user_tweets_loaded(gateway, handle),
            |list: Seq<TweetDataView>| OutcomeView::Tweets(list),
        ),
        OperationView::UserConversations { handle } => wrapped(
            user_conversations_loaded(gateway, handle),
            |list: Seq<ConversationDataView>| OutcomeView::Conversations(list),
        ),
        OperationView::Conversation { id } => wrapped(
            conversation_loaded(gateway, id),
            |conversation: ConversationDataView| OutcomeView::Conversation(conversation),
        ),
        OperationView::LatestRemote { handle } => wrapped(
            remote_latest_stamp(gateway, handle),
            |stamp: Timestamp| OutcomeView::Stamp(stamp),
        ),
        OperationView::HasTweetedSince { handle, seconds } => wrapped(
            remote_newer_than(gateway, handle, seconds),
            |flag: bool| OutcomeView::Flag(flag),
        ),
        OperationView::TweetsSince { handle, date } => wrapped(
            tweets_since_loaded(gateway, handle, date),
            |list: Seq<TweetDataView>| OutcomeView::Tweets(list),
        ),
        OperationView::Search { query } => wrapped(
            search_read(gateway, query),
            |list: Seq<TweetDataView>| OutcomeView::Tweets(list),
        ),
        OperationView::Tweets => wrapped(
            tweets_read_all(gateway),
            |list: Seq<TweetDataView>| OutcomeView::Tweets(list),
        ),
        OperationView::Users => wrapped(
            users_read_all(gateway),
            |list: Seq<UserData>| OutcomeView::Users(list),
        ),
        OperationView::LatestStored { handle } => wrapped(
            local_latest_stamp(gateway, handle),
            |stamp: Timestamp| OutcomeView::Stamp(stamp),
        ),
        OperationView::HasNewTweets { handle } => wrapped(
            staleness(gateway, handle),
            |flag: bool| OutcomeView::Flag(flag),
        ),
        OperationView::NewTweets { handle } => wrapped(
            new_tweets_fetched(gateway, handle),
            |list: Seq<TweetDataView>| OutcomeView::Tweets(list),
        ),
        OperationView::Backfill { handle } => wrapped(
            backfilled(gateway, handle),
            |list: Seq<TweetDataView>| OutcomeView::Tweets(list),
        ),
        OperationView::History { handle } => wrapped(
            history_seeded(gateway, handle),
            |done: ()| OutcomeView::Nothing,
        ),
    }
}

/// The gateway that replays answers from their first.
pub open spec fn replaying(settings: Settings, answers: Seq<ResponseView>) -> GatewayView {
    GatewayView { settings, source: Source::Replay { script: answers, next: 0 } }
}

/// Where an operation stands after the answers collected so far: at its
/// outcome or its failure if the answers carry it to its end, else at the
/// first request that they do not answer.
pub open spec fn advanced(
    operation: OperationView,
    settings: Settings,
    answers: Seq<ResponseView>,
) -> StepView {
    match performed(replaying(settings, answers), operation).1 {
        Ok(outcome) => StepView::Done(outcome),
        Err(HaltView::Suspended(request)) => StepView::Ask(request),
        Err(HaltView::Failed(error)) => StepView::Failed(error),
    }
}

/// Performs an operation through a gateway.
pub fn perform(gateway: &mut Gateway, operation: &Operation) -> (outcome: Result<Outcome, Halt>)
    ensures
        final(gateway)@ == performed(old(gateway)@, operation@).0,
        crate::gateway::lifted(outcome) == performed(old(gateway)@, operation@).1,
{
    match operation {
        Operation::Tweet { id } => match load_tweet_from_id(gateway, *id) {
            Ok(data) => Ok(Outcome::Tweet(data)),
            Err(halt) => Err(halt),
        },
        Operation::UserById { id } => match load_user_from_id(gateway, *id) {
            Ok(data) => Ok(Outcome::User(data)),
            Err(halt) => Err(halt),
        },
        Operation::UserByHandle { handle } => match load_user_from_twitter_handle(
            gateway,
            handle.as_str(),
        ) {
            Ok(data) => Ok(Outcome::User(data)),
            Err(halt) => Err(halt),
        },
        Operation::UserTweets { handle } => match load_user_tweets_from_twitter_handle(
            gateway,
            handle.as_str(),
        ) {
            Ok(list) => Ok(Outcome::Tweets(list)),
            Err(halt) => Err(halt),
        },
        Operation::UserConversations { handle } => match
            load_user_conversations_from_twitter_handle(gateway, handle.as_str()) {
            Ok(list) => Ok(Outcome::Conversations(list)),
            Err(halt) => Err(halt),
        },
        Operation::Conversation { id } => match load_twitter_conversation_from_tweet_id(
            gateway,
            *id,
        ) {
            Ok(conversation) => Ok(Outcome::Conversation(conversation)),
            Err(halt) => Err(halt),
        },
        Operation::LatestRemote { handle } => match load_offset_datetime_for_users_latest_tweet(
            gateway,
            handle.as_str(),
        ) {
            Ok(stamp) => Ok(Outcome::Stamp(stamp)),
            Err(halt) => Err(halt),
        },
        Operation::HasTweetedSince { handle, seconds } => match has_user_tweeted_since_date(
            gateway,
            handle.as_str(),
            *seconds,
        ) {
            Ok(flag) => Ok(Outcome::Flag(flag)),
            Err(halt) => Err(halt),
        },
        Operation::TweetsSince { handle, date } => match load_users_tweets_since_date(
            gateway,
            handle.as_str(),
            date.as_str(),
        ) {
            Ok(list) => Ok(Outcome::Tweets(list)),
            Err(halt) => Err(halt),
        },
        Operation::Search { query } => match search_tweets_in_db(gateway, query.as_str()) {
            Ok(list) => Ok(Outcome::Tweets(list)),
            Err(halt) => Err(halt),
        },
        Operation::Tweets => match crate::read::tweets(gateway) {
            Ok(list) => Ok(Outcome::Tweets(list)),
            Err(halt) => Err(halt),
        },
        Operation::Users => match crate::read::users(gateway) {
            Ok(list) => Ok(Outcome::Users(list)),
            Err(halt) => Err(halt),
        },
        Operation::LatestStored { handle } => match
            load_offset_datetime_for_users_latest_tweet_in_database(gateway, handle.as_str()) {
            Ok(stamp) => Ok(Outcome::Stamp(stamp)),
            Err(halt) => Err(halt),
        },
        Operation::HasNewTweets { handle } => match has_new_tweets(gateway, handle.as_str()) {
            Ok(flag) => Ok(Outcome::Flag(flag)),
            Err(halt) => Err(halt),
        },
        Operation::NewTweets { handle } => match load_users_new_tweets(gateway, handle.as_str()) {
            Ok(list) => Ok(Outcome::Tweets(list)),
            Err(halt) => Err(halt),
        },
        Operation::Backfill { handle } => match backfill(gateway, handle.as_str()) {
            Ok(list) => Ok(Outcome::Tweets(list)),
            Err(halt) => Err(halt),
        },
        Operation::History { handle } => match all_tweets(gateway, handle.as_str()) {
            Ok(_) => Ok(Outcome::Nothing),
            Err(halt) => Err(halt),
        },
    }
}

/// A fresh vector with equal answers in the same order.
pub fn copy_answers(answers: &Vec<Response>) -> (copy: Vec<Response>)
    ensures
        copy.deep_view() == answers.deep_view(),
{
    let mut copy: Vec<Response> = Vec::new();
    let mut at: usize = 0;
    while at < answers.len()
        invariant
            at <= answers.len(),
            copy@.len() == at,
            forall|j: int| 0 <= j < at ==> (#[trigger] copy@[j])@ == answers@[j]@,
        decreases answers.len() - at,
    {
        copy.push(answers[at].clone());
        at += 1;
    }
    assert(copy.deep_view() =~= answers.deep_view());
    copy
}

/// Runs an operation on the answers collected so far: from its beginning,
/// with each request answered by the next of `answers`.
pub fn advance(operation: &Operation, settings: Settings, answers: &Vec<Response>) -> (step: Step)
    ensures
        step@ == advanced(operation@, settings, answers.deep_view()),
{
    let mut gateway = Gateway::replay(settings, copy_answers(answers));
    match perform(&mut gateway, operation) {
        Ok(outcome) => Step::Done(outcome),
        Err(Halt::Suspended(request)) => Step::Ask(request),
        Err(Halt::Failed(error)) => Step::Failed(error),
    }
}

} // verus!
