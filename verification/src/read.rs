//! Queries on the local store.

use crate::archive::{load_user_from_twitter_handle, user_loaded_by_handle};
use crate::clock::{instant_of, timestamp_from_rfc3339};
use crate::error::ArchiveError;
use crate::gateway::{
    asked, flag_in, lifted, lifted_list, plain, tweet_in, tweets_in, users_in, Gateway, GatewayView,
    Halt, HaltView,
};
use crate::protocol::{Request, RequestView};
use crate::records::{tweet_read, user_read, user_read_by_handle};
use crate::utils::{ConversationData, ConversationDataView, TweetData, TweetDataView, UserData};
use vstd::prelude::*;

verus! {

/// Whether the store has a conversation root marker `id`.
pub open spec fn conversation_known(
    gateway: GatewayView,
    id: i64,
) -> (GatewayView, Result<bool, HaltView>) {
    let reply = asked(gateway, RequestView::ConversationExists { id });
    (reply.0, flag_in(reply.1))
}

/// Whether the store has a post `id`.
pub open spec fn tweet_known(
    gateway: GatewayView,
    id: i64,
) -> (GatewayView, Result<bool, HaltView>) {
    let reply = asked(gateway, RequestView::TweetExists { id });
    (reply.0, flag_in(reply.1))
}

/// The newest stored post of an author; an author without stored posts has
/// none to be found.
pub open spec fn latest_read(gateway: GatewayView, author: i64) -> (
    GatewayView,
    Result<TweetDataView, HaltView>,
) {
    let reply = asked(gateway, RequestView::LatestTweet { author_id: author });
    (
        reply.0,
        match tweet_in(reply.1) {
            Ok(data) => if data.tweet is None {
                Err(HaltView::Failed(ArchiveError::NotFound))
            } else {
                Ok(data)
            },
            Err(halt) => Err(halt),
        },
    )
}

/// The stored posts whose body contains `query`, newest first.
pub open spec fn search_read(gateway: GatewayView, query: Seq<char>) -> (
    GatewayView,
    Result<Seq<TweetDataView>, HaltView>,
) {
    let reply = asked(gateway, RequestView::SearchTweets { query });
    (reply.0, tweets_in(reply.1))
}

/// The stored posts of the author with a handle, newest first. The author
/// is loaded through the store first.
pub open spec fn users_tweets_read(gateway: GatewayView, handle: Seq<char>) -> (
    GatewayView,
    Result<Seq<TweetDataView>, HaltView>,
) {
    let loaded = user_loaded_by_handle(gateway, handle);
    match loaded.1 {
        Err(halt) => (loaded.0, Err(halt)),
        Ok(data) => match data.user {
            None => (loaded.0, Err(HaltView::Failed(ArchiveError::NotFound))),
            Some(user) => {
                let reply = asked(loaded.0, RequestView::UserTweets { author_id: user.id });
                (reply.0, tweets_in(reply.1))
            },
        },
    }
}

/// The stored posts of the author with a handle that were created strictly
/// after the instant that `date` denotes, newest first. The author is loaded
/// through the store first; a `date` that is no RFC 3339 date and time is a
/// data error.
pub open spec fn users_tweets_since_read(
    gateway: GatewayView,
    handle: Seq<char>,
    date: Seq<char>,
) -> (
    GatewayView,
    Result<Seq<TweetDataView>, HaltView>,
) {
    let loaded = user_loaded_by_handle(gateway, handle);
    match loaded.1 {
        Err(halt) => (loaded.0, Err(halt)),
        Ok(data) => match data.user {
            None => (loaded.0, Err(HaltView::Failed(ArchiveError::NotFound))),
            Some(user) => match instant_of(date) {
                None => (loaded.0, Err(HaltView::Failed(ArchiveError::DataError))),
                Some(after) => {
                    let reply = asked(
                        loaded.0,
                        RequestView::UserTweetsSince { author_id: user.id, after },
                    );
                    (reply.0, tweets_in(reply.1))
                },
            },
        },
    }
}

/// Every stored post.
pub open spec fn tweets_read_all(gateway: GatewayView) -> (
    GatewayView,
    Result<Seq<TweetDataView>, HaltView>,
) {
    let reply = asked(gateway, RequestView::AllTweets);
    (reply.0, tweets_in(reply.1))
}

/// Every stored author.
pub open spec fn users_read_all(gateway: GatewayView) -> (
    GatewayView,
    Result<Seq<UserData>, HaltView>,
) {
    let reply = asked(gateway, RequestView::AllUsers);
    (reply.0, users_in(reply.1))
}

/// The stored posts of a conversation, oldest first, under the id of the
/// conversation.
pub open spec fn conversation_read(gateway: GatewayView, id: i64) -> (
    GatewayView,
    Result<ConversationDataView, HaltView>,
) {
    let reply = asked(gateway, RequestView::ConversationTweets { id });
    (
        reply.0,
        match tweets_in(reply.1) {
            Ok(tweets) => Ok(ConversationDataView { id, tweets }),
            Err(halt) => Err(halt),
        },
    )
}

/// Every stored post.
pub fn tweets(gateway: &mut Gateway) -> (list: Result<Vec<TweetData>, Halt>)
    ensures
        final(gateway)@ == tweets_read_all(old(gateway)@).0,
        lifted_list(list) == tweets_read_all(old(gateway)@).1,
{
    gateway.ask_tweets(Request::AllTweets)
}

/// Every stored author.
pub fn users(gateway: &mut Gateway) -> (list: Result<Vec<UserData>, Halt>)
    ensures
        final(gateway)@ == users_read_all(old(gateway)@).0,
        lifted(list) == users_read_all(old(gateway)@).1,
{
    gateway.ask_users(Request::AllUsers)
}

/// The stored posts of a conversation, oldest first.
pub fn conversation(gateway: &mut Gateway, conversation_id: i64) -> (found: Result<
    ConversationData,
    Halt,
>)
    ensures
        final(gateway)@ == conversation_read(old(gateway)@, conversation_id).0,
        lifted(found) == conversation_read(old(gateway)@, conversation_id).1,
{
    match gateway.ask_tweets(Request::ConversationTweets { id: conversation_id }) {
        Ok(tweets) => Ok(ConversationData { id: conversation_id, tweets }),
        Err(halt) => Err(halt),
    }
}

/// The stored post `id` with its edges.
pub fn tweet_by_id(gateway: &mut Gateway, id: i64) -> (data: Result<TweetData, Halt>)
    ensures
        final(gateway)@ == tweet_read(old(gateway)@, id).0,
        lifted(data) == tweet_read(old(gateway)@, id).1,
{
    TweetData::read(gateway, id)
}

/// The stored author `id`.
pub fn user_by_id(gateway: &mut Gateway, id: i64) -> (data: Result<UserData, Halt>)
    ensures
        final(gateway)@ == user_read(old(gateway)@, id).0,
        plain(data) == user_read(old(gateway)@, id).1,
{
    UserData::read(gateway, id)
}

/// The stored author with this handle.
pub fn user_by_twitter_handle(gateway: &mut Gateway, twitter_handle: &str) -> (data: Result<
    UserData,
    Halt,
>)
    ensures
        final(gateway)@ == user_read_by_handle(old(gateway)@, twitter_handle@).0,
        plain(data) == user_read_by_handle(old(gateway)@, twitter_handle@).1,
{
    UserData::read_from_twitter_handle(gateway, twitter_handle)
}

/// The stored posts of the author with this handle, newest first.
pub fn users_tweets(gateway: &mut Gateway, twitter_handle: &str) -> (tweets: Result<
    Vec<TweetData>,
    Halt,
>)
    ensures
        final(gateway)@ == users_tweets_read(old(gateway)@, twitter_handle@).0,
        lifted_list(tweets) == users_tweets_read(old(gateway)@, twitter_handle@).1,
{
    let loaded = match load_user_from_twitter_handle(gateway, twitter_handle) {
        Ok(loaded) => loaded,
        Err(halt) => {
            return Err(halt);
        },
    };
    match loaded.user {
        None => Err(Halt::Failed(ArchiveError::NotFound)),
        Some(user) => gateway.ask_tweets(Request::UserTweets { author_id: user.id }),
    }
}

/// The stored posts of the author with this handle created strictly after
/// `rfc3339_date`, newest first.
pub fn users_tweets_since_date(
    gateway: &mut Gateway,
    twitter_handle: &str,
    rfc3339_date: &str,
) -> (tweets:
    Result<Vec<TweetData>, Halt>)
    ensures
        final(gateway)@ == users_tweets_since_read(old(gateway)@, twitter_handle@, rfc3339_date@).0,
        lifted_list(tweets) == users_tweets_since_read(
            old(gateway)@,
            twitter_handle@,
            rfc3339_date@,
        ).1,
{
    let loaded = match load_user_from_twitter_handle(gateway, twitter_handle) {
        Ok(loaded) => loaded,
        Err(halt) => {
            return Err(halt);
        },
    };
    let user = match loaded.user {
        None => {
            return Err(Halt::Failed(ArchiveError::NotFound));
        },
        Some(user) => user,
    };
    match timestamp_from_rfc3339(rfc3339_date) {
        None => Err(Halt::Failed(ArchiveError::DataError)),
        Some(after) => gateway.ask_tweets(Request::UserTweetsSince { author_id: user.id, after }),
    }
}

/// Whether the store has a conversation root marker `id`.
pub fn does_conversation_exist(gateway: &mut Gateway, id: i64) -> (known: Result<bool, Halt>)
    ensures
        final(gateway)@ == conversation_known(old(gateway)@, id).0,
        plain(known) == conversation_known(old(gateway)@, id).1,
{
    gateway.ask_flag(Request::ConversationExists { id })
}

/// Whether the store has a post `id`.
pub fn does_tweet_exist(gateway: &mut Gateway, id: i64) -> (known: Result<bool, Halt>)
    ensures
        final(gateway)@ == tweet_known(old(gateway)@, id).0,
        plain(known) == tweet_known(old(gateway)@, id).1,
{
    gateway.ask_flag(Request::TweetExists { id })
}

/// The newest stored post of the author `id`.
pub fn latest_tweet_from_user(gateway: &mut Gateway, id: i64) -> (data: Result<TweetData, Halt>)
    ensures
        final(gateway)@ == latest_read(old(gateway)@, id).0,
        lifted(data) == latest_read(old(gateway)@, id).1,
{
    match gateway.ask_tweet(Request::LatestTweet { author_id: id }) {
        Ok(data) => {
            if data.tweet.is_none() {
                Err(Halt::Failed(ArchiveError::NotFound))
            } else {
                Ok(data)
            }
        },
        Err(halt) => Err(halt),
    }
}

/// The stored posts whose body contains `search_query`, newest first.
pub fn search_tweets_in_db(gateway: &mut Gateway, search_query: &str) -> (tweets: Result<
    Vec<TweetData>,
    Halt,
>)
    ensures
        final(gateway)@ == search_read(old(gateway)@, search_query@).0,
        lifted_list(tweets) == search_read(old(gateway)@, search_query@).1,
{
    let query = search_query.to_owned();
    gateway.ask_tweets(Request::SearchTweets { query })
}

} // verus!
