//! What the archive asks of the remote source, decoded into local records.

use crate::clock::Timestamp;
use crate::error::ArchiveError;
use crate::gateway::{
    asked_remote, lifted, lifted_list, plain, remote_timeline_in, remote_tweet_in, remote_user_in,
    Gateway, GatewayView, Halt, HaltView,
};
use crate::protocol::{Request, RequestView, Timeline};
use crate::utils::{decoded_tweet, decoded_user, TweetData, TweetDataView, UserData};
use crate::wire::{Tweet, TweetView};
use vstd::prelude::*;

verus! {

/// The local forms of remote posts, in their order; a data error if any of
/// them does not decode.
pub open spec fn decoded_timeline(list: Seq<TweetView>) -> Result<
    Seq<TweetDataView>,
    ArchiveError,
> {
    if forall|i: int| 0 <= i < list.len() ==> decoded_tweet(#[trigger] list[i]) is Ok {
        Ok(Seq::new(list.len(), |i: int| decoded_tweet(list[i])->Ok_0))
    } else {
        Err(ArchiveError::DataError)
    }
}

/// The remote post `id` in local form, or the absent post where the remote
/// source has none. A reply that holds another post than the one asked for
/// is a data error.
pub open spec fn tweet_fetched(gateway: GatewayView, id: u64) -> (
    GatewayView,
    Result<TweetDataView, HaltView>,
) {
    let reply = asked_remote(gateway, RequestView::RemoteTweet { id });
    (
        reply.0,
        match remote_tweet_in(reply.1) {
            Err(halt) => Err(halt),
            Ok(None) => Ok(TweetDataView { tweet: None, references: Seq::empty() }),
            Ok(Some(tweet)) => if tweet.id != id {
                Err(HaltView::Failed(ArchiveError::DataError))
            } else {
                match decoded_tweet(tweet) {
                    Ok(data) => Ok(data),
                    Err(error) => Err(HaltView::Failed(error)),
                }
            },
        },
    )
}

/// The remote author in a reply, in local form, or the absent author where
/// the remote source has none.
pub open spec fn user_in_reply(reply: Result<Option<crate::wire::User>, HaltView>) -> Result<
    UserData,
    HaltView,
> {
    match reply {
        Err(halt) => Err(halt),
        Ok(None) => Ok(UserData { user: None }),
        Ok(Some(user)) => match decoded_user(user) {
            Ok(data) => Ok(data),
            Err(error) => Err(HaltView::Failed(error)),
        },
    }
}

/// The remote author `id` in local form. A reply that holds another author
/// than the one asked for is a data error.
pub open spec fn user_fetched(
    gateway: GatewayView,
    id: u64,
) -> (GatewayView, Result<UserData, HaltView>) {
    let reply = asked_remote(gateway, RequestView::RemoteUser { id });
    (
        reply.0,
        match remote_user_in(reply.1) {
            Ok(Some(user)) => if user.id != id {
                Err(HaltView::Failed(ArchiveError::DataError))
            } else {
                user_in_reply(remote_user_in(reply.1))
            },
            _ => user_in_reply(remote_user_in(reply.1)),
        },
    )
}

/// The remote author with a handle in local form.
pub open spec fn user_fetched_by_handle(gateway: GatewayView, handle: Seq<char>) -> (
    GatewayView,
    Result<UserData, HaltView>,
) {
    let reply = asked_remote(gateway, RequestView::RemoteUserByHandle { handle });
    (reply.0, user_in_reply(remote_user_in(reply.1)))
}

/// Some of an author's remote posts in local form, newest first. The absent
/// author has no posts to look for, and an author with a negative id is a
/// data error.
pub open spec fn timeline_fetched(
    gateway: GatewayView,
    user: UserData,
    max_results: Option<u32>,
    start_time: Option<Timestamp>,
    until_id: Option<u64>,
) -> (GatewayView, Result<Seq<TweetDataView>, HaltView>) {
    match user.user {
        None => (gateway, Err(HaltView::Failed(ArchiveError::NotFound))),
        Some(model) => if model.id < 0 {
            (gateway, Err(HaltView::Failed(ArchiveError::DataError)))
        } else {
            let reply = asked_remote(
                gateway,
                RequestView::RemoteTimeline {
                    query: Timeline {
                        user_id: model.id as u64,
                        max_results,
                        start_time,
                        until_id,
                    },
                },
            );
            (
                reply.0,
                match remote_timeline_in(reply.1) {
                    Err(halt) => Err(halt),
                    Ok(list) => match decoded_timeline(list) {
                        Ok(decoded) => Ok(decoded),
                        Err(error) => Err(HaltView::Failed(error)),
                    },
                },
            )
        },
    }
}

/// The newest remote post of an author: the first of the few newest that are
/// asked for. An author without remote posts has none to be found.
pub open spec fn newest_fetched(gateway: GatewayView, user: UserData) -> (
    GatewayView,
    Result<TweetDataView, HaltView>,
) {
    let recent = timeline_fetched(gateway, user, Some(gateway.settings.recent_count), None, None);
    (
        recent.0,
        match recent.1 {
            Err(halt) => Err(halt),
            Ok(list) => if list.len() == 0 {
                Err(HaltView::Failed(ArchiveError::NotFound))
            } else {
                Ok(list[0])
            },
        },
    )
}

fn decode_timeline(list: Vec<Tweet>) -> (decoded: Result<Vec<TweetData>, ArchiveError>)
    ensures
        match decoded {
            Ok(decoded) => decoded_timeline(list.deep_view()) == Ok::<
                Seq<TweetDataView>,
                ArchiveError,
            >(decoded.deep_view()),
            Err(error) => decoded_timeline(list.deep_view()) == Err::<
                Seq<TweetDataView>,
                ArchiveError,
            >(error),
        },
{
    let mut decoded: Vec<TweetData> = Vec::new();
    let mut at: usize = 0;
    let ghost remote = list.deep_view();
    while at < list.len()
        invariant
            at <= list.len(),
            remote == list.deep_view(),
            decoded@.len() == at,
            forall|j: int|
                0 <= j < at ==> decoded_tweet(#[trigger] remote[j]) == Ok::<
                    TweetDataView,
                    ArchiveError,
                >(decoded@[j]@),
        decreases list.len() - at,
    {
        assert(remote[at as int] == list@[at as int]@);
        match TweetData::from_api_tweet(Some(list[at].clone())) {
            Ok(data) => {
                decoded.push(data);
            },
            Err(error) => {
                assert(decoded_tweet(remote[at as int]) is Err);
                return Err(error);
            },
        }
        at += 1;
    }
    assert(decoded.deep_view() =~= decoded_timeline(remote)->Ok_0);
    Ok(decoded)
}

fn fetch_timeline(
    gateway: &mut Gateway,
    user: &UserData,
    max_results: Option<u32>,
    start_time: Option<Timestamp>,
    until_id: Option<u64>,
) -> (tweets: Result<Vec<TweetData>, Halt>)
    ensures
        final(gateway)@ == timeline_fetched(
            old(gateway)@,
            *user,
            max_results,
            start_time,
            until_id,
        ).0,
        lifted_list(tweets) == timeline_fetched(
            old(gateway)@,
            *user,
            max_results,
            start_time,
            until_id,
        ).1,
{
    let id: i64 = match &user.user {
        Some(model) => model.id,
        None => {
            return Err(Halt::Failed(ArchiveError::NotFound));
        },
    };
    if id < 0 {
        return Err(Halt::Failed(ArchiveError::DataError));
    }
    let query = Timeline { user_id: id as u64, max_results, start_time, until_id };
    let list = match gateway.ask_remote_timeline(Request::RemoteTimeline { query }) {
        Ok(list) => list,
        Err(halt) => {
            return Err(halt);
        },
    };
    match decode_timeline(list) {
        Ok(decoded) => Ok(decoded),
        Err(error) => Err(Halt::Failed(error)),
    }
}

/// The newest page of an author's remote posts.
pub fn get_tweets_from_user(gateway: &mut Gateway, user: &UserData) -> (tweets: Result<
    Vec<TweetData>,
    Halt,
>)
    ensures
        final(gateway)@ == timeline_fetched(
            old(gateway)@,
            *user,
            Some(old(gateway)@.settings.page_size),
            None,
            None,
        ).0,
        lifted_list(tweets) == timeline_fetched(
            old(gateway)@,
            *user,
            Some(old(gateway)@.settings.page_size),
            None,
            None,
        ).1,
{
    let size: u32 = gateway.settings.page_size;
    fetch_timeline(gateway, user, Some(size), None, None)
}

/// The newest remote post of an author.
pub fn get_latest_tweet_from_user(gateway: &mut Gateway, user: &UserData) -> (tweet: Result<
    TweetData,
    Halt,
>)
    ensures
        final(gateway)@ == newest_fetched(old(gateway)@, *user).0,
        lifted(tweet) == newest_fetched(old(gateway)@, *user).1,
{
    let count: u32 = gateway.settings.recent_count;
    let mut list = match fetch_timeline(gateway, user, Some(count), None, None) {
        Ok(list) => list,
        Err(halt) => {
            return Err(halt);
        },
    };
    if list.len() == 0 {
        Err(Halt::Failed(ArchiveError::NotFound))
    } else {
        Ok(list.swap_remove(0))
    }
}

/// The remote posts of an author created strictly after `from`, all of them.
pub fn get_new_tweets_from_user(
    gateway: &mut Gateway,
    user: &UserData,
    from: &Timestamp,
) -> (tweets:
    Result<Vec<TweetData>, Halt>)
    ensures
        final(gateway)@ == timeline_fetched(old(gateway)@, *user, None, Some(*from), None).0,
        lifted_list(tweets) == timeline_fetched(old(gateway)@, *user, None, Some(*from), None).1,
{
    fetch_timeline(gateway, user, None, Some(*from), None)
}

/// The first page of an author's remote history.
pub fn get_first_hundred_tweets_from_user(
    gateway: &mut Gateway,
    user: &UserData,
) -> (tweets: Result<
    Vec<TweetData>,
    Halt,
>)
    ensures
        final(gateway)@ == timeline_fetched(
            old(gateway)@,
            *user,
            Some(old(gateway)@.settings.page_size),
            None,
            None,
        ).0,
        lifted_list(tweets) == timeline_fetched(
            old(gateway)@,
            *user,
            Some(old(gateway)@.settings.page_size),
            None,
            None,
        ).1,
{
    get_tweets_from_user(gateway, user)
}

/// The page of an author's remote history below the post `id`.
pub fn get_tweets_from_user_until_id(gateway: &mut Gateway, user: &UserData, id: u64) -> (tweets:
    Result<Vec<TweetData>, Halt>)
    ensures
        final(gateway)@ == timeline_fetched(
            old(gateway)@,
            *user,
            Some(old(gateway)@.settings.page_size),
            None,
            Some(id),
        ).0,
        lifted_list(tweets) == timeline_fetched(
            old(gateway)@,
            *user,
            Some(old(gateway)@.settings.page_size),
            None,
            Some(id),
        ).1,
{
    let size: u32 = gateway.settings.page_size;
    fetch_timeline(gateway, user, Some(size), None, Some(id))
}

/// The remote post `id`, after one retry where the remote source is rate
/// limited.
pub fn get_tweet_by_id(gateway: &mut Gateway, id: u64) -> (data: Result<TweetData, Halt>)
    ensures
        final(gateway)@ == tweet_fetched(old(gateway)@, id).0,
        lifted(data) == tweet_fetched(old(gateway)@, id).1,
{
    let reply = match gateway.ask_remote_tweet(Request::RemoteTweet { id }) {
        Ok(reply) => reply,
        Err(halt) => {
            return Err(halt);
        },
    };
    match reply {
        None => Ok(TweetData::empty()),
        Some(tweet) => {
            if tweet.id != id {
                return Err(Halt::Failed(ArchiveError::DataError));
            }
            match TweetData::from_api_tweet(Some(tweet)) {
                Ok(data) => Ok(data),
                Err(error) => Err(Halt::Failed(error)),
            }
        },
    }
}

/// The remote author with this handle.
pub fn get_user_by_twitter_handle(gateway: &mut Gateway, twitter_handle: &str) -> (data: Result<
    UserData,
    Halt,
>)
    ensures
        final(gateway)@ == user_fetched_by_handle(old(gateway)@, twitter_handle@).0,
        plain(data) == user_fetched_by_handle(old(gateway)@, twitter_handle@).1,
{
    let handle = twitter_handle.to_owned();
    match gateway.ask_remote_user(Request::RemoteUserByHandle { handle }) {
        Ok(Some(user)) => match UserData::from_api_user(&user) {
            Ok(data) => Ok(data),
            Err(error) => Err(Halt::Failed(error)),
        },
        Ok(None) => Ok(UserData::empty()),
        Err(halt) => Err(halt),
    }
}

/// The remote author `id`.
pub fn get_user_by_id(gateway: &mut Gateway, id: u64) -> (data: Result<UserData, Halt>)
    ensures
        final(gateway)@ == user_fetched(old(gateway)@, id).0,
        plain(data) == user_fetched(old(gateway)@, id).1,
{
    match gateway.ask_remote_user(Request::RemoteUser { id }) {
        Ok(Some(user)) => {
            if user.id != id {
                return Err(Halt::Failed(ArchiveError::DataError));
            }
            match UserData::from_api_user(&user) {
                Ok(data) => Ok(data),
                Err(error) => Err(Halt::Failed(error)),
            }
        },
        Ok(None) => Ok(UserData::empty()),
        Err(halt) => Err(halt),
    }
}

} // verus!
