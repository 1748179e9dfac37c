//! The operations of the archive: read-through loading, freshness, history
//! and conversations.

use crate::api::{
    get_latest_tweet_from_user, get_new_tweets_from_user, get_tweet_by_id, get_user_by_id,
    get_user_by_twitter_handle, newest_fetched, timeline_fetched, tweet_fetched, user_fetched,
    user_fetched_by_handle,
};
use crate::clock::Timestamp;
use crate::error::ArchiveError;
use crate::gateway::{lifted, lifted_list, plain, Gateway, GatewayView, Halt, HaltView};
use crate::read::{
    latest_read, latest_tweet_from_user, search_read, tweet_by_id, users_tweets, users_tweets_read,
    users_tweets_since_date, users_tweets_since_read,
};
use crate::records::{tweet_read, user_read, user_read_by_handle, user_written};
use crate::seed::{all_tweets, history_seeded};
use crate::utils::{
    reply_target, ConversationData, ConversationDataView, TweetData, TweetDataView, UserData,
};
use crate::write::{id_space, tweet_persisted, tweets_persisted};
use vstd::prelude::*;

verus! {

/// What a read-through does with an author that was fetched: the absent
/// author is not found, any other is written to the store and handed out.
pub open spec fn user_kept(fetched: (GatewayView, Result<UserData, HaltView>)) -> (
    GatewayView,
    Result<UserData, HaltView>,
) {
    match fetched.1 {
        Err(halt) => (fetched.0, Err(halt)),
        Ok(data) => if data.user is None {
            (fetched.0, Err(HaltView::Failed(ArchiveError::NotFound)))
        } else {
            let written = user_written(fetched.0, data);
            (
                written.0,
                match written.1 {
                    Ok(_) => Ok(data),
                    Err(halt) => Err(halt),
                },
            )
        },
    }
}

/// The author `id`: the stored one where there is one, else the remote one,
/// which is stored on the way. No remote author has a negative id.
pub open spec fn user_loaded(
    gateway: GatewayView,
    id: i64,
) -> (GatewayView, Result<UserData, HaltView>) {
    let local = user_read(gateway, id);
    match local.1 {
        Err(halt) => (local.0, Err(halt)),
        Ok(data) => if data.user is Some {
            (local.0, Ok(data))
        } else if id < 0 {
            (local.0, Err(HaltView::Failed(ArchiveError::NotFound)))
        } else {
            user_kept(user_fetched(local.0, id as u64))
        },
    }
}

/// The author with a handle: the stored one where there is one, else the
/// remote one, which is stored on the way.
pub open spec fn user_loaded_by_handle(gateway: GatewayView, handle: Seq<char>) -> (
    GatewayView,
    Result<UserData, HaltView>,
) {
    let local = user_read_by_handle(gateway, handle);
    match local.1 {
        Err(halt) => (local.0, Err(halt)),
        Ok(data) => if data.user is Some {
            (local.0, Ok(data))
        } else {
            user_kept(user_fetched_by_handle(local.0, handle))
        },
    }
}

fn keep_user(
    gateway: &mut Gateway,
    fetched: Result<UserData, Halt>,
) -> (data: Result<UserData, Halt>)
    ensures
        final(gateway)@ == user_kept((old(gateway)@, plain(fetched))).0,
        plain(data) == user_kept((old(gateway)@, plain(fetched))).1,
{
    let data = match fetched {
        Ok(data) => data,
        Err(halt) => {
            return Err(halt);
        },
    };
    if data.user.is_none() {
        return Err(Halt::Failed(ArchiveError::NotFound));
    }
    match data.write(gateway) {
        Ok(_) => Ok(data),
        Err(halt) => Err(halt),
    }
}

/// Loads the author `id` through the store: a stored author is handed out
/// as it is, a missing one is fetched, stored and handed out.
pub fn load_user_from_id(gateway: &mut Gateway, id: i64) -> (data: Result<UserData, Halt>)
    ensures
        final(gateway)@ == user_loaded(old(gateway)@, id).0,
        plain(data) == user_loaded(old(gateway)@, id).1,
{
    let local = match UserData::read(gateway, id) {
        Ok(local) => local,
        Err(halt) => {
            return Err(halt);
        },
    };
    if local.user.is_some() {
        return Ok(local);
    }
    if id < 0 {
        return Err(Halt::Failed(ArchiveError::NotFound));
    }
    let fetched = get_user_by_id(gateway, id as u64);
    keep_user(gateway, fetched)
}

/// Loads the author with this handle through the store.
pub fn load_user_from_twitter_handle(gateway: &mut Gateway, twitter_handle: &str) -> (data: Result<
    UserData,
    Halt,
>)
    ensures
        final(gateway)@ == user_loaded_by_handle(old(gateway)@, twitter_handle@).0,
        plain(data) == user_loaded_by_handle(old(gateway)@, twitter_handle@).1,
{
    let local = match UserData::read_from_twitter_handle(gateway, twitter_handle) {
        Ok(local) => local,
        Err(halt) => {
            return Err(halt);
        },
    };
    if local.user.is_some() {
        return Ok(local);
    }
    let fetched = get_user_by_twitter_handle(gateway, twitter_handle);
    keep_user(gateway, fetched)
}

/// The post `id`: the stored one where there is one, else the remote one,
/// which is written to the store in dependency order and then read back
/// from it. A post that neither side has is not found, and no remote post
/// has a negative id.
#[verifier::opaque]
pub open spec fn tweet_loaded(gateway: GatewayView, id: i64) -> (
    GatewayView,
    Result<TweetDataView, HaltView>,
) {
    let local = tweet_read(gateway, id);
    match local.1 {
        Err(halt) => (local.0, Err(halt)),
        Ok(data) => if data.tweet is Some {
            (local.0, Ok(data))
        } else if id < 0 {
            (local.0, Err(HaltView::Failed(ArchiveError::NotFound)))
        } else {
            let fetched = tweet_fetched(local.0, id as u64);
            match fetched.1 {
                Err(halt) => (fetched.0, Err(halt)),
                Ok(remote) => if remote.tweet is None {
                    (fetched.0, Err(HaltView::Failed(ArchiveError::NotFound)))
                } else {
                    let persisted = tweet_persisted(fetched.0, remote);
                    match persisted.1 {
                        Err(halt) => (persisted.0, Err(halt)),
                        Ok(_) => {
                            let again = tweet_read(persisted.0, id);
                            (
                                again.0,
                                match again.1 {
                                    Err(halt) => Err(halt),
                                    Ok(stored) => if stored.tweet is None {
                                        Err(HaltView::Failed(ArchiveError::DataError))
                                    } else {
                                        Ok(stored)
                                    },
                                },
                            )
                        },
                    }
                },
            }
        },
    }
}

/// The thread above a post, walked along the first `replied_to` edge of
/// each post: `current` is the earliest post so far, `visited` the ids asked
/// for so far, and `thread` the posts so far, earliest first.
///
/// The walk ends at a post that replies to nothing and at a post whose
/// parent cannot be found. It ends in `CycleDetected` where the parent was
/// asked for before; a walk that has asked for every id can only ask for
/// one again.
pub open spec fn thread_walked(
    gateway: GatewayView,
    current: TweetDataView,
    visited: Seq<i64>,
    thread: Seq<TweetDataView>,
) -> (GatewayView, Result<Seq<TweetDataView>, HaltView>)
    decreases id_space() - visited.len(),
{
    match reply_target(current.references) {
        None => (gateway, Ok(thread)),
        Some(parent) => if visited.contains(parent) || visited.len() >= id_space() {
            (gateway, Err(HaltView::Failed(ArchiveError::CycleDetected)))
        } else {
            let loaded = tweet_loaded(gateway, parent);
            match loaded.1 {
                Err(HaltView::Failed(ArchiveError::NotFound)) => (loaded.0, Ok(thread)),
                Err(halt) => (loaded.0, Err(halt)),
                Ok(next) => thread_walked(
                    loaded.0,
                    next,
                    visited.push(parent),
                    thread.insert(0, next),
                ),
            }
        },
    }
}

/// The conversation that ends in the post `id`: the post is loaded through
/// the store, then the thread above it is walked. The conversation carries
/// the root id that the post names.
#[verifier::opaque]
pub open spec fn conversation_loaded(gateway: GatewayView, id: i64) -> (
    GatewayView,
    Result<ConversationDataView, HaltView>,
) {
    let leaf = tweet_loaded(gateway, id);
    match leaf.1 {
        Err(halt) => (leaf.0, Err(halt)),
        Ok(data) => match data.tweet {
            None => (leaf.0, Err(HaltView::Failed(ArchiveError::NotFound))),
            Some(tweet) => {
                let walked = thread_walked(leaf.0, data, seq![id], seq![data]);
                (
                    walked.0,
                    match walked.1 {
                        Err(halt) => Err(halt),
                        Ok(thread) => Ok(
                            ConversationDataView { id: tweet.conversation_id, tweets: thread },
                        ),
                    },
                )
            },
        },
    }
}

/// Loads the post `id` through the store: a stored post is handed out as it
/// is, a missing one is fetched, written in dependency order and read back.
pub fn load_tweet_from_id(gateway: &mut Gateway, id: i64) -> (data: Result<TweetData, Halt>)
    ensures
        final(gateway)@ == tweet_loaded(old(gateway)@, id).0,
        lifted(data) == tweet_loaded(old(gateway)@, id).1,
{
    reveal(tweet_loaded);
    let local = match tweet_by_id(gateway, id) {
        Ok(local) => local,
        Err(halt) => {
            return Err(halt);
        },
    };
    if local.tweet.is_some() {
        return Ok(local);
    }
    if id < 0 {
        return Err(Halt::Failed(ArchiveError::NotFound));
    }
    let remote = match get_tweet_by_id(gateway, id as u64) {
        Ok(remote) => remote,
        Err(halt) => {
            return Err(halt);
        },
    };
    if remote.tweet.is_none() {
        return Err(Halt::Failed(ArchiveError::NotFound));
    }
    match crate::write::tweet(gateway, &remote) {
        Ok(_) => {},
        Err(halt) => {
            return Err(halt);
        },
    }
    match tweet_by_id(gateway, id) {
        Ok(stored) => {
            if stored.tweet.is_none() {
                Err(Halt::Failed(ArchiveError::DataError))
            } else {
                Ok(stored)
            }
        },
        Err(halt) => Err(halt),
    }
}

fn contains_id(visited: &Vec<i64>, id: i64) -> (found: bool)
    ensures
        found == visited@.contains(id),
{
    let mut at: usize = 0;
    while at < visited.len()
        invariant
            at <= visited.len(),
            forall|j: int| 0 <= j < at ==> visited@[j] != id,
        decreases visited.len() - at,
    {
        if visited[at] == id {
            return true;
        }
        at += 1;
    }
    false
}

/// Builds the conversation that ends in the post `tweet_id`, from the root
/// of the thread to that post.
pub fn load_twitter_conversation_from_tweet_id(
    gateway: &mut Gateway,
    tweet_id: i64,
) -> (conversation:
    Result<ConversationData, Halt>)
    ensures
        final(gateway)@ == conversation_loaded(old(gateway)@, tweet_id).0,
        lifted(conversation) == conversation_loaded(old(gateway)@, tweet_id).1,
{
    reveal(conversation_loaded);
    let leaf = match load_tweet_from_id(gateway, tweet_id) {
        Ok(leaf) => leaf,
        Err(halt) => {
            return Err(halt);
        },
    };
    let conversation_id: i64 = match &leaf.tweet {
        None => {
            return Err(Halt::Failed(ArchiveError::NotFound));
        },
        Some(tweet) => tweet.conversation_id,
    };
    let ghost start = gateway@;
    let ghost first = leaf@;
    let mut parent = leaf.replied_to();
    let mut thread: Vec<TweetData> = Vec::new();
    thread.push(leaf);
    let mut visited: Vec<i64> = Vec::new();
    visited.push(tweet_id);
    let ghost mut current = first;
    assert(visited@ =~= seq![tweet_id]);
    assert(thread.deep_view() =~= seq![first]);
    loop
        invariant
            start == tweet_loaded(old(gateway)@, tweet_id).0,
            tweet_loaded(old(gateway)@, tweet_id).1 == Ok::<TweetDataView, HaltView>(first),
            first.tweet is Some,
            first.tweet->0.conversation_id == conversation_id,
            parent == reply_target(current.references),
            thread_walked(start, first, seq![tweet_id], seq![first]) == thread_walked(
                gateway@,
                current,
                visited@,
                thread.deep_view(),
            ),
        decreases usize::MAX - visited.len(),
    {
        reveal(conversation_loaded);
        let target: i64 = match parent {
            None => {
                return Ok(ConversationData { id: conversation_id, tweets: thread });
            },
            Some(target) => target,
        };
        if contains_id(&visited, target) {
            return Err(Halt::Failed(ArchiveError::CycleDetected));
        }
        match load_tweet_from_id(gateway, target) {
            Ok(next) => {
                let ghost so_far = thread.deep_view();
                proof {
                    current = next@;
                }
                parent = next.replied_to();
                visited.push(target);
                thread.insert(0, next);
                assert(thread.deep_view() =~= so_far.insert(0, current));
            },
            Err(Halt::Failed(ArchiveError::NotFound)) => {
                return Ok(ConversationData { id: conversation_id, tweets: thread });
            },
            Err(halt) => {
                return Err(halt);
            },
        }
    }
}

/// The creation time of the newest stored post of the author with a
/// handle. The author is loaded through the store first; an author without
/// stored posts has no such time to be found.
pub open spec fn local_latest_stamp(gateway: GatewayView, handle: Seq<char>) -> (
    GatewayView,
    Result<Timestamp, HaltView>,
) {
    let loaded = user_loaded_by_handle(gateway, handle);
    match loaded.1 {
        Err(halt) => (loaded.0, Err(halt)),
        Ok(data) => match data.user {
            None => (loaded.0, Err(HaltView::Failed(ArchiveError::NotFound))),
            Some(user) => {
                let latest = latest_read(loaded.0, user.id);
                (
                    latest.0,
                    match latest.1 {
                        Err(halt) => Err(halt),
                        Ok(newest) => match newest.tweet {
                            Some(tweet) => Ok(tweet.created_at),
                            None => Err(HaltView::Failed(ArchiveError::NotFound)),
                        },
                    },
                )
            },
        },
    }
}

/// The creation time of the newest remote post of the author with a handle.
/// The author is loaded through the store first; an author without remote
/// posts has no such time to be found.
pub open spec fn remote_latest_stamp(gateway: GatewayView, handle: Seq<char>) -> (
    GatewayView,
    Result<Timestamp, HaltView>,
) {
    let loaded = user_loaded_by_handle(gateway, handle);
    match loaded.1 {
        Err(halt) => (loaded.0, Err(halt)),
        Ok(data) => {
            let newest = newest_fetched(loaded.0, data);
            (
                newest.0,
                match newest.1 {
                    Err(halt) => Err(halt),
                    Ok(newest) => match newest.tweet {
                        Some(tweet) => Ok(tweet.created_at),
                        None => Err(HaltView::Failed(ArchiveError::NotFound)),
                    },
                },
            )
        },
    }
}

/// Whether the newest remote post of the author with a handle is strictly
/// newer than `seconds` after the epoch. The author is loaded through the
/// store first; an author without remote posts has none that is newer.
pub open spec fn remote_newer_than(gateway: GatewayView, handle: Seq<char>, seconds: i64) -> (
    GatewayView,
    Result<bool, HaltView>,
) {
    let loaded = user_loaded_by_handle(gateway, handle);
    match loaded.1 {
        Err(halt) => (loaded.0, Err(halt)),
        Ok(data) => {
            let newest = newest_fetched(loaded.0, data);
            (
                newest.0,
                match newest.1 {
                    Err(HaltView::Failed(ArchiveError::NotFound)) => Ok(false),
                    Err(halt) => Err(halt),
                    Ok(newest) => match newest.tweet {
                        Some(tweet) => Ok(tweet.created_at.seconds > seconds),
                        None => Ok(false),
                    },
                },
            )
        },
    }
}

/// Whether the remote source has a post of the author that is strictly
/// newer than the newest stored one. An author without stored posts has no
/// stored time to be found.
pub open spec fn staleness(gateway: GatewayView, handle: Seq<char>) -> (
    GatewayView,
    Result<bool, HaltView>,
) {
    let local = local_latest_stamp(gateway, handle);
    match local.1 {
        Err(halt) => (local.0, Err(halt)),
        Ok(stored) => remote_newer_than(local.0, handle, stored.seconds),
    }
}

/// The remote posts of the author that are strictly newer than the newest
/// stored one, all of them.
pub open spec fn new_tweets_fetched(gateway: GatewayView, handle: Seq<char>) -> (
    GatewayView,
    Result<Seq<TweetDataView>, HaltView>,
) {
    let loaded = user_loaded_by_handle(gateway, handle);
    match loaded.1 {
        Err(halt) => (loaded.0, Err(halt)),
        Ok(data) => {
            let from = local_latest_stamp(loaded.0, handle);
            match from.1 {
                Err(halt) => (from.0, Err(halt)),
                Ok(stamp) => timeline_fetched(from.0, data, None, Some(stamp), None),
            }
        },
    }
}

/// The new remote posts of the author fetched and written to the store.
pub open spec fn new_tweets_stored(gateway: GatewayView, handle: Seq<char>) -> (
    GatewayView,
    Result<(), HaltView>,
) {
    let fresh = new_tweets_fetched(gateway, handle);
    match fresh.1 {
        Err(halt) => (fresh.0, Err(halt)),
        Ok(list) => tweets_persisted(fresh.0, list),
    }
}

/// The stored posts of the author after the new remote ones are fetched and
/// written.
pub open spec fn backfilled(gateway: GatewayView, handle: Seq<char>) -> (
    GatewayView,
    Result<Seq<TweetDataView>, HaltView>,
) {
    let stored = new_tweets_stored(gateway, handle);
    match stored.1 {
        Err(halt) => (stored.0, Err(halt)),
        Ok(_) => users_tweets_read(stored.0, handle),
    }
}

/// The stored posts of the author created strictly after a date, after the
/// new remote ones are fetched and written.
pub open spec fn tweets_since_loaded(gateway: GatewayView, handle: Seq<char>, date: Seq<char>) -> (
    GatewayView,
    Result<Seq<TweetDataView>, HaltView>,
) {
    let stored = new_tweets_stored(gateway, handle);
    match stored.1 {
        Err(halt) => (stored.0, Err(halt)),
        Ok(_) => users_tweets_since_read(stored.0, handle, date),
    }
}

/// The posts of the author, brought up to date first: an author without
/// stored posts has the whole remote history fetched, one whose stored posts
/// are stale has the new ones fetched, and the stored posts are handed out
/// as they are otherwise.
#[verifier::opaque]
pub open spec fn user_tweets_loaded(gateway: GatewayView, handle: Seq<char>) -> (
    GatewayView,
    Result<Seq<TweetDataView>, HaltView>,
) {
    let local = users_tweets_read(gateway, handle);
    match local.1 {
        Err(halt) => (local.0, Err(halt)),
        Ok(list) => if list.len() == 0 {
            let seeded = history_seeded(local.0, handle);
            match seeded.1 {
                Err(halt) => (seeded.0, Err(halt)),
                Ok(_) => users_tweets_read(seeded.0, handle),
            }
        } else {
            let stale = staleness(local.0, handle);
            match stale.1 {
                Err(halt) => (stale.0, Err(halt)),
                Ok(true) => backfilled(stale.0, handle),
                Ok(false) => (stale.0, Ok(list)),
            }
        },
    }
}

/// The conversations that end in the posts of `list`, built one after the
/// other and added to `built`. A list entry without a post is a data error.
pub open spec fn conversations_loaded(
    gateway: GatewayView,
    list: Seq<TweetDataView>,
    built: Seq<ConversationDataView>,
) -> (GatewayView, Result<Seq<ConversationDataView>, HaltView>)
    decreases list.len(),
{
    if list.len() == 0 {
        (gateway, Ok(built))
    } else {
        match list[0].tweet {
            None => (gateway, Err(HaltView::Failed(ArchiveError::DataError))),
            Some(tweet) => {
                let one = conversation_loaded(gateway, tweet.id);
                match one.1 {
                    Err(halt) => (one.0, Err(halt)),
                    Ok(conversation) => conversations_loaded(
                        one.0,
                        list.drop_first(),
                        built.push(conversation),
                    ),
                }
            },
        }
    }
}

/// The conversations that end in the posts of the author, newest post
/// first.
pub open spec fn user_conversations_loaded(gateway: GatewayView, handle: Seq<char>) -> (
    GatewayView,
    Result<Seq<ConversationDataView>, HaltView>,
) {
    let tweets = user_tweets_loaded(gateway, handle);
    match tweets.1 {
        Err(halt) => (tweets.0, Err(halt)),
        Ok(list) => conversations_loaded(tweets.0, list, Seq::empty()),
    }
}

/// The views of conversations.
pub open spec fn conversation_views(list: Seq<ConversationData>) -> Seq<ConversationDataView> {
    Seq::new(list.len(), |i: int| list[i]@)
}

/// The views of the conversations that an operation returned.
pub open spec fn lifted_conversations(result: Result<Vec<ConversationData>, Halt>) -> Result<
    Seq<ConversationDataView>,
    HaltView,
> {
    match result {
        Ok(list) => Ok(conversation_views(list@)),
        Err(halt) => Err(halt@),
    }
}

/// The creation time of the newest stored post of the author with this
/// handle.
pub fn load_offset_datetime_for_users_latest_tweet_in_database(
    gateway: &mut Gateway,
    twitter_handle: &str,
) -> (stamp: Result<Timestamp, Halt>)
    ensures
        final(gateway)@ == local_latest_stamp(old(gateway)@, twitter_handle@).0,
        plain(stamp) == local_latest_stamp(old(gateway)@, twitter_handle@).1,
{
    let loaded = match load_user_from_twitter_handle(gateway, twitter_handle) {
        Ok(loaded) => loaded,
        Err(halt) => {
            return Err(halt);
        },
    };
    let id: i64 = match &loaded.user {
        None => {
            return Err(Halt::Failed(ArchiveError::NotFound));
        },
        Some(user) => user.id,
    };
    match latest_tweet_from_user(gateway, id) {
        Ok(newest) => match newest.tweet {
            Some(tweet) => Ok(tweet.created_at),
            None => Err(Halt::Failed(ArchiveError::NotFound)),
        },
        Err(halt) => Err(halt),
    }
}

/// The creation time of the newest remote post of the author with this
/// handle.
pub fn load_offset_datetime_for_users_latest_tweet(
    gateway: &mut Gateway,
    twitter_handle: &str,
) -> (stamp:
    Result<Timestamp, Halt>)
    ensures
        final(gateway)@ == remote_latest_stamp(old(gateway)@, twitter_handle@).0,
        plain(stamp) == remote_latest_stamp(old(gateway)@, twitter_handle@).1,
{
    let loaded = match load_user_from_twitter_handle(gateway, twitter_handle) {
        Ok(loaded) => loaded,
        Err(halt) => {
            return Err(halt);
        },
    };
    match get_latest_tweet_from_user(gateway, &loaded) {
        Ok(newest) => match newest.tweet {
            Some(tweet) => Ok(tweet.created_at),
            None => Err(Halt::Failed(ArchiveError::NotFound)),
        },
        Err(halt) => Err(halt),
    }
}

fn is_remote_newer_than(
    gateway: &mut Gateway,
    twitter_handle: &str,
    seconds: i64,
) -> (newer: Result<
    bool,
    Halt,
>)
    ensures
        final(gateway)@ == remote_newer_than(old(gateway)@, twitter_handle@, seconds).0,
        plain(newer) == remote_newer_than(old(gateway)@, twitter_handle@, seconds).1,
{
    let loaded = match load_user_from_twitter_handle(gateway, twitter_handle) {
        Ok(loaded) => loaded,
        Err(halt) => {
            return Err(halt);
        },
    };
    match get_latest_tweet_from_user(gateway, &loaded) {
        Ok(newest) => match newest.tweet {
            Some(tweet) => Ok(tweet.created_at.seconds > seconds),
            None => Ok(false),
        },
        Err(Halt::Failed(ArchiveError::NotFound)) => Ok(false),
        Err(halt) => Err(halt),
    }
}

/// Whether the stored posts of the author are stale: whether the newest
/// remote post is strictly newer than the newest stored one.
pub fn has_new_tweets(gateway: &mut Gateway, twitter_handle: &str) -> (stale: Result<bool, Halt>)
    ensures
        final(gateway)@ == staleness(old(gateway)@, twitter_handle@).0,
        plain(stale) == staleness(old(gateway)@, twitter_handle@).1,
{
    let stored = match load_offset_datetime_for_users_latest_tweet_in_database(
        gateway,
        twitter_handle,
    ) {
        Ok(stored) => stored,
        Err(halt) => {
            return Err(halt);
        },
    };
    is_remote_newer_than(gateway, twitter_handle, stored.seconds)
}

/// Whether the author has posted strictly after `date_unix_timestamp`.
pub fn has_user_tweeted_since_date(
    gateway: &mut Gateway,
    twitter_handle: &str,
    date_unix_timestamp: i64,
) -> (posted: Result<bool, Halt>)
    ensures
        final(gateway)@ == remote_newer_than(old(gateway)@, twitter_handle@, date_unix_timestamp).0,
        plain(posted) == remote_newer_than(old(gateway)@, twitter_handle@, date_unix_timestamp).1,
{
    is_remote_newer_than(gateway, twitter_handle, date_unix_timestamp)
}

/// The remote posts of the author that are strictly newer than the newest
/// stored one.
pub fn load_users_new_tweets(gateway: &mut Gateway, twitter_handle: &str) -> (tweets: Result<
    Vec<TweetData>,
    Halt,
>)
    ensures
        final(gateway)@ == new_tweets_fetched(old(gateway)@, twitter_handle@).0,
        lifted_list(tweets) == new_tweets_fetched(old(gateway)@, twitter_handle@).1,
{
    let loaded = match load_user_from_twitter_handle(gateway, twitter_handle) {
        Ok(loaded) => loaded,
        Err(halt) => {
            return Err(halt);
        },
    };
    let from = match load_offset_datetime_for_users_latest_tweet_in_database(
        gateway,
        twitter_handle,
    ) {
        Ok(from) => from,
        Err(halt) => {
            return Err(halt);
        },
    };
    get_new_tweets_from_user(gateway, &loaded, &from)
}

fn store_new_tweets(gateway: &mut Gateway, twitter_handle: &str) -> (done: Result<(), Halt>)
    ensures
        final(gateway)@ == new_tweets_stored(old(gateway)@, twitter_handle@).0,
        plain(done) == new_tweets_stored(old(gateway)@, twitter_handle@).1,
{
    match load_users_new_tweets(gateway, twitter_handle) {
        Ok(fresh) => crate::write::tweets(gateway, &fresh),
        Err(halt) => Err(halt),
    }
}

/// Fetches the remote posts of the author that are newer than the stored
/// ones, writes them, and hands out all stored posts of the author.
pub fn backfill(
    gateway: &mut Gateway,
    twitter_handle: &str,
) -> (tweets: Result<Vec<TweetData>, Halt>)
    ensures
        final(gateway)@ == backfilled(old(gateway)@, twitter_handle@).0,
        lifted_list(tweets) == backfilled(old(gateway)@, twitter_handle@).1,
{
    match store_new_tweets(gateway, twitter_handle) {
        Ok(_) => users_tweets(gateway, twitter_handle),
        Err(halt) => Err(halt),
    }
}

/// The stored posts of the author created strictly after `rfc3339_date`,
/// after the new remote ones are fetched and written.
pub fn load_users_tweets_since_date(
    gateway: &mut Gateway,
    twitter_handle: &str,
    rfc3339_date: &str,
) -> (tweets:
    Result<Vec<TweetData>, Halt>)
    ensures
        final(gateway)@ == tweets_since_loaded(old(gateway)@, twitter_handle@, rfc3339_date@).0,
        lifted_list(tweets) == tweets_since_loaded(old(gateway)@, twitter_handle@, rfc3339_date@).1,
{
    match store_new_tweets(gateway, twitter_handle) {
        Ok(_) => users_tweets_since_date(gateway, twitter_handle, rfc3339_date),
        Err(halt) => Err(halt),
    }
}

/// The posts of the author with this handle, brought up to date first.
pub fn load_user_tweets_from_twitter_handle(gateway: &mut Gateway, twitter_handle: &str) -> (tweets:
    Result<Vec<TweetData>, Halt>)
    ensures
        final(gateway)@ == user_tweets_loaded(old(gateway)@, twitter_handle@).0,
        lifted_list(tweets) == user_tweets_loaded(old(gateway)@, twitter_handle@).1,
{
    reveal(user_tweets_loaded);
    let local = match users_tweets(gateway, twitter_handle) {
        Ok(local) => local,
        Err(halt) => {
            return Err(halt);
        },
    };
    if local.len() == 0 {
        match all_tweets(gateway, twitter_handle) {
            Ok(_) => users_tweets(gateway, twitter_handle),
            Err(halt) => Err(halt),
        }
    } else {
        match has_new_tweets(gateway, twitter_handle) {
            Ok(true) => backfill(gateway, twitter_handle),
            Ok(false) => Ok(local),
            Err(halt) => Err(halt),
        }
    }
}

/// The conversations that end in the posts of the author with this handle.
pub fn load_user_conversations_from_twitter_handle(
    gateway: &mut Gateway,
    twitter_handle: &str,
) -> (conversations:
    Result<Vec<ConversationData>, Halt>)
    ensures
        final(gateway)@ == user_conversations_loaded(old(gateway)@, twitter_handle@).0,
        lifted_conversations(conversations) == user_conversations_loaded(
            old(gateway)@,
            twitter_handle@,
        ).1,
{
    let list = match load_user_tweets_from_twitter_handle(gateway, twitter_handle) {
        Ok(list) => list,
        Err(halt) => {
            return Err(halt);
        },
    };
    let ghost start = gateway@;
    let ghost all = list.deep_view();
    let mut output: Vec<ConversationData> = Vec::new();
    let mut at: usize = 0;
    assert(all.skip(0) == all);
    assert(conversation_views(output@) =~= Seq::<ConversationDataView>::empty());
    while at < list.len()
        invariant
            at <= list.len(),
            all == list.deep_view(),
            start == user_tweets_loaded(old(gateway)@, twitter_handle@).0,
            user_tweets_loaded(old(gateway)@, twitter_handle@).1 == Ok::<
                Seq<TweetDataView>,
                HaltView,
            >(all),
            conversations_loaded(start, all, Seq::empty()) == conversations_loaded(
                gateway@,
                all.skip(at as int),
                conversation_views(output@),
            ),
        decreases list.len() - at,
    {
        let ghost rest = all.skip(at as int);
        let ghost built = conversation_views(output@);
        assert(rest[0] == list@[at as int]@);
        assert(rest.drop_first() == all.skip(at + 1));
        let id: i64 = match &list[at].tweet {
            None => {
                return Err(Halt::Failed(ArchiveError::DataError));
            },
            Some(tweet) => tweet.id,
        };
        match load_twitter_conversation_from_tweet_id(gateway, id) {
            Ok(conversation) => {
                let ghost one = conversation@;
                output.push(conversation);
                assert(conversation_views(output@) =~= built.push(one));
            },
            Err(halt) => {
                return Err(halt);
            },
        }
        at += 1;
    }
    Ok(output)
}

/// The stored posts whose body contains `search_query`, newest first.
pub fn search_tweets_in_db(gateway: &mut Gateway, search_query: &str) -> (tweets: Result<
    Vec<TweetData>,
    Halt,
>)
    ensures
        final(gateway)@ == search_read(old(gateway)@, search_query@).0,
        lifted_list(tweets) == search_read(old(gateway)@, search_query@).1,
{
    crate::read::search_tweets_in_db(gateway, search_query)
}

} // verus!
