//! Single questions to the store and to the remote source.

use crate::agreement::{
    agrees, answered_since, asked_since, lemma_asked_remote_replayed, lemma_asked_replayed,
    lemma_nothing_asked, lemma_step, replay, replayed,
};
use crate::api::{
    newest_fetched, timeline_fetched, tweet_fetched, user_fetched, user_fetched_by_handle,
};
use crate::clock::Timestamp;
use crate::gateway::{asked_remote, GatewayView};
use crate::laws::{
    direct, lemma_asked, lemma_asked_remote, lemma_steady_reflexive, lemma_timeline_fetched,
    world_of,
};
use crate::protocol::{RequestView, ResponseView, Timeline};
use crate::read::{
    conversation_known, latest_read, search_read, tweet_known, tweets_read_all, users_read_all,
};
use crate::records::{tweet_read, user_read, user_read_by_handle};
use crate::utils::UserData;
use vstd::prelude::*;

verus! {

/// Reading an author replays.
pub proof fn lemma_user_read_replayed(
    gateway: GatewayView,
    id: i64,
    script: Seq<ResponseView>,
    next: nat,
)
    requires
        direct(gateway),
        agrees(script, next, answered_since(world_of(gateway), world_of(user_read(gateway, id).0))),
    ensures
        user_read(replay(gateway.settings, script, next), id) == replayed(
            gateway.settings,
            script,
            next,
            asked_since(world_of(gateway), world_of(user_read(gateway, id).0)),
            answered_since(world_of(gateway), world_of(user_read(gateway, id).0)),
            user_read(gateway, id).1,
        ),
{
    let request = RequestView::FindUser { id };
    lemma_asked(gateway, request);
    lemma_asked_replayed(gateway, request, script, next);
}

/// Reading an author by handle replays.
pub proof fn lemma_user_read_by_handle_replayed(
    gateway: GatewayView,
    handle: Seq<char>,
    script: Seq<ResponseView>,
    next: nat,
)
    requires
        direct(gateway),
        agrees(
            script,
            next,
            answered_since(world_of(gateway), world_of(user_read_by_handle(gateway, handle).0)),
        ),
    ensures
        user_read_by_handle(replay(gateway.settings, script, next), handle) == replayed(
            gateway.settings,
            script,
            next,
            asked_since(world_of(gateway), world_of(user_read_by_handle(gateway, handle).0)),
            answered_since(world_of(gateway), world_of(user_read_by_handle(gateway, handle).0)),
            user_read_by_handle(gateway, handle).1,
        ),
{
    let request = RequestView::FindUserByHandle { handle };
    lemma_asked(gateway, request);
    lemma_asked_replayed(gateway, request, script, next);
}

/// Reading a post replays.
pub proof fn lemma_tweet_read_replayed(
    gateway: GatewayView,
    id: i64,
    script: Seq<ResponseView>,
    next: nat,
)
    requires
        direct(gateway),
        agrees(
            script,
            next,
            answered_since(world_of(gateway), world_of(tweet_read(gateway, id).0)),
        ),
    ensures
        tweet_read(replay(gateway.settings, script, next), id) == replayed(
            gateway.settings,
            script,
            next,
            asked_since(world_of(gateway), world_of(tweet_read(gateway, id).0)),
            answered_since(world_of(gateway), world_of(tweet_read(gateway, id).0)),
            tweet_read(gateway, id).1,
        ),
{
    let request = RequestView::FindTweet { id };
    lemma_asked(gateway, request);
    lemma_asked_replayed(gateway, request, script, next);
}

/// Asking for a conversation root marker replays.
pub proof fn lemma_conversation_known_replayed(
    gateway: GatewayView,
    id: i64,
    script: Seq<ResponseView>,
    next: nat,
)
    requires
        direct(gateway),
        agrees(
            script,
            next,
            answered_since(world_of(gateway), world_of(conversation_known(gateway, id).0)),
        ),
    ensures
        conversation_known(replay(gateway.settings, script, next), id) == replayed(
            gateway.settings,
            script,
            next,
            asked_since(world_of(gateway), world_of(conversation_known(gateway, id).0)),
            answered_since(world_of(gateway), world_of(conversation_known(gateway, id).0)),
            conversation_known(gateway, id).1,
        ),
{
    let request = RequestView::ConversationExists { id };
    lemma_asked(gateway, request);
    lemma_asked_replayed(gateway, request, script, next);
}

/// Asking whether a post is stored replays.
pub proof fn lemma_tweet_known_replayed(
    gateway: GatewayView,
    id: i64,
    script: Seq<ResponseView>,
    next: nat,
)
    requires
        direct(gateway),
        agrees(
            script,
            next,
            answered_since(world_of(gateway), world_of(tweet_known(gateway, id).0)),
        ),
    ensures
        tweet_known(replay(gateway.settings, script, next), id) == replayed(
            gateway.settings,
            script,
            next,
            asked_since(world_of(gateway), world_of(tweet_known(gateway, id).0)),
            answered_since(world_of(gateway), world_of(tweet_known(gateway, id).0)),
            tweet_known(gateway, id).1,
        ),
{
    let request = RequestView::TweetExists { id };
    lemma_asked(gateway, request);
    lemma_asked_replayed(gateway, request, script, next);
}

/// Reading the newest post of an author replays.
pub proof fn lemma_latest_read_replayed(
    gateway: GatewayView,
    author: i64,
    script: Seq<ResponseView>,
    next: nat,
)
    requires
        direct(gateway),
        agrees(
            script,
            next,
            answered_since(world_of(gateway), world_of(latest_read(gateway, author).0)),
        ),
    ensures
        latest_read(replay(gateway.settings, script, next), author) == replayed(
            gateway.settings,
            script,
            next,
            asked_since(world_of(gateway), world_of(latest_read(gateway, author).0)),
            answered_since(world_of(gateway), world_of(latest_read(gateway, author).0)),
            latest_read(gateway, author).1,
        ),
{
    let request = RequestView::LatestTweet { author_id: author };
    lemma_asked(gateway, request);
    lemma_asked_replayed(gateway, request, script, next);
}

/// A search replays.
pub proof fn lemma_search_read_replayed(
    gateway: GatewayView,
    query: Seq<char>,
    script: Seq<ResponseView>,
    next: nat,
)
    requires
        direct(gateway),
        agrees(
            script,
            next,
            answered_since(world_of(gateway), world_of(search_read(gateway, query).0)),
        ),
    ensures
        search_read(replay(gateway.settings, script, next), query) == replayed(
            gateway.settings,
            script,
            next,
            asked_since(world_of(gateway), world_of(search_read(gateway, query).0)),
            answered_since(world_of(gateway), world_of(search_read(gateway, query).0)),
            search_read(gateway, query).1,
        ),
{
    let request = RequestView::SearchTweets { query };
    lemma_asked(gateway, request);
    lemma_asked_replayed(gateway, request, script, next);
}

/// Listing the stored posts replays.
pub proof fn lemma_tweets_read_all_replayed(
    gateway: GatewayView,
    script: Seq<ResponseView>,
    next: nat,
)
    requires
        direct(gateway),
        agrees(
            script,
            next,
            answered_since(world_of(gateway), world_of(tweets_read_all(gateway).0)),
        ),
    ensures
        tweets_read_all(replay(gateway.settings, script, next)) == replayed(
            gateway.settings,
            script,
            next,
            asked_since(world_of(gateway), world_of(tweets_read_all(gateway).0)),
            answered_since(world_of(gateway), world_of(tweets_read_all(gateway).0)),
            tweets_read_all(gateway).1,
        ),
{
    let request = RequestView::AllTweets;
    lemma_asked(gateway, request);
    lemma_asked_replayed(gateway, request, script, next);
}

/// Listing the stored authors replays.
pub proof fn lemma_users_read_all_replayed(
    gateway: GatewayView,
    script: Seq<ResponseView>,
    next: nat,
)
    requires
        direct(gateway),
        agrees(
            script,
            next,
            answered_since(world_of(gateway), world_of(users_read_all(gateway).0)),
        ),
    ensures
        users_read_all(replay(gateway.settings, script, next)) == replayed(
            gateway.settings,
            script,
            next,
            asked_since(world_of(gateway), world_of(users_read_all(gateway).0)),
            answered_since(world_of(gateway), world_of(users_read_all(gateway).0)),
            users_read_all(gateway).1,
        ),
{
    let request = RequestView::AllUsers;
    lemma_asked(gateway, request);
    lemma_asked_replayed(gateway, request, script, next);
}

/// Fetching an author replays.
pub proof fn lemma_user_fetched_replayed(
    gateway: GatewayView,
    id: u64,
    script: Seq<ResponseView>,
    next: nat,
)
    requires
        direct(gateway),
        agrees(
            script,
            next,
            answered_since(world_of(gateway), world_of(user_fetched(gateway, id).0)),
        ),
    ensures
        user_fetched(replay(gateway.settings, script, next), id) == replayed(
            gateway.settings,
            script,
            next,
            asked_since(world_of(gateway), world_of(user_fetched(gateway, id).0)),
            answered_since(world_of(gateway), world_of(user_fetched(gateway, id).0)),
            user_fetched(gateway, id).1,
        ),
{
    let request = RequestView::RemoteUser { id };
    lemma_asked_remote(gateway, request);
    lemma_asked_remote_replayed(gateway, request, script, next);
}

/// Fetching an author by handle replays.
pub proof fn lemma_user_fetched_by_handle_replayed(
    gateway: GatewayView,
    handle: Seq<char>,
    script: Seq<ResponseView>,
    next: nat,
)
    requires
        direct(gateway),
        agrees(
            script,
            next,
            answered_since(world_of(gateway), world_of(user_fetched_by_handle(gateway, handle).0)),
        ),
    ensures
        user_fetched_by_handle(replay(gateway.settings, script, next), handle) == replayed(
            gateway.settings,
            script,
            next,
            asked_since(world_of(gateway), world_of(user_fetched_by_handle(gateway, handle).0)),
            answered_since(world_of(gateway), world_of(user_fetched_by_handle(gateway, handle).0)),
            user_fetched_by_handle(gateway, handle).1,
        ),
{
    let request = RequestView::RemoteUserByHandle { handle };
    lemma_asked_remote(gateway, request);
    lemma_asked_remote_replayed(gateway, request, script, next);
}

/// Fetching a post replays.
pub proof fn lemma_tweet_fetched_replayed(
    gateway: GatewayView,
    id: u64,
    script: Seq<ResponseView>,
    next: nat,
)
    requires
        direct(gateway),
        agrees(
            script,
            next,
            answered_since(world_of(gateway), world_of(tweet_fetched(gateway, id).0)),
        ),
    ensures
        tweet_fetched(replay(gateway.settings, script, next), id) == replayed(
            gateway.settings,
            script,
            next,
            asked_since(world_of(gateway), world_of(tweet_fetched(gateway, id).0)),
            answered_since(world_of(gateway), world_of(tweet_fetched(gateway, id).0)),
            tweet_fetched(gateway, id).1,
        ),
{
    let request = RequestView::RemoteTweet { id };
    lemma_asked_remote(gateway, request);
    lemma_asked_remote_replayed(gateway, request, script, next);
}

/// Fetching some of the posts of an author replays.
pub proof fn lemma_timeline_fetched_replayed(
    gateway: GatewayView,
    user: UserData,
    max_results: Option<u32>,
    start_time: Option<Timestamp>,
    until_id: Option<u64>,
    script: Seq<ResponseView>,
    next: nat,
)
    requires
        direct(gateway),
        agrees(
            script,
            next,
            answered_since(
                world_of(gateway),
                world_of(timeline_fetched(gateway, user, max_results, start_time, until_id).0),
            ),
        ),
    ensures
        timeline_fetched(
            replay(gateway.settings, script, next),
            user,
            max_results,
            start_time,
            until_id,
        ) == replayed(
            gateway.settings,
            script,
            next,
            asked_since(
                world_of(gateway),
                world_of(timeline_fetched(gateway, user, max_results, start_time, until_id).0),
            ),
            answered_since(
                world_of(gateway),
                world_of(timeline_fetched(gateway, user, max_results, start_time, until_id).0),
            ),
            timeline_fetched(gateway, user, max_results, start_time, until_id).1,
        ),
{
    if user.user is None || user.user->0.id < 0 {
        lemma_nothing_asked(gateway, script, next);
    } else {
        let settings = gateway.settings;
        let end = timeline_fetched(gateway, user, max_results, start_time, until_id);
        let request = RequestView::RemoteTimeline {
            query: Timeline { user_id: user.user->0.id as u64, max_results, start_time, until_id },
        };
        let reply = asked_remote(gateway, request);
        let after_reply = reply.0;
        lemma_asked_remote(gateway, request);
        assert(end.0 == after_reply);
        lemma_steady_reflexive(after_reply);
        lemma_step(settings, script, next, gateway, after_reply, after_reply, end.1);
        lemma_asked_remote_replayed(gateway, request, script, next);
    }
}

/// Fetching the newest post of an author replays.
pub proof fn lemma_newest_fetched_replayed(
    gateway: GatewayView,
    user: UserData,
    script: Seq<ResponseView>,
    next: nat,
)
    requires
        direct(gateway),
        agrees(
            script,
            next,
            answered_since(world_of(gateway), world_of(newest_fetched(gateway, user).0)),
        ),
    ensures
        newest_fetched(replay(gateway.settings, script, next), user) == replayed(
            gateway.settings,
            script,
            next,
            asked_since(world_of(gateway), world_of(newest_fetched(gateway, user).0)),
            answered_since(world_of(gateway), world_of(newest_fetched(gateway, user).0)),
            newest_fetched(gateway, user).1,
        ),
{
    let settings = gateway.settings;
    let end = newest_fetched(gateway, user);
    let recent = timeline_fetched(gateway, user, Some(gateway.settings.recent_count), None, None);
    let after_recent = recent.0;
    lemma_timeline_fetched(gateway, user, Some(gateway.settings.recent_count), None, None);
    assert(end.0 == after_recent);
    lemma_steady_reflexive(after_recent);
    lemma_step(settings, script, next, gateway, after_recent, after_recent, end.1);
    lemma_timeline_fetched_replayed(
        gateway,
        user,
        Some(gateway.settings.recent_count),
        None,
        None,
        script,
        next,
    );
}

} // verus!
