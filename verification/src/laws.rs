//! What the operations of the archive keep true of a world that they work
//! on directly.

use crate::api::{
    decoded_timeline, newest_fetched, timeline_fetched, tweet_fetched, user_fetched,
    user_fetched_by_handle,
};
use crate::archive::{
    backfilled, conversation_loaded, conversations_loaded, local_latest_stamp, new_tweets_fetched,
    new_tweets_stored, remote_latest_stamp, remote_newer_than, staleness, thread_walked,
    tweet_loaded, tweets_since_loaded, user_conversations_loaded, user_loaded,
    user_loaded_by_handle, user_tweets_loaded,
};
use crate::clock::Timestamp;
use crate::entities::tweets;
use crate::entities::user;
use crate::error::ArchiveError;
use crate::gateway::{asked, asked_remote, GatewayView, HaltView};
use crate::invariants::{
    anchored, faithful, grown, lemma_answer, lemma_answer_stores, lemma_grown_keeps_anchored,
    lemma_grown_reflexive, lemma_grown_transitive, lemma_kept_newest_first, lemma_remote_post_found,
    mirrored, mirrors, newest_first, orderly, referential, remote_born, remote_post, stored_post,
    stored_user, stored_user_by_handle, well_formed,
};
use crate::protocol::{RequestView, ResponseView, Timeline};
use crate::read::{
    conversation_known, latest_read, search_read, tweet_known, users_tweets_read,
    users_tweets_since_read,
};
use crate::records::{edges_written, tweet_read, user_read, user_read_by_handle, user_written};
use crate::seed::{history_fetched, history_seeded};
use crate::session::{performed, OperationView};
use crate::tables::{kept, lemma_first_match, lemma_kept_contains};
use crate::text::is_substring;
use crate::utils::{decoded_tweet, TweetDataView, TweetReferenceData, UserData};
use crate::utils::ConversationDataView;
use crate::world::{
    answer, entry, in_timeline, noted, remote_tweet_with_id, selects, stored_tweet, timeline,
    Selection, WorldView,
};
use crate::write::{
    ancestors_persisted, chain_edges_written, conversation_written, id_space, row_persisted,
    tweet_persisted, tweets_persisted,
};
use vstd::prelude::*;

verus! {

/// Whether a gateway answers from a world.
pub open spec fn direct(gateway: GatewayView) -> bool {
    gateway.source is Direct
}

/// The world that a direct gateway answers from.
pub open spec fn world_of(gateway: GatewayView) -> WorldView {
    gateway.source->world
}

/// What every operation of the archive keeps of a direct gateway: the gateway
/// stays direct under the same settings, rows are only added to its world,
/// the tables keep their order, and every stored post keeps its author and
/// its conversation root marker in the store.
pub open spec fn steady(before: GatewayView, after: GatewayView) -> bool {
    &&& direct(after)
    &&& after.settings == before.settings
    &&& grown(world_of(before), world_of(after))
    &&& well_formed(world_of(before)) ==> well_formed(world_of(after))
    &&& referential(world_of(before)) ==> referential(world_of(after))
}

/// Whether the store still agrees with the remote snapshot if it did.
pub open spec fn loyal(before: GatewayView, after: GatewayView) -> bool {
    mirrors(world_of(before)) ==> mirrors(world_of(after))
}

/// Whether an operation ran to its end: whether it did not stop for an
/// answer.
pub open spec fn finished<T>(result: Result<T, HaltView>) -> bool {
    !(result matches Err(HaltView::Suspended(_)))
}

/// Doing nothing keeps everything.
pub proof fn lemma_steady_reflexive(gateway: GatewayView)
    requires
        direct(gateway),
    ensures
        steady(gateway, gateway),
        loyal(gateway, gateway),
{
    lemma_grown_reflexive(world_of(gateway));
}

/// What two operations keep one after the other is kept.
pub proof fn lemma_steady_transitive(first: GatewayView, second: GatewayView, third: GatewayView)
    requires
        steady(first, second),
        steady(second, third),
    ensures
        steady(first, third),
        loyal(first, second) && loyal(second, third) ==> loyal(first, third),
{
    lemma_grown_transitive(world_of(first), world_of(second), world_of(third));
}

/// A direct gateway answers every request from its world.
pub proof fn lemma_asked(gateway: GatewayView, request: RequestView)
    requires
        direct(gateway),
    ensures
        direct(asked(gateway, request).0),
        asked(gateway, request).0.settings == gateway.settings,
        world_of(asked(gateway, request).0) == answer(world_of(gateway), request).0,
        asked(gateway, request).1 == Ok::<ResponseView, HaltView>(
            answer(world_of(gateway), request).1,
        ),
        orderly(world_of(gateway), request) ==> steady(gateway, asked(gateway, request).0),
        faithful(world_of(gateway), request) ==> loyal(gateway, asked(gateway, request).0),
{
    reveal(asked);
    lemma_answer(world_of(gateway), request);
}

/// A direct gateway answers a request to the remote source at once: its world
/// is never rate limited.
pub proof fn lemma_asked_remote(gateway: GatewayView, request: RequestView)
    requires
        direct(gateway),
        request is RemoteTweet || request is RemoteUser || request is RemoteUserByHandle
            || request is RemoteTimeline,
    ensures
        world_of(asked_remote(gateway, request).0).tweets == world_of(gateway).tweets,
        asked_remote(gateway, request) == asked(gateway, request),
        steady(gateway, asked_remote(gateway, request).0),
        loyal(gateway, asked_remote(gateway, request).0),
        world_of(asked_remote(gateway, request).0) == answer(world_of(gateway), request).0,
        asked_remote(gateway, request).1 == Ok::<ResponseView, HaltView>(
            answer(world_of(gateway), request).1,
        ),
{
    lemma_asked(gateway, request);
}

/// Reading an author changes no table and finds the stored author.
pub proof fn lemma_user_read(gateway: GatewayView, id: i64)
    requires
        direct(gateway),
    ensures
        world_of(user_read(gateway, id).0).tweets == world_of(gateway).tweets,
        steady(gateway, user_read(gateway, id).0),
        loyal(gateway, user_read(gateway, id).0),
        user_read(gateway, id).1 == Ok::<UserData, HaltView>(
            UserData { user: stored_user(world_of(gateway), id) },
        ),
{
    lemma_asked(gateway, RequestView::FindUser { id });
}

/// Reading an author by handle changes no table and finds the stored author.
pub proof fn lemma_user_read_by_handle(gateway: GatewayView, handle: Seq<char>)
    requires
        direct(gateway),
    ensures
        world_of(user_read_by_handle(gateway, handle).0).tweets == world_of(gateway).tweets,
        steady(gateway, user_read_by_handle(gateway, handle).0),
        loyal(gateway, user_read_by_handle(gateway, handle).0),
        user_read_by_handle(gateway, handle).1 == Ok::<UserData, HaltView>(
            UserData { user: stored_user_by_handle(world_of(gateway), handle) },
        ),
        world_of(user_read_by_handle(gateway, handle).0) == noted(
            world_of(gateway),
            RequestView::FindUserByHandle { handle },
        ),
{
    lemma_asked(gateway, RequestView::FindUserByHandle { handle });
}

/// Writing an author leaves the author in the store.
pub proof fn lemma_user_written(gateway: GatewayView, data: UserData)
    requires
        direct(gateway),
    ensures
        world_of(user_written(gateway, data).0).tweets == world_of(gateway).tweets,
        steady(gateway, user_written(gateway, data).0),
        loyal(gateway, user_written(gateway, data).0),
        user_written(gateway, data).1 == Ok::<(), HaltView>(()),
        data.user matches Some(user) ==> stored_user(
            world_of(user_written(gateway, data).0),
            user.id,
        ) is Some,
{
    match data.user {
        Some(user) => {
            lemma_asked(gateway, RequestView::InsertUser { user });
            lemma_answer_stores(world_of(gateway), RequestView::InsertUser { user });
        },
        None => {
            lemma_steady_reflexive(gateway);
        },
    }
}

/// An author that was loaded through the store is in the store, under the
/// id that was asked for.
pub proof fn lemma_user_loaded(gateway: GatewayView, id: i64)
    requires
        direct(gateway),
    ensures
        world_of(user_loaded(gateway, id).0).tweets == world_of(gateway).tweets,
        steady(gateway, user_loaded(gateway, id).0),
        loyal(gateway, user_loaded(gateway, id).0),
        finished(user_loaded(gateway, id).1),
        user_loaded(gateway, id).1 is Ok ==> stored_user(world_of(user_loaded(gateway, id).0), id)
            is Some,
{
    lemma_user_read(gateway, id);
    let local = user_read(gateway, id);
    if stored_user(world_of(gateway), id) is Some {
        assert(stored_user(world_of(local.0), id) is Some);
    } else if id >= 0 {
        let request = RequestView::RemoteUser { id: id as u64 };
        lemma_asked_remote(local.0, request);
        let fetched = user_fetched(local.0, id as u64);
        lemma_steady_transitive(gateway, local.0, fetched.0);
        if fetched.1 is Ok {
            let data = fetched.1->Ok_0;
            if data.user is Some {
                lemma_user_written(fetched.0, data);
                lemma_steady_transitive(gateway, fetched.0, user_written(fetched.0, data).0);
            }
        }
    }
}

/// An author that was loaded by handle through the store is an author.
pub proof fn lemma_user_loaded_by_handle(gateway: GatewayView, handle: Seq<char>)
    requires
        direct(gateway),
    ensures
        world_of(user_loaded_by_handle(gateway, handle).0).tweets == world_of(gateway).tweets,
        steady(gateway, user_loaded_by_handle(gateway, handle).0),
        loyal(gateway, user_loaded_by_handle(gateway, handle).0),
        finished(user_loaded_by_handle(gateway, handle).1),
        user_loaded_by_handle(gateway, handle).1 matches Ok(data) ==> data.user is Some,
        stored_user_by_handle(world_of(gateway), handle) is Some ==> user_loaded_by_handle(
            gateway,
            handle,
        ).1 == Ok::<UserData, HaltView>(
            UserData { user: stored_user_by_handle(world_of(gateway), handle) },
        ) && world_of(user_loaded_by_handle(gateway, handle).0) == noted(
            world_of(gateway),
            RequestView::FindUserByHandle { handle },
        ),
{
    lemma_user_read_by_handle(gateway, handle);
    let local = user_read_by_handle(gateway, handle);
    if stored_user_by_handle(world_of(gateway), handle) is None {
        let request = RequestView::RemoteUserByHandle { handle };
        lemma_asked_remote(local.0, request);
        let fetched = user_fetched_by_handle(local.0, handle);
        lemma_steady_transitive(gateway, local.0, fetched.0);
        if fetched.1 is Ok {
            let data = fetched.1->Ok_0;
            if data.user is Some {
                lemma_user_written(fetched.0, data);
                lemma_steady_transitive(gateway, fetched.0, user_written(fetched.0, data).0);
            }
        }
    }
}

/// Fetching an author changes no table.
pub proof fn lemma_user_fetched(gateway: GatewayView, id: u64)
    requires
        direct(gateway),
    ensures
        steady(gateway, user_fetched(gateway, id).0),
        loyal(gateway, user_fetched(gateway, id).0),
        finished(user_fetched(gateway, id).1),
{
    lemma_asked_remote(gateway, RequestView::RemoteUser { id });
}

/// Fetching an author by handle changes no table.
pub proof fn lemma_user_fetched_by_handle(gateway: GatewayView, handle: Seq<char>)
    requires
        direct(gateway),
    ensures
        steady(gateway, user_fetched_by_handle(gateway, handle).0),
        loyal(gateway, user_fetched_by_handle(gateway, handle).0),
        finished(user_fetched_by_handle(gateway, handle).1),
{
    lemma_asked_remote(gateway, RequestView::RemoteUserByHandle { handle });
}

/// Asking for a conversation root marker changes no table and tells whether
/// the marker is stored.
pub proof fn lemma_conversation_known(gateway: GatewayView, id: i64)
    requires
        direct(gateway),
    ensures
        world_of(conversation_known(gateway, id).0).tweets == world_of(gateway).tweets,
        steady(gateway, conversation_known(gateway, id).0),
        loyal(gateway, conversation_known(gateway, id).0),
        conversation_known(gateway, id).1 == Ok::<bool, HaltView>(
            world_of(gateway).conversations.contains(id),
        ),
{
    lemma_asked(gateway, RequestView::ConversationExists { id });
}

/// Asking for a post changes no table and tells whether the post is stored.
pub proof fn lemma_tweet_known(gateway: GatewayView, id: i64)
    requires
        direct(gateway),
    ensures
        steady(gateway, tweet_known(gateway, id).0),
        loyal(gateway, tweet_known(gateway, id).0),
        tweet_known(gateway, id).1 == Ok::<bool, HaltView>(
            stored_post(world_of(gateway), id) is Some,
        ),
{
    lemma_asked(gateway, RequestView::TweetExists { id });
}

/// Writing a conversation root marker leaves the marker in the store.
pub proof fn lemma_conversation_written(gateway: GatewayView, id: i64)
    requires
        direct(gateway),
    ensures
        world_of(conversation_written(gateway, id).0).tweets == world_of(gateway).tweets,
        steady(gateway, conversation_written(gateway, id).0),
        loyal(gateway, conversation_written(gateway, id).0),
        conversation_written(gateway, id).1 == Ok::<(), HaltView>(()),
        world_of(conversation_written(gateway, id).0).conversations.contains(id),
{
    lemma_asked(gateway, RequestView::InsertConversation { id });
    lemma_answer_stores(world_of(gateway), RequestView::InsertConversation { id });
}

/// The row of a post is written only after its author and its conversation
/// root marker are in the store, and it is in the store afterwards.
pub proof fn lemma_row_persisted(gateway: GatewayView, tweet: tweets::Model)
    requires
        direct(gateway),
    ensures
        steady(gateway, row_persisted(gateway, tweet).0),
        remote_born(world_of(gateway), tweet) ==> loyal(gateway, row_persisted(gateway, tweet).0),
        finished(row_persisted(gateway, tweet).1),
        row_persisted(gateway, tweet).1 is Ok ==> stored_post(
            world_of(row_persisted(gateway, tweet).0),
            tweet.id,
        ) is Some,
        row_persisted(gateway, tweet).1 is Ok ==> anchored(
            world_of(row_persisted(gateway, tweet).0),
            tweet,
        ),
        row_persisted(gateway, tweet).1 is Ok && stored_post(world_of(gateway), tweet.id)
            is None ==> stored_post(world_of(row_persisted(gateway, tweet).0), tweet.id) == Some(
            tweet,
        ),
{
    lemma_user_loaded(gateway, tweet.author_id);
    let author = user_loaded(gateway, tweet.author_id);
    if author.1 is Ok {
        lemma_conversation_known(author.0, tweet.conversation_id);
        let known = conversation_known(author.0, tweet.conversation_id);
        lemma_steady_transitive(gateway, author.0, known.0);
        let root = if known.1->Ok_0 {
            (known.0, Ok::<(), HaltView>(()))
        } else {
            conversation_written(known.0, tweet.conversation_id)
        };
        if known.1->Ok_0 {
            lemma_steady_reflexive(known.0);
        } else {
            lemma_conversation_written(known.0, tweet.conversation_id);
        }
        lemma_steady_transitive(gateway, known.0, root.0);
        let request = RequestView::InsertTweet { tweet };
        assert(stored_user(world_of(root.0), tweet.author_id) is Some) by {
            assert(stored_user(world_of(author.0), tweet.author_id) is Some);
            lemma_steady_transitive(author.0, known.0, root.0);
        }
        assert(anchored(world_of(root.0), tweet));
        lemma_asked(root.0, request);
        lemma_answer_stores(world_of(root.0), request);
        lemma_steady_transitive(gateway, root.0, asked(root.0, request).0);
        lemma_grown_keeps_anchored(world_of(root.0), world_of(asked(root.0, request).0), tweet);
        if stored_post(world_of(gateway), tweet.id) is None {
            lemma_fresh_stays_fresh(gateway, root.0, tweet.id);
        }
    }
}

/// What no operation does before the row of a post is written: between
/// two states of a gateway of which the second has answered no insert of a
/// post, a post that was not stored is still not stored.
proof fn lemma_fresh_stays_fresh(before: GatewayView, after: GatewayView, id: i64)
    requires
        direct(before),
        direct(after),
        world_of(after).tweets == world_of(before).tweets,
        stored_post(world_of(before), id) is None,
    ensures
        stored_post(world_of(after), id) is None,
{
}

/// Whether a post, if there is one, is the local form of the remote post
/// with its id.
pub open spec fn born(world: WorldView, data: TweetDataView) -> bool {
    data.tweet matches Some(tweet) ==> remote_born(world, tweet)
}

/// Whether each post of a list is the local form of the remote post with
/// its id.
pub open spec fn all_born(world: WorldView, list: Seq<TweetDataView>) -> bool {
    forall|i: int| 0 <= i < list.len() ==> born(world, #[trigger] list[i])
}

/// Whether a post, if there is one, is stored.
pub open spec fn held(world: WorldView, data: TweetDataView) -> bool {
    data.tweet matches Some(tweet) ==> stored_post(world, tweet.id) is Some
}

/// Whether each post of a list is stored.
pub open spec fn all_held(world: WorldView, list: Seq<TweetDataView>) -> bool {
    forall|i: int| 0 <= i < list.len() ==> held(world, #[trigger] list[i])
}

/// What is born of a world is born of every world with the same remote
/// snapshot, and what is held stays held as the world grows.
pub proof fn lemma_grown_keeps(before: WorldView, after: WorldView, data: TweetDataView)
    requires
        grown(before, after),
    ensures
        born(before, data) ==> born(after, data),
        held(before, data) ==> held(after, data),
{
    if data.tweet is Some {
        let tweet = data.tweet->0;
        if tweet.id >= 0 {
            assert(remote_post(after, tweet.id as u64) == remote_post(before, tweet.id as u64));
        }
        if stored_post(before, tweet.id) is Some {
            assert(stored_post(after, tweet.id) == stored_post(before, tweet.id));
        }
    }
}

/// A post that was fetched by id is the local form of the remote post with
/// that id.
pub proof fn lemma_tweet_fetched(gateway: GatewayView, id: u64)
    requires
        direct(gateway),
    ensures
        world_of(tweet_fetched(gateway, id).0).tweets == world_of(gateway).tweets,
        steady(gateway, tweet_fetched(gateway, id).0),
        loyal(gateway, tweet_fetched(gateway, id).0),
        finished(tweet_fetched(gateway, id).1),
        tweet_fetched(gateway, id).1 matches Ok(data) ==> born(
            world_of(tweet_fetched(gateway, id).0),
            data,
        ) && (data.tweet matches Some(tweet) ==> tweet.id == id),
{
    let request = RequestView::RemoteTweet { id };
    lemma_asked_remote(gateway, request);
    lemma_asked(gateway, request);
    lemma_first_match(world_of(gateway).remote_tweets, remote_tweet_with_id(id));
    let fetched = tweet_fetched(gateway, id);
    if fetched.1 is Ok {
        let data = fetched.1->Ok_0;
        if data.tweet is Some {
            let remote = remote_post(world_of(gateway), id)->0;
            assert(remote.id == id);
            assert(decoded_tweet(remote) == Ok::<TweetDataView, crate::error::ArchiveError>(data));
            let tweet = data.tweet->0;
            assert(tweet.id as u64 == id);
            assert(remote_post(world_of(fetched.0), tweet.id as u64) == Some(remote));
        }
    }
}

/// The rows of a post and of the posts above it are written in dependency
/// order, and the post is in the store afterwards.
pub proof fn lemma_ancestors_persisted(
    gateway: GatewayView,
    current: TweetDataView,
    guard: Seq<i64>,
    chain: Seq<TweetDataView>,
)
    requires
        direct(gateway),
    ensures
        steady(gateway, ancestors_persisted(gateway, current, guard, chain).0),
        born(world_of(gateway), current) ==> loyal(
            gateway,
            ancestors_persisted(gateway, current, guard, chain).0,
        ),
        finished(ancestors_persisted(gateway, current, guard, chain).1),
        ancestors_persisted(gateway, current, guard, chain).1 is Ok ==> held(
            world_of(ancestors_persisted(gateway, current, guard, chain).0),
            current,
        ),
        ancestors_persisted(gateway, current, guard, chain).1 is Ok ==> settled(
            world_of(gateway),
            world_of(ancestors_persisted(gateway, current, guard, chain).0),
            current,
        ),
    decreases id_space() - guard.len(), 1int,
{
    let end = ancestors_persisted(gateway, current, guard, chain);
    match current.tweet {
        None => {
            lemma_steady_reflexive(gateway);
        },
        Some(tweet) => {
            lemma_row_persisted(gateway, tweet);
            let row = row_persisted(gateway, tweet);
            if row.1 is Ok {
                if end.1 is Ok {
                    assert(grown(world_of(row.0), world_of(end.0))) by {
                        lemma_ancestors_persisted_grows(gateway, current, guard, chain);
                    }
                    lemma_grown_keeps_anchored(world_of(row.0), world_of(end.0), tweet);
                }
                match reply_target_of(current) {
                    None => {},
                    Some(parent) => {
                        lemma_tweet_known(row.0, parent);
                        let known = tweet_known(row.0, parent);
                        lemma_steady_transitive(gateway, row.0, known.0);
                        lemma_grown_keeps(world_of(row.0), world_of(known.0), current);
                        if known.1 == Ok::<bool, HaltView>(false) && !guard.contains(parent)
                            && guard.len() < id_space() && parent >= 0 {
                            lemma_tweet_fetched(known.0, parent as u64);
                            let fetched = tweet_fetched(known.0, parent as u64);
                            lemma_steady_transitive(gateway, known.0, fetched.0);
                            lemma_grown_keeps(world_of(known.0), world_of(fetched.0), current);
                            if fetched.1 is Ok {
                                let next = fetched.1->Ok_0;
                                if next.tweet is Some {
                                    lemma_ancestors_persisted(
                                        fetched.0,
                                        next,
                                        guard.push(parent),
                                        chain.push(current),
                                    );
                                    lemma_steady_transitive(gateway, fetched.0, end.0);
                                    lemma_grown_keeps(
                                        world_of(fetched.0),
                                        world_of(end.0),
                                        current,
                                    );
                                }
                            }
                        }
                    },
                }
            }
        },
    }
}

/// Whether a post, if there is one, has its author and its conversation
/// root marker in the store, and is stored as it is if no post was stored
/// under its id before.
pub open spec fn settled(before: WorldView, after: WorldView, data: TweetDataView) -> bool {
    data.tweet matches Some(tweet) ==> anchored(after, tweet) && (stored_post(before, tweet.id)
        is None ==> stored_post(after, tweet.id) == Some(tweet))
}

/// After the row of the first post of a walk is written, the walk only adds
/// rows.
proof fn lemma_ancestors_persisted_grows(
    gateway: GatewayView,
    current: TweetDataView,
    guard: Seq<i64>,
    chain: Seq<TweetDataView>,
)
    requires
        direct(gateway),
        current.tweet is Some,
        row_persisted(gateway, current.tweet->0).1 is Ok,
    ensures
        grown(
            world_of(row_persisted(gateway, current.tweet->0).0),
            world_of(ancestors_persisted(gateway, current, guard, chain).0),
        ),
    decreases id_space() - guard.len(), 0int,
{
    let tweet = current.tweet->0;
    lemma_row_persisted(gateway, tweet);
    let row = row_persisted(gateway, tweet);
    lemma_steady_reflexive(row.0);
    match reply_target_of(current) {
        None => {},
        Some(parent) => {
            lemma_tweet_known(row.0, parent);
            let known = tweet_known(row.0, parent);
            if known.1 == Ok::<bool, HaltView>(false) && !guard.contains(parent) && guard.len()
                < id_space() && parent >= 0 {
                lemma_tweet_fetched(known.0, parent as u64);
                let fetched = tweet_fetched(known.0, parent as u64);
                lemma_steady_transitive(row.0, known.0, fetched.0);
                if fetched.1 is Ok {
                    let next = fetched.1->Ok_0;
                    if next.tweet is Some {
                        lemma_ancestors_persisted(
                            fetched.0,
                            next,
                            guard.push(parent),
                            chain.push(current),
                        );
                        lemma_steady_transitive(
                            row.0,
                            fetched.0,
                            ancestors_persisted(
                                fetched.0,
                                next,
                                guard.push(parent),
                                chain.push(current),
                            ).0,
                        );
                    }
                }
            }
        },
    }
}

/// The target of the first `replied_to` edge of a post.
pub open spec fn reply_target_of(data: TweetDataView) -> Option<i64> {
    crate::utils::reply_target(data.references)
}

/// Writing edges adds no author, marker or post.
pub proof fn lemma_edges_written(gateway: GatewayView, edges: Seq<TweetReferenceData>)
    requires
        direct(gateway),
    ensures
        steady(gateway, edges_written(gateway, edges).0),
        loyal(gateway, edges_written(gateway, edges).0),
        finished(edges_written(gateway, edges).1),
    decreases edges.len(),
{
    if edges.len() == 0 {
        lemma_steady_reflexive(gateway);
    } else {
        let request = RequestView::InsertReference { reference: edges[0] };
        lemma_asked(gateway, request);
        let reply = asked(gateway, request);
        lemma_edges_written(reply.0, edges.drop_first());
        lemma_steady_transitive(gateway, reply.0, edges_written(reply.0, edges.drop_first()).0);
    }
}

/// Writing the edges of a chain adds no author, marker or post.
pub proof fn lemma_chain_edges_written(gateway: GatewayView, chain: Seq<TweetDataView>)
    requires
        direct(gateway),
    ensures
        steady(gateway, chain_edges_written(gateway, chain).0),
        loyal(gateway, chain_edges_written(gateway, chain).0),
        finished(chain_edges_written(gateway, chain).1),
    decreases chain.len(),
{
    if chain.len() == 0 {
        lemma_steady_reflexive(gateway);
    } else {
        lemma_edges_written(gateway, chain.last().references);
        let last = edges_written(gateway, chain.last().references);
        lemma_chain_edges_written(last.0, chain.drop_last());
        lemma_steady_transitive(gateway, last.0, chain_edges_written(last.0, chain.drop_last()).0);
    }
}

/// Referential ordering of one write: a post is written in dependency
/// order. Where the write succeeds, the post is in the store afterwards,
/// its author and its conversation root marker are in the store with it,
/// and it is stored as it was given if no post was stored under its id
/// before.
pub proof fn lemma_tweet_persisted(gateway: GatewayView, data: TweetDataView)
    requires
        direct(gateway),
    ensures
        steady(gateway, tweet_persisted(gateway, data).0),
        born(world_of(gateway), data) ==> loyal(gateway, tweet_persisted(gateway, data).0),
        finished(tweet_persisted(gateway, data).1),
        tweet_persisted(gateway, data).1 is Ok ==> held(
            world_of(tweet_persisted(gateway, data).0),
            data,
        ),
        tweet_persisted(gateway, data).1 is Ok ==> settled(
            world_of(gateway),
            world_of(tweet_persisted(gateway, data).0),
            data,
        ),
{
    match data.tweet {
        None => {
            lemma_steady_reflexive(gateway);
        },
        Some(tweet) => {
            lemma_ancestors_persisted(gateway, data, seq![tweet.id], Seq::empty());
            let stored = ancestors_persisted(gateway, data, seq![tweet.id], Seq::empty());
            if stored.1 is Ok {
                let chain = stored.1->Ok_0;
                lemma_chain_edges_written(stored.0, chain);
                let end = chain_edges_written(stored.0, chain);
                lemma_steady_transitive(gateway, stored.0, end.0);
                lemma_grown_keeps(world_of(stored.0), world_of(end.0), data);
                lemma_grown_keeps_anchored(world_of(stored.0), world_of(end.0), tweet);
            }
        },
    }
}

/// Posts are written in dependency order, and they are in the store
/// afterwards.
pub proof fn lemma_tweets_persisted(gateway: GatewayView, list: Seq<TweetDataView>)
    requires
        direct(gateway),
    ensures
        steady(gateway, tweets_persisted(gateway, list).0),
        all_born(world_of(gateway), list) ==> loyal(gateway, tweets_persisted(gateway, list).0),
        finished(tweets_persisted(gateway, list).1),
        tweets_persisted(gateway, list).1 is Ok ==> all_held(
            world_of(tweets_persisted(gateway, list).0),
            list,
        ),
    decreases list.len(),
{
    if list.len() == 0 {
        lemma_steady_reflexive(gateway);
    } else {
        lemma_tweet_persisted(gateway, list[0]);
        let first = tweet_persisted(gateway, list[0]);
        let rest = list.drop_first();
        if first.1 is Ok {
            lemma_tweets_persisted(first.0, rest);
            let end = tweets_persisted(first.0, rest);
            lemma_steady_transitive(gateway, first.0, end.0);
            if all_born(world_of(gateway), list) {
                assert(born(world_of(gateway), list[0]));
                assert forall|i: int| 0 <= i < rest.len() implies born(
                    world_of(first.0),
                    #[trigger] rest[i],
                ) by {
                    assert(born(world_of(gateway), list[i + 1]));
                    lemma_grown_keeps(world_of(gateway), world_of(first.0), rest[i]);
                }
            }
            if end.1 is Ok {
                assert forall|i: int| 0 <= i < list.len() implies held(
                    world_of(end.0),
                    #[trigger] list[i],
                ) by {
                    if i == 0 {
                        lemma_grown_keeps(world_of(first.0), world_of(end.0), list[0]);
                    } else {
                        assert(held(world_of(end.0), rest[i - 1]));
                    }
                }
            }
        }
    }
}

/// Reading a post changes no table and finds what the store holds under
/// the id.
pub proof fn lemma_tweet_read(gateway: GatewayView, id: i64)
    requires
        direct(gateway),
    ensures
        steady(gateway, tweet_read(gateway, id).0),
        loyal(gateway, tweet_read(gateway, id).0),
        world_of(tweet_read(gateway, id).0) == noted(
            world_of(gateway),
            RequestView::FindTweet { id },
        ),
        tweet_read(gateway, id).1 == Ok::<TweetDataView, HaltView>(
            stored_tweet(world_of(gateway), id),
        ),
{
    lemma_asked(gateway, RequestView::FindTweet { id });
}

/// A post that was loaded through the store is what the store holds under
/// its id afterwards, and a post that was not stored before has its author
/// and its conversation root marker in the store with it.
pub proof fn lemma_tweet_loaded(gateway: GatewayView, id: i64)
    requires
        direct(gateway),
    ensures
        steady(gateway, tweet_loaded(gateway, id).0),
        loyal(gateway, tweet_loaded(gateway, id).0),
        finished(tweet_loaded(gateway, id).1),
        tweet_loaded(gateway, id).1 matches Ok(data) ==> data.tweet is Some && data.tweet->0.id
            == id && data == stored_tweet(world_of(tweet_loaded(gateway, id).0), id),
        tweet_loaded(gateway, id).1 matches Ok(data) ==> stored_post(world_of(gateway), id)
            is None ==> anchored(world_of(tweet_loaded(gateway, id).0), data.tweet->0),
{
    reveal(tweet_loaded);
    lemma_first_match(
        world_of(tweet_loaded(gateway, id).0).tweets,
        crate::world::tweet_with_id(id),
    );
    lemma_tweet_read(gateway, id);
    let local = tweet_read(gateway, id);
    if stored_post(world_of(gateway), id) is None && id >= 0 {
        lemma_tweet_fetched(local.0, id as u64);
        let fetched = tweet_fetched(local.0, id as u64);
        lemma_steady_transitive(gateway, local.0, fetched.0);
        if fetched.1 is Ok {
            let remote = fetched.1->Ok_0;
            if remote.tweet is Some {
                lemma_tweet_persisted(fetched.0, remote);
                let persisted = tweet_persisted(fetched.0, remote);
                lemma_steady_transitive(gateway, fetched.0, persisted.0);
                if persisted.1 is Ok {
                    lemma_tweet_read(persisted.0, id);
                    let again = tweet_read(persisted.0, id);
                    lemma_steady_transitive(gateway, persisted.0, again.0);
                    assert(world_of(fetched.0).tweets == world_of(gateway).tweets);
                    assert(stored_post(world_of(fetched.0), id) is None);
                    assert(stored_post(world_of(persisted.0), id) == remote.tweet);
                    lemma_grown_keeps_anchored(
                        world_of(persisted.0),
                        world_of(again.0),
                        remote.tweet->0,
                    );
                }
            }
        }
    }
}

/// Idempotence of loading: where loading a post has succeeded, loading it
/// again succeeds with the same post, and all that the second load asks is
/// the one read of the store under that id: nothing is fetched and nothing
/// is written.
pub proof fn lemma_load_tweet_twice(gateway: GatewayView, id: i64)
    requires
        direct(gateway),
        tweet_loaded(gateway, id).1 is Ok,
    ensures
        tweet_loaded(tweet_loaded(gateway, id).0, id).1 == tweet_loaded(gateway, id).1,
        world_of(tweet_loaded(tweet_loaded(gateway, id).0, id).0) == noted(
            world_of(tweet_loaded(gateway, id).0),
            RequestView::FindTweet { id },
        ),
{
    lemma_tweet_loaded(gateway, id);
    let first = tweet_loaded(gateway, id);
    reveal(tweet_loaded);
    lemma_tweet_read(first.0, id);
}

/// Walking a thread writes in dependency order.
pub proof fn lemma_thread_walked(
    gateway: GatewayView,
    current: TweetDataView,
    visited: Seq<i64>,
    thread: Seq<TweetDataView>,
)
    requires
        direct(gateway),
    ensures
        steady(gateway, thread_walked(gateway, current, visited, thread).0),
        loyal(gateway, thread_walked(gateway, current, visited, thread).0),
        finished(thread_walked(gateway, current, visited, thread).1),
    decreases id_space() - visited.len(),
{
    match reply_target_of(current) {
        None => {
            lemma_steady_reflexive(gateway);
        },
        Some(parent) => {
            if visited.contains(parent) || visited.len() >= id_space() {
                lemma_steady_reflexive(gateway);
            } else {
                lemma_tweet_loaded(gateway, parent);
                let loaded = tweet_loaded(gateway, parent);
                if loaded.1 is Ok {
                    let next = loaded.1->Ok_0;
                    lemma_thread_walked(
                        loaded.0,
                        next,
                        visited.push(parent),
                        thread.insert(0, next),
                    );
                    lemma_steady_transitive(
                        gateway,
                        loaded.0,
                        thread_walked(
                            loaded.0,
                            next,
                            visited.push(parent),
                            thread.insert(0, next),
                        ).0,
                    );
                }
            }
        },
    }
}

/// Building a conversation writes in dependency order.
pub proof fn lemma_conversation_loaded(gateway: GatewayView, id: i64)
    requires
        direct(gateway),
    ensures
        steady(gateway, conversation_loaded(gateway, id).0),
        loyal(gateway, conversation_loaded(gateway, id).0),
        finished(conversation_loaded(gateway, id).1),
{
    reveal(conversation_loaded);
    lemma_tweet_loaded(gateway, id);
    let leaf = tweet_loaded(gateway, id);
    if leaf.1 is Ok {
        let data = leaf.1->Ok_0;
        lemma_thread_walked(leaf.0, data, seq![id], seq![data]);
        lemma_steady_transitive(
            gateway,
            leaf.0,
            thread_walked(leaf.0, data, seq![id], seq![data]).0,
        );
    }
}

/// Search correctness: a search leaves the store as it is and returns the
/// stored posts whose body contains the text, each once for each row it has
/// and with its edges, newest first.
pub proof fn lemma_search(gateway: GatewayView, query: Seq<char>)
    requires
        direct(gateway),
        newest_first(world_of(gateway).tweets),
    ensures
        world_of(search_read(gateway, query).0) == noted(
            world_of(gateway),
            RequestView::SearchTweets { query },
        ),
        search_read(gateway, query).1 is Ok,
        forall|i: int|
            0 <= i < search_read(gateway, query).1->Ok_0.len() ==> {
                let found = #[trigger] search_read(gateway, query).1->Ok_0[i];
                &&& found.tweet is Some
                &&& world_of(gateway).tweets.contains(found.tweet->0)
                &&& is_substring(query, found.tweet->0.content@)
                &&& found == entry(world_of(gateway).references, found.tweet->0)
            },
        forall|j: int|
            0 <= j < world_of(gateway).tweets.len() && is_substring(
                query,
                (#[trigger] world_of(gateway).tweets[j]).content@,
            ) ==> exists|i: int|
                0 <= i < search_read(gateway, query).1->Ok_0.len() && (#[trigger] search_read(
                    gateway,
                    query,
                ).1->Ok_0[i]).tweet == Some(world_of(gateway).tweets[j]),
        forall|i: int, j: int|
            0 <= i < j < search_read(gateway, query).1->Ok_0.len() ==> (#[trigger] search_read(
                gateway,
                query,
            ).1->Ok_0[i]).tweet->0.created_at.seconds >= (#[trigger] search_read(
                gateway,
                query,
            ).1->Ok_0[j]).tweet->0.created_at.seconds,
{
    let world = world_of(gateway);
    let selection = Selection::Containing(query);
    let rows = kept(world.tweets, selects(selection));
    lemma_asked(gateway, RequestView::SearchTweets { query });
    lemma_kept_newest_first(world.tweets, selection);
    let list = search_read(gateway, query).1->Ok_0;
    assert(list.len() == rows.len());
    assert forall|i: int| 0 <= i < list.len() implies {
        let found = #[trigger] list[i];
        &&& found.tweet is Some
        &&& world.tweets.contains(found.tweet->0)
        &&& is_substring(query, found.tweet->0.content@)
        &&& found == entry(world.references, found.tweet->0)
    } by {
        assert(list[i] == entry(world.references, rows[i]));
        assert(world.tweets.contains(rows[i]));
    }
    assert forall|j: int|
        0 <= j < world.tweets.len() && is_substring(
            query,
            (#[trigger] world.tweets[j]).content@,
        ) implies exists|i: int| 0 <= i < list.len() && (#[trigger] list[i]).tweet == Some(
        world.tweets[j],
    ) by {
        lemma_kept_contains(world.tweets, selects(selection), world.tweets[j]);
        let i = choose|i: int| 0 <= i < rows.len() && rows[i] == world.tweets[j];
        assert(list[i] == entry(world.references, rows[i]));
    }
    assert forall|i: int, j: int| 0 <= i < j < list.len() implies (
    #[trigger] list[i]).tweet->0.created_at.seconds >= (
    #[trigger] list[j]).tweet->0.created_at.seconds by {
        assert(list[i] == entry(world.references, rows[i]));
        assert(list[j] == entry(world.references, rows[j]));
    }
}

/// The newest stored post of an author, or none.
pub open spec fn newest_stored(world: WorldView, author: i64) -> Option<tweets::Model> {
    let rows = kept(world.tweets, selects(Selection::ByAuthor(author)));
    if rows.len() > 0 {
        Some(rows[0])
    } else {
        None
    }
}

/// The newest stored post of an author is a stored post of that author, and
/// no stored post of the author is newer.
pub proof fn lemma_newest_stored(world: WorldView, author: i64)
    requires
        newest_first(world.tweets),
    ensures
        newest_stored(world, author) matches Some(newest) ==> world.tweets.contains(newest)
            && newest.author_id == author,
        forall|j: int|
            0 <= j < world.tweets.len() && (#[trigger] world.tweets[j]).author_id == author
                ==> newest_stored(world, author) is Some && newest_stored(
                world,
                author,
            )->0.created_at.seconds >= world.tweets[j].created_at.seconds,
{
    let selection = Selection::ByAuthor(author);
    lemma_kept_newest_first(world.tweets, selection);
    assert forall|j: int|
        0 <= j < world.tweets.len() && (#[trigger] world.tweets[j]).author_id
            == author implies newest_stored(world, author) is Some && newest_stored(
        world,
        author,
    )->0.created_at.seconds >= world.tweets[j].created_at.seconds by {
        assert(selects(selection)(world.tweets[j]));
    }
}

/// Reading the newest post of an author changes no table and finds the
/// newest stored post of the author.
pub proof fn lemma_latest_read(gateway: GatewayView, author: i64)
    requires
        direct(gateway),
    ensures
        steady(gateway, latest_read(gateway, author).0),
        loyal(gateway, latest_read(gateway, author).0),
        world_of(latest_read(gateway, author).0) == noted(
            world_of(gateway),
            RequestView::LatestTweet { author_id: author },
        ),
        latest_read(gateway, author).1 == match newest_stored(world_of(gateway), author) {
            Some(newest) => Ok::<TweetDataView, HaltView>(
                entry(world_of(gateway).references, newest),
            ),
            None => Err::<TweetDataView, HaltView>(HaltView::Failed(ArchiveError::NotFound)),
        },
{
    lemma_asked(gateway, RequestView::LatestTweet { author_id: author });
}

/// The creation time of the newest stored post of an author who is stored
/// under the handle.
pub proof fn lemma_local_latest_stamp(gateway: GatewayView, handle: Seq<char>)
    requires
        direct(gateway),
        stored_user_by_handle(world_of(gateway), handle) is Some,
    ensures
        steady(gateway, local_latest_stamp(gateway, handle).0),
        loyal(gateway, local_latest_stamp(gateway, handle).0),
        world_of(local_latest_stamp(gateway, handle).0).tweets == world_of(gateway).tweets,
        local_latest_stamp(gateway, handle).1 == match newest_stored(
            world_of(gateway),
            stored_user_by_handle(world_of(gateway), handle)->0.id,
        ) {
            Some(newest) => Ok::<Timestamp, HaltView>(newest.created_at),
            None => Err::<Timestamp, HaltView>(HaltView::Failed(ArchiveError::NotFound)),
        },
{
    lemma_user_loaded_by_handle(gateway, handle);
    let loaded = user_loaded_by_handle(gateway, handle);
    let user = stored_user_by_handle(world_of(gateway), handle)->0;
    lemma_latest_read(loaded.0, user.id);
    lemma_steady_transitive(gateway, loaded.0, latest_read(loaded.0, user.id).0);
}

/// Whether every remote post of a world has a local form.
pub open spec fn decodable(world: WorldView) -> bool {
    forall|i: int|
        0 <= i < world.remote_tweets.len() ==> decoded_tweet(#[trigger] world.remote_tweets[i])
            is Ok
}

/// What a world answers to a question for some of an author's posts.
pub proof fn lemma_timeline_fetched(
    gateway: GatewayView,
    user: UserData,
    max_results: Option<u32>,
    start_time: Option<Timestamp>,
    until_id: Option<u64>,
)
    requires
        direct(gateway),
    ensures
        steady(gateway, timeline_fetched(gateway, user, max_results, start_time, until_id).0),
        loyal(gateway, timeline_fetched(gateway, user, max_results, start_time, until_id).0),
        finished(timeline_fetched(gateway, user, max_results, start_time, until_id).1),
        world_of(timeline_fetched(gateway, user, max_results, start_time, until_id).0).tweets
            == world_of(gateway).tweets,
        user.user matches Some(model) ==> model.id >= 0 ==> timeline_fetched(
            gateway,
            user,
            max_results,
            start_time,
            until_id,
        ).1 == match decoded_timeline(
            timeline(
                world_of(gateway),
                Timeline { user_id: model.id as u64, max_results, start_time, until_id },
            ),
        ) {
            Ok(list) => Ok::<Seq<TweetDataView>, HaltView>(list),
            Err(error) => Err::<Seq<TweetDataView>, HaltView>(HaltView::Failed(error)),
        },
        timeline_fetched(gateway, user, max_results, start_time, until_id).1 is Ok ==> user.user
            is Some && user.user->0.id >= 0,
        well_formed(world_of(gateway)) ==> (timeline_fetched(
            gateway,
            user,
            max_results,
            start_time,
            until_id,
        ).1 matches Ok(list) ==> all_born(
            world_of(timeline_fetched(gateway, user, max_results, start_time, until_id).0),
            list,
        )),
{
    let end = timeline_fetched(gateway, user, max_results, start_time, until_id);
    match user.user {
        None => {
            lemma_steady_reflexive(gateway);
        },
        Some(model) => {
            if model.id < 0 {
                lemma_steady_reflexive(gateway);
            } else {
                let query = Timeline {
                    user_id: model.id as u64,
                    max_results,
                    start_time,
                    until_id,
                };
                let request = RequestView::RemoteTimeline { query };
                lemma_asked_remote(gateway, request);
                lemma_asked(gateway, request);
                let world = world_of(gateway);
                let remote = timeline(world, query);
                if well_formed(world) && end.1 is Ok {
                    let list = end.1->Ok_0;
                    let all = kept(world.remote_tweets, in_timeline(query));
                    assert forall|i: int| 0 <= i < list.len() implies born(
                        world_of(end.0),
                        #[trigger] list[i],
                    ) by {
                        assert(remote[i] == all[i]);
                        lemma_kept_contains(world.remote_tweets, in_timeline(query), all[i]);
                        let k = choose|k: int|
                            0 <= k < world.remote_tweets.len() && world.remote_tweets[k] == all[i];
                        lemma_remote_post_found(world, k);
                        assert(decoded_tweet(remote[i]) is Ok);
                        assert(list[i] == decoded_tweet(remote[i])->Ok_0);
                        let tweet = list[i].tweet->0;
                        assert(tweet.id as u64 == remote[i].id);
                        assert(remote_post(world_of(end.0), tweet.id as u64) == Some(remote[i]));
                    }
                }
            }
        },
    }
}

/// Reading the stored posts of an author writes in dependency order.
pub proof fn lemma_users_tweets_read(gateway: GatewayView, handle: Seq<char>)
    requires
        direct(gateway),
    ensures
        steady(gateway, users_tweets_read(gateway, handle).0),
        loyal(gateway, users_tweets_read(gateway, handle).0),
        finished(users_tweets_read(gateway, handle).1),
{
    lemma_user_loaded_by_handle(gateway, handle);
    let loaded = user_loaded_by_handle(gateway, handle);
    if loaded.1 is Ok {
        let user = loaded.1->Ok_0.user->0;
        let request = RequestView::UserTweets { author_id: user.id };
        lemma_asked(loaded.0, request);
        lemma_steady_transitive(gateway, loaded.0, asked(loaded.0, request).0);
    }
}

/// The question that a backfill puts to the remote source: all posts of an
/// author that are strictly newer than an instant.
pub open spec fn newer_posts(author: i64, from: Timestamp) -> Timeline {
    Timeline { user_id: author as u64, max_results: None, start_time: Some(from), until_id: None }
}

/// The author that a handle stands for: the author that is loaded by the
/// handle.
pub open spec fn author_of(gateway: GatewayView, handle: Seq<char>) -> user::Model {
    user_loaded_by_handle(gateway, handle).1->Ok_0.user->0
}

/// Whether an author is stored under a handle once it is loaded by the
/// handle: whether it was stored under the handle before, or was not stored
/// at all.
pub open spec fn known_as(gateway: GatewayView, handle: Seq<char>) -> bool {
    &&& user_loaded_by_handle(gateway, handle).1 is Ok
    &&& stored_user_by_handle(world_of(user_loaded_by_handle(gateway, handle).0), handle)
        == user_loaded_by_handle(gateway, handle).1->Ok_0.user
}

/// What storing the new posts of an author leaves in the store: every
/// remote post of the author that is strictly newer than the newest stored
/// one was stored in its local form.
pub proof fn lemma_new_tweets_stored(gateway: GatewayView, handle: Seq<char>)
    requires
        direct(gateway),
        well_formed(world_of(gateway)),
        known_as(gateway, handle),
        new_tweets_stored(gateway, handle).1 is Ok,
    ensures
        steady(gateway, new_tweets_stored(gateway, handle).0),
        loyal(gateway, new_tweets_stored(gateway, handle).0),
        stored_user_by_handle(world_of(new_tweets_stored(gateway, handle).0), handle) == Some(
            author_of(gateway, handle),
        ),
        author_of(gateway, handle).id >= 0,
        newest_stored(world_of(gateway), author_of(gateway, handle).id) is Some,
        forall|i: int|
            0 <= i < world_of(gateway).remote_tweets.len() && in_timeline(
                newer_posts(
                    author_of(gateway, handle).id,
                    newest_stored(world_of(gateway), author_of(gateway, handle).id)->0.created_at,
                ),
            )(#[trigger] world_of(gateway).remote_tweets[i]) ==> decoded_tweet(
                world_of(gateway).remote_tweets[i],
            ) is Ok && held(
                world_of(new_tweets_stored(gateway, handle).0),
                decoded_tweet(world_of(gateway).remote_tweets[i])->Ok_0,
            ),
{
    let world = world_of(gateway);
    let user = author_of(gateway, handle);
    let data = UserData { user: Some(user) };
    lemma_user_loaded_by_handle(gateway, handle);
    let loaded = user_loaded_by_handle(gateway, handle);
    assert(loaded.1 == Ok::<UserData, HaltView>(data));
    assert(stored_user_by_handle(world_of(loaded.0), handle) == Some(user));
    lemma_local_latest_stamp(loaded.0, handle);
    let from = local_latest_stamp(loaded.0, handle);
    lemma_steady_transitive(gateway, loaded.0, from.0);
    assert(newest_stored(world_of(loaded.0), user.id) == newest_stored(world, user.id));
    let stamp = from.1->Ok_0;
    lemma_timeline_fetched(from.0, data, None, Some(stamp), None);
    let fetched = timeline_fetched(from.0, data, None, Some(stamp), None);
    lemma_steady_transitive(gateway, from.0, fetched.0);
    lemma_steady_transitive(loaded.0, from.0, fetched.0);
    assert(new_tweets_fetched(gateway, handle) == fetched);
    let list = fetched.1->Ok_0;
    lemma_tweets_persisted(fetched.0, list);
    let end = tweets_persisted(fetched.0, list);
    lemma_steady_transitive(gateway, fetched.0, end.0);
    lemma_steady_transitive(loaded.0, fetched.0, end.0);
    assert(new_tweets_stored(gateway, handle) == end);
    let query = newer_posts(user.id, stamp);
    let remote = world.remote_tweets;
    assert(world_of(from.0).remote_tweets == remote);
    let all = kept(remote, in_timeline(query));
    assert(timeline(world_of(from.0), query) == all);
    assert forall|i: int| 0 <= i < remote.len() && in_timeline(query)(#[trigger] remote[i])
        implies decoded_tweet(remote[i]) is Ok && held(
        world_of(end.0),
        decoded_tweet(remote[i])->Ok_0,
    ) by {
        lemma_kept_contains(remote, in_timeline(query), remote[i]);
        let k = choose|k: int| 0 <= k < all.len() && all[k] == remote[i];
        assert(decoded_tweet(all[k]) is Ok);
        assert(list[k] == decoded_tweet(all[k])->Ok_0);
        assert(held(world_of(end.0), list[k]));
    }
}

/// The question that a staleness check puts to the remote source: the few
/// newest posts of an author.
pub open spec fn recent_posts(author: i64, count: u32) -> Timeline {
    Timeline { user_id: author as u64, max_results: Some(count), start_time: None, until_id: None }
}

/// Whether the first of the few newest remote posts of an author is
/// strictly newer than `seconds`, in a world of which every remote post has
/// a local form.
pub open spec fn remote_is_newer(world: WorldView, author: i64, count: u32, seconds: i64) -> bool {
    let recent = timeline(world, recent_posts(author, count));
    recent.len() > 0 && decoded_tweet(recent[0])->Ok_0.tweet->0.created_at.seconds > seconds
}

/// What a staleness check finds in a world of which every remote post has a
/// local form, for an author who is stored under the handle with a
/// non-negative id and has a stored post.
pub proof fn lemma_staleness(gateway: GatewayView, handle: Seq<char>)
    requires
        direct(gateway),
        decodable(world_of(gateway)),
        stored_user_by_handle(world_of(gateway), handle) is Some,
        stored_user_by_handle(world_of(gateway), handle)->0.id >= 0,
        newest_stored(world_of(gateway), stored_user_by_handle(world_of(gateway), handle)->0.id)
            is Some,
    ensures
        steady(gateway, staleness(gateway, handle).0),
        loyal(gateway, staleness(gateway, handle).0),
        staleness(gateway, handle).1 == Ok::<bool, HaltView>(
            remote_is_newer(
                world_of(gateway),
                stored_user_by_handle(world_of(gateway), handle)->0.id,
                gateway.settings.recent_count,
                newest_stored(
                    world_of(gateway),
                    stored_user_by_handle(world_of(gateway), handle)->0.id,
                )->0.created_at.seconds,
            ),
        ),
{
    let world = world_of(gateway);
    let user = stored_user_by_handle(world, handle)->0;
    let data = UserData { user: Some(user) };
    let count = gateway.settings.recent_count;
    lemma_local_latest_stamp(gateway, handle);
    let local = local_latest_stamp(gateway, handle);
    assert(stored_user_by_handle(world_of(local.0), handle) == Some(user));
    lemma_user_loaded_by_handle(local.0, handle);
    let loaded = user_loaded_by_handle(local.0, handle);
    lemma_steady_transitive(gateway, local.0, loaded.0);
    lemma_timeline_fetched(loaded.0, data, Some(count), None, None);
    let fetched = timeline_fetched(loaded.0, data, Some(count), None, None);
    lemma_steady_transitive(gateway, loaded.0, fetched.0);
    let query = recent_posts(user.id, count);
    assert(world_of(loaded.0).remote_tweets == world.remote_tweets);
    let recent = timeline(world, query);
    assert(timeline(world_of(loaded.0), query) == recent);
    let all = kept(world.remote_tweets, in_timeline(query));
    assert forall|i: int| 0 <= i < recent.len() implies decoded_tweet(#[trigger] recent[i])
        is Ok by {
        assert(recent[i] == all[i]);
        lemma_kept_contains(world.remote_tweets, in_timeline(query), all[i]);
        let k = choose|k: int|
            0 <= k < world.remote_tweets.len() && world.remote_tweets[k] == all[i];
        assert(decoded_tweet(world.remote_tweets[k]) is Ok);
    }
    assert(decoded_timeline(recent) is Ok);
    assert(newest_fetched(loaded.0, data).0 == fetched.0);
}

/// Freshness: where a backfill has succeeded, the stored posts of the
/// author are not stale.
///
/// This holds of a world whose tables are in order, whose store agrees with
/// the remote snapshot, and of which every remote post has a local form,
/// for an author who is stored under the handle once loaded by it.
pub proof fn lemma_fresh_after_backfill(gateway: GatewayView, handle: Seq<char>)
    requires
        direct(gateway),
        well_formed(world_of(gateway)),
        mirrors(world_of(gateway)),
        decodable(world_of(gateway)),
        known_as(gateway, handle),
        backfilled(gateway, handle).1 is Ok,
    ensures
        staleness(backfilled(gateway, handle).0, handle).1 == Ok::<bool, HaltView>(false),
{
    let world = world_of(gateway);
    let user = author_of(gateway, handle);
    let oldest = newest_stored(world, user.id)->0;
    lemma_new_tweets_stored(gateway, handle);
    let stored = new_tweets_stored(gateway, handle);
    lemma_users_tweets_read(stored.0, handle);
    let end = backfilled(gateway, handle).0;
    assert(end == users_tweets_read(stored.0, handle).0);
    lemma_steady_transitive(gateway, stored.0, end);
    let after = world_of(end);
    assert(stored_user_by_handle(after, handle) == Some(user));
    assert(after.remote_tweets == world.remote_tweets);
    assert(decodable(after)) by {
        assert forall|i: int| 0 <= i < after.remote_tweets.len() implies decoded_tweet(
            #[trigger] after.remote_tweets[i],
        ) is Ok by {
            assert(decoded_tweet(world.remote_tweets[i]) is Ok);
        }
    }
    lemma_newest_stored(world, user.id);
    lemma_newest_stored(after, user.id);
    assert(after.tweets.contains(oldest)) by {
        let k = choose|k: int| 0 <= k < world.tweets.len() && world.tweets[k] == oldest;
        assert(after.tweets.contains(world.tweets[k]));
    }
    let j = choose|j: int| 0 <= j < after.tweets.len() && after.tweets[j] == oldest;
    assert(after.tweets[j].author_id == user.id);
    let newest = newest_stored(after, user.id)->0;
    assert(newest.created_at.seconds >= oldest.created_at.seconds);
    lemma_staleness(end, handle);
    let count = end.settings.recent_count;
    if remote_is_newer(after, user.id, count, newest.created_at.seconds) {
        let query = recent_posts(user.id, count);
        let recent = timeline(after, query);
        let all = kept(after.remote_tweets, in_timeline(query));
        let first = recent[0];
        assert(first == all[0]);
        lemma_kept_contains(after.remote_tweets, in_timeline(query), first);
        let k = choose|k: int|
            0 <= k < after.remote_tweets.len() && after.remote_tweets[k] == first;
        assert(decoded_tweet(world.remote_tweets[k]) is Ok);
        let local = decoded_tweet(first)->Ok_0.tweet->0;
        assert(in_timeline(newer_posts(user.id, oldest.created_at))(world.remote_tweets[k]));
        assert(held(world_of(stored.0), decoded_tweet(first)->Ok_0));
        lemma_grown_keeps(world_of(stored.0), after, decoded_tweet(first)->Ok_0);
        let kept_row = stored_post(after, local.id)->0;
        lemma_first_match(after.tweets, crate::world::tweet_with_id(local.id));
        let m = choose|m: int| 0 <= m < after.tweets.len() && after.tweets[m] == kept_row;
        assert(mirrored(after, after.tweets[m]));
        lemma_remote_post_found(after, k);
        assert(local.id as u64 == first.id);
        assert(kept_row == local);
        assert(after.tweets[m].author_id == user.id);
        assert(false);
    }
}

/// What every operation of the archive keeps of a direct gateway and its
/// world: what [`steady`] says, and the agreement of the store with the
/// remote snapshot where the tables of the world are in order.
pub open spec fn carried(before: GatewayView, after: GatewayView) -> bool {
    &&& steady(before, after)
    &&& well_formed(world_of(before)) ==> loyal(before, after)
}

/// What two operations carry one after the other is carried.
pub proof fn lemma_carried_transitive(first: GatewayView, second: GatewayView, third: GatewayView)
    requires
        carried(first, second),
        carried(second, third),
    ensures
        carried(first, third),
{
    lemma_steady_transitive(first, second, third);
}

/// Fetching the newest post of an author changes no table.
pub proof fn lemma_newest_fetched(gateway: GatewayView, user: UserData)
    requires
        direct(gateway),
    ensures
        carried(gateway, newest_fetched(gateway, user).0),
        finished(newest_fetched(gateway, user).1),
{
    lemma_timeline_fetched(gateway, user, Some(gateway.settings.recent_count), None, None);
}

/// Fetching the creation time of the newest remote post of an author
/// writes in dependency order.
pub proof fn lemma_remote_latest_stamp(gateway: GatewayView, handle: Seq<char>)
    requires
        direct(gateway),
    ensures
        carried(gateway, remote_latest_stamp(gateway, handle).0),
        finished(remote_latest_stamp(gateway, handle).1),
{
    lemma_user_loaded_by_handle(gateway, handle);
    let loaded = user_loaded_by_handle(gateway, handle);
    if loaded.1 is Ok {
        lemma_newest_fetched(loaded.0, loaded.1->Ok_0);
        lemma_carried_transitive(gateway, loaded.0, newest_fetched(loaded.0, loaded.1->Ok_0).0);
    }
}

/// Comparing the newest remote post of an author with an instant writes in
/// dependency order.
pub proof fn lemma_remote_newer_than(gateway: GatewayView, handle: Seq<char>, seconds: i64)
    requires
        direct(gateway),
    ensures
        carried(gateway, remote_newer_than(gateway, handle, seconds).0),
        finished(remote_newer_than(gateway, handle, seconds).1),
{
    lemma_user_loaded_by_handle(gateway, handle);
    let loaded = user_loaded_by_handle(gateway, handle);
    if loaded.1 is Ok {
        lemma_newest_fetched(loaded.0, loaded.1->Ok_0);
        lemma_carried_transitive(gateway, loaded.0, newest_fetched(loaded.0, loaded.1->Ok_0).0);
    }
}

/// Reading the creation time of the newest stored post of an author writes
/// in dependency order.
pub proof fn lemma_local_latest_stamp_carried(gateway: GatewayView, handle: Seq<char>)
    requires
        direct(gateway),
    ensures
        carried(gateway, local_latest_stamp(gateway, handle).0),
        finished(local_latest_stamp(gateway, handle).1),
{
    lemma_user_loaded_by_handle(gateway, handle);
    let loaded = user_loaded_by_handle(gateway, handle);
    if loaded.1 is Ok {
        let user = loaded.1->Ok_0.user->0;
        lemma_latest_read(loaded.0, user.id);
        lemma_carried_transitive(gateway, loaded.0, latest_read(loaded.0, user.id).0);
    }
}

/// A staleness check writes in dependency order.
pub proof fn lemma_staleness_carried(gateway: GatewayView, handle: Seq<char>)
    requires
        direct(gateway),
    ensures
        carried(gateway, staleness(gateway, handle).0),
        finished(staleness(gateway, handle).1),
{
    lemma_local_latest_stamp_carried(gateway, handle);
    let local = local_latest_stamp(gateway, handle);
    if local.1 is Ok {
        let seconds = local.1->Ok_0.seconds;
        lemma_remote_newer_than(local.0, handle, seconds);
        lemma_carried_transitive(gateway, local.0, remote_newer_than(local.0, handle, seconds).0);
    }
}

/// The new posts of an author are local forms of remote posts.
pub proof fn lemma_new_tweets_fetched(gateway: GatewayView, handle: Seq<char>)
    requires
        direct(gateway),
    ensures
        carried(gateway, new_tweets_fetched(gateway, handle).0),
        finished(new_tweets_fetched(gateway, handle).1),
        well_formed(world_of(gateway)) ==> (new_tweets_fetched(gateway, handle).1 matches Ok(
            list,
        ) ==> all_born(world_of(new_tweets_fetched(gateway, handle).0), list)),
{
    lemma_user_loaded_by_handle(gateway, handle);
    let loaded = user_loaded_by_handle(gateway, handle);
    if loaded.1 is Ok {
        let data = loaded.1->Ok_0;
        lemma_local_latest_stamp_carried(loaded.0, handle);
        let from = local_latest_stamp(loaded.0, handle);
        lemma_carried_transitive(gateway, loaded.0, from.0);
        if from.1 is Ok {
            let stamp = from.1->Ok_0;
            lemma_timeline_fetched(from.0, data, None, Some(stamp), None);
            lemma_carried_transitive(
                gateway,
                from.0,
                timeline_fetched(from.0, data, None, Some(stamp), None).0,
            );
        }
    }
}

/// Storing the new posts of an author writes in dependency order.
pub proof fn lemma_new_tweets_stored_carried(gateway: GatewayView, handle: Seq<char>)
    requires
        direct(gateway),
    ensures
        carried(gateway, new_tweets_stored(gateway, handle).0),
        finished(new_tweets_stored(gateway, handle).1),
{
    lemma_new_tweets_fetched(gateway, handle);
    let fresh = new_tweets_fetched(gateway, handle);
    if fresh.1 is Ok {
        lemma_tweets_persisted(fresh.0, fresh.1->Ok_0);
        lemma_steady_transitive(gateway, fresh.0, tweets_persisted(fresh.0, fresh.1->Ok_0).0);
    }
}

/// A backfill writes in dependency order.
pub proof fn lemma_backfilled(gateway: GatewayView, handle: Seq<char>)
    requires
        direct(gateway),
    ensures
        carried(gateway, backfilled(gateway, handle).0),
        finished(backfilled(gateway, handle).1),
{
    lemma_new_tweets_stored_carried(gateway, handle);
    let stored = new_tweets_stored(gateway, handle);
    if stored.1 is Ok {
        lemma_users_tweets_read(stored.0, handle);
        lemma_carried_transitive(gateway, stored.0, users_tweets_read(stored.0, handle).0);
    }
}

/// Reading the stored posts of an author since a date writes in dependency
/// order.
pub proof fn lemma_users_tweets_since_read(
    gateway: GatewayView,
    handle: Seq<char>,
    date: Seq<char>,
)
    requires
        direct(gateway),
    ensures
        carried(gateway, users_tweets_since_read(gateway, handle, date).0),
        finished(users_tweets_since_read(gateway, handle, date).1),
{
    lemma_user_loaded_by_handle(gateway, handle);
    let loaded = user_loaded_by_handle(gateway, handle);
    if loaded.1 is Ok {
        let user = loaded.1->Ok_0.user->0;
        if crate::clock::instant_of(date) is Some {
            let request = RequestView::UserTweetsSince {
                author_id: user.id,
                after: crate::clock::instant_of(date)->0,
            };
            lemma_asked(loaded.0, request);
            lemma_carried_transitive(gateway, loaded.0, asked(loaded.0, request).0);
        }
    }
}

/// Loading the posts of an author since a date writes in dependency order.
pub proof fn lemma_tweets_since_loaded(gateway: GatewayView, handle: Seq<char>, date: Seq<char>)
    requires
        direct(gateway),
    ensures
        carried(gateway, tweets_since_loaded(gateway, handle, date).0),
        finished(tweets_since_loaded(gateway, handle, date).1),
{
    lemma_new_tweets_stored_carried(gateway, handle);
    let stored = new_tweets_stored(gateway, handle);
    if stored.1 is Ok {
        lemma_users_tweets_since_read(stored.0, handle, date);
        lemma_carried_transitive(
            gateway,
            stored.0,
            users_tweets_since_read(stored.0, handle, date).0,
        );
    }
}

/// Fetching a history writes in dependency order, page by page.
pub proof fn lemma_history_fetched(
    gateway: GatewayView,
    user: UserData,
    until: Option<u64>,
    pages_left: nat,
)
    requires
        direct(gateway),
    ensures
        carried(gateway, history_fetched(gateway, user, until, pages_left).0),
        finished(history_fetched(gateway, user, until, pages_left).1),
    decreases pages_left,
{
    if pages_left == 0 {
        lemma_steady_reflexive(gateway);
    } else {
        let size = gateway.settings.page_size;
        lemma_timeline_fetched(gateway, user, Some(size), None, until);
        let page = timeline_fetched(gateway, user, Some(size), None, until);
        if page.1 is Ok {
            let list = page.1->Ok_0;
            if list.len() > 0 {
                lemma_tweets_persisted(page.0, list);
                let persisted = tweets_persisted(page.0, list);
                lemma_carried_transitive(gateway, page.0, persisted.0);
                if persisted.1 is Ok && list.last().tweet is Some && list.last().tweet->0.id >= 0 {
                    let next = Some(list.last().tweet->0.id as u64);
                    lemma_history_fetched(persisted.0, user, next, (pages_left - 1) as nat);
                    lemma_carried_transitive(
                        gateway,
                        persisted.0,
                        history_fetched(persisted.0, user, next, (pages_left - 1) as nat).0,
                    );
                }
            }
        }
    }
}

/// Fetching the whole history of an author writes in dependency order.
pub proof fn lemma_history_seeded(gateway: GatewayView, handle: Seq<char>)
    requires
        direct(gateway),
    ensures
        carried(gateway, history_seeded(gateway, handle).0),
        finished(history_seeded(gateway, handle).1),
{
    lemma_user_loaded_by_handle(gateway, handle);
    let loaded = user_loaded_by_handle(gateway, handle);
    if loaded.1 is Ok {
        let pages = loaded.0.settings.page_ceiling as nat;
        lemma_history_fetched(loaded.0, loaded.1->Ok_0, None, pages);
        lemma_carried_transitive(
            gateway,
            loaded.0,
            history_fetched(loaded.0, loaded.1->Ok_0, None, pages).0,
        );
    }
}

/// Loading the posts of an author writes in dependency order.
pub proof fn lemma_user_tweets_loaded(gateway: GatewayView, handle: Seq<char>)
    requires
        direct(gateway),
    ensures
        carried(gateway, user_tweets_loaded(gateway, handle).0),
        finished(user_tweets_loaded(gateway, handle).1),
{
    reveal(user_tweets_loaded);
    lemma_users_tweets_read(gateway, handle);
    let local = users_tweets_read(gateway, handle);
    if local.1 is Ok {
        if local.1->Ok_0.len() == 0 {
            lemma_history_seeded(local.0, handle);
            let seeded = history_seeded(local.0, handle);
            lemma_carried_transitive(gateway, local.0, seeded.0);
            if seeded.1 is Ok {
                lemma_users_tweets_read(seeded.0, handle);
                lemma_carried_transitive(gateway, seeded.0, users_tweets_read(seeded.0, handle).0);
            }
        } else {
            lemma_staleness_carried(local.0, handle);
            let stale = staleness(local.0, handle);
            lemma_carried_transitive(gateway, local.0, stale.0);
            if stale.1 == Ok::<bool, HaltView>(true) {
                lemma_backfilled(stale.0, handle);
                lemma_carried_transitive(gateway, stale.0, backfilled(stale.0, handle).0);
            }
        }
    }
}

/// Building conversations writes in dependency order.
pub proof fn lemma_conversations_loaded(
    gateway: GatewayView,
    list: Seq<TweetDataView>,
    built: Seq<ConversationDataView>,
)
    requires
        direct(gateway),
    ensures
        carried(gateway, conversations_loaded(gateway, list, built).0),
        finished(conversations_loaded(gateway, list, built).1),
    decreases list.len(),
{
    if list.len() == 0 {
        lemma_steady_reflexive(gateway);
    } else {
        match list[0].tweet {
            None => {
                lemma_steady_reflexive(gateway);
            },
            Some(tweet) => {
                lemma_conversation_loaded(gateway, tweet.id);
                let one = conversation_loaded(gateway, tweet.id);
                if one.1 is Ok {
                    let more = built.push(one.1->Ok_0);
                    lemma_conversations_loaded(one.0, list.drop_first(), more);
                    lemma_carried_transitive(
                        gateway,
                        one.0,
                        conversations_loaded(one.0, list.drop_first(), more).0,
                    );
                }
            },
        }
    }
}

/// Building the conversations of an author writes in dependency order.
pub proof fn lemma_user_conversations_loaded(gateway: GatewayView, handle: Seq<char>)
    requires
        direct(gateway),
    ensures
        carried(gateway, user_conversations_loaded(gateway, handle).0),
        finished(user_conversations_loaded(gateway, handle).1),
{
    lemma_user_tweets_loaded(gateway, handle);
    let tweets = user_tweets_loaded(gateway, handle);
    if tweets.1 is Ok {
        lemma_conversations_loaded(tweets.0, tweets.1->Ok_0, Seq::empty());
        lemma_carried_transitive(
            gateway,
            tweets.0,
            conversations_loaded(tweets.0, tweets.1->Ok_0, Seq::empty()).0,
        );
    }
}

/// Referential ordering: whatever operation is performed on a world, rows
/// are only added to the store, and where every stored post had its author
/// and its conversation root marker in the store before, every stored post
/// has them afterwards. The operation runs to its end, the stored posts
/// stay newest first, and a store that agreed with the remote snapshot
/// still agrees with it.
pub proof fn lemma_performed(gateway: GatewayView, operation: OperationView)
    requires
        direct(gateway),
    ensures
        direct(performed(gateway, operation).0),
        grown(world_of(gateway), world_of(performed(gateway, operation).0)),
        referential(world_of(gateway)) ==> referential(
            world_of(performed(gateway, operation).0),
        ),
        well_formed(world_of(gateway)) ==> well_formed(
            world_of(performed(gateway, operation).0),
        ),
        well_formed(world_of(gateway)) && mirrors(world_of(gateway)) ==> mirrors(
            world_of(performed(gateway, operation).0),
        ),
        finished(performed(gateway, operation).1),
{
    match operation {
        OperationView::Tweet { id } => {
            lemma_tweet_loaded(gateway, id);
        },
        OperationView::UserById { id } => {
            lemma_user_loaded(gateway, id);
        },
        OperationView::UserByHandle { handle } => {
            lemma_user_loaded_by_handle(gateway, handle);
        },
        OperationView::UserTweets { handle } => {
            lemma_user_tweets_loaded(gateway, handle);
        },
        OperationView::UserConversations { handle } => {
            lemma_user_conversations_loaded(gateway, handle);
        },
        OperationView::Conversation { id } => {
            lemma_conversation_loaded(gateway, id);
        },
        OperationView::LatestRemote { handle } => {
            lemma_remote_latest_stamp(gateway, handle);
        },
        OperationView::HasTweetedSince { handle, seconds } => {
            lemma_remote_newer_than(gateway, handle, seconds);
        },
        OperationView::TweetsSince { handle, date } => {
            lemma_tweets_since_loaded(gateway, handle, date);
        },
        OperationView::Search { query } => {
            lemma_asked(gateway, RequestView::SearchTweets { query });
        },
        OperationView::Tweets => {
            lemma_asked(gateway, RequestView::AllTweets);
        },
        OperationView::Users => {
            lemma_asked(gateway, RequestView::AllUsers);
        },
        OperationView::LatestStored { handle } => {
            lemma_local_latest_stamp_carried(gateway, handle);
        },
        OperationView::HasNewTweets { handle } => {
            lemma_staleness_carried(gateway, handle);
        },
        OperationView::NewTweets { handle } => {
            lemma_new_tweets_fetched(gateway, handle);
        },
        OperationView::Backfill { handle } => {
            lemma_backfilled(gateway, handle);
        },
        OperationView::History { handle } => {
            lemma_history_seeded(gateway, handle);
        },
    }
}

/// Whether each post of a thread but the first replies to the post before
/// it.
pub open spec fn linked(thread: Seq<TweetDataView>) -> bool {
    forall|i: int|
        0 <= i < thread.len() - 1 ==> (#[trigger] thread[i]).tweet is Some && reply_target_of(
            thread[i + 1],
        ) == Some(thread[i].tweet->0.id)
}

/// Whether the posts of a thread are the posts that were asked for, the
/// last that was asked for first.
pub open spec fn asked_for(thread: Seq<TweetDataView>, visited: Seq<i64>) -> bool {
    &&& thread.len() == visited.len()
    &&& forall|i: int|
        0 <= i < thread.len() ==> (#[trigger] thread[i]).tweet is Some && thread[i].tweet->0.id
            == visited[visited.len() - 1 - i]
}

/// A walk extends a thread at its front, post by post, and never by a post
/// that is in it already.
pub proof fn lemma_thread_walked_linked(
    gateway: GatewayView,
    current: TweetDataView,
    visited: Seq<i64>,
    thread: Seq<TweetDataView>,
)
    requires
        direct(gateway),
        thread.len() > 0,
        thread[0] == current,
        linked(thread),
        asked_for(thread, visited),
        visited.no_duplicates(),
        thread_walked(gateway, current, visited, thread).1 is Ok,
    ensures
        ({
            let walked = thread_walked(gateway, current, visited, thread).1->Ok_0;
            &&& walked.len() >= thread.len()
            &&& walked.last() == thread.last()
            &&& linked(walked)
            &&& forall|i: int, j: int|
                0 <= i < j < walked.len() ==> (#[trigger] walked[i]).tweet->0.id != (
                #[trigger] walked[j]).tweet->0.id
        }),
    decreases id_space() - visited.len(),
{
    match reply_target_of(current) {
        None => {
            assert forall|i: int, j: int| 0 <= i < j < thread.len() implies (
            #[trigger] thread[i]).tweet->0.id != (#[trigger] thread[j]).tweet->0.id by {
                assert(visited[visited.len() - 1 - i] != visited[visited.len() - 1 - j]);
            }
        },
        Some(parent) => {
            lemma_tweet_loaded(gateway, parent);
            let loaded = tweet_loaded(gateway, parent);
            if loaded.1 is Ok {
                let next = loaded.1->Ok_0;
                let longer = thread.insert(0, next);
                let seen = visited.push(parent);
                assert(linked(longer)) by {
                    assert forall|i: int| 0 <= i < longer.len() - 1 implies (
                    #[trigger] longer[i]).tweet is Some && reply_target_of(longer[i + 1])
                        == Some(longer[i].tweet->0.id) by {
                        if i > 0 {
                            assert(longer[i] == thread[i - 1]);
                            assert(longer[i + 1] == thread[i]);
                        }
                    }
                }
                assert(asked_for(longer, seen)) by {
                    assert forall|i: int| 0 <= i < longer.len() implies (
                    #[trigger] longer[i]).tweet is Some && longer[i].tweet->0.id == seen[seen.len()
                        - 1 - i] by {
                        if i > 0 {
                            assert(longer[i] == thread[i - 1]);
                        }
                    }
                }
                assert(seen.no_duplicates());
                lemma_thread_walked_linked(loaded.0, next, seen, longer);
                assert(longer.last() == thread.last());
            } else {
                assert forall|i: int, j: int| 0 <= i < j < thread.len() implies (
                #[trigger] thread[i]).tweet->0.id != (#[trigger] thread[j]).tweet->0.id by {
                    assert(visited[visited.len() - 1 - i] != visited[visited.len() - 1 - j]);
                }
            }
        },
    }
}

/// Conversation ordering: a conversation that was built ends in the post
/// that was asked for, each of its posts but the first replies to the post
/// before it, no post occurs twice in it, and it carries the root id that
/// its last post names.
pub proof fn lemma_conversation_is_a_thread(gateway: GatewayView, id: i64)
    requires
        direct(gateway),
        conversation_loaded(gateway, id).1 is Ok,
    ensures
        ({
            let conversation = conversation_loaded(gateway, id).1->Ok_0;
            &&& conversation.tweets.len() > 0
            &&& conversation.tweets.last().tweet is Some
            &&& conversation.tweets.last().tweet->0.id == id
            &&& conversation.id == conversation.tweets.last().tweet->0.conversation_id
            &&& linked(conversation.tweets)
            &&& forall|i: int, j: int|
                0 <= i < j < conversation.tweets.len() ==> (
                #[trigger] conversation.tweets[i]).tweet->0.id != (
                #[trigger] conversation.tweets[j]).tweet->0.id
        }),
{
    reveal(conversation_loaded);
    lemma_tweet_loaded(gateway, id);
    let leaf = tweet_loaded(gateway, id);
    let data = leaf.1->Ok_0;
    lemma_thread_walked_linked(leaf.0, data, seq![id], seq![data]);
}

/// Termination on cycles: a walk that comes to a post that replies to a
/// post of the thread so far ends in `CycleDetected`, whatever the store
/// and the remote source answer.
pub proof fn lemma_cycle_is_detected(
    gateway: GatewayView,
    current: TweetDataView,
    visited: Seq<i64>,
    thread: Seq<TweetDataView>,
)
    requires
        reply_target_of(current) matches Some(parent) && visited.contains(parent),
    ensures
        thread_walked(gateway, current, visited, thread) == (
            gateway,
            Err::<Seq<TweetDataView>, HaltView>(HaltView::Failed(ArchiveError::CycleDetected)),
        ),
{
}

} // verus!
