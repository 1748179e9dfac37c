//! How often an operation asks the remote source for a post and how often
//! it inserts the row of a post, counted on the requests that a world has
//! answered.

use crate::api::{tweet_fetched, user_fetched};
use crate::archive::{tweet_loaded, user_loaded};
use crate::entities::tweets;
use crate::gateway::{asked, GatewayView, HaltView};
use crate::invariants::stored_post;
use crate::laws::{
    direct, lemma_asked, lemma_asked_remote, lemma_chain_edges_written, lemma_conversation_known,
    lemma_conversation_written, lemma_edges_written, lemma_row_persisted, lemma_tweet_fetched,
    lemma_tweet_known, lemma_tweet_persisted, lemma_tweet_read, lemma_user_loaded, lemma_user_read,
    reply_target_of, world_of,
};
use crate::protocol::RequestView;
use crate::read::{conversation_known, tweet_known};
use crate::records::{edges_written, tweet_read, user_read};
use crate::utils::{TweetDataView, TweetReferenceData};
use crate::write::{
    ancestors_persisted, chain_edges_written, conversation_written, id_space, row_persisted,
    tweet_persisted,
};
use vstd::prelude::*;

verus! {

/// Whether a request asks the remote source for the post `id`.
pub open spec fn fetches(request: RequestView, id: i64) -> bool {
    request matches RequestView::RemoteTweet { id: wanted } && id >= 0 && wanted == id as u64
}

/// Whether a request inserts the row of the post `id`.
pub open spec fn writes(request: RequestView, id: i64) -> bool {
    request matches RequestView::InsertTweet { tweet } && tweet.id == id
}

/// How often the requests ask the remote source for the post `id`.
pub open spec fn fetch_count(requests: Seq<RequestView>, id: i64) -> nat
    decreases requests.len(),
{
    if requests.len() == 0 {
        0
    } else {
        fetch_count(requests.drop_last(), id) + if fetches(requests.last(), id) {
            1nat
        } else {
            0nat
        }
    }
}

/// How often the requests insert the row of the post `id`.
pub open spec fn write_count(requests: Seq<RequestView>, id: i64) -> nat
    decreases requests.len(),
{
    if requests.len() == 0 {
        0
    } else {
        write_count(requests.drop_last(), id) + if writes(requests.last(), id) {
            1nat
        } else {
            0nat
        }
    }
}

/// Whether nothing between two states of a gateway asked the remote source
/// for the post `id` or inserted its row.
pub open spec fn silent(before: GatewayView, after: GatewayView, id: i64) -> bool {
    &&& fetch_count(world_of(after).asked, id) == fetch_count(world_of(before).asked, id)
    &&& write_count(world_of(after).asked, id) == write_count(world_of(before).asked, id)
}

/// Every request that a direct gateway answers is counted once.
pub proof fn lemma_asked_counts(gateway: GatewayView, request: RequestView, id: i64)
    requires
        direct(gateway),
    ensures
        fetch_count(world_of(asked(gateway, request).0).asked, id) == fetch_count(
            world_of(gateway).asked,
            id,
        ) + if fetches(request, id) {
            1nat
        } else {
            0nat
        },
        write_count(world_of(asked(gateway, request).0).asked, id) == write_count(
            world_of(gateway).asked,
            id,
        ) + if writes(request, id) {
            1nat
        } else {
            0nat
        },
{
    lemma_asked(gateway, request);
    let before = world_of(gateway).asked;
    let after = world_of(asked(gateway, request).0).asked;
    assert(after == before.push(request));
    assert(after.drop_last() == before);
}

/// Loading an author asks for no post and inserts the row of no post.
pub proof fn lemma_user_loaded_silent(gateway: GatewayView, author: i64, id: i64)
    requires
        direct(gateway),
    ensures
        silent(gateway, user_loaded(gateway, author).0, id),
{
    lemma_user_read(gateway, author);
    lemma_asked_counts(gateway, RequestView::FindUser { id: author }, id);
    let local = user_read(gateway, author);
    if local.1->Ok_0.user is None && author >= 0 {
        let request = RequestView::RemoteUser { id: author as u64 };
        lemma_asked_remote(local.0, request);
        lemma_asked_counts(local.0, request, id);
        let fetched = user_fetched(local.0, author as u64);
        if fetched.1 is Ok {
            let data = fetched.1->Ok_0;
            if data.user is Some {
                lemma_asked_counts(fetched.0, RequestView::InsertUser { user: data.user->0 }, id);
            }
        }
    }
}

/// Writing the row of a post in dependency order asks the remote source
/// for no post and inserts the row of no other post.
pub proof fn lemma_row_persisted_counts(gateway: GatewayView, tweet: tweets::Model, id: i64)
    requires
        direct(gateway),
    ensures
        fetch_count(world_of(row_persisted(gateway, tweet).0).asked, id) == fetch_count(
            world_of(gateway).asked,
            id,
        ),
        write_count(world_of(row_persisted(gateway, tweet).0).asked, id) <= write_count(
            world_of(gateway).asked,
            id,
        ) + if tweet.id == id {
            1nat
        } else {
            0nat
        },
{
    lemma_user_loaded(gateway, tweet.author_id);
    lemma_user_loaded_silent(gateway, tweet.author_id, id);
    let author = user_loaded(gateway, tweet.author_id);
    if author.1 is Ok {
        lemma_conversation_known(author.0, tweet.conversation_id);
        lemma_asked_counts(
            author.0,
            RequestView::ConversationExists { id: tweet.conversation_id },
            id,
        );
        let known = conversation_known(author.0, tweet.conversation_id);
        let root = if known.1->Ok_0 {
            (known.0, Ok::<(), HaltView>(()))
        } else {
            conversation_written(known.0, tweet.conversation_id)
        };
        if !known.1->Ok_0 {
            lemma_conversation_written(known.0, tweet.conversation_id);
            lemma_asked_counts(
                known.0,
                RequestView::InsertConversation { id: tweet.conversation_id },
                id,
            );
        }
        lemma_asked_counts(root.0, RequestView::InsertTweet { tweet }, id);
    }
}

/// Writing edges asks for no post and inserts the row of no post.
pub proof fn lemma_edges_written_silent(
    gateway: GatewayView,
    edges: Seq<TweetReferenceData>,
    id: i64,
)
    requires
        direct(gateway),
    ensures
        silent(gateway, edges_written(gateway, edges).0, id),
    decreases edges.len(),
{
    if edges.len() > 0 {
        let request = RequestView::InsertReference { reference: edges[0] };
        lemma_asked(gateway, request);
        lemma_asked_counts(gateway, request, id);
        lemma_edges_written_silent(asked(gateway, request).0, edges.drop_first(), id);
    }
}

/// Writing the edges of a chain asks for no post and inserts the row of no
/// post.
pub proof fn lemma_chain_edges_written_silent(
    gateway: GatewayView,
    chain: Seq<TweetDataView>,
    id: i64,
)
    requires
        direct(gateway),
    ensures
        silent(gateway, chain_edges_written(gateway, chain).0, id),
    decreases chain.len(),
{
    if chain.len() > 0 {
        lemma_edges_written(gateway, chain.last().references);
        lemma_edges_written_silent(gateway, chain.last().references, id);
        let last = edges_written(gateway, chain.last().references);
        lemma_chain_edges_written_silent(last.0, chain.drop_last(), id);
    }
}

/// Writing the rows of a post and of the posts above it asks the remote
/// source only for posts that are not stored, and inserts the row of a
/// post that is stored only if it is the post that the walk starts from.
pub proof fn lemma_ancestors_persisted_counts(
    gateway: GatewayView,
    current: TweetDataView,
    guard: Seq<i64>,
    chain: Seq<TweetDataView>,
    id: i64,
)
    requires
        direct(gateway),
        current.tweet matches Some(tweet) ==> tweet.id == id || stored_post(
            world_of(gateway),
            id,
        ) is Some,
    ensures
        fetch_count(world_of(ancestors_persisted(gateway, current, guard, chain).0).asked, id)
            == fetch_count(world_of(gateway).asked, id),
        write_count(world_of(ancestors_persisted(gateway, current, guard, chain).0).asked, id)
            <= write_count(world_of(gateway).asked, id) + if current.tweet matches Some(tweet)
            && tweet.id == id {
            1nat
        } else {
            0nat
        },
    decreases id_space() - guard.len(),
{
    match current.tweet {
        None => {},
        Some(tweet) => {
            lemma_row_persisted(gateway, tweet);
            lemma_row_persisted_counts(gateway, tweet, id);
            let row = row_persisted(gateway, tweet);
            if row.1 is Ok {
                assert(stored_post(world_of(row.0), id) is Some);
                match reply_target_of(current) {
                    None => {},
                    Some(parent) => {
                        lemma_tweet_known(row.0, parent);
                        lemma_asked_counts(row.0, RequestView::TweetExists { id: parent }, id);
                        let known = tweet_known(row.0, parent);
                        assert(stored_post(world_of(known.0), id) is Some);
                        if known.1 == Ok::<bool, HaltView>(false) && !guard.contains(parent)
                            && guard.len() < id_space() && parent >= 0 {
                            assert(parent != id);
                            let request = RequestView::RemoteTweet { id: parent as u64 };
                            lemma_tweet_fetched(known.0, parent as u64);
                            lemma_asked_remote(known.0, request);
                            lemma_asked_counts(known.0, request, id);
                            let fetched = tweet_fetched(known.0, parent as u64);
                            assert(stored_post(world_of(fetched.0), id) is Some);
                            if fetched.1 is Ok {
                                let next = fetched.1->Ok_0;
                                if next.tweet is Some {
                                    assert(next.tweet->0.id == parent);
                                    lemma_ancestors_persisted_counts(
                                        fetched.0,
                                        next,
                                        guard.push(parent),
                                        chain.push(current),
                                        id,
                                    );
                                }
                            }
                        }
                    },
                }
            }
        },
    }
}

/// Loading once: a load asks the remote source for the post at most once
/// and inserts the row of the post at most once.
pub proof fn lemma_load_tweet_once(gateway: GatewayView, id: i64)
    requires
        direct(gateway),
    ensures
        fetch_count(world_of(tweet_loaded(gateway, id).0).asked, id) <= fetch_count(
            world_of(gateway).asked,
            id,
        ) + 1,
        write_count(world_of(tweet_loaded(gateway, id).0).asked, id) <= write_count(
            world_of(gateway).asked,
            id,
        ) + 1,
{
    reveal(tweet_loaded);
    lemma_tweet_read(gateway, id);
    lemma_asked_counts(gateway, RequestView::FindTweet { id }, id);
    let local = tweet_read(gateway, id);
    if stored_post(world_of(gateway), id) is None && id >= 0 {
        let request = RequestView::RemoteTweet { id: id as u64 };
        lemma_tweet_fetched(local.0, id as u64);
        lemma_asked_remote(local.0, request);
        lemma_asked_counts(local.0, request, id);
        let fetched = tweet_fetched(local.0, id as u64);
        if fetched.1 is Ok {
            let remote = fetched.1->Ok_0;
            if remote.tweet is Some {
                let tweet = remote.tweet->0;
                assert(tweet.id == id);
                lemma_ancestors_persisted_counts(
                    fetched.0,
                    remote,
                    seq![tweet.id],
                    Seq::empty(),
                    id,
                );
                crate::laws::lemma_ancestors_persisted(
                    fetched.0,
                    remote,
                    seq![tweet.id],
                    Seq::empty(),
                );
                let stored = ancestors_persisted(fetched.0, remote, seq![tweet.id], Seq::empty());
                if stored.1 is Ok {
                    lemma_chain_edges_written(stored.0, stored.1->Ok_0);
                    lemma_chain_edges_written_silent(stored.0, stored.1->Ok_0, id);
                }
                let persisted = tweet_persisted(fetched.0, remote);
                lemma_tweet_persisted(fetched.0, remote);
                if persisted.1 is Ok {
                    lemma_asked_counts(persisted.0, RequestView::FindTweet { id }, id);
                }
            }
        }
    }
}

/// Loading twice: where a load has succeeded, a second load asks the
/// remote source for nothing and inserts nothing.
pub proof fn lemma_load_tweet_again_is_silent(gateway: GatewayView, id: i64)
    requires
        direct(gateway),
        tweet_loaded(gateway, id).1 is Ok,
    ensures
        silent(tweet_loaded(gateway, id).0, tweet_loaded(tweet_loaded(gateway, id).0, id).0, id),
        world_of(tweet_loaded(tweet_loaded(gateway, id).0, id).0).asked == world_of(
            tweet_loaded(gateway, id).0,
        ).asked.push(RequestView::FindTweet { id }),
{
    crate::laws::lemma_load_tweet_twice(gateway, id);
    crate::laws::lemma_tweet_loaded(gateway, id);
    let first = tweet_loaded(gateway, id).0;
    let second = tweet_loaded(first, id).0;
    let before = world_of(first).asked;
    assert(world_of(second).asked == before.push(RequestView::FindTweet { id }));
    assert(world_of(second).asked.drop_last() == before);
}

} // verus!
