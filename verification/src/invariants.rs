//! What holds of a world whatever is asked of it, and what archive
//! operations keep true of it.

use crate::entities::tweets;
use crate::entities::user;
use crate::protocol::RequestView;
use crate::tables::{
    first_match, kept, lead, lemma_first_match_at, lemma_first_match_insert_new,
    lemma_first_match_insert_other, lemma_first_match_push, lemma_lead,
};
use crate::utils::decoded_tweet;
use crate::wire::TweetView;
use crate::world::{
    answer, not_older, remote_tweet_with_id, selects, tweet_with_id, user_with_handle, user_with_id,
    Selection, WorldView,
};
use vstd::prelude::*;

verus! {

/// The stored post `id`.
pub open spec fn stored_post(world: WorldView, id: i64) -> Option<tweets::Model> {
    first_match(world.tweets, tweet_with_id(id))
}

/// The stored author `id`.
pub open spec fn stored_user(world: WorldView, id: i64) -> Option<user::Model> {
    first_match(world.users, user_with_id(id))
}

/// The stored author with a handle.
pub open spec fn stored_user_by_handle(world: WorldView, handle: Seq<char>) -> Option<
    user::Model,
> {
    first_match(world.users, user_with_handle(handle))
}

/// The remote post `id`.
pub open spec fn remote_post(world: WorldView, id: u64) -> Option<TweetView> {
    first_match(world.remote_tweets, remote_tweet_with_id(id))
}

/// Whether no post of the table is newer than a post before it.
pub open spec fn newest_first(rows: Seq<tweets::Model>) -> bool {
    forall|i: int, j: int|
        0 <= i < j < rows.len() ==> (#[trigger] rows[i]).created_at.seconds >= (
        #[trigger] rows[j]).created_at.seconds
}

/// Whether no two remote posts share an id.
pub open spec fn remote_distinct(rows: Seq<TweetView>) -> bool {
    forall|i: int, j: int|
        0 <= i < j < rows.len() ==> (#[trigger] rows[i]).id != (#[trigger] rows[j]).id
}

/// The order that the tables of a world are kept in: stored posts newest
/// first, and remote posts under distinct ids.
pub open spec fn well_formed(world: WorldView) -> bool {
    &&& newest_first(world.tweets)
    &&& remote_distinct(world.remote_tweets)
}

/// Whether the author and the conversation root of a post are stored.
pub open spec fn anchored(world: WorldView, tweet: tweets::Model) -> bool {
    &&& stored_user(world, tweet.author_id) is Some
    &&& world.conversations.contains(tweet.conversation_id)
}

/// Whether every stored post has its author and its conversation root
/// marker in the store.
pub open spec fn referential(world: WorldView) -> bool {
    forall|i: int| 0 <= i < world.tweets.len() ==> anchored(world, #[trigger] world.tweets[i])
}

/// Whether a post is the local form of the remote post with its id.
pub open spec fn remote_born(world: WorldView, tweet: tweets::Model) -> bool {
    &&& tweet.id >= 0
    &&& remote_post(world, tweet.id as u64) matches Some(remote)
    &&& decoded_tweet(remote) matches Ok(data)
    &&& data.tweet == Some(tweet)
}

/// Whether a post agrees with the remote snapshot: it is the local form of
/// the remote post with its id, if there is one.
pub open spec fn mirrored(world: WorldView, tweet: tweets::Model) -> bool {
    tweet.id >= 0 && remote_post(world, tweet.id as u64) is Some ==> remote_born(world, tweet)
}

/// Whether every stored post agrees with the remote snapshot.
pub open spec fn mirrors(world: WorldView) -> bool {
    forall|i: int| 0 <= i < world.tweets.len() ==> mirrored(world, #[trigger] world.tweets[i])
}

/// Whether `after` has answered what `before` has answered and then
/// more: the requests and answers of `before` are the first of `after`, and
/// as many answers as requests were added.
pub open spec fn extended(before: WorldView, after: WorldView) -> bool {
    &&& before.asked.len() <= after.asked.len()
    &&& after.asked.take(before.asked.len() as int) == before.asked
    &&& before.answers.len() <= after.answers.len()
    &&& after.answers.take(before.answers.len() as int) == before.answers
    &&& after.asked.len() - before.asked.len() == after.answers.len() - before.answers.len()
}

/// Whether `after` is `before` with rows added: the remote snapshot is the
/// same, every stored author, marker and post is still stored, under the
/// same key and with the same content, and the requests answered so far
/// were only added to.
pub open spec fn grown(before: WorldView, after: WorldView) -> bool {
    &&& extended(before, after)
    &&& after.remote_tweets == before.remote_tweets
    &&& after.remote_users == before.remote_users
    &&& forall|id: i64| #[trigger]
        stored_user(before, id) is Some ==> stored_user(after, id) == stored_user(before, id)
    &&& forall|handle: Seq<char>| #[trigger]
        stored_user_by_handle(before, handle) is Some ==> stored_user_by_handle(after, handle)
            == stored_user_by_handle(before, handle)
    &&& forall|id: i64| #[trigger]
        before.conversations.contains(id) ==> after.conversations.contains(id)
    &&& forall|id: i64| #[trigger]
        stored_post(before, id) is Some ==> stored_post(after, id) == stored_post(before, id)
    &&& forall|i: int|
        0 <= i < before.tweets.len() ==> after.tweets.contains(#[trigger] before.tweets[i])
}

/// Whether a request respects the order of writes: a post is inserted only
/// after its author and its conversation root.
pub open spec fn orderly(world: WorldView, request: RequestView) -> bool {
    request matches RequestView::InsertTweet { tweet } ==> anchored(world, tweet)
}

/// Whether a request writes what the remote snapshot holds: a post is
/// inserted only as the local form of the remote post with its id.
pub open spec fn faithful(world: WorldView, request: RequestView) -> bool {
    request matches RequestView::InsertTweet { tweet } ==> remote_born(world, tweet)
}

/// A world is itself with no rows added.
pub proof fn lemma_grown_reflexive(world: WorldView)
    ensures
        grown(world, world),
{
    assert(world.asked.take(world.asked.len() as int) == world.asked);
    assert(world.answers.take(world.answers.len() as int) == world.answers);
}

/// Rows that are added twice are added.
pub proof fn lemma_grown_transitive(first: WorldView, second: WorldView, third: WorldView)
    requires
        grown(first, second),
        grown(second, third),
    ensures
        grown(first, third),
{
    assert(third.asked.take(first.asked.len() as int) == second.asked.take(
        first.asked.len() as int,
    ));
    assert(third.answers.take(first.answers.len() as int) == second.answers.take(
        first.answers.len() as int,
    ));
    assert forall|i: int| 0 <= i < first.tweets.len() implies third.tweets.contains(
        #[trigger] first.tweets[i],
    ) by {
        let row = first.tweets[i];
        assert(second.tweets.contains(row));
        let k = choose|k: int| 0 <= k < second.tweets.len() && second.tweets[k] == row;
        assert(third.tweets.contains(second.tweets[k]));
    }
}

/// A post put before the first strictly older post leaves the table newest
/// first.
pub proof fn lemma_with_tweet_newest_first(rows: Seq<tweets::Model>, tweet: tweets::Model)
    requires
        newest_first(rows),
    ensures
        newest_first(rows.insert(lead(rows, not_older(tweet.created_at.seconds)), tweet)),
{
    let ahead = not_older(tweet.created_at.seconds);
    let at = lead(rows, ahead);
    lemma_lead(rows, ahead);
    let after = rows.insert(at, tweet);
    assert forall|i: int, j: int| 0 <= i < j < after.len() implies (
    #[trigger] after[i]).created_at.seconds >= (#[trigger] after[j]).created_at.seconds by {
        if j < at {
            assert(after[i] == rows[i] && after[j] == rows[j]);
        } else if j == at {
            assert(after[i] == rows[i]);
            assert(ahead(rows[i]));
        } else if i < at {
            assert(after[i] == rows[i] && after[j] == rows[j - 1]);
        } else if i == at {
            assert(after[j] == rows[j - 1]);
            assert(!ahead(rows[at]));
            if j - 1 > at {
                assert(rows[at].created_at.seconds >= rows[j - 1].created_at.seconds);
            }
        } else {
            assert(after[i] == rows[i - 1] && after[j] == rows[j - 1]);
        }
    }
}

/// What an answer does to a world: rows are only added, the order of the
/// tables is kept, an orderly request keeps every post with its author and
/// its conversation root, and a faithful request keeps the store in
/// agreement with the remote snapshot.
pub proof fn lemma_answer(world: WorldView, request: RequestView)
    ensures
        grown(world, answer(world, request).0),
        well_formed(world) ==> well_formed(answer(world, request).0),
        orderly(world, request) && referential(world) ==> referential(answer(world, request).0),
        faithful(world, request) && mirrors(world) ==> mirrors(answer(world, request).0),
{
    let after = answer(world, request).0;
    assert(after.asked.take(world.asked.len() as int) == world.asked);
    assert(after.answers.take(world.answers.len() as int) == world.answers);
    match request {
        RequestView::InsertUser { user } => {
            if stored_user(world, user.id) is None {
                assert forall|id: i64| #[trigger]
                    stored_user(world, id) is Some implies stored_user(after, id) == stored_user(
                    world,
                    id,
                ) by {
                    lemma_first_match_push(world.users, user_with_id(id), user);
                }
                assert forall|handle: Seq<char>| #[trigger]
                    stored_user_by_handle(world, handle) is Some implies stored_user_by_handle(
                    after,
                    handle,
                ) == stored_user_by_handle(world, handle) by {
                    lemma_first_match_push(world.users, user_with_handle(handle), user);
                }
                assert forall|i: int| 0 <= i < world.tweets.len() implies after.tweets.contains(
                    #[trigger] world.tweets[i],
                ) by {
                    assert(after.tweets[i] == world.tweets[i]);
                }
                if referential(world) {
                    assert forall|i: int| 0 <= i < after.tweets.len() implies anchored(
                        after,
                        #[trigger] after.tweets[i],
                    ) by {
                        assert(anchored(world, world.tweets[i]));
                        assert(stored_user(world, world.tweets[i].author_id) is Some);
                    }
                }
                if mirrors(world) {
                    assert forall|i: int| 0 <= i < after.tweets.len() implies mirrored(
                        after,
                        #[trigger] after.tweets[i],
                    ) by {
                        assert(mirrored(world, world.tweets[i]));
                    }
                }
            } else {
                lemma_unchanged(world, after);
            }
        },
        RequestView::InsertConversation { id } => {
            if !world.conversations.contains(id) {
                assert forall|other: i64| #[trigger]
                    world.conversations.contains(other) implies after.conversations.contains(
                    other,
                ) by {
                    let k = choose|k: int|
                        0 <= k < world.conversations.len() && world.conversations[k] == other;
                    assert(after.conversations[k] == other);
                }
                assert forall|i: int| 0 <= i < world.tweets.len() implies after.tweets.contains(
                    #[trigger] world.tweets[i],
                ) by {
                    assert(after.tweets[i] == world.tweets[i]);
                }
                if referential(world) {
                    assert forall|i: int| 0 <= i < after.tweets.len() implies anchored(
                        after,
                        #[trigger] after.tweets[i],
                    ) by {
                        assert(anchored(world, world.tweets[i]));
                        assert(world.conversations.contains(world.tweets[i].conversation_id));
                    }
                }
                if mirrors(world) {
                    assert forall|i: int| 0 <= i < after.tweets.len() implies mirrored(
                        after,
                        #[trigger] after.tweets[i],
                    ) by {
                        assert(mirrored(world, world.tweets[i]));
                    }
                }
            } else {
                lemma_unchanged(world, after);
            }
        },
        RequestView::InsertTweet { tweet } => {
            if stored_post(world, tweet.id) is None {
                let at = lead(world.tweets, not_older(tweet.created_at.seconds));
                lemma_lead(world.tweets, not_older(tweet.created_at.seconds));
                assert(after.tweets == world.tweets.insert(at, tweet));
                assert forall|id: i64| #[trigger]
                    stored_post(world, id) is Some implies stored_post(after, id) == stored_post(
                    world,
                    id,
                ) by {
                    lemma_first_match_insert_other(world.tweets, tweet_with_id(id), at, tweet);
                }
                assert forall|i: int| 0 <= i < world.tweets.len() implies after.tweets.contains(
                    #[trigger] world.tweets[i],
                ) by {
                    if i < at {
                        assert(after.tweets[i] == world.tweets[i]);
                    } else {
                        assert(after.tweets[i + 1] == world.tweets[i]);
                    }
                }
                if well_formed(world) {
                    lemma_with_tweet_newest_first(world.tweets, tweet);
                }
                if orderly(world, request) && referential(world) {
                    assert forall|i: int| 0 <= i < after.tweets.len() implies anchored(
                        after,
                        #[trigger] after.tweets[i],
                    ) by {
                        if i < at {
                            assert(after.tweets[i] == world.tweets[i]);
                            assert(anchored(world, world.tweets[i]));
                        } else if i > at {
                            assert(after.tweets[i] == world.tweets[i - 1]);
                            assert(anchored(world, world.tweets[i - 1]));
                        }
                    }
                }
                if faithful(world, request) && mirrors(world) {
                    assert forall|i: int| 0 <= i < after.tweets.len() implies mirrored(
                        after,
                        #[trigger] after.tweets[i],
                    ) by {
                        if i < at {
                            assert(after.tweets[i] == world.tweets[i]);
                            assert(mirrored(world, world.tweets[i]));
                        } else if i > at {
                            assert(after.tweets[i] == world.tweets[i - 1]);
                            assert(mirrored(world, world.tweets[i - 1]));
                        }
                    }
                }
            } else {
                lemma_unchanged(world, after);
            }
        },
        _ => {
            lemma_unchanged(world, after);
        },
    }
}

/// A world whose authors, markers, posts and remote snapshot are the same
/// has kept everything.
proof fn lemma_unchanged(world: WorldView, after: WorldView)
    requires
        extended(world, after),
        after.users == world.users,
        after.conversations == world.conversations,
        after.tweets == world.tweets,
        after.remote_tweets == world.remote_tweets,
        after.remote_users == world.remote_users,
    ensures
        grown(world, after),
        well_formed(world) ==> well_formed(after),
        referential(world) ==> referential(after),
        mirrors(world) ==> mirrors(after),
{
    assert forall|i: int| 0 <= i < world.tweets.len() implies after.tweets.contains(
        #[trigger] world.tweets[i],
    ) by {
        assert(after.tweets[i] == world.tweets[i]);
    }
    if referential(world) {
        assert forall|i: int| 0 <= i < after.tweets.len() implies anchored(
            after,
            #[trigger] after.tweets[i],
        ) by {
            assert(anchored(world, world.tweets[i]));
        }
    }
    if mirrors(world) {
        assert forall|i: int| 0 <= i < after.tweets.len() implies mirrored(
            after,
            #[trigger] after.tweets[i],
        ) by {
            assert(mirrored(world, world.tweets[i]));
        }
    }
}

/// What an insert leaves in the store: after an author, a marker or a post
/// is inserted, it is stored, whether the row was new or not. A post that
/// was new is stored as it was given.
pub proof fn lemma_answer_stores(world: WorldView, request: RequestView)
    ensures
        request matches RequestView::InsertUser { user } ==> stored_user(
            answer(world, request).0,
            user.id,
        ) is Some,
        request matches RequestView::InsertConversation { id } ==> answer(
            world,
            request,
        ).0.conversations.contains(id),
        request matches RequestView::InsertTweet { tweet } ==> stored_post(
            answer(world, request).0,
            tweet.id,
        ) is Some,
        request matches RequestView::InsertTweet { tweet } ==> stored_post(world, tweet.id)
            is None ==> stored_post(answer(world, request).0, tweet.id) == Some(tweet),
{
    let after = answer(world, request).0;
    match request {
        RequestView::InsertUser { user } => {
            if stored_user(world, user.id) is None {
                lemma_first_match_push(world.users, user_with_id(user.id), user);
            }
        },
        RequestView::InsertConversation { id } => {
            if !world.conversations.contains(id) {
                assert(after.conversations[world.conversations.len() as int] == id);
            }
        },
        RequestView::InsertTweet { tweet } => {
            if stored_post(world, tweet.id) is None {
                let at = lead(world.tweets, not_older(tweet.created_at.seconds));
                lemma_lead(world.tweets, not_older(tweet.created_at.seconds));
                lemma_first_match_insert_new(world.tweets, tweet_with_id(tweet.id), at, tweet);
            }
        },
        _ => {},
    }
}

/// A remote post is the one that is found under its id, where no two remote
/// posts share an id.
pub proof fn lemma_remote_post_found(world: WorldView, at: int)
    requires
        remote_distinct(world.remote_tweets),
        0 <= at < world.remote_tweets.len(),
    ensures
        remote_post(world, world.remote_tweets[at].id) == Some(world.remote_tweets[at]),
{
    let id = world.remote_tweets[at].id;
    assert forall|j: int| 0 <= j < at implies !remote_tweet_with_id(id)(
        #[trigger] world.remote_tweets[j],
    ) by {}
    lemma_first_match_at(world.remote_tweets, remote_tweet_with_id(id), at);
}

/// What is kept of posts that are newest first is newest first, and every
/// post of the table is no newer than the first that is kept of its kind.
pub proof fn lemma_kept_newest_first(rows: Seq<tweets::Model>, selection: Selection)
    requires
        newest_first(rows),
    ensures
        newest_first(kept(rows, selects(selection))),
        forall|i: int|
            0 <= i < kept(rows, selects(selection)).len() ==> rows.contains(
                #[trigger] kept(rows, selects(selection))[i],
            ) && selects(selection)(kept(rows, selects(selection))[i]),
        forall|j: int|
            0 <= j < rows.len() && selects(selection)(#[trigger] rows[j]) ==> kept(
                rows,
                selects(selection),
            ).len() > 0 && kept(rows, selects(selection))[0].created_at.seconds
                >= rows[j].created_at.seconds,
    decreases rows.len(),
{
    let wanted = selects(selection);
    let all = kept(rows, wanted);
    if rows.len() > 0 {
        let rest = rows.drop_last();
        let part = kept(rest, wanted);
        assert forall|i: int, j: int| 0 <= i < j < rest.len() implies (
        #[trigger] rest[i]).created_at.seconds >= (#[trigger] rest[j]).created_at.seconds by {
            assert(rest[i] == rows[i] && rest[j] == rows[j]);
        }
        lemma_kept_newest_first(rest, selection);
        assert forall|i: int| 0 <= i < all.len() implies rows.contains(#[trigger] all[i])
            && wanted(all[i]) by {
            if i < part.len() {
                assert(rest.contains(part[i]));
                let k = choose|k: int| 0 <= k < rest.len() && rest[k] == part[i];
                assert(rows[k] == part[i]);
            } else {
                assert(rows[rows.len() - 1] == all[i]);
            }
        }
        assert forall|i: int, j: int| 0 <= i < j < all.len() implies (
        #[trigger] all[i]).created_at.seconds >= (#[trigger] all[j]).created_at.seconds by {
            if j >= part.len() {
                assert(rest.contains(part[i]));
                let k = choose|k: int| 0 <= k < rest.len() && rest[k] == part[i];
                assert(rows[k] == part[i]);
                assert(rows[rows.len() - 1] == all[j]);
            } else {
                assert(all[i] == part[i] && all[j] == part[j]);
            }
        }
        assert forall|j: int| 0 <= j < rows.len() && wanted(#[trigger] rows[j]) implies all.len()
            > 0 && all[0].created_at.seconds >= rows[j].created_at.seconds by {
            if j < rest.len() {
                assert(rest[j] == rows[j]);
                assert(all[0] == part[0]);
            } else {
                if part.len() > 0 {
                    assert(rest.contains(part[0]));
                    let k = choose|k: int| 0 <= k < rest.len() && rest[k] == part[0];
                    assert(rows[k] == part[0]);
                    assert(all[0] == part[0]);
                }
            }
        }
    }
}

/// A remote post under a new id leaves the ids of the remote posts
/// distinct, wherever it is put.
pub proof fn lemma_remote_insert_distinct(rows: Seq<TweetView>, at: int, tweet: TweetView)
    requires
        remote_distinct(rows),
        0 <= at <= rows.len(),
        first_match(rows, remote_tweet_with_id(tweet.id)) is None,
    ensures
        remote_distinct(rows.insert(at, tweet)),
{
    crate::tables::lemma_first_match(rows, remote_tweet_with_id(tweet.id));
    let after = rows.insert(at, tweet);
    assert forall|i: int, j: int| 0 <= i < j < after.len() implies (#[trigger] after[i]).id != (
    #[trigger] after[j]).id by {
        let a = if i < at {
            i
        } else {
            i - 1
        };
        let b = if j < at {
            j
        } else {
            j - 1
        };
        if i == at {
            assert(after[j] == rows[b]);
            assert(!remote_tweet_with_id(tweet.id)(rows[b]));
        } else if j == at {
            assert(after[i] == rows[a]);
            assert(!remote_tweet_with_id(tweet.id)(rows[a]));
        } else {
            assert(after[i] == rows[a] && after[j] == rows[b]);
        }
    }
}

/// A post that has its author and its conversation root marker in the
/// store keeps them as the world grows.
pub proof fn lemma_grown_keeps_anchored(before: WorldView, after: WorldView, tweet: tweets::Model)
    requires
        grown(before, after),
        anchored(before, tweet),
    ensures
        anchored(after, tweet),
{
    assert(stored_user(before, tweet.author_id) is Some);
    assert(before.conversations.contains(tweet.conversation_id));
}

/// An empty store has every post with its author and its conversation
/// root marker, agrees with every remote snapshot, and is newest first.
pub proof fn lemma_empty_store(world: WorldView)
    requires
        world.tweets.len() == 0,
    ensures
        referential(world),
        mirrors(world),
        newest_first(world.tweets),
{
}

} // verus!
