//! Writing to the local store in dependency order: the author and the
//! conversation root before the post, the post before its edges, and the
//! post that is replied to before the edge that points at it.

use crate::api::{get_tweet_by_id, tweet_fetched};
use crate::archive::{load_user_from_id, user_loaded};
use crate::entities::tweets;
use crate::error::ArchiveError;
use crate::gateway::{asked, lifted_list, plain, written_in, Gateway, GatewayView, Halt, HaltView};
use crate::protocol::{Request, RequestView};
use crate::read::{conversation_known, does_conversation_exist, does_tweet_exist, tweet_known};
use crate::records::{edges_written, user_written};
use crate::utils::{reply_target, TweetData, TweetDataView, UserData};
use vstd::prelude::*;

verus! {

/// The insert of a conversation root marker.
pub open spec fn conversation_written(gateway: GatewayView, id: i64) -> (
    GatewayView,
    Result<(), HaltView>,
) {
    let reply = asked(gateway, RequestView::InsertConversation { id });
    (reply.0, written_in(reply.1))
}

/// The insert of a post's row after its author and its conversation root
/// are in the store: the author is loaded through the store, the root marker
/// is written where the store has none, and only then the row is written. An
/// author that cannot be found makes the post a data error.
pub open spec fn row_persisted(gateway: GatewayView, tweet: tweets::Model) -> (
    GatewayView,
    Result<(), HaltView>,
) {
    let author = user_loaded(gateway, tweet.author_id);
    match author.1 {
        Err(HaltView::Failed(ArchiveError::NotFound)) => (
            author.0,
            Err(HaltView::Failed(ArchiveError::DataError)),
        ),
        Err(halt) => (author.0, Err(halt)),
        Ok(_) => {
            let known = conversation_known(author.0, tweet.conversation_id);
            match known.1 {
                Err(halt) => (known.0, Err(halt)),
                Ok(flag) => {
                    let root = if flag {
                        (known.0, Ok(()))
                    } else {
                        conversation_written(known.0, tweet.conversation_id)
                    };
                    match root.1 {
                        Err(halt) => (root.0, Err(halt)),
                        Ok(_) => {
                            let reply = asked(root.0, RequestView::InsertTweet { tweet });
                            (reply.0, written_in(reply.1))
                        },
                    }
                },
            }
        },
    }
}

/// The number of ids that a post can have.
pub open spec fn id_space() -> int {
    0x1_0000_0000_0000_0000
}

/// The rows of a post and of the posts it replies to, written from the post
/// upwards: `current` is the post to write next, `guard` holds the ids of
/// the posts on the way, and `chain` the posts whose rows are written.
///
/// After a row is written, the walk goes on to the post that `current`
/// replies to, if the store does not have it and the remote source does. It
/// ends in `CycleDetected` where that post is on the way already; a walk
/// that has been through every id can only meet one again.
pub open spec fn ancestors_persisted(
    gateway: GatewayView,
    current: TweetDataView,
    guard: Seq<i64>,
    chain: Seq<TweetDataView>,
) -> (GatewayView, Result<Seq<TweetDataView>, HaltView>)
    decreases id_space() - guard.len(),
{
    match current.tweet {
        None => (gateway, Ok(chain)),
        Some(tweet) => {
            let row = row_persisted(gateway, tweet);
            match row.1 {
                Err(halt) => (row.0, Err(halt)),
                Ok(_) => {
                    let longer = chain.push(current);
                    match reply_target(current.references) {
                        None => (row.0, Ok(longer)),
                        Some(parent) => {
                            let known = tweet_known(row.0, parent);
                            match known.1 {
                                Err(halt) => (known.0, Err(halt)),
                                Ok(true) => (known.0, Ok(longer)),
                                Ok(false) => if guard.contains(parent) || guard.len()
                                    >= id_space() {
                                    (known.0, Err(HaltView::Failed(ArchiveError::CycleDetected)))
                                } else if parent < 0 {
                                    (known.0, Ok(longer))
                                } else {
                                    let fetched = tweet_fetched(known.0, parent as u64);
                                    match fetched.1 {
                                        Err(halt) => (fetched.0, Err(halt)),
                                        Ok(next) => if next.tweet is None {
                                            (fetched.0, Ok(longer))
                                        } else {
                                            ancestors_persisted(
                                                fetched.0,
                                                next,
                                                guard.push(parent),
                                                longer,
                                            )
                                        },
                                    }
                                },
                            }
                        },
                    }
                },
            }
        },
    }
}

/// The edges of the posts of a chain, written from its last post to its
/// first.
pub open spec fn chain_edges_written(gateway: GatewayView, chain: Seq<TweetDataView>) -> (
    GatewayView,
    Result<(), HaltView>,
)
    decreases chain.len(),
{
    if chain.len() == 0 {
        (gateway, Ok(()))
    } else {
        let last = edges_written(gateway, chain.last().references);
        match last.1 {
            Ok(_) => chain_edges_written(last.0, chain.drop_last()),
            Err(halt) => (last.0, Err(halt)),
        }
    }
}

/// A post written in dependency order: first the rows of the post and of
/// the posts it replies to, each after its author and its conversation
/// root, then their edges, those of the earliest post first. Nothing is
/// written for the absent post.
pub open spec fn tweet_persisted(gateway: GatewayView, data: TweetDataView) -> (
    GatewayView,
    Result<(), HaltView>,
) {
    match data.tweet {
        None => (gateway, Ok(())),
        Some(tweet) => {
            let stored = ancestors_persisted(gateway, data, seq![tweet.id], Seq::empty());
            match stored.1 {
                Err(halt) => (stored.0, Err(halt)),
                Ok(chain) => chain_edges_written(stored.0, chain),
            }
        },
    }
}

/// Posts written in dependency order one after the other, up to the first
/// that fails.
pub open spec fn tweets_persisted(gateway: GatewayView, list: Seq<TweetDataView>) -> (
    GatewayView,
    Result<(), HaltView>,
)
    decreases list.len(),
{
    if list.len() == 0 {
        (gateway, Ok(()))
    } else {
        let first = tweet_persisted(gateway, list[0]);
        match first.1 {
            Ok(_) => tweets_persisted(first.0, list.drop_first()),
            Err(halt) => (first.0, Err(halt)),
        }
    }
}

fn persist_row(gateway: &mut Gateway, tweet: &tweets::Model) -> (done: Result<(), Halt>)
    ensures
        final(gateway)@ == row_persisted(old(gateway)@, *tweet).0,
        plain(done) == row_persisted(old(gateway)@, *tweet).1,
{
    match load_user_from_id(gateway, tweet.author_id) {
        Ok(_) => {},
        Err(Halt::Failed(ArchiveError::NotFound)) => {
            return Err(Halt::Failed(ArchiveError::DataError));
        },
        Err(halt) => {
            return Err(halt);
        },
    }
    let known = match does_conversation_exist(gateway, tweet.conversation_id) {
        Ok(known) => known,
        Err(halt) => {
            return Err(halt);
        },
    };
    if !known {
        match conversation(gateway, &tweet.conversation_id) {
            Ok(_) => {},
            Err(halt) => {
                return Err(halt);
            },
        }
    }
    gateway.ask_written(Request::InsertTweet { tweet: tweet.clone() })
}

fn contains_id(guard: &Vec<i64>, id: i64) -> (found: bool)
    ensures
        found == guard@.contains(id),
{
    let mut at: usize = 0;
    while at < guard.len()
        invariant
            at <= guard.len(),
            forall|j: int| 0 <= j < at ==> guard@[j] != id,
        decreases guard.len() - at,
    {
        if guard[at] == id {
            return true;
        }
        at += 1;
    }
    false
}

fn persist_ancestors(gateway: &mut Gateway, data: &TweetData, id: i64) -> (chain: Result<
    Vec<TweetData>,
    Halt,
>)
    ensures
        final(gateway)@ == ancestors_persisted(old(gateway)@, data@, seq![id], Seq::empty()).0,
        lifted_list(chain) == ancestors_persisted(old(gateway)@, data@, seq![id], Seq::empty()).1,
{
    let mut chain: Vec<TweetData> = Vec::new();
    let mut guard: Vec<i64> = Vec::new();
    guard.push(id);
    let mut current: TweetData = data.clone();
    assert(guard@ =~= seq![id]);
    assert(chain.deep_view() =~= Seq::empty());
    loop
        invariant
            ancestors_persisted(old(gateway)@, data@, seq![id], Seq::empty())
                == ancestors_persisted(gateway@, current@, guard@, chain.deep_view()),
        decreases usize::MAX - guard.len(),
    {
        let ghost so_far = chain.deep_view();
        let tweet = match &current.tweet {
            None => {
                return Ok(chain);
            },
            Some(tweet) => tweet,
        };
        match persist_row(gateway, tweet) {
            Ok(_) => {},
            Err(halt) => {
                return Err(halt);
            },
        }
        let parent = current.replied_to();
        let ghost written = current@;
        chain.push(current);
        assert(chain.deep_view() =~= so_far.push(written));
        let parent: i64 = match parent {
            None => {
                return Ok(chain);
            },
            Some(parent) => parent,
        };
        match does_tweet_exist(gateway, parent) {
            Err(halt) => {
                return Err(halt);
            },
            Ok(true) => {
                return Ok(chain);
            },
            Ok(false) => {},
        }
        if contains_id(&guard, parent) {
            return Err(Halt::Failed(ArchiveError::CycleDetected));
        }
        if parent < 0 {
            return Ok(chain);
        }
        let next = match get_tweet_by_id(gateway, parent as u64) {
            Err(halt) => {
                return Err(halt);
            },
            Ok(next) => next,
        };
        if next.tweet.is_none() {
            return Ok(chain);
        }
        guard.push(parent);
        current = next;
    }
}

fn write_chain_edges(gateway: &mut Gateway, chain: &Vec<TweetData>) -> (done: Result<(), Halt>)
    ensures
        final(gateway)@ == chain_edges_written(old(gateway)@, chain.deep_view()).0,
        plain(done) == chain_edges_written(old(gateway)@, chain.deep_view()).1,
{
    let mut left: usize = chain.len();
    let ghost all = chain.deep_view();
    assert(all.take(left as int) == all);
    while left > 0
        invariant
            left <= chain.len(),
            all == chain.deep_view(),
            chain_edges_written(old(gateway)@, all) == chain_edges_written(
                gateway@,
                all.take(left as int),
            ),
        decreases left,
    {
        let ghost part = all.take(left as int);
        assert(part.last() == chain@[left - 1]@);
        assert(part.drop_last() == all.take(left - 1));
        left -= 1;
        match chain[left].write_edges(gateway) {
            Ok(_) => {},
            Err(halt) => {
                return Err(halt);
            },
        }
    }
    Ok(())
}

/// Writes a post in dependency order; see [`tweet_persisted`].
pub fn tweet(gateway: &mut Gateway, tweet_data: &TweetData) -> (done: Result<(), Halt>)
    ensures
        final(gateway)@ == tweet_persisted(old(gateway)@, tweet_data@).0,
        plain(done) == tweet_persisted(old(gateway)@, tweet_data@).1,
{
    let id: i64 = match &tweet_data.tweet {
        None => {
            return Ok(());
        },
        Some(tweet) => tweet.id,
    };
    match persist_ancestors(gateway, tweet_data, id) {
        Ok(chain) => write_chain_edges(gateway, &chain),
        Err(halt) => Err(halt),
    }
}

/// Writes posts in dependency order one after the other and stops at the
/// first that fails; what is written by then stays.
pub fn tweets(gateway: &mut Gateway, list: &Vec<TweetData>) -> (done: Result<(), Halt>)
    ensures
        final(gateway)@ == tweets_persisted(old(gateway)@, list.deep_view()).0,
        plain(done) == tweets_persisted(old(gateway)@, list.deep_view()).1,
{
    let mut at: usize = 0;
    let ghost all = list.deep_view();
    assert(all.skip(0) == all);
    while at < list.len()
        invariant
            at <= list.len(),
            all == list.deep_view(),
            tweets_persisted(old(gateway)@, all) == tweets_persisted(gateway@, all.skip(at as int)),
        decreases list.len() - at,
    {
        let ghost rest = all.skip(at as int);
        assert(rest[0] == list@[at as int]@);
        assert(rest.drop_first() == all.skip(at + 1));
        match tweet(gateway, &list[at]) {
            Ok(_) => {},
            Err(halt) => {
                return Err(halt);
            },
        }
        at += 1;
    }
    Ok(())
}

/// Writes an author's row.
pub fn user(gateway: &mut Gateway, data: &UserData) -> (done: Result<(), Halt>)
    ensures
        final(gateway)@ == user_written(old(gateway)@, *data).0,
        plain(done) == user_written(old(gateway)@, *data).1,
{
    data.write(gateway)
}

/// Writes a conversation root marker.
pub fn conversation(gateway: &mut Gateway, conversation_id: &i64) -> (done: Result<(), Halt>)
    ensures
        final(gateway)@ == conversation_written(old(gateway)@, *conversation_id).0,
        plain(done) == conversation_written(old(gateway)@, *conversation_id).1,
{
    gateway.ask_written(Request::InsertConversation { id: *conversation_id })
}

} // verus!
