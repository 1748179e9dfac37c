//! What fetching a whole history brings into the store.

use crate::api::timeline_fetched;
use crate::archive::user_loaded_by_handle;
use crate::gateway::GatewayView;
use crate::invariants::well_formed;
use crate::laws::{
    direct, held, lemma_grown_keeps, lemma_history_fetched, lemma_steady_transitive,
    lemma_timeline_fetched, lemma_tweets_persisted, lemma_user_loaded_by_handle, world_of,
};
use crate::protocol::Timeline;
use crate::seed::{history_fetched, history_seeded};
use crate::tables::{kept, lemma_kept_contains};
use crate::utils::{decoded_tweet, UserData};
use crate::wire::TweetView;
use crate::world::{in_timeline, timeline, WorldView};
use crate::write::tweets_persisted;
use vstd::prelude::*;

verus! {

/// Whether the ids of remote posts fall from each post to the next: whether
/// a snapshot that is newest first gives newer posts larger ids.
pub open spec fn falling(rows: Seq<TweetView>) -> bool {
    forall|i: int, j: int|
        0 <= i < j < rows.len() ==> (#[trigger] rows[i]).id > (#[trigger] rows[j]).id
}

/// The question for a page of the history of an author: the posts of the
/// author below an id, or all of them.
pub open spec fn page_below(author: i64, until: Option<u64>) -> Timeline {
    Timeline { user_id: author as u64, max_results: None, start_time: None, until_id: until }
}

/// The remote posts of an author, newest first.
pub open spec fn remote_history(world: WorldView, author: i64) -> Seq<TweetView> {
    kept(world.remote_tweets, in_timeline(page_below(author, None)))
}

/// What is kept of rows with falling ids has falling ids, and every row
/// that is kept is a row.
pub proof fn lemma_kept_falling(rows: Seq<TweetView>, wanted: spec_fn(TweetView) -> bool)
    requires
        falling(rows),
    ensures
        falling(kept(rows, wanted)),
    decreases rows.len(),
{
    let all = kept(rows, wanted);
    if rows.len() > 0 {
        let rest = rows.drop_last();
        let part = kept(rest, wanted);
        assert forall|i: int, j: int| 0 <= i < j < rest.len() implies (#[trigger] rest[i]).id > (
        #[trigger] rest[j]).id by {
            assert(rest[i] == rows[i] && rest[j] == rows[j]);
        }
        lemma_kept_falling(rest, wanted);
        assert forall|i: int, j: int| 0 <= i < j < all.len() implies (#[trigger] all[i]).id > (
        #[trigger] all[j]).id by {
            if j >= part.len() {
                lemma_kept_contains(rest, wanted, part[i]);
                let k = choose|k: int| 0 <= k < rest.len() && rest[k] == part[i];
                assert(rows[k] == part[i]);
                assert(rows[rows.len() - 1] == all[j]);
            } else {
                assert(all[i] == part[i] && all[j] == part[j]);
            }
        }
    }
}

/// The posts of an author below the id of one of them are the posts of the
/// author behind that one, where ids fall.
pub proof fn lemma_page_below(rows: Seq<TweetView>, author: i64, at: int)
    requires
        falling(rows),
        0 <= at < kept(rows, in_timeline(page_below(author, None))).len(),
    ensures
        kept(
            rows,
            in_timeline(
                page_below(
                    author,
                    Some(kept(rows, in_timeline(page_below(author, None)))[at].id),
                ),
            ),
        ) == kept(rows, in_timeline(page_below(author, None))).skip(at + 1),
    decreases rows.len(),
{
    let whole = in_timeline(page_below(author, None));
    let all = kept(rows, whole);
    let mark = all[at].id;
    let lower = in_timeline(page_below(author, Some(mark)));
    lemma_kept_falling(rows, whole);
    let rest = rows.drop_last();
    let last = rows.last();
    assert forall|i: int, j: int| 0 <= i < j < rest.len() implies (#[trigger] rest[i]).id > (
    #[trigger] rest[j]).id by {
        assert(rest[i] == rows[i] && rest[j] == rows[j]);
    }
    let part = kept(rest, whole);
    if whole(last) {
        assert(all == part.push(last));
        if at == part.len() {
            lemma_nothing_below(rest, author, mark, last);
            assert(!lower(last));
            assert(kept(rows, lower) == kept(rest, lower));
            assert(all.skip(at + 1) =~= Seq::<TweetView>::empty());
        } else {
            assert(part[at] == all[at]);
            lemma_page_below(rest, author, at);
            assert(all[at].id > all[all.len() - 1].id);
            assert(lower(last));
            assert(kept(rows, lower) == kept(rest, lower).push(last));
            assert(all.skip(at + 1) =~= part.skip(at + 1).push(last));
        }
    } else {
        assert(all == part);
        lemma_page_below(rest, author, at);
        assert(!lower(last));
    }
}

/// No row is below the id of a row that comes after all of them, where ids
/// fall.
proof fn lemma_nothing_below(rows: Seq<TweetView>, author: i64, mark: u64, last: TweetView)
    requires
        falling(rows.push(last)),
        last.id == mark,
    ensures
        kept(rows, in_timeline(page_below(author, Some(mark)))).len() == 0,
    decreases rows.len(),
{
    let lower = in_timeline(page_below(author, Some(mark)));
    let longer = rows.push(last);
    if rows.len() > 0 {
        let rest = rows.drop_last();
        assert forall|i: int, j: int| 0 <= i < j < rest.push(last).len() implies (
        #[trigger] rest.push(last)[i]).id > (#[trigger] rest.push(last)[j]).id by {
            if j < rest.len() {
                assert(rest.push(last)[i] == longer[i] && rest.push(last)[j] == longer[j]);
            } else {
                assert(rest.push(last)[i] == longer[i]);
                assert(rest.push(last)[j] == longer[longer.len() - 1]);
            }
        }
        lemma_nothing_below(rest, author, mark, last);
        assert(longer[rows.len() - 1] == rows.last());
        assert(longer[rows.len() as int] == last);
        assert(rows.last().id > mark);
        assert(!lower(rows.last()));
    }
}

/// What fetching the history of an author from some page on brings into
/// the store: where the pages that may still be asked for can hold the
/// posts that are left, every one of them is stored in its local form.
pub proof fn lemma_history_fetched_covers(
    gateway: GatewayView,
    user: UserData,
    until: Option<u64>,
    pages_left: nat,
    done: nat,
)
    requires
        direct(gateway),
        well_formed(world_of(gateway)),
        falling(world_of(gateway).remote_tweets),
        user.user is Some,
        user.user->0.id >= 0,
        gateway.settings.page_size > 0,
        done <= remote_history(world_of(gateway), user.user->0.id).len(),
        kept(
            world_of(gateway).remote_tweets,
            in_timeline(page_below(user.user->0.id, until)),
        ) == remote_history(world_of(gateway), user.user->0.id).skip(done as int),
        remote_history(world_of(gateway), user.user->0.id).len() - done
            <= gateway.settings.page_size * pages_left,
        history_fetched(gateway, user, until, pages_left).1 is Ok,
    ensures
        forall|i: int|
            done <= i < remote_history(world_of(gateway), user.user->0.id).len()
                ==> decoded_tweet(
                #[trigger] remote_history(world_of(gateway), user.user->0.id)[i],
            ) is Ok && held(
                world_of(history_fetched(gateway, user, until, pages_left).0),
                decoded_tweet(remote_history(world_of(gateway), user.user->0.id)[i])->Ok_0,
            ),
    decreases pages_left,
{
    let world = world_of(gateway);
    let author = user.user->0.id;
    let size = gateway.settings.page_size;
    let all = remote_history(world, author);
    let left = all.skip(done as int);
    let end = history_fetched(gateway, user, until, pages_left);
    if pages_left == 0 {
        assert(size * pages_left == 0) by (nonlinear_arith)
            requires
                pages_left == 0,
        ;
    } else {
        lemma_timeline_fetched(gateway, user, Some(size), None, until);
        let page = timeline_fetched(gateway, user, Some(size), None, until);
        let query = Timeline {
            user_id: author as u64,
            max_results: Some(size),
            start_time: None,
            until_id: until,
        };
        assert(in_timeline(query) == in_timeline(page_below(author, until))) by {
            assert(in_timeline(query) =~= in_timeline(page_below(author, until)));
        }
        let remote = timeline(world, query);
        let list = page.1->Ok_0;
        let taken = remote.len();
        assert(forall|i: int| 0 <= i < taken ==> remote[i] == all[done + i]);
        assert(forall|i: int|
            0 <= i < taken ==> decoded_tweet(remote[i]) is Ok && #[trigger] list[i]
                == decoded_tweet(remote[i])->Ok_0);
        if list.len() > 0 {
            lemma_tweets_persisted(page.0, list);
            let stored = tweets_persisted(page.0, list);
            lemma_steady_transitive(gateway, page.0, stored.0);
            let oldest = list.last().tweet->0;
            assert(list.last() == decoded_tweet(remote[taken - 1])->Ok_0);
            assert(oldest.id as u64 == all[done + taken - 1].id);
            assert forall|i: int| done <= i < done + taken implies decoded_tweet(
                #[trigger] all[i],
            ) is Ok && held(world_of(end.0), decoded_tweet(all[i])->Ok_0) by {
                assert(remote[i - done] == all[i]);
                assert(held(world_of(stored.0), list[i - done]));
                lemma_history_fetched(
                    stored.0,
                    user,
                    Some(oldest.id as u64),
                    (pages_left - 1) as nat,
                );
                lemma_grown_keeps(world_of(stored.0), world_of(end.0), list[i - done]);
            }
            let next = (done + taken) as nat;
            lemma_page_below(world.remote_tweets, author, done + taken - 1);
            assert(all.len() - next <= size * (pages_left - 1)) by (nonlinear_arith)
                requires
                    all.len() - done <= size * pages_left,
                    taken == size || next == all.len(),
                    pages_left >= 1,
                    size > 0,
                    next == done + taken,
            ;
            assert(world_of(stored.0).remote_tweets == world.remote_tweets);
            assert(remote_history(world_of(stored.0), author) == all);
            lemma_history_fetched_covers(
                stored.0,
                user,
                Some(oldest.id as u64),
                (pages_left - 1) as nat,
                next,
            );
        }
    }
}

/// The whole history: where the history of an author was fetched, the ids
/// of the remote posts fall from each post to the next, and the pages that
/// the settings allow can hold the remote posts of the author, every remote
/// post of the author is stored in its local form.
pub proof fn lemma_history_seeded_covers(gateway: GatewayView, handle: Seq<char>)
    requires
        direct(gateway),
        well_formed(world_of(gateway)),
        falling(world_of(gateway).remote_tweets),
        gateway.settings.page_size > 0,
        history_seeded(gateway, handle).1 is Ok,
        remote_history(
            world_of(gateway),
            user_loaded_by_handle(gateway, handle).1->Ok_0.user->0.id,
        ).len() <= gateway.settings.page_size * gateway.settings.page_ceiling,
    ensures
        forall|i: int|
            0 <= i < remote_history(
                world_of(gateway),
                user_loaded_by_handle(gateway, handle).1->Ok_0.user->0.id,
            ).len() ==> decoded_tweet(
                #[trigger] remote_history(
                    world_of(gateway),
                    user_loaded_by_handle(gateway, handle).1->Ok_0.user->0.id,
                )[i],
            ) is Ok && held(
                world_of(history_seeded(gateway, handle).0),
                decoded_tweet(
                    remote_history(
                        world_of(gateway),
                        user_loaded_by_handle(gateway, handle).1->Ok_0.user->0.id,
                    )[i],
                )->Ok_0,
            ),
{
    lemma_user_loaded_by_handle(gateway, handle);
    let loaded = user_loaded_by_handle(gateway, handle);
    let user = loaded.1->Ok_0;
    let author = user.user->0.id;
    let world = world_of(gateway);
    let all = remote_history(world, author);
    assert(world_of(loaded.0).remote_tweets == world.remote_tweets);
    assert(all.skip(0) == all);
    let pages = loaded.0.settings.page_ceiling as nat;
    if all.len() > 0 {
        if author < 0 {
            // no page can be asked for on behalf of an author with a negative id
            lemma_timeline_fetched(loaded.0, user, Some(loaded.0.settings.page_size), None, None);
            assert(pages > 0) by (nonlinear_arith)
                requires
                    all.len() > 0,
                    all.len() <= gateway.settings.page_size * pages,
            ;
        } else {
            lemma_history_fetched_covers(loaded.0, user, None, pages, 0);
        }
    }
}

} // verus!
