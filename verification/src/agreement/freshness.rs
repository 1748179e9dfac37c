//! Freshness, backfill and history.

use crate::agreement::{
    agrees, answered_since, asked_since, lemma_asked_extends, lemma_asked_replayed,
    lemma_extended_transitive, lemma_nothing_asked, lemma_step, replay, replayed,
};
use crate::agreement::loading::{
    lemma_conversations_loaded_replayed, lemma_user_loaded_by_handle_replayed,
};
use crate::agreement::reading::{
    lemma_latest_read_replayed, lemma_newest_fetched_replayed, lemma_timeline_fetched_replayed,
};
use crate::agreement::writing::lemma_tweets_persisted_replayed;
use crate::api::{newest_fetched, timeline_fetched};
use crate::archive::{
    backfilled, conversations_loaded, local_latest_stamp, new_tweets_fetched, new_tweets_stored,
    remote_latest_stamp, remote_newer_than, staleness, tweets_since_loaded,
    user_conversations_loaded, user_loaded_by_handle, user_tweets_loaded,
};
use crate::clock::instant_of;
use crate::gateway::{asked, GatewayView, HaltView};
use crate::laws::{
    direct, lemma_backfilled, lemma_conversations_loaded, lemma_history_fetched,
    lemma_history_seeded, lemma_latest_read, lemma_local_latest_stamp_carried,
    lemma_new_tweets_fetched, lemma_new_tweets_stored_carried, lemma_newest_fetched,
    lemma_remote_newer_than, lemma_staleness_carried, lemma_steady_reflexive,
    lemma_timeline_fetched, lemma_tweets_persisted, lemma_user_loaded_by_handle,
    lemma_user_tweets_loaded, lemma_users_tweets_read, lemma_users_tweets_since_read, world_of,
};
use crate::protocol::{RequestView, ResponseView};
use crate::read::{latest_read, users_tweets_read, users_tweets_since_read};
use crate::seed::{history_fetched, history_seeded};
use crate::utils::UserData;
use crate::write::tweets_persisted;
use vstd::prelude::*;

verus! {

/// Reading the creation time of the newest stored post of an author replays.
pub proof fn lemma_local_latest_stamp_replayed(
    gateway: GatewayView,
    handle: Seq<char>,
    script: Seq<ResponseView>,
    next: nat,
)
    requires
        direct(gateway),
        agrees(
            script,
            next,
            answered_since(world_of(gateway), world_of(local_latest_stamp(gateway, handle).0)),
        ),
    ensures
        local_latest_stamp(replay(gateway.settings, script, next), handle) == replayed(
            gateway.settings,
            script,
            next,
            asked_since(world_of(gateway), world_of(local_latest_stamp(gateway, handle).0)),
            answered_since(world_of(gateway), world_of(local_latest_stamp(gateway, handle).0)),
            local_latest_stamp(gateway, handle).1,
        ),
{
    let settings = gateway.settings;
    let end = local_latest_stamp(gateway, handle);
    let loaded = user_loaded_by_handle(gateway, handle);
    let after_loaded = loaded.0;
    lemma_user_loaded_by_handle(gateway, handle);
    let latest = latest_read(after_loaded, loaded.1->Ok_0.user->0.id);
    let has_author = loaded.1 is Ok && loaded.1->Ok_0.user is Some;
    let after_latest = if has_author {
        latest.0
    } else {
        after_loaded
    };
    if has_author {
        lemma_latest_read(after_loaded, loaded.1->Ok_0.user->0.id);
    } else {
        lemma_steady_reflexive(after_loaded);
    }
    assert(end.0 == after_latest);
    lemma_steady_reflexive(after_latest);
    lemma_extended_transitive(world_of(gateway), world_of(after_loaded), world_of(after_latest));
    lemma_step(settings, script, next, gateway, after_loaded, after_latest, end.1);
    lemma_user_loaded_by_handle_replayed(gateway, handle, script, next);
    let at_loaded = next + answered_since(world_of(gateway), world_of(after_loaded)).len();
    lemma_step(settings, script, at_loaded, after_loaded, after_latest, after_latest, end.1);
    if has_author && at_loaded <= script.len() {
        lemma_latest_read_replayed(after_loaded, loaded.1->Ok_0.user->0.id, script, at_loaded);
    }
}

/// Fetching the creation time of the newest remote post of an author replays.
pub proof fn lemma_remote_latest_stamp_replayed(
    gateway: GatewayView,
    handle: Seq<char>,
    script: Seq<ResponseView>,
    next: nat,
)
    requires
        direct(gateway),
        agrees(
            script,
            next,
            answered_since(world_of(gateway), world_of(remote_latest_stamp(gateway, handle).0)),
        ),
    ensures
        remote_latest_stamp(replay(gateway.settings, script, next), handle) == replayed(
            gateway.settings,
            script,
            next,
            asked_since(world_of(gateway), world_of(remote_latest_stamp(gateway, handle).0)),
            answered_since(world_of(gateway), world_of(remote_latest_stamp(gateway, handle).0)),
            remote_latest_stamp(gateway, handle).1,
        ),
{
    let settings = gateway.settings;
    let end = remote_latest_stamp(gateway, handle);
    let loaded = user_loaded_by_handle(gateway, handle);
    let after_loaded = loaded.0;
    lemma_user_loaded_by_handle(gateway, handle);
    let newest = newest_fetched(after_loaded, loaded.1->Ok_0);
    let has_author = loaded.1 is Ok;
    let after_newest = if has_author {
        newest.0
    } else {
        after_loaded
    };
    if has_author {
        lemma_newest_fetched(after_loaded, loaded.1->Ok_0);
    } else {
        lemma_steady_reflexive(after_loaded);
    }
    assert(end.0 == after_newest);
    lemma_steady_reflexive(after_newest);
    lemma_extended_transitive(world_of(gateway), world_of(after_loaded), world_of(after_newest));
    lemma_step(settings, script, next, gateway, after_loaded, after_newest, end.1);
    lemma_user_loaded_by_handle_replayed(gateway, handle, script, next);
    let at_loaded = next + answered_since(world_of(gateway), world_of(after_loaded)).len();
    lemma_step(settings, script, at_loaded, after_loaded, after_newest, after_newest, end.1);
    if has_author && at_loaded <= script.len() {
        lemma_newest_fetched_replayed(after_loaded, loaded.1->Ok_0, script, at_loaded);
    }
}

/// Comparing the newest remote post of an author with an instant replays.
pub proof fn lemma_remote_newer_than_replayed(
    gateway: GatewayView,
    handle: Seq<char>,
    seconds: i64,
    script: Seq<ResponseView>,
    next: nat,
)
    requires
        direct(gateway),
        agrees(
            script,
            next,
            answered_since(
                world_of(gateway),
                world_of(remote_newer_than(gateway, handle, seconds).0),
            ),
        ),
    ensures
        remote_newer_than(replay(gateway.settings, script, next), handle, seconds) == replayed(
            gateway.settings,
            script,
            next,
            asked_since(world_of(gateway), world_of(remote_newer_than(gateway, handle, seconds).0)),
            answered_since(
                world_of(gateway),
                world_of(remote_newer_than(gateway, handle, seconds).0),
            ),
            remote_newer_than(gateway, handle, seconds).1,
        ),
{
    let settings = gateway.settings;
    let end = remote_newer_than(gateway, handle, seconds);
    let loaded = user_loaded_by_handle(gateway, handle);
    let after_loaded = loaded.0;
    lemma_user_loaded_by_handle(gateway, handle);
    let newest = newest_fetched(after_loaded, loaded.1->Ok_0);
    let has_author = loaded.1 is Ok;
    let after_newest = if has_author {
        newest.0
    } else {
        after_loaded
    };
    if has_author {
        lemma_newest_fetched(after_loaded, loaded.1->Ok_0);
    } else {
        lemma_steady_reflexive(after_loaded);
    }
    assert(end.0 == after_newest);
    lemma_steady_reflexive(after_newest);
    lemma_extended_transitive(world_of(gateway), world_of(after_loaded), world_of(after_newest));
    lemma_step(settings, script, next, gateway, after_loaded, after_newest, end.1);
    lemma_user_loaded_by_handle_replayed(gateway, handle, script, next);
    let at_loaded = next + answered_since(world_of(gateway), world_of(after_loaded)).len();
    lemma_step(settings, script, at_loaded, after_loaded, after_newest, after_newest, end.1);
    if has_author && at_loaded <= script.len() {
        lemma_newest_fetched_replayed(after_loaded, loaded.1->Ok_0, script, at_loaded);
    }
}

/// A staleness check replays.
pub proof fn lemma_staleness_replayed(
    gateway: GatewayView,
    handle: Seq<char>,
    script: Seq<ResponseView>,
    next: nat,
)
    requires
        direct(gateway),
        agrees(
            script,
            next,
            answered_since(world_of(gateway), world_of(staleness(gateway, handle).0)),
        ),
    ensures
        staleness(replay(gateway.settings, script, next), handle) == replayed(
            gateway.settings,
            script,
            next,
            asked_since(world_of(gateway), world_of(staleness(gateway, handle).0)),
            answered_since(world_of(gateway), world_of(staleness(gateway, handle).0)),
            staleness(gateway, handle).1,
        ),
{
    let settings = gateway.settings;
    let end = staleness(gateway, handle);
    let local = local_latest_stamp(gateway, handle);
    let after_local = local.0;
    lemma_local_latest_stamp_carried(gateway, handle);
    let remote = remote_newer_than(after_local, handle, local.1->Ok_0.seconds);
    let has_posts = local.1 is Ok;
    let after_remote = if has_posts {
        remote.0
    } else {
        after_local
    };
    if has_posts {
        lemma_remote_newer_than(after_local, handle, local.1->Ok_0.seconds);
    } else {
        lemma_steady_reflexive(after_local);
    }
    assert(end.0 == after_remote);
    lemma_steady_reflexive(after_remote);
    lemma_extended_transitive(world_of(gateway), world_of(after_local), world_of(after_remote));
    lemma_step(settings, script, next, gateway, after_local, after_remote, end.1);
    lemma_local_latest_stamp_replayed(gateway, handle, script, next);
    let at_local = next + answered_since(world_of(gateway), world_of(after_local)).len();
    lemma_step(settings, script, at_local, after_local, after_remote, after_remote, end.1);
    if has_posts && at_local <= script.len() {
        lemma_remote_newer_than_replayed(
            after_local,
            handle,
            local.1->Ok_0.seconds,
            script,
            at_local,
        );
    }
}

/// Fetching the new posts of an author replays.
pub proof fn lemma_new_tweets_fetched_replayed(
    gateway: GatewayView,
    handle: Seq<char>,
    script: Seq<ResponseView>,
    next: nat,
)
    requires
        direct(gateway),
        agrees(
            script,
            next,
            answered_since(world_of(gateway), world_of(new_tweets_fetched(gateway, handle).0)),
        ),
    ensures
        new_tweets_fetched(replay(gateway.settings, script, next), handle) == replayed(
            gateway.settings,
            script,
            next,
            asked_since(world_of(gateway), world_of(new_tweets_fetched(gateway, handle).0)),
            answered_since(world_of(gateway), world_of(new_tweets_fetched(gateway, handle).0)),
            new_tweets_fetched(gateway, handle).1,
        ),
{
    let settings = gateway.settings;
    let end = new_tweets_fetched(gateway, handle);
    let loaded = user_loaded_by_handle(gateway, handle);
    let after_loaded = loaded.0;
    lemma_user_loaded_by_handle(gateway, handle);
    let from = local_latest_stamp(after_loaded, handle);
    let has_author = loaded.1 is Ok;
    let after_from = if has_author {
        from.0
    } else {
        after_loaded
    };
    if has_author {
        lemma_local_latest_stamp_carried(after_loaded, handle);
    } else {
        lemma_steady_reflexive(after_loaded);
    }
    let fresh = timeline_fetched(after_from, loaded.1->Ok_0, None, Some(from.1->Ok_0), None);
    let has_posts = has_author && from.1 is Ok;
    let after_fresh = if has_posts {
        fresh.0
    } else {
        after_from
    };
    if has_posts {
        lemma_timeline_fetched(after_from, loaded.1->Ok_0, None, Some(from.1->Ok_0), None);
    } else {
        lemma_steady_reflexive(after_from);
    }
    assert(end.0 == after_fresh);
    lemma_steady_reflexive(after_fresh);
    lemma_extended_transitive(world_of(after_loaded), world_of(after_from), world_of(after_fresh));
    lemma_extended_transitive(world_of(gateway), world_of(after_loaded), world_of(after_fresh));
    lemma_step(settings, script, next, gateway, after_loaded, after_fresh, end.1);
    lemma_user_loaded_by_handle_replayed(gateway, handle, script, next);
    let at_loaded = next + answered_since(world_of(gateway), world_of(after_loaded)).len();
    lemma_step(settings, script, at_loaded, after_loaded, after_from, after_fresh, end.1);
    if has_author && at_loaded <= script.len() {
        lemma_local_latest_stamp_replayed(after_loaded, handle, script, at_loaded);
    }
    let at_from = at_loaded + answered_since(world_of(after_loaded), world_of(after_from)).len();
    lemma_step(settings, script, at_from, after_from, after_fresh, after_fresh, end.1);
    if has_posts && at_from <= script.len() {
        lemma_timeline_fetched_replayed(
            after_from,
            loaded.1->Ok_0,
            None,
            Some(from.1->Ok_0),
            None,
            script,
            at_from,
        );
    }
}

/// Storing the new posts of an author replays.
pub proof fn lemma_new_tweets_stored_replayed(
    gateway: GatewayView,
    handle: Seq<char>,
    script: Seq<ResponseView>,
    next: nat,
)
    requires
        direct(gateway),
        agrees(
            script,
            next,
            answered_since(world_of(gateway), world_of(new_tweets_stored(gateway, handle).0)),
        ),
    ensures
        new_tweets_stored(replay(gateway.settings, script, next), handle) == replayed(
            gateway.settings,
            script,
            next,
            asked_since(world_of(gateway), world_of(new_tweets_stored(gateway, handle).0)),
            answered_since(world_of(gateway), world_of(new_tweets_stored(gateway, handle).0)),
            new_tweets_stored(gateway, handle).1,
        ),
{
    let settings = gateway.settings;
    let end = new_tweets_stored(gateway, handle);
    let fresh = new_tweets_fetched(gateway, handle);
    let after_fresh = fresh.0;
    lemma_new_tweets_fetched(gateway, handle);
    let stored = tweets_persisted(after_fresh, fresh.1->Ok_0);
    let stores = fresh.1 is Ok;
    let after_stored = if stores {
        stored.0
    } else {
        after_fresh
    };
    if stores {
        lemma_tweets_persisted(after_fresh, fresh.1->Ok_0);
    } else {
        lemma_steady_reflexive(after_fresh);
    }
    assert(end.0 == after_stored);
    lemma_steady_reflexive(after_stored);
    lemma_extended_transitive(world_of(gateway), world_of(after_fresh), world_of(after_stored));
    lemma_step(settings, script, next, gateway, after_fresh, after_stored, end.1);
    lemma_new_tweets_fetched_replayed(gateway, handle, script, next);
    let at_fresh = next + answered_since(world_of(gateway), world_of(after_fresh)).len();
    lemma_step(settings, script, at_fresh, after_fresh, after_stored, after_stored, end.1);
    if stores && at_fresh <= script.len() {
        lemma_tweets_persisted_replayed(after_fresh, fresh.1->Ok_0, script, at_fresh);
    }
}

/// Reading the stored posts of an author replays.
pub proof fn lemma_users_tweets_read_replayed(
    gateway: GatewayView,
    handle: Seq<char>,
    script: Seq<ResponseView>,
    next: nat,
)
    requires
        direct(gateway),
        agrees(
            script,
            next,
            answered_since(world_of(gateway), world_of(users_tweets_read(gateway, handle).0)),
        ),
    ensures
        users_tweets_read(replay(gateway.settings, script, next), handle) == replayed(
            gateway.settings,
            script,
            next,
            asked_since(world_of(gateway), world_of(users_tweets_read(gateway, handle).0)),
            answered_since(world_of(gateway), world_of(users_tweets_read(gateway, handle).0)),
            users_tweets_read(gateway, handle).1,
        ),
{
    let settings = gateway.settings;
    let end = users_tweets_read(gateway, handle);
    let loaded = user_loaded_by_handle(gateway, handle);
    let after_loaded = loaded.0;
    lemma_user_loaded_by_handle(gateway, handle);
    let has_author = loaded.1 is Ok && loaded.1->Ok_0.user is Some;
    let after_posts = if has_author {
        asked(after_loaded, RequestView::UserTweets { author_id: loaded.1->Ok_0.user->0.id }).0
    } else {
        after_loaded
    };
    if has_author {
        lemma_asked_extends(
            after_loaded,
            RequestView::UserTweets { author_id: loaded.1->Ok_0.user->0.id },
        );
    } else {
        lemma_steady_reflexive(after_loaded);
    }
    assert(end.0 == after_posts);
    lemma_steady_reflexive(after_posts);
    lemma_extended_transitive(world_of(gateway), world_of(after_loaded), world_of(after_posts));
    lemma_step(settings, script, next, gateway, after_loaded, after_posts, end.1);
    lemma_user_loaded_by_handle_replayed(gateway, handle, script, next);
    let at_loaded = next + answered_since(world_of(gateway), world_of(after_loaded)).len();
    lemma_step(settings, script, at_loaded, after_loaded, after_posts, after_posts, end.1);
    if has_author && at_loaded <= script.len() {
        lemma_asked_replayed(
            after_loaded,
            RequestView::UserTweets { author_id: loaded.1->Ok_0.user->0.id },
            script,
            at_loaded,
        );
    }
}

/// Reading the stored posts of an author since a date replays.
pub proof fn lemma_users_tweets_since_read_replayed(
    gateway: GatewayView,
    handle: Seq<char>,
    date: Seq<char>,
    script: Seq<ResponseView>,
    next: nat,
)
    requires
        direct(gateway),
        agrees(
            script,
            next,
            answered_since(
                world_of(gateway),
                world_of(users_tweets_since_read(gateway, handle, date).0),
            ),
        ),
    ensures
        users_tweets_since_read(replay(gateway.settings, script, next), handle, date) == replayed(
            gateway.settings,
            script,
            next,
            asked_since(
                world_of(gateway),
                world_of(users_tweets_since_read(gateway, handle, date).0),
            ),
            answered_since(
                world_of(gateway),
                world_of(users_tweets_since_read(gateway, handle, date).0),
            ),
            users_tweets_since_read(gateway, handle, date).1,
        ),
{
    let settings = gateway.settings;
    let end = users_tweets_since_read(gateway, handle, date);
    let loaded = user_loaded_by_handle(gateway, handle);
    let after_loaded = loaded.0;
    lemma_user_loaded_by_handle(gateway, handle);
    let request = RequestView::UserTweetsSince {
        author_id: loaded.1->Ok_0.user->0.id,
        after: instant_of(date)->0,
    };
    let asks = loaded.1 is Ok && loaded.1->Ok_0.user is Some && instant_of(date) is Some;
    let after_posts = if asks {
        asked(after_loaded, request).0
    } else {
        after_loaded
    };
    if asks {
        lemma_asked_extends(after_loaded, request);
    } else {
        lemma_steady_reflexive(after_loaded);
    }
    assert(end.0 == after_posts);
    lemma_steady_reflexive(after_posts);
    lemma_extended_transitive(world_of(gateway), world_of(after_loaded), world_of(after_posts));
    lemma_step(settings, script, next, gateway, after_loaded, after_posts, end.1);
    lemma_user_loaded_by_handle_replayed(gateway, handle, script, next);
    let at_loaded = next + answered_since(world_of(gateway), world_of(after_loaded)).len();
    lemma_step(settings, script, at_loaded, after_loaded, after_posts, after_posts, end.1);
    if asks && at_loaded <= script.len() {
        lemma_asked_replayed(after_loaded, request, script, at_loaded);
    }
}

/// A backfill replays.
pub proof fn lemma_backfilled_replayed(
    gateway: GatewayView,
    handle: Seq<char>,
    script: Seq<ResponseView>,
    next: nat,
)
    requires
        direct(gateway),
        agrees(
            script,
            next,
            answered_since(world_of(gateway), world_of(backfilled(gateway, handle).0)),
        ),
    ensures
        backfilled(replay(gateway.settings, script, next), handle) == replayed(
            gateway.settings,
            script,
            next,
            asked_since(world_of(gateway), world_of(backfilled(gateway, handle).0)),
            answered_since(world_of(gateway), world_of(backfilled(gateway, handle).0)),
            backfilled(gateway, handle).1,
        ),
{
    let settings = gateway.settings;
    let end = backfilled(gateway, handle);
    let stored = new_tweets_stored(gateway, handle);
    let after_stored = stored.0;
    lemma_new_tweets_stored_carried(gateway, handle);
    let posts = users_tweets_read(after_stored, handle);
    let reads = stored.1 is Ok;
    let after_posts = if reads {
        posts.0
    } else {
        after_stored
    };
    if reads {
        lemma_users_tweets_read(after_stored, handle);
    } else {
        lemma_steady_reflexive(after_stored);
    }
    assert(end.0 == after_posts);
    lemma_steady_reflexive(after_posts);
    lemma_extended_transitive(world_of(gateway), world_of(after_stored), world_of(after_posts));
    lemma_step(settings, script, next, gateway, after_stored, after_posts, end.1);
    lemma_new_tweets_stored_replayed(gateway, handle, script, next);
    let at_stored = next + answered_since(world_of(gateway), world_of(after_stored)).len();
    lemma_step(settings, script, at_stored, after_stored, after_posts, after_posts, end.1);
    if reads && at_stored <= script.len() {
        lemma_users_tweets_read_replayed(after_stored, handle, script, at_stored);
    }
}

/// Loading the posts of an author since a date replays.
pub proof fn lemma_tweets_since_loaded_replayed(
    gateway: GatewayView,
    handle: Seq<char>,
    date: Seq<char>,
    script: Seq<ResponseView>,
    next: nat,
)
    requires
        direct(gateway),
        agrees(
            script,
            next,
            answered_since(
                world_of(gateway),
                world_of(tweets_since_loaded(gateway, handle, date).0),
            ),
        ),
    ensures
        tweets_since_loaded(replay(gateway.settings, script, next), handle, date) == replayed(
            gateway.settings,
            script,
            next,
            asked_since(world_of(gateway), world_of(tweets_since_loaded(gateway, handle, date).0)),
            answered_since(
                world_of(gateway),
                world_of(tweets_since_loaded(gateway, handle, date).0),
            ),
            tweets_since_loaded(gateway, handle, date).1,
        ),
{
    let settings = gateway.settings;
    let end = tweets_since_loaded(gateway, handle, date);
    let stored = new_tweets_stored(gateway, handle);
    let after_stored = stored.0;
    lemma_new_tweets_stored_carried(gateway, handle);
    let posts = users_tweets_since_read(after_stored, handle, date);
    let reads = stored.1 is Ok;
    let after_posts = if reads {
        posts.0
    } else {
        after_stored
    };
    if reads {
        lemma_users_tweets_since_read(after_stored, handle, date);
    } else {
        lemma_steady_reflexive(after_stored);
    }
    assert(end.0 == after_posts);
    lemma_steady_reflexive(after_posts);
    lemma_extended_transitive(world_of(gateway), world_of(after_stored), world_of(after_posts));
    lemma_step(settings, script, next, gateway, after_stored, after_posts, end.1);
    lemma_new_tweets_stored_replayed(gateway, handle, script, next);
    let at_stored = next + answered_since(world_of(gateway), world_of(after_stored)).len();
    lemma_step(settings, script, at_stored, after_stored, after_posts, after_posts, end.1);
    if reads && at_stored <= script.len() {
        lemma_users_tweets_since_read_replayed(after_stored, handle, date, script, at_stored);
    }
}

/// Fetching a history page by page replays.
pub proof fn lemma_history_fetched_replayed(
    gateway: GatewayView,
    user: UserData,
    until: Option<u64>,
    pages_left: nat,
    script: Seq<ResponseView>,
    next: nat,
)
    requires
        direct(gateway),
        agrees(
            script,
            next,
            answered_since(
                world_of(gateway),
                world_of(history_fetched(gateway, user, until, pages_left).0),
            ),
        ),
    ensures
        history_fetched(
            replay(gateway.settings, script, next),
            user,
            until,
            pages_left,
        ) == replayed(
            gateway.settings,
            script,
            next,
            asked_since(
                world_of(gateway),
                world_of(history_fetched(gateway, user, until, pages_left).0),
            ),
            answered_since(
                world_of(gateway),
                world_of(history_fetched(gateway, user, until, pages_left).0),
            ),
            history_fetched(gateway, user, until, pages_left).1,
        ),
    decreases pages_left,
{
    if pages_left == 0 {
        lemma_nothing_asked(gateway, script, next);
    } else {
        let settings = gateway.settings;
        let end = history_fetched(gateway, user, until, pages_left);
        let page = timeline_fetched(gateway, user, Some(gateway.settings.page_size), None, until);
        let after_page = page.0;
        lemma_timeline_fetched(gateway, user, Some(gateway.settings.page_size), None, until);
        let stored = tweets_persisted(after_page, page.1->Ok_0);
        let stores = page.1 is Ok && page.1->Ok_0.len() > 0;
        let after_stored = if stores {
            stored.0
        } else {
            after_page
        };
        if stores {
            lemma_tweets_persisted(after_page, page.1->Ok_0);
        } else {
            lemma_steady_reflexive(after_page);
        }
        let oldest = page.1->Ok_0.last().tweet->0;
        let rest = history_fetched(
            after_stored,
            user,
            Some(oldest.id as u64),
            (pages_left - 1) as nat,
        );
        let goes_on = {
            &&& stores
            &&& stored.1 is Ok
            &&& page.1->Ok_0.last().tweet is Some
            &&& oldest.id >= 0
        };
        let after_rest = if goes_on {
            rest.0
        } else {
            after_stored
        };
        if goes_on {
            lemma_history_fetched(
                after_stored,
                user,
                Some(oldest.id as u64),
                (pages_left - 1) as nat,
            );
        } else {
            lemma_steady_reflexive(after_stored);
        }
        assert(end.0 == after_rest);
        lemma_steady_reflexive(after_rest);
        lemma_extended_transitive(
            world_of(after_page),
            world_of(after_stored),
            world_of(after_rest),
        );
        lemma_extended_transitive(world_of(gateway), world_of(after_page), world_of(after_rest));
        lemma_step(settings, script, next, gateway, after_page, after_rest, end.1);
        lemma_timeline_fetched_replayed(
            gateway,
            user,
            Some(gateway.settings.page_size),
            None,
            until,
            script,
            next,
        );
        let at_page = next + answered_since(world_of(gateway), world_of(after_page)).len();
        lemma_step(settings, script, at_page, after_page, after_stored, after_rest, end.1);
        if stores && at_page <= script.len() {
            lemma_tweets_persisted_replayed(after_page, page.1->Ok_0, script, at_page);
        }
        let at_stored = at_page + answered_since(
            world_of(after_page),
            world_of(after_stored),
        ).len();
        lemma_step(settings, script, at_stored, after_stored, after_rest, after_rest, end.1);
        if goes_on && at_stored <= script.len() {
            lemma_history_fetched_replayed(
                after_stored,
                user,
                Some(oldest.id as u64),
                (pages_left - 1) as nat,
                script,
                at_stored,
            );
        }
    }
}

/// Fetching the whole history of an author replays.
pub proof fn lemma_history_seeded_replayed(
    gateway: GatewayView,
    handle: Seq<char>,
    script: Seq<ResponseView>,
    next: nat,
)
    requires
        direct(gateway),
        agrees(
            script,
            next,
            answered_since(world_of(gateway), world_of(history_seeded(gateway, handle).0)),
        ),
    ensures
        history_seeded(replay(gateway.settings, script, next), handle) == replayed(
            gateway.settings,
            script,
            next,
            asked_since(world_of(gateway), world_of(history_seeded(gateway, handle).0)),
            answered_since(world_of(gateway), world_of(history_seeded(gateway, handle).0)),
            history_seeded(gateway, handle).1,
        ),
{
    let settings = gateway.settings;
    let end = history_seeded(gateway, handle);
    let loaded = user_loaded_by_handle(gateway, handle);
    let after_loaded = loaded.0;
    lemma_user_loaded_by_handle(gateway, handle);
    let history = history_fetched(
        after_loaded,
        loaded.1->Ok_0,
        None,
        gateway.settings.page_ceiling as nat,
    );
    let has_author = loaded.1 is Ok;
    let after_history = if has_author {
        history.0
    } else {
        after_loaded
    };
    if has_author {
        lemma_history_fetched(
            after_loaded,
            loaded.1->Ok_0,
            None,
            gateway.settings.page_ceiling as nat,
        );
    } else {
        lemma_steady_reflexive(after_loaded);
    }
    assert(end.0 == after_history);
    lemma_steady_reflexive(after_history);
    lemma_extended_transitive(world_of(gateway), world_of(after_loaded), world_of(after_history));
    lemma_step(settings, script, next, gateway, after_loaded, after_history, end.1);
    lemma_user_loaded_by_handle_replayed(gateway, handle, script, next);
    let at_loaded = next + answered_since(world_of(gateway), world_of(after_loaded)).len();
    lemma_step(settings, script, at_loaded, after_loaded, after_history, after_history, end.1);
    if has_author && at_loaded <= script.len() {
        lemma_history_fetched_replayed(
            after_loaded,
            loaded.1->Ok_0,
            None,
            gateway.settings.page_ceiling as nat,
            script,
            at_loaded,
        );
    }
}

/// Loading the posts of an author replays.
pub proof fn lemma_user_tweets_loaded_replayed(
    gateway: GatewayView,
    handle: Seq<char>,
    script: Seq<ResponseView>,
    next: nat,
)
    requires
        direct(gateway),
        agrees(
            script,
            next,
            answered_since(world_of(gateway), world_of(user_tweets_loaded(gateway, handle).0)),
        ),
    ensures
        user_tweets_loaded(replay(gateway.settings, script, next), handle) == replayed(
            gateway.settings,
            script,
            next,
            asked_since(world_of(gateway), world_of(user_tweets_loaded(gateway, handle).0)),
            answered_since(world_of(gateway), world_of(user_tweets_loaded(gateway, handle).0)),
            user_tweets_loaded(gateway, handle).1,
        ),
{
    reveal(user_tweets_loaded);
    let settings = gateway.settings;
    let end = user_tweets_loaded(gateway, handle);
    let local = users_tweets_read(gateway, handle);
    let after_local = local.0;
    lemma_users_tweets_read(gateway, handle);
    let seeded = history_seeded(after_local, handle);
    let cold = local.1 is Ok && local.1->Ok_0.len() == 0;
    let after_seeded = if cold {
        seeded.0
    } else {
        after_local
    };
    if cold {
        lemma_history_seeded(after_local, handle);
    } else {
        lemma_steady_reflexive(after_local);
    }
    let whole = users_tweets_read(after_seeded, handle);
    let reads_whole = cold && seeded.1 is Ok;
    let after_whole = if reads_whole {
        whole.0
    } else {
        after_seeded
    };
    if reads_whole {
        lemma_users_tweets_read(after_seeded, handle);
    } else {
        lemma_steady_reflexive(after_seeded);
    }
    let stale = staleness(after_whole, handle);
    let warm = local.1 is Ok && local.1->Ok_0.len() > 0;
    let after_stale = if warm {
        stale.0
    } else {
        after_whole
    };
    if warm {
        lemma_staleness_carried(after_whole, handle);
    } else {
        lemma_steady_reflexive(after_whole);
    }
    let filled = backfilled(after_stale, handle);
    let fills = warm && stale.1 == Ok::<bool, HaltView>(true);
    let after_filled = if fills {
        filled.0
    } else {
        after_stale
    };
    if fills {
        lemma_backfilled(after_stale, handle);
    } else {
        lemma_steady_reflexive(after_stale);
    }
    assert(end.0 == after_filled);
    lemma_steady_reflexive(after_filled);
    lemma_extended_transitive(world_of(after_whole), world_of(after_stale), world_of(after_filled));
    lemma_extended_transitive(
        world_of(after_seeded),
        world_of(after_whole),
        world_of(after_filled),
    );
    lemma_extended_transitive(
        world_of(after_local),
        world_of(after_seeded),
        world_of(after_filled),
    );
    lemma_extended_transitive(world_of(gateway), world_of(after_local), world_of(after_filled));
    lemma_step(settings, script, next, gateway, after_local, after_filled, end.1);
    lemma_users_tweets_read_replayed(gateway, handle, script, next);
    let at_local = next + answered_since(world_of(gateway), world_of(after_local)).len();
    lemma_step(settings, script, at_local, after_local, after_seeded, after_filled, end.1);
    if cold && at_local <= script.len() {
        lemma_history_seeded_replayed(after_local, handle, script, at_local);
    }
    let at_seeded = at_local + answered_since(world_of(after_local), world_of(after_seeded)).len();
    lemma_step(settings, script, at_seeded, after_seeded, after_whole, after_filled, end.1);
    if reads_whole && at_seeded <= script.len() {
        lemma_users_tweets_read_replayed(after_seeded, handle, script, at_seeded);
    }
    let at_whole = at_seeded + answered_since(world_of(after_seeded), world_of(after_whole)).len();
    lemma_step(settings, script, at_whole, after_whole, after_stale, after_filled, end.1);
    if warm && at_whole <= script.len() {
        lemma_staleness_replayed(after_whole, handle, script, at_whole);
    }
    let at_stale = at_whole + answered_since(world_of(after_whole), world_of(after_stale)).len();
    lemma_step(settings, script, at_stale, after_stale, after_filled, after_filled, end.1);
    if fills && at_stale <= script.len() {
        lemma_backfilled_replayed(after_stale, handle, script, at_stale);
    }
}

/// Building the conversations of an author replays.
pub proof fn lemma_user_conversations_loaded_replayed(
    gateway: GatewayView,
    handle: Seq<char>,
    script: Seq<ResponseView>,
    next: nat,
)
    requires
        direct(gateway),
        agrees(
            script,
            next,
            answered_since(
                world_of(gateway),
                world_of(user_conversations_loaded(gateway, handle).0),
            ),
        ),
    ensures
        user_conversations_loaded(replay(gateway.settings, script, next), handle) == replayed(
            gateway.settings,
            script,
            next,
            asked_since(world_of(gateway), world_of(user_conversations_loaded(gateway, handle).0)),
            answered_since(
                world_of(gateway),
                world_of(user_conversations_loaded(gateway, handle).0),
            ),
            user_conversations_loaded(gateway, handle).1,
        ),
{
    let settings = gateway.settings;
    let end = user_conversations_loaded(gateway, handle);
    let posts = user_tweets_loaded(gateway, handle);
    let after_posts = posts.0;
    lemma_user_tweets_loaded(gateway, handle);
    let built = conversations_loaded(after_posts, posts.1->Ok_0, Seq::empty());
    let builds = posts.1 is Ok;
    let after_built = if builds {
        built.0
    } else {
        after_posts
    };
    if builds {
        lemma_conversations_loaded(after_posts, posts.1->Ok_0, Seq::empty());
    } else {
        lemma_steady_reflexive(after_posts);
    }
    assert(end.0 == after_built);
    lemma_steady_reflexive(after_built);
    lemma_extended_transitive(world_of(gateway), world_of(after_posts), world_of(after_built));
    lemma_step(settings, script, next, gateway, after_posts, after_built, end.1);
    lemma_user_tweets_loaded_replayed(gateway, handle, script, next);
    let at_posts = next + answered_since(world_of(gateway), world_of(after_posts)).len();
    lemma_step(settings, script, at_posts, after_posts, after_built, after_built, end.1);
    if builds && at_posts <= script.len() {
        lemma_conversations_loaded_replayed(
            after_posts,
            posts.1->Ok_0,
            Seq::empty(),
            script,
            at_posts,
        );
    }
}

} // verus!
