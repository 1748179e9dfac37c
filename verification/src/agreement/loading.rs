//! Loading through the store, and conversations.

use crate::agreement::{
    agrees, answered_since, asked_since, lemma_extended_transitive, lemma_nothing_asked, lemma_step,
    replay, replayed,
};
use crate::agreement::reading::{
    lemma_tweet_fetched_replayed, lemma_tweet_read_replayed, lemma_user_fetched_by_handle_replayed,
    lemma_user_fetched_replayed, lemma_user_read_by_handle_replayed, lemma_user_read_replayed,
};
use crate::agreement::writing::{lemma_tweet_persisted_replayed, lemma_user_written_replayed};
use crate::api::{tweet_fetched, user_fetched, user_fetched_by_handle};
use crate::archive::{
    conversation_loaded, conversations_loaded, thread_walked, tweet_loaded, user_loaded,
    user_loaded_by_handle,
};
use crate::gateway::GatewayView;
use crate::laws::{
    direct, lemma_conversation_loaded, lemma_conversations_loaded, lemma_steady_reflexive,
    lemma_thread_walked, lemma_tweet_fetched, lemma_tweet_loaded, lemma_tweet_persisted,
    lemma_tweet_read, lemma_user_fetched, lemma_user_fetched_by_handle, lemma_user_read,
    lemma_user_read_by_handle, lemma_user_written, reply_target_of, world_of,
};
use crate::protocol::ResponseView;
use crate::records::{tweet_read, user_read, user_read_by_handle, user_written};
use crate::utils::{ConversationDataView, TweetDataView};
use crate::write::{id_space, tweet_persisted};
use vstd::prelude::*;

verus! {

/// Loading an author through the store replays.
pub proof fn lemma_user_loaded_replayed(
    gateway: GatewayView,
    id: i64,
    script: Seq<ResponseView>,
    next: nat,
)
    requires
        direct(gateway),
        agrees(
            script,
            next,
            answered_since(world_of(gateway), world_of(user_loaded(gateway, id).0)),
        ),
    ensures
        user_loaded(replay(gateway.settings, script, next), id) == replayed(
            gateway.settings,
            script,
            next,
            asked_since(world_of(gateway), world_of(user_loaded(gateway, id).0)),
            answered_since(world_of(gateway), world_of(user_loaded(gateway, id).0)),
            user_loaded(gateway, id).1,
        ),
{
    let settings = gateway.settings;
    let end = user_loaded(gateway, id);
    let local = user_read(gateway, id);
    let after_local = local.0;
    lemma_user_read(gateway, id);
    let fetched = user_fetched(after_local, id as u64);
    let fetches = local.1->Ok_0.user is None && id >= 0;
    let after_fetched = if fetches {
        fetched.0
    } else {
        after_local
    };
    if fetches {
        lemma_user_fetched(after_local, id as u64);
    } else {
        lemma_steady_reflexive(after_local);
    }
    let written = user_written(after_fetched, fetched.1->Ok_0);
    let writes = fetches && fetched.1 is Ok && fetched.1->Ok_0.user is Some;
    let after_written = if writes {
        written.0
    } else {
        after_fetched
    };
    if writes {
        lemma_user_written(after_fetched, fetched.1->Ok_0);
    } else {
        lemma_steady_reflexive(after_fetched);
    }
    assert(end.0 == after_written);
    lemma_steady_reflexive(after_written);
    lemma_extended_transitive(
        world_of(after_local),
        world_of(after_fetched),
        world_of(after_written),
    );
    lemma_extended_transitive(world_of(gateway), world_of(after_local), world_of(after_written));
    lemma_step(settings, script, next, gateway, after_local, after_written, end.1);
    lemma_user_read_replayed(gateway, id, script, next);
    let at_local = next + answered_since(world_of(gateway), world_of(after_local)).len();
    lemma_step(settings, script, at_local, after_local, after_fetched, after_written, end.1);
    if fetches && at_local <= script.len() {
        lemma_user_fetched_replayed(after_local, id as u64, script, at_local);
    }
    let at_fetched = at_local + answered_since(
        world_of(after_local),
        world_of(after_fetched),
    ).len();
    lemma_step(settings, script, at_fetched, after_fetched, after_written, after_written, end.1);
    if writes && at_fetched <= script.len() {
        lemma_user_written_replayed(after_fetched, fetched.1->Ok_0, script, at_fetched);
    }
}

/// Loading an author by handle through the store replays.
pub proof fn lemma_user_loaded_by_handle_replayed(
    gateway: GatewayView,
    handle: Seq<char>,
    script: Seq<ResponseView>,
    next: nat,
)
    requires
        direct(gateway),
        agrees(
            script,
            next,
            answered_since(world_of(gateway), world_of(user_loaded_by_handle(gateway, handle).0)),
        ),
    ensures
        user_loaded_by_handle(replay(gateway.settings, script, next), handle) == replayed(
            gateway.settings,
            script,
            next,
            asked_since(world_of(gateway), world_of(user_loaded_by_handle(gateway, handle).0)),
            answered_since(world_of(gateway), world_of(user_loaded_by_handle(gateway, handle).0)),
            user_loaded_by_handle(gateway, handle).1,
        ),
{
    let settings = gateway.settings;
    let end = user_loaded_by_handle(gateway, handle);
    let local = user_read_by_handle(gateway, handle);
    let after_local = local.0;
    lemma_user_read_by_handle(gateway, handle);
    let fetched = user_fetched_by_handle(after_local, handle);
    let fetches = local.1->Ok_0.user is None;
    let after_fetched = if fetches {
        fetched.0
    } else {
        after_local
    };
    if fetches {
        lemma_user_fetched_by_handle(after_local, handle);
    } else {
        lemma_steady_reflexive(after_local);
    }
    let written = user_written(after_fetched, fetched.1->Ok_0);
    let writes = fetches && fetched.1 is Ok && fetched.1->Ok_0.user is Some;
    let after_written = if writes {
        written.0
    } else {
        after_fetched
    };
    if writes {
        lemma_user_written(after_fetched, fetched.1->Ok_0);
    } else {
        lemma_steady_reflexive(after_fetched);
    }
    assert(end.0 == after_written);
    lemma_steady_reflexive(after_written);
    lemma_extended_transitive(
        world_of(after_local),
        world_of(after_fetched),
        world_of(after_written),
    );
    lemma_extended_transitive(world_of(gateway), world_of(after_local), world_of(after_written));
    lemma_step(settings, script, next, gateway, after_local, after_written, end.1);
    lemma_user_read_by_handle_replayed(gateway, handle, script, next);
    let at_local = next + answered_since(world_of(gateway), world_of(after_local)).len();
    lemma_step(settings, script, at_local, after_local, after_fetched, after_written, end.1);
    if fetches && at_local <= script.len() {
        lemma_user_fetched_by_handle_replayed(after_local, handle, script, at_local);
    }
    let at_fetched = at_local + answered_since(
        world_of(after_local),
        world_of(after_fetched),
    ).len();
    lemma_step(settings, script, at_fetched, after_fetched, after_written, after_written, end.1);
    if writes && at_fetched <= script.len() {
        lemma_user_written_replayed(after_fetched, fetched.1->Ok_0, script, at_fetched);
    }
}

/// Loading a post through the store replays.
pub proof fn lemma_tweet_loaded_replayed(
    gateway: GatewayView,
    id: i64,
    script: Seq<ResponseView>,
    next: nat,
)
    requires
        direct(gateway),
        agrees(
            script,
            next,
            answered_since(world_of(gateway), world_of(tweet_loaded(gateway, id).0)),
        ),
    ensures
        tweet_loaded(replay(gateway.settings, script, next), id) == replayed(
            gateway.settings,
            script,
            next,
            asked_since(world_of(gateway), world_of(tweet_loaded(gateway, id).0)),
            answered_since(world_of(gateway), world_of(tweet_loaded(gateway, id).0)),
            tweet_loaded(gateway, id).1,
        ),
{
    reveal(tweet_loaded);
    let settings = gateway.settings;
    let end = tweet_loaded(gateway, id);
    let local = tweet_read(gateway, id);
    let after_local = local.0;
    lemma_tweet_read(gateway, id);
    let fetched = tweet_fetched(after_local, id as u64);
    let fetches = local.1->Ok_0.tweet is None && id >= 0;
    let after_fetched = if fetches {
        fetched.0
    } else {
        after_local
    };
    if fetches {
        lemma_tweet_fetched(after_local, id as u64);
    } else {
        lemma_steady_reflexive(after_local);
    }
    let persisted = tweet_persisted(after_fetched, fetched.1->Ok_0);
    let persists = fetches && fetched.1 is Ok && fetched.1->Ok_0.tweet is Some;
    let after_persisted = if persists {
        persisted.0
    } else {
        after_fetched
    };
    if persists {
        lemma_tweet_persisted(after_fetched, fetched.1->Ok_0);
    } else {
        lemma_steady_reflexive(after_fetched);
    }
    let again = tweet_read(after_persisted, id);
    let reads_again = persists && persisted.1 is Ok;
    let after_again = if reads_again {
        again.0
    } else {
        after_persisted
    };
    if reads_again {
        lemma_tweet_read(after_persisted, id);
    } else {
        lemma_steady_reflexive(after_persisted);
    }
    assert(end.0 == after_again);
    lemma_steady_reflexive(after_again);
    lemma_extended_transitive(
        world_of(after_fetched),
        world_of(after_persisted),
        world_of(after_again),
    );
    lemma_extended_transitive(
        world_of(after_local),
        world_of(after_fetched),
        world_of(after_again),
    );
    lemma_extended_transitive(world_of(gateway), world_of(after_local), world_of(after_again));
    lemma_step(settings, script, next, gateway, after_local, after_again, end.1);
    lemma_tweet_read_replayed(gateway, id, script, next);
    let at_local = next + answered_since(world_of(gateway), world_of(after_local)).len();
    lemma_step(settings, script, at_local, after_local, after_fetched, after_again, end.1);
    if fetches && at_local <= script.len() {
        lemma_tweet_fetched_replayed(after_local, id as u64, script, at_local);
    }
    let at_fetched = at_local + answered_since(
        world_of(after_local),
        world_of(after_fetched),
    ).len();
    lemma_step(settings, script, at_fetched, after_fetched, after_persisted, after_again, end.1);
    if persists && at_fetched <= script.len() {
        lemma_tweet_persisted_replayed(after_fetched, fetched.1->Ok_0, script, at_fetched);
    }
    let at_persisted = at_fetched + answered_since(
        world_of(after_fetched),
        world_of(after_persisted),
    ).len();
    lemma_step(settings, script, at_persisted, after_persisted, after_again, after_again, end.1);
    if reads_again && at_persisted <= script.len() {
        lemma_tweet_read_replayed(after_persisted, id, script, at_persisted);
    }
}

/// Walking a thread replays.
pub proof fn lemma_thread_walked_replayed(
    gateway: GatewayView,
    current: TweetDataView,
    visited: Seq<i64>,
    thread: Seq<TweetDataView>,
    script: Seq<ResponseView>,
    next: nat,
)
    requires
        direct(gateway),
        agrees(
            script,
            next,
            answered_since(
                world_of(gateway),
                world_of(thread_walked(gateway, current, visited, thread).0),
            ),
        ),
    ensures
        thread_walked(replay(gateway.settings, script, next), current, visited, thread) == replayed(
            gateway.settings,
            script,
            next,
            asked_since(
                world_of(gateway),
                world_of(thread_walked(gateway, current, visited, thread).0),
            ),
            answered_since(
                world_of(gateway),
                world_of(thread_walked(gateway, current, visited, thread).0),
            ),
            thread_walked(gateway, current, visited, thread).1,
        ),
    decreases id_space() - visited.len(),
{
    let nothing = {
        ||| reply_target_of(current) is None
        ||| visited.contains(reply_target_of(current)->0)
        ||| visited.len() >= id_space()
    };
    if nothing {
        lemma_nothing_asked(gateway, script, next);
    } else {
        let settings = gateway.settings;
        let end = thread_walked(gateway, current, visited, thread);
        let parent = reply_target_of(current)->0;
        let loaded = tweet_loaded(gateway, parent);
        let after_loaded = loaded.0;
        lemma_tweet_loaded(gateway, parent);
        let rest = thread_walked(
            after_loaded,
            loaded.1->Ok_0,
            visited.push(parent),
            thread.insert(0, loaded.1->Ok_0),
        );
        let goes_on = loaded.1 is Ok;
        let after_rest = if goes_on {
            rest.0
        } else {
            after_loaded
        };
        if goes_on {
            lemma_thread_walked(
                after_loaded,
                loaded.1->Ok_0,
                visited.push(parent),
                thread.insert(0, loaded.1->Ok_0),
            );
        } else {
            lemma_steady_reflexive(after_loaded);
        }
        assert(end.0 == after_rest);
        lemma_steady_reflexive(after_rest);
        lemma_extended_transitive(world_of(gateway), world_of(after_loaded), world_of(after_rest));
        lemma_step(settings, script, next, gateway, after_loaded, after_rest, end.1);
        lemma_tweet_loaded_replayed(gateway, parent, script, next);
        let at_loaded = next + answered_since(world_of(gateway), world_of(after_loaded)).len();
        lemma_step(settings, script, at_loaded, after_loaded, after_rest, after_rest, end.1);
        if goes_on && at_loaded <= script.len() {
            lemma_thread_walked_replayed(
                after_loaded,
                loaded.1->Ok_0,
                visited.push(parent),
                thread.insert(0, loaded.1->Ok_0),
                script,
                at_loaded,
            );
        }
    }
}

/// Building a conversation replays.
pub proof fn lemma_conversation_loaded_replayed(
    gateway: GatewayView,
    id: i64,
    script: Seq<ResponseView>,
    next: nat,
)
    requires
        direct(gateway),
        agrees(
            script,
            next,
            answered_since(world_of(gateway), world_of(conversation_loaded(gateway, id).0)),
        ),
    ensures
        conversation_loaded(replay(gateway.settings, script, next), id) == replayed(
            gateway.settings,
            script,
            next,
            asked_since(world_of(gateway), world_of(conversation_loaded(gateway, id).0)),
            answered_since(world_of(gateway), world_of(conversation_loaded(gateway, id).0)),
            conversation_loaded(gateway, id).1,
        ),
{
    reveal(conversation_loaded);
    let settings = gateway.settings;
    let end = conversation_loaded(gateway, id);
    let leaf = tweet_loaded(gateway, id);
    let after_leaf = leaf.0;
    lemma_tweet_loaded(gateway, id);
    let walked = thread_walked(after_leaf, leaf.1->Ok_0, seq![id], seq![leaf.1->Ok_0]);
    let walks = leaf.1 is Ok && leaf.1->Ok_0.tweet is Some;
    let after_walked = if walks {
        walked.0
    } else {
        after_leaf
    };
    if walks {
        lemma_thread_walked(after_leaf, leaf.1->Ok_0, seq![id], seq![leaf.1->Ok_0]);
    } else {
        lemma_steady_reflexive(after_leaf);
    }
    assert(end.0 == after_walked);
    lemma_steady_reflexive(after_walked);
    lemma_extended_transitive(world_of(gateway), world_of(after_leaf), world_of(after_walked));
    lemma_step(settings, script, next, gateway, after_leaf, after_walked, end.1);
    lemma_tweet_loaded_replayed(gateway, id, script, next);
    let at_leaf = next + answered_since(world_of(gateway), world_of(after_leaf)).len();
    lemma_step(settings, script, at_leaf, after_leaf, after_walked, after_walked, end.1);
    if walks && at_leaf <= script.len() {
        lemma_thread_walked_replayed(
            after_leaf,
            leaf.1->Ok_0,
            seq![id],
            seq![leaf.1->Ok_0],
            script,
            at_leaf,
        );
    }
}

/// Building conversations replays.
pub proof fn lemma_conversations_loaded_replayed(
    gateway: GatewayView,
    list: Seq<TweetDataView>,
    built: Seq<ConversationDataView>,
    script: Seq<ResponseView>,
    next: nat,
)
    requires
        direct(gateway),
        agrees(
            script,
            next,
            answered_since(
                world_of(gateway),
                world_of(conversations_loaded(gateway, list, built).0),
            ),
        ),
    ensures
        conversations_loaded(replay(gateway.settings, script, next), list, built) == replayed(
            gateway.settings,
            script,
            next,
            asked_since(world_of(gateway), world_of(conversations_loaded(gateway, list, built).0)),
            answered_since(
                world_of(gateway),
                world_of(conversations_loaded(gateway, list, built).0),
            ),
            conversations_loaded(gateway, list, built).1,
        ),
    decreases list.len(),
{
    if list.len() == 0 || list[0].tweet is None {
        lemma_nothing_asked(gateway, script, next);
    } else {
        let settings = gateway.settings;
        let end = conversations_loaded(gateway, list, built);
        let first = conversation_loaded(gateway, list[0].tweet->0.id);
        let after_first = first.0;
        lemma_conversation_loaded(gateway, list[0].tweet->0.id);
        let rest = conversations_loaded(after_first, list.drop_first(), built.push(first.1->Ok_0));
        let goes_on = first.1 is Ok;
        let after_rest = if goes_on {
            rest.0
        } else {
            after_first
        };
        if goes_on {
            lemma_conversations_loaded(after_first, list.drop_first(), built.push(first.1->Ok_0));
        } else {
            lemma_steady_reflexive(after_first);
        }
        assert(end.0 == after_rest);
        lemma_steady_reflexive(after_rest);
        lemma_extended_transitive(world_of(gateway), world_of(after_first), world_of(after_rest));
        lemma_step(settings, script, next, gateway, after_first, after_rest, end.1);
        lemma_conversation_loaded_replayed(gateway, list[0].tweet->0.id, script, next);
        let at_first = next + answered_since(world_of(gateway), world_of(after_first)).len();
        lemma_step(settings, script, at_first, after_first, after_rest, after_rest, end.1);
        if goes_on && at_first <= script.len() {
            lemma_conversations_loaded_replayed(
                after_first,
                list.drop_first(),
                built.push(first.1->Ok_0),
                script,
                at_first,
            );
        }
    }
}

} // verus!
