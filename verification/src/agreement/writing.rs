//! Writing to the store in dependency order.

use crate::agreement::{
    agrees, answered_since, asked_since, lemma_asked_extends, lemma_asked_replayed,
    lemma_extended_transitive, lemma_nothing_asked, lemma_step, replay, replayed,
};
use crate::agreement::loading::lemma_user_loaded_replayed;
use crate::agreement::reading::{
    lemma_conversation_known_replayed, lemma_tweet_fetched_replayed, lemma_tweet_known_replayed,
};
use crate::api::tweet_fetched;
use crate::archive::user_loaded;
use crate::entities::tweets;
use crate::gateway::{asked, written_in, GatewayView, HaltView};
use crate::laws::{
    direct, lemma_ancestors_persisted, lemma_asked, lemma_chain_edges_written,
    lemma_conversation_known, lemma_conversation_written, lemma_edges_written, lemma_row_persisted,
    lemma_steady_reflexive, lemma_tweet_fetched, lemma_tweet_known, lemma_tweet_persisted,
    lemma_tweets_persisted, lemma_user_loaded, reply_target_of, world_of,
};
use crate::protocol::{RequestView, ResponseView};
use crate::read::{conversation_known, tweet_known};
use crate::records::{edges_written, user_written};
use crate::utils::{TweetDataView, TweetReferenceData, UserData};
use crate::write::{
    ancestors_persisted, chain_edges_written, conversation_written, id_space, row_persisted,
    tweet_persisted, tweets_persisted,
};
use vstd::prelude::*;

verus! {

/// Writing a conversation root marker replays.
pub proof fn lemma_conversation_written_replayed(
    gateway: GatewayView,
    id: i64,
    script: Seq<ResponseView>,
    next: nat,
)
    requires
        direct(gateway),
        agrees(
            script,
            next,
            answered_since(world_of(gateway), world_of(conversation_written(gateway, id).0)),
        ),
    ensures
        conversation_written(replay(gateway.settings, script, next), id) == replayed(
            gateway.settings,
            script,
            next,
            asked_since(world_of(gateway), world_of(conversation_written(gateway, id).0)),
            answered_since(world_of(gateway), world_of(conversation_written(gateway, id).0)),
            conversation_written(gateway, id).1,
        ),
{
    let request = RequestView::InsertConversation { id };
    lemma_asked(gateway, request);
    lemma_asked_replayed(gateway, request, script, next);
}

/// Writing an author replays.
pub proof fn lemma_user_written_replayed(
    gateway: GatewayView,
    data: UserData,
    script: Seq<ResponseView>,
    next: nat,
)
    requires
        direct(gateway),
        agrees(
            script,
            next,
            answered_since(world_of(gateway), world_of(user_written(gateway, data).0)),
        ),
    ensures
        user_written(replay(gateway.settings, script, next), data) == replayed(
            gateway.settings,
            script,
            next,
            asked_since(world_of(gateway), world_of(user_written(gateway, data).0)),
            answered_since(world_of(gateway), world_of(user_written(gateway, data).0)),
            user_written(gateway, data).1,
        ),
{
    if data.user is None {
        lemma_nothing_asked(gateway, script, next);
    } else {
        let settings = gateway.settings;
        let end = user_written(gateway, data);
        let after_row = asked(gateway, RequestView::InsertUser { user: data.user->0 }).0;
        lemma_asked_extends(gateway, RequestView::InsertUser { user: data.user->0 });
        assert(end.0 == after_row);
        lemma_steady_reflexive(after_row);
        lemma_step(settings, script, next, gateway, after_row, after_row, end.1);
        lemma_asked_replayed(gateway, RequestView::InsertUser { user: data.user->0 }, script, next);
    }
}

/// Writing edges replays.
pub proof fn lemma_edges_written_replayed(
    gateway: GatewayView,
    edges: Seq<TweetReferenceData>,
    script: Seq<ResponseView>,
    next: nat,
)
    requires
        direct(gateway),
        agrees(
            script,
            next,
            answered_since(world_of(gateway), world_of(edges_written(gateway, edges).0)),
        ),
    ensures
        edges_written(replay(gateway.settings, script, next), edges) == replayed(
            gateway.settings,
            script,
            next,
            asked_since(world_of(gateway), world_of(edges_written(gateway, edges).0)),
            answered_since(world_of(gateway), world_of(edges_written(gateway, edges).0)),
            edges_written(gateway, edges).1,
        ),
    decreases edges.len(),
{
    if edges.len() == 0 {
        lemma_nothing_asked(gateway, script, next);
    } else {
        let settings = gateway.settings;
        let end = edges_written(gateway, edges);
        let request = RequestView::InsertReference { reference: edges[0] };
        let first = asked(gateway, request);
        let after_first = first.0;
        lemma_asked_extends(gateway, request);
        let rest = edges_written(after_first, edges.drop_first());
        let goes_on = written_in(first.1) is Ok;
        let after_rest = if goes_on {
            rest.0
        } else {
            after_first
        };
        if goes_on {
            lemma_edges_written(after_first, edges.drop_first());
        } else {
            lemma_steady_reflexive(after_first);
        }
        assert(end.0 == after_rest);
        lemma_steady_reflexive(after_rest);
        lemma_extended_transitive(world_of(gateway), world_of(after_first), world_of(after_rest));
        lemma_step(settings, script, next, gateway, after_first, after_rest, end.1);
        lemma_asked_replayed(gateway, request, script, next);
        let at_first = next + answered_since(world_of(gateway), world_of(after_first)).len();
        lemma_step(settings, script, at_first, after_first, after_rest, after_rest, end.1);
        if goes_on && at_first <= script.len() {
            lemma_edges_written_replayed(after_first, edges.drop_first(), script, at_first);
        }
    }
}

/// Writing the edges of a chain replays.
pub proof fn lemma_chain_edges_written_replayed(
    gateway: GatewayView,
    chain: Seq<TweetDataView>,
    script: Seq<ResponseView>,
    next: nat,
)
    requires
        direct(gateway),
        agrees(
            script,
            next,
            answered_since(world_of(gateway), world_of(chain_edges_written(gateway, chain).0)),
        ),
    ensures
        chain_edges_written(replay(gateway.settings, script, next), chain) == replayed(
            gateway.settings,
            script,
            next,
            asked_since(world_of(gateway), world_of(chain_edges_written(gateway, chain).0)),
            answered_since(world_of(gateway), world_of(chain_edges_written(gateway, chain).0)),
            chain_edges_written(gateway, chain).1,
        ),
    decreases chain.len(),
{
    if chain.len() == 0 {
        lemma_nothing_asked(gateway, script, next);
    } else {
        let settings = gateway.settings;
        let end = chain_edges_written(gateway, chain);
        let last = edges_written(gateway, chain.last().references);
        let after_last = last.0;
        lemma_edges_written(gateway, chain.last().references);
        let rest = chain_edges_written(after_last, chain.drop_last());
        let goes_on = last.1 is Ok;
        let after_rest = if goes_on {
            rest.0
        } else {
            after_last
        };
        if goes_on {
            lemma_chain_edges_written(after_last, chain.drop_last());
        } else {
            lemma_steady_reflexive(after_last);
        }
        assert(end.0 == after_rest);
        lemma_steady_reflexive(after_rest);
        lemma_extended_transitive(world_of(gateway), world_of(after_last), world_of(after_rest));
        lemma_step(settings, script, next, gateway, after_last, after_rest, end.1);
        lemma_edges_written_replayed(gateway, chain.last().references, script, next);
        let at_last = next + answered_since(world_of(gateway), world_of(after_last)).len();
        lemma_step(settings, script, at_last, after_last, after_rest, after_rest, end.1);
        if goes_on && at_last <= script.len() {
            lemma_chain_edges_written_replayed(after_last, chain.drop_last(), script, at_last);
        }
    }
}

/// Writing the row of a post in dependency order replays.
pub proof fn lemma_row_persisted_replayed(
    gateway: GatewayView,
    tweet: tweets::Model,
    script: Seq<ResponseView>,
    next: nat,
)
    requires
        direct(gateway),
        agrees(
            script,
            next,
            answered_since(world_of(gateway), world_of(row_persisted(gateway, tweet).0)),
        ),
    ensures
        row_persisted(replay(gateway.settings, script, next), tweet) == replayed(
            gateway.settings,
            script,
            next,
            asked_since(world_of(gateway), world_of(row_persisted(gateway, tweet).0)),
            answered_since(world_of(gateway), world_of(row_persisted(gateway, tweet).0)),
            row_persisted(gateway, tweet).1,
        ),
{
    let settings = gateway.settings;
    let end = row_persisted(gateway, tweet);
    let author = user_loaded(gateway, tweet.author_id);
    let after_author = author.0;
    lemma_user_loaded(gateway, tweet.author_id);
    let known = conversation_known(after_author, tweet.conversation_id);
    let has_author = author.1 is Ok;
    let after_known = if has_author {
        known.0
    } else {
        after_author
    };
    if has_author {
        lemma_conversation_known(after_author, tweet.conversation_id);
    } else {
        lemma_steady_reflexive(after_author);
    }
    let root = conversation_written(after_known, tweet.conversation_id);
    let writes_root = has_author && known.1 == Ok::<bool, HaltView>(false);
    let after_root = if writes_root {
        root.0
    } else {
        after_known
    };
    if writes_root {
        lemma_conversation_written(after_known, tweet.conversation_id);
    } else {
        lemma_steady_reflexive(after_known);
    }
    let writes_row = has_author;
    let after_row = if writes_row {
        asked(after_root, RequestView::InsertTweet { tweet }).0
    } else {
        after_root
    };
    if writes_row {
        lemma_asked_extends(after_root, RequestView::InsertTweet { tweet });
    } else {
        lemma_steady_reflexive(after_root);
    }
    assert(end.0 == after_row);
    lemma_steady_reflexive(after_row);
    lemma_extended_transitive(world_of(after_known), world_of(after_root), world_of(after_row));
    lemma_extended_transitive(world_of(after_author), world_of(after_known), world_of(after_row));
    lemma_extended_transitive(world_of(gateway), world_of(after_author), world_of(after_row));
    lemma_step(settings, script, next, gateway, after_author, after_row, end.1);
    lemma_user_loaded_replayed(gateway, tweet.author_id, script, next);
    let at_author = next + answered_since(world_of(gateway), world_of(after_author)).len();
    lemma_step(settings, script, at_author, after_author, after_known, after_row, end.1);
    if has_author && at_author <= script.len() {
        lemma_conversation_known_replayed(after_author, tweet.conversation_id, script, at_author);
    }
    let at_known = at_author + answered_since(world_of(after_author), world_of(after_known)).len();
    lemma_step(settings, script, at_known, after_known, after_root, after_row, end.1);
    if writes_root && at_known <= script.len() {
        lemma_conversation_written_replayed(after_known, tweet.conversation_id, script, at_known);
    }
    let at_root = at_known + answered_since(world_of(after_known), world_of(after_root)).len();
    lemma_step(settings, script, at_root, after_root, after_row, after_row, end.1);
    if writes_row && at_root <= script.len() {
        lemma_asked_replayed(after_root, RequestView::InsertTweet { tweet }, script, at_root);
    }
}

/// Writing the rows of a post and of the posts above it replays.
pub proof fn lemma_ancestors_persisted_replayed(
    gateway: GatewayView,
    current: TweetDataView,
    guard: Seq<i64>,
    chain: Seq<TweetDataView>,
    script: Seq<ResponseView>,
    next: nat,
)
    requires
        direct(gateway),
        agrees(
            script,
            next,
            answered_since(
                world_of(gateway),
                world_of(ancestors_persisted(gateway, current, guard, chain).0),
            ),
        ),
    ensures
        ancestors_persisted(
            replay(gateway.settings, script, next),
            current,
            guard,
            chain,
        ) == replayed(
            gateway.settings,
            script,
            next,
            asked_since(
                world_of(gateway),
                world_of(ancestors_persisted(gateway, current, guard, chain).0),
            ),
            answered_since(
                world_of(gateway),
                world_of(ancestors_persisted(gateway, current, guard, chain).0),
            ),
            ancestors_persisted(gateway, current, guard, chain).1,
        ),
    decreases id_space() - guard.len(),
{
    if current.tweet is None {
        lemma_nothing_asked(gateway, script, next);
    } else {
        let settings = gateway.settings;
        let end = ancestors_persisted(gateway, current, guard, chain);
        let row = row_persisted(gateway, current.tweet->0);
        let after_row = row.0;
        lemma_row_persisted(gateway, current.tweet->0);
        let parent = reply_target_of(current)->0;
        let known = tweet_known(after_row, parent);
        let has_parent = row.1 is Ok && reply_target_of(current) is Some;
        let after_known = if has_parent {
            known.0
        } else {
            after_row
        };
        if has_parent {
            lemma_tweet_known(after_row, parent);
        } else {
            lemma_steady_reflexive(after_row);
        }
        let fetched = tweet_fetched(after_known, parent as u64);
        let fetches = {
            &&& has_parent
            &&& known.1 == Ok::<bool, HaltView>(false)
            &&& !guard.contains(parent)
            &&& guard.len() < id_space()
            &&& parent >= 0
        };
        let after_fetched = if fetches {
            fetched.0
        } else {
            after_known
        };
        if fetches {
            lemma_tweet_fetched(after_known, parent as u64);
        } else {
            lemma_steady_reflexive(after_known);
        }
        let above = ancestors_persisted(
            after_fetched,
            fetched.1->Ok_0,
            guard.push(parent),
            chain.push(current),
        );
        let goes_on = fetches && fetched.1 is Ok && fetched.1->Ok_0.tweet is Some;
        let after_above = if goes_on {
            above.0
        } else {
            after_fetched
        };
        if goes_on {
            lemma_ancestors_persisted(
                after_fetched,
                fetched.1->Ok_0,
                guard.push(parent),
                chain.push(current),
            );
        } else {
            lemma_steady_reflexive(after_fetched);
        }
        assert(end.0 == after_above);
        lemma_steady_reflexive(after_above);
        lemma_extended_transitive(
            world_of(after_known),
            world_of(after_fetched),
            world_of(after_above),
        );
        lemma_extended_transitive(
            world_of(after_row),
            world_of(after_known),
            world_of(after_above),
        );
        lemma_extended_transitive(world_of(gateway), world_of(after_row), world_of(after_above));
        lemma_step(settings, script, next, gateway, after_row, after_above, end.1);
        lemma_row_persisted_replayed(gateway, current.tweet->0, script, next);
        let at_row = next + answered_since(world_of(gateway), world_of(after_row)).len();
        lemma_step(settings, script, at_row, after_row, after_known, after_above, end.1);
        if has_parent && at_row <= script.len() {
            lemma_tweet_known_replayed(after_row, parent, script, at_row);
        }
        let at_known = at_row + answered_since(world_of(after_row), world_of(after_known)).len();
        lemma_step(settings, script, at_known, after_known, after_fetched, after_above, end.1);
        if fetches && at_known <= script.len() {
            lemma_tweet_fetched_replayed(after_known, parent as u64, script, at_known);
        }
        let at_fetched = at_known + answered_since(
            world_of(after_known),
            world_of(after_fetched),
        ).len();
        lemma_step(settings, script, at_fetched, after_fetched, after_above, after_above, end.1);
        if goes_on && at_fetched <= script.len() {
            lemma_ancestors_persisted_replayed(
                after_fetched,
                fetched.1->Ok_0,
                guard.push(parent),
                chain.push(current),
                script,
                at_fetched,
            );
        }
    }
}

/// Writing a post in dependency order replays.
pub proof fn lemma_tweet_persisted_replayed(
    gateway: GatewayView,
    data: TweetDataView,
    script: Seq<ResponseView>,
    next: nat,
)
    requires
        direct(gateway),
        agrees(
            script,
            next,
            answered_since(world_of(gateway), world_of(tweet_persisted(gateway, data).0)),
        ),
    ensures
        tweet_persisted(replay(gateway.settings, script, next), data) == replayed(
            gateway.settings,
            script,
            next,
            asked_since(world_of(gateway), world_of(tweet_persisted(gateway, data).0)),
            answered_since(world_of(gateway), world_of(tweet_persisted(gateway, data).0)),
            tweet_persisted(gateway, data).1,
        ),
{
    if data.tweet is None {
        lemma_nothing_asked(gateway, script, next);
    } else {
        let settings = gateway.settings;
        let end = tweet_persisted(gateway, data);
        let stored = ancestors_persisted(gateway, data, seq![data.tweet->0.id], Seq::empty());
        let after_stored = stored.0;
        lemma_ancestors_persisted(gateway, data, seq![data.tweet->0.id], Seq::empty());
        let edges = chain_edges_written(after_stored, stored.1->Ok_0);
        let goes_on = stored.1 is Ok;
        let after_edges = if goes_on {
            edges.0
        } else {
            after_stored
        };
        if goes_on {
            lemma_chain_edges_written(after_stored, stored.1->Ok_0);
        } else {
            lemma_steady_reflexive(after_stored);
        }
        assert(end.0 == after_edges);
        lemma_steady_reflexive(after_edges);
        lemma_extended_transitive(world_of(gateway), world_of(after_stored), world_of(after_edges));
        lemma_step(settings, script, next, gateway, after_stored, after_edges, end.1);
        lemma_ancestors_persisted_replayed(
            gateway,
            data,
            seq![data.tweet->0.id],
            Seq::empty(),
            script,
            next,
        );
        let at_stored = next + answered_since(world_of(gateway), world_of(after_stored)).len();
        lemma_step(settings, script, at_stored, after_stored, after_edges, after_edges, end.1);
        if goes_on && at_stored <= script.len() {
            lemma_chain_edges_written_replayed(after_stored, stored.1->Ok_0, script, at_stored);
        }
    }
}

/// Writing posts in dependency order replays.
pub proof fn lemma_tweets_persisted_replayed(
    gateway: GatewayView,
    list: Seq<TweetDataView>,
    script: Seq<ResponseView>,
    next: nat,
)
    requires
        direct(gateway),
        agrees(
            script,
            next,
            answered_since(world_of(gateway), world_of(tweets_persisted(gateway, list).0)),
        ),
    ensures
        tweets_persisted(replay(gateway.settings, script, next), list) == replayed(
            gateway.settings,
            script,
            next,
            asked_since(world_of(gateway), world_of(tweets_persisted(gateway, list).0)),
            answered_since(world_of(gateway), world_of(tweets_persisted(gateway, list).0)),
            tweets_persisted(gateway, list).1,
        ),
    decreases list.len(),
{
    if list.len() == 0 {
        lemma_nothing_asked(gateway, script, next);
    } else {
        let settings = gateway.settings;
        let end = tweets_persisted(gateway, list);
        let first = tweet_persisted(gateway, list[0]);
        let after_first = first.0;
        lemma_tweet_persisted(gateway, list[0]);
        let rest = tweets_persisted(after_first, list.drop_first());
        let goes_on = first.1 is Ok;
        let after_rest = if goes_on {
            rest.0
        } else {
            after_first
        };
        if goes_on {
            lemma_tweets_persisted(after_first, list.drop_first());
        } else {
            lemma_steady_reflexive(after_first);
        }
        assert(end.0 == after_rest);
        lemma_steady_reflexive(after_rest);
        lemma_extended_transitive(world_of(gateway), world_of(after_first), world_of(after_rest));
        lemma_step(settings, script, next, gateway, after_first, after_rest, end.1);
        lemma_tweet_persisted_replayed(gateway, list[0], script, next);
        let at_first = next + answered_since(world_of(gateway), world_of(after_first)).len();
        lemma_step(settings, script, at_first, after_first, after_rest, after_rest, end.1);
        if goes_on && at_first <= script.len() {
            lemma_tweets_persisted_replayed(after_first, list.drop_first(), script, at_first);
        }
    }
}

} // verus!
