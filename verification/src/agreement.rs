//! A gateway that replays the answers of a world does what a gateway does
//! that asks the world directly.
//!
//! Every lemma here is about one operation and a direct gateway. It runs
//! the operation on that gateway, takes the requests and answers that the
//! world has added on the way, and says what the operation does on a
//! replaying gateway whose script agrees with those answers as far as it
//! goes: with a script that holds all of them, the operation ends as it
//! ended on the world; with a shorter one, it stops for the first request
//! that the script does not answer.

use crate::agreement::freshness::{
    lemma_backfilled_replayed, lemma_history_seeded_replayed, lemma_local_latest_stamp_replayed,
    lemma_new_tweets_fetched_replayed, lemma_remote_latest_stamp_replayed,
    lemma_remote_newer_than_replayed, lemma_staleness_replayed, lemma_tweets_since_loaded_replayed,
    lemma_user_conversations_loaded_replayed, lemma_user_tweets_loaded_replayed,
};
use crate::agreement::loading::{
    lemma_conversation_loaded_replayed, lemma_tweet_loaded_replayed,
    lemma_user_loaded_by_handle_replayed, lemma_user_loaded_replayed,
};
use crate::agreement::reading::{
    lemma_search_read_replayed, lemma_tweets_read_all_replayed, lemma_users_read_all_replayed,
};
use crate::gateway::{asked, asked_remote, GatewayView, HaltView, Source};
use crate::invariants::extended;
use crate::laws::{direct, lemma_asked, lemma_asked_remote, lemma_performed, world_of};
use crate::protocol::{RequestView, ResponseView, Settings};
use crate::session::{advanced, performed, OperationView, StepView};
use crate::world::{reply, WorldView};
use vstd::prelude::*;

pub mod freshness;
pub mod loading;
pub mod reading;
pub mod writing;

verus! {

/// The gateway that replays `script` and has used up its first `next`
/// answers.
pub open spec fn replay(settings: Settings, script: Seq<ResponseView>, next: nat) -> GatewayView {
    GatewayView { settings, source: Source::Replay { script, next } }
}

/// The requests that a world has answered since it was `before`.
pub open spec fn asked_since(before: WorldView, after: WorldView) -> Seq<RequestView> {
    after.asked.skip(before.asked.len() as int)
}

/// The answers that a world has given since it was `before`.
pub open spec fn answered_since(before: WorldView, after: WorldView) -> Seq<ResponseView> {
    after.answers.skip(before.answers.len() as int)
}

/// Whether a script, from its answer `next` on, holds the answers `given`
/// as far as it goes.
pub open spec fn agrees(script: Seq<ResponseView>, next: nat, given: Seq<ResponseView>) -> bool {
    &&& next <= script.len()
    &&& forall|i: int|
        0 <= i < given.len() && next + i < script.len() ==> script[next + i] == #[trigger] given[i]
}

/// What an operation does on a replaying gateway, told from what it did on
/// a world: where the script holds all the answers that the world gave, the
/// operation uses them up and ends as it ended on the world; where it does
/// not, the operation uses up the script and stops for the first request
/// that is not answered.
pub open spec fn replayed<T>(
    settings: Settings,
    script: Seq<ResponseView>,
    next: nat,
    requests: Seq<RequestView>,
    answers: Seq<ResponseView>,
    result: Result<T, HaltView>,
) -> (GatewayView, Result<T, HaltView>) {
    if next + answers.len() <= script.len() {
        (replay(settings, script, next + answers.len()), result)
    } else {
        (
            replay(settings, script, script.len()),
            Err(HaltView::Suspended(requests[script.len() - next])),
        )
    }
}

/// What an operation does on a replaying gateway, told from one of its
/// steps: between `start` and `end`, the operation comes through `middle`.
///
/// A script that agrees with the answers from the start to the end agrees
/// with those from the start to the middle. Where it holds all of those, it
/// agrees with the answers from the middle to the end, and the operation
/// ends where its rest ends; where it does not, the operation stops between
/// the start and the middle.
pub proof fn lemma_step<T>(
    settings: Settings,
    script: Seq<ResponseView>,
    next: nat,
    start: GatewayView,
    middle: GatewayView,
    end: GatewayView,
    result: Result<T, HaltView>,
)
    requires
        extended(world_of(start), world_of(middle)),
        extended(world_of(middle), world_of(end)),
    ensures
        agrees(script, next, answered_since(world_of(start), world_of(end))) ==> {
            let reached = next + answered_since(world_of(start), world_of(middle)).len();
            &&& agrees(script, next, answered_since(world_of(start), world_of(middle)))
            &&& reached <= script.len() ==> agrees(
                script,
                reached,
                answered_since(world_of(middle), world_of(end)),
            )
            &&& reached <= script.len() ==> replayed(
                settings,
                script,
                reached,
                asked_since(world_of(middle), world_of(end)),
                answered_since(world_of(middle), world_of(end)),
                result,
            ) == replayed(
                settings,
                script,
                next,
                asked_since(world_of(start), world_of(end)),
                answered_since(world_of(start), world_of(end)),
                result,
            )
            &&& reached > script.len() ==> replayed(
                settings,
                script,
                next,
                asked_since(world_of(start), world_of(end)),
                answered_since(world_of(start), world_of(end)),
                result,
            ) == (
                replay(settings, script, script.len()),
                Err::<T, HaltView>(
                    HaltView::Suspended(
                        asked_since(world_of(start), world_of(middle))[script.len() - next],
                    ),
                ),
            )
        },
{
    let first = world_of(start);
    let second = world_of(middle);
    let third = world_of(end);
    let whole = answered_since(first, third);
    let head = answered_since(first, second);
    let tail = answered_since(second, third);
    if agrees(script, next, whole) {
        assert(third.answers.take(first.answers.len() as int) == second.answers.take(
            first.answers.len() as int,
        ));
        assert forall|i: int| 0 <= i < head.len() implies #[trigger] head[i] == whole[i] by {
            assert(second.answers[first.answers.len() + i] == third.answers.take(
                second.answers.len() as int,
            )[first.answers.len() + i]);
        }
        assert forall|i: int| 0 <= i < tail.len() implies #[trigger] tail[i] == whole[head.len()
            + i] by {}
        assert forall|i: int|
            0 <= i < head.len() && next + i < script.len() implies script[next + i]
            == #[trigger] head[i] by {
            assert(whole[i] == head[i]);
        }
        if next + head.len() <= script.len() {
            assert forall|i: int|
                0 <= i < tail.len() && next + head.len() + i < script.len() implies script[next
                + head.len() + i] == #[trigger] tail[i] by {
                assert(whole[head.len() + i] == tail[i]);
            }
            if next + whole.len() > script.len() {
                let at = script.len() - next - head.len();
                assert(asked_since(second, third)[at] == asked_since(first, third)[script.len()
                    - next]);
            }
        } else {
            let at = script.len() - next;
            assert(second.asked[first.asked.len() + at] == third.asked.take(
                second.asked.len() as int,
            )[first.asked.len() + at]);
        }
    }
}

/// A step that asks nothing leaves a replaying gateway as it is.
pub proof fn lemma_nothing_asked(gateway: GatewayView, script: Seq<ResponseView>, next: nat)
    requires
        next <= script.len(),
    ensures
        asked_since(world_of(gateway), world_of(gateway)).len() == 0,
        answered_since(world_of(gateway), world_of(gateway)).len() == 0,
{
}

/// What was answered before is still answered two steps later.
pub proof fn lemma_extended_transitive(first: WorldView, second: WorldView, third: WorldView)
    requires
        extended(first, second),
        extended(second, third),
    ensures
        extended(first, third),
{
    assert(third.asked.take(first.asked.len() as int) == second.asked.take(
        first.asked.len() as int,
    ));
    assert(third.answers.take(first.answers.len() as int) == second.answers.take(
        first.answers.len() as int,
    ));
}

/// A request that a direct gateway answers adds to what its world has
/// answered.
pub proof fn lemma_asked_extends(gateway: GatewayView, request: RequestView)
    requires
        direct(gateway),
    ensures
        direct(asked(gateway, request).0),
        asked(gateway, request).0.settings == gateway.settings,
        extended(world_of(gateway), world_of(asked(gateway, request).0)),
{
    lemma_asked(gateway, request);
    crate::invariants::lemma_answer(world_of(gateway), request);
}

/// A request on a replaying gateway is answered as the world answered it.
pub proof fn lemma_asked_replayed(
    gateway: GatewayView,
    request: RequestView,
    script: Seq<ResponseView>,
    next: nat,
)
    requires
        direct(gateway),
        agrees(
            script,
            next,
            answered_since(world_of(gateway), world_of(asked(gateway, request).0)),
        ),
    ensures
        asked(replay(gateway.settings, script, next), request) == replayed(
            gateway.settings,
            script,
            next,
            asked_since(world_of(gateway), world_of(asked(gateway, request).0)),
            answered_since(world_of(gateway), world_of(asked(gateway, request).0)),
            asked(gateway, request).1,
        ),
{
    reveal(asked);
    lemma_asked(gateway, request);
    let before = world_of(gateway);
    let after = world_of(asked(gateway, request).0);
    assert(asked_since(before, after) =~= seq![request]);
    assert(answered_since(before, after) =~= seq![reply(before, request)]);
    assert(answered_since(before, after)[0] == reply(before, request));
}

/// A request to the remote source on a replaying gateway is answered as
/// the world answered it.
pub proof fn lemma_asked_remote_replayed(
    gateway: GatewayView,
    request: RequestView,
    script: Seq<ResponseView>,
    next: nat,
)
    requires
        direct(gateway),
        request is RemoteTweet || request is RemoteUser || request is RemoteUserByHandle
            || request is RemoteTimeline,
        agrees(
            script,
            next,
            answered_since(world_of(gateway), world_of(asked_remote(gateway, request).0)),
        ),
    ensures
        asked_remote(replay(gateway.settings, script, next), request) == replayed(
            gateway.settings,
            script,
            next,
            asked_since(world_of(gateway), world_of(asked_remote(gateway, request).0)),
            answered_since(world_of(gateway), world_of(asked_remote(gateway, request).0)),
            asked_remote(gateway, request).1,
        ),
{
    lemma_asked_remote(gateway, request);
    lemma_asked(gateway, request);
    lemma_asked_replayed(gateway, request, script, next);
}

/// Every operation replays.
pub proof fn lemma_performed_replayed(
    gateway: GatewayView,
    operation: OperationView,
    script: Seq<ResponseView>,
    next: nat,
)
    requires
        direct(gateway),
        agrees(
            script,
            next,
            answered_since(world_of(gateway), world_of(performed(gateway, operation).0)),
        ),
    ensures
        performed(replay(gateway.settings, script, next), operation) == replayed(
            gateway.settings,
            script,
            next,
            asked_since(world_of(gateway), world_of(performed(gateway, operation).0)),
            answered_since(world_of(gateway), world_of(performed(gateway, operation).0)),
            performed(gateway, operation).1,
        ),
{
    match operation {
        OperationView::Tweet { id } => {
            lemma_tweet_loaded_replayed(gateway, id, script, next);
        },
        OperationView::UserById { id } => {
            lemma_user_loaded_replayed(gateway, id, script, next);
        },
        OperationView::UserByHandle { handle } => {
            lemma_user_loaded_by_handle_replayed(gateway, handle, script, next);
        },
        OperationView::UserTweets { handle } => {
            lemma_user_tweets_loaded_replayed(gateway, handle, script, next);
        },
        OperationView::UserConversations { handle } => {
            lemma_user_conversations_loaded_replayed(gateway, handle, script, next);
        },
        OperationView::Conversation { id } => {
            lemma_conversation_loaded_replayed(gateway, id, script, next);
        },
        OperationView::LatestRemote { handle } => {
            lemma_remote_latest_stamp_replayed(gateway, handle, script, next);
        },
        OperationView::HasTweetedSince { handle, seconds } => {
            lemma_remote_newer_than_replayed(gateway, handle, seconds, script, next);
        },
        OperationView::TweetsSince { handle, date } => {
            lemma_tweets_since_loaded_replayed(gateway, handle, date, script, next);
        },
        OperationView::Search { query } => {
            lemma_search_read_replayed(gateway, query, script, next);
        },
        OperationView::Tweets => {
            lemma_tweets_read_all_replayed(gateway, script, next);
        },
        OperationView::Users => {
            lemma_users_read_all_replayed(gateway, script, next);
        },
        OperationView::LatestStored { handle } => {
            lemma_local_latest_stamp_replayed(gateway, handle, script, next);
        },
        OperationView::HasNewTweets { handle } => {
            lemma_staleness_replayed(gateway, handle, script, next);
        },
        OperationView::NewTweets { handle } => {
            lemma_new_tweets_fetched_replayed(gateway, handle, script, next);
        },
        OperationView::Backfill { handle } => {
            lemma_backfilled_replayed(gateway, handle, script, next);
        },
        OperationView::History { handle } => {
            lemma_history_seeded_replayed(gateway, handle, script, next);
        },
    }
}

/// Agreement of the two ways to run an operation: an operation that is
/// advanced on the first answers that a world gives to it asks for the
/// request that the world answers next, and advanced on all the answers
/// that the world gives to it, it ends as it ends on the world.
pub proof fn lemma_advance_agrees(gateway: GatewayView, operation: OperationView, count: nat)
    requires
        direct(gateway),
    ensures
        ({
            let run = performed(gateway, operation);
            let requests = asked_since(world_of(gateway), world_of(run.0));
            let answers = answered_since(world_of(gateway), world_of(run.0));
            &&& requests.len() == answers.len()
            &&& count < answers.len() ==> advanced(
                operation,
                gateway.settings,
                answers.take(count as int),
            ) == StepView::Ask(requests[count as int])
            &&& advanced(operation, gateway.settings, answers) == match run.1 {
                Ok(outcome) => StepView::Done(outcome),
                Err(HaltView::Failed(error)) => StepView::Failed(error),
                Err(HaltView::Suspended(request)) => StepView::Ask(request),
            }
            &&& !(run.1 matches Err(HaltView::Suspended(_)))
        }),
{
    let run = performed(gateway, operation);
    let answers = answered_since(world_of(gateway), world_of(run.0));
    lemma_performed(gateway, operation);
    lemma_performed_replayed(gateway, operation, answers, 0);
    if count < answers.len() {
        lemma_performed_replayed(gateway, operation, answers.take(count as int), 0);
    }
}

} // verus!
