//! The one opening through which the archive reaches its store and the
//! remote source.
//!
//! A gateway answers requests in one of two ways. A replaying gateway holds
//! the answers that its owner has collected so far and hands them out in
//! order; when they run out, the operation stops with [`Halt::Suspended`]
//! and the request that the owner has to perform. A direct gateway answers
//! every request from a [`World`] held in memory.

use crate::error::ArchiveError;
use crate::protocol::{Request, RequestView, Response, ResponseView, Settings, WriteOutcome};
use crate::utils::{TweetData, TweetDataView, UserData};
use crate::wire::{Tweet, TweetView, User};
use crate::world::{answer, World, WorldView};
use vstd::prelude::*;

verus! {

/// Why an operation stopped before it had a result.
#[derive(Debug, PartialEq, Eq)]
pub enum Halt {
    /// The answer to this request is not known yet.
    Suspended(Request),
    /// The operation failed.
    Failed(ArchiveError),
}

/// The mathematical value of a [`Halt`].
pub enum HaltView {
    Suspended(RequestView),
    Failed(ArchiveError),
}

impl View for Halt {
    type V = HaltView;

    open spec fn view(&self) -> HaltView {
        match *self {
            Halt::Suspended(request) => HaltView::Suspended(request@),
            Halt::Failed(error) => HaltView::Failed(error),
        }
    }
}

/// Where a gateway takes its answers from.
pub enum Source {
    /// From a script of answers, of which the first `next` are used up.
    Replay { script: Seq<ResponseView>, next: nat },
    /// From a world held in memory.
    Direct { world: WorldView },
}

/// The mathematical value of a [`Gateway`].
pub struct GatewayView {
    pub settings: Settings,
    pub source: Source,
}

/// What a gateway answers to a request, and what it is afterwards.
#[verifier::opaque]
pub open spec fn asked(
    gateway: GatewayView,
    request: RequestView,
) -> (GatewayView, Result<ResponseView, HaltView>) {
    match gateway.source {
        Source::Replay { script, next } => if next < script.len() {
            (
                GatewayView { source: Source::Replay { script, next: next + 1 }, ..gateway },
                Ok(script[next as int]),
            )
        } else {
            (gateway, Err(HaltView::Suspended(request)))
        },
        Source::Direct { world } => {
            let (after, response) = answer(world, request);
            (GatewayView { source: Source::Direct { world: after }, ..gateway }, Ok(response))
        },
    }
}

/// What a gateway answers to a request to the remote source under the retry
/// rule: a rate-limited request is put once more after one cooldown, and the
/// second answer stands whatever it is.
pub open spec fn asked_remote(gateway: GatewayView, request: RequestView) -> (
    GatewayView,
    Result<ResponseView, HaltView>,
) {
    let (first_gateway, first) = asked(gateway, request);
    match first {
        Ok(ResponseView::RateLimited) => {
            let (waited_gateway, waited) = asked(
                first_gateway,
                RequestView::Cooldown { seconds: gateway.settings.cooldown_seconds },
            );
            match waited {
                Ok(_) => asked(waited_gateway, request),
                Err(halt) => (waited_gateway, Err(halt)),
            }
        },
        _ => (first_gateway, first),
    }
}

/// The stored post in an answer; any other answer is a data error.
pub open spec fn tweet_in(
    reply: Result<ResponseView, HaltView>,
) -> Result<TweetDataView, HaltView> {
    match reply {
        Ok(ResponseView::Tweet(data)) => Ok(data),
        Ok(_) => Err(HaltView::Failed(ArchiveError::DataError)),
        Err(halt) => Err(halt),
    }
}

/// The stored author in an answer; any other answer is a data error.
pub open spec fn user_in(reply: Result<ResponseView, HaltView>) -> Result<UserData, HaltView> {
    match reply {
        Ok(ResponseView::User(data)) => Ok(data),
        Ok(_) => Err(HaltView::Failed(ArchiveError::DataError)),
        Err(halt) => Err(halt),
    }
}

/// The stored authors in an answer; any other answer is a data error.
pub open spec fn users_in(reply: Result<ResponseView, HaltView>) -> Result<
    Seq<UserData>,
    HaltView,
> {
    match reply {
        Ok(ResponseView::Users(list)) => Ok(list),
        Ok(_) => Err(HaltView::Failed(ArchiveError::DataError)),
        Err(halt) => Err(halt),
    }
}

/// The yes or no in an answer; any other answer is a data error.
pub open spec fn flag_in(reply: Result<ResponseView, HaltView>) -> Result<bool, HaltView> {
    match reply {
        Ok(ResponseView::Flag(flag)) => Ok(flag),
        Ok(_) => Err(HaltView::Failed(ArchiveError::DataError)),
        Err(halt) => Err(halt),
    }
}

/// The stored posts in an answer; any other answer is a data error.
pub open spec fn tweets_in(
    reply: Result<ResponseView, HaltView>,
) -> Result<Seq<TweetDataView>, HaltView> {
    match reply {
        Ok(ResponseView::Tweets(list)) => Ok(list),
        Ok(_) => Err(HaltView::Failed(ArchiveError::DataError)),
        Err(halt) => Err(halt),
    }
}

/// Whether an answer says that a row is in the store now: a new row and a
/// duplicate both count, a rejected row and any other answer are a data
/// error.
pub open spec fn written_in(reply: Result<ResponseView, HaltView>) -> Result<(), HaltView> {
    match reply {
        Ok(ResponseView::Written(WriteOutcome::Inserted)) => Ok(()),
        Ok(ResponseView::Written(WriteOutcome::Duplicate)) => Ok(()),
        Ok(_) => Err(HaltView::Failed(ArchiveError::DataError)),
        Err(halt) => Err(halt),
    }
}

/// The remote post in an answer. A rate limit is retryable; a failure of the
/// remote source and any other answer are a data error.
pub open spec fn remote_tweet_in(reply: Result<ResponseView, HaltView>) -> Result<
    Option<TweetView>,
    HaltView,
> {
    match reply {
        Ok(ResponseView::RemoteTweet(tweet)) => Ok(tweet),
        Ok(ResponseView::RateLimited) => Err(HaltView::Failed(ArchiveError::Retryable)),
        Ok(_) => Err(HaltView::Failed(ArchiveError::DataError)),
        Err(halt) => Err(halt),
    }
}

/// The remote author in an answer, read as [`remote_tweet_in`] reads a post.
pub open spec fn remote_user_in(
    reply: Result<ResponseView, HaltView>,
) -> Result<Option<User>, HaltView> {
    match reply {
        Ok(ResponseView::RemoteUser(user)) => Ok(user),
        Ok(ResponseView::RateLimited) => Err(HaltView::Failed(ArchiveError::Retryable)),
        Ok(_) => Err(HaltView::Failed(ArchiveError::DataError)),
        Err(halt) => Err(halt),
    }
}

/// The remote posts in an answer, read as [`remote_tweet_in`] reads a post.
pub open spec fn remote_timeline_in(reply: Result<ResponseView, HaltView>) -> Result<
    Seq<TweetView>,
    HaltView,
> {
    match reply {
        Ok(ResponseView::RemoteTimeline(list)) => Ok(list),
        Ok(ResponseView::RateLimited) => Err(HaltView::Failed(ArchiveError::Retryable)),
        Ok(_) => Err(HaltView::Failed(ArchiveError::DataError)),
        Err(halt) => Err(halt),
    }
}

/// The view of what an operation returned.
pub open spec fn lifted<T: View>(result: Result<T, Halt>) -> Result<T::V, HaltView> {
    match result {
        Ok(value) => Ok(value@),
        Err(halt) => Err(halt@),
    }
}

/// What an operation returned, with the view of the halt.
pub open spec fn plain<T>(result: Result<T, Halt>) -> Result<T, HaltView> {
    match result {
        Ok(value) => Ok(value),
        Err(halt) => Err(halt@),
    }
}

/// The views of the list that an operation returned.
pub open spec fn lifted_list<T: DeepView>(result: Result<Vec<T>, Halt>) -> Result<
    Seq<T::V>,
    HaltView,
> {
    match result {
        Ok(list) => Ok(list.deep_view()),
        Err(halt) => Err(halt@),
    }
}

/// The view of the optional value that an operation returned.
pub open spec fn lifted_option<T: DeepView>(result: Result<Option<T>, Halt>) -> Result<
    Option<T::V>,
    HaltView,
> {
    match result {
        Ok(value) => Ok(value.deep_view()),
        Err(halt) => Err(halt@),
    }
}

/// The opening through which an operation asks.
pub struct Gateway {
    pub settings: Settings,
    /// Whether requests are answered by `world` rather than from `script`.
    pub direct: bool,
    pub world: World,
    pub script: Vec<Response>,
    /// How many answers of `script` are used up.
    pub next: usize,
}

impl View for Gateway {
    type V = GatewayView;

    open spec fn view(&self) -> GatewayView {
        GatewayView {
            settings: self.settings,
            source: if self.direct {
                Source::Direct { world: self.world@ }
            } else {
                Source::Replay { script: self.script.deep_view(), next: self.next as nat }
            },
        }
    }
}

impl Gateway {
    /// A gateway that hands out the answers of `script` in order.
    pub fn replay(settings: Settings, script: Vec<Response>) -> (gateway: Gateway)
        ensures
            gateway@ == (GatewayView {
                settings,
                source: Source::Replay { script: script.deep_view(), next: 0 },
            }),
    {
        Gateway { settings, direct: false, world: World::new(), script, next: 0 }
    }

    /// A gateway that answers from `world`.
    pub fn direct(settings: Settings, world: World) -> (gateway: Gateway)
        ensures
            gateway@ == (GatewayView { settings, source: Source::Direct { world: world@ } }),
    {
        Gateway { settings, direct: true, world, script: Vec::new(), next: 0 }
    }

    /// Puts a request.
    pub fn ask(&mut self, request: Request) -> (reply: Result<Response, Halt>)
        ensures
            (final(self)@, lifted(reply)) == asked(old(self)@, request@),
            final(self)@.settings == old(self)@.settings,
    {
        reveal(asked);
        if self.direct {
            let response = self.world.answer(request);
            Ok(response)
        } else if self.next < self.script.len() {
            let response = self.script[self.next].clone();
            self.next = self.next + 1;
            Ok(response)
        } else {
            Err(Halt::Suspended(request))
        }
    }

    /// Puts a request to the remote source, once more after one cooldown
    /// where the first answer is a rate limit.
    pub fn ask_remote(&mut self, request: Request) -> (reply: Result<Response, Halt>)
        ensures
            (final(self)@, lifted(reply)) == asked_remote(old(self)@, request@),
    {
        let again = request.clone();
        let first = self.ask(request);
        match first {
            Ok(Response::RateLimited) => {
                let seconds: u64 = self.settings.cooldown_seconds;
                match self.ask(Request::Cooldown { seconds }) {
                    Ok(_) => self.ask(again),
                    Err(halt) => Err(halt),
                }
            },
            _ => first,
        }
    }

    /// Puts a request whose answer is a stored post.
    pub fn ask_tweet(&mut self, request: Request) -> (reply: Result<TweetData, Halt>)
        ensures
            final(self)@ == asked(old(self)@, request@).0,
            lifted(reply) == tweet_in(asked(old(self)@, request@).1),
    {
        match self.ask(request) {
            Ok(Response::Tweet(data)) => Ok(data),
            Ok(_) => Err(Halt::Failed(ArchiveError::DataError)),
            Err(halt) => Err(halt),
        }
    }

    /// Puts a request whose answer is a stored author.
    pub fn ask_user(&mut self, request: Request) -> (reply: Result<UserData, Halt>)
        ensures
            final(self)@ == asked(old(self)@, request@).0,
            plain(reply) == user_in(asked(old(self)@, request@).1),
    {
        match self.ask(request) {
            Ok(Response::User(data)) => Ok(data),
            Ok(_) => Err(Halt::Failed(ArchiveError::DataError)),
            Err(halt) => Err(halt),
        }
    }

    /// Puts a request whose answer is a list of stored authors.
    pub fn ask_users(&mut self, request: Request) -> (reply: Result<Vec<UserData>, Halt>)
        ensures
            final(self)@ == asked(old(self)@, request@).0,
            lifted(reply) == users_in(asked(old(self)@, request@).1),
    {
        match self.ask(request) {
            Ok(Response::Users(list)) => Ok(list),
            Ok(_) => Err(Halt::Failed(ArchiveError::DataError)),
            Err(halt) => Err(halt),
        }
    }

    /// Puts a request whose answer is a yes or a no.
    pub fn ask_flag(&mut self, request: Request) -> (reply: Result<bool, Halt>)
        ensures
            final(self)@ == asked(old(self)@, request@).0,
            plain(reply) == flag_in(asked(old(self)@, request@).1),
    {
        match self.ask(request) {
            Ok(Response::Flag(flag)) => Ok(flag),
            Ok(_) => Err(Halt::Failed(ArchiveError::DataError)),
            Err(halt) => Err(halt),
        }
    }

    /// Puts a request whose answer is a list of stored posts.
    pub fn ask_tweets(&mut self, request: Request) -> (reply: Result<Vec<TweetData>, Halt>)
        ensures
            final(self)@ == asked(old(self)@, request@).0,
            lifted_list(reply) == tweets_in(asked(old(self)@, request@).1),
    {
        match self.ask(request) {
            Ok(Response::Tweets(list)) => Ok(list),
            Ok(_) => Err(Halt::Failed(ArchiveError::DataError)),
            Err(halt) => Err(halt),
        }
    }

    /// Puts an insert. `Ok` means that the row is in the store now.
    pub fn ask_written(&mut self, request: Request) -> (reply: Result<(), Halt>)
        ensures
            final(self)@ == asked(old(self)@, request@).0,
            plain(reply) == written_in(asked(old(self)@, request@).1),
    {
        match self.ask(request) {
            Ok(Response::Written(WriteOutcome::Inserted)) => Ok(()),
            Ok(Response::Written(WriteOutcome::Duplicate)) => Ok(()),
            Ok(_) => Err(Halt::Failed(ArchiveError::DataError)),
            Err(halt) => Err(halt),
        }
    }

    /// Puts a request for a remote post, under the retry rule.
    pub fn ask_remote_tweet(&mut self, request: Request) -> (reply: Result<Option<Tweet>, Halt>)
        ensures
            final(self)@ == asked_remote(old(self)@, request@).0,
            lifted_option(reply) == remote_tweet_in(asked_remote(old(self)@, request@).1),
    {
        match self.ask_remote(request) {
            Ok(Response::RemoteTweet(tweet)) => Ok(tweet),
            Ok(Response::RateLimited) => Err(Halt::Failed(ArchiveError::Retryable)),
            Ok(_) => Err(Halt::Failed(ArchiveError::DataError)),
            Err(halt) => Err(halt),
        }
    }

    /// Puts a request for a remote author, under the retry rule.
    pub fn ask_remote_user(&mut self, request: Request) -> (reply: Result<Option<User>, Halt>)
        ensures
            final(self)@ == asked_remote(old(self)@, request@).0,
            plain(reply) == remote_user_in(asked_remote(old(self)@, request@).1),
    {
        match self.ask_remote(request) {
            Ok(Response::RemoteUser(user)) => Ok(user),
            Ok(Response::RateLimited) => Err(Halt::Failed(ArchiveError::Retryable)),
            Ok(_) => Err(Halt::Failed(ArchiveError::DataError)),
            Err(halt) => Err(halt),
        }
    }

    /// Puts a request for remote posts, under the retry rule.
    pub fn ask_remote_timeline(&mut self, request: Request) -> (reply: Result<Vec<Tweet>, Halt>)
        ensures
            final(self)@ == asked_remote(old(self)@, request@).0,
            lifted_list(reply) == remote_timeline_in(asked_remote(old(self)@, request@).1),
    {
        match self.ask_remote(request) {
            Ok(Response::RemoteTimeline(list)) => Ok(list),
            Ok(Response::RateLimited) => Err(Halt::Failed(ArchiveError::Retryable)),
            Ok(_) => Err(Halt::Failed(ArchiveError::DataError)),
            Err(halt) => Err(halt),
        }
    }
}

} // verus!
