//! An archive held in memory: the tables of a local store and a fixed
//! snapshot of the remote source, answering every request at once.

use crate::clock::Timestamp;
use crate::entities::tweets;
use crate::entities::user;
use crate::invariants::{lemma_answer, lemma_remote_insert_distinct, well_formed};
use crate::protocol::{Request, RequestView, Response, ResponseView, Timeline, WriteOutcome};
use crate::tables::{
    first_match, kept, kept_backwards, lead, lemma_first_match, lemma_first_match_at,
    lemma_kept_step, lemma_lead_at,
};
use crate::text::{is_substring, str_contains};
use crate::utils::{TweetData, TweetDataView, TweetReferenceData, UserData};
use crate::wire::{Tweet, TweetView, User};
use vstd::prelude::*;

verus! {

/// Which stored posts a query asks for.
pub enum Selector {
    /// The posts of one author.
    ByAuthor(i64),
    /// The posts of one author created strictly after an instant.
    ByAuthorSince(i64, Timestamp),
    /// The posts whose body contains a text.
    Containing(String),
    /// The posts of one conversation.
    InConversation(i64),
    /// Every post.
    Every,
}

/// The mathematical value of a [`Selector`].
pub enum Selection {
    ByAuthor(i64),
    ByAuthorSince(i64, Timestamp),
    Containing(Seq<char>),
    InConversation(i64),
    Every,
}

impl View for Selector {
    type V = Selection;

    open spec fn view(&self) -> Selection {
        match *self {
            Selector::ByAuthor(author) => Selection::ByAuthor(author),
            Selector::ByAuthorSince(author, after) => Selection::ByAuthorSince(author, after),
            Selector::Containing(query) => Selection::Containing(query@),
            Selector::InConversation(root) => Selection::InConversation(root),
            Selector::Every => Selection::Every,
        }
    }
}

/// Whether a stored post has the id `id`.
pub open spec fn tweet_with_id(id: i64) -> spec_fn(tweets::Model) -> bool {
    |tweet: tweets::Model| tweet.id == id
}

/// Whether a stored author has the id `id`.
pub open spec fn user_with_id(id: i64) -> spec_fn(user::Model) -> bool {
    |user: user::Model| user.id == id
}

/// Whether a stored author has the handle `handle`.
pub open spec fn user_with_handle(handle: Seq<char>) -> spec_fn(user::Model) -> bool {
    |user: user::Model| user.username@ == handle
}

/// Whether an edge leaves the post `id`.
pub open spec fn edge_from(id: i64) -> spec_fn(TweetReferenceData) -> bool {
    |edge: TweetReferenceData| edge.source_tweet_id == id
}

/// Whether a remote post has the id `id`.
pub open spec fn remote_tweet_with_id(id: u64) -> spec_fn(TweetView) -> bool {
    |tweet: TweetView| tweet.id == id
}

/// Whether a remote author has the id `id`.
pub open spec fn remote_user_with_id(id: u64) -> spec_fn(User) -> bool {
    |user: User| user.id == id
}

/// Whether a remote author has the handle `handle`.
pub open spec fn remote_user_with_handle(handle: Seq<char>) -> spec_fn(User) -> bool {
    |user: User| user.username@ == handle
}

/// Whether a stored post is one that `selector` asks for.
pub open spec fn selects(selection: Selection) -> spec_fn(tweets::Model) -> bool {
    |tweet: tweets::Model|
        match selection {
            Selection::ByAuthor(author) => tweet.author_id == author,
            Selection::ByAuthorSince(author, after) => tweet.author_id == author
                && tweet.created_at.seconds > after.seconds,
            Selection::Containing(query) => is_substring(query, tweet.content@),
            Selection::InConversation(root) => tweet.conversation_id == root,
            Selection::Every => true,
        }
}

/// Whether a stored post was created at `seconds` or later.
pub open spec fn not_older(seconds: i64) -> spec_fn(tweets::Model) -> bool {
    |tweet: tweets::Model| tweet.created_at.seconds >= seconds
}

/// The instant by which remote posts are ordered: a post without a creation
/// time is older than every post with one.
pub open spec fn recency(created_at: Option<Timestamp>) -> int {
    match created_at {
        Some(stamp) => stamp.seconds as int,
        None => i64::MIN - 1,
    }
}

/// Whether a remote post is at least as recent as `created_at`.
pub open spec fn remote_not_older(created_at: Option<Timestamp>) -> spec_fn(TweetView) -> bool {
    |tweet: TweetView| recency(tweet.created_at) >= recency(created_at)
}

/// Whether a remote post is one that `query` asks for.
pub open spec fn in_timeline(query: Timeline) -> spec_fn(TweetView) -> bool {
    |tweet: TweetView|
        {
            &&& tweet.author_id == Some(query.user_id)
            &&& query.start_time matches Some(start) ==> recency(tweet.created_at) > start.seconds
            &&& query.until_id matches Some(until) ==> tweet.id < until
        }
}

/// The mathematical value of a [`World`].
pub struct WorldView {
    pub users: Seq<user::Model>,
    pub conversations: Seq<i64>,
    pub tweets: Seq<tweets::Model>,
    pub references: Seq<TweetReferenceData>,
    pub remote_tweets: Seq<TweetView>,
    pub remote_users: Seq<User>,
    /// Every request answered so far, oldest first.
    pub asked: Seq<RequestView>,
    /// The answers to the requests of `asked`, in their order.
    pub answers: Seq<ResponseView>,
}

/// A stored post with the edges that leave it.
pub open spec fn entry(references: Seq<TweetReferenceData>, tweet: tweets::Model) -> TweetDataView {
    TweetDataView { tweet: Some(tweet), references: kept(references, edge_from(tweet.id)) }
}

/// Each of `rows` with the edges that leave it.
pub open spec fn entries(
    references: Seq<TweetReferenceData>,
    rows: Seq<tweets::Model>,
) -> Seq<TweetDataView> {
    Seq::new(rows.len(), |i: int| entry(references, rows[i]))
}

/// What the store holds under a post id: the post, if there is one, and the
/// edges stored for that id.
pub open spec fn stored_tweet(world: WorldView, id: i64) -> TweetDataView {
    TweetDataView {
        tweet: first_match(world.tweets, tweet_with_id(id)),
        references: kept(world.references, edge_from(id)),
    }
}

/// The stored posts that `selector` asks for, in the order of the table.
pub open spec fn selection(world: WorldView, selection: Selection) -> Seq<TweetDataView> {
    entries(world.references, kept(world.tweets, selects(selection)))
}

/// The stored posts of a conversation, in the reverse of the order of the
/// table.
pub open spec fn conversation_tweets(world: WorldView, root: i64) -> Seq<TweetDataView> {
    entries(
        world.references,
        kept_backwards(world.tweets, selects(Selection::InConversation(root))),
    )
}

/// Every stored author.
pub open spec fn all_users(world: WorldView) -> Seq<UserData> {
    Seq::new(world.users.len(), |i: int| UserData { user: Some(world.users[i]) })
}

/// The newest stored post of an author, or no post.
pub open spec fn latest_tweet(world: WorldView, author: i64) -> TweetDataView {
    let rows = kept(world.tweets, selects(Selection::ByAuthor(author)));
    if rows.len() > 0 {
        entry(world.references, rows[0])
    } else {
        TweetDataView { tweet: None, references: Seq::empty() }
    }
}

/// The remote posts that `query` asks for, in the order of the snapshot and
/// cut off after `max_results`.
pub open spec fn timeline(world: WorldView, query: Timeline) -> Seq<TweetView> {
    let all = kept(world.remote_tweets, in_timeline(query));
    match query.max_results {
        Some(most) => if all.len() > most {
            all.take(most as int)
        } else {
            all
        },
        None => all,
    }
}

/// The table of posts with one more post, put before the first post that is
/// strictly older.
pub open spec fn with_tweet(rows: Seq<tweets::Model>, tweet: tweets::Model) -> Seq<tweets::Model> {
    rows.insert(lead(rows, not_older(tweet.created_at.seconds)), tweet)
}

/// What the world answers to a request.
///
/// An insert under a key that is taken is a `Duplicate`, any other insert
/// is `Inserted`. The remote source is never rate limited and never fails.
pub open spec fn reply(world: WorldView, request: RequestView) -> ResponseView {
    match request {
        RequestView::FindTweet { id } => ResponseView::Tweet(stored_tweet(world, id)),
        RequestView::FindUser { id } => ResponseView::User(
            UserData { user: first_match(world.users, user_with_id(id)) },
        ),
        RequestView::FindUserByHandle { handle } => ResponseView::User(
            UserData { user: first_match(world.users, user_with_handle(handle)) },
        ),
        RequestView::TweetExists { id } => ResponseView::Flag(
            first_match(world.tweets, tweet_with_id(id)) is Some,
        ),
        RequestView::ConversationExists { id } => ResponseView::Flag(
            world.conversations.contains(id),
        ),
        RequestView::UserTweets { author_id } => ResponseView::Tweets(
            selection(world, Selection::ByAuthor(author_id)),
        ),
        RequestView::UserTweetsSince { author_id, after } => ResponseView::Tweets(
            selection(world, Selection::ByAuthorSince(author_id, after)),
        ),
        RequestView::LatestTweet { author_id } => ResponseView::Tweet(
            latest_tweet(world, author_id),
        ),
        RequestView::SearchTweets { query } => ResponseView::Tweets(
            selection(world, Selection::Containing(query)),
        ),
        RequestView::AllTweets => ResponseView::Tweets(selection(world, Selection::Every)),
        RequestView::AllUsers => ResponseView::Users(all_users(world)),
        RequestView::ConversationTweets { id } => ResponseView::Tweets(
            conversation_tweets(world, id),
        ),
        RequestView::InsertUser { user } => ResponseView::Written(
            if first_match(world.users, user_with_id(user.id)) is Some {
                WriteOutcome::Duplicate
            } else {
                WriteOutcome::Inserted
            },
        ),
        RequestView::InsertConversation { id } => ResponseView::Written(
            if world.conversations.contains(id) {
                WriteOutcome::Duplicate
            } else {
                WriteOutcome::Inserted
            },
        ),
        RequestView::InsertTweet { tweet } => ResponseView::Written(
            if first_match(world.tweets, tweet_with_id(tweet.id)) is Some {
                WriteOutcome::Duplicate
            } else {
                WriteOutcome::Inserted
            },
        ),
        RequestView::InsertReference { reference } => ResponseView::Written(
            if world.references.contains(reference) {
                WriteOutcome::Duplicate
            } else {
                WriteOutcome::Inserted
            },
        ),
        RequestView::RemoteTweet { id } => ResponseView::RemoteTweet(
            first_match(world.remote_tweets, remote_tweet_with_id(id)),
        ),
        RequestView::RemoteUser { id } => ResponseView::RemoteUser(
            first_match(world.remote_users, remote_user_with_id(id)),
        ),
        RequestView::RemoteUserByHandle { handle } => ResponseView::RemoteUser(
            first_match(world.remote_users, remote_user_with_handle(handle)),
        ),
        RequestView::RemoteTimeline { query } => ResponseView::RemoteTimeline(
            timeline(world, query),
        ),
        RequestView::Cooldown { seconds } => ResponseView::Resumed,
    }
}

/// The tables of the world after a request: an insert under a key that is
/// not taken adds the row, and every other request leaves the tables as
/// they are.
pub open spec fn rows_after(world: WorldView, request: RequestView) -> WorldView {
    match request {
        RequestView::InsertUser { user } => if first_match(world.users, user_with_id(user.id))
            is Some {
            world
        } else {
            WorldView { users: world.users.push(user), ..world }
        },
        RequestView::InsertConversation { id } => if world.conversations.contains(id) {
            world
        } else {
            WorldView { conversations: world.conversations.push(id), ..world }
        },
        RequestView::InsertTweet { tweet } => if first_match(world.tweets, tweet_with_id(tweet.id))
            is Some {
            world
        } else {
            WorldView { tweets: with_tweet(world.tweets, tweet), ..world }
        },
        RequestView::InsertReference { reference } => if world.references.contains(reference) {
            world
        } else {
            WorldView { references: world.references.push(reference), ..world }
        },
        _ => world,
    }
}

/// The world after it has taken note of a request and of its answer.
pub open spec fn recorded(
    world: WorldView,
    request: RequestView,
    response: ResponseView,
) -> WorldView {
    WorldView {
        asked: world.asked.push(request),
        answers: world.answers.push(response),
        ..world
    }
}

/// The world after it has answered a request that leaves its tables as they
/// are.
pub open spec fn noted(world: WorldView, request: RequestView) -> WorldView {
    recorded(world, request, reply(world, request))
}

/// How the world answers a request, and what it is afterwards.
pub open spec fn answer(world: WorldView, request: RequestView) -> (WorldView, ResponseView) {
    (recorded(rows_after(world, request), request, reply(world, request)), reply(world, request))
}

/// An archive held in memory.
pub struct World {
    pub users: Vec<user::Model>,
    pub conversations: Vec<i64>,
    /// The stored posts, newest first.
    pub tweets: Vec<tweets::Model>,
    pub references: Vec<TweetReferenceData>,
    /// The posts of the remote snapshot, newest first.
    pub remote_tweets: Vec<Tweet>,
    pub remote_users: Vec<User>,
    pub asked: Ghost<Seq<RequestView>>,
    pub answers: Ghost<Seq<ResponseView>>,
}

impl View for World {
    type V = WorldView;

    open spec fn view(&self) -> WorldView {
        WorldView {
            users: self.users@,
            conversations: self.conversations@,
            tweets: self.tweets@,
            references: self.references@,
            remote_tweets: self.remote_tweets.deep_view(),
            remote_users: self.remote_users@,
            asked: self.asked@,
            answers: self.answers@,
        }
    }
}

/// Whether `a` is at least as recent as `b`.
fn at_least_as_recent(a: &Option<Timestamp>, b: &Option<Timestamp>) -> (holds: bool)
    ensures
        holds == (recency(*a) >= recency(*b)),
{
    match b {
        None => true,
        Some(right) => match a {
            None => false,
            Some(left) => left.seconds >= right.seconds,
        },
    }
}

fn selector_holds(selector: &Selector, tweet: &tweets::Model) -> (holds: bool)
    ensures
        holds == selects(selector@)(*tweet),
{
    match selector {
        Selector::ByAuthor(author) => tweet.author_id == *author,
        Selector::ByAuthorSince(author, after) => tweet.author_id == *author
            && tweet.created_at.seconds > after.seconds,
        Selector::Containing(query) => str_contains(tweet.content.as_str(), query.as_str()),
        Selector::InConversation(root) => tweet.conversation_id == *root,
        Selector::Every => true,
    }
}

fn timeline_holds(query: &Timeline, tweet: &Tweet) -> (holds: bool)
    ensures
        holds == in_timeline(*query)(tweet@),
{
    let by_author = match tweet.author_id {
        Some(author) => author == query.user_id,
        None => false,
    };
    let late_enough = match query.start_time {
        Some(start) => match tweet.created_at {
            Some(created) => created.seconds > start.seconds,
            None => false,
        },
        None => true,
    };
    let low_enough = match query.until_id {
        Some(until) => tweet.id < until,
        None => true,
    };
    by_author && late_enough && low_enough
}

impl World {
    /// An empty store beside an empty remote snapshot.
    pub fn new() -> (world: World)
        ensures
            world@ == (WorldView {
                users: Seq::empty(),
                conversations: Seq::empty(),
                tweets: Seq::empty(),
                references: Seq::empty(),
                remote_tweets: Seq::empty(),
                remote_users: Seq::empty(),
                asked: Seq::empty(),
                answers: Seq::empty(),
            }),
            well_formed(world@),
    {
        let world = World {
            users: Vec::new(),
            conversations: Vec::new(),
            tweets: Vec::new(),
            references: Vec::new(),
            remote_tweets: Vec::new(),
            remote_users: Vec::new(),
            asked: Ghost(Seq::empty()),
            answers: Ghost(Seq::empty()),
        };
        assert(world.remote_tweets.deep_view() =~= Seq::empty());
        world
    }

    /// Adds a post to the remote snapshot, before the first post that is
    /// strictly older, unless the snapshot has a post with this id already.
    /// The store is left as it is.
    pub fn add_remote_tweet(&mut self, tweet: Tweet) -> (added: bool)
        ensures
            added == (first_match(old(self)@.remote_tweets, remote_tweet_with_id(tweet.id))
                is None),
            final(self)@ == if added {
                WorldView {
                    remote_tweets: old(self)@.remote_tweets.insert(
                        lead(old(self)@.remote_tweets, remote_not_older(tweet.created_at)),
                        tweet@,
                    ),
                    ..old(self)@
                }
            } else {
                old(self)@
            },
            well_formed(old(self)@) ==> well_formed(final(self)@),
    {
        if self.remote_tweet(tweet.id).is_some() {
            return false;
        }
        let ghost before = self.remote_tweets.deep_view();
        let mut at: usize = 0;
        while at < self.remote_tweets.len() && at_least_as_recent(
            &self.remote_tweets[at].created_at,
            &tweet.created_at,
        )
            invariant
                at <= self.remote_tweets.len(),
                before == self.remote_tweets.deep_view(),
                forall|j: int|
                    0 <= j < at ==> remote_not_older(tweet.created_at)(#[trigger] before[j]),
            decreases self.remote_tweets.len() - at,
        {
            at += 1;
        }
        proof {
            lemma_lead_at(before, remote_not_older(tweet.created_at), at as int);
            if well_formed(self@) {
                lemma_remote_insert_distinct(before, at as int, tweet@);
            }
        }
        let ghost added = tweet@;
        self.remote_tweets.insert(at, tweet);
        assert(self.remote_tweets.deep_view() =~= before.insert(at as int, added));
        true
    }

    /// Adds an author to the remote snapshot. The store is left as it is.
    pub fn add_remote_user(&mut self, user: User)
        ensures
            final(self)@ == (WorldView {
                remote_users: old(self)@.remote_users.push(user),
                ..old(self)@
            }),
            well_formed(old(self)@) ==> well_formed(final(self)@),
    {
        self.remote_users.push(user);
    }

    fn tweet_position(&self, id: i64) -> (at: Option<usize>)
        ensures
            match at {
                Some(at) => at < self.tweets.len() && first_match(self@.tweets, tweet_with_id(id))
                    == Some(self.tweets@[at as int]),
                None => first_match(self@.tweets, tweet_with_id(id)) is None,
            },
    {
        let mut at: usize = 0;
        while at < self.tweets.len()
            invariant
                at <= self.tweets.len(),
                forall|j: int| 0 <= j < at ==> !tweet_with_id(id)(#[trigger] self.tweets@[j]),
            decreases self.tweets.len() - at,
        {
            if self.tweets[at].id == id {
                proof {
                    lemma_first_match_at(self.tweets@, tweet_with_id(id), at as int);
                }
                return Some(at);
            }
            at += 1;
        }
        proof {
            lemma_first_match(self.tweets@, tweet_with_id(id));
        }
        None
    }

    fn user_position(&self, id: i64) -> (at: Option<usize>)
        ensures
            match at {
                Some(at) => at < self.users.len() && first_match(self@.users, user_with_id(id))
                    == Some(self.users@[at as int]),
                None => first_match(self@.users, user_with_id(id)) is None,
            },
    {
        let mut at: usize = 0;
        while at < self.users.len()
            invariant
                at <= self.users.len(),
                forall|j: int| 0 <= j < at ==> !user_with_id(id)(#[trigger] self.users@[j]),
            decreases self.users.len() - at,
        {
            if self.users[at].id == id {
                proof {
                    lemma_first_match_at(self.users@, user_with_id(id), at as int);
                }
                return Some(at);
            }
            at += 1;
        }
        proof {
            lemma_first_match(self.users@, user_with_id(id));
        }
        None
    }

    fn user_by_handle(&self, handle: &String) -> (found: UserData)
        ensures
            found == (UserData { user: first_match(self@.users, user_with_handle(handle@)) }),
    {
        let mut at: usize = 0;
        while at < self.users.len()
            invariant
                at <= self.users.len(),
                forall|j: int|
                    0 <= j < at ==> !user_with_handle(handle@)(#[trigger] self.users@[j]),
            decreases self.users.len() - at,
        {
            if self.users[at].username == *handle {
                proof {
                    lemma_first_match_at(self.users@, user_with_handle(handle@), at as int);
                }
                return UserData { user: Some(self.users[at].clone()) };
            }
            at += 1;
        }
        proof {
            lemma_first_match(self.users@, user_with_handle(handle@));
        }
        UserData { user: None }
    }

    fn has_conversation(&self, id: i64) -> (found: bool)
        ensures
            found == self@.conversations.contains(id),
    {
        let mut at: usize = 0;
        while at < self.conversations.len()
            invariant
                at <= self.conversations.len(),
                forall|j: int| 0 <= j < at ==> self.conversations@[j] != id,
            decreases self.conversations.len() - at,
        {
            if self.conversations[at] == id {
                return true;
            }
            at += 1;
        }
        false
    }

    fn has_reference(&self, reference: &TweetReferenceData) -> (found: bool)
        ensures
            found == self@.references.contains(*reference),
    {
        let mut at: usize = 0;
        while at < self.references.len()
            invariant
                at <= self.references.len(),
                forall|j: int| 0 <= j < at ==> self.references@[j] != *reference,
            decreases self.references.len() - at,
        {
            if self.references[at] == *reference {
                return true;
            }
            at += 1;
        }
        false
    }

    fn edges_from(&self, id: i64) -> (edges: Vec<TweetReferenceData>)
        ensures
            edges@ == kept(self@.references, edge_from(id)),
    {
        let mut edges: Vec<TweetReferenceData> = Vec::new();
        let mut at: usize = 0;
        while at < self.references.len()
            invariant
                at <= self.references.len(),
                edges@ == kept(self.references@.take(at as int), edge_from(id)),
            decreases self.references.len() - at,
        {
            proof {
                lemma_kept_step(self.references@, edge_from(id), at as int);
            }
            if self.references[at].source_tweet_id == id {
                edges.push(self.references[at]);
            }
            at += 1;
        }
        assert(self.references@.take(at as int) == self.references@);
        edges
    }

    fn entry_at(&self, at: usize) -> (data: TweetData)
        requires
            at < self.tweets.len(),
        ensures
            data@ == entry(self@.references, self.tweets@[at as int]),
    {
        let tweet = self.tweets[at].clone();
        let references = self.edges_from(tweet.id);
        TweetData { tweet: Some(tweet), references }
    }

    fn find_tweet(&self, id: i64) -> (data: TweetData)
        ensures
            data@ == stored_tweet(self@, id),
    {
        let references = self.edges_from(id);
        match self.tweet_position(id) {
            Some(at) => TweetData { tweet: Some(self.tweets[at].clone()), references },
            None => TweetData { tweet: None, references },
        }
    }

    fn select(&self, selector: &Selector) -> (list: Vec<TweetData>)
        ensures
            list.deep_view() == selection(self@, selector@),
    {
        let mut list: Vec<TweetData> = Vec::new();
        let mut at: usize = 0;
        assert(list.deep_view() =~= entries(
            self@.references,
            kept(self.tweets@.take(0), selects(selector@)),
        ));
        while at < self.tweets.len()
            invariant
                at <= self.tweets.len(),
                list.deep_view() == entries(
                    self@.references,
                    kept(self.tweets@.take(at as int), selects(selector@)),
                ),
            decreases self.tweets.len() - at,
        {
            proof {
                lemma_kept_step(self.tweets@, selects(selector@), at as int);
            }
            if selector_holds(selector, &self.tweets[at]) {
                let ghost before = list.deep_view();
                let data = self.entry_at(at);
                list.push(data);
                assert(list.deep_view() =~= before.push(data@));
                assert(list.deep_view() =~= entries(
                    self@.references,
                    kept(self.tweets@.take(at + 1), selects(selector@)),
                ));
            }
            at += 1;
        }
        assert(self.tweets@.take(at as int) == self.tweets@);
        list
    }

    fn every_user(&self) -> (list: Vec<UserData>)
        ensures
            list@ == all_users(self@),
    {
        let mut list: Vec<UserData> = Vec::new();
        let mut at: usize = 0;
        while at < self.users.len()
            invariant
                at <= self.users.len(),
                list@.len() == at,
                forall|j: int|
                    0 <= j < at ==> #[trigger] list@[j] == (UserData {
                        user: Some(self.users@[j]),
                    }),
            decreases self.users.len() - at,
        {
            list.push(UserData { user: Some(self.users[at].clone()) });
            at += 1;
        }
        assert(list@ =~= all_users(self@));
        list
    }

    fn thread_of(&self, root: i64) -> (list: Vec<TweetData>)
        ensures
            list.deep_view() == conversation_tweets(self@, root),
    {
        let ghost wanted = selects(Selection::InConversation(root));
        let mut list: Vec<TweetData> = Vec::new();
        let mut left: usize = self.tweets.len();
        assert(self.tweets@.take(left as int) == self.tweets@);
        assert(list.deep_view() =~= Seq::<TweetDataView>::empty());
        assert(list.deep_view() + entries(
            self@.references,
            kept_backwards(self.tweets@.take(left as int), wanted),
        ) =~= conversation_tweets(self@, root));
        while left > 0
            invariant
                left <= self.tweets.len(),
                wanted == selects(Selection::InConversation(root)),
                list.deep_view() + entries(
                    self@.references,
                    kept_backwards(self.tweets@.take(left as int), wanted),
                ) == conversation_tweets(self@, root),
            decreases left,
        {
            let ghost part = self.tweets@.take(left as int);
            let ghost before = list.deep_view();
            assert(part.last() == self.tweets@[left - 1]);
            assert(part.drop_last() == self.tweets@.take(left - 1));
            left -= 1;
            if self.tweets[left].conversation_id == root {
                let data = self.entry_at(left);
                list.push(data);
                assert(list.deep_view() =~= before.push(data@));
                assert(list.deep_view() + entries(
                    self@.references,
                    kept_backwards(self.tweets@.take(left as int), wanted),
                ) =~= before + entries(self@.references, kept_backwards(part, wanted)));
            }
        }
        assert(kept_backwards(self.tweets@.take(0), wanted) =~= Seq::<tweets::Model>::empty());
        assert(list.deep_view() =~= conversation_tweets(self@, root));
        list
    }

    fn newest_of(&self, author: i64) -> (data: TweetData)
        ensures
            data@ == latest_tweet(self@, author),
    {
        let ghost wanted = selects(Selection::ByAuthor(author));
        let mut at: usize = 0;
        while at < self.tweets.len()
            invariant
                at <= self.tweets.len(),
                wanted == selects(Selection::ByAuthor(author)),
                kept(self.tweets@.take(at as int), wanted).len() == 0,
            decreases self.tweets.len() - at,
        {
            proof {
                lemma_kept_step(self.tweets@, wanted, at as int);
            }
            if self.tweets[at].author_id == author {
                proof {
                    lemma_kept_prefix(self.tweets@, wanted, at as int + 1);
                }
                return self.entry_at(at);
            }
            at += 1;
        }
        assert(self.tweets@.take(at as int) == self.tweets@);
        TweetData::empty()
    }

    fn remote_tweet(&self, id: u64) -> (found: Option<Tweet>)
        ensures
            found.deep_view() == first_match(self@.remote_tweets, remote_tweet_with_id(id)),
    {
        let mut at: usize = 0;
        while at < self.remote_tweets.len()
            invariant
                at <= self.remote_tweets.len(),
                forall|j: int|
                    0 <= j < at ==> !remote_tweet_with_id(id)(#[trigger] self@.remote_tweets[j]),
            decreases self.remote_tweets.len() - at,
        {
            if self.remote_tweets[at].id == id {
                proof {
                    lemma_first_match_at(
                        self@.remote_tweets,
                        remote_tweet_with_id(id),
                        at as int,
                    );
                }
                return Some(self.remote_tweets[at].clone());
            }
            at += 1;
        }
        proof {
            lemma_first_match(self@.remote_tweets, remote_tweet_with_id(id));
        }
        None
    }

    fn remote_user(&self, id: u64) -> (found: Option<User>)
        ensures
            found == first_match(self@.remote_users, remote_user_with_id(id)),
    {
        let mut at: usize = 0;
        while at < self.remote_users.len()
            invariant
                at <= self.remote_users.len(),
                forall|j: int|
                    0 <= j < at ==> !remote_user_with_id(id)(#[trigger] self.remote_users@[j]),
            decreases self.remote_users.len() - at,
        {
            if self.remote_users[at].id == id {
                proof {
                    lemma_first_match_at(self.remote_users@, remote_user_with_id(id), at as int);
                }
                return Some(self.remote_users[at].clone());
            }
            at += 1;
        }
        proof {
            lemma_first_match(self.remote_users@, remote_user_with_id(id));
        }
        None
    }

    fn remote_user_by_handle(&self, handle: &String) -> (found: Option<User>)
        ensures
            found == first_match(self@.remote_users, remote_user_with_handle(handle@)),
    {
        let mut at: usize = 0;
        while at < self.remote_users.len()
            invariant
                at <= self.remote_users.len(),
                forall|j: int|
                    0 <= j < at ==> !remote_user_with_handle(handle@)(
                        #[trigger] self.remote_users@[j],
                    ),
            decreases self.remote_users.len() - at,
        {
            if self.remote_users[at].username == *handle {
                proof {
                    lemma_first_match_at(
                        self.remote_users@,
                        remote_user_with_handle(handle@),
                        at as int,
                    );
                }
                return Some(self.remote_users[at].clone());
            }
            at += 1;
        }
        proof {
            lemma_first_match(self.remote_users@, remote_user_with_handle(handle@));
        }
        None
    }

    fn remote_timeline(&self, query: &Timeline) -> (list: Vec<Tweet>)
        ensures
            list.deep_view() == timeline(self@, *query),
    {
        let mut list: Vec<Tweet> = Vec::new();
        let mut at: usize = 0;
        assert(list.deep_view() =~= kept(self@.remote_tweets.take(0), in_timeline(*query)));
        while at < self.remote_tweets.len()
            invariant
                at <= self.remote_tweets.len(),
                list.deep_view() == kept(self@.remote_tweets.take(at as int), in_timeline(*query)),
            decreases self.remote_tweets.len() - at,
        {
            proof {
                lemma_kept_step(self@.remote_tweets, in_timeline(*query), at as int);
            }
            if timeline_holds(query, &self.remote_tweets[at]) {
                let ghost before = list.deep_view();
                let tweet = self.remote_tweets[at].clone();
                list.push(tweet);
                assert(list.deep_view() =~= before.push(tweet@));
            }
            at += 1;
        }
        assert(self@.remote_tweets.take(at as int) == self@.remote_tweets);
        match query.max_results {
            Some(most) => {
                if list.len() > most as usize {
                    let ghost all = list.deep_view();
                    list.truncate(most as usize);
                    assert(list.deep_view() =~= all.take(most as int));
                }
            },
            None => {},
        }
        list
    }

    /// Answers a request and takes note of it.
    pub fn answer(&mut self, request: Request) -> (response: Response)
        ensures
            (final(self)@, response@) == answer(old(self)@, request@),
            well_formed(old(self)@) ==> well_formed(final(self)@),
    {
        let ghost before = self@;
        proof {
            lemma_answer(before, request@);
        }
        self.asked = Ghost(self.asked@.push(request@));
        let response = match request {
            Request::FindTweet { id } => Response::Tweet(self.find_tweet(id)),
            Request::FindUser { id } => match self.user_position(id) {
                Some(at) => Response::User(UserData { user: Some(self.users[at].clone()) }),
                None => Response::User(UserData { user: None }),
            },
            Request::FindUserByHandle { handle } => Response::User(self.user_by_handle(&handle)),
            Request::TweetExists { id } => Response::Flag(self.tweet_position(id).is_some()),
            Request::ConversationExists { id } => Response::Flag(self.has_conversation(id)),
            Request::UserTweets { author_id } => Response::Tweets(
                self.select(&Selector::ByAuthor(author_id)),
            ),
            Request::UserTweetsSince { author_id, after } => Response::Tweets(
                self.select(&Selector::ByAuthorSince(author_id, after)),
            ),
            Request::LatestTweet { author_id } => Response::Tweet(self.newest_of(author_id)),
            Request::SearchTweets { query } => Response::Tweets(
                self.select(&Selector::Containing(query)),
            ),
            Request::AllTweets => Response::Tweets(self.select(&Selector::Every)),
            Request::AllUsers => Response::Users(self.every_user()),
            Request::ConversationTweets { id } => Response::Tweets(self.thread_of(id)),
            Request::InsertUser { user } => {
                if self.user_position(user.id).is_some() {
                    Response::Written(WriteOutcome::Duplicate)
                } else {
                    self.users.push(user);
                    Response::Written(WriteOutcome::Inserted)
                }
            },
            Request::InsertConversation { id } => {
                if self.has_conversation(id) {
                    Response::Written(WriteOutcome::Duplicate)
                } else {
                    self.conversations.push(id);
                    Response::Written(WriteOutcome::Inserted)
                }
            },
            Request::InsertTweet { tweet } => {
                if self.tweet_position(tweet.id).is_some() {
                    Response::Written(WriteOutcome::Duplicate)
                } else {
                    let seconds: i64 = tweet.created_at.seconds;
                    let mut at: usize = 0;
                    while at < self.tweets.len() && self.tweets[at].created_at.seconds >= seconds
                        invariant
                            at <= self.tweets.len(),
                            forall|j: int|
                                0 <= j < at ==> not_older(seconds)(#[trigger] self.tweets@[j]),
                        decreases self.tweets.len() - at,
                    {
                        at += 1;
                    }
                    proof {
                        lemma_lead_at(self.tweets@, not_older(seconds), at as int);
                    }
                    self.tweets.insert(at, tweet);
                    Response::Written(WriteOutcome::Inserted)
                }
            },
            Request::InsertReference { reference } => {
                if self.has_reference(&reference) {
                    Response::Written(WriteOutcome::Duplicate)
                } else {
                    self.references.push(reference);
                    Response::Written(WriteOutcome::Inserted)
                }
            },
            Request::RemoteTweet { id } => Response::RemoteTweet(self.remote_tweet(id)),
            Request::RemoteUser { id } => Response::RemoteUser(self.remote_user(id)),
            Request::RemoteUserByHandle { handle } => Response::RemoteUser(
                self.remote_user_by_handle(&handle),
            ),
            Request::RemoteTimeline { query } => Response::RemoteTimeline(
                self.remote_timeline(&query),
            ),
            Request::Cooldown { seconds } => Response::Resumed,
        };
        self.answers = Ghost(self.answers@.push(response@));
        response
    }
}

/// What is kept of a prefix that ends in the first match is that match alone.
proof fn lemma_kept_prefix<T>(rows: Seq<T>, wanted: spec_fn(T) -> bool, upto: int)
    requires
        0 < upto <= rows.len(),
        kept(rows.take(upto - 1), wanted).len() == 0,
        wanted(rows[upto - 1]),
    ensures
        kept(rows, wanted).len() > 0,
        kept(rows, wanted)[0] == rows[upto - 1],
    decreases rows.len() - upto,
{
    lemma_kept_step(rows, wanted, upto - 1);
    if upto < rows.len() {
        lemma_kept_grows(rows, wanted, upto);
    } else {
        assert(rows.take(upto) == rows);
    }
}

/// What is kept of a prefix stays at the front of what is kept of the whole.
proof fn lemma_kept_grows<T>(rows: Seq<T>, wanted: spec_fn(T) -> bool, upto: int)
    requires
        0 <= upto <= rows.len(),
    ensures
        kept(rows.take(upto), wanted).len() <= kept(rows, wanted).len(),
        forall|j: int|
            0 <= j < kept(rows.take(upto), wanted).len() ==> kept(rows, wanted)[j] == kept(
                rows.take(upto),
                wanted,
            )[j],
    decreases rows.len() - upto,
{
    if upto < rows.len() {
        lemma_kept_step(rows, wanted, upto);
        lemma_kept_grows(rows, wanted, upto + 1);
    } else {
        assert(rows.take(upto) == rows);
    }
}

} // verus!
