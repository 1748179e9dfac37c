//! Reading and writing single records through a gateway.

use crate::entities::tweets;
use crate::entities::user;
use crate::gateway::{
    asked, lifted, lifted_list, plain, tweet_in, user_in, written_in, Gateway, GatewayView, Halt,
    HaltView,
};
use crate::protocol::{Request, RequestView};
use crate::utils::{TweetData, TweetDataView, TweetReferenceData, UserData};
use vstd::prelude::*;

verus! {

/// What the store holds under a post id.
pub open spec fn tweet_read(
    gateway: GatewayView,
    id: i64,
) -> (GatewayView, Result<TweetDataView, HaltView>) {
    let reply = asked(gateway, RequestView::FindTweet { id });
    (reply.0, tweet_in(reply.1))
}

/// What the store holds under an author id.
pub open spec fn user_read(
    gateway: GatewayView,
    id: i64,
) -> (GatewayView, Result<UserData, HaltView>) {
    let reply = asked(gateway, RequestView::FindUser { id });
    (reply.0, user_in(reply.1))
}

/// What the store holds under a handle.
pub open spec fn user_read_by_handle(gateway: GatewayView, handle: Seq<char>) -> (
    GatewayView,
    Result<UserData, HaltView>,
) {
    let reply = asked(gateway, RequestView::FindUserByHandle { handle });
    (reply.0, user_in(reply.1))
}

/// The insert of an author's row; nothing is asked for the absent author.
pub open spec fn user_written(
    gateway: GatewayView,
    data: UserData,
) -> (GatewayView, Result<(), HaltView>) {
    match data.user {
        Some(user) => {
            let reply = asked(gateway, RequestView::InsertUser { user });
            (reply.0, written_in(reply.1))
        },
        None => (gateway, Ok(())),
    }
}

/// The insert of a post's row; nothing is asked for the absent post.
pub open spec fn row_written(
    gateway: GatewayView,
    data: TweetDataView,
) -> (GatewayView, Result<(), HaltView>) {
    match data.tweet {
        Some(tweet) => {
            let reply = asked(gateway, RequestView::InsertTweet { tweet });
            (reply.0, written_in(reply.1))
        },
        None => (gateway, Ok(())),
    }
}

/// The inserts of edges one after the other, up to the first that fails.
pub open spec fn edges_written(gateway: GatewayView, edges: Seq<TweetReferenceData>) -> (
    GatewayView,
    Result<(), HaltView>,
)
    decreases edges.len(),
{
    if edges.len() == 0 {
        (gateway, Ok(()))
    } else {
        let reply = asked(gateway, RequestView::InsertReference { reference: edges[0] });
        match written_in(reply.1) {
            Ok(_) => edges_written(reply.0, edges.drop_first()),
            Err(halt) => (reply.0, Err(halt)),
        }
    }
}

/// The insert of a post's row and then of its edges.
pub open spec fn tweet_written(gateway: GatewayView, data: TweetDataView) -> (
    GatewayView,
    Result<(), HaltView>,
) {
    match data.tweet {
        Some(_) => {
            let row = row_written(gateway, data);
            match row.1 {
                Ok(_) => edges_written(row.0, data.references),
                Err(halt) => (row.0, Err(halt)),
            }
        },
        None => (gateway, Ok(())),
    }
}

/// The edges that the store holds for a post that is at hand, put beside
/// the post.
pub open spec fn edges_read(gateway: GatewayView, model: tweets::Model) -> (
    GatewayView,
    Result<TweetDataView, HaltView>,
) {
    let found = tweet_read(gateway, model.id);
    (
        found.0,
        match found.1 {
            Ok(data) => Ok(TweetDataView { tweet: Some(model), references: data.references }),
            Err(halt) => Err(halt),
        },
    )
}

/// What the store holds under each of `ids`, read one after the other and
/// added to `found`.
pub open spec fn tweets_read(gateway: GatewayView, ids: Seq<i64>, found: Seq<TweetDataView>) -> (
    GatewayView,
    Result<Seq<TweetDataView>, HaltView>,
)
    decreases ids.len(),
{
    if ids.len() == 0 {
        (gateway, Ok(found))
    } else {
        let first = tweet_read(gateway, ids[0]);
        match first.1 {
            Ok(data) => tweets_read(first.0, ids.drop_first(), found.push(data)),
            Err(halt) => (first.0, Err(halt)),
        }
    }
}

/// The rows and edges of posts, written one post after the other, up to
/// the first write that fails.
pub open spec fn tweets_written(gateway: GatewayView, list: Seq<TweetDataView>) -> (
    GatewayView,
    Result<(), HaltView>,
)
    decreases list.len(),
{
    if list.len() == 0 {
        (gateway, Ok(()))
    } else {
        let first = tweet_written(gateway, list[0]);
        match first.1 {
            Ok(_) => tweets_written(first.0, list.drop_first()),
            Err(halt) => (first.0, Err(halt)),
        }
    }
}

/// The views of posts that are borrowed.
pub open spec fn borrowed_views(list: Seq<&TweetData>) -> Seq<TweetDataView> {
    Seq::new(list.len(), |i: int| list[i]@)
}

impl TweetData {
    /// Reads the post `id` and the edges stored for it. The post is absent
    /// from the result where the store has none.
    pub fn read(gateway: &mut Gateway, id: i64) -> (data: Result<Self, Halt>)
        ensures
            final(gateway)@ == tweet_read(old(gateway)@, id).0,
            lifted(data) == tweet_read(old(gateway)@, id).1,
    {
        gateway.ask_tweet(Request::FindTweet { id })
    }

    /// Reads the edges stored for a post that is at hand.
    pub fn read_from_data_model(gateway: &mut Gateway, tweet_model: tweets::Model) -> (data:
        Result<Self, Halt>)
        ensures
            final(gateway)@ == edges_read(old(gateway)@, tweet_model).0,
            lifted(data) == edges_read(old(gateway)@, tweet_model).1,
    {
        match TweetData::read(gateway, tweet_model.id) {
            Ok(found) => Ok(TweetData { tweet: Some(tweet_model), references: found.references }),
            Err(halt) => Err(halt),
        }
    }

    /// Reads the posts `ids` one after the other.
    pub fn read_many(gateway: &mut Gateway, ids: &[i64]) -> (list: Result<Vec<Self>, Halt>)
        ensures
            final(gateway)@ == tweets_read(old(gateway)@, ids@, Seq::empty()).0,
            lifted_list(list) == tweets_read(old(gateway)@, ids@, Seq::empty()).1,
    {
        let mut list: Vec<TweetData> = Vec::new();
        let mut at: usize = 0;
        assert(ids@.skip(0) == ids@);
        assert(list.deep_view() =~= Seq::<TweetDataView>::empty());
        while at < ids.len()
            invariant
                at <= ids.len(),
                tweets_read(old(gateway)@, ids@, Seq::empty()) == tweets_read(
                    gateway@,
                    ids@.skip(at as int),
                    list.deep_view(),
                ),
            decreases ids.len() - at,
        {
            let ghost rest = ids@.skip(at as int);
            let ghost found = list.deep_view();
            assert(rest[0] == ids@[at as int]);
            assert(rest.drop_first() == ids@.skip(at + 1));
            match TweetData::read(gateway, ids[at]) {
                Ok(data) => {
                    let ghost one = data@;
                    list.push(data);
                    assert(list.deep_view() =~= found.push(one));
                },
                Err(halt) => {
                    return Err(halt);
                },
            }
            at += 1;
        }
        Ok(list)
    }

    /// Writes the rows and edges of posts, one post after the other, and
    /// stops at the first write that the store rejects.
    pub fn write_many(gateway: &mut Gateway, tweets: Vec<&Self>) -> (done: Result<(), Halt>)
        ensures
            final(gateway)@ == tweets_written(old(gateway)@, borrowed_views(tweets@)).0,
            plain(done) == tweets_written(old(gateway)@, borrowed_views(tweets@)).1,
    {
        let mut at: usize = 0;
        let ghost all = borrowed_views(tweets@);
        assert(all.skip(0) == all);
        while at < tweets.len()
            invariant
                at <= tweets.len(),
                all == borrowed_views(tweets@),
                tweets_written(old(gateway)@, all) == tweets_written(
                    gateway@,
                    all.skip(at as int),
                ),
            decreases tweets.len() - at,
        {
            let ghost rest = all.skip(at as int);
            assert(rest[0] == tweets@[at as int]@);
            assert(rest.drop_first() == all.skip(at + 1));
            match tweets[at].write(gateway) {
                Ok(_) => {},
                Err(halt) => {
                    return Err(halt);
                },
            }
            at += 1;
        }
        Ok(())
    }

    /// Inserts the post's row. A row that is there already is left as it is.
    pub fn write_row(&self, gateway: &mut Gateway) -> (done: Result<(), Halt>)
        ensures
            final(gateway)@ == row_written(old(gateway)@, self@).0,
            plain(done) == row_written(old(gateway)@, self@).1,
    {
        match &self.tweet {
            Some(tweet) => gateway.ask_written(Request::InsertTweet { tweet: tweet.clone() }),
            None => Ok(()),
        }
    }

    /// Inserts the post's edges in their order and stops at the first that
    /// the store rejects. An edge that is there already is left as it is.
    pub fn write_edges(&self, gateway: &mut Gateway) -> (done: Result<(), Halt>)
        ensures
            final(gateway)@ == edges_written(old(gateway)@, self.references@).0,
            plain(done) == edges_written(old(gateway)@, self.references@).1,
    {
        let mut at: usize = 0;
        assert(self.references@.skip(0) == self.references@);
        while at < self.references.len()
            invariant
                at <= self.references.len(),
                edges_written(old(gateway)@, self.references@) == edges_written(
                    gateway@,
                    self.references@.skip(at as int),
                ),
            decreases self.references.len() - at,
        {
            let ghost rest = self.references@.skip(at as int);
            assert(rest[0] == self.references@[at as int]);
            assert(rest.drop_first() == self.references@.skip(at + 1));
            match gateway.ask_written(Request::InsertReference { reference: self.references[at] }) {
                Ok(_) => {},
                Err(halt) => {
                    return Err(halt);
                },
            }
            at += 1;
        }
        Ok(())
    }

    /// Inserts the post's row and then its edges; does nothing for the absent
    /// post.
    pub fn write(&self, gateway: &mut Gateway) -> (done: Result<(), Halt>)
        ensures
            final(gateway)@ == tweet_written(old(gateway)@, self@).0,
            plain(done) == tweet_written(old(gateway)@, self@).1,
    {
        if self.tweet.is_none() {
            return Ok(());
        }
        match self.write_row(gateway) {
            Ok(_) => self.write_edges(gateway),
            Err(halt) => Err(halt),
        }
    }
}

impl UserData {
    /// Reads the author `id`. The author is absent from the result where the
    /// store has none.
    pub fn read(gateway: &mut Gateway, id: i64) -> (data: Result<Self, Halt>)
        ensures
            final(gateway)@ == user_read(old(gateway)@, id).0,
            plain(data) == user_read(old(gateway)@, id).1,
    {
        gateway.ask_user(Request::FindUser { id })
    }

    /// Reads the author with this handle.
    pub fn read_from_twitter_handle(gateway: &mut Gateway, twitter_handle: &str) -> (data: Result<
        Self,
        Halt,
    >)
        ensures
            final(gateway)@ == user_read_by_handle(old(gateway)@, twitter_handle@).0,
            plain(data) == user_read_by_handle(old(gateway)@, twitter_handle@).1,
    {
        let handle = twitter_handle.to_owned();
        gateway.ask_user(Request::FindUserByHandle { handle })
    }

    /// Inserts the author's row; does nothing for the absent author. A row
    /// that is there already is left as it is.
    pub fn write(&self, gateway: &mut Gateway) -> (done: Result<(), Halt>)
        ensures
            final(gateway)@ == user_written(old(gateway)@, *self).0,
            plain(done) == user_written(old(gateway)@, *self).1,
    {
        match &self.user {
            Some(user) => gateway.ask_written(Request::InsertUser { user: user.clone() }),
            None => Ok(()),
        }
    }
}

} // verus!
