//! Fetching an author's whole remote history, page by page.

use crate::api::{
    get_first_hundred_tweets_from_user, get_tweets_from_user_until_id, timeline_fetched,
};
use crate::archive::{load_user_from_twitter_handle, user_loaded_by_handle};
use crate::gateway::{plain, Gateway, GatewayView, Halt, HaltView};
use crate::utils::{TweetData, UserData};
use crate::write::tweets_persisted;
use vstd::prelude::*;

verus! {

/// An author's remote history fetched and written page by page, newest page
/// first: `until` is the id below which the next page is asked for, and
/// `pages_left` the number of pages that may still be asked for.
///
/// Each page is written before the next is asked for. The walk ends at an
/// empty page, after `pages_left` pages, and at a page whose last post has
/// no usable id; it stops at the first failure, and what is written by then
/// stays.
pub open spec fn history_fetched(
    gateway: GatewayView,
    user: UserData,
    until: Option<u64>,
    pages_left: nat,
) -> (GatewayView, Result<(), HaltView>)
    decreases pages_left,
{
    if pages_left == 0 {
        (gateway, Ok(()))
    } else {
        let page = timeline_fetched(gateway, user, Some(gateway.settings.page_size), None, until);
        match page.1 {
            Err(halt) => (page.0, Err(halt)),
            Ok(list) => if list.len() == 0 {
                (page.0, Ok(()))
            } else {
                let persisted = tweets_persisted(page.0, list);
                match persisted.1 {
                    Err(halt) => (persisted.0, Err(halt)),
                    Ok(_) => match list.last().tweet {
                        None => (persisted.0, Ok(())),
                        Some(tweet) => if tweet.id < 0 {
                            (persisted.0, Ok(()))
                        } else {
                            history_fetched(
                                persisted.0,
                                user,
                                Some(tweet.id as u64),
                                (pages_left - 1) as nat,
                            )
                        },
                    },
                }
            },
        }
    }
}

/// The whole remote history of the author with a handle fetched and
/// written, in at most as many pages as the settings allow. The author is
/// loaded through the store first.
pub open spec fn history_seeded(gateway: GatewayView, handle: Seq<char>) -> (
    GatewayView,
    Result<(), HaltView>,
) {
    let loaded = user_loaded_by_handle(gateway, handle);
    match loaded.1 {
        Err(halt) => (loaded.0, Err(halt)),
        Ok(data) => history_fetched(loaded.0, data, None, loaded.0.settings.page_ceiling as nat),
    }
}

/// Fetches and writes the whole remote history of the author with this
/// handle; see [`history_fetched`].
pub fn all_tweets(gateway: &mut Gateway, twitter_handle: &str) -> (done: Result<(), Halt>)
    ensures
        final(gateway)@ == history_seeded(old(gateway)@, twitter_handle@).0,
        plain(done) == history_seeded(old(gateway)@, twitter_handle@).1,
{
    let loaded = match load_user_from_twitter_handle(gateway, twitter_handle) {
        Ok(loaded) => loaded,
        Err(halt) => {
            return Err(halt);
        },
    };
    let ghost start = gateway@;
    let mut pages_left: u32 = gateway.settings.page_ceiling;
    let mut until: Option<u64> = None;
    while pages_left > 0
        invariant
            start == user_loaded_by_handle(old(gateway)@, twitter_handle@).0,
            user_loaded_by_handle(old(gateway)@, twitter_handle@).1 == Ok::<UserData, HaltView>(
                loaded,
            ),
            history_fetched(start, loaded, None, start.settings.page_ceiling as nat)
                == history_fetched(gateway@, loaded, until, pages_left as nat),
        decreases pages_left,
    {
        let page = match until {
            None => get_first_hundred_tweets_from_user(gateway, &loaded),
            Some(id) => get_tweets_from_user_until_id(gateway, &loaded, id),
        };
        let list: Vec<TweetData> = match page {
            Ok(list) => list,
            Err(halt) => {
                return Err(halt);
            },
        };
        if list.len() == 0 {
            return Ok(());
        }
        match crate::write::tweets(gateway, &list) {
            Ok(_) => {},
            Err(halt) => {
                return Err(halt);
            },
        }
        let ghost views = list.deep_view();
        assert(views.last() == list@[list.len() - 1]@);
        let last: i64 = match &list[list.len() - 1].tweet {
            None => {
                return Ok(());
            },
            Some(tweet) => tweet.id,
        };
        if last < 0 {
            return Ok(());
        }
        until = Some(last as u64);
        pages_left -= 1;
    }
    Ok(())
}

} // verus!
