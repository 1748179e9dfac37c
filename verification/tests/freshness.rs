use tweet_archiver::archive::{
    backfill, has_new_tweets, has_user_tweeted_since_date,
    load_offset_datetime_for_users_latest_tweet,
    load_offset_datetime_for_users_latest_tweet_in_database,
    load_user_conversations_from_twitter_handle,
    load_user_tweets_from_twitter_handle, load_users_new_tweets, load_users_tweets_since_date,
    load_tweet_from_id, search_tweets_in_db,
};
use tweet_archiver::clock::Timestamp;
use tweet_archiver::entities::tweets;
use tweet_archiver::error::ArchiveError;
use tweet_archiver::gateway::{Halt, Gateway};
use tweet_archiver::protocol::Settings;
use tweet_archiver::read::{latest_tweet_from_user, users_tweets, users_tweets_since_date};
use tweet_archiver::seed::all_tweets;
use tweet_archiver::utils::TweetData;
use tweet_archiver::wire::{Tweet, User};
use tweet_archiver::world::World;

fn at(seconds: i64) -> Timestamp {
    Timestamp { seconds, offset: 0 }
}

fn remote_user(id: u64, handle: &str) -> User {
    User {
        id,
        name: handle.to_uppercase(),
        username: handle.to_string(),
        description: Some(String::new()),
    }
}

fn remote_tweet(id: u64, author: u64, body: &str, created: i64) -> Tweet {
    Tweet {
        id,
        text: body.to_string(),
        author_id: Some(author),
        conversation_id: Some(id),
        created_at: Some(at(created)),
        referenced_tweets: None,
    }
}

fn stored(id: i64, author: i64, body: &str, created: i64) -> TweetData {
    TweetData::new(
        tweets::Model {
            id,
            content: body.to_string(),
            author_id: author,
            conversation_id: id,
            created_at: at(created),
        },
        vec![],
    )
}

/// Ada has five remote posts, Bob one.
fn timeline_world() -> World {
    let mut world = World::new();
    world.add_remote_user(remote_user(10, "ada"));
    world.add_remote_user(remote_user(11, "bob"));
    world.add_remote_tweet(remote_tweet(1, 10, "one", 100));
    world.add_remote_tweet(remote_tweet(2, 10, "two", 200));
    world.add_remote_tweet(remote_tweet(3, 11, "bob's", 250));
    world.add_remote_tweet(remote_tweet(4, 10, "three", 300));
    world.add_remote_tweet(remote_tweet(5, 10, "four", 400));
    world.add_remote_tweet(remote_tweet(6, 10, "five", 500));
    world
}

fn direct(world: World) -> Gateway {
    Gateway::direct(Settings::standard(), world)
}

#[test]
fn stored_posts_are_stale_while_the_remote_source_has_a_newer_one() {
    let mut gateway = direct(timeline_world());
    assert!(load_tweet_from_id(&mut gateway, 2).is_ok());

    assert_eq!(has_new_tweets(&mut gateway, "ada"), Ok(true));
}

#[test]
fn stored_posts_are_not_stale_after_a_backfill() {
    let mut gateway = direct(timeline_world());
    assert!(load_tweet_from_id(&mut gateway, 2).is_ok());

    let all = backfill(&mut gateway, "ada");

    assert_eq!(
        all,
        Ok(vec![
            stored(6, 10, "five", 500),
            stored(5, 10, "four", 400),
            stored(4, 10, "three", 300),
            stored(2, 10, "two", 200),
        ])
    );
    assert_eq!(has_new_tweets(&mut gateway, "ada"), Ok(false));
}

#[test]
fn stored_posts_are_not_stale_when_they_are_as_new_as_the_remote_ones() {
    let mut gateway = direct(timeline_world());
    assert!(load_tweet_from_id(&mut gateway, 6).is_ok());

    assert_eq!(has_new_tweets(&mut gateway, "ada"), Ok(false));
}

#[test]
fn staleness_of_an_author_without_stored_posts_is_not_found() {
    let mut gateway = direct(timeline_world());

    assert_eq!(
        has_new_tweets(&mut gateway, "ada"),
        Err(Halt::Failed(ArchiveError::NotFound))
    );
}

#[test]
fn an_author_without_remote_posts_is_not_stale() {
    let mut world = World::new();
    world.add_remote_user(remote_user(10, "ada"));
    world.add_remote_tweet(remote_tweet(1, 10, "one", 100));
    let mut gateway = direct(world);
    assert!(load_tweet_from_id(&mut gateway, 1).is_ok());
    gateway.world.remote_tweets.clear();

    assert_eq!(has_new_tweets(&mut gateway, "ada"), Ok(false));
    assert_eq!(has_user_tweeted_since_date(&mut gateway, "ada", 0), Ok(false));
}

#[test]
fn new_posts_are_the_remote_posts_after_the_newest_stored_one() {
    let mut gateway = direct(timeline_world());
    assert!(load_tweet_from_id(&mut gateway, 4).is_ok());

    let fresh = load_users_new_tweets(&mut gateway, "ada");

    assert_eq!(
        fresh,
        Ok(vec![stored(6, 10, "five", 500), stored(5, 10, "four", 400)])
    );
    assert_eq!(gateway.world.tweets.len(), 1);
}

#[test]
fn latest_creation_times_of_both_sides() {
    let mut gateway = direct(timeline_world());
    assert!(load_tweet_from_id(&mut gateway, 1).is_ok());
    assert!(load_tweet_from_id(&mut gateway, 4).is_ok());

    assert_eq!(
        load_offset_datetime_for_users_latest_tweet_in_database(&mut gateway, "ada"),
        Ok(at(300))
    );
    assert_eq!(
        load_offset_datetime_for_users_latest_tweet(&mut gateway, "ada"),
        Ok(at(500))
    );
    assert_eq!(latest_tweet_from_user(&mut gateway, 10), Ok(stored(4, 10, "three", 300)));
    assert_eq!(
        latest_tweet_from_user(&mut gateway, 11),
        Err(Halt::Failed(ArchiveError::NotFound))
    );
}

#[test]
fn posted_since_compares_with_the_newest_remote_post() {
    let mut gateway = direct(timeline_world());

    assert_eq!(has_user_tweeted_since_date(&mut gateway, "ada", 499), Ok(true));
    assert_eq!(has_user_tweeted_since_date(&mut gateway, "ada", 500), Ok(false));
    assert_eq!(has_user_tweeted_since_date(&mut gateway, "bob", 249), Ok(true));
    assert_eq!(
        has_user_tweeted_since_date(&mut gateway, "nobody", 0),
        Err(Halt::Failed(ArchiveError::NotFound))
    );
}

#[test]
fn the_whole_history_is_fetched_page_by_page() {
    let settings = Settings { page_size: 2, page_ceiling: 10, ..Settings::standard() };
    let mut gateway = Gateway::direct(settings, timeline_world());

    assert_eq!(all_tweets(&mut gateway, "ada"), Ok(()));

    let ids: Vec<i64> = gateway.world.tweets.iter().map(|tweet| tweet.id).collect();
    assert_eq!(ids, vec![6, 5, 4, 2, 1]);
}

#[test]
fn the_history_stops_at_the_page_ceiling() {
    let settings = Settings { page_size: 2, page_ceiling: 2, ..Settings::standard() };
    let mut gateway = Gateway::direct(settings, timeline_world());

    assert_eq!(all_tweets(&mut gateway, "ada"), Ok(()));

    let ids: Vec<i64> = gateway.world.tweets.iter().map(|tweet| tweet.id).collect();
    assert_eq!(ids, vec![6, 5, 4, 2]);
}

#[test]
fn a_ceiling_of_no_pages_fetches_nothing() {
    let settings = Settings { page_ceiling: 0, ..Settings::standard() };
    let mut gateway = Gateway::direct(settings, timeline_world());

    assert_eq!(all_tweets(&mut gateway, "ada"), Ok(()));

    assert!(gateway.world.tweets.is_empty());
}

#[test]
fn posts_of_an_author_without_stored_posts_are_the_whole_history() {
    let mut gateway = direct(timeline_world());

    let posts = load_user_tweets_from_twitter_handle(&mut gateway, "ada");

    assert_eq!(
        posts,
        Ok(vec![
            stored(6, 10, "five", 500),
            stored(5, 10, "four", 400),
            stored(4, 10, "three", 300),
            stored(2, 10, "two", 200),
            stored(1, 10, "one", 100),
        ])
    );
}

#[test]
fn posts_of_an_author_with_stale_stored_posts_are_backfilled() {
    let mut gateway = direct(timeline_world());
    assert!(load_tweet_from_id(&mut gateway, 5).is_ok());

    let posts = load_user_tweets_from_twitter_handle(&mut gateway, "ada");

    assert_eq!(
        posts,
        Ok(vec![stored(6, 10, "five", 500), stored(5, 10, "four", 400)])
    );
}

#[test]
fn posts_of_an_author_with_fresh_stored_posts_are_handed_out_as_they_are() {
    let mut gateway = direct(timeline_world());
    assert!(load_tweet_from_id(&mut gateway, 6).is_ok());

    let posts = load_user_tweets_from_twitter_handle(&mut gateway, "ada");

    assert_eq!(posts, Ok(vec![stored(6, 10, "five", 500)]));
    assert_eq!(gateway.world.tweets.len(), 1);
}

#[test]
fn conversations_of_an_author_end_in_the_posts_of_the_author() {
    let mut gateway = direct(timeline_world());

    let conversations = load_user_conversations_from_twitter_handle(&mut gateway, "bob");

    let conversations = conversations.expect("bob has one post");
    assert_eq!(conversations.len(), 1);
    assert_eq!(conversations[0].id, 3);
    assert_eq!(conversations[0].tweets, vec![stored(3, 11, "bob's", 250)]);
}

#[test]
fn posts_since_a_date_are_strictly_newer() {
    let mut gateway = direct(timeline_world());
    assert!(load_tweet_from_id(&mut gateway, 1).is_ok());

    let posts = load_users_tweets_since_date(&mut gateway, "ada", "1970-01-01T00:05:00Z");

    assert_eq!(
        posts,
        Ok(vec![stored(6, 10, "five", 500), stored(5, 10, "four", 400)])
    );
    assert_eq!(gateway.world.tweets.len(), 5);
}

#[test]
fn posts_since_a_date_with_an_offset_compare_instants() {
    let mut gateway = direct(timeline_world());
    assert_eq!(all_tweets(&mut gateway, "ada"), Ok(()));

    let posts = users_tweets_since_date(&mut gateway, "ada", "1970-01-01T01:06:40+01:00");

    assert_eq!(posts, Ok(vec![stored(6, 10, "five", 500)]));
}

#[test]
fn posts_since_a_text_that_is_no_date_are_a_data_error() {
    let mut gateway = direct(timeline_world());
    assert_eq!(all_tweets(&mut gateway, "ada"), Ok(()));

    assert_eq!(
        users_tweets_since_date(&mut gateway, "ada", "yesterday"),
        Err(Halt::Failed(ArchiveError::DataError))
    );
}

#[test]
fn stored_posts_of_an_author_are_newest_first() {
    let mut gateway = direct(timeline_world());
    assert!(load_tweet_from_id(&mut gateway, 4).is_ok());
    assert!(load_tweet_from_id(&mut gateway, 6).is_ok());
    assert!(load_tweet_from_id(&mut gateway, 1).is_ok());
    assert!(load_tweet_from_id(&mut gateway, 3).is_ok());

    assert_eq!(
        users_tweets(&mut gateway, "ada"),
        Ok(vec![
            stored(6, 10, "five", 500),
            stored(4, 10, "three", 300),
            stored(1, 10, "one", 100),
        ])
    );
}

#[test]
fn search_returns_the_posts_that_contain_the_needle_newest_first() {
    let mut world = World::new();
    world.add_remote_user(remote_user(10, "ada"));
    world.add_remote_tweet(remote_tweet(1, 10, "a needle in a haystack", 100));
    world.add_remote_tweet(remote_tweet(2, 10, "only hay", 200));
    world.add_remote_tweet(remote_tweet(3, 10, "needle", 300));
    world.add_remote_tweet(remote_tweet(4, 10, "Needle with a capital", 400));
    world.add_remote_tweet(remote_tweet(5, 10, "knitting needles", 50));
    let mut gateway = direct(world);
    assert_eq!(all_tweets(&mut gateway, "ada"), Ok(()));

    let found = search_tweets_in_db(&mut gateway, "needle");

    assert_eq!(
        found,
        Ok(vec![
            stored(3, 10, "needle", 300),
            stored(1, 10, "a needle in a haystack", 100),
            stored(5, 10, "knitting needles", 50),
        ])
    );
}

#[test]
fn search_for_the_empty_text_returns_every_post() {
    let mut gateway = direct(timeline_world());
    assert_eq!(all_tweets(&mut gateway, "bob"), Ok(()));

    assert_eq!(search_tweets_in_db(&mut gateway, ""), Ok(vec![stored(3, 11, "bob's", 250)]));
    assert_eq!(search_tweets_in_db(&mut gateway, "alice"), Ok(vec![]));
}
