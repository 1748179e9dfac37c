use tweet_archiver::archive::{
    load_tweet_from_id, load_twitter_conversation_from_tweet_id, load_user_from_id,
    load_user_from_twitter_handle,
};
use tweet_archiver::clock::Timestamp;
use tweet_archiver::entities::tweets;
use tweet_archiver::entities::user;
use tweet_archiver::error::ArchiveError;
use tweet_archiver::gateway::{Halt, Gateway};
use tweet_archiver::protocol::Settings;
use tweet_archiver::utils::{ConversationData, TweetData, TweetReferenceData, UserData};
use tweet_archiver::wire::{ReferencedTweet, ReferencedTweetKind, Tweet, User};
use tweet_archiver::world::World;

fn at(seconds: i64) -> Timestamp {
    Timestamp { seconds, offset: 0 }
}

fn remote_user(id: u64, handle: &str) -> User {
    User {
        id,
        name: format!("Name of {handle}"),
        username: handle.to_string(),
        description: Some(format!("About {handle}")),
    }
}

fn remote_tweet(id: u64, author: u64, root: u64, body: &str, created: i64) -> Tweet {
    Tweet {
        id,
        text: body.to_string(),
        author_id: Some(author),
        conversation_id: Some(root),
        created_at: Some(at(created)),
        referenced_tweets: None,
    }
}

fn remote_reply(id: u64, author: u64, root: u64, body: &str, created: i64, parent: u64) -> Tweet {
    Tweet {
        referenced_tweets: Some(vec![ReferencedTweet {
            kind: ReferencedTweetKind::RepliedTo,
            id: parent,
        }]),
        ..remote_tweet(id, author, root, body, created)
    }
}

fn stored(id: i64, author: i64, root: i64, body: &str, created: i64) -> tweets::Model {
    tweets::Model {
        id,
        content: body.to_string(),
        author_id: author,
        conversation_id: root,
        created_at: at(created),
    }
}

fn reply_edge(source: i64, target: i64) -> TweetReferenceData {
    TweetReferenceData {
        reference_type: ReferencedTweetKind::RepliedTo,
        source_tweet_id: source,
        reference_tweet_id: target,
    }
}

fn direct(world: World) -> Gateway {
    Gateway::direct(Settings::standard(), world)
}

fn thread_world() -> World {
    let mut world = World::new();
    world.add_remote_user(remote_user(10, "ada"));
    world.add_remote_user(remote_user(11, "bob"));
    assert!(world.add_remote_tweet(remote_tweet(1, 10, 1, "root", 100)));
    assert!(world.add_remote_tweet(remote_reply(2, 11, 1, "a", 200, 1)));
    assert!(world.add_remote_tweet(remote_reply(3, 10, 1, "b", 300, 2)));
    assert!(world.add_remote_tweet(remote_reply(4, 11, 1, "c", 400, 3)));
    world
}

#[test]
fn load_post_on_empty_store_writes_author_root_and_post() {
    let mut world = World::new();
    world.add_remote_user(remote_user(10, "ada"));
    world.add_remote_tweet(remote_tweet(1, 10, 1, "hello", 1_640_995_200));
    let mut gateway = direct(world);

    let loaded = load_tweet_from_id(&mut gateway, 1);

    let expected = TweetData::new(stored(1, 10, 1, "hello", 1_640_995_200), vec![]);
    assert_eq!(loaded, Ok(expected));
    assert_eq!(gateway.world.users.len(), 1);
    assert_eq!(gateway.world.users[0].id, 10);
    assert_eq!(gateway.world.users[0].username, "ada");
    assert_eq!(gateway.world.conversations, vec![1]);
    assert_eq!(gateway.world.tweets, vec![stored(1, 10, 1, "hello", 1_640_995_200)]);
    assert!(gateway.world.references.is_empty());
}

#[test]
fn loading_twice_reads_the_store_the_second_time() {
    let mut gateway = direct(thread_world());

    let first = load_tweet_from_id(&mut gateway, 3);
    let users = gateway.world.users.clone();
    let conversations = gateway.world.conversations.clone();
    let tweets = gateway.world.tweets.clone();
    let references = gateway.world.references.clone();
    let second = load_tweet_from_id(&mut gateway, 3);

    assert!(first.is_ok());
    assert_eq!(first, second);
    assert_eq!(gateway.world.users, users);
    assert_eq!(gateway.world.conversations, conversations);
    assert_eq!(gateway.world.tweets, tweets);
    assert_eq!(gateway.world.references, references);
}

#[test]
fn loading_a_reply_stores_the_whole_thread_above_it() {
    let mut gateway = direct(thread_world());

    let loaded = load_tweet_from_id(&mut gateway, 3);

    assert_eq!(
        loaded,
        Ok(TweetData::new(stored(3, 10, 1, "b", 300), vec![reply_edge(3, 2)]))
    );
    assert_eq!(
        gateway.world.tweets,
        vec![
            stored(3, 10, 1, "b", 300),
            stored(2, 11, 1, "a", 200),
            stored(1, 10, 1, "root", 100),
        ]
    );
    assert_eq!(gateway.world.references, vec![reply_edge(2, 1), reply_edge(3, 2)]);
}

#[test]
fn every_stored_post_has_its_author_and_its_root() {
    let mut gateway = direct(thread_world());

    assert!(load_tweet_from_id(&mut gateway, 4).is_ok());

    assert_eq!(gateway.world.tweets.len(), 4);
    for tweet in &gateway.world.tweets {
        assert!(gateway.world.users.iter().any(|user| user.id == tweet.author_id));
        assert!(gateway.world.conversations.contains(&tweet.conversation_id));
    }
}

#[test]
fn conversation_runs_from_the_root_to_the_leaf() {
    let mut gateway = direct(thread_world());

    let conversation = load_twitter_conversation_from_tweet_id(&mut gateway, 4);

    let expected = ConversationData {
        id: 1,
        tweets: vec![
            TweetData::new(stored(1, 10, 1, "root", 100), vec![]),
            TweetData::new(stored(2, 11, 1, "a", 200), vec![reply_edge(2, 1)]),
            TweetData::new(stored(3, 10, 1, "b", 300), vec![reply_edge(3, 2)]),
            TweetData::new(stored(4, 11, 1, "c", 400), vec![reply_edge(4, 3)]),
        ],
    };
    assert_eq!(conversation, Ok(expected));
}

#[test]
fn conversation_of_a_post_without_reply_is_the_post() {
    let mut gateway = direct(thread_world());

    let conversation = load_twitter_conversation_from_tweet_id(&mut gateway, 1);

    assert_eq!(
        conversation,
        Ok(ConversationData {
            id: 1,
            tweets: vec![TweetData::new(stored(1, 10, 1, "root", 100), vec![])],
        })
    );
}

#[test]
fn conversation_on_a_cycle_is_detected() {
    let mut world = World::new();
    world.add_remote_user(remote_user(10, "ada"));
    world.add_remote_tweet(remote_reply(1, 10, 1, "a", 100, 2));
    world.add_remote_tweet(remote_reply(2, 10, 1, "b", 200, 1));
    let mut gateway = direct(world);

    let conversation = load_twitter_conversation_from_tweet_id(&mut gateway, 1);

    assert_eq!(conversation, Err(Halt::Failed(ArchiveError::CycleDetected)));
}

#[test]
fn conversation_on_a_self_reference_is_detected() {
    let mut world = World::new();
    world.add_remote_user(remote_user(10, "ada"));
    world.add_remote_tweet(remote_reply(1, 10, 1, "a", 100, 1));
    let mut gateway = direct(world);

    let conversation = load_twitter_conversation_from_tweet_id(&mut gateway, 1);

    assert_eq!(conversation, Err(Halt::Failed(ArchiveError::CycleDetected)));
}

#[test]
fn conversation_of_a_missing_leaf_is_not_found() {
    let mut gateway = direct(thread_world());

    let conversation = load_twitter_conversation_from_tweet_id(&mut gateway, 99);

    assert_eq!(conversation, Err(Halt::Failed(ArchiveError::NotFound)));
}

#[test]
fn conversation_stops_at_the_last_ancestor_that_can_be_found() {
    let mut world = World::new();
    world.add_remote_user(remote_user(10, "ada"));
    world.add_remote_tweet(remote_reply(2, 10, 1, "a", 200, 1));
    world.add_remote_tweet(remote_reply(3, 10, 1, "b", 300, 2));
    let mut gateway = direct(world);

    let conversation = load_twitter_conversation_from_tweet_id(&mut gateway, 3);

    assert_eq!(
        conversation,
        Ok(ConversationData {
            id: 1,
            tweets: vec![
                TweetData::new(stored(2, 10, 1, "a", 200), vec![reply_edge(2, 1)]),
                TweetData::new(stored(3, 10, 1, "b", 300), vec![reply_edge(3, 2)]),
            ],
        })
    );
}

#[test]
fn a_post_that_neither_side_has_is_not_found_and_nothing_is_written() {
    let mut gateway = direct(thread_world());

    let loaded = load_tweet_from_id(&mut gateway, 99);

    assert_eq!(loaded, Err(Halt::Failed(ArchiveError::NotFound)));
    assert!(gateway.world.tweets.is_empty());
    assert!(gateway.world.users.is_empty());
    assert!(gateway.world.conversations.is_empty());
}

#[test]
fn a_negative_post_id_is_not_found() {
    let mut gateway = direct(thread_world());

    assert_eq!(
        load_tweet_from_id(&mut gateway, -1),
        Err(Halt::Failed(ArchiveError::NotFound))
    );
}

#[test]
fn a_post_whose_author_cannot_be_found_is_a_data_error_and_is_not_written() {
    let mut world = World::new();
    world.add_remote_tweet(remote_tweet(1, 10, 1, "orphan", 100));
    let mut gateway = direct(world);

    let loaded = load_tweet_from_id(&mut gateway, 1);

    assert_eq!(loaded, Err(Halt::Failed(ArchiveError::DataError)));
    assert!(gateway.world.tweets.is_empty());
    assert!(gateway.world.conversations.is_empty());
}

#[test]
fn an_author_is_loaded_once_and_read_from_the_store_afterwards() {
    let mut world = World::new();
    world.add_remote_user(remote_user(10, "ada"));
    let mut gateway = direct(world);
    let expected = UserData {
        user: Some(user::Model {
            id: 10,
            username: "ada".to_string(),
            name: "Name of ada".to_string(),
            description: "About ada".to_string(),
        }),
    };

    assert_eq!(load_user_from_id(&mut gateway, 10), Ok(expected.clone()));
    assert_eq!(gateway.world.users.len(), 1);
    assert_eq!(load_user_from_twitter_handle(&mut gateway, "ada"), Ok(expected));
    assert_eq!(gateway.world.users.len(), 1);
}

#[test]
fn an_unknown_author_is_not_found() {
    let mut gateway = direct(World::new());

    assert_eq!(
        load_user_from_id(&mut gateway, 10),
        Err(Halt::Failed(ArchiveError::NotFound))
    );
    assert_eq!(
        load_user_from_twitter_handle(&mut gateway, "nobody"),
        Err(Halt::Failed(ArchiveError::NotFound))
    );
    assert_eq!(
        load_user_from_id(&mut gateway, -5),
        Err(Halt::Failed(ArchiveError::NotFound))
    );
}

#[test]
fn an_author_without_description_is_a_data_error() {
    let mut world = World::new();
    world.add_remote_user(User { description: None, ..remote_user(10, "ada") });
    let mut gateway = direct(world);

    assert_eq!(
        load_user_from_id(&mut gateway, 10),
        Err(Halt::Failed(ArchiveError::DataError))
    );
    assert!(gateway.world.users.is_empty());
}

#[test]
fn the_remote_snapshot_keeps_one_post_per_id() {
    let mut world = World::new();

    assert!(world.add_remote_tweet(remote_tweet(1, 10, 1, "first", 100)));
    assert!(!world.add_remote_tweet(remote_tweet(1, 10, 1, "second", 200)));
    assert!(world.add_remote_tweet(remote_tweet(2, 10, 2, "newer", 300)));

    assert_eq!(world.remote_tweets.len(), 2);
    assert_eq!(world.remote_tweets[0].id, 2);
    assert_eq!(world.remote_tweets[1].text, "first");
}
