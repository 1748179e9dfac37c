use tweet_archiver::clock::Timestamp;
use tweet_archiver::entities::tweets;
use tweet_archiver::entities::user;
use tweet_archiver::error::ArchiveError;
use tweet_archiver::gateway::{Halt, Gateway};
use tweet_archiver::protocol::{Request, Response, Settings, WriteOutcome};
use tweet_archiver::read::{
    does_conversation_exist, does_tweet_exist, tweet_by_id, user_by_id, user_by_twitter_handle,
};
use tweet_archiver::utils::{TweetData, TweetReferenceData, UserData};
use tweet_archiver::wire::{ReferencedTweetKind, Tweet, User};
use tweet_archiver::world::World;

fn at(seconds: i64) -> Timestamp {
    Timestamp { seconds, offset: 0 }
}

fn stored(id: i64, author: i64, root: i64, body: &str, created: i64) -> tweets::Model {
    tweets::Model {
        id,
        content: body.to_string(),
        author_id: author,
        conversation_id: root,
        created_at: at(created),
    }
}

fn ada() -> user::Model {
    user::Model {
        id: 10,
        username: "ada".to_string(),
        name: "Ada".to_string(),
        description: "first".to_string(),
    }
}

fn edge(kind: ReferencedTweetKind, source: i64, target: i64) -> TweetReferenceData {
    TweetReferenceData { reference_type: kind, source_tweet_id: source, reference_tweet_id: target }
}

fn empty_gateway() -> Gateway {
    Gateway::direct(Settings::standard(), World::new())
}

#[test]
fn a_written_author_is_read_back_by_id_and_by_handle() {
    let mut gateway = empty_gateway();
    let data = UserData::from_data_model(ada());

    assert_eq!(data.write(&mut gateway), Ok(()));

    assert_eq!(UserData::read(&mut gateway, 10), Ok(data.clone()));
    assert_eq!(UserData::read_from_twitter_handle(&mut gateway, "ada"), Ok(data.clone()));
    assert_eq!(user_by_id(&mut gateway, 10), Ok(data.clone()));
    assert_eq!(user_by_twitter_handle(&mut gateway, "ada"), Ok(data));
    assert_eq!(UserData::read(&mut gateway, 11), Ok(UserData::empty()));
    assert_eq!(user_by_twitter_handle(&mut gateway, "Ada"), Ok(UserData::empty()));
}

#[test]
fn writing_an_author_twice_keeps_the_first_row() {
    let mut gateway = empty_gateway();
    let renamed = user::Model { name: "Countess".to_string(), ..ada() };

    let first = UserData::from_data_model(ada());
    let second = UserData::from_data_model(renamed);
    assert_eq!(tweet_archiver::write::user(&mut gateway, &first), Ok(()));
    assert_eq!(tweet_archiver::write::user(&mut gateway, &second), Ok(()));

    assert_eq!(gateway.world.users, vec![ada()]);
}

#[test]
fn writing_the_absent_author_or_post_writes_nothing() {
    let mut gateway = empty_gateway();

    assert_eq!(UserData::empty().write(&mut gateway), Ok(()));
    assert_eq!(TweetData::empty().write(&mut gateway), Ok(()));
    assert_eq!(tweet_archiver::write::tweet(&mut gateway, &TweetData::empty()), Ok(()));

    assert!(gateway.world.users.is_empty());
    assert!(gateway.world.tweets.is_empty());
}

#[test]
fn a_written_post_is_read_back_with_its_edges() {
    let mut gateway = empty_gateway();
    let data = TweetData::new(
        stored(2, 10, 1, "body", 100),
        vec![
            edge(ReferencedTweetKind::Quoted, 2, 7),
            edge(ReferencedTweetKind::RepliedTo, 2, 1),
        ],
    );

    assert_eq!(data.write(&mut gateway), Ok(()));

    assert_eq!(TweetData::read(&mut gateway, 2), Ok(data.clone()));
    assert_eq!(tweet_by_id(&mut gateway, 2), Ok(data));
    assert_eq!(TweetData::read(&mut gateway, 1), Ok(TweetData::empty()));
    assert_eq!(does_tweet_exist(&mut gateway, 2), Ok(true));
    assert_eq!(does_tweet_exist(&mut gateway, 1), Ok(false));
}

#[test]
fn an_edge_is_stored_once() {
    let mut gateway = empty_gateway();
    let data = TweetData::new(
        stored(2, 10, 1, "body", 100),
        vec![
            edge(ReferencedTweetKind::Quoted, 2, 7),
            edge(ReferencedTweetKind::Quoted, 2, 7),
        ],
    );

    assert_eq!(data.write(&mut gateway), Ok(()));

    assert_eq!(gateway.world.references, vec![edge(ReferencedTweetKind::Quoted, 2, 7)]);
}

#[test]
fn posts_are_kept_newest_first() {
    let mut gateway = empty_gateway();
    for (id, created) in [(1, 200), (2, 100), (3, 300), (4, 200)] {
        let data = TweetData::new(stored(id, 10, id, "", created), vec![]);
        assert_eq!(data.write_row(&mut gateway), Ok(()));
    }

    let ids: Vec<i64> = gateway.world.tweets.iter().map(|tweet| tweet.id).collect();
    assert_eq!(ids, vec![3, 1, 4, 2]);
}

#[test]
fn a_conversation_root_is_known_after_it_is_written() {
    let mut gateway = empty_gateway();

    assert_eq!(does_conversation_exist(&mut gateway, 5), Ok(false));
    assert_eq!(tweet_archiver::write::conversation(&mut gateway, &5), Ok(()));
    assert_eq!(tweet_archiver::write::conversation(&mut gateway, &5), Ok(()));

    assert_eq!(does_conversation_exist(&mut gateway, 5), Ok(true));
    assert_eq!(gateway.world.conversations, vec![5]);
}

#[test]
fn persisting_a_post_whose_author_is_stored_asks_nothing_of_the_remote_source() {
    let mut gateway = empty_gateway();
    assert_eq!(UserData::from_data_model(ada()).write(&mut gateway), Ok(()));
    let data = TweetData::new(stored(2, 10, 1, "body", 100), vec![]);

    assert_eq!(tweet_archiver::write::tweet(&mut gateway, &data), Ok(()));

    assert_eq!(gateway.world.conversations, vec![1]);
    assert_eq!(gateway.world.tweets, vec![stored(2, 10, 1, "body", 100)]);
}

#[test]
fn persisting_a_reply_keeps_the_edge_to_a_parent_that_cannot_be_found() {
    let mut gateway = empty_gateway();
    assert_eq!(UserData::from_data_model(ada()).write(&mut gateway), Ok(()));
    let data = TweetData::new(
        stored(2, 10, 1, "body", 100),
        vec![edge(ReferencedTweetKind::RepliedTo, 2, 1)],
    );

    assert_eq!(tweet_archiver::write::tweet(&mut gateway, &data), Ok(()));

    assert_eq!(gateway.world.tweets.len(), 1);
    assert_eq!(gateway.world.references, vec![edge(ReferencedTweetKind::RepliedTo, 2, 1)]);
}

#[test]
fn persisting_posts_stops_at_the_first_failure_and_keeps_what_is_written() {
    let mut world = World::new();
    world.add_remote_user(User {
        id: 10,
        name: "Ada".to_string(),
        username: "ada".to_string(),
        description: Some("first".to_string()),
    });
    let mut gateway = Gateway::direct(Settings::standard(), world);
    let list = vec![
        TweetData::new(stored(1, 10, 1, "kept", 100), vec![]),
        TweetData::new(stored(2, 99, 2, "orphan", 200), vec![]),
        TweetData::new(stored(3, 10, 3, "never reached", 300), vec![]),
    ];

    assert_eq!(
        tweet_archiver::write::tweets(&mut gateway, &list),
        Err(Halt::Failed(ArchiveError::DataError))
    );

    assert_eq!(gateway.world.tweets, vec![stored(1, 10, 1, "kept", 100)]);
}

#[test]
fn the_world_answers_an_insert_under_a_taken_key_with_duplicate() {
    let mut world = World::new();

    let first = world.answer(Request::InsertTweet { tweet: stored(1, 10, 1, "first", 100) });
    let second = world.answer(Request::InsertTweet { tweet: stored(1, 10, 1, "second", 200) });

    assert_eq!(first, Response::Written(WriteOutcome::Inserted));
    assert_eq!(second, Response::Written(WriteOutcome::Duplicate));
    assert_eq!(world.tweets, vec![stored(1, 10, 1, "first", 100)]);
}

#[test]
fn the_world_cuts_a_timeline_off_after_the_asked_number() {
    let mut world = World::new();
    for id in 1..=4u64 {
        world.add_remote_tweet(Tweet {
            id,
            text: String::new(),
            author_id: Some(10),
            conversation_id: Some(id),
            created_at: Some(at(id as i64)),
            referenced_tweets: None,
        });
    }
    let query = tweet_archiver::protocol::Timeline {
        user_id: 10,
        max_results: Some(2),
        start_time: Some(at(1)),
        until_id: Some(4),
    };

    let answer = world.answer(Request::RemoteTimeline { query });

    match answer {
        Response::RemoteTimeline(list) => {
            let ids: Vec<u64> = list.iter().map(|tweet| tweet.id).collect();
            assert_eq!(ids, vec![3, 2]);
        }
        other => panic!("unexpected answer {other:?}"),
    }
}

#[test]
fn a_conversation_is_read_oldest_first() {
    let mut gateway = empty_gateway();
    for (id, root, created) in [(1, 1, 100), (2, 1, 300), (3, 9, 200), (4, 1, 200)] {
        let data = TweetData::new(stored(id, 10, root, "", created), vec![]);
        assert_eq!(data.write_row(&mut gateway), Ok(()));
    }

    let found = tweet_archiver::read::conversation(&mut gateway, 1).expect("the store answers");

    assert_eq!(found.id, 1);
    let ids: Vec<i64> = found
        .tweets
        .iter()
        .map(|data| data.tweet.as_ref().map(|tweet| tweet.id).unwrap_or(0))
        .collect();
    assert_eq!(ids, vec![1, 4, 2]);
}

#[test]
fn every_post_and_every_author_can_be_listed() {
    let mut gateway = empty_gateway();
    assert_eq!(UserData::from_data_model(ada()).write(&mut gateway), Ok(()));
    let first = TweetData::new(stored(1, 10, 1, "one", 100), vec![]);
    let second = TweetData::new(
        stored(2, 10, 1, "two", 200),
        vec![edge(ReferencedTweetKind::RepliedTo, 2, 1)],
    );
    assert_eq!(TweetData::write_many(&mut gateway, vec![&first, &second]), Ok(()));

    assert_eq!(tweet_archiver::read::tweets(&mut gateway), Ok(vec![second.clone(), first.clone()]));
    assert_eq!(
        tweet_archiver::read::users(&mut gateway),
        Ok(vec![UserData::from_data_model(ada())])
    );
    assert_eq!(
        TweetData::read_many(&mut gateway, &[2, 7, 1]),
        Ok(vec![second, TweetData::empty(), first])
    );
}

#[test]
fn the_edges_of_a_post_at_hand_are_read_from_the_store() {
    let mut gateway = empty_gateway();
    let data =
        TweetData::new(stored(2, 10, 1, "two", 200), vec![edge(ReferencedTweetKind::Quoted, 2, 1)]);
    assert_eq!(data.write(&mut gateway), Ok(()));
    let at_hand = stored(2, 10, 1, "edited", 200);

    let read = TweetData::read_from_data_model(&mut gateway, at_hand.clone());

    assert_eq!(read, Ok(TweetData::new(at_hand, vec![edge(ReferencedTweetKind::Quoted, 2, 1)])));
}
