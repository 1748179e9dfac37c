use tweet_archiver::clock::Timestamp;
use tweet_archiver::entities::tweets;
use tweet_archiver::entities::user;
use tweet_archiver::error::ArchiveError;
use tweet_archiver::gateway::{Halt, Gateway};
use tweet_archiver::protocol::{Request, Response, Settings, Timeline, WriteOutcome};
use tweet_archiver::session::{advance, perform, Operation, Outcome, Step};
use tweet_archiver::utils::{TweetData, TweetReferenceData, UserData};
use tweet_archiver::wire::{ReferencedTweet, ReferencedTweetKind, Tweet, User};
use tweet_archiver::world::World;

fn at(seconds: i64) -> Timestamp {
    Timestamp { seconds, offset: 0 }
}

fn remote_user(id: u64, handle: &str) -> User {
    User {
        id,
        name: handle.to_uppercase(),
        username: handle.to_string(),
        description: Some("bio".to_string()),
    }
}

fn stored_user(id: i64, handle: &str) -> user::Model {
    user::Model {
        id,
        username: handle.to_string(),
        name: handle.to_uppercase(),
        description: "bio".to_string(),
    }
}

fn remote_tweet(id: u64, author: u64, root: u64, body: &str, created: i64) -> Tweet {
    Tweet {
        id,
        text: body.to_string(),
        author_id: Some(author),
        conversation_id: Some(root),
        created_at: Some(at(created)),
        referenced_tweets: None,
    }
}

fn remote_reply(id: u64, author: u64, root: u64, body: &str, created: i64, parent: u64) -> Tweet {
    Tweet {
        referenced_tweets: Some(vec![ReferencedTweet {
            kind: ReferencedTweetKind::RepliedTo,
            id: parent,
        }]),
        ..remote_tweet(id, author, root, body, created)
    }
}

fn stored(id: i64, author: i64, root: i64, body: &str, created: i64) -> tweets::Model {
    tweets::Model {
        id,
        content: body.to_string(),
        author_id: author,
        conversation_id: root,
        created_at: at(created),
    }
}

fn reply_edge(source: i64, target: i64) -> TweetReferenceData {
    TweetReferenceData {
        reference_type: ReferencedTweetKind::RepliedTo,
        source_tweet_id: source,
        reference_tweet_id: target,
    }
}

fn thread_world() -> World {
    let mut world = World::new();
    world.add_remote_user(remote_user(10, "ada"));
    world.add_remote_user(remote_user(11, "bob"));
    world.add_remote_tweet(remote_tweet(1, 10, 1, "root", 100));
    world.add_remote_tweet(remote_reply(2, 11, 1, "a needle", 200, 1));
    world.add_remote_tweet(remote_reply(3, 10, 1, "b", 300, 2));
    world.add_remote_tweet(remote_tweet(4, 10, 4, "alone", 400));
    world
}

/// Runs an operation as a caller without a world of its own would: each
/// request that the operation names is answered by `world`, and the answer
/// is added to the answers collected so far.
fn drive(
    operation: &Operation,
    world: &mut World,
    asked: &mut Vec<Request>,
) -> Result<Outcome, ArchiveError> {
    let mut answers: Vec<Response> = Vec::new();
    loop {
        match advance(operation, Settings::standard(), &answers) {
            Step::Ask(request) => {
                asked.push(request.clone());
                answers.push(world.answer(request));
            }
            Step::Done(outcome) => return Ok(outcome),
            Step::Failed(error) => return Err(error),
        }
    }
}

fn load(id: i64) -> Operation {
    Operation::Tweet { id }
}

#[test]
fn an_operation_without_answers_asks_its_first_request() {
    let step = advance(&load(1), Settings::standard(), &vec![]);

    assert_eq!(step, Step::Ask(Request::FindTweet { id: 1 }));
}

#[test]
fn a_stored_post_ends_the_load_after_one_answer() {
    let found = TweetData::new(stored(1, 10, 1, "hello", 100), vec![]);

    let step = advance(&load(1), Settings::standard(), &vec![Response::Tweet(found.clone())]);

    assert_eq!(step, Step::Done(Outcome::Tweet(found)));
}

#[test]
fn a_load_asks_for_the_author_and_the_root_before_it_writes_the_post() {
    let tweet = remote_reply(2, 11, 1, "a", 200, 1);
    let script = vec![
        (Request::FindTweet { id: 2 }, Response::Tweet(TweetData::empty())),
        (Request::RemoteTweet { id: 2 }, Response::RemoteTweet(Some(tweet))),
        (Request::FindUser { id: 11 }, Response::User(UserData::empty())),
        (Request::RemoteUser { id: 11 }, Response::RemoteUser(Some(remote_user(11, "bob")))),
        (
            Request::InsertUser { user: stored_user(11, "bob") },
            Response::Written(WriteOutcome::Inserted),
        ),
        (Request::ConversationExists { id: 1 }, Response::Flag(false)),
        (Request::InsertConversation { id: 1 }, Response::Written(WriteOutcome::Inserted)),
        (
            Request::InsertTweet { tweet: stored(2, 11, 1, "a", 200) },
            Response::Written(WriteOutcome::Inserted),
        ),
        (Request::TweetExists { id: 1 }, Response::Flag(true)),
        (
            Request::InsertReference { reference: reply_edge(2, 1) },
            Response::Written(WriteOutcome::Duplicate),
        ),
        (
            Request::FindTweet { id: 2 },
            Response::Tweet(TweetData::new(stored(2, 11, 1, "a", 200), vec![reply_edge(2, 1)])),
        ),
    ];
    let mut answers: Vec<Response> = Vec::new();
    for (request, response) in script {
        assert_eq!(advance(&load(2), Settings::standard(), &answers), Step::Ask(request));
        answers.push(response);
    }

    assert_eq!(
        advance(&load(2), Settings::standard(), &answers),
        Step::Done(Outcome::Tweet(TweetData::new(
            stored(2, 11, 1, "a", 200),
            vec![reply_edge(2, 1)]
        )))
    );
}

#[test]
fn a_rate_limited_request_is_put_once_more_after_the_cooldown() {
    let settings = Settings { cooldown_seconds: 7, ..Settings::standard() };
    let mut answers = vec![Response::Tweet(TweetData::empty())];
    assert_eq!(
        advance(&load(1), settings, &answers),
        Step::Ask(Request::RemoteTweet { id: 1 })
    );
    answers.push(Response::RateLimited);
    assert_eq!(
        advance(&load(1), settings, &answers),
        Step::Ask(Request::Cooldown { seconds: 7 })
    );
    answers.push(Response::Resumed);
    assert_eq!(
        advance(&load(1), settings, &answers),
        Step::Ask(Request::RemoteTweet { id: 1 })
    );
    answers.push(Response::RemoteTweet(None));

    assert_eq!(
        advance(&load(1), settings, &answers),
        Step::Failed(ArchiveError::NotFound)
    );
}

#[test]
fn a_second_rate_limit_is_retryable() {
    let answers = vec![
        Response::Tweet(TweetData::empty()),
        Response::RateLimited,
        Response::Resumed,
        Response::RateLimited,
    ];

    assert_eq!(
        advance(&load(1), Settings::standard(), &answers),
        Step::Failed(ArchiveError::Retryable)
    );
}

#[test]
fn a_failure_of_the_remote_source_is_a_data_error() {
    let answers = vec![Response::Tweet(TweetData::empty()), Response::RemoteFailed];

    assert_eq!(
        advance(&load(1), Settings::standard(), &answers),
        Step::Failed(ArchiveError::DataError)
    );
}

#[test]
fn an_answer_of_the_wrong_kind_is_a_data_error() {
    assert_eq!(
        advance(&load(1), Settings::standard(), &vec![Response::Flag(true)]),
        Step::Failed(ArchiveError::DataError)
    );
    assert_eq!(
        advance(
            &load(1),
            Settings::standard(),
            &vec![Response::Tweet(TweetData::empty()), Response::Resumed]
        ),
        Step::Failed(ArchiveError::DataError)
    );
}

#[test]
fn a_reply_with_another_post_than_the_one_asked_for_is_a_data_error() {
    let answers = vec![
        Response::Tweet(TweetData::empty()),
        Response::RemoteTweet(Some(remote_tweet(2, 10, 2, "other", 100))),
    ];

    assert_eq!(
        advance(&load(1), Settings::standard(), &answers),
        Step::Failed(ArchiveError::DataError)
    );
}

#[test]
fn a_rejected_write_is_a_data_error() {
    let answers = vec![
        Response::Tweet(TweetData::empty()),
        Response::RemoteTweet(Some(remote_tweet(1, 10, 1, "hello", 100))),
        Response::User(UserData::from_data_model(stored_user(10, "ada"))),
        Response::Flag(true),
        Response::Written(WriteOutcome::Failed),
    ];

    assert_eq!(
        advance(&load(1), Settings::standard(), &answers),
        Step::Failed(ArchiveError::DataError)
    );
}

#[test]
fn a_duplicate_write_is_no_failure() {
    let found = TweetData::new(stored(1, 10, 1, "hello", 100), vec![]);
    let answers = vec![
        Response::Tweet(TweetData::empty()),
        Response::RemoteTweet(Some(remote_tweet(1, 10, 1, "hello", 100))),
        Response::User(UserData::from_data_model(stored_user(10, "ada"))),
        Response::Flag(true),
        Response::Written(WriteOutcome::Duplicate),
        Response::Tweet(found.clone()),
    ];

    assert_eq!(
        advance(&load(1), Settings::standard(), &answers),
        Step::Done(Outcome::Tweet(found))
    );
}

#[test]
fn a_staleness_check_asks_for_the_few_newest_remote_posts() {
    let ada = UserData::from_data_model(stored_user(10, "ada"));
    let operation = Operation::HasTweetedSince { handle: "ada".to_string(), seconds: 150 };
    let answers = vec![Response::User(ada)];

    assert_eq!(
        advance(&operation, Settings::standard(), &answers),
        Step::Ask(Request::RemoteTimeline {
            query: Timeline {
                user_id: 10,
                max_results: Some(5),
                start_time: None,
                until_id: None,
            },
        })
    );
    let mut answers = answers;
    answers.push(Response::RemoteTimeline(vec![
        remote_tweet(2, 10, 2, "new", 200),
        remote_tweet(1, 10, 1, "old", 100),
    ]));
    assert_eq!(
        advance(&operation, Settings::standard(), &answers),
        Step::Done(Outcome::Flag(true))
    );
}

#[test]
fn driving_an_operation_step_by_step_agrees_with_performing_it_directly() {
    let operations = vec![
        Operation::Tweet { id: 3 },
        Operation::Tweet { id: 99 },
        Operation::Conversation { id: 3 },
        Operation::UserById { id: 11 },
        Operation::UserByHandle { handle: "ada".to_string() },
        Operation::UserTweets { handle: "ada".to_string() },
        Operation::UserConversations { handle: "bob".to_string() },
        Operation::LatestRemote { handle: "ada".to_string() },
        Operation::HasTweetedSince { handle: "bob".to_string(), seconds: 250 },
        Operation::TweetsSince {
            handle: "ada".to_string(),
            date: "1970-01-01T00:01:40Z".to_string(),
        },
        Operation::Search { query: "needle".to_string() },
        Operation::Tweets,
        Operation::Users,
        Operation::LatestStored { handle: "ada".to_string() },
        Operation::HasNewTweets { handle: "bob".to_string() },
        Operation::NewTweets { handle: "ada".to_string() },
        Operation::Backfill { handle: "ada".to_string() },
        Operation::History { handle: "bob".to_string() },
        Operation::History { handle: "nobody".to_string() },
    ];
    let mut stepped_world = thread_world();
    let mut gateway = Gateway::direct(Settings::standard(), thread_world());

    for operation in &operations {
        let mut asked = Vec::new();
        let stepped = drive(operation, &mut stepped_world, &mut asked);
        let performed = match perform(&mut gateway, operation) {
            Ok(outcome) => Ok(outcome),
            Err(Halt::Failed(error)) => Err(error),
            Err(Halt::Suspended(request)) => panic!("a direct gateway suspended on {request:?}"),
        };

        assert_eq!(stepped, performed, "{operation:?}");
        assert!(!asked.is_empty());
        assert_eq!(stepped_world.users, gateway.world.users);
        assert_eq!(stepped_world.conversations, gateway.world.conversations);
        assert_eq!(stepped_world.tweets, gateway.world.tweets);
        assert_eq!(stepped_world.references, gateway.world.references);
    }
    assert_eq!(gateway.world.tweets.len(), 4);
}

#[test]
fn a_second_load_asks_for_one_read_and_nothing_else() {
    let mut world = thread_world();
    let mut first = Vec::new();
    let mut second = Vec::new();

    let loaded = drive(&load(3), &mut world, &mut first);
    let again = drive(&load(3), &mut world, &mut second);

    assert!(loaded.is_ok());
    assert_eq!(loaded, again);
    assert_eq!(second, vec![Request::FindTweet { id: 3 }]);
    let fetches = first
        .iter()
        .filter(|request| **request == Request::RemoteTweet { id: 3 })
        .count();
    let writes = first
        .iter()
        .filter(|request| matches!(request, Request::InsertTweet { tweet } if tweet.id == 3))
        .count();
    assert_eq!(fetches, 1);
    assert_eq!(writes, 1);
}

#[test]
fn each_page_of_a_history_is_written_before_the_next_is_asked_for() {
    let mut world = World::new();
    world.add_remote_user(remote_user(10, "ada"));
    for id in 1..=5u64 {
        world.add_remote_tweet(remote_tweet(id, 10, id, "post", 100 * id as i64));
    }
    let operation = Operation::History { handle: "ada".to_string() };
    let settings = Settings { page_size: 2, ..Settings::standard() };
    let mut answers: Vec<Response> = Vec::new();
    let mut asked: Vec<Request> = Vec::new();
    loop {
        match advance(&operation, settings, &answers) {
            Step::Ask(request) => {
                asked.push(request.clone());
                answers.push(world.answer(request));
            }
            Step::Done(outcome) => {
                assert_eq!(outcome, Outcome::Nothing);
                break;
            }
            Step::Failed(error) => panic!("the history failed: {error:?}"),
        }
    }

    let mut written: Vec<i64> = Vec::new();
    let mut pages: Vec<(Option<u64>, Vec<i64>)> = Vec::new();
    for request in &asked {
        match request {
            Request::RemoteTimeline { query } => {
                assert_eq!(query.max_results, Some(2));
                pages.push((query.until_id, written.clone()));
            }
            Request::InsertTweet { tweet } => written.push(tweet.id),
            _ => {}
        }
    }
    assert_eq!(
        pages,
        vec![
            (None, vec![]),
            (Some(4), vec![5, 4]),
            (Some(2), vec![5, 4, 3, 2]),
            (Some(1), vec![5, 4, 3, 2, 1]),
        ]
    );
}
