use tweet_archiver::archive::{backfill, has_new_tweets};
use tweet_archiver::clock::Timestamp;
use tweet_archiver::error::ArchiveError;
use tweet_archiver::gateway::{Gateway, Halt};
use tweet_archiver::protocol::{Response, Settings};
use tweet_archiver::session::{advance, perform, Operation, Outcome, Step};
use tweet_archiver::wire::{ReferencedTweet, ReferencedTweetKind, Tweet, User};
use tweet_archiver::world::World;

/// A small generator of numbers that gives the same numbers on every run.
struct Numbers(u64);

impl Numbers {
    fn next(&mut self, below: u64) -> u64 {
        self.0 = self.0.wrapping_mul(6364136223846793005).wrapping_add(1442695040888963407);
        (self.0 >> 33) % below
    }
}

const HANDLES: [&str; 3] = ["ada", "bob", "cy"];

/// A remote snapshot of three authors and some posts, most of which reply
/// to an earlier post, to a later post, to themselves or to no post at all.
fn world(numbers: &mut Numbers) -> World {
    let mut world = World::new();
    for (index, handle) in HANDLES.iter().enumerate() {
        world.add_remote_user(User {
            id: 10 + index as u64,
            name: handle.to_uppercase(),
            username: handle.to_string(),
            description: Some(String::new()),
        });
    }
    let posts = 1 + numbers.next(12);
    for id in 1..=posts {
        let parent = numbers.next(posts + 3);
        let words = ["needle", "hay", "a needle here", "nothing"];
        world.add_remote_tweet(Tweet {
            id,
            text: words[numbers.next(4) as usize].to_string(),
            author_id: Some(10 + numbers.next(3)),
            conversation_id: Some(1 + numbers.next(3)),
            created_at: Some(Timestamp { seconds: numbers.next(50) as i64, offset: 0 }),
            referenced_tweets: if parent == 0 {
                None
            } else {
                Some(vec![
                    ReferencedTweet { kind: ReferencedTweetKind::Quoted, id: numbers.next(20) },
                    ReferencedTweet { kind: ReferencedTweetKind::RepliedTo, id: parent },
                ])
            },
        });
    }
    world
}

fn operation(numbers: &mut Numbers) -> Operation {
    let handle = HANDLES[numbers.next(3) as usize].to_string();
    match numbers.next(14) {
        9 => Operation::LatestStored { handle },
        10 => Operation::HasNewTweets { handle },
        11 => Operation::NewTweets { handle },
        12 => Operation::Backfill { handle },
        13 => Operation::History { handle },
        0 | 1 => Operation::Tweet { id: numbers.next(16) as i64 },
        2 => Operation::Conversation { id: numbers.next(16) as i64 },
        3 => Operation::UserTweets { handle },
        4 => Operation::UserConversations { handle },
        5 => Operation::Search { query: "needle".to_string() },
        6 => Operation::HasTweetedSince { handle, seconds: numbers.next(50) as i64 },
        7 => Operation::TweetsSince { handle, date: "1970-01-01T00:00:20Z".to_string() },
        _ => Operation::UserByHandle { handle },
    }
}

fn check_store(world: &World) {
    for pair in world.tweets.windows(2) {
        assert!(pair[0].created_at.seconds >= pair[1].created_at.seconds);
    }
    for tweet in &world.tweets {
        assert!(world.users.iter().any(|user| user.id == tweet.author_id));
        assert!(world.conversations.contains(&tweet.conversation_id));
        let remote = world
            .remote_tweets
            .iter()
            .find(|remote| remote.id == tweet.id as u64)
            .expect("every stored post was fetched");
        assert_eq!(remote.text, tweet.content);
        assert_eq!(remote.created_at, Some(tweet.created_at));
        assert_eq!(world.tweets.iter().filter(|other| other.id == tweet.id).count(), 1);
    }
}

fn check_outcome(operation: &Operation, outcome: &Result<Outcome, ArchiveError>, world: &World) {
    match (operation, outcome) {
        (Operation::Conversation { id }, Ok(Outcome::Conversation(conversation))) => {
            let posts = &conversation.tweets;
            let last = posts.last().and_then(|data| data.tweet.as_ref()).expect("the leaf");
            assert_eq!(last.id, *id);
            assert_eq!(conversation.id, last.conversation_id);
            for pair in posts.windows(2) {
                let parent = pair[0].tweet.as_ref().expect("a post").id;
                assert_eq!(pair[1].replied_to(), Some(parent));
            }
        }
        (Operation::Search { query }, Ok(Outcome::Tweets(found))) => {
            let expected: Vec<i64> = world
                .tweets
                .iter()
                .filter(|tweet| tweet.content.contains(query.as_str()))
                .map(|tweet| tweet.id)
                .collect();
            let ids: Vec<i64> =
                found.iter().map(|data| data.tweet.as_ref().expect("a post").id).collect();
            assert_eq!(ids, expected);
        }
        (Operation::Tweet { id }, Ok(Outcome::Tweet(data))) => {
            assert_eq!(data.tweet.as_ref().map(|tweet| tweet.id), Some(*id));
        }
        _ => {}
    }
}

#[test]
fn random_operations_keep_the_store_in_order_and_agree_step_by_step() {
    let mut numbers = Numbers(2022);
    for _ in 0..60 {
        let seed = numbers.0;
        let mut stepped = world(&mut Numbers(seed));
        let mut gateway = Gateway::direct(Settings::standard(), world(&mut Numbers(seed)));
        numbers.next(2);
        for _ in 0..8 {
            let operation = operation(&mut numbers);
            let performed = match perform(&mut gateway, &operation) {
                Ok(outcome) => Ok(outcome),
                Err(Halt::Failed(error)) => Err(error),
                Err(Halt::Suspended(request)) => panic!("suspended on {request:?}"),
            };
            let mut answers: Vec<Response> = Vec::new();
            let driven = loop {
                match advance(&operation, Settings::standard(), &answers) {
                    Step::Ask(request) => answers.push(stepped.answer(request)),
                    Step::Done(outcome) => break Ok(outcome),
                    Step::Failed(error) => break Err(error),
                }
            };

            assert_eq!(driven, performed, "{operation:?}");
            assert_eq!(stepped.tweets, gateway.world.tweets);
            assert_eq!(stepped.references, gateway.world.references);
            check_store(&gateway.world);
            check_outcome(&operation, &performed, &gateway.world);
        }
    }
}

#[test]
fn random_stores_are_fresh_after_every_backfill() {
    let mut numbers = Numbers(7);
    let mut backfills = 0;
    for _ in 0..80 {
        let mut gateway = Gateway::direct(Settings::standard(), world(&mut numbers));
        for _ in 0..4 {
            let operation = operation(&mut numbers);
            let _ = perform(&mut gateway, &operation);
        }
        for handle in HANDLES {
            if backfill(&mut gateway, handle).is_ok() {
                backfills += 1;
                assert_eq!(has_new_tweets(&mut gateway, handle), Ok(false), "{handle}");
            }
        }
    }
    assert!(backfills > 20);
}

#[test]
fn a_load_repeated_on_a_random_store_reads_the_same_post() {
    let mut numbers = Numbers(99);
    let mut loads = 0;
    for _ in 0..40 {
        let mut gateway = Gateway::direct(Settings::standard(), world(&mut numbers));
        for _ in 0..6 {
            let id = numbers.next(16) as i64;
            let first = perform(&mut gateway, &Operation::Tweet { id });
            let rows = gateway.world.tweets.len();
            let edges = gateway.world.references.len();
            let second = perform(&mut gateway, &Operation::Tweet { id });
            assert_eq!(first, second);
            assert_eq!(gateway.world.tweets.len(), rows);
            assert_eq!(gateway.world.references.len(), edges);
            if first.is_ok() {
                loads += 1;
            }
        }
    }
    assert!(loads > 20);
}
