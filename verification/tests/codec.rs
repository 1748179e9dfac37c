use tweet_archiver::clock::{timestamp_from_rfc3339, Timestamp};
use tweet_archiver::entities::tweets;
use tweet_archiver::entities::user;
use tweet_archiver::error::ArchiveError;
use tweet_archiver::protocol::Settings;
use tweet_archiver::utils::{
    convert_date_to_chrono, i64_to_u64, u64_to_i64, TweetData, TweetReferenceData, UserData,
};
use tweet_archiver::wire::{ReferencedTweet, ReferencedTweetKind, Tweet, User};

fn at(seconds: i64) -> Timestamp {
    Timestamp { seconds, offset: 0 }
}

fn complete_tweet() -> Tweet {
    Tweet {
        id: 7,
        text: "body".to_string(),
        author_id: Some(10),
        conversation_id: Some(5),
        created_at: Some(Timestamp { seconds: 1_640_995_200, offset: 3600 }),
        referenced_tweets: Some(vec![
            ReferencedTweet { kind: ReferencedTweetKind::Quoted, id: 3 },
            ReferencedTweet { kind: ReferencedTweetKind::RepliedTo, id: 6 },
        ]),
    }
}

#[test]
fn signed_ids_convert_when_they_are_not_negative() {
    assert_eq!(i64_to_u64(0), Ok(0));
    assert_eq!(i64_to_u64(i64::MAX), Ok(9_223_372_036_854_775_807));
    assert_eq!(i64_to_u64(-1), Err(ArchiveError::DataError));
    assert_eq!(i64_to_u64(i64::MIN), Err(ArchiveError::DataError));
}

#[test]
fn unsigned_ids_convert_when_they_fit() {
    assert_eq!(u64_to_i64(0), Ok(0));
    assert_eq!(u64_to_i64(9_223_372_036_854_775_807), Ok(i64::MAX));
    assert_eq!(u64_to_i64(9_223_372_036_854_775_808), Err(ArchiveError::DataError));
    assert_eq!(u64_to_i64(u64::MAX), Err(ArchiveError::DataError));
}

#[test]
fn a_missing_date_is_a_data_error() {
    assert_eq!(convert_date_to_chrono(Some(at(5))), Ok(at(5)));
    assert_eq!(convert_date_to_chrono(None), Err(ArchiveError::DataError));
}

#[test]
fn kinds_are_stored_under_their_names() {
    let edge = |kind| TweetReferenceData {
        reference_type: kind,
        source_tweet_id: 1,
        reference_tweet_id: 2,
    };
    assert_eq!(edge(ReferencedTweetKind::RepliedTo).type_to_string(), "replied_to");
    assert_eq!(edge(ReferencedTweetKind::Retweeted).type_to_string(), "retweeted");
    assert_eq!(edge(ReferencedTweetKind::Quoted).type_to_string(), "quoted");
}

#[test]
fn names_are_read_back_as_kinds() {
    assert_eq!(
        TweetReferenceData::kind_from_string("replied_to"),
        Some(ReferencedTweetKind::RepliedTo)
    );
    assert_eq!(
        TweetReferenceData::kind_from_string("retweeted"),
        Some(ReferencedTweetKind::Retweeted)
    );
    assert_eq!(
        TweetReferenceData::kind_from_string("quoted"),
        Some(ReferencedTweetKind::Quoted)
    );
    assert_eq!(TweetReferenceData::kind_from_string("Quoted"), None);
    assert_eq!(TweetReferenceData::kind_from_string(""), None);
}

#[test]
fn every_kind_survives_the_round_trip_through_its_name() {
    for kind in [
        ReferencedTweetKind::RepliedTo,
        ReferencedTweetKind::Retweeted,
        ReferencedTweetKind::Quoted,
    ] {
        let edge = TweetReferenceData {
            reference_type: kind,
            source_tweet_id: 1,
            reference_tweet_id: 2,
        };
        assert_eq!(
            TweetReferenceData::kind_from_string(&edge.type_to_string()),
            Some(kind)
        );
    }
}

#[test]
fn edges_convert_to_and_from_remote_references() {
    let reference = ReferencedTweet { kind: ReferencedTweetKind::Quoted, id: 9 };
    let edge = TweetReferenceData {
        reference_type: ReferencedTweetKind::Quoted,
        source_tweet_id: 4,
        reference_tweet_id: 9,
    };
    assert_eq!(TweetReferenceData::from_referenced_tweet(4, &reference), Ok(edge));
    assert_eq!(edge.to_referenced_tweet(), Ok(reference));
    assert_eq!(edge.clone(), edge);

    let too_large = ReferencedTweet { kind: ReferencedTweetKind::Quoted, id: u64::MAX };
    assert_eq!(
        TweetReferenceData::from_referenced_tweet(4, &too_large),
        Err(ArchiveError::DataError)
    );
    let negative = TweetReferenceData { reference_tweet_id: -9, ..edge };
    assert_eq!(negative.to_referenced_tweet(), Err(ArchiveError::DataError));
}

#[test]
fn a_remote_post_decodes_to_its_record_and_its_edges() {
    let decoded = TweetData::from_api_tweet(Some(complete_tweet()));

    let expected = TweetData {
        tweet: Some(tweets::Model {
            id: 7,
            content: "body".to_string(),
            author_id: 10,
            conversation_id: 5,
            created_at: Timestamp { seconds: 1_640_995_200, offset: 3600 },
        }),
        references: vec![
            TweetReferenceData {
                reference_type: ReferencedTweetKind::Quoted,
                source_tweet_id: 7,
                reference_tweet_id: 3,
            },
            TweetReferenceData {
                reference_type: ReferencedTweetKind::RepliedTo,
                source_tweet_id: 7,
                reference_tweet_id: 6,
            },
        ],
    };
    assert_eq!(decoded, Ok(expected.clone()));
    assert_eq!(expected.replied_to(), Some(6));
    assert_eq!(expected.clone(), expected);
}

#[test]
fn a_remote_post_without_references_has_no_edges() {
    let tweet = Tweet { referenced_tweets: None, ..complete_tweet() };

    let decoded = TweetData::from_api_tweet(Some(tweet)).expect("the post is complete");

    assert!(decoded.references.is_empty());
    assert_eq!(decoded.replied_to(), None);
}

#[test]
fn no_remote_post_decodes_to_the_absent_post() {
    assert_eq!(TweetData::from_api_tweet(None), Ok(TweetData::empty()));
    assert_eq!(TweetData::empty(), TweetData { tweet: None, references: vec![] });
}

#[test]
fn a_remote_post_with_a_missing_field_is_a_data_error() {
    let cases = [
        Tweet { author_id: None, ..complete_tweet() },
        Tweet { conversation_id: None, ..complete_tweet() },
        Tweet { created_at: None, ..complete_tweet() },
    ];
    for tweet in cases {
        assert_eq!(TweetData::from_api_tweet(Some(tweet)), Err(ArchiveError::DataError));
    }
}

#[test]
fn a_remote_post_with_an_id_beyond_the_signed_range_is_a_data_error() {
    let large: u64 = 9_223_372_036_854_775_808;
    let cases = [
        Tweet { id: large, ..complete_tweet() },
        Tweet { author_id: Some(large), ..complete_tweet() },
        Tweet { conversation_id: Some(large), ..complete_tweet() },
        Tweet {
            referenced_tweets: Some(vec![ReferencedTweet {
                kind: ReferencedTweetKind::RepliedTo,
                id: large,
            }]),
            ..complete_tweet()
        },
    ];
    for tweet in cases {
        assert_eq!(TweetData::from_api_tweet(Some(tweet)), Err(ArchiveError::DataError));
    }
}

#[test]
fn the_first_reply_edge_names_the_parent() {
    let edge = |kind, target| TweetReferenceData {
        reference_type: kind,
        source_tweet_id: 1,
        reference_tweet_id: target,
    };
    let data = TweetData {
        tweet: None,
        references: vec![
            edge(ReferencedTweetKind::Quoted, 2),
            edge(ReferencedTweetKind::RepliedTo, 3),
            edge(ReferencedTweetKind::RepliedTo, 4),
        ],
    };
    assert_eq!(data.replied_to(), Some(3));
}

#[test]
fn a_stored_post_encodes_to_its_remote_form_and_back() {
    let model = tweets::Model {
        id: 7,
        content: "body".to_string(),
        author_id: 10,
        conversation_id: 5,
        created_at: at(1_640_995_200),
    };
    let edges = vec![TweetReferenceData {
        reference_type: ReferencedTweetKind::RepliedTo,
        source_tweet_id: 7,
        reference_tweet_id: 6,
    }];

    let remote = model.to_tweet(edges.clone()).expect("no id is negative");

    assert_eq!(
        remote,
        Tweet {
            id: 7,
            text: "body".to_string(),
            author_id: Some(10),
            conversation_id: Some(5),
            created_at: Some(at(1_640_995_200)),
            referenced_tweets: Some(vec![ReferencedTweet {
                kind: ReferencedTweetKind::RepliedTo,
                id: 6,
            }]),
        }
    );
    assert_eq!(
        TweetData::from_api_tweet(Some(remote)),
        Ok(TweetData::new(model, edges))
    );
}

#[test]
fn a_stored_post_with_a_negative_id_has_no_remote_form() {
    let model = tweets::Model {
        id: 7,
        content: String::new(),
        author_id: -10,
        conversation_id: 5,
        created_at: at(0),
    };
    assert_eq!(model.to_tweet(vec![]), Err(ArchiveError::DataError));
}

#[test]
fn the_remote_form_is_written_in_utc() {
    let model = tweets::Model {
        id: 7,
        content: String::new(),
        author_id: 10,
        conversation_id: 5,
        created_at: Timestamp { seconds: 42, offset: 7200 },
    };
    let remote = model.to_tweet(vec![]).expect("no id is negative");
    assert_eq!(remote.created_at, Some(at(42)));
}

#[test]
fn a_remote_author_decodes_to_its_record() {
    let remote = User {
        id: 10,
        name: "Ada".to_string(),
        username: "ada".to_string(),
        description: Some("first".to_string()),
    };
    let expected = user::Model {
        id: 10,
        username: "ada".to_string(),
        name: "Ada".to_string(),
        description: "first".to_string(),
    };
    assert_eq!(
        UserData::from_api_user(&remote),
        Ok(UserData::from_data_model(expected))
    );
    assert_eq!(UserData::empty(), UserData { user: None });
}

#[test]
fn a_remote_author_that_cannot_be_stored_is_a_data_error() {
    let remote = User {
        id: 10,
        name: "Ada".to_string(),
        username: "ada".to_string(),
        description: None,
    };
    assert_eq!(UserData::from_api_user(&remote), Err(ArchiveError::DataError));
    let large = User { id: u64::MAX, description: Some(String::new()), ..remote };
    assert_eq!(UserData::from_api_user(&large), Err(ArchiveError::DataError));
}

#[test]
fn rfc3339_dates_are_read_as_instants_with_offsets() {
    assert_eq!(
        timestamp_from_rfc3339("1996-12-19T16:39:57-08:00"),
        Some(Timestamp { seconds: 851_042_397, offset: -28_800 })
    );
    assert_eq!(
        timestamp_from_rfc3339("2022-01-01T00:00:00Z"),
        Some(Timestamp { seconds: 1_640_995_200, offset: 0 })
    );
    assert_eq!(
        timestamp_from_rfc3339("2022-01-01T00:00:00.750+01:00"),
        Some(Timestamp { seconds: 1_640_991_600, offset: 3600 })
    );
}

#[test]
fn texts_that_are_no_rfc3339_dates_are_rejected() {
    assert_eq!(timestamp_from_rfc3339(""), None);
    assert_eq!(timestamp_from_rfc3339("2022-01-01"), None);
    assert_eq!(timestamp_from_rfc3339("2022-13-01T00:00:00Z"), None);
    assert_eq!(timestamp_from_rfc3339("2022-01-01T00:00:00"), None);
}

#[test]
fn timestamps_are_ordered_by_their_instant() {
    let early = Timestamp { seconds: 10, offset: 3600 };
    let late = Timestamp { seconds: 11, offset: -3600 };
    assert!(late.is_after(&early));
    assert!(!early.is_after(&late));
    assert!(!early.is_after(&early));
}

#[test]
fn errors_describe_themselves() {
    assert_eq!(ArchiveError::NotFound.describe(), "not found");
    assert_eq!(ArchiveError::Retryable.describe(), "rate limited, retry later");
    assert_eq!(ArchiveError::DataError.describe(), "malformed or rejected data");
    assert_eq!(ArchiveError::CycleDetected.describe(), "reference cycle detected");
}

#[test]
fn the_standard_settings() {
    assert_eq!(
        Settings::standard(),
        Settings { cooldown_seconds: 910, page_size: 100, recent_count: 5, page_ceiling: 32 }
    );
}
