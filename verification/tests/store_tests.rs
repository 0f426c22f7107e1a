use meal_vote::command::Command;
use meal_vote::protocol::{get_dinner, get_person, list_dinners, respond, Request};
use meal_vote::store::{DatabaseData, DatabaseDataSerde, Dinner, DinnerKV, Person, PersonKV};

/// A store provisioned out of band, the way admins come to exist: through
/// the snapshot, never through a command.
fn provisioned(people: &[(&str, u16, bool)], dinners: &[&str]) -> DatabaseData {
    let snapshot = DatabaseDataSerde {
        dinners: dinners
            .iter()
            .map(|name| DinnerKV {
                key: name.to_string(),
                value: Dinner {
                    short: "-".to_string(),
                    long: "-".to_string(),
                    photo: None,
                    vote: None,
                },
            })
            .collect(),
        people: people
            .iter()
            .map(|(name, votes, admin)| PersonKV {
                key: name.to_string(),
                value: Person { votes: *votes, admin: *admin },
            })
            .collect(),
    };
    DatabaseData::from_serde(snapshot)
}

fn person(db: &DatabaseData, name: &str) -> Person {
    *db.people.get(&name.to_string()).expect("person should exist")
}

fn voter(db: &DatabaseData, dinner: &str) -> Option<String> {
    db.dinners.get(&dinner.to_string()).expect("dinner should exist").vote.clone()
}

#[test]
fn scenario_two_users_two_dinners() {
    let mut db = provisioned(&[("Alice", 2, false), ("Bob", 0, true)], &[]);

    db.apply(&Command::NewDinner { user: "Bob".to_string(), name: "Pizza".to_string() });
    db.apply(&Command::NewDinner { user: "Bob".to_string(), name: "Tacos".to_string() });
    assert!(db.dinners.get(&"Pizza".to_string()).is_some());
    assert!(db.dinners.get(&"Tacos".to_string()).is_some());

    // Alice votes Pizza: slot taken, one vote spent.
    db.apply(&Command::Vote { user: "Alice".to_string(), dinner: "Pizza".to_string() });
    assert_eq!(voter(&db, "Pizza"), Some("Alice".to_string()));
    assert_eq!(person(&db, "Alice").votes, 1);

    // Voting the same dinner again is a no-op: the slot is occupied.
    db.apply(&Command::Vote { user: "Alice".to_string(), dinner: "Pizza".to_string() });
    assert_eq!(voter(&db, "Pizza"), Some("Alice".to_string()));
    assert_eq!(person(&db, "Alice").votes, 1);

    // Alice votes Tacos: last vote spent.
    db.apply(&Command::Vote { user: "Alice".to_string(), dinner: "Tacos".to_string() });
    assert_eq!(voter(&db, "Tacos"), Some("Alice".to_string()));
    assert_eq!(person(&db, "Alice").votes, 0);

    // Voting a dinner that does not exist is silently dropped.
    db.apply(&Command::Vote { user: "Alice".to_string(), dinner: "Sushi".to_string() });
    assert_eq!(person(&db, "Alice").votes, 0);
    assert!(db.dinners.get(&"Sushi".to_string()).is_none());

    // Bob, an admin, revokes Alice's Pizza vote: the slot clears, and no
    // one is refunded — only the acting user is ever refunded, and never
    // an admin.
    db.apply(&Command::Unvote { user: "Bob".to_string(), dinner: "Pizza".to_string() });
    assert_eq!(voter(&db, "Pizza"), None);
    assert_eq!(person(&db, "Alice").votes, 0);
    assert_eq!(person(&db, "Bob").votes, 0);
}

#[test]
fn vote_accounting_over_a_sequence() {
    // Two casts and one revoke by the same non-admin user on distinct
    // dinners: 3 - 2 + 1.
    let mut db = provisioned(&[("Alice", 3, false), ("Bob", 0, true)], &["A", "B"]);
    db.apply(&Command::Vote { user: "Alice".to_string(), dinner: "A".to_string() });
    db.apply(&Command::Vote { user: "Alice".to_string(), dinner: "B".to_string() });
    db.apply(&Command::Unvote { user: "Alice".to_string(), dinner: "A".to_string() });
    assert_eq!(person(&db, "Alice").votes, 2);
    assert_eq!(voter(&db, "A"), None);
    assert_eq!(voter(&db, "B"), Some("Alice".to_string()));
}

#[test]
fn vote_without_votes_left_is_refused() {
    let mut db = provisioned(&[("Alice", 0, false)], &["A"]);
    db.apply(&Command::Vote { user: "Alice".to_string(), dinner: "A".to_string() });
    assert_eq!(voter(&db, "A"), None);
    assert_eq!(person(&db, "Alice").votes, 0);
}

#[test]
fn admin_votes_for_free() {
    let mut db = provisioned(&[("Bob", 0, true)], &["A"]);
    db.apply(&Command::Vote { user: "Bob".to_string(), dinner: "A".to_string() });
    assert_eq!(voter(&db, "A"), Some("Bob".to_string()));
    assert_eq!(person(&db, "Bob").votes, 0);
    db.apply(&Command::Unvote { user: "Bob".to_string(), dinner: "A".to_string() });
    assert_eq!(voter(&db, "A"), None);
    assert_eq!(person(&db, "Bob").votes, 0);
}

#[test]
fn unvote_by_non_holder_is_refused() {
    let mut db = provisioned(&[("Alice", 1, false), ("Carol", 1, false)], &["A"]);
    db.apply(&Command::Vote { user: "Alice".to_string(), dinner: "A".to_string() });
    db.apply(&Command::Unvote { user: "Carol".to_string(), dinner: "A".to_string() });
    assert_eq!(voter(&db, "A"), Some("Alice".to_string()));
    assert_eq!(person(&db, "Carol").votes, 1);
}

#[test]
fn unvote_refunds_the_holder() {
    let mut db = provisioned(&[("Alice", 1, false)], &["A"]);
    db.apply(&Command::Vote { user: "Alice".to_string(), dinner: "A".to_string() });
    assert_eq!(person(&db, "Alice").votes, 0);
    db.apply(&Command::Unvote { user: "Alice".to_string(), dinner: "A".to_string() });
    assert_eq!(voter(&db, "A"), None);
    assert_eq!(person(&db, "Alice").votes, 1);
}

#[test]
fn unvote_at_counter_maximum_is_refused() {
    // The refund would overflow the counter, so the revoke is refused
    // outright and the slot keeps its vote.
    let mut db = provisioned(&[("Alice", 65535, false)], &["A"]);
    db.apply(&Command::Vote { user: "Alice".to_string(), dinner: "A".to_string() });
    assert_eq!(person(&db, "Alice").votes, 65534);
    db.apply(&Command::SetAllVotes { user: "Alice".to_string(), count: 0 });  // refused: not admin
    assert_eq!(person(&db, "Alice").votes, 65534);
    let mut db2 = provisioned(&[("Alice", 65535, false), ("Bob", 0, true)], &["A", "B"]);
    db2.apply(&Command::Vote { user: "Alice".to_string(), dinner: "A".to_string() });
    db2.apply(&Command::SetAllVotes { user: "Bob".to_string(), count: 65535 });
    db2.apply(&Command::Unvote { user: "Alice".to_string(), dinner: "A".to_string() });
    assert_eq!(voter(&db2, "A"), Some("Alice".to_string()));
    assert_eq!(person(&db2, "Alice").votes, 65535);
}

#[test]
fn create_user_starts_with_nothing() {
    let mut db = DatabaseData::new();
    db.apply(&Command::CreateUser { name: "Alice".to_string() });
    let p = person(&db, "Alice");
    assert_eq!(p.votes, 0);
    assert!(!p.admin);
}

#[test]
fn create_user_does_not_overwrite() {
    let mut db = provisioned(&[("Alice", 5, false)], &[]);
    db.apply(&Command::CreateUser { name: "Alice".to_string() });
    assert_eq!(person(&db, "Alice").votes, 5);
}

#[test]
fn non_admin_cannot_curate() {
    let mut db = provisioned(&[("Alice", 2, false)], &["A"]);
    db.apply(&Command::NewDinner { user: "Alice".to_string(), name: "B".to_string() });
    assert!(db.dinners.get(&"B".to_string()).is_none());
    db.apply(&Command::DeleteDinner { user: "Alice".to_string(), dinner: "A".to_string() });
    assert!(db.dinners.get(&"A".to_string()).is_some());
    db.apply(&Command::EditShort {
        user: "Alice".to_string(),
        dinner: "A".to_string(),
        text: "nope".to_string(),
    });
    assert_eq!(db.dinners.get(&"A".to_string()).unwrap().short, "-");
}

#[test]
fn rename_keeps_the_dinner() {
    let mut db = provisioned(&[("Bob", 0, true), ("Alice", 1, false)], &["A"]);
    db.apply(&Command::Vote { user: "Alice".to_string(), dinner: "A".to_string() });
    db.apply(&Command::EditShort {
        user: "Bob".to_string(),
        dinner: "A".to_string(),
        text: "tasty".to_string(),
    });
    db.apply(&Command::RenameDinner {
        user: "Bob".to_string(),
        from: "A".to_string(),
        to: "B".to_string(),
    });
    assert!(db.dinners.get(&"A".to_string()).is_none());
    let d = db.dinners.get(&"B".to_string()).expect("renamed dinner");
    assert_eq!(d.short, "tasty");
    assert_eq!(d.vote, Some("Alice".to_string()));
    // Renaming a dinner that does not exist does nothing.
    db.apply(&Command::RenameDinner {
        user: "Bob".to_string(),
        from: "A".to_string(),
        to: "C".to_string(),
    });
    assert!(db.dinners.get(&"C".to_string()).is_none());
}

#[test]
fn edits_set_their_fields() {
    let mut db = provisioned(&[("Bob", 0, true)], &["A"]);
    db.apply(&Command::EditShort {
        user: "Bob".to_string(),
        dinner: "A".to_string(),
        text: "short text".to_string(),
    });
    db.apply(&Command::EditLong {
        user: "Bob".to_string(),
        dinner: "A".to_string(),
        text: "long text".to_string(),
    });
    db.apply(&Command::EditPhoto {
        user: "Bob".to_string(),
        dinner: "A".to_string(),
        photo: vec![1, 2, 3],
    });
    let d = db.dinners.get(&"A".to_string()).unwrap();
    assert_eq!(d.short, "short text");
    assert_eq!(d.long, "long text");
    assert_eq!(d.photo, Some(vec![1, 2, 3]));
    assert_eq!(d.vote, None);
}

#[test]
fn delete_removes_the_dinner() {
    let mut db = provisioned(&[("Bob", 0, true)], &["A", "B"]);
    db.apply(&Command::DeleteDinner { user: "Bob".to_string(), dinner: "A".to_string() });
    assert!(db.dinners.get(&"A".to_string()).is_none());
    assert!(db.dinners.get(&"B".to_string()).is_some());
}

#[test]
fn set_all_votes_resets_everyone() {
    let mut db = provisioned(
        &[("Alice", 1, false), ("Bob", 0, true), ("Carol", 7, false)],
        &[],
    );
    db.apply(&Command::SetAllVotes { user: "Bob".to_string(), count: 4 });
    assert_eq!(person(&db, "Alice").votes, 4);
    assert_eq!(person(&db, "Bob").votes, 4);
    assert_eq!(person(&db, "Carol").votes, 4);
    assert!(person(&db, "Bob").admin);
    assert!(!person(&db, "Alice").admin);
}

#[test]
fn voters_always_exist() {
    // The semantic invariant, observed on concrete runs: every recorded
    // voter names an existing person.
    let mut db = provisioned(&[("Alice", 2, false), ("Bob", 0, true)], &["A", "B"]);
    db.apply(&Command::Vote { user: "Alice".to_string(), dinner: "A".to_string() });
    db.apply(&Command::Vote { user: "Bob".to_string(), dinner: "B".to_string() });
    db.apply(&Command::RenameDinner {
        user: "Bob".to_string(),
        from: "A".to_string(),
        to: "C".to_string(),
    });
    for i in 0..db.dinners.len() {
        let entry = db.dinners.at(i);
        if let Some(v) = &entry.1.vote {
            assert!(db.people.get(v).is_some());
        }
    }
}

#[test]
fn snapshot_round_trip() {
    let mut db = provisioned(&[("Alice", 2, false), ("Bob", 0, true)], &["A", "B"]);
    db.apply(&Command::Vote { user: "Alice".to_string(), dinner: "B".to_string() });
    db.apply(&Command::EditPhoto {
        user: "Bob".to_string(),
        dinner: "A".to_string(),
        photo: vec![9, 8, 7],
    });
    let reloaded = DatabaseData::from_serde(db.to_serde());
    assert_eq!(db.dinners.len(), reloaded.dinners.len());
    for i in 0..db.dinners.len() {
        let a = db.dinners.at(i);
        let b = reloaded.dinners.at(i);
        assert_eq!(a.0, b.0);
        assert_eq!(a.1.short, b.1.short);
        assert_eq!(a.1.long, b.1.long);
        assert_eq!(a.1.photo, b.1.photo);
        assert_eq!(a.1.vote, b.1.vote);
    }
    assert_eq!(db.people.len(), reloaded.people.len());
    for i in 0..db.people.len() {
        let a = db.people.at(i);
        let b = reloaded.people.at(i);
        assert_eq!(a.0, b.0);
        assert_eq!(a.1, b.1);
    }
}

#[test]
fn snapshot_with_repeated_keys_keeps_the_later_entry() {
    let snapshot = DatabaseDataSerde {
        dinners: vec![],
        people: vec![
            PersonKV { key: "Alice".to_string(), value: Person { votes: 1, admin: false } },
            PersonKV { key: "Alice".to_string(), value: Person { votes: 9, admin: false } },
        ],
    };
    let db = DatabaseData::from_serde(snapshot);
    assert_eq!(db.people.len(), 1);
    assert_eq!(person(&db, "Alice").votes, 9);
}

#[test]
fn listing_and_detail_queries() {
    let mut db = provisioned(&[("Alice", 2, false), ("Bob", 0, true)], &["Pizza", "Tacos"]);
    db.apply(&Command::Vote { user: "Alice".to_string(), dinner: "Pizza".to_string() });
    db.apply(&Command::EditShort {
        user: "Bob".to_string(),
        dinner: "Tacos".to_string(),
        text: "crunchy".to_string(),
    });
    assert_eq!(list_dinners(&db), "Pizza\\-\\Alice\nTacos\\crunchy");
    db.apply(&Command::EditLong {
        user: "Bob".to_string(),
        dinner: "Tacos".to_string(),
        text: "very crunchy".to_string(),
    });
    assert_eq!(get_dinner(&db, &"Tacos".to_string()), "crunchy\rvery crunchy\r\r");
    assert_eq!(get_dinner(&db, &"Sushi".to_string()), "");
    assert_eq!(get_person(&db, &"Alice".to_string()), "1\\FALSE");
    assert_eq!(get_person(&db, &"Bob".to_string()), "0\\TRUE");
    assert_eq!(get_person(&db, &"Nobody".to_string()), "");
}

#[test]
fn empty_listing_is_empty() {
    let db = DatabaseData::new();
    assert_eq!(list_dinners(&db), "");
}

#[test]
fn responses_follow_the_request() {
    let db = provisioned(&[("Alice", 2, false)], &["Pizza"]);
    assert_eq!(respond(&db, &decode_helper("l")), "Pizza\\-");
    assert_eq!(respond(&db, &decode_helper("h\\Alice")), "2\\FALSE");
    // A mutating request is answered immediately with an empty body,
    // before it is ever applied; a malformed one the same.
    assert_eq!(respond(&db, &decode_helper("v\\Alice\\Pizza")), "");
    assert_eq!(respond(&db, &decode_helper("nonsense")), "");
    assert!(matches!(decode_helper("nonsense"), Request::Malformed));
}

fn decode_helper(body: &str) -> Request {
    meal_vote::protocol::decode(body)
}
