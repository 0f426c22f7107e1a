use meal_vote::command::Command;
use meal_vote::digits::{parse_u16, u16_to_string};
use meal_vote::protocol::{decode, Request};

#[test]
fn decode_list() {
    assert!(matches!(decode("l"), Request::ListDinners));
}

#[test]
fn decode_get_dinner() {
    match decode("g\\Pizza") {
        Request::GetDinner { name } => assert_eq!(name, "Pizza"),
        _ => panic!("expected a dinner query"),
    }
}

#[test]
fn decode_get_person() {
    match decode("h\\Alice") {
        Request::GetPerson { name } => assert_eq!(name, "Alice"),
        _ => panic!("expected a person query"),
    }
}

#[test]
fn decode_create_user() {
    match decode("c\\Alice") {
        Request::Mutate { command: Command::CreateUser { name } } => assert_eq!(name, "Alice"),
        _ => panic!("expected a create-user command"),
    }
}

#[test]
fn decode_vote() {
    match decode("v\\Alice\\Pizza") {
        Request::Mutate { command: Command::Vote { user, dinner } } => {
            assert_eq!(user, "Alice");
            assert_eq!(dinner, "Pizza");
        },
        _ => panic!("expected a vote command"),
    }
}

#[test]
fn decode_unvote() {
    match decode("u\\Alice\\Pizza") {
        Request::Mutate { command: Command::Unvote { user, dinner } } => {
            assert_eq!(user, "Alice");
            assert_eq!(dinner, "Pizza");
        },
        _ => panic!("expected an unvote command"),
    }
}

#[test]
fn decode_new_dinner() {
    match decode("n\\Bob\\Tacos") {
        Request::Mutate { command: Command::NewDinner { user, name } } => {
            assert_eq!(user, "Bob");
            assert_eq!(name, "Tacos");
        },
        _ => panic!("expected a new-dinner command"),
    }
}

#[test]
fn decode_rename_dinner() {
    match decode("s\\Bob\\Tacos\\Nachos") {
        Request::Mutate { command: Command::RenameDinner { user, from, to } } => {
            assert_eq!(user, "Bob");
            assert_eq!(from, "Tacos");
            assert_eq!(to, "Nachos");
        },
        _ => panic!("expected a rename command"),
    }
}

#[test]
fn decode_edit_short_and_long() {
    match decode("t\\Bob\\Tacos\\crunchy") {
        Request::Mutate { command: Command::EditShort { user, dinner, text } } => {
            assert_eq!(user, "Bob");
            assert_eq!(dinner, "Tacos");
            assert_eq!(text, "crunchy");
        },
        _ => panic!("expected an edit-short command"),
    }
    match decode("m\\Bob\\Tacos\\very crunchy") {
        Request::Mutate { command: Command::EditLong { user, dinner, text } } => {
            assert_eq!(user, "Bob");
            assert_eq!(dinner, "Tacos");
            assert_eq!(text, "very crunchy");
        },
        _ => panic!("expected an edit-long command"),
    }
}

#[test]
fn decode_edit_photo_bytes() {
    match decode("p\\Bob\\Tacos\\raw data") {
        Request::Mutate { command: Command::EditPhoto { user, dinner, photo } } => {
            assert_eq!(user, "Bob");
            assert_eq!(dinner, "Tacos");
            assert_eq!(photo, b"raw data".to_vec());
        },
        _ => panic!("expected an edit-photo command"),
    }
}

#[test]
fn decode_delete_dinner() {
    match decode("d\\Bob\\Tacos") {
        Request::Mutate { command: Command::DeleteDinner { user, dinner } } => {
            assert_eq!(user, "Bob");
            assert_eq!(dinner, "Tacos");
        },
        _ => panic!("expected a delete command"),
    }
}

#[test]
fn decode_set_all_votes() {
    match decode("z\\Bob\\3") {
        Request::Mutate { command: Command::SetAllVotes { user, count } } => {
            assert_eq!(user, "Bob");
            assert_eq!(count, 3);
        },
        _ => panic!("expected a set-all-votes command"),
    }
}

#[test]
fn decode_set_all_votes_bad_count_is_malformed() {
    assert!(matches!(decode("z\\Bob\\abc"), Request::Malformed));
    assert!(matches!(decode("z\\Bob\\"), Request::Malformed));
    assert!(matches!(decode("z\\Bob\\70000"), Request::Malformed));
    assert!(matches!(decode("z\\Bob\\-1"), Request::Malformed));
}

#[test]
fn decode_set_all_votes_count_bounds() {
    match decode("z\\Bob\\65535") {
        Request::Mutate { command: Command::SetAllVotes { count, .. } } => {
            assert_eq!(count, 65535)
        },
        _ => panic!("expected a set-all-votes command"),
    }
    assert!(matches!(decode("z\\Bob\\65536"), Request::Malformed));
}

#[test]
fn decode_empty_body_is_malformed() {
    assert!(matches!(decode(""), Request::Malformed));
}

#[test]
fn decode_unknown_opcode_is_malformed() {
    assert!(matches!(decode("q\\x"), Request::Malformed));
    assert!(matches!(decode("zz\\Bob\\3"), Request::Malformed));
}

#[test]
fn decode_wrong_field_count_is_malformed() {
    assert!(matches!(decode("l\\extra"), Request::Malformed));
    assert!(matches!(decode("v\\Alice"), Request::Malformed));
    assert!(matches!(decode("v\\Alice\\Pizza\\more"), Request::Malformed));
    assert!(matches!(decode("g"), Request::Malformed));
}

#[test]
fn decode_empty_fields_are_fields() {
    match decode("v\\\\") {
        Request::Mutate { command: Command::Vote { user, dinner } } => {
            assert_eq!(user, "");
            assert_eq!(dinner, "");
        },
        _ => panic!("expected a vote command"),
    }
}

#[test]
fn u16_rendering() {
    assert_eq!(u16_to_string(0), "0");
    assert_eq!(u16_to_string(7), "7");
    assert_eq!(u16_to_string(42), "42");
    assert_eq!(u16_to_string(65535), "65535");
}

#[test]
fn u16_parsing() {
    assert_eq!(parse_u16("0"), Some(0));
    assert_eq!(parse_u16("042"), Some(42));
    assert_eq!(parse_u16("65535"), Some(65535));
    assert_eq!(parse_u16("65536"), None);
    assert_eq!(parse_u16(""), None);
    assert_eq!(parse_u16("+3"), None);
    assert_eq!(parse_u16("3a"), None);
}
