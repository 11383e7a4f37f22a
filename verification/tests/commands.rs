use std::str::FromStr;

use iggy::cli::{
    parse_format, CreatePersonalAccessTokenCmd, DeletePersonalAccessTokenCmd, Format,
    PersonalAccessTokenExpiry,
};
use iggy::commands::GetSnapshot;
use iggy::error::Error;
use iggy::identifier::{IdKind, Identifier};
use iggy::logging::{get_filtering_level, parse_level, LogLevel};
use iggy::permissioner::{GlobalPermissions, Permissioner};

fn permissions(manage_users: bool, read_users: bool) -> GlobalPermissions {
    GlobalPermissions {
        manage_users,
        read_users,
        manage_streams: false,
        read_streams: false,
        poll_messages: false,
        send_messages: false,
    }
}

#[test]
fn numeric_identifiers_round_trip() {
    let id = Identifier::numeric(42).unwrap();
    assert_eq!(id.kind, IdKind::Numeric);
    assert_eq!(id.as_string(), "42");
    let bytes = id.as_bytes();
    assert_eq!(bytes, vec![1u8, 4, 42, 0, 0, 0]);
    let back = Identifier::from_bytes(&bytes).unwrap();
    assert_eq!(back, id);

    assert_eq!(Identifier::numeric(0).unwrap_err(), Error::InvalidIdentifier);
}

#[test]
fn named_identifiers_round_trip() {
    let id = Identifier::named("orders").unwrap();
    assert_eq!(id.kind, IdKind::Named);
    assert_eq!(id.as_string(), "orders");
    let bytes = id.as_bytes();
    assert_eq!(bytes[0], 2);
    assert_eq!(bytes[1], 6);
    let back = Identifier::from_bytes(&bytes).unwrap();
    assert_eq!(back, id);

    assert_eq!(Identifier::named("").unwrap_err(), Error::InvalidIdentifier);
    let id = Identifier::from_str_value("orders").unwrap();
    assert_eq!(id.kind, IdKind::Named);
    let id = Identifier::from_str_value("17").unwrap();
    assert_eq!(id.kind, IdKind::Numeric);
}

#[test]
fn identifier_rejects_malformed_bytes() {
    assert_eq!(Identifier::from_bytes(&[1, 4]).unwrap_err(), Error::InvalidIdentifier);
    assert_eq!(
        Identifier::from_bytes(&[3, 1, 65]).unwrap_err(),
        Error::InvalidIdentifier
    );
    assert_eq!(
        Identifier::from_bytes(&[1, 2, 5, 0]).unwrap_err(),
        Error::InvalidIdentifier
    );
    // a zero numeric identifier is not valid on the wire either
    assert_eq!(
        Identifier::from_bytes(&[1, 4, 0, 0, 0, 0]).unwrap_err(),
        Error::InvalidIdentifier
    );
}

#[test]
fn get_snapshot_round_trips() {
    let command = GetSnapshot {
        file_save_location: "snapshots/server.zip".to_string(),
    };
    assert!(command.validate().is_ok());
    let bytes = command.as_bytes();
    let back = GetSnapshot::from_bytes(&bytes).unwrap();
    assert_eq!(back, command);
    assert_eq!(back.as_string(), "snapshots/server.zip");

    let parsed = GetSnapshot::from_str("out.zip").unwrap();
    assert_eq!(parsed.file_save_location, "out.zip");
    assert_eq!(
        GetSnapshot::from_str("a|b").unwrap_err(),
        Error::InvalidCommand
    );

    // any valid UTF-8 location round-trips, not only ASCII
    let accented = String::from_utf8(vec![0xC3, 0xA9]).unwrap();
    let command = GetSnapshot {
        file_save_location: accented.clone(),
    };
    let bytes = command.as_bytes();
    assert_eq!(bytes, vec![0xC3, 0xA9]);
    let back = GetSnapshot::from_bytes(&bytes).unwrap();
    assert_eq!(back.file_save_location, accented);

    // a lone continuation byte is not UTF-8
    assert_eq!(
        GetSnapshot::from_bytes(&[0xC3]).unwrap_err(),
        Error::InvalidCommand
    );
}

#[test]
fn format_markers_parse() {
    assert_eq!(parse_format("b"), Format::Binary);
    assert_eq!(parse_format("binary"), Format::Binary);
    assert_eq!(parse_format("s"), Format::Text);
    assert_eq!(parse_format("string"), Format::Text);
    assert_eq!(parse_format("yaml"), Format::Unspecified);
    assert_eq!(Format::default(), Format::Unspecified);
}

#[test]
fn personal_access_token_commands_carry_their_requests() {
    let create = CreatePersonalAccessTokenCmd::new(
        "ci-token".to_string(),
        Some(PersonalAccessTokenExpiry::ExpireDuration(3600)),
        false,
    );
    assert_eq!(create.create_token.name, "ci-token");
    assert_eq!(create.create_token.expiry, Some(3600));
    assert!(!create.quiet_mode);

    let never = CreatePersonalAccessTokenCmd::new(
        "forever".to_string(),
        Some(PersonalAccessTokenExpiry::NeverExpire),
        true,
    );
    assert_eq!(never.create_token.expiry, None);
    assert!(never.quiet_mode);

    let absent = CreatePersonalAccessTokenCmd::new("plain".to_string(), None, false);
    assert_eq!(absent.create_token.expiry, None);

    let delete = DeletePersonalAccessTokenCmd::new("ci-token".to_string());
    assert_eq!(delete.delete_token.name, "ci-token");
}

#[test]
fn permissioner_gates_user_operations() {
    let mut gate = Permissioner::new();
    assert_eq!(gate.get_user(1).unwrap_err(), Error::Unauthorized);

    gate.set_permissions(1, permissions(true, false));
    gate.set_permissions(2, permissions(false, true));

    assert!(gate.create_user(1).is_ok());
    assert!(gate.delete_user(1).is_ok());
    assert!(gate.update_user(1).is_ok());
    assert!(gate.update_permissions(1).is_ok());
    assert!(gate.change_password(1).is_ok());
    assert_eq!(gate.get_user(1).unwrap_err(), Error::Unauthorized);

    assert!(gate.get_user(2).is_ok());
    assert!(gate.get_users(2).is_ok());
    assert_eq!(gate.create_user(2).unwrap_err(), Error::Unauthorized);

    // permissions can be replaced: the latest record wins
    gate.set_permissions(2, permissions(true, true));
    assert!(gate.create_user(2).is_ok());
}

#[test]
fn filtering_level_prefers_the_environment() {
    assert_eq!(parse_level("info"), Some(LogLevel::Info));
    assert_eq!(parse_level("TRACE"), Some(LogLevel::Trace));
    assert_eq!(parse_level("Warn"), Some(LogLevel::Warn));
    assert_eq!(parse_level("loud"), None);
    // the numeric forms, coarsest first
    assert_eq!(parse_level("0"), Some(LogLevel::Off));
    assert_eq!(parse_level("2"), Some(LogLevel::Warn));
    assert_eq!(parse_level("5"), Some(LogLevel::Trace));
    assert_eq!(get_filtering_level(Some("2"), Some("error")), LogLevel::Warn);

    assert_eq!(get_filtering_level(Some("debug"), Some("error")), LogLevel::Debug);
    assert_eq!(get_filtering_level(None, Some("error")), LogLevel::Error);
    assert_eq!(get_filtering_level(None, None), LogLevel::Info);
    assert_eq!(get_filtering_level(Some("bogus"), Some("error")), LogLevel::Info);
    assert_eq!(get_filtering_level(None, Some("bogus")), LogLevel::Info);
}

#[test]
fn error_labels_are_stable() {
    assert_eq!(Error::NotFound.as_str(), "not found");
    assert_eq!(Error::AlreadyExists.as_str(), "already exists");
    assert_eq!(Error::OffsetOutOfRange.as_str(), "offset out of range");
    assert_eq!(Error::WriteFailed.as_str(), "write failed");
    assert_eq!(Error::ReadFailed.as_str(), "read failed");
    assert_eq!(Error::Unauthenticated.as_str(), "unauthenticated");
    assert_eq!(Error::Unauthorized.as_str(), "unauthorized");
    assert_eq!(Error::CorruptState.as_str(), "corrupt state");
    assert_eq!(Error::CannotCreateDirectory.as_str(), "cannot create directory");
    assert_eq!(Error::InvalidCommand.as_str(), "invalid command");
    assert_eq!(Error::InvalidIdentifier.as_str(), "invalid identifier");
}
