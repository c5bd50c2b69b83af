use guild_core::errors::Error;
use guild_core::privilege::{parse_privilege, privilege_to_text, Privilege};

#[test]
fn round_trip_admin() {
    let text = privilege_to_text(Privilege::Admin);
    assert_eq!(parse_privilege(text.as_str()).unwrap(), Privilege::Admin);
}

#[test]
fn round_trip_manager() {
    let text = privilege_to_text(Privilege::Manager);
    assert_eq!(parse_privilege(text.as_str()).unwrap(), Privilege::Manager);
}

#[test]
fn round_trip_event() {
    let text = privilege_to_text(Privilege::Event);
    assert_eq!(parse_privilege(text.as_str()).unwrap(), Privilege::Event);
}

#[test]
fn tokens_are_exact_lowercase() {
    assert_eq!(privilege_to_text(Privilege::Admin).as_str(), "admin");
    assert_eq!(privilege_to_text(Privilege::Manager).as_str(), "manager");
    assert_eq!(privilege_to_text(Privilege::Event).as_str(), "event");
}

#[test]
fn parse_accepts_exact_tokens() {
    assert_eq!(parse_privilege("admin").unwrap(), Privilege::Admin);
    assert_eq!(parse_privilege("manager").unwrap(), Privilege::Manager);
    assert_eq!(parse_privilege("event").unwrap(), Privilege::Event);
}

#[test]
fn parse_owner_fails_with_unrecognized() {
    let err = parse_privilege("owner").unwrap_err();
    assert_eq!(err, Error::UnrecognizedPrivilege(String::from("owner")));
}

#[test]
fn parse_is_case_sensitive() {
    assert!(matches!(
        parse_privilege("Admin"),
        Err(Error::UnrecognizedPrivilege(_))
    ));
    assert!(matches!(
        parse_privilege(""),
        Err(Error::UnrecognizedPrivilege(_))
    ));
}
