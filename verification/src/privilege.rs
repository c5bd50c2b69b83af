use vstd::prelude::*;
use crate::errors::Error;

verus! {

/// The closed set of privilege kinds assignable to roles within a guild.
/// The set is flat: no privilege implies another, and there is no dynamic
/// registration.
#[derive(Clone, Copy, PartialEq, Eq, Structural, Debug)]
pub enum Privilege {
    Admin,
    Manager,
    Event,
}

/// The exact lowercase token that serializes each privilege.
pub open spec fn privilege_token(p: Privilege) -> Seq<char> {
    match p {
        Privilege::Admin => "admin"@,
        Privilege::Manager => "manager"@,
        Privilege::Event => "event"@,
    }
}

/// The privilege a token denotes: exactly the three lowercase tokens are
/// accepted; everything else is rejected.
pub open spec fn spec_parse_privilege(s: Seq<char>) -> Option<Privilege> {
    if s == "admin"@ {
        Some(Privilege::Admin)
    } else if s == "manager"@ {
        Some(Privilege::Manager)
    } else if s == "event"@ {
        Some(Privilege::Event)
    } else {
        None
    }
}

/// Serialize a privilege as its exact lowercase token.
pub fn privilege_to_text(p: Privilege) -> (r: String)
    ensures
        r@ == privilege_token(p),
{
    match p {
        Privilege::Admin => "admin".to_owned(),
        Privilege::Manager => "manager".to_owned(),
        Privilege::Event => "event".to_owned(),
    }
}

/// Parse a privilege token. Any input other than the three exact lowercase
/// tokens fails with `UnrecognizedPrivilege` carrying the input back;
/// parsing never reports any other error.
pub fn parse_privilege(text: &str) -> (r: Result<Privilege, Error>)
    ensures
        r matches Ok(p) ==> spec_parse_privilege(text@) == Some(p),
        r matches Err(e) ==> spec_parse_privilege(text@) is None
            && (e matches Error::UnrecognizedPrivilege(t) && t@ == text@),
{
    let t: String = text.to_owned();
    if t == "admin".to_owned() {
        Ok(Privilege::Admin)
    } else if t == "manager".to_owned() {
        Ok(Privilege::Manager)
    } else if t == "event".to_owned() {
        Ok(Privilege::Event)
    } else {
        Err(Error::UnrecognizedPrivilege(t))
    }
}

/// Law: serializing a privilege and parsing the token back returns the same
/// privilege, for every privilege.
pub proof fn lemma_privilege_round_trip(p: Privilege)
    ensures
        spec_parse_privilege(privilege_token(p)) == Some(p),
{
    reveal_strlit("admin");
    reveal_strlit("manager");
    reveal_strlit("event");
    assert("admin"@.len() == 5);
    assert("manager"@.len() == 7);
    assert("event"@.len() == 5);
    assert("admin"@[0] == 'a' && "event"@[0] == 'e');
}

} // verus!
