use guild_core::errors::Error;
use guild_core::store::Store;

#[test]
fn create_then_exists_and_reads() {
    let mut store = Store::new();
    assert!(!store.guild_exists(42));
    assert_eq!(store.guild_new(42, true, None, None), Ok(()));
    assert!(store.guild_exists(42));
    assert_eq!(store.get_advertise(42), Ok(true));
    assert_eq!(store.get_welcome_message(42), Ok(None));
    assert_eq!(store.get_goodbye_message(42), Ok(None));
    assert_eq!(store.get_admin_chan(42), Ok(None));
}

#[test]
fn create_twice_fails_and_keeps_first() {
    let mut store = Store::new();
    assert_eq!(
        store.guild_new(1, true, Some(String::from("hello")), None),
        Ok(())
    );
    assert_eq!(
        store.guild_new(1, false, Some(String::from("other")), None),
        Err(Error::AlreadyExists(1))
    );
    assert_eq!(store.get_advertise(1), Ok(true));
    assert_eq!(
        store.get_welcome_message(1),
        Ok(Some(String::from("hello")))
    );
}

#[test]
fn welcome_and_goodbye_are_independent() {
    let mut store = Store::new();
    assert_eq!(
        store.guild_new(
            2,
            false,
            Some(String::from("welcome!")),
            Some(String::from("goodbye!"))
        ),
        Ok(())
    );
    assert_eq!(
        store.get_welcome_message(2),
        Ok(Some(String::from("welcome!")))
    );
    assert_eq!(
        store.get_goodbye_message(2),
        Ok(Some(String::from("goodbye!")))
    );
}

#[test]
fn set_then_clear_welcome_leaves_absent() {
    let mut store = Store::new();
    assert_eq!(store.guild_new(3, false, None, None), Ok(()));
    assert_eq!(
        store.set_welcome_message(3, Some(String::from("hi there"))),
        Ok(())
    );
    assert_eq!(
        store.get_welcome_message(3),
        Ok(Some(String::from("hi there")))
    );
    assert_eq!(store.set_welcome_message(3, None), Ok(()));
    assert_eq!(store.get_welcome_message(3), Ok(None));
}

#[test]
fn set_then_clear_goodbye_leaves_absent() {
    let mut store = Store::new();
    assert_eq!(store.guild_new(3, false, None, None), Ok(()));
    assert_eq!(
        store.set_goodbye_message(3, Some(String::from("bye"))),
        Ok(())
    );
    assert_eq!(store.set_goodbye_message(3, None), Ok(()));
    assert_eq!(store.get_goodbye_message(3), Ok(None));
}

#[test]
fn set_admin_chan_and_advertise() {
    let mut store = Store::new();
    assert_eq!(store.guild_new(4, false, None, None), Ok(()));
    assert_eq!(store.set_admin_chan(4, Some(777)), Ok(()));
    assert_eq!(store.get_admin_chan(4), Ok(Some(777)));
    assert_eq!(store.set_admin_chan(4, None), Ok(()));
    assert_eq!(store.get_admin_chan(4), Ok(None));
    assert_eq!(store.set_advertise(4, true), Ok(()));
    assert_eq!(store.get_advertise(4), Ok(true));
}

#[test]
fn missing_guild_is_not_found() {
    let mut store = Store::new();
    assert_eq!(store.get_advertise(9), Err(Error::NotFound(9)));
    assert_eq!(store.get_admin_chan(9), Err(Error::NotFound(9)));
    assert_eq!(store.get_welcome_message(9), Err(Error::NotFound(9)));
    assert_eq!(store.get_goodbye_message(9), Err(Error::NotFound(9)));
    assert_eq!(store.set_advertise(9, true), Err(Error::NotFound(9)));
    assert_eq!(store.set_admin_chan(9, Some(1)), Err(Error::NotFound(9)));
    assert_eq!(store.set_welcome_message(9, None), Err(Error::NotFound(9)));
    assert_eq!(store.set_goodbye_message(9, None), Err(Error::NotFound(9)));
}

#[test]
fn overlong_message_is_rejected_without_side_effect() {
    let mut store = Store::new();
    let long = "a".repeat(2001);
    assert_eq!(
        store.guild_new(5, false, Some(long.clone()), None),
        Err(Error::MessageTooLong)
    );
    assert!(!store.guild_exists(5));
    assert_eq!(
        store.guild_new(5, false, None, Some(long)),
        Err(Error::MessageTooLong)
    );
    assert!(!store.guild_exists(5));
    let edge = "a".repeat(2000);
    assert_eq!(store.guild_new(5, false, Some(edge.clone()), None), Ok(()));
    assert_eq!(store.get_welcome_message(5), Ok(Some(edge)));
}

#[test]
fn empty_message_is_valid_and_distinct_from_absence() {
    let mut store = Store::new();
    assert_eq!(
        store.guild_new(6, false, Some(String::new()), None),
        Ok(())
    );
    assert_eq!(store.get_welcome_message(6), Ok(Some(String::new())));
    assert_eq!(store.get_goodbye_message(6), Ok(None));
}
