use birthday_bot::Birthday;
use birthday_bot::Database;
use birthday_bot::RemoveBirthday;

fn bd(user_id: u64, group_id: i64, year: u32, month: u8, day: u8) -> Birthday {
    Birthday {
        user_id,
        group_id,
        user_lang: String::from("en"),
        year,
        month,
        day,
        timezone: 0,
    }
}

#[test]
fn add_twice_same_key_dedups() {
    let mut db = Database::new();
    let first = db.add_birthday(bd(7, 100, 1990, 2, 30));
    let second = db.add_birthday(bd(7, 100, 1991, 3, 1));
    assert!(first);
    assert!(!second);
    // Exactly one stored row for the key, with the first call's date.
    let rows = db.get_birthdays(2, 30);
    assert_eq!(rows.len(), 1);
    assert_eq!(rows[0].user_id, 7);
    assert_eq!(rows[0].group_id, 100);
    assert_eq!(rows[0].year, 1990);
    let other = db.get_birthdays(3, 1);
    assert_eq!(other.len(), 0);
}

#[test]
fn february_thirtieth_is_accepted() {
    let mut db = Database::new();
    assert!(db.add_birthday(bd(1, 1, 2000, 2, 30)));
    assert_eq!(db.get_birthdays(2, 30).len(), 1);
}

#[test]
fn same_user_different_groups_are_distinct_rows() {
    let mut db = Database::new();
    assert!(db.add_birthday(bd(7, 100, 1990, 1, 1)));
    assert!(db.add_birthday(bd(7, 200, 1990, 1, 1)));
    assert_eq!(db.get_birthdays(1, 1).len(), 2);
}

#[test]
fn effective_offset_prefers_user_then_group_then_zero() {
    let mut db = Database::new();
    assert_eq!(db.get_timezone(7, 100), 0);
    db.set_group_timezone(100, -3);
    assert_eq!(db.get_timezone(7, 100), -3);
    db.set_user_timezone(7, 5);
    assert_eq!(db.get_timezone(7, 100), 5);
    // Another user in the same group still sees the group override.
    assert_eq!(db.get_timezone(8, 100), -3);
}

#[test]
fn offset_is_captured_at_registration_not_later() {
    let mut db = Database::new();
    db.set_user_timezone(7, 5);
    assert!(db.add_birthday(bd(7, 100, 1990, 6, 15)));
    db.set_user_timezone(7, -11);
    let rows = db.get_birthdays(6, 15);
    assert_eq!(rows.len(), 1);
    assert_eq!(rows[0].timezone, 5);
}

#[test]
fn replacing_an_override_keeps_other_entries() {
    let mut db = Database::new();
    db.set_user_timezone(1, 1);
    db.set_user_timezone(2, 2);
    db.set_user_timezone(1, -8);
    assert_eq!(db.get_timezone(1, 0), -8);
    assert_eq!(db.get_timezone(2, 0), 2);
}

#[test]
fn birthdays_on_matches_exactly() {
    let mut db = Database::new();
    assert!(db.add_birthday(bd(1, 1, 1992, 2, 29)));
    assert!(db.add_birthday(bd(2, 1, 1990, 3, 1)));
    // A leap-day record is not returned for March the 1st.
    let rows = db.get_birthdays(3, 1);
    assert_eq!(rows.len(), 1);
    assert_eq!(rows[0].user_id, 2);
    let leap = db.get_birthdays(2, 29);
    assert_eq!(leap.len(), 1);
    assert_eq!(leap[0].user_id, 1);
}

#[test]
fn remove_by_user_spans_groups_and_spares_others() {
    let mut db = Database::new();
    assert!(db.add_birthday(bd(7, 100, 1990, 1, 2)));
    assert!(db.add_birthday(bd(7, 200, 1990, 1, 2)));
    assert!(db.add_birthday(bd(8, 100, 1991, 1, 2)));
    assert!(db.add_birthday(bd(9, 200, 1992, 1, 2)));
    db.rm_birthday(RemoveBirthday::RemoveUser(7));
    let rows = db.get_birthdays(1, 2);
    assert_eq!(rows.len(), 2);
    assert!(rows.iter().all(|r| r.user_id != 7));
    assert!(rows.iter().any(|r| r.user_id == 8 && r.group_id == 100));
    assert!(rows.iter().any(|r| r.user_id == 9 && r.group_id == 200));
}

#[test]
fn remove_by_group_and_by_user_in_group() {
    let mut db = Database::new();
    assert!(db.add_birthday(bd(1, 100, 1990, 5, 5)));
    assert!(db.add_birthday(bd(2, 100, 1990, 5, 5)));
    assert!(db.add_birthday(bd(1, 200, 1990, 5, 5)));
    db.rm_birthday(RemoveBirthday::RemoveUserInGroup { group_id: 100, user_id: 1 });
    assert_eq!(db.get_birthdays(5, 5).len(), 2);
    db.rm_birthday(RemoveBirthday::RemoveGroup(100));
    let rows = db.get_birthdays(5, 5);
    assert_eq!(rows.len(), 1);
    assert_eq!(rows[0].group_id, 200);
    // Removing nothing is not an error.
    db.rm_birthday(RemoveBirthday::RemoveGroup(100));
    assert_eq!(db.get_birthdays(5, 5).len(), 1);
}

#[test]
fn restore_keeps_the_stored_offset_and_dedups() {
    let mut db = Database::new();
    db.set_user_timezone(7, 5);
    let mut rec = bd(7, 100, 1990, 6, 15);
    rec.timezone = -9;
    assert!(db.restore(rec));
    let mut dup = bd(7, 100, 1991, 6, 15);
    dup.timezone = 3;
    assert!(!db.restore(dup));
    let rows = db.get_birthdays(6, 15);
    assert_eq!(rows.len(), 1);
    // The reloaded row keeps what it carried; nothing is re-resolved.
    assert_eq!(rows[0].timezone, -9);
    assert_eq!(rows[0].year, 1990);
}
