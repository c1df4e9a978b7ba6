use birthday_bot::Birthday;
use birthday_bot::Database;
use birthday_bot::dispatch::MemberOutcome;
use birthday_bot::dispatch::PinOutcome;
use birthday_bot::dispatch::PlatformError;
use birthday_bot::dispatch::RecordOutcomes;
use birthday_bot::dispatch::RecordResult;
use birthday_bot::dispatch::SendOutcome;
use birthday_bot::dispatch::birthday_message;
use birthday_bot::dispatch::dispatch_run;
use birthday_bot::dispatch::heal;
use birthday_bot::dispatch::pin_notice;
use birthday_bot::lang::Langs;
use birthday_bot::schedule::Date;

fn bd(user_id: u64, group_id: i64, year: u32, month: u8, day: u8) -> Birthday {
    Birthday {
        user_id,
        group_id,
        user_lang: String::from("en"),
        year,
        month,
        day,
        timezone: 0,
    }
}

fn labels() -> Langs {
    let mut langs = Langs::new();
    langs.set("en", "WISH_HAPPY_BDAY", "Happy birthday &, you are & today! (&)");
    langs.set("en", "NO_PIN_PERM", "I lack the right to pin messages here.");
    langs
}

#[test]
fn run_heals_and_notifies_per_record() {
    let mut db = Database::new();
    // Group 100 holds two records; its chat is reported gone.
    assert!(db.add_birthday(bd(1, 100, 1990, 6, 15)));
    assert!(db.add_birthday(bd(9, 100, 1991, 6, 15)));
    // Group 200 holds two records; only user 2 is reported gone.
    assert!(db.add_birthday(bd(2, 200, 1992, 6, 15)));
    assert!(db.add_birthday(bd(8, 200, 1993, 6, 15)));
    // Group 300 succeeds end to end.
    assert!(db.add_birthday(bd(3, 300, 1994, 6, 15)));
    // A record on another date is never part of the snapshot.
    assert!(db.add_birthday(bd(4, 300, 1990, 1, 1)));

    let langs = labels();
    let today = Date { year: 2024, month: 6, day: 15 };
    let snapshot = db.get_birthdays(6, 15);
    assert_eq!(snapshot.len(), 5);
    let picked: Vec<Birthday> = snapshot
        .into_iter()
        .filter(|r| r.user_id == 1 || r.user_id == 2 || r.user_id == 3)
        .collect();
    assert_eq!(picked.len(), 3);
    let outcomes = vec![
        RecordOutcomes {
            member: MemberOutcome::Failed(PlatformError::ChatNotFound),
            send: SendOutcome::Failed(PlatformError::Other),
            pin: PinOutcome::Failed,
        },
        RecordOutcomes {
            member: MemberOutcome::Failed(PlatformError::UserNotFound),
            send: SendOutcome::Failed(PlatformError::Other),
            pin: PinOutcome::Failed,
        },
        RecordOutcomes {
            member: MemberOutcome::Member { first_name: String::from("Cleo") },
            send: SendOutcome::Sent { message_id: 41 },
            pin: PinOutcome::Pinned,
        },
    ];
    let results = dispatch_run(&mut db, &langs, &picked, today, &outcomes);
    assert_eq!(
        results,
        vec![
            RecordResult::GroupRemoved,
            RecordResult::UserRemoved,
            RecordResult::Notified { pinned: true, notice: false },
        ]
    );
    // Group 100 is gone entirely; in group 200 only user 2's row went;
    // group 300 kept both rows.
    let rows = db.get_birthdays(6, 15);
    assert!(rows.iter().all(|r| r.group_id != 100));
    assert!(rows.iter().all(|r| !(r.user_id == 2 && r.group_id == 200)));
    assert!(rows.iter().any(|r| r.user_id == 8 && r.group_id == 200));
    assert!(rows.iter().any(|r| r.user_id == 3 && r.group_id == 300));
    assert_eq!(rows.len(), 2);
    assert_eq!(db.get_birthdays(1, 1).len(), 1);
}

#[test]
fn send_failure_is_classified_like_member_failure() {
    let mut db = Database::new();
    assert!(db.add_birthday(bd(1, 100, 1990, 6, 15)));
    assert!(db.add_birthday(bd(9, 100, 1991, 6, 15)));
    let langs = labels();
    let today = Date { year: 2024, month: 6, day: 15 };
    let snapshot = db.get_birthdays(6, 15);
    let picked: Vec<Birthday> = snapshot.into_iter().filter(|r| r.user_id == 1).collect();
    let outcomes = vec![RecordOutcomes {
        member: MemberOutcome::Member { first_name: String::from("Ann") },
        send: SendOutcome::Failed(PlatformError::ChatNotFound),
        pin: PinOutcome::Failed,
    }];
    let results = dispatch_run(&mut db, &langs, &picked, today, &outcomes);
    assert_eq!(results, vec![RecordResult::GroupRemoved]);
    assert_eq!(db.get_birthdays(6, 15).len(), 0);
}

#[test]
fn other_errors_skip_without_deleting() {
    let mut db = Database::new();
    assert!(db.add_birthday(bd(1, 100, 1990, 6, 15)));
    let langs = labels();
    let today = Date { year: 2024, month: 6, day: 15 };
    let picked = db.get_birthdays(6, 15);
    let outcomes = vec![RecordOutcomes {
        member: MemberOutcome::Failed(PlatformError::Other),
        send: SendOutcome::Failed(PlatformError::Other),
        pin: PinOutcome::Failed,
    }];
    let results = dispatch_run(&mut db, &langs, &picked, today, &outcomes);
    assert_eq!(results, vec![RecordResult::Skipped]);
    assert_eq!(db.get_birthdays(6, 15).len(), 1);
}

#[test]
fn missing_label_means_no_message_and_no_send() {
    let mut db = Database::new();
    assert!(db.add_birthday(bd(1, 100, 1990, 6, 15)));
    let langs = Langs::new();
    let today = Date { year: 2024, month: 6, day: 15 };
    let picked = db.get_birthdays(6, 15);
    let outcomes = vec![RecordOutcomes {
        member: MemberOutcome::Member { first_name: String::from("Ann") },
        send: SendOutcome::Sent { message_id: 1 },
        pin: PinOutcome::Pinned,
    }];
    let results = dispatch_run(&mut db, &langs, &picked, today, &outcomes);
    assert_eq!(results, vec![RecordResult::NoMessage]);
    assert_eq!(db.get_birthdays(6, 15).len(), 1);
}

#[test]
fn birthday_message_renders_name_age_and_date() {
    let langs = labels();
    let rec = bd(3, 300, 1994, 6, 15);
    let today = Date { year: 2024, month: 6, day: 15 };
    let (text, offset, length) =
        birthday_message(&langs, &rec, &String::from("Cleo"), today).unwrap();
    assert_eq!(text, "Happy birthday Cleo, you are 30 today! (2024/6/15)");
    assert_eq!((offset, length), (15, 4));
}

#[test]
fn birthday_message_falls_back_to_the_default_locale() {
    let langs = labels();
    let mut rec = bd(3, 300, 2000, 6, 15);
    rec.user_lang = String::from("it");
    let today = Date { year: 2024, month: 6, day: 15 };
    let (text, _, _) = birthday_message(&langs, &rec, &String::from("Pia"), today).unwrap();
    assert_eq!(text, "Happy birthday Pia, you are 24 today! (2024/6/15)");
}

#[test]
fn pin_notice_only_for_missing_permission() {
    let langs = labels();
    let rec = bd(3, 300, 1994, 6, 15);
    let notice = pin_notice(&langs, &rec, PinOutcome::NoPermission);
    assert_eq!(notice.unwrap(), "I lack the right to pin messages here.");
    assert!(pin_notice(&langs, &rec, PinOutcome::Pinned).is_none());
    assert!(pin_notice(&langs, &rec, PinOutcome::Failed).is_none());
}

#[test]
fn heal_removes_the_reported_scope() {
    let mut db = Database::new();
    assert!(db.add_birthday(bd(1, 100, 1990, 6, 15)));
    assert!(db.add_birthday(bd(2, 100, 1990, 6, 15)));
    assert!(db.add_birthday(bd(1, 200, 1990, 6, 15)));
    heal(&mut db, 100, 1, PlatformError::Other);
    assert_eq!(db.get_birthdays(6, 15).len(), 3);
    heal(&mut db, 100, 1, PlatformError::UserNotFound);
    assert_eq!(db.get_birthdays(6, 15).len(), 2);
    heal(&mut db, 100, 2, PlatformError::ChatNotFound);
    let rows = db.get_birthdays(6, 15);
    assert_eq!(rows.len(), 1);
    assert_eq!(rows[0].group_id, 200);
}
