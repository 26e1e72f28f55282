use bleh::framework::text::contains;
use bleh::rrules::{
    event_of, has_large_interval, recover, refusal, rejection, Action, Admission, Draft, Event,
    Instant, Phase, Recurrence, RecurringAction, Task, LAST_SECOND,
};

const DAY: i64 = 86_400;

fn at(secs: i64) -> Instant {
    Instant { secs, nanos: 0 }
}

fn reminder(id: i64) -> RecurringAction {
    RecurringAction {
        id,
        rule: "DTSTART:20120201T093000Z\nRRULE:FREQ=DAILY;COUNT=3".to_string(),
        message: "reminder".to_string(),
        channel: "!R:example.org".to_string(),
        userid: "U".to_string(),
    }
}

#[test]
fn instants_are_ordered_by_seconds_then_nanoseconds() {
    assert!(at(1).before(&at(2)));
    assert!(!at(2).before(&at(1)));
    assert!(!at(2).before(&at(2)));
    assert!(Instant { secs: 2, nanos: 1 }.before(&Instant { secs: 2, nanos: 2 }));
    assert!(!Instant { secs: 2, nanos: 2 }.before(&Instant { secs: 2, nanos: 1 }));
    assert!(Instant { secs: 1, nanos: 999_999_999 }.before(&Instant { secs: 2, nanos: 0 }));
    assert!(at(-5).before(&at(0)));
}

#[test]
fn the_announcement_names_the_author() {
    assert_eq!(reminder(1).announcement(), "U: reminder");
}

#[test]
fn a_stored_draft_keeps_its_fields() {
    let draft = Draft {
        rule: "r".to_string(),
        message: "m".to_string(),
        channel: "c".to_string(),
        userid: "u".to_string(),
    };
    assert_eq!(
        draft.stored(42),
        RecurringAction {
            id: 42,
            rule: "r".to_string(),
            message: "m".to_string(),
            channel: "c".to_string(),
            userid: "u".to_string(),
        }
    );
}

#[test]
fn an_occurrence_in_the_past_is_passed_over() {
    let mut task = Task::new(reminder(1));
    assert_eq!(task.phase, Phase::Iterating);
    assert_eq!(task.step(Event::Occurrence { at: at(99), now: at(100) }), Action::Advance);
    assert_eq!(task.phase, Phase::Iterating);
    let late = Event::Occurrence {
        at: Instant { secs: 100, nanos: 0 },
        now: Instant { secs: 100, nanos: 1 },
    };
    assert_eq!(task.step(late), Action::Advance);
    assert_eq!(task.phase, Phase::Iterating);
}

#[test]
fn an_occurrence_that_is_due_is_slept_for() {
    let mut task = Task::new(reminder(1));
    assert_eq!(
        task.step(Event::Occurrence { at: at(160), now: at(100) }),
        Action::Sleep { seconds: 60 }
    );
    assert_eq!(task.phase, Phase::Waiting { due: at(160) });
}

#[test]
fn an_occurrence_at_this_instant_fires_at_once() {
    let mut task = Task::new(reminder(1));
    assert_eq!(
        task.step(Event::Occurrence { at: at(100), now: at(100) }),
        Action::Sleep { seconds: 0 }
    );
    assert_eq!(task.phase, Phase::Waiting { due: at(100) });
}

#[test]
fn the_sleep_is_counted_in_whole_seconds() {
    let mut task = Task::new(reminder(1));
    let event = Event::Occurrence {
        at: Instant { secs: 103, nanos: 0 },
        now: Instant { secs: 100, nanos: 900_000_000 },
    };
    assert_eq!(task.step(event), Action::Sleep { seconds: 3 });
    let mut far = Task::new(reminder(1));
    let event = Event::Occurrence { at: at(i64::MAX), now: at(i64::MIN) };
    assert_eq!(far.step(event), Action::Sleep { seconds: u64::MAX });
}

#[test]
fn a_task_fires_once_a_day_until_its_rule_is_exhausted() {
    let start = 1_328_088_600;
    let mut task = Task::new(reminder(1));
    let mut sent = Vec::new();
    let mut now = start - 10;
    for day in 0..3 {
        let due = start + day * DAY;
        let action = task.step(Event::Occurrence { at: at(due), now: at(now) });
        assert_eq!(action, Action::Sleep { seconds: (due - now) as u64 });
        now = due;
        assert_eq!(task.step(Event::Woke), Action::ResolveRoom);
        assert_eq!(task.phase, Phase::Resolving { due: at(due) });
        match task.step(Event::RoomJoined) {
            Action::Send { text } => sent.push(text),
            other => panic!("expected a send, got {:?}", other),
        }
        assert_eq!(task.phase, Phase::Sending { due: at(due) });
        assert_eq!(task.step(Event::Sent), Action::Advance);
        assert_eq!(task.phase, Phase::Iterating);
    }
    assert_eq!(task.step(Event::NoOccurrence), Action::Stop);
    assert_eq!(task.phase, Phase::Exhausted);
    assert_eq!(sent, vec!["U: reminder", "U: reminder", "U: reminder"]);
    assert_eq!(task.action, reminder(1));
}

#[test]
fn a_missing_room_ends_the_task() {
    let mut task = Task::new(reminder(1));
    task.step(Event::Occurrence { at: at(160), now: at(100) });
    task.step(Event::Woke);
    assert_eq!(task.step(Event::RoomMissing), Action::Stop);
    assert_eq!(task.phase, Phase::Failed);
    assert_eq!(task.step(Event::Occurrence { at: at(500), now: at(100) }), Action::Stop);
    assert_eq!(task.phase, Phase::Failed);
}

#[test]
fn an_ended_task_stays_ended() {
    let mut task = Task::new(reminder(1));
    assert_eq!(task.step(Event::NoOccurrence), Action::Stop);
    for event in [
        Event::Occurrence { at: at(2), now: at(1) },
        Event::NoOccurrence,
        Event::Woke,
        Event::RoomJoined,
        Event::RoomMissing,
        Event::Sent,
    ] {
        assert_eq!(task.step(event), Action::Stop);
        assert_eq!(task.phase, Phase::Exhausted);
    }
}

#[test]
fn an_event_out_of_turn_ends_the_task() {
    for event in [Event::Woke, Event::RoomJoined, Event::RoomMissing, Event::Sent] {
        let mut task = Task::new(reminder(1));
        assert_eq!(task.step(event), Action::Stop);
        assert_eq!(task.phase, Phase::Failed);
    }
    let mut waiting = Task::new(reminder(1));
    waiting.step(Event::Occurrence { at: at(160), now: at(100) });
    assert_eq!(waiting.step(Event::Sent), Action::Stop);
    assert_eq!(waiting.phase, Phase::Failed);
    let mut sending = Task::new(reminder(1));
    sending.step(Event::Occurrence { at: at(160), now: at(100) });
    sending.step(Event::Woke);
    sending.step(Event::RoomJoined);
    assert_eq!(sending.step(Event::NoOccurrence), Action::Stop);
    assert_eq!(sending.phase, Phase::Failed);
}

#[test]
fn every_stored_action_gets_one_task() {
    let rows: Vec<RecurringAction> = (0..5).map(reminder).collect();
    let tasks = recover(rows.clone());
    assert_eq!(tasks.len(), 5);
    for (task, row) in tasks.iter().zip(rows.iter()) {
        assert_eq!(&task.action, row);
        assert_eq!(task.phase, Phase::Iterating);
    }
    assert!(recover(Vec::new()).is_empty());
}

#[test]
fn a_recovered_task_skips_what_fell_due_before_the_restart() {
    let start = 1_328_088_600;
    let restart = start + DAY + 1;
    let mut task = recover(vec![reminder(1)]).pop().unwrap();
    assert_eq!(task.step(Event::Occurrence { at: at(start), now: at(restart) }), Action::Advance);
    assert_eq!(
        task.step(Event::Occurrence { at: at(start + DAY), now: at(restart) }),
        Action::Advance
    );
    assert_eq!(
        task.step(Event::Occurrence { at: at(start + 2 * DAY), now: at(restart) }),
        Action::Sleep { seconds: (DAY - 1) as u64 }
    );
}

#[test]
fn the_event_carries_the_occurrence_and_the_clock() {
    assert_eq!(event_of(Some(at(5)), at(3)), Event::Occurrence { at: at(5), now: at(3) });
    assert_eq!(event_of(None, at(3)), Event::NoOccurrence);
}

#[test]
fn a_rejection_quotes_the_explanation() {
    assert_eq!(rejection("bad"), "Couldn't parse rule: bad");
    assert_eq!(rejection(""), "Couldn't parse rule: ");
}

#[test]
fn a_rule_that_cannot_be_read_is_rejected() {
    for text in ["", "every day", "RRULE:FREQ=DAILY", "DTSTART:20120201T093000Z\nRRULE:FREQ=NEVER"] {
        let reply = Recurrence::parse(text).err().expect(text);
        assert!(reply.starts_with("Couldn't parse rule: "), "{}", reply);
        assert!(reply.len() > "Couldn't parse rule: ".len());
    }
}

#[test]
fn a_rule_without_a_start_date_is_rejected() {
    for text in [
        "RRULE:FREQ=DAILY;COUNT=3",
        "FREQ=DAILY",
        "dtstart:20120201T093000Z\nRRULE:FREQ=DAILY;COUNT=3",
        "DTSTAR:20120201T093000Z\nRRULE:FREQ=DAILY;COUNT=3",
        "D T S T A R T",
    ] {
        let reply = Recurrence::parse(text).err().expect(text);
        assert!(reply.starts_with("Couldn't parse rule: "), "{}", reply);
    }
    assert!(Recurrence::parse("DTSTART:20120201T093000Z\nRRULE:FREQ=DAILY;COUNT=3").is_ok());
    assert!(Recurrence::parse("RRULE:FREQ=DAILY;COUNT=3\nDTSTART:20120201T093000Z").is_ok());
}

#[test]
fn a_rule_that_is_not_ascii_is_refused_unread() {
    let text = "DTSTART:20120201T093000Z\nRRULE:FREQ=WEEKLY;BYDAY=\u{661}MO";
    assert_eq!(refusal(text), Some("the rule is not written in ASCII".to_string()));
    assert_eq!(
        Recurrence::parse(text).err(),
        Some("Couldn't parse rule: the rule is not written in ASCII".to_string())
    );
    assert_eq!(
        Recurrence::parse("DTSTART:20120201T093000Z\nRRULE:FREQ=DAILY;COUNT=\u{663}").err(),
        Some("Couldn't parse rule: the rule is not written in ASCII".to_string())
    );
}

#[test]
fn a_rule_that_names_a_time_zone_is_refused_unread() {
    let text = "DTSTART;TZID=America/Sao_Paulo:20181104T000000\nRRULE:FREQ=DAILY;COUNT=2";
    assert_eq!(
        refusal(text),
        Some("the rule names a time zone; give its dates in UTC".to_string())
    );
    assert_eq!(
        Recurrence::parse(text).err(),
        Some("Couldn't parse rule: the rule names a time zone; give its dates in UTC".to_string())
    );
    assert_eq!(refusal("DTSTART:20120201T093000Z\nRRULE:FREQ=DAILY"), None);
    assert_eq!(refusal(""), None);
}

#[test]
fn an_interval_of_a_hundred_or_more_is_refused_unread() {
    for text in [
        "DTSTART:20240107T000000Z\nRRULE:FREQ=WEEKLY;INTERVAL=100",
        "DTSTART:20240107T000000Z\nRRULE:FREQ=WEEKLY;INTERVAL=1000",
        "DTSTART:20240107T000000Z\nRRULE:FREQ=WEEKLY;interval=250",
        "DTSTART:20240107T000000Z\nRRULE:FREQ=WEEKLY;Interval=+100",
        "DTSTART:20240107T000000Z\nRRULE:FREQ=WEEKLY;INTERVAL=099",
        "DTSTART:20240107T000000Z\nRRULE:FREQ=WEEKLY;INTERVAL =5",
        "DTSTART:20240107T000000Z\nRRULE:FREQ=WEEKLY;INTERVAL",
        "DTSTART:20240107T000000Z\nRRULE:FREQ=WEEKLY;INTERVAL=",
    ] {
        assert!(has_large_interval(text), "{}", text);
        assert_eq!(
            Recurrence::parse(text).err(),
            Some("Couldn't parse rule: the rule's interval is not a number below 100".to_string()),
            "{}",
            text
        );
    }
    for text in [
        "",
        "DTSTART:20240107T000000Z\nRRULE:FREQ=WEEKLY",
        "DTSTART:20240107T000000Z\nRRULE:FREQ=WEEKLY;INTERVAL=2",
        "DTSTART:20240107T000000Z\nRRULE:FREQ=WEEKLY;INTERVAL=99;COUNT=3",
        "DTSTART:20240107T000000Z\nRRULE:INTERVAL=7\n",
        "INTERVA=1000",
    ] {
        assert!(!has_large_interval(text), "{}", text);
    }
}

#[test]
fn a_small_interval_is_kept() {
    let rule =
        Recurrence::parse("DTSTART:20240107T000000Z\nRRULE:FREQ=WEEKLY;INTERVAL=2;COUNT=3")
            .unwrap();
    let mut occurrences = rule.occurrences();
    let mut seen = Vec::new();
    while let Event::Occurrence { at, .. } = occurrences.poll() {
        seen.push(at.secs);
    }
    assert_eq!(seen, vec![1_704_585_600, 1_704_585_600 + 14 * DAY, 1_704_585_600 + 28 * DAY]);
}

#[test]
fn no_occurrence_is_given_from_the_year_10001_on() {
    let rule = Recurrence::parse("DTSTART:99991230T000000Z\nRRULE:FREQ=DAILY").unwrap();
    let mut occurrences = rule.occurrences();
    let mut given = 0;
    let mut last = 0;
    while let Event::Occurrence { at, .. } = occurrences.poll() {
        assert!(at.secs < LAST_SECOND);
        assert!(at.secs > last);
        last = at.secs;
        given += 1;
        assert!(given < 1000);
    }
    assert_eq!(given, 368);
    assert_eq!(last, LAST_SECOND - DAY);
    assert_eq!(occurrences.poll(), Event::NoOccurrence);
    assert_eq!(occurrences.poll(), Event::NoOccurrence);
}

#[test]
fn contains_finds_a_word_anywhere() {
    assert!(contains("xDTSTARTy", "DTSTART"));
    assert!(contains("DTSTART", "DTSTART"));
    assert!(contains("abTZID", "TZID"));
    assert!(contains("anything", ""));
    assert!(contains("", ""));
    assert!(!contains("DTSTAR", "DTSTART"));
    assert!(!contains("TZI TZ ID", "TZID"));
    assert!(!contains("", "TZID"));
    assert!(!contains("tzid", "TZID"));
    assert!(contains("aab", "ab"));
}

#[test]
fn a_draft_is_admitted_as_its_reading_says() {
    let draft = Draft {
        rule: "r".to_string(),
        message: "m".to_string(),
        channel: "c".to_string(),
        userid: "u".to_string(),
    };
    assert_eq!(
        draft.clone().admitted(Err("no".to_string())),
        Admission::Reject { reply: "no".to_string() }
    );
    let reading = Recurrence::parse("DTSTART:20120201T093000Z\nRRULE:FREQ=DAILY;COUNT=2");
    assert!(reading.is_ok());
    assert_eq!(draft.clone().admitted(reading), Admission::Store(draft.clone()));
    assert_eq!(
        Draft { rule: "DTSTART;TZID=UTC:20120201T093000\nRRULE:FREQ=DAILY".to_string(), ..draft }
            .validate(),
        Admission::Reject {
            reply: "Couldn't parse rule: the rule names a time zone; give its dates in UTC"
                .to_string()
        }
    );
}

#[test]
fn what_comes_of_a_reading_is_the_rule_or_the_reply() {
    assert_eq!(
        Recurrence::from_reading(Err("no start".to_string())).err(),
        Some("Couldn't parse rule: no start".to_string())
    );
    let rule = "DTSTART:20120201T093000Z\nRRULE:FREQ=DAILY;COUNT=2".parse().unwrap();
    let recurrence = Recurrence::from_reading(Ok(rule)).unwrap();
    let mut occurrences = recurrence.occurrences();
    assert!(matches!(occurrences.poll(), Event::Occurrence { .. }));
    assert!(matches!(occurrences.poll(), Event::Occurrence { .. }));
    assert_eq!(occurrences.poll(), Event::NoOccurrence);
}

#[test]
fn a_draft_is_stored_only_where_its_rule_can_be_read() {
    let good = Draft {
        rule: reminder(1).rule,
        message: "reminder".to_string(),
        channel: "!R:example.org".to_string(),
        userid: "U".to_string(),
    };
    assert_eq!(good.clone().validate(), Admission::Store(good.clone()));
    let bad = Draft { rule: "every day".to_string(), ..good };
    match bad.validate() {
        Admission::Reject { reply } => assert!(reply.starts_with("Couldn't parse rule: ")),
        other => panic!("expected a rejection, got {:?}", other),
    }
}

#[test]
fn a_daily_rule_gives_one_occurrence_a_day() {
    let rule = Recurrence::parse(&reminder(1).rule).unwrap();
    let mut occurrences = rule.occurrences();
    let start = 1_328_088_600;
    for day in 0..3 {
        match occurrences.poll() {
            Event::Occurrence { at, now } => {
                assert_eq!(at, Instant { secs: start + day * DAY, nanos: 0 });
                assert!(at.before(&now));
            }
            other => panic!("expected an occurrence, got {:?}", other),
        }
    }
    assert_eq!(occurrences.poll(), Event::NoOccurrence);
    assert_eq!(occurrences.poll(), Event::NoOccurrence);
}

#[test]
fn a_task_driven_by_its_rule_passes_over_the_past() {
    let action = reminder(1);
    let rule = Recurrence::parse(&action.rule).unwrap();
    let mut occurrences = rule.occurrences();
    let mut task = Task::new(action);
    for _ in 0..3 {
        assert_eq!(task.step(occurrences.poll()), Action::Advance);
    }
    assert_eq!(task.step(occurrences.poll()), Action::Stop);
    assert_eq!(task.phase, Phase::Exhausted);
}

#[test]
fn a_rule_in_the_future_is_slept_for() {
    let rule = Recurrence::parse("DTSTART:99990101T000000Z\nRRULE:FREQ=DAILY;COUNT=1").unwrap();
    let mut occurrences = rule.occurrences();
    let mut task = Task::new(reminder(1));
    match task.step(occurrences.poll()) {
        Action::Sleep { seconds } => assert!(seconds > 200_000_000_000),
        other => panic!("expected a sleep, got {:?}", other),
    }
    assert_eq!(task.phase, Phase::Waiting { due: at(253_370_764_800) });
}
