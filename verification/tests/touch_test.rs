use mini_coreutils::calendar::NaiveInstant;
use mini_coreutils::calendar::Timestamp;
use mini_coreutils::touch::args::full_time_string;
use mini_coreutils::touch::args::parse_date_string;
use mini_coreutils::touch::args::parse_time_format;
use mini_coreutils::touch::args::read_date_string;
use mini_coreutils::touch::args::read_time_format;
use mini_coreutils::touch::args::time_pattern_of;
use mini_coreutils::touch::args::Args;
use mini_coreutils::touch::args::DateReading;
use mini_coreutils::touch::args::FileAction;
use mini_coreutils::touch::args::FileTimes;
use mini_coreutils::touch::args::Selection;
use mini_coreutils::touch::args::TimeSource;
use mini_coreutils::touch::args::TouchError;
use mini_coreutils::touch::args::TouchPlan;

fn touch(files: &[&str]) -> Args {
    Args {
        help: None,
        files: files.iter().map(|f| f.to_string()).collect(),
        access_only: false,
        no_create: false,
        date: None,
        force: false,
        no_dereference: false,
        modify_only: false,
        reference: None,
        time_format: None,
        time: None,
    }
}

fn plan(args: &Args, exists: bool) -> FileAction {
    args.plan_for(args.selection().unwrap(), exists)
}

fn times(accessed: i64, modified: i64) -> FileTimes {
    FileTimes {
        accessed: Timestamp { secs: accessed, nanos: 1 },
        modified: Timestamp { secs: modified, nanos: 2 },
    }
}

fn local(text: &str, pattern: &str) -> Timestamp {
    let naive = chrono::NaiveDateTime::parse_from_str(text, pattern).unwrap();
    let date_time = chrono::TimeZone::from_local_datetime(&chrono::Local, &naive).single().unwrap();
    Timestamp { secs: date_time.timestamp(), nanos: date_time.timestamp_subsec_nanos() }
}

#[test]
fn test_touch_creates_file() {
    let args = touch(&["test_file"]);
    assert_eq!(args.time_source(), TimeSource::Now);
    assert_eq!(
        plan(&args, false),
        FileAction::Touch(TouchPlan {
            keep_access: false,
            keep_modify: false,
            create: true,
            follow_links: true,
        })
    );
}

#[test]
fn test_touch_no_create() {
    let mut args = touch(&["non_existent_file"]);
    args.no_create = true;
    assert_eq!(plan(&args, false), FileAction::Skip);
    assert_eq!(
        plan(&args, true),
        FileAction::Touch(TouchPlan {
            keep_access: false,
            keep_modify: false,
            create: false,
            follow_links: true,
        })
    );
}

#[test]
fn test_touch_access_time() {
    let mut args = touch(&["test_file_a"]);
    args.access_only = true;
    let FileAction::Touch(plan) = plan(&args, true) else {
        panic!("an existing file is touched");
    };
    assert!(plan.needs_current());
    let initial = times(100, 100);
    let updated = plan.times(times(200, 200), initial);
    assert_ne!(initial.accessed, updated.accessed);
    assert_eq!(initial.modified, updated.modified);
}

#[test]
fn test_touch_modify_time() {
    let mut args = touch(&["test_file_m"]);
    args.modify_only = true;
    let FileAction::Touch(plan) = plan(&args, true) else {
        panic!("an existing file is touched");
    };
    assert!(plan.needs_current());
    let initial = times(100, 100);
    let updated = plan.times(times(200, 200), initial);
    assert_eq!(initial.accessed, updated.accessed);
    assert_ne!(initial.modified, updated.modified);
}

#[test]
fn test_touch_reference_file() {
    let mut args = touch(&["test_file_r"]);
    args.reference = Some("ref_file".to_string());
    assert_eq!(args.time_source(), TimeSource::Reference("ref_file".to_string()));
    let FileAction::Touch(plan) = plan(&args, false) else {
        panic!("a missing file is created");
    };
    assert!(plan.create && !plan.needs_current());
    let reference = times(111, 222);
    let set = plan.times(reference, times(0, 0));
    assert_eq!(reference.modified, set.modified);
    assert_eq!(reference.accessed, set.accessed);
}

#[test]
fn test_touch_date_string() {
    let mut args = touch(&["test_file_d"]);
    args.date = Some("2023-01-01 12:00:00".to_string());
    let TimeSource::Date(date) = args.time_source() else {
        panic!("the date is the source");
    };
    let instant = parse_date_string(&date).unwrap();
    let dt = chrono::TimeZone::timestamp_opt(&chrono::Local, instant.secs, instant.nanos).unwrap();
    assert_eq!(dt.format("%Y-%m-%d %H:%M:%S").to_string(), "2023-01-01 12:00:00");
}

#[test]
fn test_touch_time_format() {
    let mut args = touch(&["test_file_t"]);
    args.time_format = Some("202301011200.00".to_string());
    let TimeSource::Stamp(stamp) = args.time_source() else {
        panic!("the stamp is the source");
    };
    let instant = parse_time_format(&stamp).unwrap();
    let dt = chrono::TimeZone::timestamp_opt(&chrono::Local, instant.secs, instant.nanos).unwrap();
    assert_eq!(dt.format("%Y%m%d%H%M.%S").to_string(), "202301011200.00");
}

#[test]
fn a_time_word_selects_one_of_the_two_times() {
    let mut args = touch(&["f"]);
    assert_eq!(args.selection(), Ok(Selection { access_only: false, modify_only: false }));
    for word in ["access", "atime", "use"] {
        args.time = Some(word.to_string());
        assert_eq!(args.selection(), Ok(Selection { access_only: true, modify_only: false }));
    }
    for word in ["modify", "mtime"] {
        args.time = Some(word.to_string());
        assert_eq!(args.selection(), Ok(Selection { access_only: false, modify_only: true }));
    }
    args.access_only = true;
    assert_eq!(args.selection(), Ok(Selection { access_only: true, modify_only: true }));
    args.time = None;
    args.modify_only = true;
    assert_eq!(args.selection(), Ok(Selection { access_only: true, modify_only: true }));
}

#[test]
fn an_unknown_time_word_is_an_error() {
    let mut args = touch(&["f"]);
    for word in ["ctime", "", "Access", "access ", "uses"] {
        args.time = Some(word.to_string());
        assert_eq!(args.selection(), Err(TouchError::InvalidTimeWord(word.to_string())));
    }
    assert_eq!(
        TouchError::InvalidTimeWord("ctime".to_string()).message(),
        "無效的時間值: ctime"
    );
}

#[test]
fn the_messages_of_the_errors() {
    assert_eq!(TouchError::UnreadableDate("x".to_string()).message(), "無法解析日期字串: x");
    assert_eq!(TouchError::UnreadableTime("y".to_string()).message(), "無法解析時間格式: y");
    assert_eq!(TouchError::NoLocalTime("z".to_string()).message(), "無法對應到本地時間: z");
}

#[test]
fn the_source_of_the_times_by_rank() {
    let mut args = touch(&["f"]);
    assert_eq!(args.time_source(), TimeSource::Now);
    args.time_format = Some("01011200".to_string());
    assert_eq!(args.time_source(), TimeSource::Stamp("01011200".to_string()));
    args.date = Some("today".to_string());
    assert_eq!(args.time_source(), TimeSource::Date("today".to_string()));
    args.reference = Some("r".to_string());
    assert_eq!(args.time_source(), TimeSource::Reference("r".to_string()));
    args.date = None;
    assert_eq!(args.time_source(), TimeSource::Reference("r".to_string()));
}

#[test]
fn a_link_itself_is_never_created() {
    let mut args = touch(&["f"]);
    args.no_dereference = true;
    assert_eq!(
        plan(&args, false),
        FileAction::Touch(TouchPlan {
            keep_access: false,
            keep_modify: false,
            create: false,
            follow_links: false,
        })
    );
    args.no_create = true;
    assert_eq!(plan(&args, false), FileAction::Skip);
    args.time = Some("mtime".to_string());
    assert_eq!(
        plan(&args, true),
        FileAction::Touch(TouchPlan {
            keep_access: true,
            keep_modify: false,
            create: false,
            follow_links: false,
        })
    );
}

#[test]
fn kept_times_come_from_the_file() {
    let both = TouchPlan { keep_access: true, keep_modify: true, create: false, follow_links: true };
    assert_eq!(both.times(times(1, 2), times(3, 4)), times(3, 4));
    let none = TouchPlan { keep_access: false, keep_modify: false, create: false, follow_links: true };
    assert!(!none.needs_current());
    assert_eq!(none.times(times(1, 2), times(3, 4)), times(1, 2));
}

#[test]
fn a_stamp_with_a_dot_has_seconds() {
    assert_eq!(time_pattern_of("202301011200.00"), "%Y%m%d%H%M.%S");
    assert_eq!(time_pattern_of("202301011200"), "%Y%m%d%H%M");
    assert_eq!(time_pattern_of("."), "%Y%m%d%H%M.%S");
    assert_eq!(time_pattern_of(""), "%Y%m%d%H%M");
}

#[test]
fn a_short_stamp_gets_the_year_in_front() {
    assert_eq!(full_time_string("01011200", "2023"), "202301011200");
    assert_eq!(full_time_string("01011200.30", "2023"), "202301011200.30");
    assert_eq!(full_time_string("202301011200", "1999"), "1999202301011200");
    assert_eq!(full_time_string("202301011200.", "1999"), "202301011200.");
    assert_eq!(full_time_string("2023010112000", "1999"), "2023010112000");
    assert_eq!(full_time_string("éééééé", "1999"), "1999éééééé");
    assert_eq!(full_time_string("ééééééé", "1999"), "ééééééé");
}

#[test]
fn a_stamp_is_read_as_a_date_and_time_of_day() {
    let noon = NaiveInstant { secs: 1_672_574_400, nanos: 0 };
    assert_eq!(read_time_format("202301011200.00", "1999"), Ok(noon));
    assert_eq!(read_time_format("01011200.00", "2023"), Ok(noon));
    assert_eq!(read_time_format("01011200", "2023"), Ok(noon));
    assert_eq!(
        read_time_format("01011200.59", "2023"),
        Ok(NaiveInstant { secs: 1_672_574_459, nanos: 0 })
    );
    assert_eq!(
        read_time_format("197001010000.01", ""),
        Ok(NaiveInstant { secs: 1, nanos: 0 })
    );
}

#[test]
fn an_unreadable_stamp_is_an_error() {
    for stamp in ["", "noon", "202313011200.00", "01011200.61", "2023-01-01 12:00", "１２"] {
        assert_eq!(
            read_time_format(stamp, "2023"),
            Err(TouchError::UnreadableTime(stamp.to_string())),
            "for {:?}",
            stamp
        );
        assert_eq!(
            parse_time_format(stamp),
            Err(TouchError::UnreadableTime(stamp.to_string())),
            "for {:?}",
            stamp
        );
    }
    assert_eq!(
        read_time_format("202301011200", "1999"),
        Err(TouchError::UnreadableTime("202301011200".to_string()))
    );
}

#[test]
fn a_date_with_an_offset_names_an_instant() {
    assert_eq!(
        read_date_string("2023-01-01T12:00:00+01:00"),
        Ok(DateReading::Instant(Timestamp { secs: 1_672_570_800, nanos: 0 }))
    );
    assert_eq!(
        read_date_string("1970-01-01T00:00:01.5Z"),
        Ok(DateReading::Instant(Timestamp { secs: 1, nanos: 500_000_000 }))
    );
    assert_eq!(
        parse_date_string("2023-01-01T12:00:00+01:00"),
        Ok(Timestamp { secs: 1_672_570_800, nanos: 0 })
    );
    assert_eq!(
        parse_date_string("1969-12-31T23:59:59-00:00"),
        Ok(Timestamp { secs: -1, nanos: 0 })
    );
}

#[test]
fn a_date_without_an_offset_is_local() {
    assert_eq!(
        read_date_string("2023-01-01 12:00:00"),
        Ok(DateReading::Local(NaiveInstant { secs: 1_672_574_400, nanos: 0 }))
    );
    assert_eq!(
        parse_date_string("2023-01-01 12:00:00"),
        Ok(local("2023-01-01 12:00:00", "%Y-%m-%d %H:%M:%S"))
    );
    assert_eq!(
        parse_date_string("2023-07-15 23:59:59"),
        Ok(local("2023-07-15 23:59:59", "%Y-%m-%d %H:%M:%S"))
    );
}

#[test]
fn an_unreadable_date_is_an_error() {
    for date in ["", "yesterday", "2023-02-30 12:00:00", "2023-01-01", "2023-01-01T12:00:00"] {
        assert_eq!(
            read_date_string(date),
            Err(TouchError::UnreadableDate(date.to_string())),
            "for {:?}",
            date
        );
        assert_eq!(
            parse_date_string(date),
            Err(TouchError::UnreadableDate(date.to_string())),
            "for {:?}",
            date
        );
    }
}

#[test]
fn a_stamp_is_read_in_the_local_time_zone() {
    assert_eq!(
        parse_time_format("202301011200.00"),
        Ok(local("202301011200.00", "%Y%m%d%H%M.%S"))
    );
    assert_eq!(
        parse_time_format("202307152359.07"),
        Ok(local("202307152359.07", "%Y%m%d%H%M.%S"))
    );
    assert_eq!(
        parse_time_format("202307152359"),
        Err(TouchError::UnreadableTime("202307152359".to_string()))
    );
    let year = chrono::Local::now().format("%Y").to_string();
    assert_eq!(
        parse_time_format("06150830"),
        Ok(local(&format!("{}06150830", year), "%Y%m%d%H%M"))
    );
}
