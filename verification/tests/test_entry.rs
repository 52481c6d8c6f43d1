use lsrs::cli::Flags;
use lsrs::entry::{
    collect_entries, get_entries, get_file_date, get_file_owner_and_group, is_hidden_folder,
    owner_and_group, parse_permissions, shown_entry, triplet, Child, Entry, FileType, ListError,
    Metadata, Target, Timestamp,
};
use lsrs::sort::{sort_entries, sort_key};

const NOW: Timestamp = Timestamp { secs: 2_000_000, nanos: 0 };

fn metadata(size: u64, age: i64) -> Metadata {
    Metadata {
        size,
        links: 1,
        uid: 0,
        gid: 0,
        mode: 0o644,
        modified: Ok(Timestamp { secs: NOW.secs - age, nanos: 0 }),
    }
}

fn file(name: &str, size: u64, age: i64) -> Entry {
    Entry { name: name.as_bytes().to_vec(), kind: FileType::File, metadata: metadata(size, age) }
}

fn dir(name: &str, size: u64, age: i64) -> Entry {
    Entry { name: name.as_bytes().to_vec(), kind: FileType::Dir, metadata: metadata(size, age) }
}

fn child(name: &str, kind: FileType, size: u64) -> Child {
    Child::Found {
        name: name.as_bytes().to_vec(),
        kind: Some(kind),
        metadata: Some(metadata(size, 10)),
    }
}

fn names(entries: &[Entry]) -> Vec<String> {
    entries.iter().map(|entry| entry.get_name()).collect()
}

fn listed(children: Vec<Child>, flags: &Flags) -> Vec<String> {
    names(&get_entries(Target::Directory { children }, flags, &NOW).unwrap())
}

#[test]
fn kinds() {
    assert!(FileType::Dir.is_dir());
    assert!(!FileType::File.is_dir());
    assert_eq!(FileType::from(true), FileType::Dir);
    assert_eq!(FileType::from(false), FileType::File);
}

#[test]
fn hidden_names_start_with_a_dot() {
    assert!(is_hidden_folder(&b".gitignore".to_vec()));
    assert!(!is_hidden_folder(&b"gitignore".to_vec()));
    assert!(is_hidden_folder(&b".".to_vec()));
    assert!(!is_hidden_folder(&Vec::new()));
    assert!(is_hidden_folder(&vec![b'.', 0xff, 0xfe]));
    assert!(!is_hidden_folder(&vec![0xff, b'.']));
}

#[test]
fn hidden_entries_are_shown_only_on_request() {
    let children = || vec![child(".gitignore", FileType::File, 1), child("gitignore", FileType::File, 1)];
    let mut flags = Flags::default();
    assert_eq!(listed(children(), &flags), ["gitignore"]);
    flags.show_hidden = true;
    assert_eq!(listed(children(), &flags), [".gitignore", "gitignore"]);
}

#[test]
fn a_missing_path_lists_nothing() {
    let found = get_entries(Target::Missing, &Flags::default(), &NOW);
    assert!(matches!(found, Ok(ref entries) if entries.is_empty()));
}

#[test]
fn a_single_file_lists_itself() {
    let target = Target::Single { name: b"notes.txt".to_vec(), metadata: Some(metadata(42, 5)) };
    let entries = get_entries(target, &Flags::default(), &NOW).unwrap();
    assert_eq!(entries.len(), 1);
    assert_eq!(entries[0].name, b"notes.txt");
    assert_eq!(entries[0].kind, FileType::File);
    assert_eq!(entries[0].get_size(), 42);
    assert!(!entries[0].is_folder());
}

#[test]
fn a_hidden_single_file_is_still_listed() {
    let target = Target::Single { name: b".profile".to_vec(), metadata: Some(metadata(1, 5)) };
    let entries = get_entries(target, &Flags::default(), &NOW).unwrap();
    assert_eq!(names(&entries), [".profile"]);
}

#[test]
fn a_single_file_without_metadata_is_an_error() {
    let target = Target::Single { name: b"gone".to_vec(), metadata: None };
    let found = get_entries(target, &Flags::default(), &NOW);
    assert!(matches!(found, Err(ListError::MetadataUnavailable)));
}

#[test]
fn an_unreadable_directory_is_an_error() {
    let target = Target::Unreadable { reason: "permission denied".to_string() };
    let found = get_entries(target, &Flags::default(), &NOW);
    assert!(matches!(found, Err(ListError::Unreadable { ref reason }) if reason == "permission denied"));
}

#[test]
fn entries_that_cannot_be_read_are_skipped() {
    let children = vec![
        child("a", FileType::File, 1),
        Child::Unreadable,
        Child::Found { name: b"no-type".to_vec(), kind: None, metadata: Some(metadata(1, 1)) },
        Child::Found { name: b"no-meta".to_vec(), kind: Some(FileType::File), metadata: None },
        child("b", FileType::File, 1),
    ];
    assert_eq!(listed(children, &Flags::default()), ["a", "b"]);
    assert!(shown_entry(Child::Unreadable, true).is_none());
    assert!(shown_entry(child(".x", FileType::File, 1), false).is_none());
    assert!(shown_entry(child(".x", FileType::File, 1), true).is_some());
}

#[test]
fn collecting_keeps_the_order() {
    let children = vec![
        child("c", FileType::File, 1),
        child("a", FileType::Dir, 1),
        child(".h", FileType::File, 1),
        child("b", FileType::File, 1),
    ];
    assert_eq!(names(&collect_entries(children, false)), ["c", "a", "b"]);
}

#[test]
fn directories_come_first_whatever_the_switches() {
    let children = || {
        vec![
            child("f1", FileType::File, 500),
            child("d1", FileType::Dir, 1),
            child("f2", FileType::File, 5),
            child("d2", FileType::Dir, 9000),
        ]
    };
    let mut flags = Flags::default();
    assert_eq!(listed(children(), &flags), ["d1", "d2", "f1", "f2"]);
    flags.sort_by_size = true;
    assert_eq!(listed(children(), &flags), ["d2", "d1", "f1", "f2"]);
    flags.reverse_sort = true;
    assert_eq!(listed(children(), &flags), ["d1", "d2", "f2", "f1"]);
    flags.sort_by_modified_time = true;
    assert_eq!(listed(children(), &flags), ["d1", "d2", "f2", "f1"]);
}

#[test]
fn reverse_alone_changes_nothing() {
    let children = || {
        vec![
            child("z", FileType::File, 3),
            child("d", FileType::Dir, 1),
            child("a", FileType::File, 300),
            child("m", FileType::File, 30),
        ]
    };
    let plain = Flags::default();
    let mut reversed = Flags::default();
    reversed.reverse_sort = true;
    assert_eq!(listed(children(), &plain), listed(children(), &reversed));
    assert_eq!(listed(children(), &plain), ["d", "z", "a", "m"]);
}

#[test]
fn sorting_by_size_puts_the_largest_first() {
    let children = || {
        vec![
            child("ten", FileType::File, 10),
            child("hundred", FileType::File, 100),
            child("one", FileType::File, 1),
        ]
    };
    let mut flags = Flags::default();
    flags.sort_by_size = true;
    assert_eq!(listed(children(), &flags), ["hundred", "ten", "one"]);
    flags.reverse_sort = true;
    assert_eq!(listed(children(), &flags), ["one", "ten", "hundred"]);
}

#[test]
fn sorting_by_time_puts_the_newest_first() {
    let entries = || vec![file("old", 1, 900), file("new", 1, 10), file("mid", 1, 500)];
    let mut flags = Flags::default();
    flags.sort_by_modified_time = true;
    assert_eq!(names(&sort_entries(entries(), &flags, &NOW)), ["new", "mid", "old"]);
    flags.reverse_sort = true;
    assert_eq!(names(&sort_entries(entries(), &flags, &NOW)), ["old", "mid", "new"]);
}

#[test]
fn time_breaks_ties_of_size() {
    let entries = || {
        vec![file("small-old", 1, 900), file("big-old", 9, 900), file("big-new", 9, 10), file("small-new", 1, 10)]
    };
    let mut flags = Flags::default();
    flags.sort_by_size = true;
    flags.sort_by_modified_time = true;
    assert_eq!(
        names(&sort_entries(entries(), &flags, &NOW)),
        ["big-new", "big-old", "small-new", "small-old"]
    );
    flags.reverse_sort = true;
    assert_eq!(
        names(&sort_entries(entries(), &flags, &NOW)),
        ["small-old", "small-new", "big-old", "big-new"]
    );
}

#[test]
fn ties_keep_the_order_in_which_they_came() {
    let entries = || vec![file("c", 5, 1), file("a", 5, 2), file("b", 7, 3), file("d", 5, 4)];
    let mut flags = Flags::default();
    flags.sort_by_size = true;
    assert_eq!(names(&sort_entries(entries(), &flags, &NOW)), ["b", "c", "a", "d"]);
    flags.reverse_sort = true;
    assert_eq!(names(&sort_entries(entries(), &flags, &NOW)), ["c", "a", "d", "b"]);
}

#[test]
fn unknown_and_coming_times_sort_first() {
    let mut unknown = file("unknown", 1, 0);
    unknown.metadata.modified = Err("unsupported".to_string());
    let mut ahead = file("ahead", 1, 0);
    ahead.metadata.modified = Ok(Timestamp { secs: NOW.secs + 50, nanos: 0 });
    let mut nanos = file("nanos", 1, 0);
    nanos.metadata.modified = Ok(Timestamp { secs: NOW.secs - 1, nanos: 999_999_999 });
    let mut flags = Flags::default();
    flags.sort_by_modified_time = true;
    let mut ancient = file("ancient", 1, 0);
    ancient.metadata.modified = Ok(Timestamp { secs: -5, nanos: 1 });
    let sorted = sort_entries(
        vec![ancient, file("old", 1, 2), nanos, unknown, file("now", 1, 0), ahead],
        &flags,
        &NOW,
    );
    assert_eq!(names(&sorted), ["unknown", "ahead", "now", "nanos", "old", "ancient"]);
    let key = sort_key(&sorted[5], &flags, &NOW);
    assert_eq!(key.elapsed, Some(2_000_004_999_999_999));
}

#[test]
fn keys_hold_what_was_asked_for() {
    let entry = file("a", 10, 3);
    let mut flags = Flags::default();
    let key = sort_key(&entry, &flags, &NOW);
    assert_eq!(key.kind, FileType::File);
    assert_eq!(key.size, None);
    assert_eq!(key.elapsed, None);
    flags.sort_by_size = true;
    flags.sort_by_modified_time = true;
    let key = sort_key(&entry, &flags, &NOW);
    assert_eq!(key.size, Some(u64::MAX - 10));
    assert_eq!(key.elapsed, Some(3_000_000_000));
    assert!(sort_key(&dir("d", 1, 1), &flags, &NOW).is_before(&key, false));
    assert!(sort_key(&dir("d", 1, 1), &flags, &NOW).is_before(&key, true));
    assert!(!key.is_before(&key, false));
}

#[test]
fn sorting_nothing_and_one() {
    let flags = Flags::default();
    assert!(sort_entries(Vec::new(), &flags, &NOW).is_empty());
    assert_eq!(names(&sort_entries(vec![file("a", 1, 1)], &flags, &NOW)), ["a"]);
}

#[test]
fn permissions_of_rw_r() {
    assert_eq!(parse_permissions(0o640), "rw-r-----");
}

#[test]
fn permissions_of_every_class() {
    assert_eq!(parse_permissions(0), "---------");
    assert_eq!(parse_permissions(0o777), "rwxrwxrwx");
    assert_eq!(parse_permissions(0o755), "rwxr-xr-x");
    assert_eq!(parse_permissions(0o100644), "rw-r--r--");
    assert_eq!(parse_permissions(0o421), "r---w---x");
    assert_eq!(parse_permissions(0o124), "--x-w-r--");
    assert_eq!(file("a", 1, 1).get_permissions(), "rw-r--r--");
}

#[test]
fn triplets() {
    assert_eq!(triplet(0o7, 4, 2, 1), "rwx");
    assert_eq!(triplet(0o0, 4, 2, 1), "---");
    assert_eq!(triplet(0o4, 4, 2, 1), "r--");
    assert_eq!(triplet(0o2, 4, 2, 1), "-w-");
    assert_eq!(triplet(0o1, 4, 2, 1), "--x");
    assert_eq!(triplet(0o5, 4, 2, 1), "r-x");
    assert_eq!(triplet(0o6, 4, 2, 1), "rw-");
    assert_eq!(triplet(0o3, 4, 2, 1), "-wx");
    assert_eq!(triplet(0o700, libc::S_IRUSR, libc::S_IWUSR, libc::S_IXUSR), "rwx");
    assert_eq!(triplet(0o077, libc::S_IRUSR, libc::S_IWUSR, libc::S_IXUSR), "---");
}

#[test]
fn owners_fall_back_to_the_ids() {
    assert_eq!(owner_and_group(1000, Some("ann".to_string()), 50, Some("staff".to_string())), "ann staff");
    assert_eq!(owner_and_group(1000, None, 50, Some("staff".to_string())), "1000 staff");
    assert_eq!(owner_and_group(1000, Some("ann".to_string()), 50, None), "ann 50");
    assert_eq!(owner_and_group(0, None, u32::MAX, None), "0 4294967295");
}

#[test]
fn owners_from_the_machine() {
    let mut meta = metadata(1, 1);
    meta.uid = 4_000_000_123;
    meta.gid = 4_000_000_456;
    assert_eq!(get_file_owner_and_group(&meta), "4000000123 4000000456");
    meta.uid = 0;
    let text = get_file_owner_and_group(&meta);
    let expected = match users::get_user_by_uid(0) {
        Some(user) => format!("{} 4000000456", user.name().to_string_lossy()),
        None => "0 4000000456".to_string(),
    };
    assert_eq!(text, expected);
}

#[test]
fn links_and_names() {
    let mut entry = file("a", 1, 1);
    entry.metadata.links = 17;
    assert_eq!(entry.get_links(), "17");
    assert_eq!(entry.get_name(), "a");
    entry.name = vec![b'a', 0xff, b'b'];
    assert_eq!(entry.get_name(), "a\u{fffd}b");
    entry.name = "héllo".as_bytes().to_vec();
    assert_eq!(entry.get_name(), "héllo");
    assert!(dir("d", 1, 1).is_folder());
}

#[test]
fn dates_have_their_form() {
    let text = get_file_date(&Timestamp { secs: 1_726_000_000, nanos: 0 });
    let chars: Vec<char> = text.chars().collect();
    assert_eq!(chars.len(), 12);
    assert_eq!(chars[3], ' ');
    assert_eq!(chars[6], ' ');
    assert_eq!(chars[9], ':');
    for at in [4, 5, 7, 8, 10, 11] {
        assert!(chars[at].is_ascii_digit());
    }
    assert!(["Sep"].contains(&&text[..3]));
    let expected = chrono::TimeZone::timestamp_opt(&chrono::Local, 1_726_000_000, 0)
        .unwrap()
        .format("%b %d %H:%M")
        .to_string();
    assert_eq!(text, expected);
}

#[test]
fn dates_out_of_range() {
    assert_eq!(get_file_date(&Timestamp { secs: i64::MAX, nanos: 0 }), "Error: out of range");
    assert_eq!(get_file_date(&Timestamp { secs: i64::MAX, nanos: u32::MAX }), "Error: out of range");
    assert_eq!(
        get_file_date(&Timestamp { secs: 8_210_266_876_800, nanos: 0 }),
        "Error: out of range"
    );
    assert_eq!(
        get_file_date(&Timestamp { secs: 8_210_266_876_799, nanos: 1_000_000_000 }),
        "Error: out of range"
    );
}

fn assert_is_date(text: &str) {
    let chars: Vec<char> = text.chars().collect();
    assert_eq!(chars.len(), 12, "{}", text);
    let months =
        ["Jan", "Feb", "Mar", "Apr", "May", "Jun", "Jul", "Aug", "Sep", "Oct", "Nov", "Dec"];
    assert!(months.contains(&&text[..3]), "{}", text);
    assert_eq!(chars[3], ' ');
    assert_eq!(chars[6], ' ');
    assert_eq!(chars[9], ':');
    let number = |at: usize| -> u32 {
        chars[at].to_digit(10).unwrap() * 10 + chars[at + 1].to_digit(10).unwrap()
    };
    assert!((1..=31).contains(&number(4)), "{}", text);
    assert!(number(7) <= 23, "{}", text);
    assert!(number(10) <= 59, "{}", text);
}

#[test]
fn every_time_from_1970_to_the_last_second_has_a_date() {
    assert_is_date(&get_file_date(&Timestamp { secs: 0, nanos: 0 }));
    assert_is_date(&get_file_date(&Timestamp { secs: 0, nanos: 999_999_999 }));
    assert_is_date(&get_file_date(&Timestamp { secs: 253_402_300_799, nanos: 0 }));
    assert_is_date(&get_file_date(&Timestamp { secs: 8_210_266_876_799, nanos: 999_999_999 }));
    assert_is_date(&get_file_date(&Timestamp { secs: 8_210_266_876_798, nanos: 1_999_999_999 }));
    let mut secs: i64 = 1;
    while secs < 8_210_266_876_799 {
        assert_is_date(&get_file_date(&Timestamp { secs, nanos: 123 }));
        assert_is_date(&get_file_date(&Timestamp { secs: secs + 86_399, nanos: 0 }));
        secs = secs * 3 + 7919;
    }
    for step in 0..2000i64 {
        assert_is_date(&get_file_date(&Timestamp { secs: 1_700_000_000 + step * 40_003, nanos: 0 }));
    }
}

#[test]
fn the_last_second_is_that_of_the_calendar() {
    assert!(chrono::DateTime::from_timestamp(8_210_266_876_799, 999_999_999).is_some());
    assert!(chrono::DateTime::from_timestamp(8_210_266_876_800, 0).is_none());
    assert!(chrono::TimeZone::timestamp_opt(&chrono::Local, 8_210_266_876_799, 0).single().is_some());
    assert!(chrono::TimeZone::timestamp_opt(&chrono::Local, 8_210_266_876_800, 0).single().is_none());
}

#[test]
fn two_times_in_one_minute_have_one_date() {
    let first = get_file_date(&Timestamp { secs: 1_726_000_020, nanos: 0 });
    let second = get_file_date(&Timestamp { secs: 1_726_000_079, nanos: 999_999_999 });
    assert_eq!(first, second);
    assert_ne!(first, get_file_date(&Timestamp { secs: 1_726_000_080, nanos: 0 }));
}

#[test]
fn times_before_1970_say_how_long_before() {
    assert_eq!(
        get_file_date(&Timestamp { secs: -2, nanos: 500_000_000 }),
        "Error: SystemTimeError(1.5s)"
    );
    assert_eq!(get_file_date(&Timestamp { secs: -1, nanos: 0 }), "Error: SystemTimeError(1s)");
    assert_eq!(
        get_file_date(&Timestamp { secs: -1, nanos: 999_999_999 }),
        "Error: SystemTimeError(1ns)"
    );
    for (secs, nanos) in [(-2i64, 500_000_000u32), (-86_400, 0), (-1, 1), (-1_000_000_000, 250)] {
        let before = std::time::Duration::new(-secs as u64, 0) - std::time::Duration::new(0, nanos);
        let time = std::time::SystemTime::UNIX_EPOCH - before;
        let expected = match time.duration_since(std::time::SystemTime::UNIX_EPOCH) {
            Ok(_) => unreachable!(),
            Err(e) => format!("Error: {e:?}"),
        };
        assert_eq!(get_file_date(&Timestamp { secs, nanos }), expected);
    }
    assert_eq!(
        get_file_date(&Timestamp { secs: i64::MIN, nanos: 0 }),
        format!("Error: SystemTimeError({:?})", std::time::Duration::new(1 << 63, 0))
    );
    assert_is_date(&get_file_date(&Timestamp { secs: -1, nanos: 1_000_000_000 }));
}

#[test]
fn directories_order_before_the_rest() {
    assert!(FileType::Dir < FileType::File);
    assert_eq!(Ord::cmp(&FileType::Dir, &FileType::File), std::cmp::Ordering::Less);
    assert_eq!(Ord::cmp(&FileType::File, &FileType::File), std::cmp::Ordering::Equal);
    assert_eq!(FileType::File.max(FileType::Dir), FileType::File);
}

#[test]
fn modified_time_or_the_reason() {
    let mut entry = file("a", 1, 1);
    entry.metadata.modified = Err("boom".to_string());
    assert_eq!(entry.get_modified_time(), "Error: boom");
    entry.metadata.modified = Ok(Timestamp { secs: 86_400 * 365, nanos: 5 });
    assert_eq!(entry.get_modified_time().chars().count(), 12);
}

#[test]
fn timestamps_in_nanoseconds() {
    assert_eq!(Timestamp { secs: 0, nanos: 0 }.as_nanos(), 0);
    assert_eq!(Timestamp { secs: 2, nanos: 5 }.as_nanos(), 2_000_000_005);
    assert_eq!(Timestamp { secs: -2, nanos: 5 }.as_nanos(), -1_999_999_995);
    assert_eq!(
        Timestamp { secs: i64::MAX, nanos: u32::MAX }.as_nanos(),
        i64::MAX as i128 * 1_000_000_000 + u32::MAX as i128
    );
    assert_eq!(
        Timestamp { secs: i64::MIN, nanos: 0 }.as_nanos(),
        i64::MIN as i128 * 1_000_000_000
    );
}

#[test]
fn large_listings_are_sorted_stably() {
    let mut seed: u64 = 0x2545_f491_4f6c_dd1d;
    let mut next = || {
        seed ^= seed << 13;
        seed ^= seed >> 7;
        seed ^= seed << 17;
        seed
    };
    for round in 0..8u32 {
        let mut flags = Flags::default();
        flags.sort_by_size = round & 1 != 0;
        flags.sort_by_modified_time = round & 2 != 0;
        flags.reverse_sort = round & 4 != 0;
        let count = 700 + round as usize;
        let make = |index: usize, draw: u64| {
            let name = format!("n{}", index);
            if draw % 5 == 0 {
                dir(&name, draw % 7, ((draw >> 8) % 4) as i64)
            } else {
                file(&name, draw % 7, ((draw >> 8) % 4) as i64)
            }
        };
        let draws: Vec<u64> = (0..count).map(|_| next()).collect();
        let entries: Vec<Entry> = draws.iter().enumerate().map(|(i, d)| make(i, *d)).collect();
        let mut expected: Vec<Entry> = draws.iter().enumerate().map(|(i, d)| make(i, *d)).collect();
        expected.sort_by(|a, b| {
            let key = |entry: &Entry| {
                (
                    if flags.sort_by_size { Some(u64::MAX - entry.metadata.size) } else { None },
                    if flags.sort_by_modified_time {
                        entry.metadata.modified.as_ref().ok().map(|at| NOW.secs - at.secs)
                    } else {
                        None
                    },
                )
            };
            let mut ordering = Ord::cmp(&key(a), &key(b));
            if flags.reverse_sort {
                ordering = ordering.reverse();
            }
            Ord::cmp(&!a.is_folder(), &!b.is_folder()).then(ordering)
        });
        assert_eq!(names(&sort_entries(entries, &flags, &NOW)), names(&expected));
    }
}

#[test]
fn times_from_lengths_before_and_after_1970() {
    assert_eq!(Timestamp::after_epoch(5, 7), Some(Timestamp { secs: 5, nanos: 7 }));
    assert_eq!(
        Timestamp::after_epoch(i64::MAX as u64, u32::MAX),
        Some(Timestamp { secs: i64::MAX, nanos: u32::MAX })
    );
    assert_eq!(Timestamp::after_epoch(i64::MAX as u64 + 1, 0), None);
    assert_eq!(Timestamp::before_epoch(0, 0), Some(Timestamp { secs: 0, nanos: 0 }));
    assert_eq!(Timestamp::before_epoch(1, 0), Some(Timestamp { secs: -1, nanos: 0 }));
    assert_eq!(
        Timestamp::before_epoch(1, 500_000_000),
        Some(Timestamp { secs: -2, nanos: 500_000_000 })
    );
    assert_eq!(Timestamp::before_epoch(0, 1), Some(Timestamp { secs: -1, nanos: 999_999_999 }));
    assert_eq!(
        Timestamp::before_epoch(i64::MAX as u64, 999_999_999),
        Some(Timestamp { secs: i64::MIN, nanos: 1 })
    );
    assert_eq!(Timestamp::before_epoch(i64::MAX as u64 + 1, 0), None);
    assert_eq!(Timestamp::before_epoch(0, 1_000_000_000), None);
    assert_eq!(Timestamp::before_epoch(3, 250).unwrap().as_nanos(), -3_000_000_250);
}

#[test]
fn the_date_is_that_of_the_second_in_the_local_zone() {
    for secs in [0i64, 59, 60, 1_726_000_000, 253_402_300_799, 8_210_266_876_799] {
        let local = chrono::TimeZone::timestamp_opt(&chrono::Local, secs, 0).unwrap();
        let east = chrono::Offset::fix(local.offset()).local_minus_utc();
        let expected = chrono::DateTime::from_timestamp(secs, 0)
            .unwrap()
            .with_timezone(&chrono::FixedOffset::east_opt(east).unwrap())
            .format("%b %d %H:%M")
            .to_string();
        assert_eq!(get_file_date(&Timestamp { secs, nanos: 999_999_999 }), expected);
        assert_eq!(get_file_date(&Timestamp { secs, nanos: 0 }), local.format("%b %d %H:%M").to_string());
    }
}

#[test]
fn every_offset_within_a_day_gives_a_date_up_to_the_last_second() {
    for east in [-86_399, -3_600, 0, 1, 19_800, 86_399] {
        let zone = chrono::FixedOffset::east_opt(east).unwrap();
        for secs in [0i64, 1_726_000_000, 8_210_266_876_799] {
            let text = chrono::DateTime::from_timestamp(secs, 999_999_999)
                .unwrap()
                .with_timezone(&zone)
                .format("%b %d %H:%M")
                .to_string();
            assert_is_date(&text);
        }
    }
    assert!(chrono::FixedOffset::east_opt(86_400).is_none());
    assert!(chrono::FixedOffset::east_opt(-86_400).is_none());
    let utc = chrono::DateTime::from_timestamp(0, 0).unwrap();
    let east = utc.with_timezone(&chrono::FixedOffset::east_opt(3_600).unwrap());
    assert_eq!(east.format("%b %d %H:%M").to_string(), "Jan 01 01:00");
}
