use lsrs::cli::{Flags, Parsed};

fn args(list: &[&str]) -> Vec<Vec<u8>> {
    list.iter().map(|arg| arg.as_bytes().to_vec()).collect()
}

/// Catch problems earlier in the development cycle
#[test]
fn verify_cli_in_dev_cycle() {
    Flags::command().debug_assert();
}

#[test]
fn test_override_default_h_flag() {
    // this method WILL NOT exit when --help or --version (or short versions) are used
    // it will return a clap::Error, where the kind is a
    // ErrorKind::DisplayHelp or ErrorKind::DisplayVersion respectively
    let res = Flags::command().try_get_matches_from(["lsrs", "-h"]);
    assert!(res.is_ok());
}

#[test]
fn short_h_means_human_units() {
    let flags = Flags::from_args(&args(&["lsrs", "-h"])).unwrap();
    assert!(flags.human);
    assert!(!flags.show_hidden);
    assert!(!flags.show_size);
    assert!(!flags.reverse_sort);
    assert!(!flags.sort_by_size);
    assert!(!flags.long_listing);
    assert!(!flags.sort_by_modified_time);
    assert!(!flags.stream_output);
    assert_eq!(flags.path, None);
}

#[test]
fn no_arguments_give_the_defaults() {
    let flags = Flags::from_args(&args(&["lsrs"])).unwrap();
    let defaults = Flags::default();
    assert_eq!(format!("{:?}", flags), format!("{:?}", defaults));
    assert_eq!(flags.path, None);
}

#[test]
fn every_short_switch_is_understood() {
    let flags = Flags::from_args(&args(&["lsrs", "-a", "-s", "-h", "-r", "-S", "-l", "-t", "-m"]))
        .unwrap();
    assert!(flags.show_hidden);
    assert!(flags.show_size);
    assert!(flags.human);
    assert!(flags.reverse_sort);
    assert!(flags.sort_by_size);
    assert!(flags.long_listing);
    assert!(flags.sort_by_modified_time);
    assert!(flags.stream_output);
}

#[test]
fn every_long_switch_is_understood() {
    let flags = Flags::from_args(&args(&[
        "lsrs",
        "--all",
        "--sizes",
        "--human",
        "--reverse",
        "--sort-size",
        "--long-listing",
        "--sort-mtime",
        "--stream-output",
        "some/dir",
    ]))
    .unwrap();
    assert!(flags.show_hidden);
    assert!(flags.show_size);
    assert!(flags.human);
    assert!(flags.reverse_sort);
    assert!(flags.sort_by_size);
    assert!(flags.long_listing);
    assert!(flags.sort_by_modified_time);
    assert!(flags.stream_output);
    assert_eq!(flags.path, Some(b"some/dir".to_vec()));
}

#[test]
fn combined_short_switches_and_a_path() {
    let flags = Flags::from_args(&args(&["lsrs", "-lSr", "/tmp"])).unwrap();
    assert!(flags.long_listing);
    assert!(flags.sort_by_size);
    assert!(flags.reverse_sort);
    assert!(!flags.human);
    assert_eq!(flags.path, Some(b"/tmp".to_vec()));
}

#[test]
fn help_is_a_refusal_that_is_no_failure() {
    let refusal = Flags::from_args(&args(&["lsrs", "--help"])).unwrap_err();
    assert!(!refusal.failure);
    assert!(refusal.message.contains("lsrs - list directory contents"));
    assert!(refusal.message.contains("Usage: lsrs [OPTIONS] [PATH]"));
    assert!(refusal.message.contains("-a, --all"));
    assert!(refusal.message.contains("-h, --human"));
    assert!(refusal.message.contains("--help"));
}

#[test]
fn an_unknown_switch_is_a_failure() {
    let refusal = Flags::from_args(&args(&["lsrs", "--no-such-switch"])).unwrap_err();
    assert!(refusal.failure);
    assert!(refusal.message.contains("--no-such-switch"));
}

#[test]
fn two_paths_are_a_failure() {
    let refusal = Flags::from_args(&args(&["lsrs", "one", "two"])).unwrap_err();
    assert!(refusal.failure);
}

#[test]
fn from_parsed_takes_only_given_switches() {
    let flags = Flags::from_parsed(Parsed {
        show_hidden: Some(true),
        show_size: Some(false),
        human: None,
        reverse_sort: Some(true),
        sort_by_size: None,
        long_listing: Some(false),
        sort_by_modified_time: Some(true),
        stream_output: None,
        path: Some(b"x".to_vec()),
    });
    assert!(flags.show_hidden);
    assert!(!flags.show_size);
    assert!(!flags.human);
    assert!(flags.reverse_sort);
    assert!(!flags.sort_by_size);
    assert!(!flags.long_listing);
    assert!(flags.sort_by_modified_time);
    assert!(!flags.stream_output);
    assert_eq!(flags.path, Some(b"x".to_vec()));
}

#[test]
fn help_lists_every_switch() {
    // remove all blank lines
    let info = Flags::command()
        .render_help()
        .to_string()
        .lines()
        .filter(|l| !l.is_empty())
        .map(|l| l.to_string())
        .collect::<Vec<String>>();

    assert_eq!(info, vec![
        "lsrs - list directory contents",
        "Usage: lsrs [OPTIONS] [PATH]",
        "Arguments:",
        "  [PATH]  path to list entries from",
        "Options:",
        "      --help           show this help message",
        "  -a, --all            do not ignore entries starting with `.`",
        "  -s, --sizes          show sizes of files; use -h for human-readable units",
        "  -h, --human          print sizes in human-readable units",
        "  -r, --reverse        reverse order when sorting (-S, -t)",
        "  -S, --sort-size      sort by file size, largest first (specify -r for smallest first)",
        "  -l, --long-listing   long listing (-l)",
        "  -t, --sort-mtime     sort by time modified, newest first (specify -r for oldest first)",
        "  -m, --stream-output  list files separated by `, `",
    ]);
}

#[test]
fn the_command_holds_every_argument_in_order() {
    let command = Flags::command();
    assert_eq!(command.get_name(), "lsrs");
    assert_eq!(command.get_about().unwrap().to_string(), "lsrs - list directory contents");
    assert!(command.is_disable_help_flag_set());
    let held: Vec<(String, Option<char>, Option<String>, String)> = command
        .get_arguments()
        .map(|arg| {
            (
                arg.get_id().to_string(),
                arg.get_short(),
                arg.get_long().map(|long| long.to_string()),
                arg.get_help().unwrap().to_string(),
            )
        })
        .collect();
    let expected = [
        ("help", None, Some("help"), "show this help message"),
        ("show_hidden", Some('a'), Some("all"), "do not ignore entries starting with `.`"),
        ("show_size", Some('s'), Some("sizes"), "show sizes of files; use -h for human-readable units"),
        ("human", Some('h'), Some("human"), "print sizes in human-readable units"),
        ("reverse_sort", Some('r'), Some("reverse"), "reverse order when sorting (-S, -t)"),
        (
            "sort_by_size",
            Some('S'),
            Some("sort-size"),
            "sort by file size, largest first (specify -r for smallest first)",
        ),
        ("long_listing", Some('l'), Some("long-listing"), "long listing (-l)"),
        (
            "sort_by_modified_time",
            Some('t'),
            Some("sort-mtime"),
            "sort by time modified, newest first (specify -r for oldest first)",
        ),
        ("stream_output", Some('m'), Some("stream-output"), "list files separated by `, `"),
        ("path", None, None, "path to list entries from"),
    ];
    assert_eq!(held.len(), expected.len());
    for (found, wanted) in held.iter().zip(expected.iter()) {
        assert_eq!(found.0, wanted.0);
        assert_eq!(found.1, wanted.1);
        assert_eq!(found.2.as_deref(), wanted.2);
        assert_eq!(found.3, wanted.3);
    }
    let actions: Vec<String> =
        Flags::command().get_arguments().map(|arg| format!("{:?}", arg.get_action())).collect();
    assert_eq!(actions[0], "Help");
    assert_eq!(actions[1], "SetTrue");
    assert_eq!(actions[8], "SetTrue");
    assert_eq!(actions[9], "Set");
    let path = Flags::command();
    let path = path.get_arguments().last().unwrap();
    assert!(path.is_positional());
    assert_eq!(path.get_value_names().unwrap()[0].as_str(), "PATH");
}

#[test]
fn flags_are_what_the_matches_hold() {
    let line = args(&["lsrs", "-a", "-t", "some/where"]);
    let matches = Flags::command().try_get_matches_from(["lsrs", "-a", "-t", "some/where"]).unwrap();
    let flags = Flags::from_matches(&matches, &line);
    assert!(flags.show_hidden);
    assert!(flags.sort_by_modified_time);
    assert!(!flags.show_size);
    assert!(!flags.human);
    assert!(!flags.reverse_sort);
    assert!(!flags.sort_by_size);
    assert!(!flags.long_listing);
    assert!(!flags.stream_output);
    assert_eq!(flags.path, Some(b"some/where".to_vec()));
    let matches = Flags::command().try_get_matches_from(["lsrs"]).unwrap();
    let flags = Flags::from_matches(&matches, &args(&["lsrs"]));
    assert!(!flags.show_hidden);
    assert_eq!(flags.path, None);
    let matches = Flags::command().try_get_matches_from(["lsrs", "elsewhere"]).unwrap();
    let flags = Flags::from_matches(&matches, &args(&["lsrs"]));
    assert_eq!(flags.path, Some(b"elsewhere".to_vec()));
}

#[test]
fn a_path_that_is_no_text_is_kept_byte_for_byte() {
    let line = vec![b"lsrs".to_vec(), b"-l".to_vec(), vec![b'd', 0xff, 0xfe, b'r']];
    let flags = Flags::from_args(&line).unwrap();
    assert!(flags.long_listing);
    assert_eq!(flags.path, Some(vec![b'd', 0xff, 0xfe, b'r']));
    let line = vec![vec![0xff], "caf\u{e9}".as_bytes().to_vec()];
    assert_eq!(Flags::from_args(&line).unwrap().path, Some("caf\u{e9}".as_bytes().to_vec()));
    let line = vec![b"lsrs".to_vec(), vec![0xff], "\u{fffd}".as_bytes().to_vec()];
    assert!(Flags::from_args(&line).unwrap_err().failure);
}

#[test]
fn a_path_may_look_like_a_switch() {
    let flags = Flags::from_args(&args(&["lsrs", "-a", "--", "-a"])).unwrap();
    assert!(flags.show_hidden);
    assert_eq!(flags.path, Some(b"-a".to_vec()));
    let flags = Flags::from_args(&args(&["-a", "lsrs"])).unwrap();
    assert!(!flags.show_hidden);
    assert_eq!(flags.path, Some(b"lsrs".to_vec()));
}

#[test]
fn parsing_the_same_line_twice_gives_the_same() {
    let line = args(&["lsrs", "-S", "-m", "here"]);
    let first = Flags::from_args(&line).unwrap();
    let second = Flags::from_args(&line).unwrap();
    assert_eq!(format!("{:?}", first), format!("{:?}", second));
    assert!(Flags::from_args(&args(&["lsrs", "--help"])).is_err());
    assert!(Flags::from_args(&args(&["lsrs", "--help"])).is_err());
}

#[test]
fn a_hyphen_is_no_short_form_of_any_switch() {
    for arg in Flags::command().get_arguments() {
        assert_ne!(arg.get_short(), Some('-'));
    }
}
