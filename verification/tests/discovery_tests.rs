use genie::discovery::ScanEntry;
use genie::discovery::find;
use genie::discovery::list_all;
use genie::discovery::match_sockname;
use genie::discovery::nth;
use genie::discovery::parse_genie_arg;
use genie::discovery::promote_target;

fn entry(dir_index: usize, file_name: &str) -> ScanEntry {
    ScanEntry { dir_index, file_name: file_name.to_string() }
}

#[test]
fn nth_walks_the_colon_separated_path() {
    let path = "/tmp/x:/tmp/y:/tmp/z".to_string();
    assert_eq!(nth(&path, 0), Some("/tmp/x".to_string()));
    assert_eq!(nth(&path, 1), Some("/tmp/y".to_string()));
    assert_eq!(nth(&path, 2), Some("/tmp/z".to_string()));
    assert_eq!(nth(&path, 3), None);
}

#[test]
fn nth_keeps_empty_segments() {
    let path = "a::b".to_string();
    assert_eq!(nth(&path, 0), Some("a".to_string()));
    assert_eq!(nth(&path, 1), Some("".to_string()));
    assert_eq!(nth(&path, 2), Some("b".to_string()));
    assert_eq!(nth(&"".to_string(), 0), Some("".to_string()));
    assert_eq!(nth(&"".to_string(), 1), None);
}

#[test]
fn socket_names_are_recognised() {
    let m = match_sockname(&"tsc.123.sock".to_string()).expect("a socket name");
    assert_eq!(m.name, "tsc".to_string());
    assert_eq!(m.num, "123".to_string());

    let hidden = match_sockname(&".tsc.1a2b.sock".to_string()).expect("a hidden socket name");
    assert_eq!(hidden.name, "tsc".to_string());
    assert_eq!(hidden.num, "1a2b".to_string());
}

#[test]
fn the_leftmost_fit_wins() {
    let m = match_sockname(&"xx.a.b.sock".to_string()).expect("a fit exists");
    assert_eq!(m.name, "a".to_string());
    assert_eq!(m.num, "b".to_string());
}

#[test]
fn non_socket_names_are_rejected() {
    assert!(match_sockname(&"foo.txt".to_string()).is_none());
    assert!(match_sockname(&"UPPER.1.sock".to_string()).is_none());
    assert!(match_sockname(&"a..sock".to_string()).is_none());
    assert!(match_sockname(&"a.b.sick".to_string()).is_none());
    assert!(match_sockname(&"".to_string()).is_none());
}

#[test]
fn find_returns_the_first_match_in_scan_order() {
    let entries = vec![
        entry(0, "notes.txt"),
        entry(0, "a.1.sock"),
        entry(0, "b.2.sock"),
        entry(1, "a.2.sock"),
    ];
    assert_eq!(find(&entries, &"a".to_string(), &None), Some(1));
    assert_eq!(find(&entries, &"b".to_string(), &None), Some(2));
    assert_eq!(find(&entries, &"a".to_string(), &Some("2".to_string())), Some(3));
    assert_eq!(find(&entries, &"c".to_string(), &None), None);
    assert_eq!(find(&entries, &"a".to_string(), &Some("9".to_string())), None);
}

#[test]
fn list_all_enumerates_matches_in_order() {
    let entries = vec![
        entry(0, "a.1.sock"),
        entry(0, "junk"),
        entry(1, "b.2.sock"),
    ];
    let all = list_all(&entries);
    assert_eq!(all.len(), 2);
    assert_eq!(all[0].entry_index, 0);
    assert_eq!(all[0].name, "a".to_string());
    assert_eq!(all[0].num, "1".to_string());
    assert_eq!(all[1].entry_index, 2);
    assert_eq!(all[1].name, "b".to_string());
    assert_eq!(all[1].num, "2".to_string());
}

#[test]
fn promote_moves_a_genie_one_position_down_the_path() {
    let path = "/tmp/x:/tmp/y:/tmp/z".to_string();
    let before = vec![entry(0, "c.1.sock")];
    let hit = find(&before, &"c".to_string(), &None).expect("the genie is found");
    assert_eq!(before[hit].dir_index, 0);

    let target = promote_target(&path, before[hit].dir_index).expect("the path goes on");
    assert_eq!(target, "/tmp/y".to_string());

    let after = vec![entry(1, "c.1.sock")];
    let hit_after = find(&after, &"c".to_string(), &None).expect("still found");
    assert_eq!(after[hit_after].dir_index, 1);
}

#[test]
fn promotion_stops_at_the_end_of_the_path() {
    let path = "/tmp/x:/tmp/y".to_string();
    assert_eq!(promote_target(&path, 1), None);
}

#[test]
fn genie_arguments_split_into_name_and_number() {
    assert_eq!(parse_genie_arg(&"c".to_string()), ("c".to_string(), None));
    assert_eq!(
        parse_genie_arg(&"c.5".to_string()),
        ("c".to_string(), Some("5".to_string()))
    );
    assert_eq!(
        parse_genie_arg(&"c.5.x".to_string()),
        ("c".to_string(), Some("5".to_string()))
    );
}
