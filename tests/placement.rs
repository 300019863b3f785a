use cgroup::placement::parse_placement;

fn path_of(m: &cgroup::bytemap::ByteMap, name: &[u8]) -> Option<Vec<u8>> {
    m.get(name).map(|p| p.clone())
}

#[test]
fn empty_contents_give_empty_map() {
    let m = parse_placement(b"");
    assert_eq!(m.len(), 0);
}

#[test]
fn single_line() {
    let m = parse_placement(b"5:memory:/user.slice/u.service\n");
    assert_eq!(m.len(), 1);
    assert_eq!(path_of(&m, b"memory"), Some(b"/user.slice/u.service".to_vec()));
}

#[test]
fn empty_controller_column_adds_nothing() {
    let m = parse_placement(b"0::/init.scope\n4:pids:/user.slice\n");
    assert_eq!(m.len(), 1);
    assert_eq!(path_of(&m, b""), None);
    assert_eq!(path_of(&m, b"pids"), Some(b"/user.slice".to_vec()));
}

#[test]
fn co_mounted_controllers_share_the_path() {
    let m = parse_placement(b"3:cpu,cpuacct:/\n");
    assert_eq!(m.len(), 2);
    assert_eq!(path_of(&m, b"cpu"), Some(b"/".to_vec()));
    assert_eq!(path_of(&m, b"cpuacct"), Some(b"/".to_vec()));
}

#[test]
fn colon_inside_path_is_kept() {
    let m = parse_placement(b"7:devices:/a:b/c");
    assert_eq!(path_of(&m, b"devices"), Some(b"/a:b/c".to_vec()));
}

#[test]
fn short_lines_are_skipped() {
    let m = parse_placement(b"garbage\n1:cpuset\n\n2:blkio:/x\n");
    assert_eq!(m.len(), 1);
    assert_eq!(path_of(&m, b"blkio"), Some(b"/x".to_vec()));
    assert_eq!(path_of(&m, b"cpuset"), None);
}

#[test]
fn later_line_wins() {
    let m = parse_placement(b"1:cpu:/first\n2:cpu:/second\n");
    assert_eq!(m.len(), 1);
    assert_eq!(path_of(&m, b"cpu"), Some(b"/second".to_vec()));
}

#[test]
fn entries_never_exceed_listed_names() {
    // Four names are listed, one of them twice: three entries.
    let m = parse_placement(b"1:cpu,cpuacct:/a\n2:cpu:/b\n3:memory:/c\n");
    assert_eq!(m.len(), 3);
    assert!(m.len() <= 4);
    assert_eq!(path_of(&m, b"cpu"), Some(b"/b".to_vec()));
    assert_eq!(path_of(&m, b"cpuacct"), Some(b"/a".to_vec()));
}

#[test]
fn empty_names_between_commas_are_skipped() {
    let m = parse_placement(b"1:,cpu,,net_cls,:/n\n");
    assert_eq!(m.len(), 2);
    assert_eq!(path_of(&m, b"net_cls"), Some(b"/n".to_vec()));
}

#[test]
fn non_utf8_names_are_kept_as_bytes() {
    let m = parse_placement(b"9:\xff\xfe:/q\n");
    assert_eq!(path_of(&m, b"\xff\xfe"), Some(b"/q".to_vec()));
}
