use cgroup::{CGroup, DirEntry};

fn handle(contents: &[u8]) -> CGroup {
    CGroup::from_base_and_contents(b"/sys/fs/cgroup".to_vec(), contents)
}

fn file(name: &[u8]) -> DirEntry {
    DirEntry { name: name.to_vec(), is_file: true }
}

fn subdir(name: &[u8]) -> DirEntry {
    DirEntry { name: name.to_vec(), is_file: false }
}

#[test]
fn handle_keeps_base_and_placement() {
    let cg = handle(b"5:memory:/user.slice/u.service\n");
    assert_eq!(cg.base(), &b"/sys/fs/cgroup".to_vec());
    assert_eq!(cg.placement_len(), 1);
    assert_eq!(cg.placement_path(b"memory"), Some(&b"/user.slice/u.service".to_vec()));
}

#[test]
fn typical_memory_directory() {
    let cg = handle(b"5:memory:/user.slice/u.service\n");
    assert_eq!(
        cg.controller_dir(b"memory"),
        Some(b"/sys/fs/cgroup/memory/user.slice/u.service".to_vec())
    );
    let mut view = cg
        .controller(b"memory", Some(vec![file(b"memory.usage_in_bytes")]))
        .unwrap();
    assert_eq!(view.path(), &b"/sys/fs/cgroup/memory/user.slice/u.service".to_vec());
    assert_eq!(
        view.attribute_path(b"memory.usage_in_bytes"),
        b"/sys/fs/cgroup/memory/user.slice/u.service/memory.usage_in_bytes".to_vec()
    );
}

#[test]
fn root_placement_gives_trailing_separator() {
    let cg = handle(b"3:cpu,cpuacct:/\n");
    assert_eq!(cg.controller_dir(b"cpu"), Some(b"/sys/fs/cgroup/cpu/".to_vec()));
    assert_eq!(cg.controller_dir(b"cpuacct"), Some(b"/sys/fs/cgroup/cpuacct/".to_vec()));
}

#[test]
fn co_mounted_controllers_each_get_a_view() {
    let cg = handle(b"3:cpu,cpuacct:/\n");
    let cpu = cg.controller(b"cpu", Some(vec![file(b"cpu.shares")])).unwrap();
    let acct = cg.controller(b"cpuacct", Some(vec![file(b"cpuacct.usage")])).unwrap();
    assert_eq!(cpu.path(), &b"/sys/fs/cgroup/cpu/".to_vec());
    assert_eq!(acct.path(), &b"/sys/fs/cgroup/cpuacct/".to_vec());
    assert_eq!(cpu.cached(b"cpu.shares"), Some(&b"/sys/fs/cgroup/cpu/cpu.shares".to_vec()));
}

#[test]
fn missing_controller_gives_no_view() {
    let cg = handle(b"5:memory:/\n");
    assert_eq!(cg.controller_dir(b"blkio"), None);
    assert!(cg.controller(b"blkio", Some(vec![file(b"blkio.weight")])).is_none());
}

#[test]
fn unlistable_directory_gives_no_view() {
    let cg = handle(b"5:memory:/gone\n");
    assert!(cg.controller(b"memory", None).is_none());
}

#[test]
fn listed_controller_gives_a_view() {
    let cg = handle(b"5:memory:/here\n");
    assert!(cg.controller(b"memory", Some(Vec::new())).is_some());
}

#[test]
fn embedded_colon_directory() {
    let cg = handle(b"7:devices:/a:b/c\n");
    assert_eq!(
        cg.controller_dir(b"devices"),
        Some(b"/sys/fs/cgroup/devices/a:b/c".to_vec())
    );
}

#[test]
fn base_with_trailing_separator() {
    let cg = CGroup::from_base_and_contents(b"/mnt/cg/".to_vec(), b"1:pids:/p\n");
    assert_eq!(cg.controller_dir(b"pids"), Some(b"/mnt/cg/pids/p".to_vec()));
}

#[test]
fn listing_seeds_regular_files_only() {
    let cg = handle(b"5:memory:/\n");
    let view = cg
        .controller(
            b"memory",
            Some(vec![file(b"memory.limit_in_bytes"), subdir(b"child"), file(b"tasks")]),
        )
        .unwrap();
    assert_eq!(
        view.cached(b"memory.limit_in_bytes"),
        Some(&b"/sys/fs/cgroup/memory/memory.limit_in_bytes".to_vec())
    );
    assert_eq!(view.cached(b"child"), None);
    assert_eq!(view.cached(b"tasks"), Some(&b"/sys/fs/cgroup/memory/tasks".to_vec()));
}

#[test]
fn unlisted_attribute_is_recorded_on_lookup() {
    let cg = handle(b"5:memory:/\n");
    let mut view = cg.controller(b"memory", Some(Vec::new())).unwrap();
    assert_eq!(view.cached(b"memory.stat"), None);
    let p = view.attribute_path(b"memory.stat");
    assert_eq!(p, b"/sys/fs/cgroup/memory/memory.stat".to_vec());
    assert_eq!(view.cached(b"memory.stat"), Some(&p));
}

#[test]
fn repeated_lookup_gives_same_path() {
    let cg = handle(b"5:memory:/\n");
    let mut view = cg.controller(b"memory", Some(Vec::new())).unwrap();
    let first = view.attribute_path(b"does.not.exist");
    let second = view.attribute_path(b"does.not.exist");
    assert_eq!(first, second);
    assert_eq!(view.cached(b"does.not.exist"), Some(&first));
}

#[test]
fn lookup_keeps_seeded_path() {
    let cg = handle(b"5:memory:/\n");
    let mut view = cg.controller(b"memory", Some(vec![file(b"tasks")])).unwrap();
    assert_eq!(view.attribute_path(b"tasks"), b"/sys/fs/cgroup/memory/tasks".to_vec());
}
