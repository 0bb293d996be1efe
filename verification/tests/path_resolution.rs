use waitfile::paths::absolute_path;

fn resolve(cwd: &str, path: &str) -> String {
    let cwd: Vec<u8> = cwd.as_bytes().to_vec();
    let path: Vec<u8> = path.as_bytes().to_vec();
    String::from_utf8(absolute_path(&cwd, &path)).unwrap()
}

#[test]
fn resolves_relative_against_cwd() {
    assert_eq!(resolve("/home/user", "a.txt"), "/home/user/a.txt");
}

#[test]
fn keeps_absolute_input_unchanged() {
    assert_eq!(resolve("/home/user", "/var/log/messages"), "/var/log/messages");
}

#[test]
fn drops_current_dir_segments() {
    assert_eq!(resolve("/home/user", "./a/./b"), "/home/user/a/b");
}

#[test]
fn parent_segment_removes_component() {
    assert_eq!(resolve("/a/b", "../c"), "/a/c");
}

#[test]
fn parent_segments_stop_at_root() {
    assert_eq!(resolve("/", "../../x"), "/x");
    assert_eq!(resolve("/a", "/../.."), "/");
}

#[test]
fn collapses_repeated_separators() {
    assert_eq!(resolve("/a//b/", "c//d"), "/a/b/c/d");
}

#[test]
fn everything_cancelling_leaves_root() {
    assert_eq!(resolve("/a", ".."), "/");
}

#[test]
fn empty_relative_path_gives_cwd() {
    assert_eq!(resolve("/home/user", ""), "/home/user");
}

#[test]
fn cleans_absolute_input_too() {
    assert_eq!(resolve("/ignored", "/a/b/../c/./d"), "/a/c/d");
}
