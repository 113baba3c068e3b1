use shoumei::ModulePath;

fn mp(segments: &[&str]) -> ModulePath {
    ModulePath(segments.iter().map(|s| s.to_string()).collect())
}

#[test]
fn paths_equal_when_segments_equal() {
    assert!(mp(&["a", "b"]) == mp(&["a", "b"]));
    assert!(!(mp(&["a", "b"]) == mp(&["a", "c"])));
    assert!(!(mp(&["a"]) == mp(&["a", "b"])));
}

#[test]
fn clone_keeps_segments() {
    let p = mp(&["alpha", "beta"]);
    let q = p.clone();
    assert!(p == q);
}

#[test]
fn display_joins_with_forward_slash() {
    let p = mp(&["alpha", "beta", "gamma"]);
    assert!(p.display_string() == "alpha/beta/gamma");
}

#[test]
fn single_segment_displays_bare() {
    assert!(mp(&["main"]).display_string() == "main");
}

#[test]
fn to_path_string_uses_given_separator() {
    let p = mp(&["a", "b", "c"]);
    assert!(p.to_path_string("\\") == "a\\b\\c");
}

#[test]
fn round_trip_reproduces_segments() {
    let p = mp(&["alpha", "beta", "gamma"]);
    let joined = p.to_path_string("/");
    let back = ModulePath::from_path_string(&joined, '/');
    assert!(back == p);
}

#[test]
fn round_trip_keeps_empty_segments() {
    let p = mp(&["", "x"]);
    let joined = p.to_path_string("/");
    assert!(joined == "/x");
    let back = ModulePath::from_path_string(&joined, '/');
    assert!(back == p);
}

#[test]
fn split_of_empty_is_one_empty_segment() {
    let back = ModulePath::from_path_string("", '/');
    assert!(back == mp(&[""]));
}

#[test]
fn split_separates_on_every_separator() {
    let back = ModulePath::from_path_string("one/two/three", '/');
    assert!(back == mp(&["one", "two", "three"]));
}
