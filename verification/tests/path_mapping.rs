use modmeta::contexts::Context;
use modmeta::paths::ModulePath;

#[test]
fn move_to_submodule_of_root_test() {
    let mut context = Context::new(String::new());
    context.move_to_submodule("foo");

    assert_eq!(context.current_path.to_file_path(), String::from("foo.rs"));
}

#[test]
fn move_to_submodule_of_submodule_test() {
    let mut context = Context::new(String::new());
    context.move_to_submodule("foo");
    context.move_to_submodule("bar");

    assert_eq!(
        context.current_path.to_file_path(),
        String::from("foo/bar.rs")
    );
}

#[test]
fn nesting_three_levels_and_back() {
    let mut path = ModulePath::new(String::from("lib.rs"));
    assert_eq!(path.to_file_path(), String::from("lib.rs"));

    path.enter(String::from("foo"));
    assert_eq!(path.to_file_path(), String::from("foo.rs"));

    path.enter(String::from("bar"));
    assert_eq!(path.to_file_path(), String::from("foo/bar.rs"));

    path.enter(String::from("baz"));
    assert_eq!(path.to_file_path(), String::from("foo/bar/baz.rs"));

    path.exit();
    assert_eq!(path.to_file_path(), String::from("foo/bar.rs"));

    path.exit();
    assert_eq!(path.to_file_path(), String::from("foo.rs"));

    path.exit();
    assert_eq!(path.to_file_path(), String::from("lib.rs"));
}

#[test]
fn round_trip_recovers_path_exactly() {
    let mut path = ModulePath::new(String::from("lib.rs"));
    path.enter(String::from("foo"));
    path.enter(String::from("bar"));
    let before = path.to_file_path();

    path.enter(String::from("baz"));
    path.exit();

    assert_eq!(path.to_file_path(), before);
    assert_eq!(path.depth(), 2);
}

#[test]
fn root_path_is_returned_verbatim() {
    let path = ModulePath::new(String::from("src/main.rs"));
    assert_eq!(path.to_file_path(), String::from("src/main.rs"));
    assert_eq!(path.depth(), 0);
}
