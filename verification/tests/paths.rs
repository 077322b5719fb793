use pipemeeter_core::instance::{claimed, lock_path, Attempt};
use pipemeeter_core::paths::{documents_dir, user_dirs_file};

#[test]
fn the_lock_lives_under_a_directory_of_our_own() {
    for runtime in [Some("/run/user/1000"), None] {
        let text = lock_path(runtime, "/tmp");
        let path = std::path::Path::new(&text);
        assert_eq!(path.file_name().unwrap(), "instance.lock");
        assert_eq!(path.parent().unwrap().file_name().unwrap(), "pipemeeter");
    }
}

#[test]
fn a_second_claim_in_this_process_still_sees_the_file() {
    // Not a lock test: flock is per open file description, so a second
    // claim here would succeed. This only pins that the path is stable,
    // which is what makes the lock mean anything across processes.
    assert_eq!(
        lock_path(Some("/run/user/1000"), "/tmp"),
        lock_path(Some("/run/user/1000"), "/tmp")
    );
}

#[test]
fn the_runtime_directory_comes_before_the_temporary_one() {
    assert_eq!(
        lock_path(Some("/run/user/1000"), "/tmp"),
        "/run/user/1000/pipemeeter/instance.lock"
    );
    assert_eq!(lock_path(None, "/tmp/"), "/tmp/pipemeeter/instance.lock");
}

#[test]
fn a_lock_held_by_another_is_no_failure() {
    assert_eq!(claimed(Attempt::Taken), Some(true));
    assert_eq!(claimed(Attempt::HeldByAnother), Some(false));
    assert_eq!(claimed(Attempt::Failed), None);
}

#[test]
fn the_environment_decides_first() {
    assert_eq!(
        documents_dir(Some("/d"), Some("/home/me"), Some("XDG_DOCUMENTS_DIR=\"/e\"")).as_deref(),
        Some("/d")
    );
    assert_eq!(documents_dir(None, None, Some("XDG_DOCUMENTS_DIR=\"/e\"")), None);
}

#[test]
fn the_desktop_decides_next() {
    let file = "# comment\nXDG_MUSIC_DIR=\"$HOME/Music\"\n  XDG_DOCUMENTS_DIR= \"$HOME/Papers\" \nXDG_DOCUMENTS_DIR=\"/late\"\n";
    assert_eq!(
        documents_dir(None, Some("/home/me"), Some(file)).as_deref(),
        Some("/home/me/Papers")
    );
    assert_eq!(
        documents_dir(None, Some("/h"), Some("XDG_DOCUMENTS_DIR=/plain")).as_deref(),
        Some("/plain")
    );
}

#[test]
fn home_is_what_is_left() {
    assert_eq!(
        documents_dir(None, Some("/home/me"), Some("XDG_MUSIC_DIR=x\n")).as_deref(),
        Some("/home/me")
    );
    assert_eq!(documents_dir(None, Some("/home/me"), None).as_deref(), Some("/home/me"));
    assert_eq!(user_dirs_file("/home/me"), "/home/me/.config/user-dirs.dirs");
}
