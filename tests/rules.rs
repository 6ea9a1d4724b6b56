use banyan::error::Error;
use banyan::object::{copy_needed, layer_name, object_name_of, CreateResult, ObjectHasher, CHUNK_LEN};
use banyan::walk::{
    handle_error, plan, readlink_step, LINK_BUF_START, should_write_layer, trim_trailing_slashes, worker_count, worker_step, Plan,
    StatInfo, Step, WalkOptions, WalkState, DT_DIR, DT_LNK, DT_UNKNOWN,
};

const OPTS: WalkOptions = WalkOptions { ignore_errors: false, root_device: None };

fn stat(mode: u32, dev: u64) -> StatInfo {
    StatInfo { mode, uid: 1000, gid: 100, dev }
}

#[test]
fn plan_skips_dot_entries() {
    assert_eq!(plan(true, DT_DIR, None, OPTS), Plan::Skip);
}

#[test]
fn plan_trusts_known_hint_for_links() {
    assert_eq!(plan(false, DT_LNK, None, OPTS), Plan::ReadLink);
    assert_eq!(plan(false, 8, None, OPTS), Plan::Stat);
    assert_eq!(plan(false, 8, Some(stat(0o100644, 1)), OPTS), Plan::File);
    assert_eq!(plan(false, DT_DIR, Some(stat(0o040755, 1)), OPTS), Plan::Directory { enter: true });
}

#[test]
fn plan_stats_unknown_entries() {
    assert_eq!(plan(false, DT_UNKNOWN, None, OPTS), Plan::Stat);
    assert_eq!(plan(false, DT_UNKNOWN, Some(stat(0o120777, 1)), OPTS), Plan::ReadLink);
    assert_eq!(plan(false, DT_UNKNOWN, Some(stat(0o100600, 1)), OPTS), Plan::File);
}

#[test]
fn plan_does_not_enter_other_devices() {
    let opts = WalkOptions { ignore_errors: false, root_device: Some(7) };
    assert_eq!(plan(false, DT_DIR, Some(stat(0o040755, 8)), opts), Plan::Directory { enter: false });
    assert_eq!(plan(false, DT_DIR, Some(stat(0o040755, 7)), opts), Plan::Directory { enter: true });
    assert_eq!(plan(false, 8, Some(stat(0o100644, 8)), opts), Plan::File);
}

#[test]
fn error_policy() {
    assert_eq!(handle_error(OPTS), WalkState::Quit);
    assert_eq!(handle_error(WalkOptions { ignore_errors: true, root_device: None }), WalkState::Continue);
    assert!(!should_write_layer(OPTS, 1));
    assert!(should_write_layer(OPTS, 0));
    assert!(should_write_layer(WalkOptions { ignore_errors: true, root_device: None }, 3));
}

#[test]
fn worker_loop_steps() {
    assert_eq!(worker_step(true, true, 3), Step::Exit);
    assert_eq!(worker_step(false, true, 0), Step::Process);
    assert_eq!(worker_step(false, false, 0), Step::Exit);
    assert_eq!(worker_step(false, false, 2), Step::Spin);
}

#[test]
fn worker_count_reserves_two_on_large_machines() {
    assert_eq!(worker_count(1), 1);
    assert_eq!(worker_count(4), 4);
    assert_eq!(worker_count(5), 3);
    assert_eq!(worker_count(16), 14);
}

#[test]
fn trims_trailing_slashes() {
    assert_eq!(trim_trailing_slashes(b"src//"), b"src".to_vec());
    assert_eq!(trim_trailing_slashes(b"src"), b"src".to_vec());
    assert_eq!(trim_trailing_slashes(b"/"), Vec::<u8>::new());
    assert_eq!(trim_trailing_slashes(b"a/b/"), b"a/b".to_vec());
}

#[test]
fn empty_content_name_is_exact() {
    assert_eq!(object_name_of(b""), "rxNJufX5oaagQE3qNtzJSZvLJcmtwRK3zJqTyuQfMmI".to_string());
    assert_eq!(ObjectHasher::new().finish(), "rxNJufX5oaagQE3qNtzJSZvLJcmtwRK3zJqTyuQfMmI".to_string());
}

#[test]
fn chunked_hash_matches_whole() {
    let mut h = ObjectHasher::new();
    assert!(!h.feed(b"hel"));
    assert!(!h.feed(b"lo"));
    let name = h.finish();
    assert_eq!(name, object_name_of(b"hello"));
    assert_eq!(name.len(), 43);
    assert_ne!(name, object_name_of(b"hellp"));
    assert!(name.chars().all(|c| c.is_ascii_alphanumeric() || c == '-' || c == '_'));
}

#[test]
fn full_chunk_asks_for_more() {
    let mut h = ObjectHasher::new();
    let chunk = vec![7u8; CHUNK_LEN];
    assert!(h.feed(&chunk));
    assert!(!h.feed(&[]));
    let mut whole = chunk.clone();
    whole.extend_from_slice(&[]);
    assert_eq!(h.finish(), object_name_of(&whole));
}

#[test]
fn layer_name_is_name_of_bytes() {
    assert_eq!(layer_name(b""), "rxNJufX5oaagQE3qNtzJSZvLJcmtwRK3zJqTyuQfMmI".to_string());
    assert_eq!(layer_name(b"state"), object_name_of(b"state"));
}

#[test]
fn exclusive_create_outcomes() {
    assert_eq!(copy_needed(CreateResult::Created), Ok(true));
    assert_eq!(copy_needed(CreateResult::AlreadyExists), Ok(false));
    assert_eq!(copy_needed(CreateResult::Failed(13)), Err(Error::Io(13)));
}

#[test]
fn link_buffer_doubles_until_not_filled() {
    assert_eq!(readlink_step(10, LINK_BUF_START), None);
    assert_eq!(readlink_step(256, 256), Some(512));
    assert_eq!(readlink_step(255, 256), None);
}
