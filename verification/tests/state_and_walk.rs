use caption_server::enumerate::Enumerator;
use caption_server::errors::ErrorKind;
use caption_server::root_state::{choose_root, root_port_reply, RootState};
use caption_server::tokens::count_tokens;

#[test]
fn enumerator_collects_relative_files() {
    // root = /data/project; the tree holds a.txt and sub/b.txt.
    let mut e = Enumerator::begin("/data/project".to_string());
    let first = e.next_dir();
    assert_eq!(first, Some("/data/project".to_string()));
    let entries = vec![
        ("/data/project/a.txt".to_string(), false),
        ("/data/project/sub".to_string(), true),
    ];
    e.record_entries(&entries);
    let second = e.next_dir();
    assert_eq!(second, Some("/data/project/sub".to_string()));
    let entries2 = vec![("/data/project/sub/b.txt".to_string(), false)];
    e.record_entries(&entries2);
    assert_eq!(e.next_dir(), None);
    let files = e.into_files();
    assert_eq!(files, vec!["a.txt".to_string(), "sub/b.txt".to_string()]);
}

#[test]
fn enumerator_halts_at_cap() {
    let mut e = Enumerator::begin("/data/project".to_string());
    let _ = e.next_dir();
    let mut entries: Vec<(String, bool)> = Vec::new();
    for i in 0..10500 {
        entries.push((format!("/data/project/f{}.txt", i), false));
    }
    // A directory after the cap would be queued only if the cap were not
    // reached first.
    entries.push(("/data/project/late_dir".to_string(), true));
    e.record_entries(&entries);
    assert!(e.at_capacity());
    assert_eq!(e.next_dir(), None);
    let files = e.into_files();
    assert_eq!(files.len(), 10000);
    assert_eq!(files[0], "f0.txt");
    assert_eq!(files[9999], "f9999.txt");
}

#[test]
fn enumerator_skips_nothing_it_was_not_given() {
    // Unreadable directories are realized by never handing their entries in:
    // recording nothing leaves the state unchanged.
    let mut e = Enumerator::begin("/data/project".to_string());
    let _ = e.next_dir();
    let entries: Vec<(String, bool)> = Vec::new();
    e.record_entries(&entries);
    assert_eq!(e.next_dir(), None);
    assert_eq!(e.into_files(), Vec::<String>::new());
}

#[test]
fn port_not_ready_before_bind() {
    // Queried at process start, before the server publishes a port.
    let state = RootState::new("/data/project".to_string());
    assert_eq!(state.get_port(), None);
    assert_eq!(state.get_root_and_port(), Err(ErrorKind::NotReady));
}

#[test]
fn zero_port_is_not_a_valid_port() {
    let reply = root_port_reply("/data/project".to_string(), Some(0));
    assert_eq!(reply, Err(ErrorKind::NotReady));
    let reply2 = root_port_reply("/data/project".to_string(), None);
    assert_eq!(reply2, Err(ErrorKind::NotReady));
    let reply3 = root_port_reply("/data/project".to_string(), Some(4242));
    assert_eq!(reply3, Ok(("/data/project".to_string(), 4242)));
}

#[test]
fn port_is_set_once() {
    let state = RootState::new("/data/project".to_string());
    state.set_port(4242);
    assert_eq!(state.get_port(), Some(4242));
    state.set_port(9999);
    assert_eq!(state.get_port(), Some(4242));
    assert_eq!(
        state.get_root_and_port(),
        Ok(("/data/project".to_string(), 4242))
    );
}

#[test]
fn root_is_replaced_whole() {
    let state = RootState::new("/data/project".to_string());
    assert_eq!(state.get_root(), "/data/project");
    state.set_root("/other/tree".to_string());
    assert_eq!(state.get_root(), "/other/tree");
}

#[test]
fn choose_root_stores_normalized_path() {
    let state = RootState::new("/".to_string());
    let r = choose_root(&state, Some("/data//project/./x/..".to_string()));
    assert_eq!(r, Ok("/data/project".to_string()));
    assert_eq!(state.get_root(), "/data/project");
}

#[test]
fn choose_root_cancelled_and_invalid() {
    let state = RootState::new("/".to_string());
    assert_eq!(choose_root(&state, None), Err(ErrorKind::DialogCancelled));
    assert_eq!(
        choose_root(&state, Some("relative/dir".to_string())),
        Err(ErrorKind::InvalidPath)
    );
    // neither outcome touches the stored root
    assert_eq!(state.get_root(), "/");
}

#[test]
fn count_tokens_empty_is_zero() {
    let captions = vec![String::new()];
    assert_eq!(count_tokens(&captions), vec![0]);
}

#[test]
fn count_tokens_known_value() {
    // The tokenizer's own documentation encodes "Hi there" as two tokens.
    let captions = vec!["Hi there".to_string()];
    assert_eq!(count_tokens(&captions), vec![2]);
}

#[test]
fn count_tokens_is_deterministic_and_ordered() {
    let captions = vec![
        "a painting of a cat".to_string(),
        String::new(),
        "Hi there".to_string(),
    ];
    let first = count_tokens(&captions);
    let second = count_tokens(&captions);
    assert_eq!(first, second);
    assert_eq!(first.len(), 3);
    assert_eq!(first[1], 0);
    assert_eq!(first[2], 2);
    assert!(first[0] > 0);
}
