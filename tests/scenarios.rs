use std::collections::{BTreeMap, HashSet};

use banyan::dirent::PAGE_LEN;
use banyan::error::Error;
use banyan::layer::{DirState, LayerState, Object};
use banyan::object::{copy_needed, layer_name, CreateResult, ObjectHasher, CHUNK_LEN};
use banyan::pstring::PString;
use banyan::queue::Queue;
use banyan::walk::{handle_error, plan, should_write_layer, Plan, StatInfo, WalkOptions, WalkState};

enum Node {
    Dir(Vec<(String, Node)>),
    File(Vec<u8>),
    Link(Vec<u8>),
}

fn file(name: &str, body: &[u8]) -> (String, Node) {
    (name.to_string(), Node::File(body.to_vec()))
}

fn record(ty: u8, name: &[u8]) -> Vec<u8> {
    let reclen = (19 + name.len() + 1 + 7) / 8 * 8;
    let mut r = Vec::new();
    r.extend_from_slice(&1u64.to_le_bytes());
    r.extend_from_slice(&0u64.to_le_bytes());
    r.extend_from_slice(&(reclen as u16).to_le_bytes());
    r.push(ty);
    r.extend_from_slice(name);
    while r.len() < reclen {
        r.push(0);
    }
    r
}

fn listing(children: &[(String, Node)]) -> Vec<Vec<u8>> {
    let mut recs = vec![record(4, b"."), record(4, b"..")];
    for (name, node) in children {
        let ty = match node {
            Node::Dir(_) => 4,
            Node::File(_) => if name.ends_with('u') { 0 } else { 8 },
            Node::Link(_) => 10,
        };
        recs.push(record(ty, name.as_bytes()));
    }
    let mut pages = vec![Vec::new()];
    for r in recs {
        if pages.last().unwrap().len() + r.len() > PAGE_LEN {
            pages.push(Vec::new());
        }
        pages.last_mut().unwrap().extend(r);
    }
    pages
}

fn find<'a>(root: &'a Node, path: &[u8]) -> &'a Node {
    let text = String::from_utf8(path.to_vec()).unwrap();
    let mut cur = root;
    for part in text.split('/').skip(1) {
        match cur {
            Node::Dir(children) => cur = &children.iter().find(|(n, _)| n == part).unwrap().1,
            _ => panic!("not a directory"),
        }
    }
    cur
}

fn stat_of(node: &Node) -> StatInfo {
    let mode = match node {
        Node::Dir(_) => 0o040755,
        Node::File(_) => 0o100644,
        Node::Link(_) => 0o120777,
    };
    StatInfo { mode, uid: 1000, gid: 100, dev: 1 }
}

struct Outcome {
    state: LayerState,
    layer: Option<String>,
}

/// Runs the walk over `root` with `workers` accumulators taking entries in
/// turn; `store` plays the object directory, `denied` a file that cannot be
/// opened.
fn import(root: &Node, workers: usize, store: &mut HashSet<String>, denied: Option<&[u8]>, opts: WalkOptions) -> Result<Outcome, Error> {
    let children = match root { Node::Dir(c) => c, _ => panic!() };
    let mut pages = listing(children).into_iter();
    let mut q = Queue::new_with_folder(pages.next().unwrap(), PString::from_str("."))?;
    for p in pages {
        if !q.add_folder(p, PString::from_str(".")) {
            break;
        }
    }
    let mut states: Vec<LayerState> = (0..workers).map(|_| LayerState::new()).collect();
    states[0].record_dir(&PString::from_str("."), DirState::from_stat(0o040755, 1000, 100, None))?;
    let mut errors = 0usize;
    let mut turn = 0usize;
    while let Some(e) = q.advance() {
        let s = &mut states[turn % workers];
        turn += 1;
        let node = if e.is_dot_entry() { root } else { find(root, &e.path.to_bytes()) };
        let mut step = plan(e.is_dot_entry(), e.filetype, None, opts);
        if step == Plan::Stat {
            step = plan(false, e.filetype, Some(stat_of(node)), opts);
        }
        let st = stat_of(node);
        let res: Result<(), Error> = match (step, node) {
            (Plan::Skip, _) => Ok(()),
            (Plan::ReadLink, Node::Link(t)) => s.record_link(&e.path, t),
            (Plan::Directory { enter }, Node::Dir(kids)) => {
                if enter {
                    for p in listing(kids) {
                        if !q.add_folder(p, PString::from_str(&String::from_utf8(e.path.to_bytes()).unwrap())) {
                            break;
                        }
                    }
                }
                s.record_dir(&e.path, DirState::from_stat(st.mode, st.uid, st.gid, None))
            }
            (Plan::File, Node::File(body)) => {
                if denied == Some(&e.path.to_bytes()[..]) {
                    Err(Error::Io(13))
                } else {
                    let mut h = ObjectHasher::new();
                    for c in body.chunks(CHUNK_LEN) {
                        h.feed(c);
                    }
                    if body.len() % CHUNK_LEN == 0 {
                        h.feed(&[]);
                    }
                    let name = h.finish();
                    let created = if store.contains(&name) { CreateResult::AlreadyExists } else { CreateResult::Created };
                    if copy_needed(created)? {
                        store.insert(name.clone());
                    }
                    s.record_object(&e.path, Object::from_stat(name, st.mode, st.uid, st.gid, None))
                }
            }
            _ => panic!("plan does not fit the entry"),
        };
        if res.is_err() {
            errors += 1;
            if handle_error(opts) == WalkState::Quit {
                break;
            }
        }
    }
    let mut state = LayerState::new();
    for s in states {
        state.extend(s)?;
    }
    if !should_write_layer(opts, errors) {
        return Err(Error::Io(13));
    }
    let layer = Some(layer_name(&serialize(&state)));
    Ok(Outcome { state, layer })
}

fn keys<V>(m: &banyan::bytemap::ByteMap<V>) -> Vec<String> {
    (0..m.len()).map(|i| String::from_utf8(m.key_at(i).clone()).unwrap()).collect()
}

fn serialize(s: &LayerState) -> Vec<u8> {
    let mut out = Vec::new();
    for i in 0..s.dirs.len() {
        out.extend(s.dirs.key_at(i));
        out.extend(s.dirs.value_at(i).perms.to_le_bytes());
    }
    for i in 0..s.objects.len() {
        out.extend(s.objects.key_at(i));
        out.extend(s.objects.value_at(i).hash.as_bytes());
    }
    for i in 0..s.links.len() {
        out.extend(s.links.key_at(i));
        out.extend(s.links.value_at(i).as_bytes());
    }
    out
}

const OPTS: WalkOptions = WalkOptions { ignore_errors: false, root_device: None };

#[test]
fn two_identical_files_share_one_object() {
    let root = Node::Dir(vec![file("a", b"hello"), file("b", b"hello")]);
    let mut store = HashSet::new();
    let out = import(&root, 2, &mut store, None, OPTS).unwrap();
    assert_eq!(keys(&out.state.dirs), vec!["."]);
    assert_eq!(keys(&out.state.objects), vec!["./a", "./b"]);
    assert_eq!(out.state.objects.value_at(0).hash, out.state.objects.value_at(1).hash);
    assert_eq!(store.len(), 1);
}

#[test]
fn directory_file_and_link() {
    let root = Node::Dir(vec![
        ("d".to_string(), Node::Dir(vec![file("x", b"x")])),
        ("s".to_string(), Node::Link(b"d/x".to_vec())),
    ]);
    let mut store = HashSet::new();
    let out = import(&root, 3, &mut store, None, OPTS).unwrap();
    assert_eq!(keys(&out.state.dirs), vec![".", "./d"]);
    assert_eq!(keys(&out.state.objects), vec!["./d/x"]);
    assert_eq!(keys(&out.state.links), vec!["./s"]);
    assert_eq!(out.state.links.get(b"./s"), Some(&"d/x".to_string()));
}

#[test]
fn empty_directory() {
    let root = Node::Dir(vec![("empty".to_string(), Node::Dir(vec![]))]);
    let mut store = HashSet::new();
    let out = import(&root, 1, &mut store, None, OPTS).unwrap();
    assert_eq!(keys(&out.state.dirs), vec![".", "./empty"]);
    assert_eq!(out.state.objects.len(), 0);
    assert_eq!(out.state.links.len(), 0);
}

#[test]
fn ten_thousand_files_in_fifty_directories() {
    let mut dirs: Vec<Vec<(String, Node)>> = (0..50).map(|_| Vec::new()).collect();
    let mut seed: u64 = 12345;
    for i in 0..10000 {
        seed = seed.wrapping_mul(6364136223846793005).wrapping_add(1442695040888963407);
        let d = ((seed >> 33) % 50) as usize;
        let name = format!("f{}", i);
        dirs[d].push(file(&name, name.as_bytes()));
    }
    // nest the directories: each one holds the next
    let mut nested: Option<(String, Node)> = None;
    for (i, mut kids) in dirs.into_iter().enumerate().rev() {
        if let Some(n) = nested.take() {
            kids.push(n);
        }
        nested = Some((format!("d{}", i), Node::Dir(kids)));
    }
    let root = Node::Dir(vec![nested.unwrap()]);
    let mut store = HashSet::new();
    let out = import(&root, 4, &mut store, None, OPTS).unwrap();
    assert_eq!(out.state.dirs.len(), 51);
    assert_eq!(out.state.objects.len(), 10000);
    assert_eq!(store.len(), 10000);
}

#[test]
fn permission_denied_stops_without_layer() {
    let root = Node::Dir(vec![file("a", b"1"), file("b", b"2"), file("c", b"3")]);
    let mut store = HashSet::new();
    let r = import(&root, 2, &mut store, Some(b"./b"), OPTS);
    assert!(matches!(r, Err(Error::Io(13))));
    let opts = WalkOptions { ignore_errors: true, root_device: None };
    let out = import(&root, 2, &mut store, Some(b"./b"), opts).unwrap();
    assert_eq!(keys(&out.state.objects), vec!["./a", "./c"]);
    assert!(out.layer.is_some());
}

#[test]
fn reimport_keeps_store_and_layer_name() {
    let root = Node::Dir(vec![
        file("a", b"one"),
        ("d".to_string(), Node::Dir(vec![file("b", b"two"), file("cu", b"one")])),
    ]);
    let mut store = HashSet::new();
    let first = import(&root, 2, &mut store, None, OPTS).unwrap();
    let before: BTreeMap<String, ()> = store.iter().map(|s| (s.clone(), ())).collect();
    let second = import(&root, 3, &mut store, None, OPTS).unwrap();
    let after: BTreeMap<String, ()> = store.iter().map(|s| (s.clone(), ())).collect();
    assert_eq!(before, after);
    assert_eq!(store.len(), 2);
    assert_eq!(first.layer, second.layer);
    assert_eq!(keys(&second.state.objects), vec!["./a", "./d/b", "./d/cu"]);
}

#[test]
fn every_path_in_exactly_one_map() {
    let root = Node::Dir(vec![
        ("d".to_string(), Node::Dir(vec![file("x", b"x"), ("l".to_string(), Node::Link(b"x".to_vec()))])),
        file("y", b"y"),
    ]);
    let mut store = HashSet::new();
    let out = import(&root, 2, &mut store, None, OPTS).unwrap();
    let mut all: Vec<String> = keys(&out.state.dirs);
    all.extend(keys(&out.state.objects));
    all.extend(keys(&out.state.links));
    all.sort();
    assert_eq!(all, vec![".", "./d", "./d/l", "./d/x", "./y"]);
}
