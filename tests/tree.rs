use ncs::cache::{json_entry2entry, root2json_entry, JsonEntry};
use ncs::entry::{AppendMode, Entry, EntryStatus, EntryType};
use ncs::errors::NcsError;

fn root() -> Entry {
    Entry::new(String::new(), EntryType::Directory)
}

fn file(name: &str, etag: Option<&str>) -> Entry {
    Entry::new(name.to_string(), EntryType::File { etag: etag.map(|s| s.to_string()) })
}

fn dir(name: &str) -> Entry {
    Entry::new(name.to_string(), EntryType::Directory)
}

#[test]
fn new_entry_needs_update_and_drops_last_slash() {
    let e = Entry::new("docs/".to_string(), EntryType::Directory);
    assert_eq!(e.get_raw_name(), "docs");
    assert_eq!(e.get_name(), "docs/");
    assert_eq!(e.status(), EntryStatus::NeedUpdate);
    assert!(!e.is_root());
    assert!(root().is_root());
    let f = file("a.txt", Some("e1"));
    assert_eq!(f.get_name(), "a.txt");
    assert_eq!(f.entry_type().get_etag(), "e1");
    assert_eq!(file("b", None).entry_type().get_etag(), "");
}

#[test]
fn entry_type_queries() {
    let f = EntryType::File { etag: None };
    let d = EntryType::Directory;
    assert!(f.is_file() && !f.is_dir());
    assert!(d.is_dir() && !d.is_file());
    assert!(f.is_same_type(&EntryType::File { etag: Some("x".to_string()) }));
    assert!(!f.is_same_type(&d));
}

#[test]
fn append_create_materialises_missing_directories() {
    let mut t = root();
    let made = t.append("/a/b/x.txt", file("x.txt", None), AppendMode::Create, false).unwrap();
    assert_eq!(made, vec!["/a", "/a/b", "/a/b/x.txt"]);
    let a = t.get("/a").unwrap();
    assert!(a.is_dir());
    assert_eq!(a.status(), EntryStatus::UpToDate);
    let x = t.get("/a/b/x.txt").unwrap();
    assert!(x.is_file());
    assert_eq!(x.get_raw_name(), "x.txt");
}

#[test]
fn get_finds_entries_at_their_paths() {
    let mut t = root();
    t.append("/a/b/x.txt", file("x.txt", Some("e")), AppendMode::Create, false).unwrap();
    t.append("/a/c", dir("c"), AppendMode::Create, false).unwrap();
    for p in ["/a", "/a/b", "/a/b/x.txt", "/a/c"] {
        let e = t.get(p).unwrap();
        assert_eq!(format!("/{}", e.get_raw_name()), format!("/{}", p.rsplit('/').next().unwrap()));
    }
    assert!(t.get("/").unwrap().is_root());
    assert!(t.get("").unwrap().is_root());
    assert!(t.get("/a/b/x.txt/more").is_none());
    assert!(t.get("a/b").is_none());
    assert!(t.get("/missing").is_none());
    assert!(t.get("/a/").unwrap().is_dir());
}

#[test]
fn children_are_kept_under_their_names() {
    let mut t = root();
    t.append("/d/one", file("one", None), AppendMode::Create, false).unwrap();
    t.append("/d/two", dir("two"), AppendMode::Create, false).unwrap();
    let d = t.get("/d").unwrap();
    let names = d.get_all_children();
    assert_eq!(names, vec!["one", "two"]);
    for (i, n) in names.iter().enumerate() {
        assert_eq!(&d.child_at(i).get_raw_name(), n);
    }
    assert!(d.get_child("one").is_some());
    assert!(d.get_child("x/y\\two").is_some());
    assert!(d.get_child("three").is_none());
}

#[test]
fn append_then_pop_restores_tree() {
    let mut t = root();
    t.append("/a", dir("a"), AppendMode::Create, false).unwrap();
    let before = t.get("/a").unwrap().get_all_children();
    let made = t.append("/a/n.txt", file("n.txt", Some("q")), AppendMode::Create, false).unwrap();
    assert_eq!(made, vec!["/a/n.txt"]);
    let back = t.pop("/a/n.txt").unwrap();
    assert_eq!(back.get_raw_name(), "n.txt");
    assert_eq!(back.entry_type().get_etag(), "q");
    assert_eq!(t.get("/a").unwrap().get_all_children(), before);
    assert!(t.get("/a/n.txt").is_none());
}

#[test]
fn create_where_entry_exists_fails() {
    let mut t = root();
    t.append("/a", dir("a"), AppendMode::Create, false).unwrap();
    let r = t.append("/a", dir("a"), AppendMode::Create, false);
    assert!(matches!(r, Err(NcsError::AlreadyExistsError(_))));
    assert_eq!(t.get_all_children(), vec!["a"]);
}

#[test]
fn create_with_other_name_or_through_file_is_invalid() {
    let mut t = root();
    let r = t.append("/a/b", file("c", None), AppendMode::Create, false);
    assert!(matches!(r, Err(NcsError::InvalidPathError(_))));
    t.append("/f", file("f", None), AppendMode::Create, false).unwrap();
    let r = t.append("/f/x", file("x", None), AppendMode::Create, false);
    assert!(matches!(r, Err(NcsError::InvalidPathError(_))));
    let r = t.append("rel/x", file("x", None), AppendMode::Create, false);
    assert!(matches!(r, Err(NcsError::InvalidPathError(_))));
    let r = t.append("/a//x", file("x", None), AppendMode::Create, false);
    assert!(matches!(r, Err(NcsError::InvalidPathError(_))));
    assert_eq!(t.get_all_children(), vec!["f"]);
}

#[test]
fn append_on_non_root_does_nothing() {
    let mut d = dir("d");
    let r = d.append("/x", file("x", None), AppendMode::Create, false).unwrap();
    assert!(r.is_empty());
    assert_eq!(d.children_len(), 0);
    assert!(d.get("/").is_none());
    assert!(d.pop("/x").is_none());
}

#[test]
fn move_into_existing_directory_keeps_name() {
    let mut t = root();
    t.append("/src/f.txt", file("f.txt", None), AppendMode::Create, false).unwrap();
    t.append("/dst", dir("dst"), AppendMode::Create, false).unwrap();
    let e = t.pop("/src/f.txt").unwrap();
    let made = t.append("/dst", e, AppendMode::Move, true).unwrap();
    assert!(made.is_empty());
    assert!(t.get("/dst/f.txt").unwrap().is_file());
}

#[test]
fn move_to_new_name_renames() {
    let mut t = root();
    t.append("/src/f.txt", file("f.txt", None), AppendMode::Create, false).unwrap();
    let e = t.pop("/src/f.txt").unwrap();
    let made = t.append("/new/g.txt", e, AppendMode::Move, true).unwrap();
    assert_eq!(made, vec!["/new"]);
    assert_eq!(t.get("/new/g.txt").unwrap().get_raw_name(), "g.txt");
}

#[test]
fn pop_of_root_or_missing_is_none() {
    let mut t = root();
    t.append("/a", dir("a"), AppendMode::Create, false).unwrap();
    assert!(t.pop("/").is_none());
    assert!(t.pop("/b").is_none());
    assert!(t.pop("/a").is_some());
    assert_eq!(t.children_len(), 0);
}

#[test]
fn update_entry_changes_status_and_type() {
    let mut t = root();
    t.append("/d/x", dir("x"), AppendMode::Create, false).unwrap();
    t.append("/d/x/y", file("y", None), AppendMode::Create, false).unwrap();
    assert!(t.update_entry("/d/x", EntryStatus::NeedUpdate, Some(EntryType::File { etag: None })));
    let x = t.get("/d/x").unwrap();
    assert!(x.is_file());
    assert_eq!(x.status(), EntryStatus::NeedUpdate);
    assert_eq!(x.children_len(), 0);
    assert!(!t.update_entry("/nope", EntryStatus::Error, None));
}

#[test]
fn append_child_replaces_same_name() {
    let mut d = dir("d");
    d.append_child(file("a", Some("1"))).unwrap();
    d.append_child(file("a", Some("2"))).unwrap();
    assert_eq!(d.children_len(), 1);
    assert_eq!(d.child_at(0).entry_type().get_etag(), "2");
    let mut f = file("f", None);
    assert!(matches!(f.append_child(file("a", None)), Err(NcsError::InvalidPathError(_))));
    assert!(matches!(d.append_child(file("", None)), Err(NcsError::InvalidPathError(_))));
}

#[test]
fn cache_round_trip_marks_up_to_date() {
    let mut t = root();
    t.append("/a/b.txt", file("b.txt", Some("e1")), AppendMode::Create, false).unwrap();
    t.append("/c", dir("c"), AppendMode::Create, false).unwrap();
    let j = root2json_entry(&t).unwrap();
    match &j {
        JsonEntry::Dir { name, children } => {
            assert_eq!(name, "/");
            assert_eq!(children.len(), 2);
            match &children[0] {
                JsonEntry::Dir { name, .. } => assert_eq!(name, "a/"),
                _ => panic!("expected a directory"),
            }
        }
        _ => panic!("expected a directory"),
    }
    let back = json_entry2entry(j).unwrap();
    assert!(back.is_root());
    let b = back.get("/a/b.txt").unwrap();
    assert_eq!(b.status(), EntryStatus::UpToDate);
    assert_eq!(b.entry_type().get_etag(), "e1");
    assert_eq!(back.get("/a").unwrap().status(), EntryStatus::UpToDate);
    assert_eq!(back.get("/c").unwrap().status(), EntryStatus::UpToDate);
    assert_eq!(back.status(), EntryStatus::UpToDate);
}

#[test]
fn cache_refuses_repeated_or_bad_names() {
    let dup = JsonEntry::Dir {
        name: "/".to_string(),
        children: vec![
            JsonEntry::File { name: "a".to_string(), etag: "1".to_string() },
            JsonEntry::Dir { name: "a/".to_string(), children: vec![] },
        ],
    };
    assert!(json_entry2entry(dup).is_err());
    let bad = JsonEntry::Dir {
        name: "/".to_string(),
        children: vec![JsonEntry::File { name: "x/y".to_string(), etag: "1".to_string() }],
    };
    assert!(json_entry2entry(bad).is_err());
    assert!(root2json_entry(&dir("notroot")).is_err());
}

#[test]
fn tree_rendering() {
    let mut t = root();
    t.append("/a/x.txt", file("x.txt", Some("e")), AppendMode::Create, false).unwrap();
    t.append("/b", dir("b"), AppendMode::Create, false).unwrap();
    let s = t.get_tree();
    assert_eq!(s, "*/\n├── a/\n|   └── *x.txt etag: Some(\"e\")\n└── *b/\n");
    let f = file("n", None);
    assert_eq!(f.get_tree(), "*n etag: None\n");
}

#[test]
fn paths_and_parents() {
    let mut t = root();
    t.append("/a/b/c", file("c", None), AppendMode::Create, false).unwrap();
    let names = vec!["a".to_string(), "b".to_string(), "c".to_string()];
    let p = Entry::get_path(&names);
    assert_eq!(p, "/a/b/c");
    assert_eq!(t.get(&p).unwrap().get_raw_name(), "c");
    assert_eq!(Entry::get_path(&vec![]), "");
    assert_eq!(t.get_parent("/a/b/c").unwrap().get_raw_name(), "b");
    assert!(t.get_parent("/a").unwrap().is_root());
    assert!(t.get_parent("/").is_none());
    assert!(t.get_parent("/a/zz").is_none());
}

#[test]
fn renaming_drops_last_slash() {
    let mut e = dir("a");
    e.set_name("b/");
    assert_eq!(e.get_raw_name(), "b");
    assert_eq!(e.get_name(), "b/");
}

#[test]
fn move_onto_directory_of_same_name_goes_inside() {
    let mut t = root();
    t.append("/d/keep", file("keep", None), AppendMode::Create, false).unwrap();
    let f = file("d", Some("x"));
    let made = t.append("/d", f, AppendMode::Move, true).unwrap();
    assert!(made.is_empty());
    assert!(t.get("/d").unwrap().is_dir());
    assert!(t.get("/d/keep").is_some());
    assert!(t.get("/d/d").unwrap().is_file());
}

#[test]
fn cache_round_trip_gives_empty_etag_to_file_without_one() {
    let mut t = root();
    t.append("/n", file("n", None), AppendMode::Create, false).unwrap();
    let back = json_entry2entry(root2json_entry(&t).unwrap()).unwrap();
    let n = back.get("/n").unwrap();
    assert!(matches!(n.entry_type(), EntryType::File { etag: Some(e) } if e.is_empty()));
    assert_eq!(n.status(), EntryStatus::UpToDate);
}
