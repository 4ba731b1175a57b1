use ncs::books::{CancelCounter, EchoSet};
use ncs::dispatch::{Session, Step};
use ncs::entry::{AppendMode, Entry, EntryStatus, EntryType};
use ncs::events::{NCEvent, NCState};
use ncs::exclude::{components, ExcludeChecker, Pattern};
use ncs::local::{
    coalesce, pair_removal, Coalesced, RawFsEvent, finish_create, finish_delete, finish_modify, finish_move, fix_path, get_localpath,
    haveto_cancel_target, parent_of, plan_local_event, DiskFacts, LocalAction, LocalEvent,
};
use ncs::messaging::{NCSyncKind, NCSyncMessage};
use ncs::meta::{JsonExcludeList, LocalInfo, NCInfo};
use ncs::network::NetworkStatus;
use ncs::remote::{
    apply_remote_create, apply_remote_delete, apply_remote_modify, apply_remote_move, count_local_write,
    finish_download, fix_entry_type, mark_touched, needs_download, plan_remote_event, RemotePlan,
};
use ncs::repair::{
    apply_repair_step, extra_children, repair_step, repair_targets, replay_event, RepairStep,
};
use ncs::{batch_is_newer, operator_command, Command, PublicResource};

fn root() -> Entry {
    Entry::new(String::new(), EntryType::Directory)
}

fn checker() -> ExcludeChecker {
    ExcludeChecker::new(&vec![], &vec![])
}

const ON_DISK_FILE: DiskFacts = DiskFacts { exists: true, is_file: true, is_dir: false };
const ON_DISK_DIR: DiskFacts = DiskFacts { exists: true, is_file: false, is_dir: true };
const GONE: DiskFacts = DiskFacts { exists: false, is_file: false, is_dir: false };

fn with_dirs(paths: &[&str]) -> Entry {
    let mut t = root();
    for p in paths {
        let name = p.rsplit('/').next().unwrap().to_string();
        t.append(p, Entry::new(name, EntryType::Directory), AppendMode::Create, false).unwrap();
    }
    t
}

#[test]
fn default_blacks_and_whites() {
    let c = checker();
    assert!(c.judge("/a/b.txt"));
    assert!(!c.judge("/a/.git/config"));
    assert!(!c.judge("/~lock"));
    let c = ExcludeChecker::new(&vec!["^tmp".to_string(), "(".to_string()], &vec![r"^\.keep".to_string()]);
    assert!(!c.judge("/tmpfile"));
    assert!(c.judge("/.keep/x"));
    assert!(c.judge("/a/b"));
    assert!(c.keeps_component(".keepme"));
    assert!(!c.keeps_component(".other"));
}

#[test]
fn patterns_compile_or_not() {
    assert!(Pattern::new("(").is_none());
    let p = Pattern::new("^a.c$").unwrap();
    assert!(p.is_match("abc"));
    assert!(!p.is_match("abcd"));
    assert_eq!(p.source(), "^a.c$");
    let l = JsonExcludeList::new();
    assert!(l.checker().judge("/x"));
}

#[test]
fn components_like_std() {
    assert_eq!(components("/a//b/./c/"), vec!["/", "a", "b", "c"]);
    assert_eq!(components("./a"), vec![".", "a"]);
    assert_eq!(components("a/b"), vec!["a", "b"]);
    assert_eq!(components(""), Vec::<String>::new());
}

#[test]
fn local_create_uploads_and_expects_echo() {
    let mut t = with_dirs(&["/a", "/a/b"]);
    let mut book = CancelCounter::new();
    let mut echoes = EchoSet::new();
    let ev = LocalEvent::Create("a/b/x.txt".to_string());
    let act = plan_local_event(&ev, &t, &checker(), &mut book, ON_DISK_FILE);
    let path = match act {
        LocalAction::Put(p) => p,
        other => panic!("unexpected {:?}", other),
    };
    assert_eq!(path, "/a/b/x.txt");
    finish_create(&mut t, &mut echoes, &path, true, Some("etag1".to_string())).unwrap();
    let x = t.get("/a/b/x.txt").unwrap();
    assert_eq!(x.status(), EntryStatus::UpToDate);
    assert_eq!(x.entry_type().get_etag(), "etag1");
    assert!(echoes.contains(&NCEvent::Create("/a/b/x.txt".to_string())));
    let kept = echoes.drop_echoes(vec![NCEvent::Create("/a/b/x.txt".to_string())]);
    assert!(kept.is_empty());
}

#[test]
fn local_create_decisions() {
    let t = with_dirs(&["/d"]);
    let mut book = CancelCounter::new();
    let c = checker();
    let ev = LocalEvent::Create("d/sub".to_string());
    assert!(matches!(plan_local_event(&ev, &t, &c, &mut book, ON_DISK_DIR), LocalAction::Mkcol(p) if p == "/d/sub"));
    assert!(matches!(plan_local_event(&ev, &t, &c, &mut book, GONE), LocalAction::Ignore));
    let orphan = LocalEvent::Create("nope/x".to_string());
    assert!(matches!(plan_local_event(&orphan, &t, &c, &mut book, ON_DISK_FILE), LocalAction::Ignore));
    let known = LocalEvent::Create("d".to_string());
    assert!(matches!(
        plan_local_event(&known, &t, &c, &mut book, ON_DISK_DIR),
        LocalAction::Redo(LocalEvent::Modify(p)) if p == "d"
    ));
    let hidden = LocalEvent::Create("d/.x".to_string());
    assert!(matches!(plan_local_event(&hidden, &t, &c, &mut book, ON_DISK_FILE), LocalAction::Ignore));
}

#[test]
fn expected_local_write_is_dropped() {
    let mut t = root();
    t.append("/f.txt", Entry::new("f.txt".to_string(), EntryType::File { etag: None }), AppendMode::Create, false)
        .unwrap();
    let mut book = CancelCounter::new();
    finish_download(&mut t, &mut book, "/f.txt", Some("\"e2\"".replace('"', "")));
    assert_eq!(book.count("/f.txt"), 1);
    let ev = LocalEvent::Modify("f.txt".to_string());
    assert!(matches!(plan_local_event(&ev, &t, &checker(), &mut book, ON_DISK_FILE), LocalAction::Ignore));
    assert_eq!(book.count("/f.txt"), 0);
    assert!(matches!(
        plan_local_event(&ev, &t, &checker(), &mut book, ON_DISK_FILE),
        LocalAction::Put(p) if p == "/f.txt"
    ));
    assert!(matches!(plan_local_event(&ev, &t, &checker(), &mut book, ON_DISK_DIR), LocalAction::Ignore));
}

#[test]
fn cancel_target_uses_canonical_path() {
    let mut book = CancelCounter::new();
    book.increment("/a/b");
    assert!(haveto_cancel_target("a\\b\\", &mut book));
    assert!(!haveto_cancel_target("a/b", &mut book));
}

#[test]
fn local_delete_and_modify_finish() {
    let mut t = root();
    t.append("/g", Entry::new("g".to_string(), EntryType::File { etag: None }), AppendMode::Create, false)
        .unwrap();
    let mut book = CancelCounter::new();
    let mut echoes = EchoSet::new();
    let del = LocalEvent::Delete("g".to_string());
    assert!(matches!(plan_local_event(&del, &t, &checker(), &mut book, ON_DISK_FILE), LocalAction::Ignore));
    assert!(matches!(plan_local_event(&del, &t, &checker(), &mut book, GONE), LocalAction::Delete(p) if p == "/g"));
    finish_modify(&mut t, &mut echoes, "/g", Some("v2".to_string()));
    assert_eq!(t.get("/g").unwrap().entry_type().get_etag(), "v2");
    assert!(echoes.contains(&NCEvent::Modify("/g".to_string())));
    finish_delete(&mut t, &mut echoes, "/g");
    assert!(t.get("/g").is_none());
    assert!(echoes.contains(&NCEvent::Delete("/g".to_string())));
}

#[test]
fn local_move_decisions_and_echo() {
    let mut t = with_dirs(&["/x", "/y"]);
    t.append("/x/f", Entry::new("f".to_string(), EntryType::File { etag: None }), AppendMode::Create, false)
        .unwrap();
    let mut book = CancelCounter::new();
    let c = checker();
    let mv = LocalEvent::Move("x/f".to_string(), "y/f".to_string());
    assert!(matches!(plan_local_event(&mv, &t, &c, &mut book, ON_DISK_FILE), LocalAction::Ignore));
    assert!(matches!(
        plan_local_event(&mv, &t, &c, &mut book, GONE),
        LocalAction::Move(p, q) if p == "/x/f" && q == "/y/f"
    ));
    let to_hidden = LocalEvent::Move("x/f".to_string(), "y/.f".to_string());
    assert!(matches!(
        plan_local_event(&to_hidden, &t, &c, &mut book, GONE),
        LocalAction::Redo(LocalEvent::Delete(p)) if p == "x/f"
    ));
    let from_hidden = LocalEvent::Move("x/.f".to_string(), "y/g".to_string());
    assert!(matches!(
        plan_local_event(&from_hidden, &t, &c, &mut book, GONE),
        LocalAction::Redo(LocalEvent::Create(q)) if q == "y/g"
    ));
    let mut echoes = EchoSet::new();
    finish_move(&mut t, &mut echoes, "/x/f", "/y/f").unwrap();
    assert!(t.get("/y/f").is_some());
    assert!(t.get("/x/f").is_none());
    assert!(echoes.contains(&NCEvent::Move("/x/f".to_string(), "/y".to_string())));
    finish_move(&mut t, &mut echoes, "/y/f", "/y/h").unwrap();
    assert!(echoes.contains(&NCEvent::Move("/y/f".to_string(), "/y/h".to_string())));
    assert!(finish_move(&mut t, &mut echoes, "/nope", "/y/z").is_err());
}

#[test]
fn local_event_paths() {
    let mut ev = LocalEvent::Move("/root/dir/a".to_string(), "/root/dir".to_string());
    ev.strip_root("/root/dir");
    assert!(matches!(&ev, LocalEvent::Move(p, q) if p == "a" && q.is_empty()));
    let mut ev = LocalEvent::Create("/elsewhere/a".to_string());
    ev.strip_root("/root/dir");
    assert!(matches!(&ev, LocalEvent::Create(p) if p == "/elsewhere/a"));
    let mut ev = LocalEvent::Modify("a\\b\\".to_string());
    ev.reformat_path();
    assert!(matches!(&ev, LocalEvent::Modify(p) if p == "a/b"));
    assert_eq!(fix_path("x\\y/"), "x/y");
    assert_eq!(get_localpath("/a/b", "/root"), "/root/a/b");
    assert_eq!(get_localpath("a", "/root/"), "/root/a");
    assert_eq!(parent_of("/a/b"), "/a");
    assert_eq!(parent_of("/a"), "");
    assert_eq!(parent_of("a"), "");
}

#[test]
fn remote_move_moves_entry_and_counts_write() {
    let mut t = root();
    t.append("/doc/old.md", Entry::new("old.md".to_string(), EntryType::File { etag: Some("e".to_string()) }), AppendMode::Create, false)
        .unwrap();
    let plan = plan_remote_event(&NCEvent::Move("/doc/old.md".to_string(), "/archive/old.md".to_string()), &t, &checker());
    let (from, to) = match plan {
        RemotePlan::Move(f, t) => (f, t),
        other => panic!("unexpected {:?}", other),
    };
    let (made, dest) = apply_remote_move(&mut t, &from, &to).unwrap().unwrap();
    assert_eq!(made, vec!["/archive"]);
    assert_eq!(dest, "/archive/old.md");
    assert!(t.get("/archive/old.md").unwrap().is_file());
    assert!(t.get("/doc/old.md").is_none());
    let mut book = CancelCounter::new();
    count_local_write(&mut book, &dest);
    assert_eq!(book.count("/archive/old.md"), 1);
    let seen = LocalEvent::Move("doc/old.md".to_string(), "archive/old.md".to_string());
    assert!(matches!(plan_local_event(&seen, &t, &checker(), &mut book, GONE), LocalAction::Ignore));
    assert_eq!(book.count("/archive/old.md"), 0);
    assert!(apply_remote_move(&mut t, "/missing", "/else").unwrap().is_none());
}

#[test]
fn remote_move_into_directory_lands_inside() {
    let mut t = with_dirs(&["/box"]);
    t.append("/f", Entry::new("f".to_string(), EntryType::File { etag: None }), AppendMode::Create, false).unwrap();
    let (made, dest) = apply_remote_move(&mut t, "/f", "/box").unwrap().unwrap();
    assert!(made.is_empty());
    assert_eq!(dest, "/box/f");
    assert!(t.get("/box/f").unwrap().is_file());
}

#[test]
fn local_delete_expected_from_server_is_dropped() {
    let mut t = root();
    t.append("/g", Entry::new("g".to_string(), EntryType::File { etag: None }), AppendMode::Create, false).unwrap();
    let mut book = CancelCounter::new();
    book.increment("/g");
    let del = LocalEvent::Delete("g".to_string());
    assert!(matches!(plan_local_event(&del, &t, &checker(), &mut book, GONE), LocalAction::Ignore));
    assert_eq!(book.count("/g"), 0);
    assert!(matches!(plan_local_event(&del, &t, &checker(), &mut book, GONE), LocalAction::Delete(p) if p == "/g"));
}

#[test]
fn remote_directory_then_file_download() {
    let mut t = root();
    let c = checker();
    let plan = plan_remote_event(&NCEvent::Create("/photos/".to_string()), &t, &c);
    let p = match plan {
        RemotePlan::Create(p) => p,
        other => panic!("unexpected {:?}", other),
    };
    assert_eq!(p, "/photos");
    let made = apply_remote_create(&mut t, &p, false).unwrap();
    assert_eq!(made, vec!["/photos"]);
    for m in &made {
        mark_touched(&mut t, m, true);
    }
    let made = apply_remote_create(&mut t, "/photos/a.jpg", true).unwrap();
    assert_eq!(made, vec!["/photos/a.jpg"]);
    assert_eq!(t.get("/photos/a.jpg").unwrap().status(), EntryStatus::NeedUpdate);
    assert!(needs_download(&t, "/photos/a.jpg", &Some("abc".to_string())));
    assert!(!needs_download(&t, "/photos/a.jpg", &None));
    let mut book = CancelCounter::new();
    let header = "\"abc\"";
    finish_download(&mut t, &mut book, "/photos/a.jpg", Some(header.replace('"', "")));
    let a = t.get("/photos/a.jpg").unwrap();
    assert_eq!(a.status(), EntryStatus::UpToDate);
    assert_eq!(a.entry_type().get_etag(), "abc");
    assert!(!needs_download(&t, "/photos/a.jpg", &Some("abc".to_string())));
    assert!(matches!(plan_remote_event(&NCEvent::Create("/photos".to_string()), &t, &c), RemotePlan::Skip));
    assert!(apply_remote_create(&mut t, "/photos/a.jpg", true).is_err());
}

#[test]
fn remote_delete_modify_and_type_fix() {
    let mut t = root();
    apply_remote_create(&mut t, "/d/f", true).unwrap();
    assert!(apply_remote_modify(&mut t, "/d/f"));
    assert!(!apply_remote_modify(&mut t, "/d"));
    assert!(!apply_remote_modify(&mut t, "/none"));
    assert!(fix_entry_type(&mut t, "/d/f", false));
    assert!(t.get("/d/f").unwrap().is_dir());
    assert!(!fix_entry_type(&mut t, "/d/f", false));
    assert!(apply_remote_delete(&mut t, "/d").is_some());
    assert!(t.get("/d/f").is_none());
    assert!(matches!(plan_remote_event(&NCEvent::Delete("/.hidden".to_string()), &t, &checker()), RemotePlan::Skip));
    assert!(matches!(plan_remote_event(&NCEvent::Modify("/m/".to_string()), &t, &checker()), RemotePlan::Modify(p) if p == "/m"));
}

#[test]
fn offline_changes_replay_as_modify_or_create() {
    let mut t = root();
    apply_remote_create(&mut t, "/same.txt", true).unwrap();
    assert!(matches!(replay_event(&t, "same.txt"), LocalEvent::Modify(p) if p == "same.txt"));
    assert!(matches!(replay_event(&t, "new.txt"), LocalEvent::Create(p) if p == "new.txt"));
}

#[test]
fn repair_walk_and_steps() {
    let mut t = root();
    apply_remote_create(&mut t, "/a/f", true).unwrap();
    apply_remote_create(&mut t, "/.hid/g", true).unwrap();
    let items = repair_targets(&t, &checker());
    let got: Vec<(String, bool)> = items.into_iter().map(|w| (w.path, w.is_dir)).collect();
    assert_eq!(
        got,
        vec![("".to_string(), true), ("/a".to_string(), true), ("/a/f".to_string(), false)]
    );
    assert_eq!(repair_step(true, GONE), RepairStep::MakeDir);
    assert_eq!(repair_step(true, ON_DISK_FILE), RepairStep::ReplaceWithDir);
    assert_eq!(repair_step(true, ON_DISK_DIR), RepairStep::Nothing);
    assert_eq!(repair_step(false, GONE), RepairStep::Download);
    assert_eq!(repair_step(false, ON_DISK_FILE), RepairStep::Nothing);
    let mut book = CancelCounter::new();
    apply_repair_step(&mut t, &mut book, "/a/f", RepairStep::Download, true);
    assert_eq!(book.count("/a/f"), 1);
    assert_eq!(t.get("/a/f").unwrap().status(), EntryStatus::NeedUpdate);
    apply_repair_step(&mut t, &mut book, "/a", RepairStep::Nothing, true);
    assert_eq!(book.count("/a"), 0);
    assert_eq!(t.get("/a").unwrap().status(), EntryStatus::UpToDate);
    let extra = extra_children(&t, "/a", &vec!["f".to_string(), "junk".to_string(), ".x".to_string()], &checker());
    assert_eq!(extra, vec!["junk"]);
}

#[test]
fn operator_input() {
    assert!(matches!(operator_command("RESET\n"), Command::HardRepair));
    assert!(matches!(operator_command("  RESET "), Command::HardRepair));
    assert!(matches!(operator_command("reset\n"), Command::Terminate(false)));
    assert!(matches!(operator_command("\n"), Command::Terminate(false)));
}

#[test]
fn newer_batches_only() {
    let cur = NCState::new("100".to_string());
    assert_eq!(batch_is_newer(&cur, &NCState::new("150".to_string())), Some(true));
    assert_eq!(batch_is_newer(&cur, &NCState::new("100".to_string())), Some(false));
    assert_eq!(batch_is_newer(&cur, &NCState::new("x".to_string())), None);
    let r = PublicResource::new(root(), cur);
    assert_eq!(r.nc_state.latest_activity_id, "100");
}

#[test]
fn sync_messages_round_trip() {
    let m = NCSyncMessage { kind: NCSyncKind::Pull, is_recursive: true, use_stash: false, target: "/a/é".to_string() };
    let b = m.into_bytes();
    assert_eq!(&b[..3], &[1, 1, 0]);
    let back = NCSyncMessage::try_from_bytes(&b).unwrap();
    assert_eq!(back.kind, NCSyncKind::Pull);
    assert!(back.is_recursive && !back.use_stash);
    assert_eq!(back.target, "/a/é");
    assert!(NCSyncMessage::try_from_bytes(&[0, 1]).is_err());
    assert!(NCSyncMessage::try_from_bytes(&[7, 0, 0]).is_err());
    assert!(NCSyncMessage::try_from_bytes(&[0, 0, 0, 0xff]).is_err());
    assert_eq!(NCSyncKind::try_from_u8(0).unwrap(), NCSyncKind::Push);
    assert_eq!(NCSyncKind::Push.into_u8(), 0);
}

#[test]
fn network_status_equality() {
    assert!(NetworkStatus::Connect == NetworkStatus::Connect);
    assert!(NetworkStatus::Disconnect == NetworkStatus::Error("x".to_string()));
    assert!(NetworkStatus::Connect != NetworkStatus::Disconnect);
}

#[test]
fn server_and_local_names() {
    let nc = NCInfo::new("user".to_string(), "pw".to_string(), "https://h.example/".to_string());
    assert_eq!(nc.host, "https://h.example");
    assert_eq!(nc.root_path, "/remote.php/dav/files/user");
    let li = LocalInfo::new("/home/u/sync/".to_string(), checker(), "20240102");
    assert_eq!(li.root_path, "/home/u/sync");
    assert_eq!(li.get_metadir_name(), "/home/u/sync/.ncs/");
    assert_eq!(li.get_cachefile_name(), "/home/u/sync/.ncs/cache.json");
    assert_eq!(li.get_excludefile_name(), "/home/u/sync/.ncs/excludes.json");
    assert_eq!(li.get_stashpath_name(), "/home/u/sync/.ncs/stash");
    assert_eq!(li.get_logfile_name(), "/home/u/sync/.ncs/log/20240102.log");
    assert_eq!(li.get_keepalive_filename(), "/home/u/sync/.ncs/.keepalive.txt");
    assert_eq!(li.get_autostashpath_name_with_date("20240102"), "/home/u/sync/.ncs/20240102");
    assert_eq!(LocalInfo::get_cachefile_name_raw("/r"), "/r/.ncs/cache.json");
    assert_eq!(LocalInfo::get_excludefile_name_raw("/r"), "/r/.ncs/excludes.json");
    assert_eq!(LocalInfo::get_metadir_name_raw("/r"), "/r/.ncs/");
}

#[test]
fn dispatcher_buffers_offline_and_replays_on_reconnect() {
    let mut state = NCState::new("100".to_string());
    let mut s = Session::new(false);
    for p in ["a.txt", "b.txt", "c.txt"] {
        assert!(matches!(s.dispatch(Command::LocEvent(LocalEvent::Create(p.to_string())), &mut state), Step::Buffered));
    }
    match s.dispatch(Command::NetworkConnect, &mut state) {
        Step::SoftRepair(q) => {
            assert_eq!(q.len(), 3);
            assert!(matches!(&q[0], LocalEvent::Create(p) if p == "a.txt"));
        }
        other => panic!("unexpected {:?}", other),
    }
    assert!(s.offline_queue.is_empty());
    s.set_online();
    assert!(matches!(s.dispatch(Command::NetworkConnect, &mut state), Step::Nothing));
    assert!(matches!(
        s.dispatch(Command::LocEvent(LocalEvent::Modify("x".to_string())), &mut state),
        Step::HandleLocal(LocalEvent::Modify(p)) if p == "x"
    ));
    let old = NCState::new("90".to_string());
    assert!(matches!(s.dispatch(Command::NCEvents(vec![], old), &mut state), Step::Nothing));
    let newer = NCState::new("150".to_string());
    let evs = vec![NCEvent::Delete("/d".to_string())];
    assert!(matches!(s.dispatch(Command::NCEvents(evs, newer), &mut state), Step::ApplyRemote(v) if v.len() == 1));
    assert_eq!(state.latest_activity_id, "150");
    assert!(matches!(s.dispatch(Command::NCEvents(vec![], NCState::new("x".to_string())), &mut state), Step::InvalidCursor));
    s.nc2l.increment("/p");
    assert!(matches!(s.dispatch(Command::NetworkDisconnect, &mut state), Step::Nothing));
    assert!(!s.online);
    assert_eq!(s.nc2l.count("/p"), 0);
    assert!(matches!(s.dispatch(Command::HardRepair, &mut state), Step::HardRepair));
    assert!(matches!(s.dispatch(Command::Terminate(false), &mut state), Step::Stop(false)));
    assert!(matches!(s.dispatch(Command::UpdateExcFile, &mut state), Step::Stop(true)));
    s.l2nc.insert(NCEvent::Create("/z".to_string()));
    s.nc2l.increment("/z");
    s.clear_books();
    assert_eq!(s.l2nc.len(), 0);
    assert_eq!(s.nc2l.count("/z"), 0);
}

#[test]
fn watcher_events_coalesce() {
    assert!(matches!(coalesce(RawFsEvent::Create("/r/a".to_string())), Coalesced::Emit(LocalEvent::Create(p)) if p == "/r/a"));
    assert!(matches!(coalesce(RawFsEvent::Write("/r/a".to_string(), true)), Coalesced::Emit(LocalEvent::Modify(_))));
    assert!(matches!(coalesce(RawFsEvent::Write("/r/d".to_string(), false)), Coalesced::Nothing));
    assert!(matches!(coalesce(RawFsEvent::Rename("/r/a".to_string(), "/r/b".to_string())), Coalesced::Emit(LocalEvent::Move(_, _))));
    assert!(matches!(coalesce(RawFsEvent::Other), Coalesced::Nothing));
    let p = match coalesce(RawFsEvent::Remove("/r/a".to_string())) {
        Coalesced::AwaitPartner(p) => p,
        other => panic!("unexpected {:?}", other),
    };
    let (e, rest) = pair_removal(p.clone(), Some(RawFsEvent::Create("/r/b".to_string())));
    assert!(matches!(e, LocalEvent::Move(a, b) if a == "/r/a" && b == "/r/b"));
    assert!(rest.is_none());
    let (e, rest) = pair_removal(p.clone(), None);
    assert!(matches!(e, LocalEvent::Delete(a) if a == "/r/a"));
    assert!(rest.is_none());
    let (e, rest) = pair_removal(p, Some(RawFsEvent::Write("/r/c".to_string(), true)));
    assert!(matches!(e, LocalEvent::Delete(_)));
    assert!(matches!(rest, Some(RawFsEvent::Write(q, true)) if q == "/r/c"));
}
