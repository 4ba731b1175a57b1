use ncs::books::{CancelCounter, EchoSet};
use ncs::errors::NcsError;
use ncs::events::{
    activity_type_of, decode_activity, parse_usize, sort_paths_by_len, tag_kind, ActivityPoll,
    ActivityType, Decoded, NCEvent, NCState, PathTag, PollReply, PollStep,
};
use ncs::repair::{ModifiedPath, ModifiedPathVec};

fn s(v: &[&str]) -> Vec<String> {
    v.iter().map(|x| x.to_string()).collect()
}

fn events_of(d: Decoded) -> Vec<NCEvent> {
    match d {
        Decoded::Events(v) => v,
        Decoded::Restore(_) => panic!("expected events"),
    }
}

#[test]
fn file_created_gives_creates() {
    let d = decode_activity(Some(ActivityType::FileCreated), s(&["one.txt", "/two.txt"]), vec![], vec![]);
    assert_eq!(
        events_of(d),
        vec![NCEvent::Create("/one.txt".to_string()), NCEvent::Create("/two.txt".to_string())]
    );
}

#[test]
fn file_changed_with_new_file_moves_longest_first() {
    let d = decode_activity(Some(ActivityType::FileChanged), vec![], s(&["q"]), s(&["a", "ab"]));
    assert_eq!(
        events_of(d),
        vec![
            NCEvent::Move("/ab".to_string(), "/q".to_string()),
            NCEvent::Move("/a".to_string(), "/q".to_string())
        ]
    );
}

#[test]
fn file_changed_without_new_file_modifies() {
    let d = decode_activity(Some(ActivityType::FileChanged), s(&["p"]), vec![], vec![]);
    assert_eq!(events_of(d), vec![NCEvent::Modify("/p".to_string())]);
}

#[test]
fn file_deleted_and_unknown_kinds() {
    let d = decode_activity(Some(ActivityType::FileDeleted), s(&["x"]), vec![], vec![]);
    assert_eq!(events_of(d), vec![NCEvent::Delete("/x".to_string())]);
    let d = decode_activity(None, s(&["x"]), vec![], vec![]);
    assert!(events_of(d).is_empty());
    match decode_activity(Some(ActivityType::FileRestored), s(&["r"]), vec![], vec![]) {
        Decoded::Restore(v) => assert_eq!(v, vec!["/r"]),
        Decoded::Events(_) => panic!("expected a restore"),
    }
}

#[test]
fn activity_types_and_tags() {
    assert_eq!(activity_type_of("file_created"), Some(ActivityType::FileCreated));
    assert_eq!(activity_type_of("file_restored"), Some(ActivityType::FileRestored));
    assert_eq!(activity_type_of("file_changed"), Some(ActivityType::FileChanged));
    assert_eq!(activity_type_of("file_deleted"), Some(ActivityType::FileDeleted));
    assert_eq!(activity_type_of("calendar"), None);
    assert_eq!(tag_kind("file"), Some(PathTag::File));
    assert_eq!(tag_kind("files"), Some(PathTag::File));
    assert_eq!(tag_kind("newfile"), Some(PathTag::NewFile));
    assert_eq!(tag_kind("oldfile1"), Some(PathTag::OldFile));
    assert_eq!(tag_kind("path"), None);
}

#[test]
fn sort_by_length_is_stable() {
    let v = sort_paths_by_len(s(&["bb", "a", "cc", "ddd"]), true);
    assert_eq!(v, vec!["ddd", "bb", "cc", "a"]);
    let v = sort_paths_by_len(s(&["bb", "a", "cc", "ddd"]), false);
    assert_eq!(v, vec!["a", "bb", "cc", "ddd"]);
}

#[test]
fn activity_ids_compare_as_numbers() {
    assert_eq!(parse_usize("150"), Some(150));
    assert_eq!(parse_usize("+7"), Some(7));
    assert_eq!(parse_usize(""), None);
    assert_eq!(parse_usize("+"), None);
    assert_eq!(parse_usize("12a"), None);
    assert_eq!(parse_usize("99999999999999999999999"), None);
    let a = NCState::new("100".to_string());
    let b = NCState::new("99".to_string());
    assert!(a.eq_or_newer_than(&b));
    assert!(!b.eq_or_newer_than(&a));
    assert!(a.eq_or_newer_than(&a.copy()));
}

#[test]
fn cursor_advances_until_not_modified() {
    let mut poll = ActivityPoll::new("100");
    let page = vec![NCEvent::Create("/n".to_string())];
    assert!(matches!(
        poll.step(PollReply::Page { last_given: "150".to_string(), events: page }),
        PollStep::Continue
    ));
    assert!(matches!(poll.step(PollReply::NotModified), PollStep::Done));
    assert_eq!(poll.since, "150");
    assert_eq!(poll.events, vec![NCEvent::Create("/n".to_string())]);
}

#[test]
fn poll_failure_reported_only_without_progress() {
    let mut poll = ActivityPoll::new("100");
    assert!(matches!(
        poll.step(PollReply::Failed(500)),
        PollStep::Fail(NcsError::BadStatusError(500))
    ));
    poll.step(PollReply::Page { last_given: "101".to_string(), events: vec![] });
    assert!(matches!(poll.step(PollReply::Failed(500)), PollStep::Done));
    assert_eq!(poll.since, "101");
}

#[test]
fn remote_write_cancels_exactly_one_local_event() {
    let mut book = CancelCounter::new();
    book.increment("/archive/old.md");
    assert_eq!(book.count("/archive/old.md"), 1);
    book.increment("/archive/old.md");
    assert_eq!(book.count("/archive/old.md"), 2);
    assert!(book.take("/archive/old.md"));
    assert_eq!(book.count("/archive/old.md"), 1);
    assert!(book.take("/archive/old.md"));
    assert_eq!(book.count("/archive/old.md"), 0);
    assert!(!book.take("/archive/old.md"));
}

#[test]
fn echo_is_dropped_once_and_leaves_set() {
    let mut set = EchoSet::new();
    set.insert(NCEvent::Create("/a/b/x.txt".to_string()));
    set.insert(NCEvent::Create("/a/b/x.txt".to_string()));
    assert_eq!(set.len(), 1);
    let polled = vec![
        NCEvent::Create("/a/b/x.txt".to_string()),
        NCEvent::Modify("/other".to_string()),
        NCEvent::Create("/a/b/x.txt".to_string()),
    ];
    let kept = set.drop_echoes(polled);
    assert_eq!(
        kept,
        vec![NCEvent::Modify("/other".to_string()), NCEvent::Create("/a/b/x.txt".to_string())]
    );
    assert_eq!(set.len(), 0);
    assert!(!set.contains(&NCEvent::Create("/a/b/x.txt".to_string())));
}

#[test]
fn echo_set_remove() {
    let mut set = EchoSet::new();
    let m = NCEvent::Move("/p".to_string(), "/q".to_string());
    set.insert(m.copy());
    assert!(set.contains(&m));
    assert!(set.remove(&m));
    assert!(!set.remove(&m));
}

#[test]
fn modified_paths_of_events() {
    let evs = vec![
        NCEvent::Create("/c".to_string()),
        NCEvent::Delete("/d".to_string()),
        NCEvent::Modify("/m".to_string()),
        NCEvent::Move("/f".to_string(), "/t".to_string()),
    ];
    assert_eq!(evs[1].to_modified_path(), None);
    assert_eq!(evs.get_modified_path_vec(), vec!["/c", "/m", "/t"]);
}
