//! Local events: what the engine does about a change seen on disk.
//!
//! `plan_local_event` decides, from the event, the tree, the exclude filter,
//! the book of expected local writes and what the disk shows, which request
//! the server gets. Once the request succeeded, the matching `finish_*`
//! function updates the tree and records the echo to expect from the server.
use vstd::prelude::*;
use crate::books::{taken, CancelCounter, EchoSet};
use crate::entry::{
    append_outcome, graft, path_segments, tree_after_pop, tree_get, tree_pop,
    tree_wf, update_at, AppendMode, AppendOutcome, Entry, EntryModel, EntryStatus, EntryType, TypeModel,
};
use crate::errors::NcsError;
use crate::events::{EventModel, NCEvent};
use crate::exclude::{judged, path_components, ExcludeChecker};
use crate::paths::{
    canonical_path, drop_slash, has_last_slash, name_of_path, path2name, path2str, without_head_slash, without_last_slash, SlashSide,
};

verus! {

/// A change seen on disk, by path relative to the root.
#[derive(Debug)]
pub enum LocalEvent {
    Create(String),
    Delete(String),
    Modify(String),
    Move(String, String),
}

impl View for LocalEvent {
    type V = EventModel;

    open spec fn view(&self) -> EventModel {
        match self {
            LocalEvent::Create(p) => EventModel::Create(p@),
            LocalEvent::Delete(p) => EventModel::Delete(p@),
            LocalEvent::Modify(p) => EventModel::Modify(p@),
            LocalEvent::Move(p, q) => EventModel::Move(p@, q@),
        }
    }
}

/// `p` relative to `root` when `p` is `root` or lies below it, else `p`.
pub open spec fn stripped(p: Seq<char>, root: Seq<char>) -> Seq<char> {
    if p == root {
        Seq::empty()
    } else if root.len() < p.len() && p.take(root.len() as int) == root && p[root.len() as int] == '/' {
        p.skip(root.len() as int + 1)
    } else {
        p
    }
}

/// Backslashes turned into slashes and a last slash dropped.
pub open spec fn fixed_path(p: Seq<char>) -> Seq<char> {
    without_last_slash(crate::paths::forward_slashed(p))
}

pub open spec fn map_event(e: EventModel, f: spec_fn(Seq<char>) -> Seq<char>) -> EventModel {
    match e {
        EventModel::Create(p) => EventModel::Create(f(p)),
        EventModel::Delete(p) => EventModel::Delete(f(p)),
        EventModel::Modify(p) => EventModel::Modify(f(p)),
        EventModel::Move(p, q) => EventModel::Move(f(p), f(q)),
    }
}

fn strip_prefix_text(p: &String, root: &str) -> (r: String)
    ensures
        r@ == stripped(p@, root@),
{
    let pr = p.as_str();
    let n = pr.unicode_len();
    let m = root.unicode_len();
    let whole = root.to_owned();
    if *p == whole {
        return String::new();
    }
    if m < n && crate::events::text_starts_with(pr, root) && pr.get_char(m) == '/' {
        return pr.substring_char(m + 1, n).to_owned();
    }
    pr.to_owned()
}

/// `p` with backslashes turned into slashes and without a last slash.
pub fn fix_path(path: &str) -> (r: String)
    ensures
        r@ == fixed_path(path@),
{
    let s = crate::paths::path2str_forward(path);
    drop_slash(s.as_str(), SlashSide::Last)
}

impl LocalEvent {
    /// Makes the paths relative to `root_path`.
    pub fn strip_root(&mut self, root_path: &str)
        ensures
            final(self)@ == map_event(old(self)@, |p: Seq<char>| stripped(p, root_path@)),
    {
        let e = match self {
            LocalEvent::Create(p) => LocalEvent::Create(strip_prefix_text(p, root_path)),
            LocalEvent::Delete(p) => LocalEvent::Delete(strip_prefix_text(p, root_path)),
            LocalEvent::Modify(p) => LocalEvent::Modify(strip_prefix_text(p, root_path)),
            LocalEvent::Move(p, q) => LocalEvent::Move(strip_prefix_text(p, root_path), strip_prefix_text(q, root_path)),
        };
        *self = e;
    }

    /// Turns backslashes into slashes and drops a last slash.
    pub fn reformat_path(&mut self)
        ensures
            final(self)@ == map_event(old(self)@, |p: Seq<char>| fixed_path(p)),
    {
        let e = match self {
            LocalEvent::Create(p) => LocalEvent::Create(fix_path(p.as_str())),
            LocalEvent::Delete(p) => LocalEvent::Delete(fix_path(p.as_str())),
            LocalEvent::Modify(p) => LocalEvent::Modify(fix_path(p.as_str())),
            LocalEvent::Move(p, q) => LocalEvent::Move(fix_path(p.as_str()), fix_path(q.as_str())),
        };
        *self = e;
    }

    pub fn copy(&self) -> (r: LocalEvent)
        ensures
            r@ == self@,
    {
        match self {
            LocalEvent::Create(p) => LocalEvent::Create(p.as_str().to_owned()),
            LocalEvent::Delete(p) => LocalEvent::Delete(p.as_str().to_owned()),
            LocalEvent::Modify(p) => LocalEvent::Modify(p.as_str().to_owned()),
            LocalEvent::Move(p, q) => LocalEvent::Move(p.as_str().to_owned(), q.as_str().to_owned()),
        }
    }
}

impl crate::repair::ModifiedPath for LocalEvent {
    open spec fn modified_path(&self) -> Option<Seq<char>> {
        crate::events::modified_path_of(self@)
    }

    fn to_modified_path(&self) -> (r: Option<String>) {
        match self {
            LocalEvent::Create(p) => Some(p.as_str().to_owned()),
            LocalEvent::Delete(_) => None,
            LocalEvent::Modify(p) => Some(p.as_str().to_owned()),
            LocalEvent::Move(_, q) => Some(q.as_str().to_owned()),
        }
    }
}

/// `root` joined with `rel`, as `Path::join` joins a relative path.
pub open spec fn joined(root: Seq<char>, rel: Seq<char>) -> Seq<char> {
    if root.len() == 0 {
        rel
    } else if has_last_slash(root) {
        root + rel
    } else {
        root + seq!['/'] + rel
    }
}

/// Where the entry at `path` (relative to the root, head slash or not)
/// lies on disk under `root_path`.
pub fn get_localpath(path: &str, root_path: &str) -> (r: String)
    ensures
        r@ == joined(root_path@, without_head_slash(path@)),
{
    let rel = drop_slash(path, SlashSide::Head);
    let mut r = root_path.to_owned();
    if root_path.unicode_len() == 0 {
        return rel;
    }
    if !crate::paths::is_last_slashed(root_path) {
        r.append(crate::paths::slash_literal());
    }
    r.append(rel.as_str());
    r
}

/// Tests a local event at `p` against the book of expected local writes,
/// by the canonical form of `p`.
pub fn haveto_cancel_target(p: &str, book: &mut CancelCounter) -> (r: bool)
    requires
        old(book).wf(),
    ensures
        final(book).wf(),
        r == old(book)@.contains_key(canonical_path(p@)),
        final(book)@ == taken(old(book)@, canonical_path(p@)),
{
    let key = path2str(p);
    book.take(key.as_str())
}

/// The part of `s` before its last `/`; empty when it has none.
pub open spec fn parent_text(s: Seq<char>) -> Seq<char>
    decreases s.len(),
{
    if s.len() == 0 {
        s
    } else if s.last() == '/' {
        s.drop_last()
    } else {
        parent_text(s.drop_last())
    }
}

pub fn parent_of(s: &str) -> (r: String)
    ensures
        r@ == parent_text(s@),
{
    let n = s.unicode_len();
    let mut cut: usize = 0;
    let mut found = false;
    let mut i: usize = 0;
    while i < n
        invariant
            n == s@.len(),
            i <= n,
            cut < n || !found,
            found ==> cut < i,
            parent_text(s@.subrange(0, i as int)) == if found {
                s@.subrange(0, cut as int)
            } else {
                Seq::<char>::empty()
            },
        decreases n - i,
    {
        let c = s.get_char(i);
        let ghost t = s@.subrange(0, i + 1);
        assert(t.drop_last() =~= s@.subrange(0, i as int));
        assert(t.last() == c);
        if c == '/' {
            cut = i;
            found = true;
        }
        i = i + 1;
    }
    assert(s@.subrange(0, n as int) =~= s@);
    if found {
        s.substring_char(0, cut).to_owned()
    } else {
        String::new()
    }
}

/// What the disk shows at an event's path (a move's source).
#[derive(Debug, Clone, Copy)]
pub struct DiskFacts {
    pub exists: bool,
    pub is_file: bool,
    pub is_dir: bool,
}

/// What to do about a local event.
#[derive(Debug)]
pub enum LocalAction {
    /// Nothing: excluded, expected, or not applicable.
    Ignore,
    /// Upload the file at the canonical path.
    Put(String),
    /// Make the directory at the canonical path.
    Mkcol(String),
    /// Delete the canonical path on the server.
    Delete(String),
    /// Move the first canonical path to the second on the server.
    Move(String, String),
    /// Handle this event instead.
    Redo(LocalEvent),
}

pub ghost enum ActionModel {
    Ignore,
    Put(Seq<char>),
    Mkcol(Seq<char>),
    Delete(Seq<char>),
    Move(Seq<char>, Seq<char>),
    Redo(EventModel),
}

impl View for LocalAction {
    type V = ActionModel;

    open spec fn view(&self) -> ActionModel {
        match self {
            LocalAction::Ignore => ActionModel::Ignore,
            LocalAction::Put(p) => ActionModel::Put(p@),
            LocalAction::Mkcol(p) => ActionModel::Mkcol(p@),
            LocalAction::Delete(p) => ActionModel::Delete(p@),
            LocalAction::Move(p, q) => ActionModel::Move(p@, q@),
            LocalAction::Redo(e) => ActionModel::Redo(e@),
        }
    }
}

/// The decision about a local event, and the book after it. An event at
/// a path (a move: at its destination) for which the book counts a write
/// done for the server is dropped and uses up one count.
pub open spec fn local_plan(
    ev: EventModel,
    tree: EntryModel,
    whites: Seq<Seq<char>>,
    blacks: Seq<Seq<char>>,
    book: Map<Seq<char>, nat>,
    disk: DiskFacts,
) -> (ActionModel, Map<Seq<char>, nat>) {
    match ev {
        EventModel::Create(p) => {
            let key = canonical_path(p);
            if !judged(whites, blacks, path_components(p)) {
                (ActionModel::Ignore, book)
            } else if book.contains_key(key) {
                (ActionModel::Ignore, taken(book, key))
            } else if !disk.exists || tree_get(tree, parent_text(key)) is None {
                (ActionModel::Ignore, book)
            } else if tree_get(tree, key) is Some {
                (ActionModel::Redo(EventModel::Modify(p)), book)
            } else if disk.is_file {
                (ActionModel::Put(key), book)
            } else {
                (ActionModel::Mkcol(key), book)
            }
        },
        EventModel::Delete(p) => {
            let key = canonical_path(p);
            if !judged(whites, blacks, path_components(p)) {
                (ActionModel::Ignore, book)
            } else if book.contains_key(key) {
                (ActionModel::Ignore, taken(book, key))
            } else if disk.exists || tree_get(tree, key) is None {
                (ActionModel::Ignore, book)
            } else {
                (ActionModel::Delete(key), book)
            }
        },
        EventModel::Modify(p) => {
            let key = canonical_path(p);
            if !judged(whites, blacks, path_components(p)) {
                (ActionModel::Ignore, book)
            } else if book.contains_key(key) {
                (ActionModel::Ignore, taken(book, key))
            } else if !disk.exists || disk.is_dir || tree_get(tree, key) is None {
                (ActionModel::Ignore, book)
            } else {
                (ActionModel::Put(key), book)
            }
        },
        EventModel::Move(p, q) => {
            let p_out = !judged(whites, blacks, path_components(p));
            let q_out = !judged(whites, blacks, path_components(q));
            if p_out && q_out {
                (ActionModel::Ignore, book)
            } else if book.contains_key(canonical_path(q)) {
                (ActionModel::Ignore, taken(book, canonical_path(q)))
            } else if disk.exists {
                (ActionModel::Ignore, book)
            } else if p_out {
                (ActionModel::Redo(EventModel::Create(q)), book)
            } else if q_out {
                (ActionModel::Redo(EventModel::Delete(p)), book)
            } else if tree_get(tree, canonical_path(p)) is None {
                (ActionModel::Ignore, book)
            } else {
                (ActionModel::Move(canonical_path(p), canonical_path(q)), book)
            }
        },
    }
}

/// Decides what a local event asks of the server.
pub fn plan_local_event(
    ev: &LocalEvent,
    root: &Entry,
    checker: &ExcludeChecker,
    book: &mut CancelCounter,
    disk: DiskFacts,
) -> (r: LocalAction)
    requires
        tree_wf(root@),
        old(book).wf(),
    ensures
        final(book).wf(),
        (r@, final(book)@) == local_plan(
            ev@,
            root@,
            checker.white_sources(),
            checker.black_sources(),
            old(book)@,
            disk,
        ),
{
    match ev {
        LocalEvent::Create(p) => {
            if !checker.judge(p.as_str()) {
                return LocalAction::Ignore;
            }
            if haveto_cancel_target(p.as_str(), book) {
                return LocalAction::Ignore;
            }
            let key = path2str(p.as_str());
            let parent = parent_of(key.as_str());
            if !disk.exists || root.get(parent.as_str()).is_none() {
                return LocalAction::Ignore;
            }
            if root.get(key.as_str()).is_some() {
                return LocalAction::Redo(LocalEvent::Modify(p.as_str().to_owned()));
            }
            if disk.is_file {
                LocalAction::Put(key)
            } else {
                LocalAction::Mkcol(key)
            }
        },
        LocalEvent::Delete(p) => {
            if !checker.judge(p.as_str()) {
                return LocalAction::Ignore;
            }
            if haveto_cancel_target(p.as_str(), book) {
                return LocalAction::Ignore;
            }
            let key = path2str(p.as_str());
            if disk.exists || root.get(key.as_str()).is_none() {
                return LocalAction::Ignore;
            }
            LocalAction::Delete(key)
        },
        LocalEvent::Modify(p) => {
            if !checker.judge(p.as_str()) {
                return LocalAction::Ignore;
            }
            if haveto_cancel_target(p.as_str(), book) {
                return LocalAction::Ignore;
            }
            let key = path2str(p.as_str());
            if !disk.exists || disk.is_dir || root.get(key.as_str()).is_none() {
                return LocalAction::Ignore;
            }
            LocalAction::Put(key)
        },
        LocalEvent::Move(p, q) => {
            let p_out = !checker.judge(p.as_str());
            let q_out = !checker.judge(q.as_str());
            if p_out && q_out {
                return LocalAction::Ignore;
            }
            if haveto_cancel_target(q.as_str(), book) {
                return LocalAction::Ignore;
            }
            if disk.exists {
                return LocalAction::Ignore;
            }
            if p_out {
                return LocalAction::Redo(LocalEvent::Create(q.as_str().to_owned()));
            }
            if q_out {
                return LocalAction::Redo(LocalEvent::Delete(p.as_str().to_owned()));
            }
            let pk = path2str(p.as_str());
            if root.get(pk.as_str()).is_none() {
                return LocalAction::Ignore;
            }
            LocalAction::Move(pk, path2str(q.as_str()))
        },
    }
}

/// The entry a created path gets: its last segment as name, up to date.
pub open spec fn created_entry(path: Seq<char>, is_file: bool, etag: Option<Seq<char>>) -> EntryModel {
    EntryModel {
        name: without_last_slash(name_of_path(path)),
        status: EntryStatus::UpToDate,
        type_: if is_file {
            TypeModel::File { etag }
        } else {
            TypeModel::Directory
        },
        children: Seq::empty(),
    }
}

/// After the server accepted a created entry at `path`: the entry goes
/// into the tree (create mode) and its creation is expected back.
pub fn finish_create(
    root: &mut Entry,
    echoes: &mut EchoSet,
    path: &str,
    is_file: bool,
    etag: Option<String>,
) -> (r: Result<(), NcsError>)
    requires
        tree_wf(old(root)@),
        old(echoes).wf(),
    ensures
        tree_wf(final(root)@),
        final(echoes).wf(),
        ({
            let x = created_entry(path@, is_file, crate::entry::opt_view(etag));
            match append_outcome(old(root)@, path@, x, AppendMode::Create, false) {
                AppendOutcome::Grafted { segs, entry } => r is Ok && final(root)@ == graft(old(root)@, segs, entry)
                    && final(echoes)@ == old(echoes)@.insert(EventModel::Create(path@)),
                AppendOutcome::NotRoot => r is Ok && final(root)@ == old(root)@ && final(echoes)@ == old(
                    echoes,
                )@.insert(EventModel::Create(path@)),
                _ => r is Err && final(root)@ == old(root)@ && final(echoes)@ == old(echoes)@,
            }
        }),
{
    let name = path2name(path);
    let ty = if is_file {
        EntryType::File { etag }
    } else {
        EntryType::Directory
    };
    let mut e = Entry::new(name, ty);
    e.set_status(EntryStatus::UpToDate);
    match root.append(path, e, AppendMode::Create, false) {
        Ok(_) => {},
        Err(err) => {
            return Err(err);
        },
    }
    echoes.insert(NCEvent::Create(path.to_owned()));
    Ok(())
}

/// After the server deleted `path`: the entry leaves the tree and the
/// deletion is expected back.
pub fn finish_delete(root: &mut Entry, echoes: &mut EchoSet, path: &str)
    requires
        tree_wf(old(root)@),
        old(echoes).wf(),
    ensures
        tree_wf(final(root)@),
        final(echoes).wf(),
        final(root)@ == tree_after_pop(old(root)@, path@),
        final(echoes)@ == old(echoes)@.insert(EventModel::Delete(path@)),
{
    let _ = root.pop(path);
    echoes.insert(NCEvent::Delete(path.to_owned()));
}

/// After the server stored the file at `path` with `etag`: the entry
/// becomes that file, up to date, and the change is expected back.
pub fn finish_modify(root: &mut Entry, echoes: &mut EchoSet, path: &str, etag: Option<String>)
    requires
        tree_wf(old(root)@),
        old(echoes).wf(),
    ensures
        tree_wf(final(root)@),
        final(echoes).wf(),
        tree_get(old(root)@, path@) is Some ==> final(root)@ == update_at(
            old(root)@,
            path_segments(path@)->0,
            EntryStatus::UpToDate,
            Some(TypeModel::File { etag: crate::entry::opt_view(etag) }),
        ),
        tree_get(old(root)@, path@) is None ==> final(root)@ == old(root)@,
        final(echoes)@ == old(echoes)@.insert(EventModel::Modify(path@)),
{
    let _ = root.update_entry(path, EntryStatus::UpToDate, Some(EntryType::File { etag }));
    echoes.insert(NCEvent::Modify(path.to_owned()));
}

/// The echo a local move from `p` to `q` leaves: the move into `q`'s
/// directory when the names agree, else the move to `q`.
pub open spec fn move_echo(p: Seq<char>, q: Seq<char>) -> EventModel {
    if name_of_path(p) == name_of_path(q) {
        EventModel::Move(p, parent_text(q))
    } else {
        EventModel::Move(p, q)
    }
}

/// After the server moved `from` to `to`: the entry moves in the tree
/// (move mode, overwriting) and the move is expected back.
pub fn finish_move(root: &mut Entry, echoes: &mut EchoSet, from: &str, to: &str) -> (r: Result<(), NcsError>)
    requires
        tree_wf(old(root)@),
        old(echoes).wf(),
    ensures
        tree_wf(final(root)@),
        final(echoes).wf(),
        tree_pop(old(root)@, from@) is None ==> r is Err && final(root)@ == old(root)@ && final(echoes)@ == old(
            echoes,
        )@,
        tree_pop(old(root)@, from@) matches Some(x) ==> {
            let mid = tree_after_pop(old(root)@, from@);
            match append_outcome(mid, to@, x, AppendMode::Move, true) {
                AppendOutcome::Grafted { segs, entry } => r is Ok && final(root)@ == graft(mid, segs, entry)
                    && final(echoes)@ == old(echoes)@.insert(move_echo(from@, to@)),
                AppendOutcome::NotRoot => r is Ok && final(root)@ == mid && final(echoes)@ == old(echoes)@.insert(
                    move_echo(from@, to@),
                ),
                _ => r is Err && final(root)@ == mid && final(echoes)@ == old(echoes)@,
            }
        },
{
    let entry = match root.pop(from) {
        Some(e) => e,
        None => {
            return Err(NcsError::InvalidPathError(from.to_owned()));
        },
    };
    proof {
        crate::entry::lemma_lookup_wf(old(root)@, path_segments(from@)->0);
    }
    match root.append(to, entry, AppendMode::Move, true) {
        Ok(_) => {},
        Err(err) => {
            return Err(err);
        },
    }
    let echo = if path2name(from) == path2name(to) {
        NCEvent::Move(from.to_owned(), parent_of(to))
    } else {
        NCEvent::Move(from.to_owned(), to.to_owned())
    };
    echoes.insert(echo);
    Ok(())
}

/// After a download written for the server at the canonical form of `p`,
/// the next local modification seen at `p` is dropped, and the book is as
/// it was before the download.
pub proof fn law_downloaded_write_not_uploaded(
    tree: EntryModel,
    whites: Seq<Seq<char>>,
    blacks: Seq<Seq<char>>,
    book: Map<Seq<char>, nat>,
    p: Seq<char>,
    disk: DiskFacts,
)
    requires
        crate::books::counts_positive(book),
        judged(whites, blacks, path_components(p)),
    ensures
        local_plan(EventModel::Modify(p), tree, whites, blacks, crate::books::bumped(book, canonical_path(p)), disk)
            == (ActionModel::Ignore, book),
{
    crate::books::law_remote_write_cancels_one_local_event(book, canonical_path(p));
}

/// A raw change reported by the filesystem watcher.
#[derive(Debug)]
pub enum RawFsEvent {
    Create(String),
    /// A write, and whether the path is a file now.
    Write(String, bool),
    Remove(String),
    Rename(String, String),
    /// Anything the engine does not act on.
    Other,
}

/// What one raw event gives.
#[derive(Debug)]
pub enum Coalesced {
    Emit(LocalEvent),
    /// A removal: wait briefly for a creation that makes it a move.
    AwaitPartner(String),
    Nothing,
}

/// A write on a file is a modification, a rename a move, a creation a
/// creation; a removal waits for a partner; the rest is dropped.
pub fn coalesce(ev: RawFsEvent) -> (r: Coalesced)
    ensures
        ev matches RawFsEvent::Create(p) ==> (r matches Coalesced::Emit(e) && e@ == EventModel::Create(p@)),
        ev matches RawFsEvent::Write(p, true) ==> (r matches Coalesced::Emit(e) && e@ == EventModel::Modify(p@)),
        ev matches RawFsEvent::Write(_, false) ==> r is Nothing,
        ev matches RawFsEvent::Remove(p) ==> (r matches Coalesced::AwaitPartner(q) && q@ == p@),
        ev matches RawFsEvent::Rename(p, q) ==> (r matches Coalesced::Emit(e) && e@ == EventModel::Move(p@, q@)),
        ev is Other ==> r is Nothing,
{
    match ev {
        RawFsEvent::Create(p) => Coalesced::Emit(LocalEvent::Create(p)),
        RawFsEvent::Write(p, is_file) => if is_file {
            Coalesced::Emit(LocalEvent::Modify(p))
        } else {
            Coalesced::Nothing
        },
        RawFsEvent::Remove(p) => Coalesced::AwaitPartner(p),
        RawFsEvent::Rename(p, q) => Coalesced::Emit(LocalEvent::Move(p, q)),
        RawFsEvent::Other => Coalesced::Nothing,
    }
}

/// A removal of `p` and what followed within the window: a creation of
/// `q` makes a move to `q`; otherwise `p` was deleted, and an event that
/// did follow comes back to be handled on its own.
pub fn pair_removal(p: String, next: Option<RawFsEvent>) -> (r: (LocalEvent, Option<RawFsEvent>))
    ensures
        next matches Some(RawFsEvent::Create(q)) ==> r.0@ == EventModel::Move(p@, q@) && r.1 is None,
        next is None ==> r.0@ == EventModel::Delete(p@) && r.1 is None,
        (next matches Some(n) && !(n is Create)) ==> r.0@ == EventModel::Delete(p@) && r.1 == next,
{
    match next {
        Some(RawFsEvent::Create(q)) => (LocalEvent::Move(p, q), None),
        None => (LocalEvent::Delete(p), None),
        other => (LocalEvent::Delete(p), other),
    }
}

/// After a remote move whose landing place `q` was counted as a write done
/// for the server, the local move seen towards `q` is dropped, and the
/// book is as it was before.
pub proof fn law_moved_write_not_replayed(
    tree: EntryModel,
    whites: Seq<Seq<char>>,
    blacks: Seq<Seq<char>>,
    book: Map<Seq<char>, nat>,
    p: Seq<char>,
    q: Seq<char>,
    disk: DiskFacts,
)
    requires
        crate::books::counts_positive(book),
        judged(whites, blacks, path_components(p)) || judged(whites, blacks, path_components(q)),
    ensures
        local_plan(EventModel::Move(p, q), tree, whites, blacks, crate::books::bumped(book, canonical_path(q)), disk)
            == (ActionModel::Ignore, book),
{
    crate::books::law_remote_write_cancels_one_local_event(book, canonical_path(q));
}

} // verus!
