//! Remote events: what the engine does to the tree about a change reported
//! by the server, and the bookkeeping of downloads.
use vstd::prelude::*;
use crate::books::{bumped, count_of, CancelCounter};
use crate::entry::{
    append_outcome, graft, grafted_paths, path_segments, tree_after_pop, tree_get, tree_pop, tree_wf,
    update_at, AppendMode, AppendOutcome, Entry, EntryModel, EntryStatus, EntryType, TypeModel,
};
use crate::errors::NcsError;
use crate::events::{EventModel, NCEvent};
use crate::exclude::{judged, path_components, ExcludeChecker};
use crate::paths::{drop_slash, name_of_path, path2name, views, without_last_slash, SlashSide};

verus! {

/// What a remote event asks of the tree.
#[derive(Debug)]
pub enum RemotePlan {
    /// Nothing: excluded, or already known.
    Skip,
    /// Create the entry at the path, once the server said file or directory.
    Create(String),
    Delete(String),
    Modify(String),
    Move(String, String),
}

pub ghost enum RemotePlanModel {
    Skip,
    Create(Seq<char>),
    Delete(Seq<char>),
    Modify(Seq<char>),
    Move(Seq<char>, Seq<char>),
}

impl View for RemotePlan {
    type V = RemotePlanModel;

    open spec fn view(&self) -> RemotePlanModel {
        match self {
            RemotePlan::Skip => RemotePlanModel::Skip,
            RemotePlan::Create(p) => RemotePlanModel::Create(p@),
            RemotePlan::Delete(p) => RemotePlanModel::Delete(p@),
            RemotePlan::Modify(p) => RemotePlanModel::Modify(p@),
            RemotePlan::Move(p, q) => RemotePlanModel::Move(p@, q@),
        }
    }
}

/// The plan for a remote event: excluded paths (a move's destination) are
/// skipped, a creation of a known path too; paths lose a last slash.
pub open spec fn remote_plan(
    ev: EventModel,
    tree: EntryModel,
    whites: Seq<Seq<char>>,
    blacks: Seq<Seq<char>>,
) -> RemotePlanModel {
    match ev {
        EventModel::Create(p) => if !judged(whites, blacks, path_components(p)) || tree_get(
            tree,
            without_last_slash(p),
        ) is Some {
            RemotePlanModel::Skip
        } else {
            RemotePlanModel::Create(without_last_slash(p))
        },
        EventModel::Delete(p) => if !judged(whites, blacks, path_components(p)) {
            RemotePlanModel::Skip
        } else {
            RemotePlanModel::Delete(without_last_slash(p))
        },
        EventModel::Modify(p) => if !judged(whites, blacks, path_components(p)) {
            RemotePlanModel::Skip
        } else {
            RemotePlanModel::Modify(without_last_slash(p))
        },
        EventModel::Move(f, t) => if !judged(whites, blacks, path_components(t)) {
            RemotePlanModel::Skip
        } else {
            RemotePlanModel::Move(without_last_slash(f), without_last_slash(t))
        },
    }
}

pub fn plan_remote_event(ev: &NCEvent, root: &Entry, checker: &ExcludeChecker) -> (r: RemotePlan)
    requires
        tree_wf(root@),
    ensures
        r@ == remote_plan(ev@, root@, checker.white_sources(), checker.black_sources()),
{
    match ev {
        NCEvent::Create(p) => {
            if !checker.judge(p.as_str()) {
                return RemotePlan::Skip;
            }
            let k = drop_slash(p.as_str(), SlashSide::Last);
            if root.get(k.as_str()).is_some() {
                return RemotePlan::Skip;
            }
            RemotePlan::Create(k)
        },
        NCEvent::Delete(p) => {
            if !checker.judge(p.as_str()) {
                return RemotePlan::Skip;
            }
            RemotePlan::Delete(drop_slash(p.as_str(), SlashSide::Last))
        },
        NCEvent::Modify(p) => {
            if !checker.judge(p.as_str()) {
                return RemotePlan::Skip;
            }
            RemotePlan::Modify(drop_slash(p.as_str(), SlashSide::Last))
        },
        NCEvent::Move(f, t) => {
            if !checker.judge(t.as_str()) {
                return RemotePlan::Skip;
            }
            RemotePlan::Move(drop_slash(f.as_str(), SlashSide::Last), drop_slash(t.as_str(), SlashSide::Last))
        },
    }
}

/// The entry a remotely created path gets: its last segment as name, a
/// file without etag or a directory, needing an update.
pub open spec fn remote_entry(path: Seq<char>, is_file: bool) -> EntryModel {
    EntryModel {
        name: without_last_slash(name_of_path(path)),
        status: EntryStatus::NeedUpdate,
        type_: if is_file {
            TypeModel::File { etag: None }
        } else {
            TypeModel::Directory
        },
        children: Seq::empty(),
    }
}

/// Inserts the entry for a remote creation (create mode); the paths to
/// realise on disk come back, the new entry's last.
pub fn apply_remote_create(root: &mut Entry, path: &str, is_file: bool) -> (r: Result<Vec<String>, NcsError>)
    requires
        tree_wf(old(root)@),
    ensures
        tree_wf(final(root)@),
        match append_outcome(old(root)@, path@, remote_entry(path@, is_file), AppendMode::Create, false) {
            AppendOutcome::Grafted { segs, entry } => r matches Ok(v) && final(root)@ == graft(
                old(root)@,
                segs,
                entry,
            ) && views(v@) == grafted_paths(old(root)@, segs, Seq::empty(), true),
            AppendOutcome::NotRoot => r matches Ok(v) && v@.len() == 0 && final(root)@ == old(root)@,
            _ => r is Err && final(root)@ == old(root)@,
        },
{
    let name = path2name(path);
    let ty = if is_file {
        EntryType::File { etag: None }
    } else {
        EntryType::Directory
    };
    let e = Entry::new(name, ty);
    root.append(path, e, AppendMode::Create, false)
}

/// Records whether the entry at `path` could be realised on disk.
pub fn mark_touched(root: &mut Entry, path: &str, ok: bool)
    requires
        tree_wf(old(root)@),
    ensures
        tree_wf(final(root)@),
        tree_get(old(root)@, path@) is Some ==> final(root)@ == update_at(
            old(root)@,
            path_segments(path@)->0,
            if ok {
                EntryStatus::UpToDate
            } else {
                EntryStatus::Error
            },
            None,
        ),
        tree_get(old(root)@, path@) is None ==> final(root)@ == old(root)@,
{
    let st = if ok {
        EntryStatus::UpToDate
    } else {
        EntryStatus::Error
    };
    root.update_entry(path, st, None);
}

/// A remote deletion: the entry leaves the tree.
pub fn apply_remote_delete(root: &mut Entry, path: &str) -> (r: Option<Entry>)
    requires
        tree_wf(old(root)@),
    ensures
        tree_wf(final(root)@),
        r matches Some(x) ==> tree_pop(old(root)@, path@) == Some(x@),
        r is None ==> tree_pop(old(root)@, path@) is None,
        final(root)@ == tree_after_pop(old(root)@, path@),
{
    root.pop(path)
}

/// A remote modification: the entry needs an update; whether it is a file
/// to download.
pub fn apply_remote_modify(root: &mut Entry, path: &str) -> (r: bool)
    requires
        tree_wf(old(root)@),
    ensures
        tree_wf(final(root)@),
        r == (tree_get(old(root)@, path@) matches Some(e) && e.type_ is File),
        tree_get(old(root)@, path@) is Some ==> final(root)@ == update_at(
            old(root)@,
            path_segments(path@)->0,
            EntryStatus::NeedUpdate,
            None,
        ),
        tree_get(old(root)@, path@) is None ==> final(root)@ == old(root)@,
{
    let is_file = match root.get(path) {
        Some(e) => e.is_file(),
        None => false,
    };
    root.update_entry(path, EntryStatus::NeedUpdate, None);
    is_file
}

/// Where a moved entry `x` lands when moved to `to`: inside `to` when that
/// is a directory, else at `to`.
pub open spec fn moved_dest(tree: EntryModel, to: Seq<char>, x: EntryModel) -> Seq<char> {
    if tree_get(tree, to) matches Some(d) && d.type_ is Directory {
        without_last_slash(to) + seq!['/'] + x.name
    } else {
        without_last_slash(to)
    }
}

/// A remote move: the entry leaves `from` and is appended at `to` (move
/// mode, overwriting); with it come the paths of the directories made and
/// the path where the entry landed. `None` when `from` is unknown, so that
/// the caller creates what the server has under `to` instead.
pub fn apply_remote_move(root: &mut Entry, from: &str, to: &str) -> (r: Result<
    Option<(Vec<String>, String)>,
    NcsError,
>)
    requires
        tree_wf(old(root)@),
    ensures
        tree_wf(final(root)@),
        tree_pop(old(root)@, from@) is None ==> (r matches Ok(None) && final(root)@ == old(root)@),
        tree_pop(old(root)@, from@) matches Some(x) ==> {
            let mid = tree_after_pop(old(root)@, from@);
            match append_outcome(mid, to@, x, AppendMode::Move, true) {
                AppendOutcome::Grafted { segs, entry } => r matches Ok(Some((v, dest))) && final(root)@ == graft(
                    mid,
                    segs,
                    entry,
                ) && views(v@) == grafted_paths(mid, segs, Seq::empty(), false) && dest@ == moved_dest(
                    mid,
                    to@,
                    x,
                ),
                AppendOutcome::NotRoot => r matches Ok(Some((v, _))) && v@.len() == 0 && final(root)@ == mid,
                _ => r is Err && final(root)@ == mid,
            }
        },
{
    let entry = match root.pop(from) {
        Some(e) => e,
        None => {
            return Ok(None);
        },
    };
    proof {
        crate::entry::lemma_lookup_wf(old(root)@, path_segments(from@)->0);
    }
    let into_dir = match root.get(to) {
        Some(d) => d.is_dir(),
        None => false,
    };
    let mut dest = drop_slash(to, SlashSide::Last);
    if into_dir {
        dest.append(crate::paths::slash_literal());
        let name = entry.get_raw_name();
        dest.append(name.as_str());
    }
    match root.append(to, entry, AppendMode::Move, true) {
        Ok(v) => Ok(Some((v, dest))),
        Err(e) => Err(e),
    }
}

/// Counts one local write done for the server at `path`, unless its count
/// is already at the largest value.
pub fn count_local_write(book: &mut CancelCounter, path: &str)
    requires
        old(book).wf(),
    ensures
        final(book).wf(),
        count_of(old(book)@, path@) < usize::MAX ==> final(book)@ == bumped(old(book)@, path@),
        count_of(old(book)@, path@) == usize::MAX ==> final(book)@ == old(book)@,
{
    if book.count(path) < usize::MAX {
        book.increment(path);
    }
}

pub open spec fn flipped(t: TypeModel) -> TypeModel {
    if t is File {
        TypeModel::Directory
    } else {
        TypeModel::File { etag: None }
    }
}

/// After a move, the server says whether `path` is a file. When the tree
/// disagrees, the entry takes the other variant and needs an update; the
/// result says whether it changed.
pub fn fix_entry_type(root: &mut Entry, path: &str, remote_is_file: bool) -> (r: bool)
    requires
        tree_wf(old(root)@),
    ensures
        tree_wf(final(root)@),
        r == (tree_get(old(root)@, path@) matches Some(e) && (e.type_ is File) != remote_is_file),
        r ==> final(root)@ == update_at(
            old(root)@,
            path_segments(path@)->0,
            EntryStatus::NeedUpdate,
            Some(flipped(tree_get(old(root)@, path@)->0.type_)),
        ),
        !r ==> final(root)@ == old(root)@,
{
    let local_is_file = match root.get(path) {
        Some(e) => e.is_file(),
        None => {
            return false;
        },
    };
    if local_is_file == remote_is_file {
        return false;
    }
    let t = if local_is_file {
        EntryType::Directory
    } else {
        EntryType::File { etag: None }
    };
    root.update_entry(path, EntryStatus::NeedUpdate, Some(t));
    true
}

/// Whether the file at `path` must be downloaded: the server has an etag
/// for it and the tree has no etag or another one.
pub fn needs_download(root: &Entry, path: &str, remote_etag: &Option<String>) -> (r: bool)
    requires
        tree_wf(root@),
    ensures
        r == (tree_get(root@, path@) matches Some(e) && remote_etag matches Some(t) && e.type_ != (TypeModel::File {
            etag: Some(t@),
        })),
{
    match (root.get(path), remote_etag) {
        (Some(e), Some(t)) => match e.entry_type() {
            EntryType::File { etag: Some(mine) } => !(*mine == *t),
            _ => true,
        },
        _ => false,
    }
}

/// After a download step for `path`: with `Some(etag)` the file was
/// written, takes that etag and counts as a local write to drop later;
/// either way the entry is up to date.
pub fn finish_download(root: &mut Entry, book: &mut CancelCounter, path: &str, new_etag: Option<String>)
    requires
        tree_wf(old(root)@),
        old(book).wf(),
        count_of(old(book)@, path@) < usize::MAX,
    ensures
        tree_wf(final(root)@),
        final(book).wf(),
        new_etag is Some ==> final(book)@ == bumped(old(book)@, path@),
        new_etag is None ==> final(book)@ == old(book)@,
        tree_get(old(root)@, path@) is Some ==> final(root)@ == update_at(
            old(root)@,
            path_segments(path@)->0,
            EntryStatus::UpToDate,
            match new_etag {
                Some(t) => Some(TypeModel::File { etag: Some(t@) }),
                None => None,
            },
        ),
        tree_get(old(root)@, path@) is None ==> final(root)@ == old(root)@,
{
    match new_etag {
        Some(t) => {
            root.update_entry(path, EntryStatus::UpToDate, Some(EntryType::File { etag: Some(t) }));
            book.increment(path);
        },
        None => {
            root.update_entry(path, EntryStatus::UpToDate, None);
        },
    }
}

} // verus!
