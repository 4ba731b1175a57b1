//! Repair: bringing the disk back in line with the tree after the two
//! sides drifted apart.
//!
//! Soft repair walks the tree and realises what the disk lacks, counting
//! each write in the book of expected local events, then replays the
//! changes made while offline. Normal repair starts from a fresh tree and
//! also removes what the disk has and the tree does not.
use vstd::prelude::*;
use crate::books::{bumped, count_of, CancelCounter};
use crate::entry::{
    child_pos, path_segments, tree_get, tree_wf, update_at, Entry, EntryModel, EntryStatus, EntryType, TypeModel,
};
use crate::events::opt_text;
use crate::exclude::{judged, path_components, ExcludeChecker};
use crate::local::{DiskFacts, LocalEvent};
use crate::paths::{canonical_path, path2str, views};

verus! {

broadcast use vstd::std_specs::vec::group_vec_axioms;

/// An event that may leave a path changed.
pub trait ModifiedPath {
    spec fn modified_path(&self) -> Option<Seq<char>>;

    fn to_modified_path(&self) -> (r: Option<String>)
        ensures
            opt_text(r) == self.modified_path(),
    ;
}

/// The changed paths of a list of events, in order.
pub open spec fn collect_paths<T: ModifiedPath>(s: Seq<T>) -> Seq<Seq<char>>
    decreases s.len(),
{
    if s.len() == 0 {
        Seq::empty()
    } else {
        let r = collect_paths(s.drop_last());
        match s.last().modified_path() {
            Some(p) => r.push(p),
            None => r,
        }
    }
}

pub trait ModifiedPathVec {
    spec fn modified_paths(&self) -> Seq<Seq<char>>;

    fn get_modified_path_vec(&self) -> (r: Vec<String>)
        ensures
            views(r@) == self.modified_paths(),
    ;
}

impl<T: ModifiedPath> ModifiedPathVec for Vec<T> {
    open spec fn modified_paths(&self) -> Seq<Seq<char>> {
        collect_paths(self@)
    }

    fn get_modified_path_vec(&self) -> (r: Vec<String>) {
        let mut out: Vec<String> = Vec::new();
        let mut i: usize = 0;
        while i < self.len()
            invariant
                i <= self@.len(),
                views(out@) == collect_paths(self@.take(i as int)),
            decreases self@.len() - i,
        {
            let ghost t = self@.take(i + 1);
            assert(t.drop_last() =~= self@.take(i as int));
            assert(t.last() == self@[i as int]);
            match self[i].to_modified_path() {
                Some(p) => {
                    let ghost o = views(out@);
                    out.push(p);
                    assert(views(out@) =~= o.push(p@));
                },
                None => {},
            }
            i = i + 1;
        }
        assert(self@.take(self@.len() as int) =~= self@);
        out
    }
}

/// An entry met by the repair walk.
#[derive(Debug)]
pub struct WalkItem {
    pub path: String,
    pub is_dir: bool,
}

pub open spec fn walk_views(v: Seq<WalkItem>) -> Seq<(Seq<char>, bool)> {
    v.map_values(|w: WalkItem| (w.path@, w.is_dir))
}

/// The entries of the tree under `e` (at `path`), top down, each with its
/// path and whether it is a directory; an entry whose name the filter
/// excludes is left out with everything under it.
pub open spec fn walk(e: EntryModel, path: Seq<char>, whites: Seq<Seq<char>>, blacks: Seq<Seq<char>>) -> Seq<
    (Seq<char>, bool),
>
    decreases e,
{
    if !judged(whites, blacks, path_components(e.name)) {
        Seq::empty()
    } else if e.type_ is File {
        seq![(path, false)]
    } else {
        seq![(path, true)] + walk_all(e.children, path, whites, blacks)
    }
}

/// The walks of the siblings `cs` under `parent`, in order.
pub open spec fn walk_all(
    cs: Seq<EntryModel>,
    parent: Seq<char>,
    whites: Seq<Seq<char>>,
    blacks: Seq<Seq<char>>,
) -> Seq<(Seq<char>, bool)>
    decreases cs,
{
    if cs.len() == 0 {
        Seq::empty()
    } else {
        let last = cs[cs.len() - 1];
        walk_all(cs.subrange(0, cs.len() - 1), parent, whites, blacks) + walk(
            last,
            parent + seq!['/'] + last.name,
            whites,
            blacks,
        )
    }
}

fn walk_rec(e: &Entry, path: &String, checker: &ExcludeChecker, out: &mut Vec<WalkItem>)
    ensures
        walk_views(final(out)@) == walk_views(old(out)@) + walk(
            e@,
            path@,
            checker.white_sources(),
            checker.black_sources(),
        ),
    decreases e@,
{
    let ghost w = checker.white_sources();
    let ghost b = checker.black_sources();
    let ghost base = walk_views(out@);
    let name = e.get_raw_name();
    if !checker.judge(name.as_str()) {
        assert(base + Seq::<(Seq<char>, bool)>::empty() =~= base);
        return;
    }
    if e.is_file() {
        out.push(WalkItem { path: path.as_str().to_owned(), is_dir: false });
        assert(walk_views(out@) =~= base + seq![(path@, false)]);
        return;
    }
    out.push(WalkItem { path: path.as_str().to_owned(), is_dir: true });
    let ghost cs = e@.children;
    assert(cs.subrange(0, 0) =~= Seq::<EntryModel>::empty());
    assert(walk_views(out@) =~= base + seq![(path@, true)] + walk_all(cs.subrange(0, 0), path@, w, b));
    let n = e.children_len();
    let mut i: usize = 0;
    while i < n
        invariant
            n == cs.len(),
            cs == e@.children,
            i <= n,
            w == checker.white_sources(),
            b == checker.black_sources(),
            walk_views(out@) == base + seq![(path@, true)] + walk_all(cs.subrange(0, i as int), path@, w, b),
        decreases n - i,
    {
        let c = e.child_at(i);
        let mut p = path.as_str().to_owned();
        p.append(slash_text());
        let cn = c.get_raw_name();
        p.append(cn.as_str());
        let ghost before = walk_views(out@);
        proof {
            vstd::seq::axiom_seq_index_decreases(cs, i as int);
        }
        walk_rec(c, &p, checker, out);
        proof {
            let t = cs.subrange(0, i + 1);
            assert(t.subrange(0, t.len() - 1) =~= cs.subrange(0, i as int));
            assert(t[t.len() - 1] == c@);
            assert(walk_views(out@) =~= base + seq![(path@, true)] + walk_all(t, path@, w, b));
        }
        i = i + 1;
    }
    proof {
        assert(cs.subrange(0, n as int) =~= cs);
        assert(walk_views(out@) =~= base + walk(e@, path@, w, b));
    }
}

fn slash_text() -> (r: &'static str)
    ensures
        r@ == seq!['/'],
{
    crate::paths::slash_literal()
}

/// The entries that repair looks at, from the root (at the empty path).
pub fn repair_targets(root: &Entry, checker: &ExcludeChecker) -> (r: Vec<WalkItem>)
    ensures
        walk_views(r@) == walk(root@, Seq::empty(), checker.white_sources(), checker.black_sources()),
{
    let mut out: Vec<WalkItem> = Vec::new();
    let start = String::new();
    walk_rec(root, &start, checker, &mut out);
    assert(walk_views(out@) =~= walk(root@, Seq::empty(), checker.white_sources(), checker.black_sources()));
    out
}

/// What repair does on disk for one entry.
#[derive(Debug, Clone, Copy, PartialEq, Eq, Structural)]
pub enum RepairStep {
    /// The disk agrees.
    Nothing,
    /// A directory is missing: make it.
    MakeDir,
    /// A file stands where a directory belongs: stash it and make the directory.
    ReplaceWithDir,
    /// A file is missing: download it.
    Download,
}

/// The step for an entry, from whether it is a directory and what the
/// disk shows at its path.
pub open spec fn repair_step_of(is_dir: bool, disk: DiskFacts) -> RepairStep {
    if is_dir {
        if !disk.exists {
            RepairStep::MakeDir
        } else if disk.is_file {
            RepairStep::ReplaceWithDir
        } else {
            RepairStep::Nothing
        }
    } else if !disk.exists {
        RepairStep::Download
    } else {
        RepairStep::Nothing
    }
}

pub fn repair_step(is_dir: bool, disk: DiskFacts) -> (r: RepairStep)
    ensures
        r == repair_step_of(is_dir, disk),
{
    if is_dir {
        if !disk.exists {
            RepairStep::MakeDir
        } else if disk.is_file {
            RepairStep::ReplaceWithDir
        } else {
            RepairStep::Nothing
        }
    } else if !disk.exists {
        RepairStep::Download
    } else {
        RepairStep::Nothing
    }
}

/// The tree after a repair step at `path`: a file to download loses its
/// etag and needs an update; anything else is up to date.
pub open spec fn repaired(tree: EntryModel, path: Seq<char>, step: RepairStep) -> EntryModel {
    if tree_get(tree, path) is None {
        tree
    } else if step == RepairStep::Download {
        update_at(tree, path_segments(path)->0, EntryStatus::NeedUpdate, Some(TypeModel::File { etag: None }))
    } else {
        update_at(tree, path_segments(path)->0, EntryStatus::UpToDate, None)
    }
}

/// Records a repair step at `path` in the tree; when `count` is set, a
/// step that writes to disk is counted as a local event to drop.
pub fn apply_repair_step(root: &mut Entry, book: &mut CancelCounter, path: &str, step: RepairStep, count: bool)
    requires
        tree_wf(old(root)@),
        old(book).wf(),
        count_of(old(book)@, path@) < usize::MAX,
    ensures
        tree_wf(final(root)@),
        final(book).wf(),
        final(root)@ == repaired(old(root)@, path@, step),
        count && step != RepairStep::Nothing ==> final(book)@ == bumped(old(book)@, path@),
        !(count && step != RepairStep::Nothing) ==> final(book)@ == old(book)@,
{
    if step == RepairStep::Download {
        root.update_entry(path, EntryStatus::NeedUpdate, Some(EntryType::File { etag: None }));
    } else {
        root.update_entry(path, EntryStatus::UpToDate, None);
    }
    if count && step != RepairStep::Nothing {
        book.increment(path);
    }
}

/// The command that replays a change made while offline at `p`: a
/// modification when the tree knows the path, else a creation.
pub fn replay_event(root: &Entry, p: &str) -> (r: LocalEvent)
    requires
        tree_wf(root@),
    ensures
        tree_get(root@, canonical_path(p@)) is Some ==> r@ == crate::events::EventModel::Modify(p@),
        tree_get(root@, canonical_path(p@)) is None ==> r@ == crate::events::EventModel::Create(p@),
{
    let key = path2str(p);
    if root.get(key.as_str()).is_some() {
        LocalEvent::Modify(p.to_owned())
    } else {
        LocalEvent::Create(p.to_owned())
    }
}

/// The names on disk under the directory at `path` that the filter keeps
/// and the tree does not know: they are to be removed (stashed).
pub fn extra_children(root: &Entry, path: &str, disk_names: &Vec<String>, checker: &ExcludeChecker) -> (r: Vec<
    String,
>)
    requires
        tree_wf(root@),
    ensures
        tree_get(root@, path@) is None ==> r@.len() == 0,
        tree_get(root@, path@) matches Some(d) ==> views(r@) == views(disk_names@).filter(
            |n: Seq<char>|
                judged(checker.white_sources(), checker.black_sources(), path_components(n)) && child_pos(
                    d.children,
                    n,
                ) < 0,
        ),
{
    let mut out: Vec<String> = Vec::new();
    let d = match root.get(path) {
        Some(d) => d,
        None => {
            return out;
        },
    };
    proof {
        crate::entry::lemma_lookup_wf(root@, path_segments(path@)->0);
    }
    let ghost dm = d@;
    let ghost keep = |n: Seq<char>|
        judged(checker.white_sources(), checker.black_sources(), path_components(n)) && child_pos(dm.children, n) < 0;
    let mut i: usize = 0;
    while i < disk_names.len()
        invariant
            i <= disk_names@.len(),
            tree_wf(d@),
            dm == d@,
            keep == (|n: Seq<char>|
                judged(checker.white_sources(), checker.black_sources(), path_components(n)) && child_pos(
                    dm.children,
                    n,
                ) < 0),
            views(out@) == views(disk_names@).take(i as int).filter(keep),
        decreases disk_names@.len() - i,
    {
        let ghost t = views(disk_names@).take(i + 1);
        assert(t.drop_last() =~= views(disk_names@).take(i as int));
        assert(t.last() == disk_names@[i as int]@);
        proof {
            reveal(Seq::filter);
        }
        let nm = &disk_names[i];
        if checker.judge(nm.as_str()) && !d.has_child(nm) {
            let ghost o = views(out@);
            out.push(nm.as_str().to_owned());
            assert(views(out@) =~= o.push(nm@));
        }
        i = i + 1;
    }
    assert(views(disk_names@).take(disk_names@.len() as int) =~= views(disk_names@));
    out
}

} // verus!
