//! The entry tree: directories and files of the synchronised namespace.
//!
//! A directory owns its children; a child is known to its parent under its
//! raw name, which is unique among its siblings. An entry is addressed by
//! its canonical path `/a/b/c`; the root has the empty name.
use vstd::prelude::*;
use crate::errors::NcsError;
use crate::paths::{
    drop_slash, lemma_split_slash_nonempty, split_slash, split_slash_vec, views, without_last_slash,
    SlashSide,
};

verus! {

broadcast use vstd::std_specs::vec::group_vec_axioms;

#[derive(Debug)]
pub enum EntryType {
    File { etag: Option<String> },
    Directory,
}

#[derive(Debug, Clone, Copy, PartialEq, Eq, Structural)]
pub enum EntryStatus {
    UpToDate,
    NeedUpdate,
    Error,
}

pub ghost enum TypeModel {
    File { etag: Option<Seq<char>> },
    Directory,
}

/// What an entry is: its name, status, variant and children, in order.
pub ghost struct EntryModel {
    pub name: Seq<char>,
    pub status: EntryStatus,
    pub type_: TypeModel,
    pub children: Seq<EntryModel>,
}

pub open spec fn opt_view(o: Option<String>) -> Option<Seq<char>> {
    match o {
        Some(s) => Some(s@),
        None => None,
    }
}

impl View for EntryType {
    type V = TypeModel;

    open spec fn view(&self) -> TypeModel {
        match self {
            EntryType::File { etag } => TypeModel::File { etag: opt_view(*etag) },
            EntryType::Directory => TypeModel::Directory,
        }
    }
}

#[derive(Debug)]
pub struct Entry {
    name: String,
    status: EntryStatus,
    type_: EntryType,
    children: Vec<Entry>,
}

pub closed spec fn entry_model(e: Entry) -> EntryModel
    decreases e,
{
    EntryModel {
        name: e.name@,
        status: e.status,
        type_: e.type_@,
        children: Seq::new(
            e.children@.len(),
            |i: int|
                if 0 <= i < e.children@.len() {
                    entry_model(e.children@[i])
                } else {
                    placeholder(Seq::empty())
                },
        ),
    }
}

impl View for Entry {
    type V = EntryModel;

    open spec fn view(&self) -> EntryModel {
        entry_model(*self)
    }
}

/// A directory made to fill a gap on a path.
pub open spec fn placeholder(name: Seq<char>) -> EntryModel {
    EntryModel {
        name,
        status: EntryStatus::UpToDate,
        type_: TypeModel::Directory,
        children: Seq::empty(),
    }
}

pub open spec fn valid_name(n: Seq<char>) -> bool {
    n.len() > 0 && !n.contains('/')
}

pub open spec fn names_unique(cs: Seq<EntryModel>) -> bool {
    forall|i: int, j: int|
        0 <= i < cs.len() && 0 <= j < cs.len() && i != j ==> #[trigger] cs[i].name != #[trigger] cs[j].name
}

/// A well-formed tree: files have no children, siblings have distinct
/// separator-free non-empty names, and so on all the way down.
pub open spec fn tree_wf(e: EntryModel) -> bool
    decreases e,
{
    &&& (e.type_ is File ==> e.children.len() == 0)
    &&& names_unique(e.children)
    &&& forall|i: int|
        #![trigger e.children[i]]
        0 <= i < e.children.len() ==> valid_name(e.children[i].name) && tree_wf(e.children[i])
}

/// Where the child named `name` stands among `cs`, or -1.
pub open spec fn child_pos(cs: Seq<EntryModel>, name: Seq<char>) -> int {
    if exists|i: int| 0 <= i < cs.len() && cs[i].name == name {
        choose|i: int| 0 <= i < cs.len() && cs[i].name == name
    } else {
        -1
    }
}

/// The entry reached from `e` through the names `segs`, top down. A file
/// is reached only as the last step.
pub open spec fn lookup(e: EntryModel, segs: Seq<Seq<char>>) -> Option<EntryModel>
    decreases segs.len(),
{
    if segs.len() == 0 {
        Some(e)
    } else if e.type_ is File {
        None
    } else {
        let i = child_pos(e.children, segs[0]);
        if i < 0 {
            None
        } else {
            lookup(e.children[i], segs.drop_first())
        }
    }
}

/// The names below the root that a canonical path goes through; `None`
/// when the path does not start at the root.
pub open spec fn path_segments(path: Seq<char>) -> Option<Seq<Seq<char>>> {
    let s = split_slash(without_last_slash(path));
    if s[0] == Seq::<char>::empty() {
        Some(s.drop_first())
    } else {
        None
    }
}

pub open spec fn is_root_model(e: EntryModel) -> bool {
    e.name == Seq::<char>::empty()
}

/// The entry at `path` in the tree rooted at `root`.
pub open spec fn tree_get(root: EntryModel, path: Seq<char>) -> Option<EntryModel> {
    if !is_root_model(root) {
        None
    } else {
        match path_segments(path) {
            Some(segs) => lookup(root, segs),
            None => None,
        }
    }
}

/// `e` with the entry at `segs` taken out.
pub open spec fn remove_at(e: EntryModel, segs: Seq<Seq<char>>) -> EntryModel
    decreases segs.len(),
{
    if segs.len() == 0 || e.type_ is File {
        e
    } else {
        let i = child_pos(e.children, segs[0]);
        if i < 0 {
            e
        } else if segs.len() == 1 {
            EntryModel { children: e.children.remove(i), ..e }
        } else {
            EntryModel { children: e.children.update(i, remove_at(e.children[i], segs.drop_first())), ..e }
        }
    }
}


/// What `pop` takes out of the tree rooted at `root`: never the root itself.
pub open spec fn tree_pop(root: EntryModel, path: Seq<char>) -> Option<EntryModel> {
    if !is_root_model(root) {
        None
    } else {
        match path_segments(path) {
            Some(segs) => if segs.len() > 0 {
                lookup(root, segs)
            } else {
                None
            },
            None => None,
        }
    }
}

/// The tree after `pop`.
pub open spec fn tree_after_pop(root: EntryModel, path: Seq<char>) -> EntryModel {
    if tree_pop(root, path) is Some {
        remove_at(root, path_segments(path)->0)
    } else {
        root
    }
}

pub open spec fn segs_valid(segs: Seq<Seq<char>>) -> bool {
    forall|k: int| 0 <= k < segs.len() ==> valid_name(#[trigger] segs[k])
}

/// No file stands where `segs` needs a directory on the way down.
pub open spec fn open_path(e: EntryModel, segs: Seq<Seq<char>>) -> bool
    decreases segs.len(),
{
    segs.len() <= 1 || {
        let i = child_pos(e.children, segs[0]);
        i < 0 || (e.children[i].type_ is Directory && open_path(e.children[i], segs.drop_first()))
    }
}

/// `e` with `x` attached at `segs`, directories made where the way is
/// missing, and a child of the same name replaced.
pub open spec fn graft(e: EntryModel, segs: Seq<Seq<char>>, x: EntryModel) -> EntryModel
    decreases segs.len(),
{
    if segs.len() <= 1 {
        let i = child_pos(e.children, x.name);
        if i < 0 {
            EntryModel { children: e.children.push(x), ..e }
        } else {
            EntryModel { children: e.children.update(i, x), ..e }
        }
    } else {
        let i = child_pos(e.children, segs[0]);
        if i < 0 {
            EntryModel {
                children: e.children.push(graft(placeholder(segs[0]), segs.drop_first(), x)),
                ..e
            }
        } else {
            EntryModel {
                children: e.children.update(i, graft(e.children[i], segs.drop_first(), x)),
                ..e
            }
        }
    }
}

/// The paths, top down, of the directories that `graft` makes, followed
/// in create mode by the path of the attached entry.
pub open spec fn grafted_paths(
    e: EntryModel,
    segs: Seq<Seq<char>>,
    prefix: Seq<char>,
    create: bool,
) -> Seq<Seq<char>>
    decreases segs.len(),
{
    if segs.len() == 0 {
        Seq::empty()
    } else {
        let p = prefix + seq!['/'] + segs[0];
        if segs.len() == 1 {
            if create {
                seq![p]
            } else {
                Seq::empty()
            }
        } else {
            let i = child_pos(e.children, segs[0]);
            if i < 0 {
                seq![p] + grafted_paths(placeholder(segs[0]), segs.drop_first(), p, create)
            } else {
                grafted_paths(e.children[i], segs.drop_first(), p, create)
            }
        }
    }
}

#[derive(Clone, Copy, PartialEq, Eq, Debug, Structural)]
pub enum AppendMode {
    Create,
    Move,
}

/// Where `append` attaches which entry, or `None` when the path is invalid.
/// A moved entry goes inside the target when that is an existing
/// directory, whatever its name; otherwise, when its name differs from the
/// path's last segment, it takes that segment as its name.
pub open spec fn append_plan(
    root: EntryModel,
    path: Seq<char>,
    x: EntryModel,
    mode: AppendMode,
) -> Option<(Seq<Seq<char>>, EntryModel)> {
    match path_segments(path) {
        None => None,
        Some(ps) => {
            let last = split_slash(without_last_slash(path)).last();
            let t = tree_get(root, path);
            let plan: Option<(Seq<Seq<char>>, EntryModel)> = if mode == AppendMode::Move && t is Some
                && t->0.type_ is Directory {
                Some((ps.push(x.name), x))
            } else if last == x.name {
                Some((ps, x))
            } else if mode == AppendMode::Create {
                None
            } else {
                Some((ps, EntryModel { name: last, ..x }))
            };
            match plan {
                Some((segs, y)) => if segs.len() > 0 && segs_valid(segs) && open_path(root, segs)
                    && root.type_ is Directory {
                    Some((segs, y))
                } else {
                    None
                },
                None => None,
            }
        },
    }
}


/// How `append` ends.
pub ghost enum AppendOutcome {
    NotRoot,
    AlreadyExists,
    Invalid,
    Grafted { segs: Seq<Seq<char>>, entry: EntryModel },
}

pub open spec fn append_outcome(
    root: EntryModel,
    path: Seq<char>,
    x: EntryModel,
    mode: AppendMode,
    overwrite: bool,
) -> AppendOutcome {
    if !is_root_model(root) {
        AppendOutcome::NotRoot
    } else if !overwrite && tree_get(root, path) is Some {
        AppendOutcome::AlreadyExists
    } else {
        match append_plan(root, path, x, mode) {
            None => AppendOutcome::Invalid,
            Some((segs, y)) => AppendOutcome::Grafted { segs, entry: y },
        }
    }
}


/// `e` with a new status and, when given, a new variant; a file keeps no children.
pub open spec fn restate(e: EntryModel, st: EntryStatus, ty: Option<TypeModel>) -> EntryModel {
    match ty {
        None => EntryModel { status: st, ..e },
        Some(t) => EntryModel {
            status: st,
            type_: t,
            children: if t is File {
                Seq::empty()
            } else {
                e.children
            },
            ..e
        },
    }
}

/// `e` with the entry at `segs` restated.
pub open spec fn update_at(e: EntryModel, segs: Seq<Seq<char>>, st: EntryStatus, ty: Option<TypeModel>) -> EntryModel
    decreases segs.len(),
{
    if segs.len() == 0 {
        restate(e, st, ty)
    } else if e.type_ is File {
        e
    } else {
        let i = child_pos(e.children, segs[0]);
        if i < 0 {
            e
        } else {
            EntryModel { children: e.children.update(i, update_at(e.children[i], segs.drop_first(), st, ty)), ..e }
        }
    }
}

pub open spec fn opt_type_view(t: Option<EntryType>) -> Option<TypeModel> {
    match t {
        Some(x) => Some(x@),
        None => None,
    }
}


/// The text of `format!("{:?}", etag)` for an optional etag.
pub uninterp spec fn debug_text(o: Option<Seq<char>>) -> Seq<char>;

/// Relies on std's `Debug` for `Option<String>`: the text depends on the
/// value alone.
#[verifier::external_body]
fn etag_debug(o: &Option<String>) -> (r: String)
    ensures
        r@ == debug_text(opt_view(*o)),
{
    format!("{:?}", o)
}

/// The mark of a status in the rendering: none, `*` or `!`.
pub open spec fn status_mark(s: EntryStatus) -> Seq<char> {
    match s {
        EntryStatus::UpToDate => Seq::empty(),
        EntryStatus::NeedUpdate => seq!['*'],
        EntryStatus::Error => seq!['!'],
    }
}

/// One line of the rendering: mark, name (a directory with `/`), and a
/// file's etag.
pub open spec fn entry_line(e: EntryModel) -> Seq<char> {
    match e.type_ {
        TypeModel::File { etag } => status_mark(e.status) + e.name + " etag: "@ + debug_text(etag),
        TypeModel::Directory => status_mark(e.status) + e.name + seq!['/'],
    }
}

/// The indented rendering of `e` and everything under it.
pub open spec fn render(e: EntryModel, indent: Seq<char>) -> Seq<char>
    decreases e,
{
    entry_line(e) + seq!['\n'] + render_kids(e.children, e.children.len() as int, indent)
}

/// The renderings of the first siblings of `total`, each after its branch.
pub open spec fn render_kids(cs: Seq<EntryModel>, total: int, indent: Seq<char>) -> Seq<char>
    decreases cs,
{
    if cs.len() == 0 {
        Seq::empty()
    } else {
        let k = cs.len() - 1;
        let more = k < total - 1;
        render_kids(cs.subrange(0, k), total, indent) + indent + (if more {
            "├── "@
        } else {
            "└── "@
        }) + render(cs[k], indent + (if more {
            "|"@
        } else {
            " "@
        }) + "   "@)
    }
}

proof fn lemma_model(e: Entry)
    ensures
        e@.name == e.name@,
        e@.status == e.status,
        e@.type_ == e.type_@,
        e@.children.len() == e.children@.len(),
        forall|i: int| 0 <= i < e.children@.len() ==> #[trigger] e@.children[i] == e.children@[i]@,
{
    reveal_with_fuel(entry_model, 2);
}

pub proof fn lemma_child_pos_unique(cs: Seq<EntryModel>, k: int)
    requires
        names_unique(cs),
        0 <= k < cs.len(),
    ensures
        child_pos(cs, cs[k].name) == k,
{
}

pub proof fn lemma_child_pos_absent(cs: Seq<EntryModel>, n: Seq<char>)
    requires
        forall|i: int| 0 <= i < cs.len() ==> cs[i].name != n,
    ensures
        child_pos(cs, n) == -1,
{
}


pub proof fn lemma_wf_children(e: EntryModel)
    requires
        tree_wf(e),
    ensures
        e.type_ is File ==> e.children.len() == 0,
        names_unique(e.children),
        forall|i: int| 0 <= i < e.children.len() ==> valid_name(#[trigger] e.children[i].name),
        forall|i: int| 0 <= i < e.children.len() ==> tree_wf(#[trigger] e.children[i]),
{
}

pub proof fn lemma_wf_update(e: EntryModel, k: int, c: EntryModel)
    requires
        tree_wf(e),
        0 <= k < e.children.len(),
        c.name == e.children[k].name,
        tree_wf(c),
        e.type_ is Directory,
    ensures
        tree_wf(EntryModel { children: e.children.update(k, c), ..e }),
{
    let n = EntryModel { children: e.children.update(k, c), ..e };
    lemma_wf_children(e);
    assert forall|i: int, j: int|
        0 <= i < n.children.len() && 0 <= j < n.children.len() && i != j implies #[trigger] n.children[i].name
        != #[trigger] n.children[j].name by {
        assert(e.children[i].name != e.children[j].name);
    }
    assert forall|i: int| 0 <= i < n.children.len() implies valid_name(#[trigger] n.children[i].name)
        && tree_wf(n.children[i]) by {
        if i != k {
            assert(valid_name(e.children[i].name) && tree_wf(e.children[i]));
        } else {
            assert(valid_name(e.children[k].name));
        }
    }
}

pub proof fn lemma_wf_remove(e: EntryModel, k: int)
    requires
        tree_wf(e),
        0 <= k < e.children.len(),
    ensures
        tree_wf(EntryModel { children: e.children.remove(k), ..e }),
{
    let n = EntryModel { children: e.children.remove(k), ..e };
    lemma_wf_children(e);
    assert forall|i: int, j: int|
        0 <= i < n.children.len() && 0 <= j < n.children.len() && i != j implies #[trigger] n.children[i].name
        != #[trigger] n.children[j].name by {
        let a = if i < k { i } else { i + 1 };
        let b = if j < k { j } else { j + 1 };
        assert(e.children[a].name != e.children[b].name);
    }
    assert forall|i: int| 0 <= i < n.children.len() implies valid_name(#[trigger] n.children[i].name)
        && tree_wf(n.children[i]) by {
        let a = if i < k { i } else { i + 1 };
        assert(valid_name(e.children[a].name) && tree_wf(e.children[a]));
    }
}

pub proof fn lemma_wf_push(e: EntryModel, c: EntryModel)
    requires
        tree_wf(e),
        e.type_ is Directory,
        valid_name(c.name),
        child_pos(e.children, c.name) == -1,
        tree_wf(c),
    ensures
        tree_wf(EntryModel { children: e.children.push(c), ..e }),
{
    let n = EntryModel { children: e.children.push(c), ..e };
    let m = e.children.len() as int;
    assert forall|i: int, j: int|
        0 <= i < n.children.len() && 0 <= j < n.children.len() && i != j implies #[trigger] n.children[i].name
        != #[trigger] n.children[j].name by {
        if i < m && j < m {
            assert(e.children[i].name != e.children[j].name);
        } else if i < m {
            if e.children[i].name == c.name {
                assert(exists|q: int| 0 <= q < e.children.len() && e.children[q].name == c.name);
            }
        } else if j < m {
            if e.children[j].name == c.name {
                assert(exists|q: int| 0 <= q < e.children.len() && e.children[q].name == c.name);
            }
        }
    }
    assert forall|i: int| 0 <= i < n.children.len() implies valid_name(#[trigger] n.children[i].name)
        && tree_wf(n.children[i]) by {
        if i < m {
            assert(valid_name(e.children[i].name) && tree_wf(e.children[i]));
        }
    }
}

pub proof fn lemma_lookup_wf(e: EntryModel, segs: Seq<Seq<char>>)
    requires
        tree_wf(e),
    ensures
        lookup(e, segs) matches Some(x) ==> tree_wf(x),
    decreases segs.len(),
{
    if segs.len() > 0 && e.type_ is Directory {
        let i = child_pos(e.children, segs[0]);
        if i >= 0 {
            assert(tree_wf(e.children[i]));
            lemma_lookup_wf(e.children[i], segs.drop_first());
        }
    }
}

pub proof fn lemma_child_pos_range(cs: Seq<EntryModel>, n: Seq<char>)
    ensures
        child_pos(cs, n) >= 0 ==> child_pos(cs, n) < cs.len() && cs[child_pos(cs, n)].name == n,
        child_pos(cs, n) < 0 ==> child_pos(cs, n) == -1,
{
}


pub proof fn lemma_update_missing(e: EntryModel, segs: Seq<Seq<char>>, st: EntryStatus, ty: Option<TypeModel>)
    requires
        lookup(e, segs) is None,
    ensures
        update_at(e, segs, st, ty) == e,
    decreases segs.len(),
{
    if segs.len() > 0 && e.type_ is Directory {
        let i = child_pos(e.children, segs[0]);
        if i >= 0 {
            lemma_update_missing(e.children[i], segs.drop_first(), st, ty);
            assert(e.children.update(i, e.children[i]) =~= e.children);
        }
    }
}

impl EntryType {
    pub fn is_file(&self) -> (r: bool)
        ensures
            r == (self@ is File),
    {
        match self {
            EntryType::File { .. } => true,
            _ => false,
        }
    }

    pub fn is_dir(&self) -> (r: bool)
        ensures
            r == (self@ is Directory),
    {
        !self.is_file()
    }

    /// The etag of a file, or the empty string.
    pub fn get_etag(&self) -> (r: String)
        ensures
            r@ == match self@ {
                TypeModel::File { etag: Some(t) } => t,
                _ => Seq::empty(),
            },
    {
        match self {
            EntryType::File { etag: Some(t) } => t.as_str().to_owned(),
            _ => String::new(),
        }
    }

    pub fn is_same_type(&self, other: &Self) -> (r: bool)
        ensures
            r == ((self@ is File) == (other@ is File)),
    {
        if self.is_file() {
            other.is_file()
        } else {
            other.is_dir()
        }
    }

    pub fn copy(&self) -> (r: EntryType)
        ensures
            r@ == self@,
    {
        match self {
            EntryType::File { etag: Some(t) } => EntryType::File { etag: Some(t.as_str().to_owned()) },
            EntryType::File { etag: None } => EntryType::File { etag: None },
            EntryType::Directory => EntryType::Directory,
        }
    }
}

impl Entry {
    /// A new entry with no parent and no children, marked as needing an
    /// update; a last slash of `name` is dropped.
    pub fn new(name: String, type_: EntryType) -> (r: Entry)
        ensures
            tree_wf(r@),
            r@ == (EntryModel {
                name: without_last_slash(name@),
                status: EntryStatus::NeedUpdate,
                type_: type_@,
                children: Seq::empty(),
            }),
    {
        let name = drop_slash(name.as_str(), SlashSide::Last);
        let r = Entry { name, status: EntryStatus::NeedUpdate, type_, children: Vec::new() };
        proof {
            lemma_model(r);
            assert(r@.children =~= Seq::<EntryModel>::empty());
        }
        r
    }

    /// The name, with a `/` after it for a directory.
    pub fn get_name(&self) -> (r: String)
        ensures
            r@ == if self@.type_ is Directory {
                self@.name.push('/')
            } else {
                self@.name
            },
    {
        proof {
            lemma_model(*self);
        }
        let mut r = self.name.as_str().to_owned();
        if self.type_.is_dir() {
            r.append(slash_text());
        }
        r
    }

    pub fn get_raw_name(&self) -> (r: String)
        ensures
            r@ == self@.name,
    {
        proof {
            lemma_model(*self);
        }
        self.name.as_str().to_owned()
    }

    pub fn set_name(&mut self, new_name: &str)
        ensures
            tree_wf(old(self)@) ==> tree_wf(final(self)@),
            final(self)@ == (EntryModel { name: without_last_slash(new_name@), ..old(self)@ }),
    {
        self.name = drop_slash(new_name, SlashSide::Last);
        proof {
            lemma_model(*old(self));
            lemma_model(*self);
            assert(self@.children =~= old(self)@.children);
        }
    }

    pub fn status(&self) -> (r: EntryStatus)
        ensures
            r == self@.status,
    {
        proof {
            lemma_model(*self);
        }
        self.status
    }

    pub fn set_status(&mut self, status: EntryStatus)
        ensures
            tree_wf(old(self)@) ==> tree_wf(final(self)@),
            final(self)@ == (EntryModel { status, ..old(self)@ }),
    {
        self.status = status;
        proof {
            lemma_model(*old(self));
            lemma_model(*self);
            assert(self@.children =~= old(self)@.children);
        }
    }

    pub fn entry_type(&self) -> (r: &EntryType)
        ensures
            r@ == self@.type_,
    {
        proof {
            lemma_model(*self);
        }
        &self.type_
    }

    pub fn is_file(&self) -> (r: bool)
        ensures
            r == (self@.type_ is File),
    {
        proof {
            lemma_model(*self);
        }
        self.type_.is_file()
    }

    pub fn is_dir(&self) -> (r: bool)
        ensures
            r == (self@.type_ is Directory),
    {
        proof {
            lemma_model(*self);
        }
        self.type_.is_dir()
    }

    /// The root is the entry with the empty name.
    pub fn is_root(&self) -> (r: bool)
        ensures
            r == is_root_model(self@),
    {
        proof {
            lemma_model(*self);
        }
        let r = self.name.unicode_len() == 0;
        proof {
            if r {
                assert(self.name@ =~= Seq::<char>::empty());
            }
        }
        r
    }

    pub fn children_len(&self) -> (r: usize)
        ensures
            r == self@.children.len(),
    {
        proof {
            lemma_model(*self);
        }
        self.children.len()
    }

    pub fn child_at(&self, i: usize) -> (r: &Entry)
        requires
            i < self@.children.len(),
        ensures
            r@ == self@.children[i as int],
    {
        proof {
            lemma_model(*self);
        }
        &self.children[i]
    }


    /// Looks up the entry reached through `segs[i..]`.
    fn lookup_rec(&self, segs: &Vec<String>, i: usize) -> (r: Option<&Entry>)
        requires
            tree_wf(self@),
            i <= segs@.len(),
        ensures
            r matches Some(x) ==> lookup(self@, views(segs@).skip(i as int)) == Some(x@),
            r is None ==> lookup(self@, views(segs@).skip(i as int)) is None,
        decreases segs@.len() - i,
    {
        proof {
            lemma_model(*self);
        }
        let ghost rest = views(segs@).skip(i as int);
        if i == segs.len() {
            assert(rest =~= Seq::<Seq<char>>::empty());
            return Some(self);
        }
        if self.type_.is_file() {
            return None;
        }
        assert(rest[0] == segs@[i as int]@);
        assert(rest.drop_first() =~= views(segs@).skip(i + 1));
        match self.find_child(&segs[i]) {
            None => None,
            Some(k) => {
                proof {
                    lemma_wf_children(self@);
                }
                let c = &self.children[k];
                c.lookup_rec(segs, i + 1)
            },
        }
    }

    /// The entry at `path`, if this is the root and the path resolves.
    pub fn get(&self, path: &str) -> (r: Option<&Entry>)
        requires
            tree_wf(self@),
        ensures
            r matches Some(x) ==> tree_get(self@, path@) == Some(x@),
            r is None ==> tree_get(self@, path@) is None,
    {
        if !self.is_root() {
            return None;
        }
        match path_split(path) {
            None => None,
            Some(v) => {
                assert(views(v@).skip(1) =~= views(v@).drop_first());
                self.lookup_rec(&v, 1)
            },
        }
    }

    /// Takes out the entry reached through `segs[i..]`, which is not empty.
    fn pop_rec(&mut self, segs: &Vec<String>, i: usize) -> (r: Option<Entry>)
        requires
            tree_wf(old(self)@),
            i < segs@.len(),
        ensures
            tree_wf(final(self)@),
            r matches Some(x) ==> lookup(old(self)@, views(segs@).skip(i as int)) == Some(x@),
            r is None ==> lookup(old(self)@, views(segs@).skip(i as int)) is None,
            r is Some ==> final(self)@ == remove_at(old(self)@, views(segs@).skip(i as int)),
            r is None ==> final(self)@ == old(self)@,
        decreases segs@.len() - i,
    {
        proof {
            lemma_model(*self);
            lemma_wf_children(self@);
        }
        let ghost old_m = self@;
        let ghost rest = views(segs@).skip(i as int);
        if self.type_.is_file() {
            return None;
        }
        assert(rest[0] == segs@[i as int]@);
        assert(rest.drop_first() =~= views(segs@).skip(i + 1));
        match self.find_child(&segs[i]) {
            None => None,
            Some(k) => {
                if segs.len() - i == 1 {
                    assert(rest.drop_first() =~= Seq::<Seq<char>>::empty());
                    let ghost kids = self.children@;
                    let c = self.children.remove(k);
                    proof {
                        assert(c == kids[k as int]);
                        assert(c@ == old_m.children[k as int]);
                        assert(lookup(c@, rest.drop_first()) == Some(c@));
                        lemma_model(*self);
                        assert(self@.children =~= old_m.children.remove(k as int));
                        lemma_wf_remove(old_m, k as int);
                    }
                    Some(c)
                } else {
                    let mut c = self.children.remove(k);
                    let r = c.pop_rec(segs, i + 1);
                    self.children.insert(k, c);
                    proof {
                        lemma_model(*self);
                        if r is Some {
                            assert(self@.children =~= old_m.children.update(
                                k as int,
                                remove_at(old_m.children[k as int], rest.drop_first()),
                            ));
                            lemma_wf_update(old_m, k as int, c@);
                        } else {
                            assert(self@.children =~= old_m.children);
                        }
                    }
                    r
                }
            },
        }
    }

    /// Takes the entry at `path` out of the tree; the root stays.
    pub fn pop(&mut self, path: &str) -> (r: Option<Entry>)
        requires
            tree_wf(old(self)@),
        ensures
            tree_wf(final(self)@),
            r matches Some(x) ==> tree_pop(old(self)@, path@) == Some(x@),
            r is None ==> tree_pop(old(self)@, path@) is None,
            final(self)@ == tree_after_pop(old(self)@, path@),
    {
        if !self.is_root() {
            return None;
        }
        match path_split(path) {
            None => None,
            Some(v) => {
                assert(views(v@).skip(1) =~= views(v@).drop_first());
                if v.len() < 2 {
                    return None;
                }
                self.pop_rec(&v, 1)
            },
        }
    }

    /// Whether no file blocks the way through `segs[i..]`.
    fn open_path_rec(&self, segs: &Vec<String>, i: usize) -> (r: bool)
        requires
            tree_wf(self@),
            i <= segs@.len(),
        ensures
            r == open_path(self@, views(segs@).skip(i as int)),
        decreases segs@.len() - i,
    {
        proof {
            lemma_model(*self);
        }
        let ghost rest = views(segs@).skip(i as int);
        if segs.len() - i <= 1 {
            return true;
        }
        assert(rest[0] == segs@[i as int]@);
        assert(rest.drop_first() =~= views(segs@).skip(i + 1));
        match self.find_child(&segs[i]) {
            None => true,
            Some(k) => {
                proof {
                    lemma_wf_children(self@);
                }
                let c = &self.children[k];
                c.is_dir() && c.open_path_rec(segs, i + 1)
            },
        }
    }

    /// Attaches `x` through `segs[i..]`, making missing directories, and
    /// records in `out` the paths that were made.
    fn graft_rec(
        &mut self,
        segs: &Vec<String>,
        i: usize,
        x: Entry,
        prefix: &String,
        create: bool,
        out: &mut Vec<String>,
    )
        requires
            i < segs@.len(),
            tree_wf(old(self)@),
            old(self)@.type_ is Directory,
            segs_valid(views(segs@).skip(i as int)),
            open_path(old(self)@, views(segs@).skip(i as int)),
            tree_wf(x@),
            x@.name == views(segs@).last(),
        ensures
            tree_wf(final(self)@),
            final(self)@ == graft(old(self)@, views(segs@).skip(i as int), x@),
            views(final(out)@) == views(old(out)@) + grafted_paths(
                old(self)@,
                views(segs@).skip(i as int),
                prefix@,
                create,
            ),
        decreases segs@.len() - i,
    {
        proof {
            lemma_model(*self);
            lemma_wf_children(self@);
            lemma_model(x);
        }
        let ghost old_m = self@;
        let ghost out0 = views(out@);
        let ghost rest = views(segs@).skip(i as int);
        assert(rest[0] == segs@[i as int]@);
        assert(rest.drop_first() =~= views(segs@).skip(i + 1));
        let mut p = prefix.as_str().to_owned();
        p.append(slash_text());
        p.append(segs[i].as_str());
        assert(valid_name(rest[0]));
        if segs.len() - i == 1 {
            assert(rest.last() == rest[0]);
            assert(views(segs@).last() == rest[0]);
            if create {
                out.push(p);
                assert(views(out@) =~= out0 + seq![p@]);
            } else {
                assert(views(out@) =~= out0 + Seq::<Seq<char>>::empty());
            }
            match self.find_child(&x.name) {
                Some(k) => {
                    let ghost xm = x@;
                    self.children.remove(k);
                    self.children.insert(k, x);
                    proof {
                        lemma_model(*self);
                        assert(self@.children =~= old_m.children.update(k as int, xm));
                        lemma_wf_update(old_m, k as int, xm);
                    }
                },
                None => {
                    let ghost xm = x@;
                    self.children.push(x);
                    proof {
                        lemma_model(*self);
                        assert(self@.children =~= old_m.children.push(xm));
                        lemma_wf_push(old_m, xm);
                    }
                },
            }
        } else {
            assert(rest.drop_first().last() == rest.last());
            match self.find_child(&segs[i]) {
                Some(k) => {
                    let mut c = self.children.remove(k);
                    proof {
                        assert(segs_valid(views(segs@).skip(i + 1))) by {
                            assert forall|q: int| 0 <= q < views(segs@).skip(i + 1).len() implies valid_name(
                                #[trigger] views(segs@).skip(i + 1)[q],
                            ) by {
                                assert(views(segs@).skip(i + 1)[q] == rest[q + 1]);
                            }
                        }
                    }
                    c.graft_rec(segs, i + 1, x, &p, create, out);
                    self.children.insert(k, c);
                    proof {
                        lemma_model(*self);
                        assert(self@.children =~= old_m.children.update(k as int, c@));
                        lemma_wf_update(old_m, k as int, c@);
                    }
                },
                None => {
                    let mut c = Entry {
                        name: segs[i].as_str().to_owned(),
                        status: EntryStatus::UpToDate,
                        type_: EntryType::Directory,
                        children: Vec::new(),
                    };
                    proof {
                        lemma_model(c);
                        assert(c@.children =~= Seq::<EntryModel>::empty());
                        assert(c@ == placeholder(rest[0]));
                        assert(tree_wf(c@));
                        assert(segs_valid(views(segs@).skip(i + 1))) by {
                            assert forall|q: int| 0 <= q < views(segs@).skip(i + 1).len() implies valid_name(
                                #[trigger] views(segs@).skip(i + 1)[q],
                            ) by {
                                assert(views(segs@).skip(i + 1)[q] == rest[q + 1]);
                            }
                        }
                    }
                    out.push(p.as_str().to_owned());
                    let ghost out1 = views(out@);
                    assert(out1 =~= out0 + seq![p@]);
                    c.graft_rec(segs, i + 1, x, &p, create, out);
                    let ghost cm = c@;
                    self.children.push(c);
                    proof {
                        lemma_model(*self);
                        assert(self@.children =~= old_m.children.push(cm));
                        lemma_wf_push(old_m, cm);
                        assert(views(out@) =~= out0 + grafted_paths(old_m, rest, prefix@, create));
                    }
                },
            }
        }
    }


    /// Grafts `entry` at `path`. In create mode the path must not resolve
    /// yet (unless `overwrite`) and must end with the entry's name; in move
    /// mode an existing directory at `path` receives the entry inside it,
    /// whatever its name, and otherwise the entry takes the path's last
    /// segment as its name.
    /// Missing directories on the way are made; their paths (and in create
    /// mode the entry's own path) come back, top down.
    pub fn append(&mut self, path: &str, entry: Entry, mode: AppendMode, overwrite: bool) -> (r: Result<
        Vec<String>,
        NcsError,
    >)
        requires
            tree_wf(old(self)@),
            tree_wf(entry@),
        ensures
            tree_wf(final(self)@),
            match append_outcome(old(self)@, path@, entry@, mode, overwrite) {
                AppendOutcome::NotRoot => r matches Ok(v) && v@.len() == 0 && final(self)@ == old(self)@,
                AppendOutcome::AlreadyExists => r matches Err(NcsError::AlreadyExistsError(_)) && final(self)@
                    == old(self)@,
                AppendOutcome::Invalid => r matches Err(NcsError::InvalidPathError(_)) && final(self)@ == old(
                    self,
                )@,
                AppendOutcome::Grafted { segs, entry: y } => r matches Ok(v) && final(self)@ == graft(
                    old(self)@,
                    segs,
                    y,
                ) && views(v@) == grafted_paths(old(self)@, segs, Seq::empty(), mode == AppendMode::Create),
            },
    {
        if !self.is_root() {
            return Ok(Vec::new());
        }
        let target_is_dir: Option<bool> = match self.get(path) {
            Some(t) => Some(t.is_dir()),
            None => None,
        };
        if !overwrite && target_is_dir.is_some() {
            return Err(NcsError::AlreadyExistsError(path.to_owned()));
        }
        let mut segs = match path_split(path) {
            Some(v) => v,
            None => {
                return Err(NcsError::InvalidPathError(path.to_owned()));
            },
        };
        let ghost full = views(segs@);
        let ghost ps = full.drop_first();
        let n = segs.len();
        let last = segs[n - 1].as_str().to_owned();
        assert(last@ == split_slash(without_last_slash(path@)).last());
        let mut x = entry;
        proof {
            lemma_model(x);
        }
        let ghost xm = x@;
        if mode == AppendMode::Move && target_is_dir == Some(true) {
            segs.push(x.name.as_str().to_owned());
            assert(views(segs@).skip(1) =~= ps.push(xm.name));
        } else if !(last == x.name) {
            match mode {
                AppendMode::Create => {
                    return Err(NcsError::InvalidPathError(path.to_owned()));
                },
                AppendMode::Move => {
                    x.name = last;
                    proof {
                        lemma_model(x);
                        assert(x@.children =~= xm.children);
                        assert(x@ == (EntryModel { name: split_slash(without_last_slash(path@)).last(), ..xm }));
                    }
                    assert(views(segs@).skip(1) =~= ps);
                },
            }
        } else {
            assert(views(segs@).skip(1) =~= ps);
        }
        proof {
            lemma_model(x);
        }
        let ghost gsegs = views(segs@).skip(1);
        if segs.len() < 2 || !self.is_dir() {
            return Err(NcsError::InvalidPathError(path.to_owned()));
        }
        if !all_valid_names(&segs, 1) {
            return Err(NcsError::InvalidPathError(path.to_owned()));
        }
        if !self.open_path_rec(&segs, 1) {
            return Err(NcsError::InvalidPathError(path.to_owned()));
        }
        assert(x@.name == views(segs@).last());
        let mut out: Vec<String> = Vec::new();
        let prefix = String::new();
        self.graft_rec(&segs, 1, x, &prefix, mode == AppendMode::Create, &mut out);
        assert(views(out@) =~= grafted_paths(old(self)@, gsegs, Seq::empty(), mode == AppendMode::Create));
        Ok(out)
    }


    /// Attaches `child` under its raw name, replacing a child of that name.
    pub fn append_child(&mut self, child: Entry) -> (r: Result<(), NcsError>)
        requires
            tree_wf(old(self)@),
            tree_wf(child@),
        ensures
            tree_wf(final(self)@),
            r is Ok <==> old(self)@.type_ is Directory && valid_name(child@.name),
            r is Ok ==> final(self)@ == graft(old(self)@, seq![child@.name], child@),
            r is Err ==> final(self)@ == old(self)@,
    {
        proof {
            lemma_model(*self);
            lemma_model(child);
            lemma_wf_children(self@);
        }
        if self.type_.is_file() || !is_valid_name(&child.name) {
            return Err(NcsError::InvalidPathError(child.name.as_str().to_owned()));
        }
        let ghost old_m = self@;
        let ghost cm = child@;
        match self.find_child(&child.name) {
            Some(k) => {
                self.children.remove(k);
                self.children.insert(k, child);
                proof {
                    lemma_model(*self);
                    assert(self@.children =~= old_m.children.update(k as int, cm));
                    lemma_wf_update(old_m, k as int, cm);
                }
            },
            None => {
                self.children.push(child);
                proof {
                    lemma_model(*self);
                    assert(self@.children =~= old_m.children.push(cm));
                    lemma_wf_push(old_m, cm);
                }
            },
        }
        Ok(())
    }

    /// The child named by the part of `child_name` after its last `/` or `\`.
    pub fn get_child(&self, child_name: &str) -> (r: Option<&Entry>)
        requires
            tree_wf(self@),
        ensures
            ({
                let i = child_pos(self@.children, last_part(child_name@));
                &&& r matches Some(c) ==> i >= 0 && c@ == self@.children[i]
                &&& r is None ==> i < 0
            }),
    {
        proof {
            lemma_model(*self);
            lemma_wf_children(self@);
        }
        let name = last_part_of(child_name);
        match self.find_child(&name) {
            Some(k) => Some(&self.children[k]),
            None => None,
        }
    }

    /// The raw names of the children, in order.
    pub fn get_all_children(&self) -> (r: Vec<String>)
        ensures
            r@.len() == self@.children.len(),
            forall|i: int| 0 <= i < r@.len() ==> (#[trigger] r@[i])@ == self@.children[i].name,
    {
        proof {
            lemma_model(*self);
        }
        let mut out: Vec<String> = Vec::new();
        let mut i: usize = 0;
        while i < self.children.len()
            invariant
                i <= self.children@.len(),
                self.children@.len() == self@.children.len(),
                forall|j: int| 0 <= j < self@.children.len() ==> #[trigger] self@.children[j] == self.children@[j]@,
                out@.len() == i,
                forall|j: int| 0 <= j < i ==> (#[trigger] out@[j])@ == self@.children[j].name,
            decreases self.children@.len() - i,
        {
            proof {
                lemma_model(self.children@[i as int]);
            }
            out.push(self.children[i].name.as_str().to_owned());
            i = i + 1;
        }
        out
    }


    /// Whether a child has exactly the name `name`.
    pub fn has_child(&self, name: &String) -> (r: bool)
        requires
            tree_wf(self@),
        ensures
            r == (child_pos(self@.children, name@) >= 0),
    {
        proof {
            lemma_wf_children(self@);
        }
        self.find_child(name).is_some()
    }


    fn update_rec(&mut self, segs: &Vec<String>, i: usize, st: EntryStatus, ty: Option<EntryType>) -> (r: bool)
        requires
            tree_wf(old(self)@),
            i <= segs@.len(),
        ensures
            tree_wf(final(self)@),
            r == lookup(old(self)@, views(segs@).skip(i as int)) is Some,
            final(self)@ == update_at(old(self)@, views(segs@).skip(i as int), st, opt_type_view(ty)),
        decreases segs@.len() - i,
    {
        proof {
            lemma_model(*self);
            lemma_wf_children(self@);
        }
        let ghost old_m = self@;
        let ghost rest = views(segs@).skip(i as int);
        if i == segs.len() {
            assert(rest =~= Seq::<Seq<char>>::empty());
            self.status = st;
            match ty {
                Some(t) => {
                    if t.is_file() {
                        self.children = Vec::new();
                    }
                    self.type_ = t;
                },
                None => {},
            }
            proof {
                lemma_model(*self);
                assert(self@.children =~= restate(old_m, st, opt_type_view(ty)).children);
            }
            return true;
        }
        if self.type_.is_file() {
            return false;
        }
        assert(rest[0] == segs@[i as int]@);
        assert(rest.drop_first() =~= views(segs@).skip(i + 1));
        match self.find_child(&segs[i]) {
            None => false,
            Some(k) => {
                let mut c = self.children.remove(k);
                let r = c.update_rec(segs, i + 1, st, ty);
                self.children.insert(k, c);
                proof {
                    lemma_model(*self);
                    if r {
                        assert(self@.children =~= old_m.children.update(k as int, c@));
                        lemma_wf_update(old_m, k as int, c@);
                    } else {
                        assert(self@.children =~= old_m.children.update(k as int, c@));
                        lemma_wf_update(old_m, k as int, c@);
                    }
                }
                r
            },
        }
    }

    /// Gives the entry at `path` a new status and, when `type_` is given, a
    /// new variant (a file drops its children). Whether `path` resolved.
    pub fn update_entry(&mut self, path: &str, status: EntryStatus, type_: Option<EntryType>) -> (r: bool)
        requires
            tree_wf(old(self)@),
        ensures
            tree_wf(final(self)@),
            r == tree_get(old(self)@, path@) is Some,
            r ==> final(self)@ == update_at(old(self)@, path_segments(path@)->0, status, opt_type_view(type_)),
            !r ==> final(self)@ == old(self)@,
    {
        if !self.is_root() {
            return false;
        }
        match path_split(path) {
            None => false,
            Some(v) => {
                assert(views(v@).skip(1) =~= views(v@).drop_first());
                let ghost m = self@;
                let r = self.update_rec(&v, 1, status, type_);
                proof {
                    if !r {
                        lemma_update_missing(m, views(v@).drop_first(), status, opt_type_view(type_));
                    }
                }
                r
            },
        }
    }


    /// The segments of `path` as a stack: the last segment first, the empty
    /// segment that stands for the root at the end.
    pub fn prepare_path_vec(path: &str) -> (r: Vec<String>)
        ensures
            views(r@) == crate::paths::path_stack(path@),
    {
        crate::paths::prepare_path_vec(path)
    }


    /// The canonical path through the names `names` below the root.
    pub fn get_path(names: &Vec<String>) -> (r: String)
        ensures
            r@ == crate::tree_laws::join_path(views(names@)),
    {
        let mut r = String::new();
        let mut i: usize = 0;
        while i < names.len()
            invariant
                i <= names@.len(),
                r@ == crate::tree_laws::join_path(views(names@).take(i as int)),
            decreases names@.len() - i,
        {
            proof {
                let t = views(names@).take(i + 1);
                assert(t.drop_last() =~= views(names@).take(i as int));
                assert(t.last() == names@[i as int]@);
            }
            r.append(slash_text());
            r.append(names[i].as_str());
            i = i + 1;
        }
        assert(views(names@).take(names@.len() as int) =~= views(names@));
        r
    }

    /// The directory that holds the entry at `path`; none for the root or
    /// a path that does not resolve.
    pub fn get_parent(&self, path: &str) -> (r: Option<&Entry>)
        requires
            tree_wf(self@),
        ensures
            r is Some ==> tree_pop(self@, path@) is Some,
            r matches Some(p) ==> Some(p@) == lookup(self@, path_segments(path@)->0.drop_last()),
            tree_pop(self@, path@) is Some ==> r is Some,
    {
        if !self.is_root() {
            return None;
        }
        let mut v = match path_split(path) {
            Some(v) => v,
            None => {
                return None;
            },
        };
        if v.len() < 2 {
            return None;
        }
        assert(views(v@).skip(1) =~= views(v@).drop_first());
        if self.lookup_rec(&v, 1).is_none() {
            return None;
        }
        let ghost full = views(v@);
        v.pop();
        assert(views(v@).skip(1) =~= full.drop_first().drop_last());
        proof {
            crate::tree_laws::law_child_sits_under_parent(self@, full.drop_first());
        }
        self.lookup_rec(&v, 1)
    }

    fn tree_rec(&self, tree: &mut String, indent: &String)
        ensures
            final(tree)@ == old(tree)@ + render(self@, indent@),
        decreases self@,
    {
        proof {
            lemma_model(*self);
        }
        let ghost t0 = old(tree)@;
        let mark = match self.status {
            EntryStatus::UpToDate => "",
            EntryStatus::NeedUpdate => "*",
            EntryStatus::Error => "!",
        };
        proof {
            reveal_strlit("");
            reveal_strlit("*");
            reveal_strlit("!");
        }
        tree.append(mark);
        tree.append(self.name.as_str());
        match &self.type_ {
            EntryType::File { etag } => {
                tree.append(" etag: ");
                let d = etag_debug(etag);
                tree.append(d.as_str());
            },
            EntryType::Directory => {
                tree.append(slash_text());
            },
        }
        tree.append(newline_text());
        let ghost head = tree@;
        assert(head == t0 + entry_line(self@) + seq!['\n']);
        let ghost cs = self@.children;
        let n = self.children.len();
        assert(cs.subrange(0, 0) =~= Seq::<EntryModel>::empty());
        assert(tree@ =~= head + render_kids(cs.subrange(0, 0), n as int, indent@));
        let mut i: usize = 0;
        while i < n
            invariant
                n == cs.len(),
                n == self.children@.len(),
                cs == self@.children,
                forall|j: int| 0 <= j < cs.len() ==> #[trigger] cs[j] == self.children@[j]@,
                i <= n,
                tree@ == head + render_kids(cs.subrange(0, i as int), n as int, indent@),
            decreases n - i,
        {
            let more = i < n - 1;
            let mut sub = indent.as_str().to_owned();
            if more {
                tree.append(indent.as_str());
                tree.append("├── ");
                sub.append("|");
            } else {
                tree.append(indent.as_str());
                tree.append("└── ");
                sub.append(" ");
            }
            sub.append("   ");
            proof {
                vstd::seq::axiom_seq_index_decreases(cs, i as int);
            }
            let c = &self.children[i];
            let ghost before = tree@;
            c.tree_rec(tree, &sub);
            proof {
                let t = cs.subrange(0, i + 1);
                assert(t.subrange(0, t.len() - 1) =~= cs.subrange(0, i as int));
                assert(t[t.len() - 1] == c@);
                assert(tree@ =~= head + render_kids(t, n as int, indent@));
            }
            i = i + 1;
        }
        proof {
            assert(cs.subrange(0, n as int) =~= cs);
        }
    }

    /// An indented rendering of the tree, one entry per line.
    pub fn get_tree(&self) -> (r: String)
        ensures
            r@ == render(self@, Seq::empty()),
    {
        let mut res = String::new();
        let indent = String::new();
        self.tree_rec(&mut res, &indent);
        res
    }

    /// Where the child named `name` stands, if there is one.
    fn find_child(&self, name: &String) -> (r: Option<usize>)
        requires
            names_unique(self@.children),
        ensures
            r matches Some(k) ==> k < self@.children.len() && self@.children[k as int].name == name@
                && child_pos(self@.children, name@) == k,
            r is None ==> child_pos(self@.children, name@) == -1,
    {
        proof {
            lemma_model(*self);
        }
        let n = self.children.len();
        let mut i: usize = 0;
        while i < n
            invariant
                n == self.children@.len(),
                n == self@.children.len(),
                i <= n,
                names_unique(self@.children),
                forall|j: int| 0 <= j < self@.children.len() ==> #[trigger] self@.children[j] == self.children@[j]@,
                forall|j: int| 0 <= j < i ==> self@.children[j].name != name@,
            decreases n - i,
        {
            if self.children[i].name == *name {
                proof {
                    lemma_model(self.children@[i as int]);
                    lemma_child_pos_unique(self@.children, i as int);
                }
                return Some(i);
            }
            proof {
                lemma_model(self.children@[i as int]);
            }
            i = i + 1;
        }
        proof {
            lemma_child_pos_absent(self@.children, name@);
        }
        None
    }
}


/// The segments of `path` split at `/` after a last slash is dropped, when
/// the first one is empty (the path starts at the root).
fn path_split(path: &str) -> (r: Option<Vec<String>>)
    ensures
        r matches Some(v) ==> v@.len() >= 1 && path_segments(path@) == Some(views(v@).drop_first())
            && views(v@) == split_slash(without_last_slash(path@)),
        r is None ==> path_segments(path@) is None,
{
    let p = drop_slash(path, SlashSide::Last);
    let v = split_slash_vec(p.as_str());
    proof {
        lemma_split_slash_nonempty(p@);
    }
    assert(views(v@)[0] == v@[0]@);
    if v[0].unicode_len() == 0 {
        assert(v@[0]@ =~= Seq::<char>::empty());
        Some(v)
    } else {
        None
    }
}

fn is_valid_name(s: &String) -> (r: bool)
    ensures
        r == valid_name(s@),
{
    let n = s.unicode_len();
    if n == 0 {
        return false;
    }
    let mut i: usize = 0;
    while i < n
        invariant
            n == s@.len(),
            i <= n,
            forall|j: int| 0 <= j < i ==> s@[j] != '/',
        decreases n - i,
    {
        if s.as_str().get_char(i) == '/' {
            assert(s@.contains('/'));
            return false;
        }
        i = i + 1;
    }
    true
}

fn all_valid_names(segs: &Vec<String>, from: usize) -> (r: bool)
    requires
        from <= segs@.len(),
    ensures
        r == segs_valid(views(segs@).skip(from as int)),
{
    let mut i = from;
    while i < segs.len()
        invariant
            from <= i <= segs@.len(),
            forall|q: int| 0 <= q < i - from ==> valid_name(#[trigger] views(segs@).skip(from as int)[q]),
        decreases segs@.len() - i,
    {
        if !is_valid_name(&segs[i]) {
            assert(views(segs@).skip(from as int)[i - from] == segs@[i as int]@);
            return false;
        }
        assert(views(segs@).skip(from as int)[i - from] == segs@[i as int]@);
        i = i + 1;
    }
    true
}


/// The part of `s` after its last `/` or `\`.
pub open spec fn last_part(s: Seq<char>) -> Seq<char>
    decreases s.len(),
{
    if s.len() == 0 {
        s
    } else if s.last() == '/' || s.last() == '\\' {
        Seq::empty()
    } else {
        last_part(s.drop_last()).push(s.last())
    }
}

fn last_part_of(s: &str) -> (r: String)
    ensures
        r@ == last_part(s@),
{
    let n = s.unicode_len();
    let mut start: usize = 0;
    let mut i: usize = 0;
    while i < n
        invariant
            n == s@.len(),
            start <= i <= n,
            last_part(s@.subrange(0, i as int)) == s@.subrange(start as int, i as int),
        decreases n - i,
    {
        let c = s.get_char(i);
        let ghost t = s@.subrange(0, i + 1);
        assert(t.drop_last() =~= s@.subrange(0, i as int));
        assert(t.last() == c);
        if c == '/' || c == '\\' {
            start = i + 1;
            assert(s@.subrange(start as int, i + 1) =~= Seq::<char>::empty());
        } else {
            assert(s@.subrange(start as int, i + 1) =~= s@.subrange(start as int, i as int).push(c));
        }
        i = i + 1;
    }
    assert(s@.subrange(0, n as int) =~= s@);
    s.substring_char(start, n).to_owned()
}

fn newline_text() -> (r: &'static str)
    ensures
        r@ == seq!['\n'],
{
    let r = "\n";
    proof {
        reveal_strlit("\n");
    }
    r
}

fn slash_text() -> (r: &'static str)
    ensures
        r@ == seq!['/'],
{
    let r = "/";
    proof {
        reveal_strlit("/");
    }
    r
}

} // verus!
