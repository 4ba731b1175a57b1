//! The persisted form of the tree: a recursive record in which directory
//! names keep a last slash, and every entry read back is up to date.
use vstd::prelude::*;
use crate::entry::{
    child_pos, is_root_model, lemma_wf_children, tree_wf, valid_name, Entry, EntryModel,
    EntryStatus, EntryType, TypeModel,
};
use crate::errors::NcsError;
use crate::paths::without_last_slash;

verus! {

broadcast use vstd::std_specs::vec::group_vec_axioms;

#[derive(Debug)]
pub enum JsonEntry {
    Dir { name: String, children: Vec<JsonEntry> },
    File { name: String, etag: String },
}

pub ghost enum JsonModel {
    Dir { name: Seq<char>, children: Seq<JsonModel> },
    File { name: Seq<char>, etag: Seq<char> },
}

pub open spec fn json_model(j: JsonEntry) -> JsonModel
    decreases j,
{
    match j {
        JsonEntry::Dir { name, children } => JsonModel::Dir {
            name: name@,
            children: Seq::new(
                children@.len(),
                |i: int|
                    if 0 <= i < children@.len() {
                        json_model(children@[i])
                    } else {
                        JsonModel::File { name: Seq::empty(), etag: Seq::empty() }
                    },
            ),
        },
        JsonEntry::File { name, etag } => JsonModel::File { name: name@, etag: etag@ },
    }
}

impl View for JsonEntry {
    type V = JsonModel;

    open spec fn view(&self) -> JsonModel {
        json_model(*self)
    }
}

/// The saved cache: the activity cursor and the tree.
#[derive(Debug)]
pub struct NCSCache {
    pub latest_activity_id: String,
    pub root_entry: JsonEntry,
}

pub open spec fn etag_text(t: TypeModel) -> Seq<char> {
    match t {
        TypeModel::File { etag: Some(e) } => e,
        _ => Seq::empty(),
    }
}

/// The record of an entry: a file with its etag (empty when it has none),
/// a directory with its name and a last slash, and its children in order.
pub open spec fn entry_to_json(e: EntryModel) -> JsonModel
    decreases e,
{
    if e.type_ is File {
        JsonModel::File { name: e.name, etag: etag_text(e.type_) }
    } else {
        JsonModel::Dir {
            name: e.name.push('/'),
            children: Seq::new(
                e.children.len(),
                |i: int|
                    if 0 <= i < e.children.len() {
                        entry_to_json(e.children[i])
                    } else {
                        JsonModel::File { name: Seq::empty(), etag: Seq::empty() }
                    },
            ),
        }
    }
}

pub open spec fn json_name(j: JsonModel) -> Seq<char> {
    match j {
        JsonModel::Dir { name, .. } => without_last_slash(name),
        JsonModel::File { name, .. } => without_last_slash(name),
    }
}

/// A record that can be read back: below the top, names are valid and
/// distinct among siblings once a last slash is dropped.
pub open spec fn json_ok(j: JsonModel) -> bool
    decreases j,
{
    match j {
        JsonModel::Dir { children, .. } => {
            &&& forall|i: int, k: int|
                0 <= i < children.len() && 0 <= k < children.len() && i != k ==> json_name(#[trigger] children[i])
                    != json_name(#[trigger] children[k])
            &&& forall|i: int|
                #![trigger children[i]]
                0 <= i < children.len() ==> valid_name(json_name(children[i])) && json_ok(children[i])
        },
        JsonModel::File { .. } => true,
    }
}

/// The entry read back from a record: up to date, a file with its etag.
pub open spec fn json_to_entry(j: JsonModel) -> EntryModel
    decreases j,
{
    match j {
        JsonModel::Dir { name, children } => EntryModel {
            name: without_last_slash(name),
            status: EntryStatus::UpToDate,
            type_: TypeModel::Directory,
            children: Seq::new(
                children.len(),
                |i: int|
                    if 0 <= i < children.len() {
                        json_to_entry(children[i])
                    } else {
                        crate::entry::placeholder(Seq::empty())
                    },
            ),
        },
        JsonModel::File { name, etag } => EntryModel {
            name: without_last_slash(name),
            status: EntryStatus::UpToDate,
            type_: TypeModel::File { etag: Some(etag) },
            children: Seq::empty(),
        },
    }
}

fn entry2json_entry_rec(e: &Entry) -> (r: JsonEntry)
    ensures
        r@ == entry_to_json(e@),
    decreases e@,
{
    if e.is_file() {
        JsonEntry::File { name: e.get_name(), etag: e.entry_type().get_etag() }
    } else {
        let n = e.children_len();
        let mut children: Vec<JsonEntry> = Vec::new();
        let mut i: usize = 0;
        while i < n
            invariant
                n == e@.children.len(),
                i <= n,
                e@.type_ is Directory,
                children@.len() == i,
                forall|k: int| 0 <= k < i ==> (#[trigger] children@[k])@ == entry_to_json(e@.children[k]),
            decreases n - i,
        {
            let c = e.child_at(i);
            let j = entry2json_entry_rec(c);
            children.push(j);
            i = i + 1;
        }
        let r = JsonEntry::Dir { name: e.get_name(), children };
        proof {
            let m = json_model(r);
            assert(m matches JsonModel::Dir { children: cs, .. } && cs =~= (entry_to_json(e@)->Dir_children));
        }
        r
    }
}

/// The record of the tree under `root_entry`, which must be the root.
pub fn root2json_entry(root_entry: &Entry) -> (r: Result<JsonEntry, NcsError>)
    ensures
        is_root_model(root_entry@) ==> (r matches Ok(j) && j@ == entry_to_json(root_entry@)),
        !is_root_model(root_entry@) ==> r is Err,
{
    if !root_entry.is_root() {
        return Err(NcsError::InvalidPathError(root_entry.get_raw_name()));
    }
    Ok(entry2json_entry_rec(root_entry))
}

fn json_entry2entry_rec(j: &JsonEntry) -> (r: Result<Entry, NcsError>)
    ensures
        r is Ok <==> json_ok(j@),
        r matches Ok(e) ==> e@ == json_to_entry(j@) && tree_wf(e@),
    decreases j@,
{
    match j {
        JsonEntry::Dir { name, children } => {
            let mut e = Entry::new(name.as_str().to_owned(), EntryType::Directory);
            e.set_status(EntryStatus::UpToDate);
            let ghost jm = j@;
            let ghost cs = jm->Dir_children;
            let n = children.len();
            assert(jm == JsonModel::Dir { name: name@, children: cs });
            assert(cs.len() == n);
            let mut i: usize = 0;
            while i < n
                invariant
                    n == children@.len(),
                    cs.len() == n,
                    jm == j@,
                    cs == jm->Dir_children,
                    jm == (JsonModel::Dir { name: name@, children: cs }),
                    forall|k: int| 0 <= k < n ==> #[trigger] cs[k] == children@[k]@,
                    i <= n,
                    tree_wf(e@),
                    e@.name == without_last_slash(name@),
                    e@.status == EntryStatus::UpToDate,
                    e@.type_ == TypeModel::Directory,
                    e@.children.len() == i,
                    forall|k: int| 0 <= k < i ==> #[trigger] e@.children[k] == json_to_entry(cs[k]),
                    forall|k: int| 0 <= k < i ==> valid_name(json_name(#[trigger] cs[k])) && json_ok(cs[k]),
                    forall|a: int, b: int|
                        0 <= a < i && 0 <= b < i && a != b ==> json_name(#[trigger] cs[a]) != json_name(#[trigger] cs[b]),
                decreases n - i,
            {
                assert(cs[i as int] == children@[i as int]@);
                proof {
                    vstd::seq::axiom_seq_index_decreases(cs, i as int);
                }
                let c = match json_entry2entry_rec(&children[i]) {
                    Ok(c) => c,
                    Err(err) => {
                        proof {
                            assert(!json_ok(jm)) by {
                                if json_ok(jm) {
                                    assert(json_ok(cs[i as int]));
                                }
                            }
                        }
                        return Err(err);
                    },
                };
                proof {
                    assert(json_name(cs[i as int]) == c@.name);
                }
                let cname = c.get_raw_name();
                if e.has_child(&cname) {
                    proof {
                        let k = child_pos(e@.children, cname@);
                        crate::entry::lemma_child_pos_range(e@.children, cname@);
                        assert(e@.children[k] == json_to_entry(cs[k]));
                        assert(json_name(cs[k]) == json_name(cs[i as int]));
                        assert(!json_ok(jm)) by {
                            if json_ok(jm) {
                                assert(json_name(cs[k]) != json_name(cs[i as int]));
                            }
                        }
                    }
                    return Err(NcsError::InvalidPathError(cname));
                }
                let ghost em = e@;
                let ghost cm = c@;
                match e.append_child(c) {
                    Ok(()) => {},
                    Err(err) => {
                        proof {
                            assert(!valid_name(json_name(cs[i as int])));
                            assert(!json_ok(jm)) by {
                                if json_ok(jm) {
                                    assert(valid_name(json_name(cs[i as int])));
                                }
                            }
                        }
                        return Err(err);
                    },
                }
                proof {
                    assert(child_pos(em.children, cm.name) == -1);
                    assert(e@.children == em.children.push(cm));
                    assert forall|k: int| 0 <= k < i implies json_name(#[trigger] cs[k]) != json_name(cs[i as int]) by {
                        assert(em.children[k] == json_to_entry(cs[k]));
                        if json_name(cs[k]) == json_name(cs[i as int]) {
                            assert(em.children[k].name == cm.name);
                        }
                    }
                }
                i = i + 1;
            }
            proof {
                assert(e@.children =~= json_to_entry(jm).children);
                assert(json_ok(jm));
            }
            Ok(e)
        },
        JsonEntry::File { name, etag } => {
            let mut e = Entry::new(
                name.as_str().to_owned(),
                EntryType::File { etag: Some(etag.as_str().to_owned()) },
            );
            e.set_status(EntryStatus::UpToDate);
            Ok(e)
        },
    }
}

/// The entry read back from a record: every entry up to date. Fails when
/// a name below the top is invalid or repeated among its siblings.
pub fn json_entry2entry(json_entry: JsonEntry) -> (r: Result<Entry, NcsError>)
    ensures
        r is Ok <==> json_ok(json_entry@),
        r matches Ok(e) ==> e@ == json_to_entry(json_entry@) && tree_wf(e@),
{
    json_entry2entry_rec(&json_entry)
}

/// `e` as it reads back from its record: every status up to date, and
/// every file with its etag, the empty one when it had none.
pub open spec fn restored(e: EntryModel) -> EntryModel
    decreases e,
{
    EntryModel {
        status: EntryStatus::UpToDate,
        type_: if e.type_ is File {
            TypeModel::File { etag: Some(etag_text(e.type_)) }
        } else {
            TypeModel::Directory
        },
        children: Seq::new(
            e.children.len(),
            |i: int|
                if 0 <= i < e.children.len() {
                    restored(e.children[i])
                } else {
                    crate::entry::placeholder(Seq::empty())
                },
        ),
        ..e
    }
}

/// Saving a tree and reading it back gives the same tree, every entry up
/// to date; a file without an etag comes back with the empty etag.
pub proof fn law_cache_round_trip(t: EntryModel)
    requires
        tree_wf(t),
        !crate::paths::has_last_slash(t.name),
    ensures
        json_ok(entry_to_json(t)),
        json_to_entry(entry_to_json(t)) == restored(t),
        json_name(entry_to_json(t)) == t.name,
    decreases t,
{
    lemma_wf_children(t);
    let j = entry_to_json(t);
    if t.type_ is File {
        assert(t.children =~= Seq::<EntryModel>::empty());
        assert(restored(t).children =~= Seq::<EntryModel>::empty());
    } else {
        assert(t.name.push('/').drop_last() =~= t.name);
        let cs = j->Dir_children;
        assert forall|i: int| 0 <= i < t.children.len() implies json_ok(#[trigger] cs[i]) && json_to_entry(cs[i])
            == restored(t.children[i]) && json_name(cs[i]) == t.children[i].name by {
            let c = t.children[i];
            assert(valid_name(c.name));
            if crate::paths::has_last_slash(c.name) {
                assert(c.name.contains('/')) by {
                    assert(c.name[c.name.len() - 1] == '/');
                }
            }
            vstd::seq::axiom_seq_index_decreases(t.children, i);
            law_cache_round_trip(c);
        }
        assert forall|i: int, k: int|
            0 <= i < cs.len() && 0 <= k < cs.len() && i != k implies json_name(#[trigger] cs[i]) != json_name(
            #[trigger] cs[k],
        ) by {
            assert(t.children[i].name != t.children[k].name);
        }
        assert(json_to_entry(j).children =~= restored(t).children);
    }
}

} // verus!
