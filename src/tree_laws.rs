//! Laws of the entry tree, proved over its model.
use vstd::prelude::*;
use crate::entry::{
    append_outcome, append_plan, child_pos, graft, is_root_model, lemma_child_pos_range,
    lemma_child_pos_unique, lemma_wf_children, lookup, names_unique, path_segments, remove_at,
    segs_valid, tree_after_pop, tree_get, tree_pop, tree_wf, valid_name, AppendMode, EntryModel,
};
use crate::paths::{split_slash, without_last_slash};

verus! {

/// The canonical path through the names `segs` below the root.
pub open spec fn join_path(segs: Seq<Seq<char>>) -> Seq<char>
    decreases segs.len(),
{
    if segs.len() == 0 {
        Seq::empty()
    } else {
        join_path(segs.drop_last()) + seq!['/'] + segs.last()
    }
}

#[verifier::spinoff_prover]
pub proof fn lemma_split_after_slash(s: Seq<char>, t: Seq<char>)
    requires
        !t.contains('/'),
    ensures
        split_slash(s + seq!['/'] + t) == split_slash(s).push(t),
    decreases t.len(),
{
    if t.len() == 0 {
        assert(t =~= Seq::<char>::empty());
        assert(s + seq!['/'] + t =~= s.push('/'));
        assert((s.push('/')).drop_last() =~= s);
    } else {
        let t0 = t.drop_last();
        let c = t.last();
        assert(!t0.contains('/')) by {
            if t0.contains('/') {
                let q = choose|q: int| 0 <= q < t0.len() && t0[q] == '/';
                assert(t[q] == '/');
            }
        }
        assert(c != '/') by {
            assert(t[t.len() - 1] == c);
        }
        lemma_split_after_slash(s, t0);
        let w = s + seq!['/'] + t;
        assert(w.drop_last() =~= s + seq!['/'] + t0);
        assert(w.last() == c);
        assert(t0.push(c) =~= t);
        assert(split_slash(w) =~= split_slash(s).push(t));
    }
}

pub proof fn lemma_split_join(segs: Seq<Seq<char>>)
    requires
        segs_valid(segs),
    ensures
        split_slash(join_path(segs)) == seq![Seq::<char>::empty()] + segs,
    decreases segs.len(),
{
    if segs.len() == 0 {
        assert(seq![Seq::<char>::empty()] + segs =~= seq![Seq::<char>::empty()]);
    } else {
        let s0 = segs.drop_last();
        assert(segs_valid(s0)) by {
            assert forall|k: int| 0 <= k < s0.len() implies valid_name(#[trigger] s0[k]) by {
                assert(valid_name(segs[k]));
            }
        }
        lemma_split_join(s0);
        assert(valid_name(segs[segs.len() - 1]));
        lemma_split_after_slash(join_path(s0), segs.last());
        assert(seq![Seq::<char>::empty()] + segs =~= (seq![Seq::<char>::empty()] + s0).push(segs.last()));
    }
}

pub proof fn lemma_join_no_last_slash(segs: Seq<Seq<char>>)
    requires
        segs.len() > 0,
        segs_valid(segs),
    ensures
        without_last_slash(join_path(segs)) == join_path(segs),
{
    let x = segs.last();
    assert(valid_name(segs[segs.len() - 1]));
    let j = join_path(segs);
    assert(j.last() == x.last());
    assert(x[x.len() - 1] == x.last());
}

/// The names on the way to an entry of a well-formed tree are valid names.
#[verifier::spinoff_prover]
pub proof fn lemma_lookup_segs_valid(e: EntryModel, segs: Seq<Seq<char>>)
    requires
        tree_wf(e),
        lookup(e, segs) is Some,
    ensures
        segs_valid(segs),
    decreases segs.len(),
{
    if segs.len() > 0 {
        let i = child_pos(e.children, segs[0]);
        lemma_child_pos_range(e.children, segs[0]);
        lemma_wf_children(e);
        lemma_lookup_segs_valid(e.children[i], segs.drop_first());
        assert forall|k: int| 0 <= k < segs.len() implies valid_name(#[trigger] segs[k]) by {
            if k > 0 {
                assert(segs[k] == segs.drop_first()[k - 1]);
            }
        }
    }
}

/// Every entry below the root is found again by `get` at its path.
#[verifier::spinoff_prover]
pub proof fn law_get_finds_entry_at_its_path(t: EntryModel, segs: Seq<Seq<char>>)
    requires
        tree_wf(t),
        is_root_model(t),
        segs.len() > 0,
        lookup(t, segs) is Some,
    ensures
        tree_get(t, join_path(segs)) == lookup(t, segs),
{
    lemma_lookup_segs_valid(t, segs);
    lemma_split_join(segs);
    lemma_join_no_last_slash(segs);
    let s = split_slash(without_last_slash(join_path(segs)));
    assert(s[0] == Seq::<char>::empty());
    assert(s.drop_first() =~= segs);
}

/// The entry at a path hangs in its parent's children under its own name,
/// and the parent is the directory at the path one segment shorter.
#[verifier::spinoff_prover]
pub proof fn law_child_sits_under_parent(t: EntryModel, segs: Seq<Seq<char>>)
    requires
        tree_wf(t),
        segs.len() > 0,
        lookup(t, segs) is Some,
    ensures
        lookup(t, segs.drop_last()) matches Some(d) && d.type_ is Directory && {
            let i = child_pos(d.children, segs.last());
            &&& 0 <= i < d.children.len()
            &&& Some(d.children[i]) == lookup(t, segs)
            &&& d.children[i].name == segs.last()
        },
    decreases segs.len(),
{
    lemma_child_pos_range(t.children, segs[0]);
    let i = child_pos(t.children, segs[0]);
    if segs.len() == 1 {
        assert(segs.drop_last() =~= Seq::<Seq<char>>::empty());
        assert(segs.drop_first() =~= Seq::<Seq<char>>::empty());
        assert(segs.last() == segs[0]);
    } else {
        lemma_wf_children(t);
        law_child_sits_under_parent(t.children[i], segs.drop_first());
        assert(segs.drop_first().drop_last() =~= segs.drop_last().drop_first());
        assert(segs.drop_last()[0] == segs[0]);
        assert(segs.drop_first().last() == segs.last());
    }
}

proof fn lemma_child_pos_push(cs: Seq<EntryModel>, x: EntryModel)
    requires
        child_pos(cs, x.name) == -1,
    ensures
        child_pos(cs.push(x), x.name) == cs.len(),
        names_unique(cs) ==> names_unique(cs.push(x)),
{
    let n = cs.push(x);
    assert(n[cs.len() as int].name == x.name);
    assert forall|i: int| 0 <= i < cs.len() implies cs[i].name != x.name by {
        if cs[i].name == x.name {
            assert(exists|q: int| 0 <= q < cs.len() && cs[q].name == x.name);
        }
    }
    assert(forall|i: int| 0 <= i < cs.len() ==> n[i] == cs[i]);
}

proof fn lemma_child_pos_update(cs: Seq<EntryModel>, i: int, c: EntryModel)
    requires
        names_unique(cs),
        0 <= i < cs.len(),
        c.name == cs[i].name,
    ensures
        child_pos(cs.update(i, c), c.name) == i,
{
    let n = cs.update(i, c);
    assert(names_unique(n)) by {
        assert forall|a: int, b: int|
            0 <= a < n.len() && 0 <= b < n.len() && a != b implies #[trigger] n[a].name != #[trigger] n[b].name by {
            assert(cs[a].name != cs[b].name);
        }
    }
    lemma_child_pos_unique(n, i);
}

#[verifier::spinoff_prover]
proof fn lemma_graft_then_remove(t: EntryModel, segs: Seq<Seq<char>>, e: EntryModel)
    requires
        tree_wf(t),
        segs.len() > 0,
        e.name == segs.last(),
        lookup(t, segs.drop_last()) matches Some(d) && d.type_ is Directory,
        lookup(t, segs) is None,
    ensures
        lookup(graft(t, segs, e), segs) == Some(e),
        remove_at(graft(t, segs, e), segs) == t,
        graft(t, segs, e).name == t.name,
    decreases segs.len(),
{
    lemma_wf_children(t);
    if segs.len() == 1 {
        assert(segs.drop_last() =~= Seq::<Seq<char>>::empty());
        assert(segs.drop_first() =~= Seq::<Seq<char>>::empty());
        assert(segs.last() == segs[0]);
        lemma_child_pos_range(t.children, segs[0]);
        if child_pos(t.children, segs[0]) >= 0 {
            let i = child_pos(t.children, segs[0]);
            assert(lookup(t.children[i], segs.drop_first()) == Some(t.children[i]));
        }
        lemma_child_pos_push(t.children, e);
        assert(lookup(e, segs.drop_first()) == Some(e));
        let g = graft(t, segs, e);
        assert(g.children == t.children.push(e));
        assert(g.children.remove(t.children.len() as int) =~= t.children);
    } else {
        let i = child_pos(t.children, segs[0]);
        lemma_child_pos_range(t.children, segs[0]);
        assert(segs.drop_last()[0] == segs[0]);
        assert(segs.drop_first().drop_last() =~= segs.drop_last().drop_first());
        assert(segs.drop_first().last() == segs.last());
        let c = t.children[i];
        lemma_graft_then_remove(c, segs.drop_first(), e);
        let gc = graft(c, segs.drop_first(), e);
        lemma_child_pos_update(t.children, i, gc);
        let g = graft(t, segs, e);
        assert(g.children == t.children.update(i, gc));
        assert(g.children.update(i, remove_at(gc, segs.drop_first())) =~= t.children);
    }
}

/// Appending a new entry in create mode under an existing directory and
/// then popping its path gives the entry back and the tree as it was.
pub proof fn law_append_create_then_pop(t: EntryModel, path: Seq<char>, e: EntryModel)
    requires
        tree_wf(t),
        tree_wf(e),
        is_root_model(t),
        tree_get(t, path) is None,
        append_plan(t, path, e, AppendMode::Create) is Some,
        lookup(t, path_segments(path)->0.drop_last()) matches Some(d) && d.type_ is Directory,
    ensures
        append_plan(t, path, e, AppendMode::Create) == Some((path_segments(path)->0, e)),
        tree_pop(graft(t, path_segments(path)->0, e), path) == Some(e),
        tree_after_pop(graft(t, path_segments(path)->0, e), path) == t,
{
    let segs = path_segments(path)->0;
    let full = split_slash(without_last_slash(path));
    crate::paths::lemma_split_slash_nonempty(without_last_slash(path));
    assert(segs.len() > 0);
    assert(full.last() == segs.last());
    lemma_graft_then_remove(t, segs, e);
}

/// Creating an entry where `get` already finds one fails.
pub proof fn law_create_on_existing_fails(t: EntryModel, path: Seq<char>, e: EntryModel)
    requires
        is_root_model(t),
        tree_get(t, path) is Some,
    ensures
        append_outcome(t, path, e, AppendMode::Create, false) is AlreadyExists,
{
}

/// Moving an entry onto an existing directory puts it inside that
/// directory under its own name, even when the directory has that name.
pub proof fn law_move_onto_directory_goes_inside(t: EntryModel, path: Seq<char>, x: EntryModel)
    requires
        tree_get(t, path) matches Some(d) && d.type_ is Directory,
    ensures
        append_plan(t, path, x, AppendMode::Move) matches Some((segs, y)) ==> segs == path_segments(path)->0.push(
            x.name,
        ) && y == x,
{
}

} // verus!
