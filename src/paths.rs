//! Textual path helpers. Paths use forward slashes; the canonical form of a
//! path inside the synchronised tree is `/a/b/c` (head slash, no last slash).
use vstd::prelude::*;

verus! {

pub open spec fn has_head_slash(s: Seq<char>) -> bool {
    s.len() > 0 && s[0] == '/'
}

pub open spec fn has_last_slash(s: Seq<char>) -> bool {
    s.len() > 0 && s.last() == '/'
}

pub open spec fn head_slashed(s: Seq<char>) -> Seq<char> {
    if has_head_slash(s) {
        s
    } else {
        seq!['/'] + s
    }
}

pub open spec fn last_slashed(s: Seq<char>) -> Seq<char> {
    if has_last_slash(s) {
        s
    } else {
        s.push('/')
    }
}

pub open spec fn without_head_slash(s: Seq<char>) -> Seq<char> {
    if has_head_slash(s) {
        s.drop_first()
    } else {
        s
    }
}

pub open spec fn without_last_slash(s: Seq<char>) -> Seq<char> {
    if has_last_slash(s) {
        s.drop_last()
    } else {
        s
    }
}

/// The canonical form of a root path: a head slash and no last slash.
pub open spec fn fixed_root(s: Seq<char>) -> Seq<char> {
    head_slashed(without_last_slash(s))
}

/// `s` split at every `/`, as `str::split("/")` does: `n` slashes give
/// `n + 1` segments, empty ones included.
pub open spec fn split_slash(s: Seq<char>) -> Seq<Seq<char>>
    decreases s.len(),
{
    if s.len() == 0 {
        seq![Seq::empty()]
    } else {
        let rest = split_slash(s.drop_last());
        if s.last() == '/' {
            rest.push(Seq::empty())
        } else {
            rest.update(rest.len() - 1, rest.last().push(s.last()))
        }
    }
}

/// The last segment of a path, with a `/` after it when the path ended with one.
pub open spec fn name_of_path(p: Seq<char>) -> Seq<char> {
    let last = split_slash(without_last_slash(p)).last();
    if has_last_slash(p) {
        last.push('/')
    } else {
        last
    }
}

/// `s` with every occurrence of `pat`, found left to right without
/// overlap, replaced by `rep`; `s` itself for an empty `pat`.
pub open spec fn replaced_all(s: Seq<char>, pat: Seq<char>, rep: Seq<char>) -> Seq<char>
    decreases s.len(),
{
    if pat.len() == 0 || s.len() < pat.len() {
        s
    } else if s.take(pat.len() as int) == pat {
        rep + replaced_all(s.skip(pat.len() as int), pat, rep)
    } else {
        seq![s[0]] + replaced_all(s.drop_first(), pat, rep)
    }
}

/// Backslashes turned into slashes.
pub open spec fn forward_slashed(s: Seq<char>) -> Seq<char> {
    replaced_all(s, seq!['\\'], seq!['/'])
}

pub open spec fn canonical_path(s: Seq<char>) -> Seq<char> {
    without_last_slash(head_slashed(forward_slashed(s)))
}

/// The segments of a path, last segment first: what tree traversal pops from.
pub open spec fn path_stack(p: Seq<char>) -> Seq<Seq<char>> {
    split_slash(without_last_slash(p)).reverse()
}

pub open spec fn views(v: Seq<String>) -> Seq<Seq<char>> {
    v.map_values(|s: String| s@)
}

pub proof fn lemma_split_slash_nonempty(s: Seq<char>)
    ensures
        split_slash(s).len() >= 1,
    decreases s.len(),
{
    if s.len() > 0 {
        lemma_split_slash_nonempty(s.drop_last());
    }
}

/// Which end of a path a slash is taken from.
#[derive(Clone, Copy, PartialEq, Eq, Debug)]
pub enum SlashSide {
    Head,
    Last,
}

/// Whether `pat` stands in `s` at character `i`.
fn matches_at(s: &str, pat: &str, i: usize) -> (r: bool)
    requires
        i + pat@.len() <= s@.len(),
        s@.len() <= usize::MAX,
    ensures
        r == (s@.subrange(i as int, i + pat@.len()) == pat@),
{
    let m = pat.unicode_len();
    let mut j: usize = 0;
    while j < m
        invariant
            m == pat@.len(),
            i + m <= s@.len(),
            s@.len() <= usize::MAX,
            j <= m,
            forall|k: int| 0 <= k < j ==> s@[i + k] == pat@[k],
        decreases m - j,
    {
        if s.get_char(i + j) != pat.get_char(j) {
            assert(s@.subrange(i as int, i + m)[j as int] != pat@[j as int]);
            return false;
        }
        j = j + 1;
    }
    assert(s@.subrange(i as int, i + m) =~= pat@);
    true
}

/// Replaces every occurrence of `pat` in `s`, found left to right without
/// overlap, by `rep`, as `str::replace` does for a non-empty pattern; an
/// empty `pat` leaves `s` as it is.
pub fn replace_all(s: &str, pat: &str, rep: &str) -> (r: String)
    ensures
        r@ == replaced_all(s@, pat@, rep@),
{
    let n = s.unicode_len();
    let m = pat.unicode_len();
    if m == 0 || m > n {
        return s.to_owned();
    }
    let mut out = String::new();
    let mut start: usize = 0;
    let mut i: usize = 0;
    assert(s@.skip(0) =~= s@);
    assert(out@ + s@.subrange(0, 0) + replaced_all(s@, pat@, rep@) =~= replaced_all(s@, pat@, rep@));
    while i <= n - m
        invariant
            n == s@.len(),
            m == pat@.len(),
            0 < m <= n,
            start <= i <= n,
            replaced_all(s@, pat@, rep@) == out@ + s@.subrange(start as int, i as int) + replaced_all(
                s@.skip(i as int),
                pat@,
                rep@,
            ),
        decreases n - i,
    {
        let ghost t = s@.skip(i as int);
        assert(t.take(m as int) =~= s@.subrange(i as int, i + m));
        if matches_at(s, pat, i) {
            let ghost out0 = out@;
            let seg = s.substring_char(start, i);
            out.append(seg);
            out.append(rep);
            proof {
                assert(t.skip(m as int) =~= s@.skip(i + m));
                assert(replaced_all(t, pat@, rep@) == rep@ + replaced_all(s@.skip(i + m), pat@, rep@));
                assert(s@.subrange(i + m, i + m) =~= Seq::<char>::empty());
                assert(out@ + s@.subrange(i + m, i + m) + replaced_all(s@.skip(i + m), pat@, rep@) =~= out0
                    + s@.subrange(start as int, i as int) + (rep@ + replaced_all(s@.skip(i + m), pat@, rep@)));
            }
            i = i + m;
            start = i;
        } else {
            proof {
                assert(t.drop_first() =~= s@.skip(i + 1));
                assert(t[0] == s@[i as int]);
                assert(replaced_all(t, pat@, rep@) == seq![s@[i as int]] + replaced_all(s@.skip(i + 1), pat@, rep@));
                assert(s@.subrange(start as int, i + 1) =~= s@.subrange(start as int, i as int).push(s@[i as int]));
                assert(out@ + s@.subrange(start as int, i + 1) + replaced_all(s@.skip(i + 1), pat@, rep@) =~= out@
                    + s@.subrange(start as int, i as int) + (seq![s@[i as int]] + replaced_all(s@.skip(i + 1), pat@, rep@)));
            }
            i = i + 1;
        }
    }
    proof {
        let t = s@.skip(i as int);
        assert(t.len() < m);
        assert(replaced_all(t, pat@, rep@) == t);
        assert(s@.subrange(start as int, i as int) + t =~= s@.subrange(start as int, n as int));
    }
    let rest = s.substring_char(start, n);
    out.append(rest);
    out
}

fn replace_backslashes(s: &str) -> (r: String)
    ensures
        r@ == forward_slashed(s@),
{
    let pat = "\\";
    let rep = "/";
    proof {
        reveal_strlit("\\");
        reveal_strlit("/");
        assert(pat@ =~= seq!['\\']);
        assert(rep@ =~= seq!['/']);
    }
    replace_all(s, pat, rep)
}

fn slash_str() -> (r: &'static str)
    ensures
        r@ == seq!['/'],
{
    let r = "/";
    proof {
        reveal_strlit("/");
    }
    r
}

pub fn is_head_slashed(s: &str) -> (r: bool)
    ensures
        r == has_head_slash(s@),
{
    let n = s.unicode_len();
    n > 0 && s.get_char(0) == '/'
}

pub fn is_last_slashed(s: &str) -> (r: bool)
    ensures
        r == has_last_slash(s@),
{
    let n = s.unicode_len();
    n > 0 && s.get_char(n - 1) == '/'
}

/// Prepends `/` unless `s` already starts with one.
pub fn add_head_slash(s: &str) -> (r: String)
    ensures
        r@ == head_slashed(s@),
{
    if is_head_slashed(s) {
        s.to_owned()
    } else {
        let head = String::from_str(slash_str());
        head.concat(s)
    }
}

/// Appends `/` unless `s` already ends with one.
pub fn add_last_slash(s: &str) -> (r: String)
    ensures
        r@ == last_slashed(s@),
{
    if is_last_slashed(s) {
        s.to_owned()
    } else {
        let mut r = s.to_owned();
        r.append(slash_str());
        r
    }
}

/// Removes one slash from the given end of `s`, if there is one there.
pub fn drop_slash(s: &str, side: SlashSide) -> (r: String)
    ensures
        side == SlashSide::Head ==> r@ == without_head_slash(s@),
        side == SlashSide::Last ==> r@ == without_last_slash(s@),
{
    let n = s.unicode_len();
    match side {
        SlashSide::Head => {
            if is_head_slashed(s) {
                s.substring_char(1, n).to_owned()
            } else {
                s.to_owned()
            }
        },
        SlashSide::Last => {
            if is_last_slashed(s) {
                s.substring_char(0, n - 1).to_owned()
            } else {
                s.to_owned()
            }
        },
    }
}

/// A host address without its last slash.
pub fn fix_host(host: &str) -> (r: String)
    ensures
        r@ == without_last_slash(host@),
{
    drop_slash(host, SlashSide::Last)
}

/// A root path with a head slash and without its last slash.
pub fn fix_root(root_path: &str) -> (r: String)
    ensures
        r@ == fixed_root(root_path@),
{
    let p = drop_slash(root_path, SlashSide::Last);
    add_head_slash(p.as_str())
}

/// Splits `s` at every `/`.
pub fn split_slash_vec(s: &str) -> (r: Vec<String>)
    ensures
        views(r@) == split_slash(s@),
{
    let n = s.unicode_len();
    let mut out: Vec<String> = Vec::new();
    let mut start: usize = 0;
    let mut i: usize = 0;
    proof {
        assert(s@.subrange(0, 0) =~= Seq::<char>::empty());
        assert(views(out@) =~= Seq::<Seq<char>>::empty());
        assert(split_slash(Seq::<char>::empty()) =~= views(out@).push(s@.subrange(0, 0)));
    }
    while i < n
        invariant
            n == s@.len(),
            start <= i <= n,
            split_slash(s@.subrange(0, i as int)) == views(out@).push(
                s@.subrange(start as int, i as int),
            ),
        decreases n - i,
    {
        let c = s.get_char(i);
        let ghost t = s@.subrange(0, i + 1);
        assert(t.drop_last() =~= s@.subrange(0, i as int));
        if c == '/' {
            let seg = s.substring_char(start, i).to_owned();
            let ghost before = out@;
            out.push(seg);
            start = i + 1;
            proof {
                assert(views(out@) =~= views(before).push(seg@));
                assert(s@.subrange(start as int, i + 1) =~= Seq::<char>::empty());
            }
        } else {
            proof {
                assert(s@.subrange(start as int, i + 1) =~= s@.subrange(start as int, i as int).push(c));
            }
        }
        i = i + 1;
        proof {
            assert(split_slash(s@.subrange(0, i as int)) =~= views(out@).push(
                s@.subrange(start as int, i as int),
            ));
        }
    }
    let last = s.substring_char(start, n).to_owned();
    let ghost before = out@;
    out.push(last);
    proof {
        assert(s@.subrange(0, n as int) =~= s@);
        assert(views(out@) =~= views(before).push(last@));
    }
    out
}

/// The last segment of `path`; a path that ended with `/` keeps it after the name.
pub fn path2name(path: &str) -> (r: String)
    ensures
        r@ == name_of_path(path@),
{
    let p = drop_slash(path, SlashSide::Last);
    let segs = split_slash_vec(p.as_str());
    proof {
        lemma_split_slash_nonempty(p@);
    }
    let k = segs.len() - 1;
    let last = segs[k].clone();
    assert(views(segs@)[k as int] == segs@[k as int]@);
    if is_last_slashed(path) {
        let mut r = last.as_str().to_owned();
        r.append(slash_str());
        r
    } else {
        last.as_str().to_owned()
    }
}

/// `path` with every backslash turned into a slash.
pub fn path2str_forward(path: &str) -> (r: String)
    ensures
        r@ == forward_slashed(path@),
{
    replace_backslashes(path)
}

pub fn slash_literal() -> (r: &'static str)
    ensures
        r@ == seq!['/'],
{
    slash_str()
}

/// The canonical form of an OS path string: forward slashes, a head slash,
/// no last slash.
pub fn path2str(path: &str) -> (r: String)
    ensures
        r@ == canonical_path(path@),
{
    let p = replace_backslashes(path);
    let p = add_head_slash(p.as_str());
    drop_slash(p.as_str(), SlashSide::Last)
}

/// The segments of `path` as a stack: the last segment first, the empty
/// segment that stands for the root at the end.
pub fn prepare_path_vec(path: &str) -> (r: Vec<String>)
    ensures
        views(r@) == path_stack(path@),
{
    let p = drop_slash(path, SlashSide::Last);
    let mut segs = split_slash_vec(p.as_str());
    let ghost orig = views(segs@);
    let mut out: Vec<String> = Vec::new();
    while segs.len() > 0
        invariant
            orig == views(segs@) + views(out@).reverse(),
        decreases segs.len(),
    {
        let ghost segs0 = segs@;
        let ghost out0 = out@;
        let x = segs.pop().unwrap();
        out.push(x);
        proof {
            assert(views(out@) =~= views(out0).push(x@));
            assert(views(out@).reverse() =~= seq![x@] + views(out0).reverse());
            assert(views(segs0) =~= views(segs@).push(x@));
        }
    }
    proof {
        assert(views(out@).reverse().reverse() =~= views(out@));
        assert(orig =~= views(out@).reverse());
        assert(orig.reverse() =~= views(out@));
    }
    out
}

/// Adding a head slash twice is adding it once.
pub proof fn law_add_head_slash_idempotent(s: Seq<char>)
    ensures
        head_slashed(head_slashed(s)) == head_slashed(s),
{
}

/// Adding a last slash twice is adding it once.
pub proof fn law_add_last_slash_idempotent(s: Seq<char>)
    ensures
        last_slashed(last_slashed(s)) == last_slashed(s),
{
}

/// Fixing a root path twice is fixing it once, unless one removed slash
/// leaves another one at the end (`a//`).
pub proof fn law_fix_root_idempotent(s: Seq<char>)
    requires
        !has_last_slash(without_last_slash(s)) || without_last_slash(s).len() == 1,
    ensures
        fixed_root(fixed_root(s)) == fixed_root(s),
{
    let w = without_last_slash(s);
    if w.len() == 0 {
        assert(fixed_root(s) =~= seq!['/']);
        assert(without_last_slash(seq!['/']) =~= Seq::<char>::empty());
    } else if !has_head_slash(w) {
        assert((seq!['/'] + w).last() == w.last());
        assert((seq!['/'] + w)[0] == '/');
    }
}

} // verus!
