//! Remote events, the activity cursor, and the decoding of activity-log
//! elements into events.
use vstd::prelude::*;
use crate::paths::{add_head_slash, head_slashed, views};

verus! {

/// The cursor into the server's activity log.
#[derive(Debug)]
pub struct NCState {
    pub latest_activity_id: String,
}

pub open spec fn is_digit(c: char) -> bool {
    '0' <= c && c <= '9'
}

pub open spec fn all_digits(s: Seq<char>) -> bool {
    forall|i: int| 0 <= i < s.len() ==> is_digit(#[trigger] s[i])
}

pub open spec fn digits_value(s: Seq<char>) -> int
    decreases s.len(),
{
    if s.len() == 0 {
        0
    } else {
        digits_value(s.drop_last()) * 10 + (s.last() as int - '0' as int)
    }
}

/// The digits of an unsigned decimal, after an optional `+`.
pub open spec fn unsigned_digits(s: Seq<char>) -> Seq<char> {
    if s.len() > 0 && s[0] == '+' {
        s.drop_first()
    } else {
        s
    }
}

/// What `str::parse::<usize>` reads from `s`: `None` unless `s` is an
/// optional `+` and one or more digits whose value fits in `usize`.
pub open spec fn parsed_usize(s: Seq<char>) -> Option<nat> {
    let d = unsigned_digits(s);
    if d.len() > 0 && all_digits(d) && digits_value(d) <= usize::MAX {
        Some(digits_value(d) as nat)
    } else {
        None
    }
}

proof fn lemma_digits_value_nonneg(s: Seq<char>)
    requires
        all_digits(s),
    ensures
        digits_value(s) >= 0,
    decreases s.len(),
{
    if s.len() > 0 {
        assert(all_digits(s.drop_last())) by {
            assert forall|i: int| 0 <= i < s.drop_last().len() implies is_digit(#[trigger] s.drop_last()[i]) by {
                assert(is_digit(s[i]));
            }
        }
        lemma_digits_value_nonneg(s.drop_last());
        assert(is_digit(s[s.len() - 1]));
    }
}

proof fn lemma_digits_prefix_le(s: Seq<char>, k: int)
    requires
        all_digits(s),
        0 <= k <= s.len(),
    ensures
        digits_value(s.take(k)) <= digits_value(s),
    decreases s.len() - k,
{
    if k == s.len() {
        assert(s.take(k) =~= s);
    } else {
        let t = s.take(k);
        let u = s.take(k + 1);
        assert(all_digits(t)) by {
            assert forall|i: int| 0 <= i < t.len() implies is_digit(#[trigger] t[i]) by {
                assert(is_digit(s[i]));
            }
        }
        lemma_digits_value_nonneg(t);
        assert(u.drop_last() =~= t);
        assert(is_digit(s[k]));
        assert(u.last() == s[k]);
        assert(digits_value(u) == digits_value(t) * 10 + (s[k] as int - '0' as int));
        lemma_digits_prefix_le(s, k + 1);
    }
}

/// Reads an unsigned decimal as `str::parse::<usize>` does.
pub fn parse_usize(s: &str) -> (r: Option<usize>)
    ensures
        r matches Some(v) ==> parsed_usize(s@) == Some(v as nat),
        r is None ==> parsed_usize(s@) is None,
{
    let n = s.unicode_len();
    let mut i: usize = 0;
    if n > 0 && s.get_char(0) == '+' {
        i = 1;
    }
    let ghost d = unsigned_digits(s@);
    assert(d =~= s@.skip(i as int));
    if i == n {
        return None;
    }
    let start = i;
    let mut acc: usize = 0;
    while i < n
        invariant
            start <= i <= n,
            n == s@.len(),
            start < n,
            d =~= s@.skip(start as int),
            d == unsigned_digits(s@),
            all_digits(d.take(i - start)),
            acc as int == digits_value(d.take(i - start)),
        decreases n - i,
    {
        let c = s.get_char(i);
        let ghost t = d.take(i - start + 1);
        assert(t.drop_last() =~= d.take(i - start));
        assert(t.last() == c);
        if !('0' <= c && c <= '9') {
            proof {
                assert(d[i - start] == s@[i as int]);
                assert(!is_digit(d[i - start]));
            }
            return None;
        }
        let dv = (c as u32 - '0' as u32) as usize;
        assert(dv as int == c as int - '0' as int);
        if acc > (usize::MAX - dv) / 10 {
            proof {
                assert(acc * 10 + dv > usize::MAX) by (nonlinear_arith)
                    requires
                        acc > (usize::MAX - dv) / 10,
                        dv <= 9,
                ;
                assert(all_digits(t)) by {
                    assert forall|q: int| 0 <= q < t.len() implies is_digit(#[trigger] t[q]) by {
                        if q < t.len() - 1 {
                            assert(t[q] == d.take(i - start)[q]);
                        }
                    }
                }
                assert(digits_value(t) == acc * 10 + dv);
                if all_digits(d) {
                    lemma_digits_prefix_le(d, i - start + 1);
                }
            }
            return None;
        }
        proof {
            assert(acc * 10 + dv <= usize::MAX) by (nonlinear_arith)
                requires
                    acc <= (usize::MAX - dv) / 10,
                    dv <= 9,
            ;
            assert(all_digits(t)) by {
                assert forall|q: int| 0 <= q < t.len() implies is_digit(#[trigger] t[q]) by {
                    if q < t.len() - 1 {
                        assert(t[q] == d.take(i - start)[q]);
                    }
                }
            }
        }
        acc = acc * 10 + dv;
        i = i + 1;
    }
    assert(d.take(n - start) =~= d);
    Some(acc)
}

impl NCState {
    pub fn new(latest_activity_id: String) -> (r: NCState)
        ensures
            r.latest_activity_id@ == latest_activity_id@,
    {
        NCState { latest_activity_id }
    }

    /// Whether this cursor is at or past `other`; both must read as numbers.
    pub fn eq_or_newer_than(&self, other: &Self) -> (r: bool)
        requires
            parsed_usize(self.latest_activity_id@) is Some,
            parsed_usize(other.latest_activity_id@) is Some,
        ensures
            r == (parsed_usize(other.latest_activity_id@)->0 <= parsed_usize(self.latest_activity_id@)->0),
    {
        let s = parse_usize(self.latest_activity_id.as_str()).unwrap();
        let o = parse_usize(other.latest_activity_id.as_str()).unwrap();
        o <= s
    }

    pub fn copy(&self) -> (r: NCState)
        ensures
            r.latest_activity_id@ == self.latest_activity_id@,
    {
        NCState { latest_activity_id: self.latest_activity_id.as_str().to_owned() }
    }
}

/// A change reported by the server's activity log.
#[derive(Debug)]
pub enum NCEvent {
    Create(String),
    Delete(String),
    Modify(String),
    Move(String, String),
}

pub ghost enum EventModel {
    Create(Seq<char>),
    Delete(Seq<char>),
    Modify(Seq<char>),
    Move(Seq<char>, Seq<char>),
}

impl View for NCEvent {
    type V = EventModel;

    open spec fn view(&self) -> EventModel {
        match self {
            NCEvent::Create(p) => EventModel::Create(p@),
            NCEvent::Delete(p) => EventModel::Delete(p@),
            NCEvent::Modify(p) => EventModel::Modify(p@),
            NCEvent::Move(p, q) => EventModel::Move(p@, q@),
        }
    }
}

pub open spec fn event_views(v: Seq<NCEvent>) -> Seq<EventModel> {
    v.map_values(|e: NCEvent| e@)
}

/// The path that an event leaves changed, if any: none for a deletion.
pub open spec fn modified_path_of(e: EventModel) -> Option<Seq<char>> {
    match e {
        EventModel::Create(p) => Some(p),
        EventModel::Delete(_) => None,
        EventModel::Modify(p) => Some(p),
        EventModel::Move(_, q) => Some(q),
    }
}

fn same_text(a: &String, b: &String) -> (r: bool)
    ensures
        r == (a@ == b@),
{
    *a == *b
}

impl NCEvent {
    pub fn same_as(&self, other: &NCEvent) -> (r: bool)
        ensures
            r == (self@ == other@),
    {
        match (self, other) {
            (NCEvent::Create(a), NCEvent::Create(b)) => same_text(a, b),
            (NCEvent::Delete(a), NCEvent::Delete(b)) => same_text(a, b),
            (NCEvent::Modify(a), NCEvent::Modify(b)) => same_text(a, b),
            (NCEvent::Move(a, c), NCEvent::Move(b, d)) => same_text(a, b) && same_text(c, d),
            _ => false,
        }
    }

    pub fn copy(&self) -> (r: NCEvent)
        ensures
            r@ == self@,
    {
        match self {
            NCEvent::Create(p) => NCEvent::Create(p.as_str().to_owned()),
            NCEvent::Delete(p) => NCEvent::Delete(p.as_str().to_owned()),
            NCEvent::Modify(p) => NCEvent::Modify(p.as_str().to_owned()),
            NCEvent::Move(p, q) => NCEvent::Move(p.as_str().to_owned(), q.as_str().to_owned()),
        }
    }
}

impl crate::repair::ModifiedPath for NCEvent {
    open spec fn modified_path(&self) -> Option<Seq<char>> {
        modified_path_of(self@)
    }

    fn to_modified_path(&self) -> (r: Option<String>) {
        match self {
            NCEvent::Create(p) => Some(p.as_str().to_owned()),
            NCEvent::Delete(_) => None,
            NCEvent::Modify(p) => Some(p.as_str().to_owned()),
            NCEvent::Move(_, q) => Some(q.as_str().to_owned()),
        }
    }
}

pub open spec fn opt_text(o: Option<String>) -> Option<Seq<char>> {
    match o {
        Some(s) => Some(s@),
        None => None,
    }
}

impl PartialEq for NCEvent {
    fn eq(&self, other: &NCEvent) -> (r: bool) {
        self.same_as(other)
    }
}

impl vstd::std_specs::cmp::PartialEqSpecImpl for NCEvent {
    open spec fn obeys_eq_spec() -> bool {
        true
    }

    open spec fn eq_spec(&self, other: &NCEvent) -> bool {
        self@ == other@
    }
}

/// The kinds of activity that the engine acts on.
#[derive(Debug, Clone, Copy, PartialEq, Eq, Structural)]
pub enum ActivityType {
    FileCreated,
    FileRestored,
    FileChanged,
    FileDeleted,
}

fn text_eq(a: &str, b: &str) -> (r: bool)
    ensures
        r == (a@ == b@),
{
    let x = a.to_owned();
    let y = b.to_owned();
    x == y
}

/// The activity kind a `type` text names.
pub open spec fn activity_of(t: Seq<char>) -> Option<ActivityType> {
    if t == "file_created"@ {
        Some(ActivityType::FileCreated)
    } else if t == "file_restored"@ {
        Some(ActivityType::FileRestored)
    } else if t == "file_changed"@ {
        Some(ActivityType::FileChanged)
    } else if t == "file_deleted"@ {
        Some(ActivityType::FileDeleted)
    } else {
        None
    }
}

/// The activity kind named by the text of an element's `type`.
pub fn activity_type_of(text: &str) -> (r: Option<ActivityType>)
    ensures
        r == activity_of(text@),
        text@ == "file_created"@ <==> r == Some(ActivityType::FileCreated),
        text@ == "file_restored"@ <==> r == Some(ActivityType::FileRestored),
        text@ == "file_changed"@ <==> r == Some(ActivityType::FileChanged),
        text@ == "file_deleted"@ <==> r == Some(ActivityType::FileDeleted),
{
    proof {
        reveal_strlit("file_created");
        reveal_strlit("file_restored");
        reveal_strlit("file_changed");
        reveal_strlit("file_deleted");
        assert("file_created"@[6] != "file_changed"@[6]);
        assert("file_created"@[5] != "file_deleted"@[5]);
        assert("file_changed"@[5] != "file_deleted"@[5]);
        assert("file_restored"@.len() != "file_created"@.len());
        assert("file_restored"@.len() != "file_changed"@.len());
        assert("file_restored"@.len() != "file_deleted"@.len());
    }
    if text_eq(text, "file_created") {
        Some(ActivityType::FileCreated)
    } else if text_eq(text, "file_restored") {
        Some(ActivityType::FileRestored)
    } else if text_eq(text, "file_changed") {
        Some(ActivityType::FileChanged)
    } else if text_eq(text, "file_deleted") {
        Some(ActivityType::FileDeleted)
    } else {
        None
    }
}

/// Which list of paths an element's sub-tree feeds.
#[derive(Debug, Clone, Copy, PartialEq, Eq, Structural)]
pub enum PathTag {
    File,
    NewFile,
    OldFile,
}

pub open spec fn starts_with(s: Seq<char>, p: Seq<char>) -> bool {
    p.len() <= s.len() && s.take(p.len() as int) == p
}

pub fn text_starts_with(s: &str, p: &str) -> (r: bool)
    ensures
        r == starts_with(s@, p@),
{
    let n = s.unicode_len();
    let m = p.unicode_len();
    if m > n {
        return false;
    }
    let mut i: usize = 0;
    while i < m
        invariant
            m <= n,
            n == s@.len(),
            m == p@.len(),
            i <= m,
            forall|j: int| 0 <= j < i ==> s@[j] == p@[j],
        decreases m - i,
    {
        if s.get_char(i) != p.get_char(i) {
            assert(s@.take(m as int)[i as int] != p@[i as int]);
            return false;
        }
        i = i + 1;
    }
    assert(s@.take(m as int) =~= p@);
    true
}

/// The list that a tag whose name starts with `file`, `newfile` or
/// `oldfile` feeds, tested in that order.
pub fn tag_kind(name: &str) -> (r: Option<PathTag>)
    ensures
        starts_with(name@, "file"@) ==> r == Some(PathTag::File),
        !starts_with(name@, "file"@) && starts_with(name@, "newfile"@) ==> r == Some(PathTag::NewFile),
        !starts_with(name@, "file"@) && !starts_with(name@, "newfile"@) && starts_with(name@, "oldfile"@)
            ==> r == Some(PathTag::OldFile),
        !starts_with(name@, "file"@) && !starts_with(name@, "newfile"@) && !starts_with(name@, "oldfile"@)
            ==> r is None,
{
    if text_starts_with(name, "file") {
        Some(PathTag::File)
    } else if text_starts_with(name, "newfile") {
        Some(PathTag::NewFile)
    } else if text_starts_with(name, "oldfile") {
        Some(PathTag::OldFile)
    } else {
        None
    }
}

/// Whether `a` may stand before `b`: longer first when `desc`, shorter
/// first otherwise.
pub open spec fn len_before(a: Seq<char>, b: Seq<char>, desc: bool) -> bool {
    if desc {
        a.len() >= b.len()
    } else {
        a.len() <= b.len()
    }
}

/// `x` put into the ordered `sorted` after every element that may stand before it.
pub open spec fn insert_by_len(sorted: Seq<Seq<char>>, x: Seq<char>, desc: bool) -> Seq<Seq<char>>
    decreases sorted.len(),
{
    if sorted.len() == 0 {
        seq![x]
    } else if len_before(sorted.last(), x, desc) {
        sorted.push(x)
    } else {
        insert_by_len(sorted.drop_last(), x, desc).push(sorted.last())
    }
}

/// The stable sort of `s` by length.
pub open spec fn sort_by_len(s: Seq<Seq<char>>, desc: bool) -> Seq<Seq<char>>
    decreases s.len(),
{
    if s.len() == 0 {
        Seq::empty()
    } else {
        insert_by_len(sort_by_len(s.drop_last(), desc), s.last(), desc)
    }
}

fn insert_sorted(out: &mut Vec<String>, x: String, desc: bool)
    ensures
        views(final(out)@) == insert_by_len(views(old(out)@), x@, desc),
{
    let xl = x.as_str().unicode_len();
    let mut j = out.len();
    let ghost o = views(out@);
    assert(o.take(j as int) =~= o);
    assert(o.skip(j as int) =~= Seq::<Seq<char>>::empty());
    assert(o + Seq::<Seq<char>>::empty() =~= o);
    while j > 0
        invariant
            j <= out@.len(),
            o == views(out@),
            xl == x@.len(),
            insert_by_len(o, x@, desc) == insert_by_len(o.take(j as int), x@, desc) + o.skip(j as int),
        ensures
            j <= out@.len(),
            o == views(out@),
            insert_by_len(o, x@, desc) == insert_by_len(o.take(j as int), x@, desc) + o.skip(j as int),
            j > 0 ==> len_before(o[j - 1], x@, desc),
        decreases j,
    {
        let yl = out[j - 1].as_str().unicode_len();
        let before = if desc { yl >= xl } else { yl <= xl };
        assert(o[j - 1] == out@[j - 1]@);
        if before {
            break;
        }
        proof {
            let t = o.take(j as int);
            assert(t.drop_last() =~= o.take(j - 1));
            assert(t.last() == o[j - 1]);
            assert(!len_before(t.last(), x@, desc));
            assert(insert_by_len(t, x@, desc) == insert_by_len(o.take(j - 1), x@, desc).push(o[j - 1]));
            assert(o.skip(j - 1) =~= seq![o[j - 1]] + o.skip(j as int));
            assert(insert_by_len(o.take(j - 1), x@, desc).push(o[j - 1]) + o.skip(j as int) =~= insert_by_len(
                o.take(j - 1),
                x@,
                desc,
            ) + o.skip(j - 1));
        }
        j = j - 1;
    }
    proof {
        if j == 0 {
            assert(o.take(0) =~= Seq::<Seq<char>>::empty());
            assert(insert_by_len(o.take(0), x@, desc) == seq![x@]);
        } else {
            let t = o.take(j as int);
            assert(t.last() == o[j - 1]);
            assert(insert_by_len(t, x@, desc) == t.push(x@));
        }
    }
    out.insert(j, x);
    proof {
        assert(views(out@) =~= o.take(j as int).push(x@) + o.skip(j as int));
    }
}

/// Sorts paths by length, keeping the order of equal lengths: longest
/// first when `desc`.
pub fn sort_paths_by_len(paths: Vec<String>, desc: bool) -> (r: Vec<String>)
    ensures
        views(r@) == sort_by_len(views(paths@), desc),
{
    let mut out: Vec<String> = Vec::new();
    let mut i: usize = 0;
    let n = paths.len();
    while i < n
        invariant
            n == paths@.len(),
            i <= n,
            views(out@) == sort_by_len(views(paths@).take(i as int), desc),
        decreases n - i,
    {
        let x = paths[i].as_str().to_owned();
        proof {
            let t = views(paths@).take(i + 1);
            assert(t.drop_last() =~= views(paths@).take(i as int));
            assert(t.last() == paths@[i as int]@);
        }
        insert_sorted(&mut out, x, desc);
        i = i + 1;
    }
    assert(views(paths@).take(n as int) =~= views(paths@));
    out
}

/// What one activity-log element asks for: events, or the restored paths
/// whose present sub-trees are to be created.
#[derive(Debug)]
pub enum Decoded {
    Events(Vec<NCEvent>),
    Restore(Vec<String>),
}

pub open spec fn heads(v: Seq<Seq<char>>) -> Seq<Seq<char>> {
    v.map_values(|p: Seq<char>| head_slashed(p))
}

/// The events of one element, from its kind and the paths under its
/// `file*`, `newfile*` and `oldfile*` tags (each given a head slash). A
/// change with a new file moves every old file, the longest first, to the
/// first new file; otherwise it modifies the files.
pub open spec fn decoded_events(
    kind: Option<ActivityType>,
    files: Seq<Seq<char>>,
    new_files: Seq<Seq<char>>,
    old_files: Seq<Seq<char>>,
) -> Option<Seq<EventModel>> {
    match kind {
        Some(ActivityType::FileCreated) => Some(heads(files).map_values(|p: Seq<char>| EventModel::Create(p))),
        Some(ActivityType::FileDeleted) => Some(heads(files).map_values(|p: Seq<char>| EventModel::Delete(p))),
        Some(ActivityType::FileChanged) => if new_files.len() > 0 {
            Some(
                sort_by_len(heads(old_files), true).map_values(
                    |p: Seq<char>| EventModel::Move(p, head_slashed(new_files[0])),
                ),
            )
        } else {
            Some(heads(files).map_values(|p: Seq<char>| EventModel::Modify(p)))
        },
        Some(ActivityType::FileRestored) => None,
        None => Some(Seq::empty()),
    }
}

fn headed(v: &Vec<String>) -> (r: Vec<String>)
    ensures
        views(r@) == heads(views(v@)),
{
    let mut out: Vec<String> = Vec::new();
    let mut i: usize = 0;
    while i < v.len()
        invariant
            i <= v@.len(),
            views(out@) == heads(views(v@).take(i as int)),
        decreases v@.len() - i,
    {
        let h = add_head_slash(v[i].as_str());
        let ghost o = views(out@);
        out.push(h);
        proof {
            assert(views(out@) =~= o.push(h@));
            assert(heads(views(v@).take(i + 1)) =~= heads(views(v@).take(i as int)).push(head_slashed(v@[i as int]@)));
        }
        i = i + 1;
    }
    assert(views(v@).take(v@.len() as int) =~= views(v@));
    out
}

#[derive(Clone, Copy, PartialEq, Eq, Structural)]
enum EventKind {
    Create,
    Delete,
    Modify,
}

fn wrap_events(paths: Vec<String>, kind: EventKind) -> (r: Vec<NCEvent>)
    ensures
        kind == EventKind::Create ==> event_views(r@) == views(paths@).map_values(|p: Seq<char>| EventModel::Create(p)),
        kind == EventKind::Delete ==> event_views(r@) == views(paths@).map_values(|p: Seq<char>| EventModel::Delete(p)),
        kind == EventKind::Modify ==> event_views(r@) == views(paths@).map_values(|p: Seq<char>| EventModel::Modify(p)),
{
    let mut out: Vec<NCEvent> = Vec::new();
    let mut i: usize = 0;
    while i < paths.len()
        invariant
            i <= paths@.len(),
            out@.len() == i,
            forall|j: int| 0 <= j < i ==> (#[trigger] out@[j])@ == match kind {
                EventKind::Create => EventModel::Create(paths@[j]@),
                EventKind::Delete => EventModel::Delete(paths@[j]@),
                EventKind::Modify => EventModel::Modify(paths@[j]@),
            },
        decreases paths@.len() - i,
    {
        let p = paths[i].as_str().to_owned();
        let e = match kind {
            EventKind::Create => NCEvent::Create(p),
            EventKind::Delete => NCEvent::Delete(p),
            EventKind::Modify => NCEvent::Modify(p),
        };
        out.push(e);
        i = i + 1;
    }
    proof {
        assert(kind == EventKind::Create ==> event_views(out@) =~= views(paths@).map_values(|p: Seq<char>| EventModel::Create(p)));
        assert(kind == EventKind::Delete ==> event_views(out@) =~= views(paths@).map_values(|p: Seq<char>| EventModel::Delete(p)));
        assert(kind == EventKind::Modify ==> event_views(out@) =~= views(paths@).map_values(|p: Seq<char>| EventModel::Modify(p)));
    }
    out
}

fn moves_to(olds: Vec<String>, target: &String) -> (r: Vec<NCEvent>)
    ensures
        event_views(r@) == views(olds@).map_values(|p: Seq<char>| EventModel::Move(p, target@)),
{
    let mut out: Vec<NCEvent> = Vec::new();
    let mut i: usize = 0;
    while i < olds.len()
        invariant
            i <= olds@.len(),
            out@.len() == i,
            forall|j: int| 0 <= j < i ==> (#[trigger] out@[j])@ == EventModel::Move(olds@[j]@, target@),
        decreases olds@.len() - i,
    {
        out.push(NCEvent::Move(olds[i].as_str().to_owned(), target.as_str().to_owned()));
        i = i + 1;
    }
    assert(event_views(out@) =~= views(olds@).map_values(|p: Seq<char>| EventModel::Move(p, target@)));
    out
}

/// Decodes one activity-log element.
pub fn decode_activity(
    kind: Option<ActivityType>,
    files: Vec<String>,
    new_files: Vec<String>,
    old_files: Vec<String>,
) -> (r: Decoded)
    ensures
        match decoded_events(kind, views(files@), views(new_files@), views(old_files@)) {
            Some(evs) => r matches Decoded::Events(v) && event_views(v@) == evs,
            None => r matches Decoded::Restore(v) && views(v@) == heads(views(files@)),
        },
{
    let files = headed(&files);
    match kind {
        Some(ActivityType::FileCreated) => Decoded::Events(wrap_events(files, EventKind::Create)),
        Some(ActivityType::FileDeleted) => Decoded::Events(wrap_events(files, EventKind::Delete)),
        Some(ActivityType::FileChanged) => {
            if new_files.len() > 0 {
                let target = add_head_slash(new_files[0].as_str());
                let olds = sort_paths_by_len(headed(&old_files), true);
                Decoded::Events(moves_to(olds, &target))
            } else {
                Decoded::Events(wrap_events(files, EventKind::Modify))
            }
        },
        Some(ActivityType::FileRestored) => Decoded::Restore(files),
        None => {
            let v: Vec<NCEvent> = Vec::new();
            assert(event_views(v@) =~= Seq::<EventModel>::empty());
            Decoded::Events(v)
        },
    }
}

/// One answer of the activity endpoint during a poll.
#[derive(Debug)]
pub enum PollReply {
    /// 304: nothing more.
    NotModified,
    /// A page of events and the cursor it reached.
    Page { last_given: String, events: Vec<NCEvent> },
    /// Another non-success status.
    Failed(u16),
}

/// What the poller does next.
#[derive(Debug)]
pub enum PollStep {
    Continue,
    Done,
    Fail(crate::errors::NcsError),
}

/// A poll of the activity log in progress: the cursor to ask from, whether
/// a page came already, and the events gathered.
#[derive(Debug)]
pub struct ActivityPoll {
    pub since: String,
    pub progressed: bool,
    pub events: Vec<NCEvent>,
}

impl ActivityPoll {
    pub fn new(since: &str) -> (r: ActivityPoll)
        ensures
            r.since@ == since@,
            !r.progressed,
            r.events@.len() == 0,
    {
        ActivityPoll { since: since.to_owned(), progressed: false, events: Vec::new() }
    }

    /// Takes one answer: a page advances the cursor and keeps its events; a
    /// 304 ends the poll; another status ends it too once a page came, and
    /// fails it otherwise.
    pub fn step(&mut self, reply: PollReply) -> (r: PollStep)
        ensures
            reply matches PollReply::Page { last_given, events } ==> r is Continue && final(self).since@
                == last_given@ && final(self).progressed && event_views(final(self).events@) == event_views(
                old(self).events@,
            ) + event_views(events@),
            reply is NotModified ==> (r is Done && *final(self) == *old(self)),
            reply matches PollReply::Failed(code) ==> *final(self) == *old(self) && (old(self).progressed ==> r is Done)
                && (!old(self).progressed ==> (r matches PollStep::Fail(crate::errors::NcsError::BadStatusError(c))
                && c == code)),
    {
        match reply {
            PollReply::NotModified => PollStep::Done,
            PollReply::Failed(code) => {
                if self.progressed {
                    PollStep::Done
                } else {
                    PollStep::Fail(crate::errors::NcsError::BadStatusError(code))
                }
            },
            PollReply::Page { last_given, events } => {
                let ghost e0 = event_views(self.events@);
                let mut i: usize = 0;
                while i < events.len()
                    invariant
                        i <= events@.len(),
                        event_views(self.events@) == e0 + event_views(events@).take(i as int),
                    decreases events@.len() - i,
                {
                    let ghost before = event_views(self.events@);
                    self.events.push(events[i].copy());
                    proof {
                        assert(event_views(self.events@) =~= before.push(events@[i as int]@));
                        assert(event_views(events@).take(i + 1) =~= event_views(events@).take(i as int).push(
                            events@[i as int]@,
                        ));
                        assert(event_views(self.events@) =~= e0 + event_views(events@).take(i + 1));
                    }
                    i = i + 1;
                }
                assert(event_views(events@).take(events@.len() as int) =~= event_views(events@));
                self.since = last_given;
                self.progressed = true;
                PollStep::Continue
            },
        }
    }
}

} // verus!
