//! The cancellation books: what each side must ignore because this engine
//! caused it on the other side.
use vstd::prelude::*;
use crate::events::{EventModel, NCEvent};

verus! {

/// One counted path.
#[derive(Debug)]
pub struct PathCount {
    pub path: String,
    pub count: usize,
}

/// Local writes done on behalf of the server, counted per path: each one
/// will come back as a local event that must be dropped.
#[derive(Debug)]
pub struct CancelCounter {
    entries: Vec<PathCount>,
}

impl View for CancelCounter {
    type V = Map<Seq<char>, nat>;

    closed spec fn view(&self) -> Map<Seq<char>, nat> {
        Map::new(
            |p: Seq<char>| exists|i: int| 0 <= i < self.entries@.len() && self.entries@[i].path@ == p,
            |p: Seq<char>|
                self.entries@[choose|i: int| 0 <= i < self.entries@.len() && self.entries@[i].path@ == p].count as nat,
        )
    }
}

/// The count kept for `p`, zero when none is.
pub open spec fn count_of(m: Map<Seq<char>, nat>, p: Seq<char>) -> nat {
    if m.contains_key(p) {
        m[p]
    } else {
        0
    }
}

/// The book after one more write at `p`.
pub open spec fn bumped(m: Map<Seq<char>, nat>, p: Seq<char>) -> Map<Seq<char>, nat> {
    m.insert(p, count_of(m, p) + 1)
}

/// The book after a local event at `p` was tested against it.
pub open spec fn taken(m: Map<Seq<char>, nat>, p: Seq<char>) -> Map<Seq<char>, nat> {
    if !m.contains_key(p) {
        m
    } else if m[p] > 1 {
        m.insert(p, (m[p] - 1) as nat)
    } else {
        m.remove(p)
    }
}

/// Every count kept is positive.
pub open spec fn counts_positive(m: Map<Seq<char>, nat>) -> bool {
    forall|p: Seq<char>| m.contains_key(p) ==> m[p] > 0
}

impl CancelCounter {
    pub closed spec fn wf(&self) -> bool {
        &&& forall|i: int, j: int|
            0 <= i < self.entries@.len() && 0 <= j < self.entries@.len() && i != j
                ==> #[trigger] self.entries@[i].path@ != #[trigger] self.entries@[j].path@
        &&& forall|i: int| 0 <= i < self.entries@.len() ==> #[trigger] self.entries@[i].count > 0
    }

    proof fn lemma_view_at(&self, i: int)
        requires
            self.wf(),
            0 <= i < self.entries@.len(),
        ensures
            self@.contains_key(self.entries@[i].path@),
            self@[self.entries@[i].path@] == self.entries@[i].count as nat,
    {
        let p = self.entries@[i].path@;
        assert(exists|q: int| 0 <= q < self.entries@.len() && self.entries@[q].path@ == p);
        let c = choose|q: int| 0 <= q < self.entries@.len() && self.entries@[q].path@ == p;
        assert(c == i);
    }

    /// A well-formed book keeps positive counts only.
    pub proof fn lemma_counts_positive(&self)
        requires
            self.wf(),
        ensures
            counts_positive(self@),
    {
        assert forall|p: Seq<char>| self@.contains_key(p) implies self@[p] > 0 by {
            let i = choose|q: int| 0 <= q < self.entries@.len() && self.entries@[q].path@ == p;
            self.lemma_view_at(i);
        }
    }

    pub fn new() -> (r: CancelCounter)
        ensures
            r.wf(),
            r@ == Map::<Seq<char>, nat>::empty(),
    {
        let r = CancelCounter { entries: Vec::new() };
        assert(r@ =~= Map::<Seq<char>, nat>::empty());
        r
    }

    fn find(&self, p: &str) -> (r: Option<usize>)
        requires
            self.wf(),
        ensures
            r matches Some(i) ==> i < self.entries@.len() && self.entries@[i as int].path@ == p@,
            r is None ==> !self@.contains_key(p@),
    {
        let n = self.entries.len();
        let mut i: usize = 0;
        let key = p.to_owned();
        while i < n
            invariant
                n == self.entries@.len(),
                i <= n,
                key@ == p@,
                forall|j: int| 0 <= j < i ==> self.entries@[j].path@ != p@,
            decreases n - i,
        {
            if self.entries[i].path == key {
                return Some(i);
            }
            i = i + 1;
        }
        None
    }

    /// How many local events at `p` are still to be dropped.
    pub fn count(&self, p: &str) -> (r: usize)
        requires
            self.wf(),
        ensures
            r == count_of(self@, p@),
    {
        match self.find(p) {
            Some(i) => {
                proof {
                    self.lemma_view_at(i as int);
                }
                self.entries[i].count
            },
            None => 0,
        }
    }

    /// Records one more local write at `p`.
    pub fn increment(&mut self, p: &str)
        requires
            old(self).wf(),
            count_of(old(self)@, p@) < usize::MAX,
        ensures
            final(self).wf(),
            final(self)@ == bumped(old(self)@, p@),
    {
        match self.find(p) {
            Some(i) => {
                proof {
                    self.lemma_view_at(i as int);
                }
                let ghost old_e = self.entries@;
                let c = self.entries[i].count;
                let path = self.entries[i].path.as_str().to_owned();
                self.entries.set(i, PathCount { path, count: c + 1 });
                proof {
                    assert forall|q: Seq<char>| #[trigger] self@.contains_key(q) == bumped(old(self)@, p@).contains_key(q) by {
                        if exists|j: int| 0 <= j < old_e.len() && old_e[j].path@ == q {
                            let j = choose|j: int| 0 <= j < old_e.len() && old_e[j].path@ == q;
                            assert(self.entries@[j].path@ == q);
                        }
                        if exists|j: int| 0 <= j < self.entries@.len() && self.entries@[j].path@ == q {
                            let j = choose|j: int| 0 <= j < self.entries@.len() && self.entries@[j].path@ == q;
                            assert(old_e[j].path@ == q);
                        }
                    }
                    assert forall|q: Seq<char>| self@.contains_key(q) implies #[trigger] self@[q] == bumped(old(self)@, p@)[q] by {
                        let j = choose|j: int| 0 <= j < self.entries@.len() && self.entries@[j].path@ == q;
                        self.lemma_view_at(j);
                        old(self).lemma_view_at(j);
                    }
                    assert(self@ =~= bumped(old(self)@, p@));
                }
            },
            None => {
                let ghost old_e = self.entries@;
                self.entries.push(PathCount { path: p.to_owned(), count: 1 });
                proof {
                    let n = old_e.len() as int;
                    assert forall|q: Seq<char>| #[trigger] self@.contains_key(q) == bumped(old(self)@, p@).contains_key(q) by {
                        if exists|j: int| 0 <= j < old_e.len() && old_e[j].path@ == q {
                            let j = choose|j: int| 0 <= j < old_e.len() && old_e[j].path@ == q;
                            assert(self.entries@[j].path@ == q);
                        }
                        if exists|j: int| 0 <= j < self.entries@.len() && self.entries@[j].path@ == q {
                            let j = choose|j: int| 0 <= j < self.entries@.len() && self.entries@[j].path@ == q;
                            if j < n {
                                assert(old_e[j].path@ == q);
                            }
                        }
                        assert(self.entries@[n].path@ == p@);
                    }
                    assert forall|q: Seq<char>| self@.contains_key(q) implies #[trigger] self@[q] == bumped(old(self)@, p@)[q] by {
                        let j = choose|j: int| 0 <= j < self.entries@.len() && self.entries@[j].path@ == q;
                        self.lemma_view_at(j);
                        if j < n {
                            old(self).lemma_view_at(j);
                        }
                    }
                    assert(self@ =~= bumped(old(self)@, p@));
                }
            },
        }
    }

    /// Tests a local event at `p` against the book: when a count is kept
    /// for `p`, it goes down by one (and away at zero) and the event is to
    /// be dropped.
    pub fn take(&mut self, p: &str) -> (r: bool)
        requires
            old(self).wf(),
        ensures
            final(self).wf(),
            r == old(self)@.contains_key(p@),
            final(self)@ == taken(old(self)@, p@),
    {
        match self.find(p) {
            None => false,
            Some(i) => {
                proof {
                    self.lemma_view_at(i as int);
                }
                let ghost old_e = self.entries@;
                let c = self.entries[i].count;
                if c > 1 {
                    let path = self.entries[i].path.as_str().to_owned();
                    self.entries.set(i, PathCount { path, count: c - 1 });
                    proof {
                        let m = taken(old(self)@, p@);
                        assert forall|q: Seq<char>| #[trigger] self@.contains_key(q) == m.contains_key(q) by {
                            if exists|j: int| 0 <= j < old_e.len() && old_e[j].path@ == q {
                                let j = choose|j: int| 0 <= j < old_e.len() && old_e[j].path@ == q;
                                assert(self.entries@[j].path@ == q);
                            }
                            if exists|j: int| 0 <= j < self.entries@.len() && self.entries@[j].path@ == q {
                                let j = choose|j: int| 0 <= j < self.entries@.len() && self.entries@[j].path@ == q;
                                assert(old_e[j].path@ == q);
                            }
                        }
                        assert forall|q: Seq<char>| self@.contains_key(q) implies #[trigger] self@[q] == m[q] by {
                            let j = choose|j: int| 0 <= j < self.entries@.len() && self.entries@[j].path@ == q;
                            self.lemma_view_at(j);
                            old(self).lemma_view_at(j);
                        }
                        assert(self@ =~= m);
                    }
                } else {
                    self.entries.remove(i);
                    proof {
                        let m = taken(old(self)@, p@);
                        assert forall|q: Seq<char>| #[trigger] self@.contains_key(q) == m.contains_key(q) by {
                            if exists|j: int| 0 <= j < old_e.len() && old_e[j].path@ == q {
                                let j = choose|j: int| 0 <= j < old_e.len() && old_e[j].path@ == q;
                                if j < i {
                                    assert(self.entries@[j].path@ == q);
                                } else if j > i {
                                    assert(self.entries@[j - 1].path@ == q);
                                }
                            }
                            if exists|j: int| 0 <= j < self.entries@.len() && self.entries@[j].path@ == q {
                                let j = choose|j: int| 0 <= j < self.entries@.len() && self.entries@[j].path@ == q;
                                if j < i {
                                    assert(old_e[j].path@ == q);
                                } else {
                                    assert(old_e[j + 1].path@ == q);
                                }
                            }
                        }
                        assert forall|q: Seq<char>| self@.contains_key(q) implies #[trigger] self@[q] == m[q] by {
                            let j = choose|j: int| 0 <= j < self.entries@.len() && self.entries@[j].path@ == q;
                            self.lemma_view_at(j);
                            if j < i {
                                old(self).lemma_view_at(j);
                            } else {
                                old(self).lemma_view_at(j + 1);
                            }
                        }
                        assert(self@ =~= m);
                    }
                }
                true
            },
        }
    }
}

/// A local write at `p` done for the server raises the count for `p` by
/// exactly one; the local event it causes is then dropped, and the book
/// is back where it was.
pub proof fn law_remote_write_cancels_one_local_event(m: Map<Seq<char>, nat>, p: Seq<char>)
    requires
        counts_positive(m),
    ensures
        count_of(bumped(m, p), p) == count_of(m, p) + 1,
        bumped(m, p).contains_key(p),
        taken(bumped(m, p), p) == m,
{
    if m.contains_key(p) {
        assert(m[p] > 0);
        assert(taken(bumped(m, p), p) =~= m);
    } else {
        assert(taken(bumped(m, p), p) =~= m);
    }
}

/// Remote events that this engine caused by a local change, expected to
/// come back in a later poll.
#[derive(Debug)]
pub struct EchoSet {
    items: Vec<NCEvent>,
}

impl View for EchoSet {
    type V = Set<EventModel>;

    closed spec fn view(&self) -> Set<EventModel> {
        Set::new(|e: EventModel| exists|i: int| 0 <= i < self.items@.len() && self.items@[i]@ == e)
    }
}

/// The events of a poll that are not echoes, and what is left of the set:
/// each echo is dropped once and leaves the set.
pub open spec fn echo_filter(evs: Seq<EventModel>, s: Set<EventModel>) -> (Seq<EventModel>, Set<EventModel>)
    decreases evs.len(),
{
    if evs.len() == 0 {
        (Seq::empty(), s)
    } else if s.contains(evs[0]) {
        echo_filter(evs.drop_first(), s.remove(evs[0]))
    } else {
        let (rest, left) = echo_filter(evs.drop_first(), s);
        (seq![evs[0]] + rest, left)
    }
}

impl EchoSet {
    pub closed spec fn wf(&self) -> bool {
        forall|i: int, j: int|
            0 <= i < self.items@.len() && 0 <= j < self.items@.len() && i != j ==> #[trigger] self.items@[i]@
                != #[trigger] self.items@[j]@
    }

    pub fn new() -> (r: EchoSet)
        ensures
            r.wf(),
            r@ == Set::<EventModel>::empty(),
    {
        let r = EchoSet { items: Vec::new() };
        assert(r@ =~= Set::<EventModel>::empty());
        r
    }

    fn find(&self, e: &NCEvent) -> (r: Option<usize>)
        ensures
            r matches Some(i) ==> i < self.items@.len() && self.items@[i as int]@ == e@,
            r is None ==> !self@.contains(e@),
    {
        let n = self.items.len();
        let mut i: usize = 0;
        while i < n
            invariant
                n == self.items@.len(),
                i <= n,
                forall|j: int| 0 <= j < i ==> self.items@[j]@ != e@,
            decreases n - i,
        {
            if self.items[i].same_as(e) {
                return Some(i);
            }
            i = i + 1;
        }
        None
    }

    pub fn contains(&self, e: &NCEvent) -> (r: bool)
        ensures
            r == self@.contains(e@),
    {
        self.find(e).is_some()
    }

    pub fn len(&self) -> (r: usize)
        requires
            self.wf(),
        ensures
            r == self@.len(),
    {
        proof {
            self.lemma_len();
        }
        self.items.len()
    }

    proof fn lemma_len(&self)
        requires
            self.wf(),
        ensures
            self@.finite(),
            self@.len() == self.items@.len(),
        decreases self.items@.len(),
    {
        let views = self.items@.map_values(|x: NCEvent| x@);
        assert(views.no_duplicates()) by {
            assert forall|i: int, j: int| 0 <= i < views.len() && 0 <= j < views.len() && i != j implies views[i]
                != views[j] by {
                assert(self.items@[i]@ != self.items@[j]@);
            }
        }
        views.unique_seq_to_set();
        assert(views.to_set() =~= self@) by {
            assert forall|e: EventModel| views.to_set().contains(e) == self@.contains(e) by {
                if self@.contains(e) {
                    let i = choose|i: int| 0 <= i < self.items@.len() && self.items@[i]@ == e;
                    assert(views[i] == e);
                }
                if views.to_set().contains(e) {
                    let i = choose|i: int| 0 <= i < views.len() && views[i] == e;
                    assert(self.items@[i]@ == e);
                }
            }
        }
    }

    /// Adds `e`; adding it again changes nothing.
    pub fn insert(&mut self, e: NCEvent)
        requires
            old(self).wf(),
        ensures
            final(self).wf(),
            final(self)@ == old(self)@.insert(e@),
    {
        if self.find(&e).is_some() {
            assert(old(self)@.insert(e@) =~= old(self)@);
            return;
        }
        let ghost old_i = self.items@;
        let ghost em = e@;
        self.items.push(e);
        proof {
            assert forall|x: EventModel| #[trigger] self@.contains(x) == old(self)@.insert(em).contains(x) by {
                if exists|j: int| 0 <= j < old_i.len() && old_i[j]@ == x {
                    let j = choose|j: int| 0 <= j < old_i.len() && old_i[j]@ == x;
                    assert(self.items@[j]@ == x);
                }
                if exists|j: int| 0 <= j < self.items@.len() && self.items@[j]@ == x {
                    let j = choose|j: int| 0 <= j < self.items@.len() && self.items@[j]@ == x;
                    if j < old_i.len() {
                        assert(old_i[j]@ == x);
                    }
                }
                assert(self.items@[old_i.len() as int]@ == em);
            }
            assert(self@ =~= old(self)@.insert(em));
        }
    }

    /// Takes `e` out; whether it was there.
    pub fn remove(&mut self, e: &NCEvent) -> (r: bool)
        requires
            old(self).wf(),
        ensures
            final(self).wf(),
            r == old(self)@.contains(e@),
            final(self)@ == old(self)@.remove(e@),
    {
        match self.find(e) {
            None => {
                assert(old(self)@.remove(e@) =~= old(self)@);
                false
            },
            Some(i) => {
                let ghost old_i = self.items@;
                self.items.remove(i);
                proof {
                    assert forall|x: EventModel| #[trigger] self@.contains(x) == old(self)@.remove(e@).contains(x) by {
                        if exists|j: int| 0 <= j < old_i.len() && old_i[j]@ == x {
                            let j = choose|j: int| 0 <= j < old_i.len() && old_i[j]@ == x;
                            if j < i {
                                assert(self.items@[j]@ == x);
                            } else if j > i {
                                assert(self.items@[j - 1]@ == x);
                            }
                        }
                        if exists|j: int| 0 <= j < self.items@.len() && self.items@[j]@ == x {
                            let j = choose|j: int| 0 <= j < self.items@.len() && self.items@[j]@ == x;
                            if j < i {
                                assert(old_i[j]@ == x);
                                assert(old_i[j]@ != old_i[i as int]@);
                            } else {
                                assert(old_i[j + 1]@ == x);
                                assert(old_i[j + 1]@ != old_i[i as int]@);
                            }
                        }
                    }
                    assert(self@ =~= old(self)@.remove(e@));
                }
                true
            },
        }
    }

    /// Drops from a poll's events those this engine caused, each once,
    /// taking them out of the set.
    pub fn drop_echoes(&mut self, events: Vec<NCEvent>) -> (r: Vec<NCEvent>)
        requires
            old(self).wf(),
        ensures
            final(self).wf(),
            (crate::events::event_views(r@), final(self)@) == echo_filter(
                crate::events::event_views(events@),
                old(self)@,
            ),
    {
        let ghost all = crate::events::event_views(events@);
        let mut out: Vec<NCEvent> = Vec::new();
        let mut i: usize = 0;
        let n = events.len();
        proof {
            assert(all.skip(0) =~= all);
            assert(crate::events::event_views(out@) + echo_filter(all, self@).0 =~= echo_filter(all, self@).0);
        }
        while i < n
            invariant
                n == events@.len(),
                i <= n,
                self.wf(),
                all == crate::events::event_views(events@),
                echo_filter(all, old(self)@).0 == crate::events::event_views(out@) + echo_filter(
                    all.skip(i as int),
                    self@,
                ).0,
                echo_filter(all, old(self)@).1 == echo_filter(all.skip(i as int), self@).1,
            decreases n - i,
        {
            let ghost cur = self@;
            let ghost tail = all.skip(i as int);
            assert(tail[0] == events@[i as int]@);
            assert(tail.drop_first() =~= all.skip(i + 1));
            if self.remove(&events[i]) {
                assert(echo_filter(tail, cur) == echo_filter(tail.drop_first(), cur.remove(tail[0])));
            } else {
                assert(self@ =~= cur);
                let ev = events[i].copy();
                let ghost o = crate::events::event_views(out@);
                out.push(ev);
                proof {
                    assert(crate::events::event_views(out@) =~= o.push(tail[0]));
                    let rest = echo_filter(all.skip(i + 1), self@).0;
                    assert(echo_filter(tail, cur).0 == seq![tail[0]] + rest);
                    assert(echo_filter(tail, cur).1 == echo_filter(all.skip(i + 1), self@).1);
                    assert(o + (seq![tail[0]] + rest) =~= o.push(tail[0]) + rest);
                }
            }
            i = i + 1;
        }
        proof {
            assert(all.skip(n as int) =~= Seq::<EventModel>::empty());
            assert(crate::events::event_views(out@) + Seq::<EventModel>::empty() =~= crate::events::event_views(out@));
        }
        out
    }
}

/// A remote change made for a local event leaves its expected echo in the
/// set; in a later poll, the first event equal to it is dropped and the
/// echo leaves the set, as if neither had been there.
pub proof fn law_local_change_echo_dropped(s: Set<EventModel>, e: EventModel, evs: Seq<EventModel>, k: int)
    requires
        !s.contains(e),
        0 <= k < evs.len(),
        evs[k] == e,
        forall|j: int| 0 <= j < k ==> evs[j] != e,
    ensures
        s.insert(e).contains(e),
        echo_filter(evs, s.insert(e)) == echo_filter(evs.remove(k), s),
    decreases k,
{
    if k == 0 {
        assert(s.insert(e).remove(e) =~= s);
        assert(evs.remove(0) =~= evs.drop_first());
    } else {
        let x = evs[0];
        assert(x != e);
        let rest = evs.drop_first();
        assert(rest[k - 1] == e);
        assert forall|j: int| 0 <= j < k - 1 implies rest[j] != e by {
            assert(rest[j] == evs[j + 1]);
        }
        let r = evs.remove(k);
        assert(r[0] == x);
        assert(r.drop_first() =~= rest.remove(k - 1));
        if s.contains(x) {
            assert(s.insert(e).remove(x) =~= s.remove(x).insert(e));
            law_local_change_echo_dropped(s.remove(x), e, rest, k - 1);
        } else {
            assert(!s.insert(e).contains(x));
            law_local_change_echo_dropped(s, e, rest, k - 1);
        }
    }
}

/// The book after a write at each of `paths`, in order.
pub open spec fn bumped_all(m: Map<Seq<char>, nat>, paths: Seq<Seq<char>>) -> Map<Seq<char>, nat>
    decreases paths.len(),
{
    if paths.len() == 0 {
        m
    } else {
        bumped(bumped_all(m, paths.drop_last()), paths.last())
    }
}

/// Writes done for the server raise the count of each path by exactly the
/// number of writes at that path, and leave other paths alone.
pub proof fn law_writes_counted_per_path(m: Map<Seq<char>, nat>, paths: Seq<Seq<char>>, p: Seq<char>)
    ensures
        count_of(bumped_all(m, paths), p) == count_of(m, p) + paths.filter(|x: Seq<char>| x == p).len(),
    decreases paths.len(),
{
    reveal(Seq::filter);
    if paths.len() > 0 {
        law_writes_counted_per_path(m, paths.drop_last(), p);
        assert(paths.drop_last().push(paths.last()) =~= paths);
    }
}

} // verus!
