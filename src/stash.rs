//! Names of stashed copies: `<stem>_<stamp>[.<ext>]`.
use vstd::prelude::*;

verus! {

/// Where the last `.` of `s` stands, or -1.
pub open spec fn last_dot(s: Seq<char>) -> int
    decreases s.len(),
{
    if s.len() == 0 {
        -1
    } else if s.last() == '.' {
        s.len() - 1
    } else {
        last_dot(s.drop_last())
    }
}

/// The stem and the extension of a file name, as `Path::file_stem` and
/// `Path::extension` give them: split at the last `.` unless that is the
/// first character.
pub open spec fn stem_and_ext(name: Seq<char>) -> (Seq<char>, Option<Seq<char>>) {
    let i = last_dot(name);
    if i <= 0 {
        (name, None)
    } else {
        (name.take(i), Some(name.skip(i + 1)))
    }
}

/// The name of the stashed copy of `name` made at `stamp`; none for an
/// empty name, `.` or `..`.
pub open spec fn stash_name_of(name: Seq<char>, stamp: Seq<char>) -> Option<Seq<char>> {
    if name.len() == 0 || name == seq!['.'] || name == seq!['.', '.'] {
        None
    } else {
        let (stem, ext) = stem_and_ext(name);
        Some(
            stem + seq!['_'] + stamp + match ext {
                Some(e) => seq!['.'] + e,
                None => Seq::empty(),
            },
        )
    }
}

proof fn lemma_last_dot_range(s: Seq<char>)
    ensures
        -1 <= last_dot(s) < s.len(),
        last_dot(s) >= 0 ==> s[last_dot(s)] == '.',
    decreases s.len(),
{
    if s.len() > 0 {
        lemma_last_dot_range(s.drop_last());
    }
}

fn find_last_dot(s: &str) -> (r: Option<usize>)
    ensures
        r matches Some(i) ==> i as int == last_dot(s@),
        r is None ==> last_dot(s@) == -1,
{
    let n = s.unicode_len();
    let mut found: Option<usize> = None;
    let mut i: usize = 0;
    while i < n
        invariant
            n == s@.len(),
            i <= n,
            found matches Some(k) ==> k as int == last_dot(s@.subrange(0, i as int)),
            found is None ==> last_dot(s@.subrange(0, i as int)) == -1,
        decreases n - i,
    {
        let c = s.get_char(i);
        let ghost t = s@.subrange(0, i + 1);
        assert(t.drop_last() =~= s@.subrange(0, i as int));
        assert(t.last() == c);
        if c == '.' {
            found = Some(i);
        }
        i = i + 1;
    }
    assert(s@.subrange(0, n as int) =~= s@);
    found
}

/// The name for the stashed copy of the file or directory `name`, made at
/// `stamp`.
pub fn stash_file_name(name: &str, stamp: &str) -> (r: Option<String>)
    ensures
        crate::events::opt_text(r) == stash_name_of(name@, stamp@),
{
    let n = name.unicode_len();
    let dot = n == 1 && name.get_char(0) == '.';
    let dots = n == 2 && name.get_char(0) == '.' && name.get_char(1) == '.';
    proof {
        if name@ == seq!['.'] {
            assert(name@[0] == '.');
        }
        if name@ == seq!['.', '.'] {
            assert(name@[0] == '.' && name@[1] == '.');
        }
        if dot {
            assert(name@ =~= seq!['.']);
        }
        if dots {
            assert(name@ =~= seq!['.', '.']);
        }
    }
    if n == 0 || dot || dots {
        return None;
    }
    proof {
        lemma_last_dot_range(name@);
    }
    let (stem, ext) = match find_last_dot(name) {
        Some(i) if i > 0 => (name.substring_char(0, i).to_owned(), Some(name.substring_char(i + 1, n).to_owned())),
        _ => (name.to_owned(), None),
    };
    let mut r = stem;
    r.append("_");
    r.append(stamp);
    proof {
        reveal_strlit("_");
        reveal_strlit(".");
    }
    match ext {
        Some(e) => {
            r.append(".");
            r.append(e.as_str());
        },
        None => {},
    }
    proof {
        let (st, ex) = stem_and_ext(name@);
        let expected = st + seq!['_'] + stamp@ + match ex {
            Some(e) => seq!['.'] + e,
            None => Seq::empty(),
        };
        assert(r@ =~= expected);
    }
    Some(r)
}

/// A name of a dated auto-stash directory: eight ASCII digits.
pub open spec fn is_day_stamp(name: Seq<char>) -> bool {
    name.len() == 8 && forall|i: int| 0 <= i < 8 ==> '0' <= #[trigger] name[i] && name[i] <= '9'
}

/// Whether the auto-stash directory `name`, for day number `day` (when the
/// name reads as a date), is older than `keep_days` on day `today`.
pub fn stash_day_expired(name: &str, day: Option<i32>, today: i32, keep_days: i32) -> (r: bool)
    ensures
        r == (is_day_stamp(name@) && (day matches Some(d) && today as int - d as int > keep_days as int)),
{
    let n = name.unicode_len();
    if n != 8 {
        return false;
    }
    let mut i: usize = 0;
    while i < 8
        invariant
            n == 8,
            name@.len() == 8,
            i <= 8,
            forall|j: int| 0 <= j < i ==> '0' <= #[trigger] name@[j] && name@[j] <= '9',
        decreases 8 - i,
    {
        let c = name.get_char(i);
        if !('0' <= c && c <= '9') {
            return false;
        }
        i = i + 1;
    }
    match day {
        Some(d) => (today as i64) - (d as i64) > keep_days as i64,
        None => false,
    }
}

} // verus!
