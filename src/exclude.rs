//! The exclude filter: regular expressions over path components decide
//! which paths are synchronised.
use vstd::prelude::*;
use crate::paths::{split_slash, split_slash_vec, views};

verus! {

#[verifier::external_type_specification]
#[verifier::external_body]
pub struct ExRegex(regex::Regex);

/// Whether `pattern` is a regular expression that the regex crate accepts.
pub uninterp spec fn regex_compiles(pattern: Seq<char>) -> bool;

/// Whether the regular expression `pattern` matches somewhere in `text`.
pub uninterp spec fn regex_matches(pattern: Seq<char>, text: Seq<char>) -> bool;

/// Relies on regex::Regex::new: it accepts or refuses a pattern by the
/// pattern alone.
#[verifier::external_body]
fn compile_regex(pattern: &str) -> (r: Option<regex::Regex>)
    ensures
        r is Some <==> regex_compiles(pattern@),
{
    regex::Regex::new(pattern).ok()
}

/// A compiled regular expression together with its source.
#[derive(Debug)]
pub struct Pattern {
    source: String,
    re: regex::Regex,
}

impl View for Pattern {
    type V = Seq<char>;

    closed spec fn view(&self) -> Seq<char> {
        self.source@
    }
}

/// Relies on regex::Regex::is_match: whether the pattern matches somewhere
/// in the text. A `Pattern` is only made from its source by `Pattern::new`.
#[verifier::external_body]
fn regex_is_match(p: &Pattern, text: &str) -> (r: bool)
    ensures
        r == regex_matches(p@, text@),
{
    p.re.is_match(text)
}

impl Pattern {
    /// Compiles `source`; `None` when the regex crate refuses it.
    pub fn new(source: &str) -> (r: Option<Pattern>)
        ensures
            r is Some <==> regex_compiles(source@),
            r matches Some(p) ==> p@ == source@,
    {
        match compile_regex(source) {
            Some(re) => Some(Pattern { source: source.to_owned(), re }),
            None => None,
        }
    }

    pub fn source(&self) -> (r: String)
        ensures
            r@ == self@,
    {
        self.source.as_str().to_owned()
    }

    pub fn is_match(&self, text: &str) -> (r: bool)
        ensures
            r == regex_matches(self@, text@),
    {
        regex_is_match(self, text)
    }
}

pub open spec fn pattern_views(v: Seq<Pattern>) -> Seq<Seq<char>> {
    v.map_values(|p: Pattern| p@)
}

/// The components of a Unix path, as `Path::components` gives them: `/`
/// for a leading root, a leading `.`, and every other segment that is
/// neither empty nor `.`.
pub open spec fn path_components(p: Seq<char>) -> Seq<Seq<char>> {
    let segs = split_slash(p);
    let root: Seq<Seq<char>> = if segs[0].len() == 0 && p.len() > 0 {
        seq![seq!['/']]
    } else if segs[0] == seq!['.'] && segs.len() > 1 || p == seq!['.'] {
        seq![seq!['.']]
    } else {
        Seq::empty()
    };
    root + segs.filter(|s: Seq<char>| s.len() > 0 && s != seq!['.'])
}

/// The black patterns that always apply: a component that starts with `.` or `~`.
pub open spec fn default_black(c: Seq<char>) -> bool {
    c.len() > 0 && (c[0] == '.' || c[0] == '~')
}

/// A component is kept when a white pattern matches it, or else when no
/// black pattern does.
pub open spec fn component_kept(whites: Seq<Seq<char>>, blacks: Seq<Seq<char>>, c: Seq<char>) -> bool {
    (exists|i: int| 0 <= i < whites.len() && regex_matches(whites[i], c)) || !((exists|i: int|
        0 <= i < blacks.len() && regex_matches(blacks[i], c)) || default_black(c))
}

pub open spec fn judged(whites: Seq<Seq<char>>, blacks: Seq<Seq<char>>, comps: Seq<Seq<char>>) -> bool {
    forall|k: int| 0 <= k < comps.len() ==> component_kept(whites, blacks, #[trigger] comps[k])
}

/// The sources that compile, in order.
pub open spec fn compiled_sources(v: Seq<Seq<char>>) -> Seq<Seq<char>> {
    v.filter(|s: Seq<char>| regex_compiles(s))
}

fn is_dot(s: &String) -> (r: bool)
    ensures
        r == (s@ == seq!['.']),
{
    let n = s.as_str().unicode_len();
    let r = n == 1 && s.as_str().get_char(0) == '.';
    proof {
        if r {
            assert(s@ =~= seq!['.']);
        }
    }
    r
}

/// Splits a path into its components.
pub fn components(p: &str) -> (r: Vec<String>)
    ensures
        views(r@) == path_components(p@),
{
    let segs = split_slash_vec(p);
    proof {
        crate::paths::lemma_split_slash_nonempty(p@);
    }
    let ghost sv = views(segs@);
    let mut out: Vec<String> = Vec::new();
    let n = p.unicode_len();
    assert(sv[0] == segs@[0]@);
    if segs[0].as_str().unicode_len() == 0 && n > 0 {
        out.push(String::from_str(slash_text()));
    } else if (is_dot(&segs[0]) && segs.len() > 1) || (n == 1 && p.get_char(0) == '.') {
        out.push(String::from_str(dot_text()));
        proof {
            if n == 1 && p@[0] == '.' {
                assert(p@ =~= seq!['.']);
            }
        }
    } else {
        proof {
            if p@ == seq!['.'] {
                assert(p@.len() == 1 && p@[0] == '.');
            }
        }
    }
    let ghost root = views(out@);
    let mut i: usize = 0;
    while i < segs.len()
        invariant
            i <= segs@.len(),
            sv == views(segs@),
            views(out@) == root + sv.take(i as int).filter(|s: Seq<char>| s.len() > 0 && s != seq!['.']),
        decreases segs@.len() - i,
    {
        let ghost o = views(out@);
        proof {
            let t = sv.take(i + 1);
            assert(t.drop_last() =~= sv.take(i as int));
            assert(t.last() == segs@[i as int]@);
            assert(t.filter(|s: Seq<char>| s.len() > 0 && s != seq!['.']) == sv.take(i as int).filter(
                |s: Seq<char>| s.len() > 0 && s != seq!['.'],
            ) + if segs@[i as int]@.len() > 0 && segs@[i as int]@ != seq!['.'] {
                seq![segs@[i as int]@]
            } else {
                Seq::empty()
            }) by {
                reveal(Seq::filter);
            }
        }
        if segs[i].as_str().unicode_len() > 0 && !is_dot(&segs[i]) {
            out.push(segs[i].as_str().to_owned());
            proof {
                assert(views(out@) =~= o.push(segs@[i as int]@));
            }
        } else {
            proof {
                assert(o + Seq::<Seq<char>>::empty() =~= o);
            }
        }
        proof {
            assert(views(out@) =~= root + sv.take(i + 1).filter(|s: Seq<char>| s.len() > 0 && s != seq!['.']));
        }
        i = i + 1;
    }
    assert(sv.take(segs@.len() as int) =~= sv);
    out
}

fn slash_text() -> (r: &'static str)
    ensures
        r@ == seq!['/'],
{
    let r = "/";
    proof {
        reveal_strlit("/");
    }
    r
}

fn dot_text() -> (r: &'static str)
    ensures
        r@ == seq!['.'],
{
    let r = ".";
    proof {
        reveal_strlit(".");
    }
    r
}

/// The white and black patterns of the exclude filter.
#[derive(Debug)]
pub struct ExcludeChecker {
    blacks: Vec<Pattern>,
    whites: Vec<Pattern>,
}

fn compile_all(sources: &Vec<String>) -> (r: Vec<Pattern>)
    ensures
        pattern_views(r@) == compiled_sources(views(sources@)),
{
    let mut out: Vec<Pattern> = Vec::new();
    let mut i: usize = 0;
    while i < sources.len()
        invariant
            i <= sources@.len(),
            pattern_views(out@) == compiled_sources(views(sources@).take(i as int)),
        decreases sources@.len() - i,
    {
        let ghost o = pattern_views(out@);
        proof {
            let t = views(sources@).take(i + 1);
            assert(t.drop_last() =~= views(sources@).take(i as int));
            assert(t.last() == sources@[i as int]@);
            reveal(Seq::filter);
        }
        match Pattern::new(sources[i].as_str()) {
            Some(p) => {
                out.push(p);
                proof {
                    assert(pattern_views(out@) =~= o.push(sources@[i as int]@));
                }
            },
            None => {
                assert(o + Seq::<Seq<char>>::empty() =~= o);
            },
        }
        i = i + 1;
    }
    assert(views(sources@).take(sources@.len() as int) =~= views(sources@));
    out
}

impl ExcludeChecker {
    pub closed spec fn black_sources(&self) -> Seq<Seq<char>> {
        pattern_views(self.blacks@)
    }

    pub closed spec fn white_sources(&self) -> Seq<Seq<char>> {
        pattern_views(self.whites@)
    }

    /// A filter from the pattern lists of an exclude file; a pattern that
    /// does not compile is left out.
    pub fn new(blacks: &Vec<String>, whites: &Vec<String>) -> (r: ExcludeChecker)
        ensures
            r.black_sources() == compiled_sources(views(blacks@)),
            r.white_sources() == compiled_sources(views(whites@)),
    {
        ExcludeChecker { blacks: compile_all(blacks), whites: compile_all(whites) }
    }

    fn any_match(pats: &Vec<Pattern>, c: &str) -> (r: bool)
        ensures
            r == exists|i: int| 0 <= i < pats@.len() && regex_matches(pattern_views(pats@)[i], c@),
    {
        let mut i: usize = 0;
        while i < pats.len()
            invariant
                i <= pats@.len(),
                forall|j: int| 0 <= j < i ==> !regex_matches(pattern_views(pats@)[j], c@),
            decreases pats@.len() - i,
        {
            if pats[i].is_match(c) {
                assert(pattern_views(pats@)[i as int] == pats@[i as int]@);
                return true;
            }
            assert(pattern_views(pats@)[i as int] == pats@[i as int]@);
            i = i + 1;
        }
        false
    }

    /// Whether one path component is kept.
    pub fn keeps_component(&self, c: &str) -> (r: bool)
        ensures
            r == component_kept(self.white_sources(), self.black_sources(), c@),
    {
        if Self::any_match(&self.whites, c) {
            return true;
        }
        let n = c.unicode_len();
        let default = n > 0 && (c.get_char(0) == '.' || c.get_char(0) == '~');
        !(Self::any_match(&self.blacks, c) || default)
    }

    /// Whether `p` is synchronised: every component is kept.
    pub fn judge(&self, p: &str) -> (r: bool)
        ensures
            r == judged(self.white_sources(), self.black_sources(), path_components(p@)),
    {
        let comps = components(p);
        let mut i: usize = 0;
        while i < comps.len()
            invariant
                i <= comps@.len(),
                views(comps@) == path_components(p@),
                forall|k: int|
                    0 <= k < i ==> component_kept(self.white_sources(), self.black_sources(), #[trigger] views(comps@)[k]),
            decreases comps@.len() - i,
        {
            assert(views(comps@)[i as int] == comps@[i as int]@);
            if !self.keeps_component(comps[i].as_str()) {
                return false;
            }
            i = i + 1;
        }
        true
    }
}

} // verus!
