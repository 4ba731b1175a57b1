//! Reading activity-log elements from a plain XML node tree: which paths
//! an element lists under its `file*`, `newfile*` and `oldfile*` tags, and
//! which kind of activity it reports.
use vstd::prelude::*;
use crate::events::{activity_of, activity_type_of, starts_with, tag_kind, ActivityType, PathTag};
use crate::paths::views;

verus! {

broadcast use vstd::std_specs::vec::group_vec_axioms;

/// An XML element: its tag name, its text, and its child elements in order.
#[derive(Debug)]
pub struct XmlNode {
    pub tag: String,
    pub text: Option<String>,
    pub children: Vec<XmlNode>,
}

pub ghost struct XmlModel {
    pub tag: Seq<char>,
    pub text: Option<Seq<char>>,
    pub children: Seq<XmlModel>,
}

pub open spec fn xml_model(n: XmlNode) -> XmlModel
    decreases n,
{
    XmlModel {
        tag: n.tag@,
        text: crate::events::opt_text(n.text),
        children: Seq::new(
            n.children@.len(),
            |i: int|
                if 0 <= i < n.children@.len() {
                    xml_model(n.children@[i])
                } else {
                    XmlModel { tag: Seq::empty(), text: None, children: Seq::empty() }
                },
        ),
    }
}

impl View for XmlNode {
    type V = XmlModel;

    open spec fn view(&self) -> XmlModel {
        xml_model(*self)
    }
}

pub open spec fn text_or_empty(t: Option<Seq<char>>) -> Seq<char> {
    match t {
        Some(s) => s,
        None => Seq::empty(),
    }
}

/// The texts of the `path` elements at and under `n`, in document order.
pub open spec fn paths_in(n: XmlModel) -> Seq<Seq<char>>
    decreases n,
{
    (if n.tag == "path"@ {
        seq![text_or_empty(n.text)]
    } else {
        Seq::empty()
    }) + paths_in_all(n.children)
}

pub open spec fn paths_in_all(cs: Seq<XmlModel>) -> Seq<Seq<char>>
    decreases cs,
{
    if cs.len() == 0 {
        Seq::empty()
    } else {
        paths_in_all(cs.subrange(0, cs.len() - 1)) + paths_in(cs[cs.len() - 1])
    }
}

/// The list a tag feeds, tested in the order `file`, `newfile`, `oldfile`.
pub open spec fn tag_kind_of(tag: Seq<char>) -> Option<PathTag> {
    if starts_with(tag, "file"@) {
        Some(PathTag::File)
    } else if starts_with(tag, "newfile"@) {
        Some(PathTag::NewFile)
    } else if starts_with(tag, "oldfile"@) {
        Some(PathTag::OldFile)
    } else {
        None
    }
}

/// For every element at and under `n` (document order) whose tag feeds
/// list `k`, the paths under it. A tagged element inside another one
/// contributes its paths once more.
pub open spec fn tagged_paths(n: XmlModel, k: PathTag) -> Seq<Seq<char>>
    decreases n,
{
    (if tag_kind_of(n.tag) == Some(k) {
        paths_in(n)
    } else {
        Seq::empty()
    }) + tagged_all(n.children, k)
}

pub open spec fn tagged_all(cs: Seq<XmlModel>, k: PathTag) -> Seq<Seq<char>>
    decreases cs,
{
    if cs.len() == 0 {
        Seq::empty()
    } else {
        tagged_all(cs.subrange(0, cs.len() - 1), k) + tagged_paths(cs[cs.len() - 1], k)
    }
}

/// The kind given by the last `type` child of an element.
pub open spec fn element_kind_of(cs: Seq<XmlModel>) -> Option<ActivityType>
    decreases cs.len(),
{
    if cs.len() == 0 {
        None
    } else if cs.last().tag == "type"@ {
        match cs.last().text {
            Some(t) => activity_of(t),
            None => None,
        }
    } else {
        element_kind_of(cs.drop_last())
    }
}

/// Whether the element has the tag `t`.
pub fn tag_is(n: &XmlNode, t: &str) -> (r: bool)
    ensures
        r == (n@.tag == t@),
{
    let a = n.tag.as_str().to_owned();
    let b = t.to_owned();
    a == b
}

proof fn lemma_child(n: XmlNode, i: int)
    requires
        0 <= i < n.children@.len(),
    ensures
        n@.children.len() == n.children@.len(),
        n@.children[i] == n.children@[i]@,
        decreases_to!(n@ => n@.children[i]),
{
    vstd::seq::axiom_seq_index_decreases(n@.children, i);
}

fn collect_paths(n: &XmlNode, out: &mut Vec<String>)
    ensures
        views(final(out)@) == views(old(out)@) + paths_in(n@),
    decreases n@,
{
    let ghost base = views(out@);
    if tag_is(n, "path") {
        let t = match &n.text {
            Some(t) => t.as_str().to_owned(),
            None => String::new(),
        };
        out.push(t);
    }
    let ghost head = views(out@);
    assert(head =~= base + (if n@.tag == "path"@ {
        seq![text_or_empty(n@.text)]
    } else {
        Seq::<Seq<char>>::empty()
    }));
    let ghost cs = n@.children;
    assert(cs.subrange(0, 0) =~= Seq::<XmlModel>::empty());
    assert(views(out@) =~= head + paths_in_all(cs.subrange(0, 0)));
    let mut i: usize = 0;
    while i < n.children.len()
        invariant
            cs == n@.children,
            cs.len() == n.children@.len(),
            i <= cs.len(),
            views(out@) == head + paths_in_all(cs.subrange(0, i as int)),
        decreases cs.len() - i,
    {
        proof {
            lemma_child(*n, i as int);
        }
        collect_paths(&n.children[i], out);
        proof {
            let t = cs.subrange(0, i + 1);
            assert(t.subrange(0, t.len() - 1) =~= cs.subrange(0, i as int));
            assert(views(out@) =~= head + paths_in_all(t));
        }
        i = i + 1;
    }
    assert(cs.subrange(0, cs.len() as int) =~= cs);
}

fn collect_tagged(n: &XmlNode, k: PathTag, out: &mut Vec<String>)
    ensures
        views(final(out)@) == views(old(out)@) + tagged_paths(n@, k),
    decreases n@,
{
    let ghost base = views(out@);
    if tag_kind(n.tag.as_str()) == Some(k) {
        collect_paths(n, out);
    }
    let ghost head = views(out@);
    assert(head =~= base + (if tag_kind_of(n@.tag) == Some(k) {
        paths_in(n@)
    } else {
        Seq::<Seq<char>>::empty()
    }));
    let ghost cs = n@.children;
    assert(cs.subrange(0, 0) =~= Seq::<XmlModel>::empty());
    assert(views(out@) =~= head + tagged_all(cs.subrange(0, 0), k));
    let mut i: usize = 0;
    while i < n.children.len()
        invariant
            cs == n@.children,
            cs.len() == n.children@.len(),
            i <= cs.len(),
            views(out@) == head + tagged_all(cs.subrange(0, i as int), k),
        decreases cs.len() - i,
    {
        proof {
            lemma_child(*n, i as int);
        }
        collect_tagged(&n.children[i], k, out);
        proof {
            let t = cs.subrange(0, i + 1);
            assert(t.subrange(0, t.len() - 1) =~= cs.subrange(0, i as int));
            assert(views(out@) =~= head + tagged_all(t, k));
        }
        i = i + 1;
    }
    assert(cs.subrange(0, cs.len() as int) =~= cs);
}

/// The paths an activity element lists under its `file*`, `newfile*` and
/// `oldfile*` tags.
pub fn element_paths(n: &XmlNode) -> (r: (Vec<String>, Vec<String>, Vec<String>))
    ensures
        views(r.0@) == tagged_paths(n@, PathTag::File),
        views(r.1@) == tagged_paths(n@, PathTag::NewFile),
        views(r.2@) == tagged_paths(n@, PathTag::OldFile),
{
    let mut files: Vec<String> = Vec::new();
    let mut new_files: Vec<String> = Vec::new();
    let mut old_files: Vec<String> = Vec::new();
    assert(views(files@) =~= Seq::<Seq<char>>::empty());
    collect_tagged(n, PathTag::File, &mut files);
    collect_tagged(n, PathTag::NewFile, &mut new_files);
    collect_tagged(n, PathTag::OldFile, &mut old_files);
    assert(views(files@) =~= tagged_paths(n@, PathTag::File));
    assert(views(new_files@) =~= tagged_paths(n@, PathTag::NewFile));
    assert(views(old_files@) =~= tagged_paths(n@, PathTag::OldFile));
    (files, new_files, old_files)
}

/// The kind of activity an element reports: the one its last `type`
/// child names, if any.
pub fn element_kind(n: &XmlNode) -> (r: Option<ActivityType>)
    ensures
        r == element_kind_of(n@.children),
{
    let ghost cs = n@.children;
    let mut i = n.children.len();
    assert(cs.subrange(0, cs.len() as int) =~= cs);
    while i > 0
        invariant
            cs == n@.children,
            cs.len() == n.children@.len(),
            i <= cs.len(),
            element_kind_of(cs) == element_kind_of(cs.subrange(0, i as int)),
        decreases i,
    {
        proof {
            lemma_child(*n, i - 1);
            let t = cs.subrange(0, i as int);
            assert(t.drop_last() =~= cs.subrange(0, i - 1));
            assert(t.last() == cs[i - 1]);
        }
        let c = &n.children[i - 1];
        if tag_is(c, "type") {
            return match &c.text {
                Some(t) => activity_type_of(t.as_str()),
                None => None,
            };
        }
        i = i - 1;
    }
    assert(cs.subrange(0, 0) =~= Seq::<XmlModel>::empty());
    None
}

/// The `data` child of an activity-log answer: the first one.
pub fn data_child(root: &XmlNode) -> (r: Option<&XmlNode>)
    ensures
        r matches Some(d) ==> exists|i: int|
            0 <= i < root@.children.len() && root@.children[i] == d@ && d@.tag == "data"@ && forall|j: int|
                0 <= j < i ==> root@.children[j].tag != "data"@,
        r is None ==> forall|j: int| 0 <= j < root@.children.len() ==> root@.children[j].tag != "data"@,
{
    let mut i: usize = 0;
    while i < root.children.len()
        invariant
            i <= root.children@.len(),
            root@.children.len() == root.children@.len(),
            forall|j: int| 0 <= j < i ==> root@.children[j].tag != "data"@,
        decreases root.children@.len() - i,
    {
        proof {
            lemma_child(*root, i as int);
        }
        if tag_is(&root.children[i], "data") {
            return Some(&root.children[i]);
        }
        i = i + 1;
    }
    None
}

/// `n` and every element under it, in document order.
pub open spec fn preorder(n: XmlModel) -> Seq<XmlModel>
    decreases n,
{
    seq![n] + preorder_all(n.children)
}

pub open spec fn preorder_all(cs: Seq<XmlModel>) -> Seq<XmlModel>
    decreases cs,
{
    if cs.len() == 0 {
        Seq::empty()
    } else {
        preorder_all(cs.subrange(0, cs.len() - 1)) + preorder(cs[cs.len() - 1])
    }
}

/// The text of the last element of `seq` with tag `tag`; `None` when there
/// is no such element.
pub open spec fn last_text(seq: Seq<XmlModel>, tag: Seq<char>) -> Option<Option<Seq<char>>>
    decreases seq.len(),
{
    if seq.len() == 0 {
        None
    } else if seq.last().tag == tag {
        Some(seq.last().text)
    } else {
        last_text(seq.drop_last(), tag)
    }
}

pub open spec fn later(a: Option<Option<Seq<char>>>, b: Option<Option<Seq<char>>>) -> Option<Option<Seq<char>>> {
    if b is Some {
        b
    } else {
        a
    }
}

pub proof fn lemma_last_text_concat(a: Seq<XmlModel>, b: Seq<XmlModel>, tag: Seq<char>)
    ensures
        last_text(a + b, tag) == later(last_text(a, tag), last_text(b, tag)),
    decreases b.len(),
{
    if b.len() == 0 {
        assert(a + b =~= a);
    } else {
        assert((a + b).drop_last() =~= a + b.drop_last());
        assert((a + b).last() == b.last());
        lemma_last_text_concat(a, b.drop_last(), tag);
    }
}

/// The elements under the `propstat` children of a response, in document order.
pub open spec fn prop_elements(cs: Seq<XmlModel>) -> Seq<XmlModel>
    decreases cs.len(),
{
    if cs.len() == 0 {
        Seq::empty()
    } else {
        prop_elements(cs.drop_last()) + if cs.last().tag == "propstat"@ {
            preorder(cs.last())
        } else {
            Seq::empty()
        }
    }
}

/// The texts a response gives: its last `href` with text, and the texts of
/// the last `getetag` and `getcontenttype` under its `propstat` children.
#[derive(Debug)]
pub struct ResponseTexts {
    pub href: Option<String>,
    pub etag: Option<String>,
    pub content_type: Option<String>,
}

/// The last child of `cs` with tag `href` and a text: that text.
pub open spec fn last_href(cs: Seq<XmlModel>) -> Option<Seq<char>>
    decreases cs.len(),
{
    if cs.len() == 0 {
        None
    } else if cs.last().tag == "href"@ && cs.last().text is Some {
        cs.last().text
    } else {
        last_href(cs.drop_last())
    }
}

pub open spec fn flat(o: Option<Option<Seq<char>>>) -> Option<Seq<char>> {
    match o {
        Some(t) => t,
        None => None,
    }
}

/// A content type element that is present reads as its text, or as the
/// empty text when it has none.
pub open spec fn present_text(o: Option<Option<Seq<char>>>) -> Option<Seq<char>> {
    match o {
        Some(t) => Some(text_or_empty(t)),
        None => None,
    }
}

fn text_copy(t: &Option<String>) -> (r: Option<String>)
    ensures
        crate::events::opt_text(r) == crate::events::opt_text(*t),
{
    match t {
        Some(s) => Some(s.as_str().to_owned()),
        None => None,
    }
}

/// Scans `n` and everything under it, in document order, keeping the text
/// of the last `getetag` and `getcontenttype` seen.
fn scan_props(n: &XmlNode, etag: &mut Option<Option<String>>, ctype: &mut Option<Option<String>>)
    ensures
        opt_opt(*final(etag)) == later(opt_opt(*old(etag)), last_text(preorder(n@), "getetag"@)),
        opt_opt(*final(ctype)) == later(opt_opt(*old(ctype)), last_text(preorder(n@), "getcontenttype"@)),
    decreases n@,
{
    let ghost e0 = opt_opt(*etag);
    let ghost c0 = opt_opt(*ctype);
    if tag_is(n, "getetag") {
        *etag = Some(text_copy(&n.text));
    }
    if tag_is(n, "getcontenttype") {
        *ctype = Some(text_copy(&n.text));
    }
    let ghost cs = n@.children;
    proof {
        assert(seq![n@].drop_last() =~= Seq::<XmlModel>::empty());
        assert(seq![n@].last() == n@);
        assert(last_text(seq![n@], "getetag"@) == if n@.tag == "getetag"@ {
            Some(n@.text)
        } else {
            last_text(Seq::<XmlModel>::empty(), "getetag"@)
        });
        assert(last_text(seq![n@], "getcontenttype"@) == if n@.tag == "getcontenttype"@ {
            Some(n@.text)
        } else {
            last_text(Seq::<XmlModel>::empty(), "getcontenttype"@)
        });
        assert(cs.subrange(0, 0) =~= Seq::<XmlModel>::empty());
        assert(seq![n@] + preorder_all(cs.subrange(0, 0)) =~= seq![n@]);
    }
    let mut i: usize = 0;
    while i < n.children.len()
        invariant
            cs == n@.children,
            cs.len() == n.children@.len(),
            i <= cs.len(),
            opt_opt(*etag) == later(e0, last_text(seq![n@] + preorder_all(cs.subrange(0, i as int)), "getetag"@)),
            opt_opt(*ctype) == later(
                c0,
                last_text(seq![n@] + preorder_all(cs.subrange(0, i as int)), "getcontenttype"@),
            ),
        decreases cs.len() - i,
    {
        proof {
            lemma_child(*n, i as int);
        }
        scan_props(&n.children[i], etag, ctype);
        proof {
            let t = cs.subrange(0, i + 1);
            let a = seq![n@] + preorder_all(cs.subrange(0, i as int));
            assert(t.subrange(0, t.len() - 1) =~= cs.subrange(0, i as int));
            assert(seq![n@] + preorder_all(t) =~= a + preorder(cs[i as int]));
            lemma_last_text_concat(a, preorder(cs[i as int]), "getetag"@);
            lemma_last_text_concat(a, preorder(cs[i as int]), "getcontenttype"@);
        }
        i = i + 1;
    }
    assert(cs.subrange(0, cs.len() as int) =~= cs);
}

pub open spec fn opt_opt(o: Option<Option<String>>) -> Option<Option<Seq<char>>> {
    match o {
        Some(t) => Some(crate::events::opt_text(t)),
        None => None,
    }
}

/// The texts of one `response` element of a WebDAV listing.
pub fn response_texts(n: &XmlNode) -> (r: ResponseTexts)
    ensures
        crate::events::opt_text(r.href) == last_href(n@.children),
        crate::events::opt_text(r.etag) == flat(last_text(prop_elements(n@.children), "getetag"@)),
        crate::events::opt_text(r.content_type) == present_text(
            last_text(prop_elements(n@.children), "getcontenttype"@),
        ),
{
    let ghost cs = n@.children;
    let mut href: Option<String> = None;
    let mut etag: Option<Option<String>> = None;
    let mut ctype: Option<Option<String>> = None;
    let mut i: usize = 0;
    while i < n.children.len()
        invariant
            cs == n@.children,
            cs.len() == n.children@.len(),
            i <= cs.len(),
            crate::events::opt_text(href) == last_href(cs.subrange(0, i as int)),
            opt_opt(etag) == last_text(prop_elements(cs.subrange(0, i as int)), "getetag"@),
            opt_opt(ctype) == last_text(prop_elements(cs.subrange(0, i as int)), "getcontenttype"@),
        decreases cs.len() - i,
    {
        proof {
            lemma_child(*n, i as int);
        }
        let c = &n.children[i];
        let ghost t = cs.subrange(0, i + 1);
        assert(t.drop_last() =~= cs.subrange(0, i as int));
        assert(t.last() == c@);
        if tag_is(c, "href") && c.text.is_some() {
            href = text_copy(&c.text);
        }
        let ghost before = prop_elements(cs.subrange(0, i as int));
        if tag_is(c, "propstat") {
            scan_props(c, &mut etag, &mut ctype);
            proof {
                lemma_last_text_concat(before, preorder(c@), "getetag"@);
                lemma_last_text_concat(before, preorder(c@), "getcontenttype"@);
            }
        } else {
            assert(before + Seq::<XmlModel>::empty() =~= before);
        }
        i = i + 1;
    }
    assert(cs.subrange(0, cs.len() as int) =~= cs);
    let etag_text = match etag {
        Some(t) => t,
        None => None,
    };
    let ctype_text = match ctype {
        Some(Some(t)) => Some(t),
        Some(None) => Some(String::new()),
        None => None,
    };
    ResponseTexts { href, etag: etag_text, content_type: ctype_text }
}

} // verus!
