//! Reading one `response` of a WebDAV listing: the path below the user's
//! root, the etag without quotes, and whether it is a file.
use vstd::prelude::*;
use crate::entry::{Entry, EntryModel, EntryStatus, EntryType, TypeModel};
use crate::events::opt_text;
use crate::paths::{name_of_path, path2name, replace_all, replaced_all, without_last_slash};

verus! {

/// `s` with every occurrence of `pat`, found left to right without
/// overlap, taken out.
pub open spec fn removed_all(s: Seq<char>, pat: Seq<char>) -> Seq<char> {
    replaced_all(s, pat, Seq::empty())
}

fn remove_all(s: &str, pat: &str) -> (r: String)
    ensures
        r@ == removed_all(s@, pat@),
{
    let none = "";
    proof {
        reveal_strlit("");
        assert(none@ =~= Seq::<char>::empty());
    }
    replace_all(s, pat, none)
}

/// The text that `urlencoding::decode` gives for `s`, `None` when the
/// decoded bytes are not UTF-8.
pub uninterp spec fn url_decoded(s: Seq<char>) -> Option<Seq<char>>;

/// Relies on urlencoding::decode: percent escapes are decoded; a text
/// without `%` comes back as it is.
#[verifier::external_body]
fn url_decode(s: &str) -> (r: Option<String>)
    ensures
        opt_text(r) == url_decoded(s@),
        !s@.contains('%') ==> opt_text(r) == Some(s@),
{
    urlencoding::decode(s).ok().map(|c| c.into_owned())
}

/// The path of a response: the href without the user's root path,
/// percent-decoded.
pub open spec fn href_path_of(href: Seq<char>, root_path: Seq<char>) -> Option<Seq<char>> {
    url_decoded(removed_all(href, root_path))
}

pub fn href_path(href: &str, root_path: &str) -> (r: Option<String>)
    ensures
        opt_text(r) == href_path_of(href@, root_path@),
{
    let rel = remove_all(href, root_path);
    url_decode(rel.as_str())
}

/// An etag without its quotes.
pub fn strip_quotes(s: &str) -> (r: String)
    ensures
        r@ == removed_all(s@, seq!['"']),
{
    let q = "\"";
    proof {
        reveal_strlit("\"");
        assert(q@ =~= seq!['"']);
    }
    remove_all(s, q)
}

/// A response lists a file when its content type has text, a directory
/// when it is empty.
pub open spec fn is_file_type(content_type: Seq<char>) -> bool {
    content_type.len() > 0
}

/// The entry a response describes; it needs a path, an etag and a content
/// type element (`content_type` is its text, empty when it has none).
pub open spec fn response_model(
    href: Seq<char>,
    root_path: Seq<char>,
    etag: Option<Seq<char>>,
    content_type: Option<Seq<char>>,
) -> Option<EntryModel> {
    match (href_path_of(href, root_path), etag, content_type) {
        (Some(p), Some(t), Some(c)) => Some(
            EntryModel {
                name: without_last_slash(name_of_path(p)),
                status: EntryStatus::NeedUpdate,
                type_: if is_file_type(c) {
                    TypeModel::File { etag: Some(removed_all(t, seq!['"'])) }
                } else {
                    TypeModel::Directory
                },
                children: Seq::empty(),
            },
        ),
        _ => None,
    }
}

pub open spec fn opt_str(o: Option<&str>) -> Option<Seq<char>> {
    match o {
        Some(s) => Some(s@),
        None => None,
    }
}

pub fn response_entry(
    href: &str,
    root_path: &str,
    etag: Option<&str>,
    content_type: Option<&str>,
) -> (r: Option<Entry>)
    ensures
        r matches Some(e) ==> response_model(href@, root_path@, opt_str(etag), opt_str(content_type)) == Some(e@),
        r is None ==> response_model(href@, root_path@, opt_str(etag), opt_str(content_type)) is None,
{
    let path = match href_path(href, root_path) {
        Some(p) => p,
        None => {
            return None;
        },
    };
    let (t, c) = match (etag, content_type) {
        (Some(t), Some(c)) => (t, c),
        _ => {
            return None;
        },
    };
    let name = path2name(path.as_str());
    let ty = if c.unicode_len() > 0 {
        EntryType::File { etag: Some(strip_quotes(t)) }
    } else {
        EntryType::Directory
    };
    let e = Entry::new(name, ty);
    Some(e)
}

/// The path and the kind of a response, for listings that need no etag.
pub fn response_path(href: &str, root_path: &str, content_type: Option<&str>) -> (r: Option<(String, bool)>)
    ensures
        r matches Some((p, is_dir)) ==> href_path_of(href@, root_path@) == Some(p@) && (content_type matches Some(
            c,
        ) && is_dir == !is_file_type(c@)),
        r is None ==> href_path_of(href@, root_path@) is None || content_type is None,
{
    let path = match href_path(href, root_path) {
        Some(p) => p,
        None => {
            return None;
        },
    };
    match content_type {
        Some(c) => Some((path, c.unicode_len() == 0)),
        None => None,
    }
}

/// How many times a listing is asked for before its failure is reported.
pub const LIST_ATTEMPTS: u8 = 3;

/// What to do after an answer to a listing request.
#[derive(Debug)]
pub enum RetryStep {
    Done,
    /// Wait 100 ms and ask again.
    Retry,
    Fail(crate::errors::NcsError),
}

/// The attempts made so far at one listing.
#[derive(Debug)]
pub struct ListRetry {
    pub attempts: u8,
}

impl ListRetry {
    pub fn new() -> (r: ListRetry)
        ensures
            r.attempts == 0,
    {
        ListRetry { attempts: 0 }
    }

    /// Takes the status of an answer: success ends; a failure is asked
    /// again until the third, which fails with that status.
    pub fn on_status(&mut self, success: bool, code: u16) -> (r: RetryStep)
        requires
            old(self).attempts < LIST_ATTEMPTS,
        ensures
            final(self).attempts == old(self).attempts + 1,
            success ==> r is Done,
            !success && final(self).attempts < LIST_ATTEMPTS ==> r is Retry,
            !success && final(self).attempts == LIST_ATTEMPTS ==> (r matches RetryStep::Fail(
                crate::errors::NcsError::BadStatusError(c),
            ) && c == code),
    {
        self.attempts = self.attempts + 1;
        if success {
            RetryStep::Done
        } else if self.attempts < LIST_ATTEMPTS {
            RetryStep::Retry
        } else {
            RetryStep::Fail(crate::errors::NcsError::BadStatusError(code))
        }
    }
}

} // verus!
