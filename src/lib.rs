//! A bidirectional synchronisation engine between a WebDAV server and a
//! local directory: the entry tree, the handling of remote and local
//! events with their cancellation books, and repair.
use vstd::prelude::*;

pub mod books;
pub mod cache;
pub mod dispatch;
pub mod entry;
pub mod errors;
pub mod events;
pub mod exclude;
pub mod local;
pub mod messaging;
pub mod meta;
pub mod network;
pub mod paths;
pub mod remote;
pub mod repair;
pub mod stash;
pub mod tree_laws;
pub mod webdav;
pub mod xml;

use crate::entry::Entry;
use crate::events::{NCEvent, NCState};
use crate::local::LocalEvent;

verus! {

/// The state shared by the dispatcher: the tree and the activity cursor.
#[derive(Debug)]
pub struct PublicResource {
    pub root: Entry,
    pub nc_state: NCState,
}

impl PublicResource {
    pub fn new(root: Entry, nc_state: NCState) -> (r: PublicResource)
        ensures
            r.root == root,
            r.nc_state == nc_state,
    {
        PublicResource { root, nc_state }
    }
}

/// What the dispatcher is asked to do.
#[derive(Debug)]
pub enum Command {
    NCEvents(Vec<NCEvent>, NCState),
    LocEvent(LocalEvent),
    UpdateExcFile,
    UpdateConfigFile,
    HardRepair,
    NormalRepair,
    NetworkConnect,
    NetworkDisconnect,
    Terminate(bool),
    Error(String),
}

/// The characters that `str::trim` removes: Unicode `White_Space`.
pub open spec fn is_white_space(c: char) -> bool {
    ('\u{9}' <= c && c <= '\u{d}') || c == ' ' || c == '\u{85}' || c == '\u{a0}' || c == '\u{1680}' || ('\u{2000}'
        <= c && c <= '\u{200a}') || c == '\u{2028}' || c == '\u{2029}' || c == '\u{202f}' || c == '\u{205f}' || c
        == '\u{3000}'
}

fn white_space(c: char) -> (r: bool)
    ensures
        r == is_white_space(c),
{
    ('\u{9}' <= c && c <= '\u{d}') || c == ' ' || c == '\u{85}' || c == '\u{a0}' || c == '\u{1680}' || ('\u{2000}'
        <= c && c <= '\u{200a}') || c == '\u{2028}' || c == '\u{2029}' || c == '\u{202f}' || c == '\u{205f}' || c
        == '\u{3000}'
}

/// `s` without leading and trailing white space.
pub open spec fn trimmed(s: Seq<char>) -> Seq<char>
    decreases s.len(),
{
    if s.len() > 0 && is_white_space(s[0]) {
        trimmed(s.drop_first())
    } else if s.len() > 0 && is_white_space(s.last()) {
        trimmed(s.drop_last())
    } else {
        s
    }
}

pub fn trim_text(s: &str) -> (r: String)
    ensures
        r@ == trimmed(s@),
{
    let n = s.unicode_len();
    let mut a: usize = 0;
    let mut b: usize = n;
    assert(s@.subrange(0, n as int) =~= s@);
    while a < b && white_space(s.get_char(a))
        invariant
            n == s@.len(),
            a <= b <= n,
            b == n,
            trimmed(s@.subrange(a as int, b as int)) == trimmed(s@),
        decreases b - a,
    {
        proof {
            let t = s@.subrange(a as int, b as int);
            assert(t[0] == s@[a as int]);
            assert(t.drop_first() =~= s@.subrange(a + 1, b as int));
        }
        a = a + 1;
    }
    while a < b && white_space(s.get_char(b - 1))
        invariant
            n == s@.len(),
            a <= b <= n,
            a == b || !is_white_space(s@[a as int]),
            trimmed(s@.subrange(a as int, b as int)) == trimmed(s@),
        decreases b - a,
    {
        proof {
            let t = s@.subrange(a as int, b as int);
            assert(t[0] == s@[a as int]);
            assert(t.last() == s@[b - 1]);
            assert(t.drop_last() =~= s@.subrange(a as int, b - 1));
        }
        b = b - 1;
    }
    proof {
        let t = s@.subrange(a as int, b as int);
        if a < b {
            assert(t[0] == s@[a as int]);
            assert(t.last() == s@[b - 1]);
        } else {
            assert(t =~= Seq::<char>::empty());
        }
    }
    proof {
        assert(s@.subrange(0, n as int) =~= s@);
    }
    s.substring_char(a, b).to_owned()
}

/// The command for a line from the operator: `RESET` asks for a hard
/// repair, anything else for termination.
pub fn operator_command(line: &str) -> (r: Command)
    ensures
        trimmed(line@) == "RESET"@ ==> r is HardRepair,
        trimmed(line@) != "RESET"@ ==> r matches Command::Terminate(false),
{
    let t = trim_text(line);
    let reset = String::from_str("RESET");
    if t == reset {
        Command::HardRepair
    } else {
        Command::Terminate(false)
    }
}

/// Whether a batch of remote events at cursor `incoming` is to be applied
/// on top of `current`: only when it is newer. `None` when a cursor does
/// not read as a number.
pub fn batch_is_newer(current: &NCState, incoming: &NCState) -> (r: Option<bool>)
    ensures
        (crate::events::parsed_usize(current.latest_activity_id@) is Some && crate::events::parsed_usize(
            incoming.latest_activity_id@,
        ) is Some) ==> r == Some(
            crate::events::parsed_usize(current.latest_activity_id@)->0 < crate::events::parsed_usize(
                incoming.latest_activity_id@,
            )->0,
        ),
        (crate::events::parsed_usize(current.latest_activity_id@) is None || crate::events::parsed_usize(
            incoming.latest_activity_id@,
        ) is None) ==> r is None,
{
    let a = crate::events::parse_usize(current.latest_activity_id.as_str());
    let b = crate::events::parse_usize(incoming.latest_activity_id.as_str());
    if a.is_none() || b.is_none() {
        return None;
    }
    Some(!current.eq_or_newer_than(incoming))
}

} // verus!
