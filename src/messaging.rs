//! Control messages: a kind byte, two flag bytes, then the target path in
//! UTF-8.
use vstd::prelude::*;
use vstd::utf8::{decode_utf8, encode_utf8, valid_utf8};
use crate::errors::NcsError;

verus! {

#[derive(Debug, Clone, Copy, PartialEq, Eq, Structural)]
pub enum NCSyncKind {
    Push,
    Pull,
}

#[derive(Debug)]
pub struct NCSyncMessage {
    pub kind: NCSyncKind,
    pub is_recursive: bool,
    pub use_stash: bool,
    pub target: String,
}

pub open spec fn kind_byte(k: NCSyncKind) -> u8 {
    match k {
        NCSyncKind::Push => 0,
        NCSyncKind::Pull => 1,
    }
}

/// Relies on String::from_utf8: it succeeds exactly on valid UTF-8 and
/// then holds the decoded characters.
#[verifier::external_body]
fn string_from_utf8(bytes: Vec<u8>) -> (r: Option<String>)
    ensures
        r is Some <==> valid_utf8(bytes@),
        r matches Some(s) ==> s@ == decode_utf8(bytes@),
{
    String::from_utf8(bytes).ok()
}

fn message_text(t: &str) -> (r: String)
    ensures
        r@ == t@,
{
    t.to_owned()
}

impl NCSyncKind {
    /// The kind that a byte stands for: 0 push, 1 pull.
    pub fn try_from_u8(value: u8) -> (r: Result<NCSyncKind, NcsError>)
        ensures
            value == 0 ==> r == Ok::<NCSyncKind, NcsError>(NCSyncKind::Push),
            value == 1 ==> r == Ok::<NCSyncKind, NcsError>(NCSyncKind::Pull),
            value > 1 ==> r is Err,
    {
        match value {
            0 => Ok(NCSyncKind::Push),
            1 => Ok(NCSyncKind::Pull),
            _ => Err(NcsError::InvalidMessageError(message_text("Invalid kind"))),
        }
    }

    pub fn into_u8(self) -> (r: u8)
        ensures
            r == kind_byte(self),
    {
        match self {
            NCSyncKind::Push => 0,
            NCSyncKind::Pull => 1,
        }
    }
}

impl NCSyncMessage {
    /// Reads a message; fails on fewer than three bytes, an unknown kind or
    /// a target that is not UTF-8.
    pub fn try_from_bytes(value: &[u8]) -> (r: Result<NCSyncMessage, NcsError>)
        ensures
            value@.len() < 3 ==> r is Err,
            value@.len() >= 3 ==> (r is Ok <==> (value@[0] <= 1 && valid_utf8(value@.skip(3)))),
            r matches Ok(m) ==> kind_byte(m.kind) == value@[0] && m.is_recursive == (value@[1] != 0)
                && m.use_stash == (value@[2] != 0) && m.target@ == decode_utf8(value@.skip(3)),
    {
        if value.len() < 3 {
            return Err(NcsError::InvalidMessageError(message_text("Invalid array.")));
        }
        let kind = match NCSyncKind::try_from_u8(value[0]) {
            Ok(k) => k,
            Err(e) => {
                return Err(e);
            },
        };
        let is_recursive = value[1] != 0;
        let use_stash = value[2] != 0;
        let mut rest: Vec<u8> = Vec::new();
        let mut i: usize = 3;
        while i < value.len()
            invariant
                3 <= i <= value@.len(),
                rest@ == value@.subrange(3, i as int),
            decreases value@.len() - i,
        {
            rest.push(value[i]);
            i = i + 1;
            assert(rest@ =~= value@.subrange(3, i as int));
        }
        assert(rest@ =~= value@.skip(3));
        let target = match string_from_utf8(rest) {
            Some(t) => t,
            None => {
                return Err(NcsError::InvalidMessageError(message_text("Invalid target.")));
            },
        };
        Ok(NCSyncMessage { kind, is_recursive, use_stash, target })
    }

    /// Writes a message: kind byte, the two flags as 0 or 1, the target's UTF-8.
    pub fn into_bytes(self) -> (r: Vec<u8>)
        ensures
            r@ == seq![kind_byte(self.kind), flag_byte(self.is_recursive), flag_byte(self.use_stash)]
                + encode_utf8(self.target@),
    {
        let mut res: Vec<u8> = Vec::new();
        res.push(self.kind.into_u8());
        res.push(if self.is_recursive { 1u8 } else { 0u8 });
        res.push(if self.use_stash { 1u8 } else { 0u8 });
        let bytes = self.target.as_str().as_bytes_vec();
        let ghost head = res@;
        let mut i: usize = 0;
        while i < bytes.len()
            invariant
                i <= bytes@.len(),
                res@ == head + bytes@.subrange(0, i as int),
            decreases bytes@.len() - i,
        {
            res.push(bytes[i]);
            i = i + 1;
            assert(res@ =~= head + bytes@.subrange(0, i as int));
        }
        assert(bytes@.subrange(0, bytes@.len() as int) =~= bytes@);
        res
    }
}

pub open spec fn flag_byte(b: bool) -> u8 {
    if b {
        1
    } else {
        0
    }
}

} // verus!
