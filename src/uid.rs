//! The identity of a user: both its numeric id and its name, since process
//! listings show the owner of a process as one or the other depending on the
//! platform.

use vstd::prelude::*;
use vstd::utf8::{decode_utf8, valid_utf8};
use crate::error::{Error, Result};
use crate::psentry::{skip_space, skip_space_from, trim_end_at, trim_end_from};
use crate::text::{chars_of, decode_utf8_bytes, string_from_chars};

verus! {

/// `s` without the whitespace at its start and at its end.
pub open spec fn trimmed(s: Seq<char>) -> Seq<char> {
    let a = skip_space(s, 0);
    let b = trim_end_at(s, s.len() as int);
    if a < b {
        s.subrange(a, b)
    } else {
        Seq::empty()
    }
}

/// `s` without the whitespace at its start and at its end.
pub fn trim_text(s: &str) -> (r: String)
    ensures
        r@ == trimmed(s@),
{
    let chars = chars_of(s);
    let a = skip_space_from(&chars, 0);
    let b = trim_end_from(&chars);
    if a < b {
        string_from_chars(vstd::slice::slice_subrange(chars.as_slice(), a, b))
    } else {
        String::new()
    }
}

/// The user name and the numeric user id of someone.
#[derive(Debug)]
pub struct UID {
    /// The numeric id, in decimal.
    pub uid: String,
    /// The user name.
    pub uname: String,
}

impl Clone for UID {
    fn clone(&self) -> (r: Self)
        ensures
            r == *self,
    {
        UID { uid: self.uid.clone(), uname: self.uname.clone() }
    }
}

impl UID {
    /// `owner` is this user's numeric id or name.
    pub open spec fn spec_matches(&self, owner: Seq<char>) -> bool {
        owner == self.uid@ || owner == self.uname@
    }

    /// Returns true iff `uid` is either the user name or the numeric id,
    /// compared exactly.
    pub fn matches(&self, uid: &str) -> (r: bool)
        ensures
            r == self.spec_matches(uid@),
    {
        let owner = uid.to_owned();
        owner == self.uid || owner == self.uname
    }

    /// Builds the identity from the outputs of the two lookups: the one that
    /// gives the numeric id and the one that gives the name, checked in that
    /// order. Each must be UTF-8 text; the whitespace around each is dropped,
    /// and what is left must not be empty (an unknown user gives no output).
    pub fn get(uid_output: Vec<u8>, uname_output: Vec<u8>) -> (r: Result<UID>)
        ensures
            match r {
                Ok(u) => {
                    &&& valid_utf8(uid_output@)
                    &&& valid_utf8(uname_output@)
                    &&& u.uid@ == trimmed(decode_utf8(uid_output@))
                    &&& u.uname@ == trimmed(decode_utf8(uname_output@))
                    &&& u.uid@.len() > 0
                    &&& u.uname@.len() > 0
                },
                Err(Error::Utf8Error { .. }) => !valid_utf8(uid_output@) || (trimmed(
                    decode_utf8(uid_output@),
                ).len() > 0 && !valid_utf8(uname_output@)),
                Err(Error::LookupError) => valid_utf8(uid_output@) && (trimmed(
                    decode_utf8(uid_output@),
                ).len() == 0 || (valid_utf8(uname_output@) && trimmed(
                    decode_utf8(uname_output@),
                ).len() == 0)),
                Err(_) => false,
            },
    {
        let uid = match decode_utf8_bytes(uid_output) {
            Ok(s) => trim_text(s.as_str()),
            Err(e) => {
                return Err(Error::Utf8Error { e });
            },
        };
        if uid.as_str().is_empty() {
            return Err(Error::LookupError);
        }
        let uname = match decode_utf8_bytes(uname_output) {
            Ok(s) => trim_text(s.as_str()),
            Err(e) => {
                return Err(Error::Utf8Error { e });
            },
        };
        if uname.as_str().is_empty() {
            return Err(Error::LookupError);
        }
        Ok(UID { uid, uname })
    }
}

} // verus!
