//! The container formats whose decoded content names other archive
//! members: object containers, prefabs and scenes share one layout
//! here — a magic, a list of child object paths, a list of referenced
//! resource paths, and one embedded RSZ block filling the rest.
use vstd::prelude::*;

use crate::bytes::{data_fits, le32_at, read_u32, MAX_DATA};
use crate::rcol::{can_parse_strs, lemma_strs_match_at, strs_at, strs_match};
use crate::rsz::{rsz_header_ok, Rsz};
use crate::Error;

verus! {

/// Which container kind a magic announces.
#[derive(Debug, Clone, Copy, PartialEq, Eq, Structural)]
pub enum FormatKind {
    User,
    Pfb,
    Scn,
}

/// Sniffs the first four bytes: `USR\0`, `PFB\0` or `SCN\0`.
pub open spec fn sniff_spec(s: Seq<u8>) -> Option<FormatKind> {
    if s.len() < 4 || s[3] != 0 {
        None
    } else if s[0] == 0x55 && s[1] == 0x53 && s[2] == 0x52 {
        Some(FormatKind::User)
    } else if s[0] == 0x50 && s[1] == 0x46 && s[2] == 0x42 {
        Some(FormatKind::Pfb)
    } else if s[0] == 0x53 && s[1] == 0x43 && s[2] == 0x4e {
        Some(FormatKind::Scn)
    } else {
        None
    }
}

pub fn sniff(data: &[u8]) -> (r: Option<FormatKind>)
    ensures
        r == sniff_spec(data@),
{
    if data.len() < 4 || data[3] != 0 {
        return None;
    }
    if data[0] == 0x55 && data[1] == 0x53 && data[2] == 0x52 {
        Some(FormatKind::User)
    } else if data[0] == 0x50 && data[1] == 0x46 && data[2] == 0x42 {
        Some(FormatKind::Pfb)
    } else if data[0] == 0x53 && data[1] == 0x43 && data[2] == 0x4e {
        Some(FormatKind::Scn)
    } else {
        None
    }
}

pub open spec fn user_child_count(s: Seq<u8>) -> u32 {
    le32_at(s, 4)
}

pub open spec fn user_resource_count(s: Seq<u8>) -> u32 {
    le32_at(s, 8)
}

pub open spec fn user_rsz_len(s: Seq<u8>) -> int {
    le32_at(s, 12) as int
}

/// The whole container parses: both name lists, then the RSZ block
/// filling the file exactly.
pub open spec fn user_parseable(s: Seq<u8>) -> bool {
    &&& data_fits(s)
    &&& s.len() >= 16
    &&& sniff_spec(s) is Some
    &&& match can_parse_strs(s, 16, user_child_count(s) as nat) {
        None => false,
        Some(p_c) => match can_parse_strs(s, p_c, user_resource_count(s) as nat) {
            None => false,
            Some(p_r) => {
                &&& p_r + user_rsz_len(s) == s.len()
                &&& rsz_header_ok(s.subrange(p_r, s.len() as int), p_r)
            },
        },
    }
}

/// The parsed structure the bytes dictate.
pub open spec fn user_matches(s: Seq<u8>, u: &User) -> bool {
    &&& user_parseable(s)
    &&& strs_match(s, 16, user_child_count(s) as nat, u.children@)
    &&& match can_parse_strs(s, 16, user_child_count(s) as nat) {
        None => false,
        Some(p_c) => {
            &&& strs_match(s, p_c, user_resource_count(s) as nat, u.resource_names@)
            &&& match can_parse_strs(s, p_c, user_resource_count(s) as nat) {
                None => false,
                Some(p_r) => crate::rcol::rsz_block_matches(
                    s.subrange(p_r, s.len() as int),
                    p_r,
                    &u.rsz,
                ),
            }
        },
    }
}

/// Every name a container references, children first then resources:
/// the list the dependency scan resolves.
pub open spec fn user_names(s: Seq<u8>) -> Seq<Seq<char>> {
    match strs_at(s, 16, user_child_count(s) as nat) {
        None => Seq::empty(),
        Some((cs, p_c)) => match strs_at(s, p_c, user_resource_count(s) as nat) {
            None => cs,
            Some((rs, _)) => cs + rs,
        },
    }
}

/// A parsed container's referenced names are exactly its child list
/// followed by its resource list.
pub proof fn lemma_user_names(s: Seq<u8>, u: &User)
    requires
        user_matches(s, u),
    ensures
        user_names(s).len() == u.children@.len() + u.resource_names@.len(),
        forall|k: int|
            0 <= k < u.children@.len() ==> user_names(s)[k] == (#[trigger] u.children@[k])@,
        forall|k: int|
            0 <= k < u.resource_names@.len() ==> user_names(s)[u.children@.len() + k] == (
            #[trigger] u.resource_names@[k])@,
{
    lemma_strs_match_at(s, 16, user_child_count(s) as nat, u.children@);
    let (cs, p_c) = strs_at(s, 16, user_child_count(s) as nat)->Some_0;
    lemma_strs_match_at(s, p_c, user_resource_count(s) as nat, u.resource_names@);
    let (rs, _) = strs_at(s, p_c, user_resource_count(s) as nat)->Some_0;
    assert(user_names(s) == cs + rs);
    assert forall|k: int|
        0 <= k < u.resource_names@.len() implies user_names(s)[u.children@.len() + k] == (
    #[trigger] u.resource_names@[k])@ by {
        assert((cs + rs)[cs.len() + k] == rs[k]);
    }
}

/// A parsed container: the names of its child objects, the names of
/// the resources it references, and its RSZ block.
pub struct User {
    pub children: Vec<String>,
    pub resource_names: Vec<String>,
    pub rsz: Rsz,
}

impl User {
    /// Parses a container of any of the three kinds.
    pub fn new(data: &[u8]) -> (r: Result<User, Error>)
        ensures
            match r {
                Ok(u) => user_matches(data@, &u),
                Err(Error::FormatError) => data@.len() < 16 || sniff_spec(data@) is None
                    || !data_fits(data@),
                Err(Error::CorruptData) => !user_parseable(data@),
                Err(_) => false,
            },
    {
        if data.len() > MAX_DATA as usize || data.len() < 16 {
            return Err(Error::FormatError);
        }
        if sniff(data).is_none() {
            return Err(Error::FormatError);
        }
        let child_count = read_u32(data, 4);
        let resource_count = read_u32(data, 8);
        let rsz_len = read_u32(data, 12);
        let (children, p_c) = match crate::rcol::parse_strs(data, 16, child_count) {
            Ok(x) => x,
            Err(e) => return Err(e),
        };
        let (resource_names, p_r) = match crate::rcol::parse_strs(data, p_c, resource_count) {
            Ok(x) => x,
            Err(e) => return Err(e),
        };
        if rsz_len as usize != data.len() - p_r {
            return Err(Error::CorruptData);
        }
        let block = &data[p_r..data.len()];
        assert(block@ == data@.subrange(p_r as int, data@.len() as int));
        let rsz = match Rsz::new(block, p_r as u64) {
            Ok(x) => x,
            Err(e) => return Err(e),
        };
        Ok(User { children, resource_names, rsz })
    }
}

} // verus!
