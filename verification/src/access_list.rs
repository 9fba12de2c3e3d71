//! The list of info hashes that the tracker serves, or refuses to serve.

use crate::common::bytes_equal;
use crate::common::InfoHash;
use vstd::prelude::*;

verus! {

/// How the access list is read.
#[derive(Clone, Copy, Debug, PartialEq, Eq, Structural)]
pub enum AccessListMode {
    /// Only the torrents on the list are served.
    Allow,
    /// The torrents on the list are not served; all others are.
    Deny,
    /// The list is not read: every torrent is served.
    Off,
}

#[derive(Clone, Debug, PartialEq, Eq)]
pub struct AccessListConfig {
    pub mode: AccessListMode,
    /// Path to the file that holds the list, one info hash in
    /// hexadecimal digits to a line.
    pub path: String,
}

impl Default for AccessListConfig {
    fn default() -> (config: Self)
        ensures
            config.mode == AccessListMode::Off,
            config.path@ == Seq::<char>::empty(),
    {
        AccessListConfig { mode: AccessListMode::Off, path: String::new() }
    }
}

/// A set of info hashes. Writers build a new list and put it in the
/// place of the old one as a whole; readers hold a snapshot.
#[derive(Clone, Debug)]
pub struct AccessList {
    hashes: Vec<[u8; 20]>,
}

impl View for AccessList {
    type V = Set<[u8; 20]>;

    /// The info hashes on the list.
    closed spec fn view(&self) -> Set<[u8; 20]> {
        Set::new(|hash: [u8; 20]| self.hashes@.contains(hash))
    }
}

/// Whether a list read in the given mode lets the torrent be served.
pub open spec fn allowed(list: Set<[u8; 20]>, mode: AccessListMode, info_hash: [u8; 20]) -> bool {
    match mode {
        AccessListMode::Allow => list.contains(info_hash),
        AccessListMode::Deny => !list.contains(info_hash),
        AccessListMode::Off => true,
    }
}

impl AccessList {
    /// A list without info hashes.
    pub fn new() -> (list: Self)
        ensures
            list@ == Set::<[u8; 20]>::empty(),
    {
        let list = AccessList { hashes: Vec::new() };
        assert(list@ =~= Set::<[u8; 20]>::empty());
        list
    }

    /// Whether the info hash is on the list.
    pub fn contains(&self, info_hash: &[u8; 20]) -> (r: bool)
        ensures
            r == self@.contains(*info_hash),
    {
        let mut i: usize = 0;
        while i < self.hashes.len()
            invariant
                i <= self.hashes.len(),
                forall|j: int| 0 <= j < i ==> self.hashes@[j] != *info_hash,
            decreases self.hashes.len() - i,
        {
            if bytes_equal(&self.hashes[i], info_hash) {
                let ghost found = self.hashes@[i as int];
                let ghost wanted = *info_hash;
                assert(found@ == wanted@);
                assert(found =~= wanted);
                return true;
            }
            i = i + 1;
        }
        false
    }

    /// Puts the info hash on the list.
    pub fn insert(&mut self, info_hash: InfoHash)
        ensures
            final(self)@ == old(self)@.insert(info_hash.0),
    {
        let ghost before = self.hashes@;
        if !self.contains(&info_hash.0) {
            self.hashes.push(info_hash.0);
            assert forall|hash: [u8; 20]|
                self.hashes@.contains(hash) == (hash == info_hash.0 || before.contains(
                    hash,
                )) by {
                if self.hashes@.contains(hash) {
                    let i = choose|i: int| 0 <= i < self.hashes@.len() && self.hashes@[i] == hash;
                    if i < before.len() {
                        assert(before[i] == hash);
                    }
                }
                if before.contains(hash) {
                    let i = choose|i: int| 0 <= i < before.len() && before[i] == hash;
                    assert(self.hashes@[i] == hash);
                }
                if hash == info_hash.0 {
                    assert(self.hashes@[before.len() as int] == hash);
                }
            }
        }
        assert(self@ =~= old(self)@.insert(info_hash.0));
    }

    /// Whether no info hash is on the list.
    pub fn is_empty(&self) -> (r: bool)
        ensures
            r == (self@ == Set::<[u8; 20]>::empty()),
    {
        let r = self.hashes.len() == 0;
        if r {
            assert(self@ =~= Set::<[u8; 20]>::empty());
        } else {
            assert(self.hashes@.contains(self.hashes@[0]));
            assert(self@.contains(self.hashes@[0]));
        }
        r
    }

    /// Whether the list, read in the given mode, lets the torrent be
    /// served.
    pub fn allows(&self, mode: AccessListMode, info_hash: &[u8; 20]) -> (r: bool)
        ensures
            r == allowed(self@, mode, *info_hash),
    {
        match mode {
            AccessListMode::Allow => self.contains(info_hash),
            AccessListMode::Deny => !self.contains(info_hash),
            AccessListMode::Off => true,
        }
    }
}

impl Default for AccessList {
    fn default() -> (list: Self)
        ensures
            list@ == Set::<[u8; 20]>::empty(),
    {
        AccessList::new()
    }
}

} // verus!
