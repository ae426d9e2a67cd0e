//! The catalog of profiles: each subdirectory of the profiles directory is a
//! profile, and its mod files are the regular files named `*.jar`.

use vstd::prelude::*;
use crate::walk::{EntryInfo, EntryKind};

verus! {

/// A named set of mod files kept in its own directory.
pub struct Profile {
    pub name: String,
    pub path: String,
    /// How many mod files the profile's directory holds.
    pub mods: usize,
}

impl View for Profile {
    type V = (Seq<char>, Seq<char>, nat);

    open spec fn view(&self) -> Self::V {
        (self.name@, self.path@, self.mods as nat)
    }
}

/// One top-level entry of the profiles directory, with the listing of its
/// own entries when it is a directory.
pub struct ProfileListing {
    /// The entry's file name, `None` where it is not valid Unicode.
    pub name: Option<String>,
    pub path: String,
    pub kind: EntryKind,
    pub contents: Vec<EntryInfo>,
}

pub open spec fn mod_extension() -> Seq<char> {
    seq!['.', 'j', 'a', 'r']
}

/// A file name whose extension (the part after its last `.`, where that dot
/// does not start the name) is `jar`.
pub open spec fn has_mod_extension(name: Seq<char>) -> bool {
    name.len() > 4 && name.subrange(name.len() - 4, name.len() as int) == mod_extension()
}

/// An entry that counts as a mod file: a regular file with the mod extension.
pub open spec fn is_mod_file(e: EntryInfo) -> bool {
    e.kind == EntryKind::File && has_mod_extension(e.name@)
}

/// How many of `es` are mod files.
pub open spec fn mod_count(es: Seq<EntryInfo>) -> nat
    decreases es.len(),
{
    if es.len() == 0 {
        0
    } else {
        mod_count(es.drop_last()) + if is_mod_file(es.last()) {
            1nat
        } else {
            0nat
        }
    }
}

pub open spec fn unknown_name() -> Seq<char> {
    "Unknown Profile name"@
}

/// The profile that a directory entry of the profiles directory stands for.
pub open spec fn profile_of(l: ProfileListing) -> (Seq<char>, Seq<char>, nat) {
    let name = match l.name {
        Some(n) => n@,
        None => unknown_name(),
    };
    (name, l.path@, mod_count(l.contents@))
}

/// The catalog built from the entries `ls` of the profiles directory: one
/// profile per directory, in listing order; other entries are skipped.
pub open spec fn catalog_spec(ls: Seq<ProfileListing>) -> Seq<(Seq<char>, Seq<char>, nat)>
    decreases ls.len(),
{
    if ls.len() == 0 {
        seq![]
    } else {
        let rest = catalog_spec(ls.drop_last());
        if ls.last().kind == EntryKind::Directory {
            rest.push(profile_of(ls.last()))
        } else {
            rest
        }
    }
}

proof fn lemma_mod_count_bound(es: Seq<EntryInfo>)
    ensures
        mod_count(es) <= es.len(),
    decreases es.len(),
{
    if es.len() > 0 {
        lemma_mod_count_bound(es.drop_last());
    }
}

/// Whether `name` carries the mod extension.
pub fn is_mod_name(name: &str) -> (r: bool)
    ensures
        r == has_mod_extension(name@),
{
    let n = name.unicode_len();
    if n <= 4 {
        return false;
    }
    let r = name.get_char(n - 4) == '.' && name.get_char(n - 3) == 'j' && name.get_char(n - 2)
        == 'a' && name.get_char(n - 1) == 'r';
    proof {
        let tail = name@.subrange(n - 4, n as int);
        if r {
            assert(tail =~= mod_extension());
        } else {
            assert(tail != mod_extension()) by {
                if tail == mod_extension() {
                    assert(tail[0] == '.' && tail[1] == 'j' && tail[2] == 'a' && tail[3] == 'r');
                }
            }
        }
    }
    r
}

/// How many mod files a profile directory's listing holds.
pub fn count_mods(entries: &Vec<EntryInfo>) -> (r: usize)
    ensures
        r == mod_count(entries@),
{
    let mut count: usize = 0;
    let mut i: usize = 0;
    assert(entries@.subrange(0, 0) =~= Seq::<EntryInfo>::empty());
    while i < entries.len()
        invariant
            i <= entries@.len(),
            count == mod_count(entries@.subrange(0, i as int)),
        decreases entries@.len() - i,
    {
        let ghost prefix = entries@.subrange(0, i as int + 1);
        assert(prefix.drop_last() =~= entries@.subrange(0, i as int));
        proof {
            lemma_mod_count_bound(entries@.subrange(0, i as int));
        }
        let e = &entries[i];
        if e.kind == EntryKind::File && is_mod_name(e.name.as_str()) {
            count = count + 1;
        }
        i = i + 1;
    }
    assert(entries@.subrange(0, entries@.len() as int) =~= entries@);
    count
}

/// The profile that one directory of the profiles directory stands for.
pub fn profile_from_listing(l: &ProfileListing) -> (r: Profile)
    ensures
        r@ == profile_of(*l),
{
    let name = match &l.name {
        Some(n) => n.clone(),
        None => String::from_str("Unknown Profile name"),
    };
    Profile { name, path: l.path.clone(), mods: count_mods(&l.contents) }
}

/// The catalog of profiles from the entries of the profiles directory.
pub fn fetch_profiles(listing: &Vec<ProfileListing>) -> (r: Vec<Profile>)
    ensures
        r@.map_values(|p: Profile| p@) == catalog_spec(listing@),
{
    let mut r: Vec<Profile> = Vec::new();
    let mut i: usize = 0;
    assert(listing@.subrange(0, 0) =~= Seq::<ProfileListing>::empty());
    assert(r@.map_values(|p: Profile| p@) =~= Seq::<(Seq<char>, Seq<char>, nat)>::empty());
    while i < listing.len()
        invariant
            i <= listing@.len(),
            r@.map_values(|p: Profile| p@) == catalog_spec(listing@.subrange(0, i as int)),
        decreases listing@.len() - i,
    {
        let ghost prefix = listing@.subrange(0, i as int + 1);
        assert(prefix.drop_last() =~= listing@.subrange(0, i as int));
        let l = &listing[i];
        if l.kind == EntryKind::Directory {
            let p = profile_from_listing(l);
            let ghost before = r@;
            r.push(p);
            assert(r@.map_values(|p: Profile| p@) =~= before.map_values(|p: Profile| p@).push(
                p@,
            ));
        }
        i = i + 1;
    }
    assert(listing@.subrange(0, listing@.len() as int) =~= listing@);
    r
}

}
