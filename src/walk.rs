//! Planning of the two directory operations, clear and copy.
//!
//! The library never touches the disk. The caller lists a directory and hands
//! the listing over; the library answers with the operations to perform.

use vstd::prelude::*;
use crate::paths::{join_path, join_spec};

verus! {

/// The type of a directory entry.
#[derive(Debug, Clone, Copy, PartialEq, Eq, Structural)]
pub enum EntryKind {
    File,
    Directory,
    /// Neither a regular file nor a directory (a symbolic link, a device).
    Other,
}

/// One entry of a directory listing.
pub struct EntryInfo {
    /// The entry's file name.
    pub name: String,
    /// The entry's full path.
    pub path: String,
    pub kind: EntryKind,
}

/// One removal that clearing a directory performs.
pub enum Removal {
    /// Remove a directory and everything below it.
    Tree(String),
    /// Remove one file.
    File(String),
}

impl Removal {
    pub open spec fn target(self) -> Seq<char> {
        match self {
            Removal::Tree(p) => p@,
            Removal::File(p) => p@,
        }
    }

    /// This removal is the one that clears entry `e`.
    pub open spec fn clears(self, e: EntryInfo) -> bool {
        &&& self.target() == e.path@
        &&& (self is Tree <==> e.kind == EntryKind::Directory)
    }
}

/// `plan` clears the entries `es`: one removal per entry, in listing order.
pub open spec fn is_clear_plan(es: Seq<EntryInfo>, plan: Seq<Removal>) -> bool {
    &&& plan.len() == es.len()
    &&& forall|i: int| 0 <= i < plan.len() ==> (#[trigger] plan[i]).clears(es[i])
}

/// Whether some removal of `plan` targets `path`.
pub open spec fn is_removed(plan: Seq<Removal>, path: Seq<char>) -> bool {
    exists|j: int| 0 <= j < plan.len() && (#[trigger] plan[j]).target() == path
}

/// The entries of `es` that are left after the removals of `plan`.
pub open spec fn left_after(es: Seq<EntryInfo>, plan: Seq<Removal>) -> Seq<EntryInfo>
    decreases es.len(),
{
    if es.len() == 0 {
        seq![]
    } else {
        let rest = left_after(es.drop_last(), plan);
        if is_removed(plan, es.last().path@) {
            rest
        } else {
            rest.push(es.last())
        }
    }
}

proof fn lemma_left_after_none(es: Seq<EntryInfo>, plan: Seq<Removal>)
    requires
        forall|i: int| 0 <= i < es.len() ==> is_removed(plan, #[trigger] es[i].path@),
    ensures
        left_after(es, plan).len() == 0,
    decreases es.len(),
{
    if es.len() > 0 {
        let init = es.drop_last();
        assert forall|i: int| 0 <= i < init.len() implies is_removed(
            plan,
            #[trigger] init[i].path@,
        ) by {
            assert(init[i] == es[i]);
        }
        lemma_left_after_none(init, plan);
        assert(is_removed(plan, es[es.len() - 1].path@));
    }
}

/// Clearing leaves a directory empty, and clearing it again then does
/// nothing: a plan that clears a listing removes every entry of it, and the
/// plan that clears what is left has no removal.
pub proof fn clear_twice_is_clear_once(es: Seq<EntryInfo>, first: Seq<Removal>, second: Seq<Removal>)
    requires
        is_clear_plan(es, first),
        is_clear_plan(left_after(es, first), second),
    ensures
        left_after(es, first).len() == 0,
        second.len() == 0,
{
    assert forall|i: int| 0 <= i < es.len() implies is_removed(first, #[trigger] es[i].path@) by {
        assert(first[i].clears(es[i]));
    }
    lemma_left_after_none(es, first);
}

/// The removals that empty a directory whose entries are `entries`: one per
/// entry, in listing order, a directory removed with all it holds.
pub fn clear_plan(entries: &Vec<EntryInfo>) -> (r: Vec<Removal>)
    ensures
        is_clear_plan(entries@, r@),
{
    let mut r: Vec<Removal> = Vec::new();
    let mut i: usize = 0;
    while i < entries.len()
        invariant
            i <= entries@.len(),
            r@.len() == i,
            forall|k: int| 0 <= k < i ==> (#[trigger] r@[k]).clears(entries@[k]),
        decreases entries@.len() - i,
    {
        let e = &entries[i];
        let p = e.path.clone();
        if e.kind == EntryKind::Directory {
            r.push(Removal::Tree(p));
        } else {
            r.push(Removal::File(p));
        }
        i = i + 1;
    }
    r
}

/// A source directory and the destination it is mirrored into.
pub struct DirPair {
    pub source: String,
    pub destination: String,
}

impl DirPair {
    pub open spec fn view_pair(self) -> (Seq<char>, Seq<char>) {
        (self.source@, self.destination@)
    }
}

/// What copying does with one entry of a source directory.
pub enum CopyStep {
    /// Mirror a subdirectory into the destination of the same name.
    Descend(DirPair),
    /// Copy one file over the destination path, replacing what is there.
    CopyFile { from: String, to: String },
}

/// The step for entry `e` of a source directory mirrored into `dst`: the
/// entry's path goes to `dst` joined with the entry's name.
pub open spec fn step_for(dst: Seq<char>, e: EntryInfo, s: CopyStep) -> bool {
    match s {
        CopyStep::Descend(p) => e.kind == EntryKind::Directory && p.source@ == e.path@
            && p.destination@ == join_spec(dst, e.name@),
        CopyStep::CopyFile { from, to } => e.kind != EntryKind::Directory && from@ == e.path@
            && to@ == join_spec(dst, e.name@),
    }
}

/// The directories still to visit after the entries `es` of a source
/// directory mirrored into `dst` were planned: each subdirectory with its
/// destination, in listing order.
pub open spec fn subdirectory_pairs(dst: Seq<char>, es: Seq<EntryInfo>) -> Seq<
    (Seq<char>, Seq<char>),
>
    decreases es.len(),
{
    if es.len() == 0 {
        seq![]
    } else {
        let rest = subdirectory_pairs(dst, es.drop_last());
        let e = es.last();
        if e.kind == EntryKind::Directory {
            rest.push((e.path@, join_spec(dst, e.name@)))
        } else {
            rest
        }
    }
}

/// A copy of a tree in progress: the directories that remain to be visited.
///
/// The caller takes the next directory, makes sure its destination exists,
/// lists its source and hands the listing to `visit`, which yields the files
/// to copy and queues the subdirectories. The copy is done when no directory
/// remains.
pub struct CopyWalk {
    pending: Vec<DirPair>,
}

impl CopyWalk {
    /// The directories that remain, as (source, destination) pairs.
    pub closed spec fn pending_view(&self) -> Seq<(Seq<char>, Seq<char>)> {
        self.pending@.map_values(|p: DirPair| p.view_pair())
    }

    /// A walk that mirrors `source` into `destination`.
    pub fn new(source: String, destination: String) -> (r: CopyWalk)
        ensures
            r.pending_view() == seq![(source@, destination@)],
    {
        let mut pending: Vec<DirPair> = Vec::new();
        pending.push(DirPair { source, destination });
        let r = CopyWalk { pending };
        assert(r.pending_view() =~= seq![(source@, destination@)]);
        r
    }

    /// Whether no directory remains.
    pub fn is_done(&self) -> (r: bool)
        ensures
            r == (self.pending_view().len() == 0),
    {
        self.pending.len() == 0
    }

    /// Takes the most recently queued directory, or `None` when the copy is
    /// complete.
    pub fn next_directory(&mut self) -> (r: Option<DirPair>)
        ensures
            old(self).pending_view().len() == 0 ==> r is None && final(self).pending_view()
                == old(self).pending_view(),
            old(self).pending_view().len() > 0 ==> (r matches Some(p) && p.view_pair()
                == old(self).pending_view().last() && final(self).pending_view()
                == old(self).pending_view().drop_last()),
    {
        let ghost before = self.pending@;
        let r = self.pending.pop();
        proof {
            if before.len() > 0 {
                assert(self.pending@ =~= before.drop_last());
                assert(self.pending_view() =~= old(self).pending_view().drop_last());
            }
        }
        r
    }

    /// Plans the entries `entries` of the directory `pair`: one step per
    /// entry, in listing order. Each subdirectory is queued for a later visit.
    pub fn visit(&mut self, pair: &DirPair, entries: &Vec<EntryInfo>) -> (r: Vec<CopyStep>)
        ensures
            r@.len() == entries@.len(),
            forall|i: int|
                0 <= i < r@.len() ==> step_for(pair.destination@, entries@[i], #[trigger] r@[i]),
            final(self).pending_view() == old(self).pending_view() + subdirectory_pairs(
                pair.destination@,
                entries@,
            ),
    {
        let ghost dst = pair.destination@;
        let mut r: Vec<CopyStep> = Vec::new();
        let mut i: usize = 0;
        assert(entries@.subrange(0, 0) =~= Seq::<EntryInfo>::empty());
        assert(old(self).pending_view() + subdirectory_pairs(dst, Seq::<EntryInfo>::empty())
            =~= old(self).pending_view());
        while i < entries.len()
            invariant
                i <= entries@.len(),
                dst == pair.destination@,
                r@.len() == i,
                forall|k: int| 0 <= k < i ==> step_for(dst, entries@[k], #[trigger] r@[k]),
                self.pending_view() == old(self).pending_view() + subdirectory_pairs(
                    dst,
                    entries@.subrange(0, i as int),
                ),
            decreases entries@.len() - i,
        {
            let e = &entries[i];
            let to = join_path(pair.destination.as_str(), e.name.as_str());
            let ghost prefix = entries@.subrange(0, i as int + 1);
            assert(prefix.drop_last() =~= entries@.subrange(0, i as int));
            assert(prefix.last() == entries@[i as int]);
            if e.kind == EntryKind::Directory {
                let ghost before = self.pending@;
                let src = e.path.clone();
                let pushed = DirPair { source: src, destination: to.clone() };
                assert(pushed.view_pair() == (e.path@, join_spec(dst, e.name@)));
                self.pending.push(pushed);
                assert(self.pending@ =~= before.push(pushed));
                assert(self.pending_view() =~= before.map_values(|p: DirPair| p.view_pair()).push(
                    pushed.view_pair(),
                ));
                assert(subdirectory_pairs(dst, prefix) == subdirectory_pairs(
                    dst,
                    entries@.subrange(0, i as int),
                ).push((e.path@, join_spec(dst, e.name@))));
                assert(self.pending_view() =~= old(self).pending_view() + subdirectory_pairs(
                    dst,
                    prefix,
                ));
                r.push(CopyStep::Descend(DirPair { source: e.path.clone(), destination: to }));
            } else {
                assert(subdirectory_pairs(dst, prefix) == subdirectory_pairs(
                    dst,
                    entries@.subrange(0, i as int),
                ));
                r.push(CopyStep::CopyFile { from: e.path.clone(), to });
            }
            i = i + 1;
        }
        assert(entries@.subrange(0, entries@.len() as int) =~= entries@);
        r
    }
}

}
