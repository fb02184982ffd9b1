//! Pruning of the node's data directory: a depth-first walk with an explicit
//! stack of directories, the rule that marks a file for deletion, and the
//! tally of deletions.
use vstd::prelude::*;
use crate::text::same_text;

verus! {

/// A file that is never pruned, wherever it stands.
pub open spec fn protected_name() -> Seq<char> {
    "visor_child_stderr"@
}

#[derive(Clone, Copy, Debug, PartialEq, Eq, Structural)]
pub enum EntryKind {
    Directory,
    File,
    /// Anything else, such as a symbolic link or a socket.
    Other,
}

/// One entry of a directory listing.
#[derive(Clone, Debug)]
pub struct DirEntryInfo {
    pub name: String,
    pub kind: EntryKind,
    /// How long ago the entry was last modified, in nanoseconds; absent when
    /// that time is unknown or lies in the future.
    pub age_ns: Option<u64>,
}

/// A path relative to the walked root, as its components.
pub open spec fn path_view(p: Seq<String>) -> Seq<Seq<char>> {
    p.map_values(|c: String| c@)
}

pub open spec fn paths_view(ps: Seq<Vec<String>>) -> Seq<Seq<Seq<char>>> {
    ps.map_values(|p: Vec<String>| path_view(p@))
}

/// A file `depth` directories below the root is deleted when it is not
/// directly in the root, is not the protected file, and is older than
/// `cutoff_ns`.
pub open spec fn prunable(depth: nat, e: DirEntryInfo, cutoff_ns: u64) -> bool {
    &&& e.kind == EntryKind::File
    &&& depth >= 1
    &&& e.name@ != protected_name()
    &&& e.age_ns matches Some(a) && a > cutoff_ns
}

pub fn should_prune(depth: usize, entry: &DirEntryInfo, cutoff_ns: u64) -> (r: bool)
    ensures
        r == prunable(depth as nat, *entry, cutoff_ns),
{
    if entry.kind != EntryKind::File || depth == 0 {
        return false;
    }
    if same_text(entry.name.as_str(), "visor_child_stderr") {
        return false;
    }
    match entry.age_ns {
        Some(a) => a > cutoff_ns,
        None => false,
    }
}

/// The paths of the entries of `dir` that are to be deleted, in listing order.
pub open spec fn marked_in(dir: Seq<Seq<char>>, entries: Seq<DirEntryInfo>, cutoff_ns: u64) -> Seq<Seq<Seq<char>>>
    decreases entries.len(),
{
    if entries.len() == 0 {
        seq![]
    } else {
        let rest = marked_in(dir, entries.drop_last(), cutoff_ns);
        if prunable(dir.len(), entries.last(), cutoff_ns) {
            rest.push(dir.push(entries.last().name@))
        } else {
            rest
        }
    }
}

/// The paths of the subdirectories of `dir`, last listed first.
pub open spec fn subdirs_last_first(dir: Seq<Seq<char>>, entries: Seq<DirEntryInfo>) -> Seq<Seq<Seq<char>>>
    decreases entries.len(),
{
    if entries.len() == 0 {
        seq![]
    } else {
        let rest = subdirs_last_first(dir, entries.drop_first());
        if entries[0].kind == EntryKind::Directory {
            rest.push(dir.push(entries[0].name@))
        } else {
            rest
        }
    }
}

/// One prune cycle's walk: the directories still to be listed, as a stack
/// whose top is listed next, and the files marked so far.
pub struct PruneWalk {
    pub pending: Vec<Vec<String>>,
    pub marked: Vec<Vec<String>>,
    pub cutoff_ns: u64,
}

fn child_path(dir: &Vec<String>, name: &String) -> (r: Vec<String>)
    ensures
        path_view(r@) == path_view(dir@).push(name@),
{
    let mut out: Vec<String> = Vec::new();
    let mut i: usize = 0;
    while i < dir.len()
        invariant
            i <= dir@.len(),
            out@.len() == i,
            path_view(out@) == path_view(dir@).take(i as int),
        decreases dir@.len() - i,
    {
        let ghost before = out@;
        let c = String::from_str(dir[i].as_str());
        assert(c@ == dir@[i as int]@);
        out.push(c);
        i = i + 1;
        assert forall|k: int| 0 <= k < i implies #[trigger] path_view(out@)[k] == path_view(dir@).take(i as int)[k] by {
            assert(path_view(out@)[k] == out@[k]@);
            if k < i - 1 {
                assert(out@[k] == before[k]);
                assert(path_view(before)[k] == before[k]@);
                assert(path_view(before)[k] == path_view(dir@).take(i - 1)[k]);
            }
        }
        assert(path_view(out@) =~= path_view(dir@).take(i as int));
    }
    let c = String::from_str(name.as_str());
    assert(c@ == name@);
    let ghost before = out@;
    out.push(c);
    assert forall|k: int| 0 <= k < out@.len() implies #[trigger] path_view(out@)[k] == path_view(dir@).push(name@)[k] by {
        if k < out@.len() - 1 {
            assert(path_view(out@)[k] == out@[k]@);
            assert(out@[k] == before[k]);
            assert(path_view(before)[k] == before[k]@);
            assert(path_view(before)[k] == path_view(dir@)[k]);
        }
    }
    assert(path_view(out@) =~= path_view(dir@).push(name@));
    out
}

impl PruneWalk {
    /// A walk that starts at the root and deletes files older than
    /// `cutoff_ns`.
    pub fn new(cutoff_ns: u64) -> (r: PruneWalk)
        ensures
            paths_view(r.pending@) == seq![Seq::<Seq<char>>::empty()],
            r.marked@.len() == 0,
            r.cutoff_ns == cutoff_ns,
    {
        let mut pending: Vec<Vec<String>> = Vec::new();
        pending.push(Vec::new());
        proof {
            assert(path_view(pending@[0]@) =~= Seq::<Seq<char>>::empty());
            assert(paths_view(pending@) =~= seq![Seq::<Seq<char>>::empty()]);
        }
        PruneWalk { pending, marked: Vec::new(), cutoff_ns }
    }

    /// The next directory to list, taken off the stack; none when the walk
    /// is over.
    pub fn next_directory(&mut self) -> (r: Option<Vec<String>>)
        ensures
            final(self).marked == old(self).marked,
            final(self).cutoff_ns == old(self).cutoff_ns,
            old(self).pending@.len() == 0 ==> r is None && final(self).pending@ == old(self).pending@,
            old(self).pending@.len() > 0 ==> r == Some(old(self).pending@.last())
                && final(self).pending@ == old(self).pending@.drop_last(),
    {
        let r = self.pending.pop();
        assert(old(self).pending@.len() > 0 ==> self.pending@ =~= old(self).pending@.drop_last());
        r
    }

    /// Takes in the listing of `dir`: marks the files to delete, and puts its
    /// subdirectories on the stack so that the first listed is walked next.
    /// A directory that could not be listed is visited with no entries.
    pub fn visit(&mut self, dir: &Vec<String>, entries: &Vec<DirEntryInfo>)
        ensures
            final(self).cutoff_ns == old(self).cutoff_ns,
            paths_view(final(self).marked@) == paths_view(old(self).marked@) + marked_in(
                path_view(dir@),
                entries@,
                old(self).cutoff_ns,
            ),
            paths_view(final(self).pending@) == paths_view(old(self).pending@) + subdirs_last_first(
                path_view(dir@),
                entries@,
            ),
    {
        let ghost d = path_view(dir@);
        let ghost marked0 = paths_view(self.marked@);
        let mut i: usize = 0;
        while i < entries.len()
            invariant
                i <= entries@.len(),
                d == path_view(dir@),
                self.cutoff_ns == old(self).cutoff_ns,
                self.pending == old(self).pending,
                paths_view(self.marked@) == marked0 + marked_in(d, entries@.take(i as int), self.cutoff_ns),
            decreases entries@.len() - i,
        {
            assert(entries@.take(i + 1).drop_last() =~= entries@.take(i as int));
            let ghost before = self.marked@;
            if should_prune(dir.len(), &entries[i], self.cutoff_ns) {
                let p = child_path(dir, &entries[i].name);
                self.marked.push(p);
                assert(paths_view(self.marked@) =~= paths_view(before).push(path_view(p@)));
            }
            i = i + 1;
        }
        assert(entries@.take(entries@.len() as int) =~= entries@);
        let ghost pending0 = paths_view(self.pending@);
        let mut j: usize = entries.len();
        while j > 0
            invariant
                j <= entries@.len(),
                d == path_view(dir@),
                self.cutoff_ns == old(self).cutoff_ns,
                paths_view(self.marked@) == marked0 + marked_in(d, entries@, self.cutoff_ns),
                paths_view(self.pending@) == pending0 + subdirs_last_first(d, entries@.skip(j as int)),
            decreases j,
        {
            j = j - 1;
            assert(entries@.skip(j as int).drop_first() =~= entries@.skip(j + 1));
            assert(entries@.skip(j as int)[0] == entries@[j as int]);
            let ghost before = self.pending@;
            if entries[j].kind == EntryKind::Directory {
                let p = child_path(dir, &entries[j].name);
                self.pending.push(p);
                assert(paths_view(self.pending@) =~= paths_view(before).push(path_view(p@)));
            }
        }
        assert(entries@.skip(0) =~= entries@);
    }
}

/// How many deletions of a cycle succeeded and how many failed.
#[derive(Clone, Copy, Debug, PartialEq, Eq, Structural)]
pub struct PruneSummary {
    pub removed: usize,
    pub failed: usize,
}

pub open spec fn count_true(s: Seq<bool>) -> nat
    decreases s.len(),
{
    if s.len() == 0 {
        0
    } else {
        count_true(s.drop_last()) + if s.last() { 1nat } else { 0nat }
    }
}

proof fn lemma_count_true_bound(s: Seq<bool>)
    ensures
        count_true(s) <= s.len(),
    decreases s.len(),
{
    if s.len() > 0 {
        lemma_count_true_bound(s.drop_last());
    }
}

/// Counts the deletions that succeeded (`true`) and those that failed; one
/// failure does not stop the others from being counted.
pub fn tally(outcomes: &Vec<bool>) -> (r: PruneSummary)
    ensures
        r.removed == count_true(outcomes@),
        r.removed + r.failed == outcomes@.len(),
{
    let mut removed: usize = 0;
    let mut failed: usize = 0;
    let mut i: usize = 0;
    while i < outcomes.len()
        invariant
            i <= outcomes@.len(),
            removed == count_true(outcomes@.take(i as int)),
            removed + failed == i,
        decreases outcomes@.len() - i,
    {
        assert(outcomes@.take(i + 1).drop_last() =~= outcomes@.take(i as int));
        if outcomes[i] {
            removed = removed + 1;
        } else {
            failed = failed + 1;
        }
        i = i + 1;
    }
    assert(outcomes@.take(i as int) =~= outcomes@);
    PruneSummary { removed, failed }
}

} // verus!
