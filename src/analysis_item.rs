use vstd::prelude::*;

use crate::file_info::FileInfo;

verus! {

broadcast use vstd::seq_lib::group_to_multiset_ensures;

/// Why an entry (or the whole run) produced no tree.
#[derive(Debug, Clone, Copy, PartialEq, Eq, Structural)]
pub enum AnalyzeError {
    /// The root path cannot be classified or does not exist.
    RootUnavailable,
    /// The root path is a file, not a directory.
    RootNotADirectory,
    /// A directory lies on another volume than the root.
    BoundaryCrossed,
    /// A listing or a metadata query failed for this entry.
    EntryUnreadable,
    /// The sizes below a directory add up to more than a `u64` holds.
    SizeOverflow,
}

/// What the engine does next with an entry whose metadata is known.
#[derive(Debug, Clone, Copy, PartialEq, Eq, Structural)]
pub enum Visit {
    /// A file: it becomes a leaf of this size.
    Leaf { size: u64 },
    /// A directory on the root's volume: list it and analyze its entries.
    Descend,
}

/// A node of the size tree: a file (no children) or a directory.
#[derive(Debug)]
pub struct AnalysisItem {
    pub name: String,
    pub disk_size: u64,
    pub children: Option<Vec<AnalysisItem>>,
}

/// Total of the sizes of the items of `s`.
pub open spec fn sum_sizes(s: Seq<AnalysisItem>) -> int
    decreases s.len(),
{
    if s.len() == 0 {
        0
    } else {
        sum_sizes(s.drop_last()) + s.last().disk_size
    }
}

/// The items of `s` come in non-increasing order of size.
pub open spec fn sorted_by_size(s: Seq<AnalysisItem>) -> bool {
    forall|i: int, j: int| 0 <= i < j < s.len() ==> s[i].disk_size >= s[j].disk_size
}

/// The items that the successful outcomes hold, in order.
pub open spec fn successes(outcomes: Seq<Result<AnalysisItem, AnalyzeError>>) -> Seq<AnalysisItem>
    decreases outcomes.len(),
{
    if outcomes.len() == 0 {
        Seq::empty()
    } else {
        let rest = successes(outcomes.drop_last());
        match outcomes.last() {
            Ok(item) => rest.push(item),
            Err(_) => rest,
        }
    }
}

/// What the engine does with an entry of metadata `info` under a root on
/// volume `root_volume_id`.
pub open spec fn visit_of(info: FileInfo, root_volume_id: u64) -> Result<Visit, AnalyzeError> {
    match info {
        FileInfo::File { size, .. } => Ok(Visit::Leaf { size }),
        FileInfo::Directory { volume_id } => if volume_id == root_volume_id {
            Ok(Visit::Descend)
        } else {
            Err(AnalyzeError::BoundaryCrossed)
        },
    }
}

impl AnalysisItem {
    /// Every directory below (and including) this node has the total of its
    /// children's sizes as its own size, and its children sorted by size.
    pub open spec fn well_formed(self) -> bool
        decreases self,
    {
        match self.children {
            None => true,
            Some(v) => {
                &&& self.disk_size == sum_sizes(v@)
                &&& sorted_by_size(v@)
                &&& forall|i: int| 0 <= i < v@.len() ==> (#[trigger] v@[i]).well_formed()
            },
        }
    }

    /// The name shown for a path: its final component, or "." where it has none.
    pub fn entry_name(file_name: Option<String>) -> (r: String)
        ensures
            file_name is Some ==> r@ == file_name->Some_0@,
            file_name is None ==> r@ == seq!['.'],
    {
        match file_name {
            Some(name) => name,
            None => {
                proof {
                    reveal_strlit(".");
                }
                ".".to_string()
            },
        }
    }

    /// The volume that bounds the analysis, from the root's metadata (`None`
    /// where it could not be read).
    pub fn root_volume(info: Option<FileInfo>) -> (r: Result<u64, AnalyzeError>)
        ensures
            info is None ==> r == Err::<u64, AnalyzeError>(AnalyzeError::RootUnavailable),
            info matches Some(FileInfo::File { .. }) ==> r == Err::<u64, AnalyzeError>(
                AnalyzeError::RootNotADirectory,
            ),
            info matches Some(FileInfo::Directory { volume_id }) ==> r == Ok::<u64, AnalyzeError>(
                volume_id,
            ),
    {
        match info {
            None => Err(AnalyzeError::RootUnavailable),
            Some(FileInfo::File { .. }) => Err(AnalyzeError::RootNotADirectory),
            Some(FileInfo::Directory { volume_id }) => Ok(volume_id),
        }
    }

    /// Decides what to do with an entry: a file becomes a leaf, a directory on
    /// the root's volume is descended into, one on another volume is refused.
    pub fn visit(info: &FileInfo, root_volume_id: u64) -> (r: Result<Visit, AnalyzeError>)
        ensures
            r == visit_of(*info, root_volume_id),
    {
        match info {
            FileInfo::File { size, .. } => Ok(Visit::Leaf { size: *size }),
            FileInfo::Directory { volume_id } => {
                if *volume_id == root_volume_id {
                    Ok(Visit::Descend)
                } else {
                    Err(AnalyzeError::BoundaryCrossed)
                }
            },
        }
    }

    /// This node is the directory `name` built from `outcomes`: its children
    /// are the successful items, in non-increasing order of size, its size is
    /// their total, and it is well formed where they are.
    pub open spec fn directory_of(
        self,
        name: String,
        outcomes: Seq<Result<AnalysisItem, AnalyzeError>>,
    ) -> bool {
        &&& self.name == name
        &&& self.disk_size == sum_sizes(successes(outcomes))
        &&& self.children matches Some(c) && {
            &&& c@.to_multiset() == successes(outcomes).to_multiset()
            &&& sorted_by_size(c@)
            &&& self.disk_size == sum_sizes(c@)
        }
        &&& (forall|i: int|
            0 <= i < successes(outcomes).len() ==> (#[trigger] successes(outcomes)[i]).well_formed())
            ==> self.well_formed()
    }

    /// A file node.
    pub fn leaf(name: String, size: u64) -> (r: AnalysisItem)
        ensures
            r.name == name,
            r.disk_size == size,
            r.children is None,
            r.well_formed(),
    {
        AnalysisItem { name, disk_size: size, children: None }
    }

    /// A directory node built from the outcomes of analyzing its entries.
    /// Failed outcomes are dropped; the surviving items become the children,
    /// sorted by non-increasing size, and the node's size is their total.
    /// Fails with `SizeOverflow` exactly when that total exceeds `u64::MAX`.
    pub fn directory(name: String, outcomes: Vec<Result<AnalysisItem, AnalyzeError>>) -> (r: Result<
        AnalysisItem,
        AnalyzeError,
    >)
        ensures
            sum_sizes(successes(outcomes@)) > u64::MAX ==> r == Err::<AnalysisItem, AnalyzeError>(
                AnalyzeError::SizeOverflow,
            ),
            sum_sizes(successes(outcomes@)) <= u64::MAX ==> (r matches Ok(item)
                && item.directory_of(name, outcomes@)),
    {
            let ghost all = outcomes@;
        let mut rest = outcomes;
        let mut kept: Vec<AnalysisItem> = Vec::new();
        let mut total: u64 = 0;
        while rest.len() > 0
            invariant
                all == outcomes@,
                successes(all).to_multiset() == successes(rest@).to_multiset().add(
                    kept@.to_multiset(),
                ),
                sum_sizes(successes(all)) == sum_sizes(successes(rest@)) + sum_sizes(kept@),
                total == sum_sizes(kept@),
                forall|x: AnalysisItem|
                    kept@.contains(x) ==> successes(all).contains(x),
                forall|x: AnalysisItem|
                    successes(rest@).contains(x) ==> successes(all).contains(x),
            decreases rest.len(),
        {
            let ghost before = rest@;
            let outcome = rest.pop().unwrap();
            assert(before.drop_last() == rest@);
            assert(before.last() == outcome);
            match outcome {
                Ok(item) => {
                    proof {
                        assert(successes(before) == successes(rest@).push(item));
                        assert(successes(rest@).push(item).drop_last() =~= successes(rest@));
                        assert(sum_sizes(successes(before)) == sum_sizes(successes(rest@))
                            + item.disk_size);
                        lemma_sum_sizes_nonneg(successes(rest@));
                        assert(kept@.push(item).drop_last() == kept@);
                        assert(successes(before).contains(item)) by {
                            assert(successes(before).last() == item);
                        }
                        assert forall|x: AnalysisItem|
                            successes(rest@).contains(x) implies successes(all).contains(x) by {
                            let k = choose|k: int|
                                0 <= k < successes(rest@).len() && successes(rest@)[k] == x;
                            assert(successes(before)[k] == x);
                        }
                    }
                    if item.disk_size > u64::MAX - total {
                        assert(sum_sizes(successes(all)) > u64::MAX);
                        return Err(AnalyzeError::SizeOverflow);
                    }
                    total = total + item.disk_size;
                    kept.push(item);
                    proof {
                        assert(successes(all).to_multiset() =~= successes(rest@).to_multiset().add(
                            kept@.to_multiset(),
                        ));
                    }
                },
                Err(_) => {},
            }
        }
        let children = sort_by_size(kept);
        proof {
            lemma_sum_sizes_permutation(kept@, children@);
            assert(successes(all).to_multiset() =~= kept@.to_multiset());
            lemma_sum_sizes_permutation(successes(all), children@);
            if forall|i: int|
                0 <= i < successes(all).len() ==> (#[trigger] successes(all)[i]).well_formed() {
                assert forall|i: int| 0 <= i < children@.len() implies (
                #[trigger] children@[i]).well_formed() by {
                    assert(children@.to_multiset().count(children@[i]) > 0);
                    assert(successes(all).contains(children@[i]));
                }
            }
        }
        Ok(AnalysisItem { name, disk_size: total, children: Some(children) })
    }
}

/// Sorts items by non-increasing size (selection of the largest remaining).
fn sort_by_size(items: Vec<AnalysisItem>) -> (r: Vec<AnalysisItem>)
    ensures
        r@.to_multiset() == items@.to_multiset(),
        sorted_by_size(r@),
{
    let mut rest = items;
    let mut out: Vec<AnalysisItem> = Vec::new();
    while rest.len() > 0
        invariant
            out@.to_multiset().add(rest@.to_multiset()) == items@.to_multiset(),
            sorted_by_size(out@),
            forall|i: int, j: int|
                0 <= i < out@.len() && 0 <= j < rest@.len() ==> out@[i].disk_size
                    >= rest@[j].disk_size,
        decreases rest.len(),
    {
        let mut best: usize = 0;
        let mut k: usize = 1;
        while k < rest.len()
            invariant
                0 < rest@.len(),
                best < rest@.len(),
                1 <= k <= rest@.len(),
                forall|j: int| 0 <= j < k ==> rest@[best as int].disk_size >= rest@[j].disk_size,
            decreases rest.len() - k,
        {
            if rest[k].disk_size > rest[best].disk_size {
                best = k;
            }
            k = k + 1;
        }
        let ghost before = rest@;
        let x = rest.remove(best);
        proof {
            assert(x == before[best as int]);
            assert(rest@ == before.remove(best as int));
            vstd::seq_lib::to_multiset_remove(before, best as int);
            assert(before.contains(x));
            assert(before.to_multiset().count(x) > 0);
        }
        out.push(x);
        proof {
            assert(out@.to_multiset().add(rest@.to_multiset()) =~= items@.to_multiset());
            assert forall|i: int, j: int|
                0 <= i < out@.len() && 0 <= j < rest@.len() implies out@[i].disk_size
                >= rest@[j].disk_size by {
                if j < best {
                    assert(rest@[j] == before[j]);
                } else {
                    assert(rest@[j] == before[j + 1]);
                }
            }
        }
    }
    out
}

/// A total of sizes is never negative.
proof fn lemma_sum_sizes_nonneg(s: Seq<AnalysisItem>)
    ensures
        sum_sizes(s) >= 0,
    decreases s.len(),
{
    if s.len() > 0 {
        lemma_sum_sizes_nonneg(s.drop_last());
    }
}

/// Removing one item takes exactly its size off the total.
proof fn lemma_sum_sizes_remove(s: Seq<AnalysisItem>, k: int)
    requires
        0 <= k < s.len(),
    ensures
        sum_sizes(s) == sum_sizes(s.remove(k)) + s[k].disk_size,
    decreases s.len(),
{
    if k == s.len() - 1 {
        assert(s.remove(k) =~= s.drop_last());
    } else {
        lemma_sum_sizes_remove(s.drop_last(), k);
        assert(s.remove(k).drop_last() =~= s.drop_last().remove(k));
        assert(s.remove(k).last() == s.last());
    }
}

/// Two sequences holding the same items have the same total size.
pub proof fn lemma_sum_sizes_permutation(a: Seq<AnalysisItem>, b: Seq<AnalysisItem>)
    requires
        a.to_multiset() == b.to_multiset(),
    ensures
        sum_sizes(a) == sum_sizes(b),
    decreases a.len(),
{
    if a.len() == 0 {
        assert(b.to_multiset().len() == 0);
    } else {
        let x = a.last();
        assert(a.to_multiset().count(x) > 0) by {
            assert(a.contains(x)) by {
                assert(a[a.len() - 1] == x);
            }
        }
        assert(b.contains(x));
        let k = choose|k: int| 0 <= k < b.len() && b[k] == x;
        assert(a.drop_last() =~= a.remove(a.len() - 1));
        assert(a.drop_last().to_multiset() == b.remove(k).to_multiset());
        lemma_sum_sizes_permutation(a.drop_last(), b.remove(k));
        lemma_sum_sizes_remove(b, k);
    }
}

/// Boundary exclusion: an entry whose analysis failed, as it does for a
/// directory on another volume than the root (`visit_of` gives
/// `BoundaryCrossed`), adds no child and no size to its parent: the
/// successful items are those of the other outcomes.
pub proof fn lemma_failed_entry_excluded(outcomes: Seq<Result<AnalysisItem, AnalyzeError>>, k: int)
    requires
        0 <= k < outcomes.len(),
        outcomes[k] is Err,
    ensures
        successes(outcomes) == successes(outcomes.remove(k)),
        sum_sizes(successes(outcomes)) == sum_sizes(successes(outcomes.remove(k))),
    decreases outcomes.len(),
{
    if k == outcomes.len() - 1 {
        assert(outcomes.remove(k) =~= outcomes.drop_last());
    } else {
        lemma_failed_entry_excluded(outcomes.drop_last(), k);
        assert(outcomes.remove(k).drop_last() =~= outcomes.drop_last().remove(k));
        assert(outcomes.remove(k).last() == outcomes.last());
    }
}

/// A directory on another volume than the root is refused.
pub proof fn lemma_boundary_crossing_refused(info: FileInfo, root_volume_id: u64)
    requires
        info matches FileInfo::Directory { volume_id } && volume_id != root_volume_id,
    ensures
        visit_of(info, root_volume_id) == Err::<Visit, AnalyzeError>(AnalyzeError::BoundaryCrossed),
{
}

} // verus!
