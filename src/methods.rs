use vstd::prelude::*;

use crate::analysis_item::AnalysisItem;
use crate::config::{Arguments, Percent};
use crate::display_info::{indentation, root_info, share_exceeds, DisplayItemInfo, InfoView, Share};

verus! {

/// One line of the rendered tree: the node's name and size, and its display state.
#[derive(Debug)]
pub struct DisplayRow {
    pub name: String,
    pub disk_size: u64,
    pub info: DisplayItemInfo,
}

/// The view of a `DisplayRow`.
pub ghost struct RowView {
    pub name: Seq<char>,
    pub disk_size: u64,
    pub info: InfoView,
}

impl View for DisplayRow {
    type V = RowView;

    open spec fn view(&self) -> RowView {
        RowView { name: self.name@, disk_size: self.disk_size, info: self.info@ }
    }
}

/// The views of a sequence of rows.
pub open spec fn row_views(rows: Seq<DisplayRow>) -> Seq<RowView> {
    rows.map_values(|r: DisplayRow| r@)
}

/// The share of `child` in `parent`.
pub open spec fn share_of(child: AnalysisItem, parent: AnalysisItem) -> Share {
    Share { part: child.disk_size, whole: parent.disk_size }
}

/// The children of a node; none for a file.
pub open spec fn children_of(item: AnalysisItem) -> Seq<AnalysisItem> {
    match item.children {
        Some(v) => v@,
        None => Seq::empty(),
    }
}

/// Child `i` of `item` is shown: its share is above the threshold.
pub open spec fn is_shown(item: AnalysisItem, i: int, min: Percent) -> bool {
    share_exceeds(share_of(children_of(item)[i], item), min)
}

/// No child of `item` after position `i` is shown.
pub open spec fn none_shown_after(item: AnalysisItem, i: int, min: Percent) -> bool {
    forall|j: int| i < j < children_of(item).len() ==> !is_shown(item, j, min)
}

/// The line of a node with display state `info`.
pub open spec fn row_of(item: AnalysisItem, info: InfoView) -> RowView {
    RowView { name: item.name@, disk_size: item.disk_size, info }
}

/// The lines rendered for `item` with display state `info`, in pre-order:
/// its own line, then, while the depth limit allows, the lines of each shown
/// child in order.
pub open spec fn rows_of(item: AnalysisItem, config: Arguments, info: InfoView) -> Seq<RowView>
    decreases item, 1int, 0int,
{
    seq![row_of(item, info)] + if info.level < config.max_depth {
        child_rows(item, config, info, 0)
    } else {
        Seq::empty()
    }
}

/// The lines rendered for the children of `item` from position `i` on.
pub open spec fn child_rows(item: AnalysisItem, config: Arguments, info: InfoView, i: int) -> Seq<
    RowView,
>
    decreases item, 0int, children_of(item).len() - i,
{
    match item.children {
        Some(v) => if 0 <= i < v@.len() {
            let rest = child_rows(item, config, info, i + 1);
            if is_shown(item, i, config.min_percent) {
                rows_of(
                    v@[i],
                    config,
                    info.child(
                        share_of(v@[i], item),
                        none_shown_after(item, i, config.min_percent),
                    ),
                ) + rest
            } else {
                rest
            }
        } else {
            Seq::empty()
        },
        None => Seq::empty(),
    }
}

/// The share of `child` in `parent`.
pub fn size_fraction(child: &AnalysisItem, parent: &AnalysisItem) -> (r: Share)
    ensures
        r == share_of(*child, *parent),
{
    Share { part: child.disk_size, whole: parent.disk_size }
}

/// Appends to `out` the lines of the tree under `item`, drawn from display
/// state `info`: the node itself, then, below `config.max_depth`, each child
/// whose share of `item` is above `config.min_percent`, the last of them
/// marked as such.
pub fn show_disk_analyze_result(
    item: &AnalysisItem,
    config: &Arguments,
    info: &DisplayItemInfo,
    out: &mut Vec<DisplayRow>,
)
    ensures
        row_views(final(out)@) == row_views(old(out)@) + rows_of(*item, *config, info@),
    decreases item,
{
    let ghost start = row_views(out@);
    let row_info = DisplayItemInfo {
        occupied_size: info.occupied_size,
        dir_level: info.dir_level,
        is_last: info.is_last,
        prefix: info.prefix.clone(),
    };
    out.push(DisplayRow { name: item.name.clone(), disk_size: item.disk_size, info: row_info });
    proof {
        assert(row_views(out@) =~= start + seq![row_of(*item, info@)]);
    }
    if info.dir_level < config.max_depth {
        match &item.children {
            Some(children) => {
                let n = children.len();
                let mut last: usize = n;
                let mut j: usize = n;
                while j > 0 && last == n
                    invariant
                        j <= n == children@.len(),
                        last <= n,
                        item.children == Some(*children),
                        last == n ==> forall|k: int| j <= k < n ==> !is_shown(*item, k, config.min_percent),
                        last < n ==> is_shown(*item, last as int, config.min_percent) && none_shown_after(*item, last as int, config.min_percent),
                    decreases j,
                {
                    j = j - 1;
                    if size_fraction(&children[j], item).exceeds(&config.min_percent) {
                        last = j;
                    }
                }
                let mut i: usize = 0;
                while i < n
                    invariant
                        i <= n == children@.len(),
                        last <= n,
                        item.children == Some(*children),
                        info.dir_level < config.max_depth,
                        last == n ==> forall|k: int| 0 <= k < n ==> !is_shown(*item, k, config.min_percent),
                        last < n ==> is_shown(*item, last as int, config.min_percent) && none_shown_after(*item, last as int, config.min_percent),
                        row_views(out@) + child_rows(*item, *config, info@, i as int) == start
                            + rows_of(*item, *config, info@),
                    decreases n - i,
                {
                    let child = &children[i];
                    let share = size_fraction(child, item);
                    let ghost before = row_views(out@);
                    if share.exceeds(&config.min_percent) {
                        proof {
                            assert(children_of(*item) == children@);
                            assert(is_shown(*item, i as int, config.min_percent));
                            if last == n {
                                assert(!is_shown(*item, i as int, config.min_percent));
                            } else if last < i {
                                assert(!is_shown(*item, i as int, config.min_percent));
                            } else if i < last {
                                assert(!none_shown_after(*item, i as int, config.min_percent));
                            }
                        }
                        let is_last = i == last;
                        assert(is_last == none_shown_after(*item, i as int, config.min_percent));
                        let child_info = info.add_item(share, is_last);
                        show_disk_analyze_result(child, config, &child_info, out);
                        proof {
                            assert(before + child_rows(*item, *config, info@, i as int) =~= row_views(out@) + child_rows(*item, *config, info@, i + 1));
                        }
                    }
                    i = i + 1;
                }
                proof {
                    assert(row_views(out@) =~= row_views(out@) + child_rows(*item, *config, info@, n as int));
                }
            },
            None => {},
        }
    }
}

/// Renders the whole tree under `root`, starting from the root's display state.
pub fn render(root: &AnalysisItem, config: &Arguments) -> (r: Vec<DisplayRow>)
    ensures
        row_views(r@) == rows_of(*root, *config, root_info()),
{
    let mut out: Vec<DisplayRow> = Vec::new();
    let info = DisplayItemInfo::new();
    show_disk_analyze_result(root, config, &info, &mut out);
    proof {
        assert(row_views(Seq::<DisplayRow>::empty()) =~= Seq::<RowView>::empty());
        assert(Seq::<RowView>::empty() + rows_of(*root, *config, info@) =~= rows_of(
            *root,
            *config,
            info@,
        ));
    }
    out
}

/// Depth bound: starting within `config.max_depth`, no rendered line lies
/// deeper than `config.max_depth` levels below the root.
pub proof fn lemma_depth_bounded(item: AnalysisItem, config: Arguments, info: InfoView)
    requires
        info.level <= config.max_depth,
    ensures
        forall|k: int|
            0 <= k < rows_of(item, config, info).len() ==> #[trigger] rows_of(
                item,
                config,
                info,
            )[k].info.level <= config.max_depth,
    decreases item, 1int, 0int,
{
    let rows = rows_of(item, config, info);
    if info.level < config.max_depth {
        lemma_child_rows_depth(item, config, info, 0);
        let rest = child_rows(item, config, info, 0);
        assert forall|k: int| 0 <= k < rows.len() implies #[trigger] rows[k].info.level
            <= config.max_depth by {
            if k > 0 {
                assert(rows[k] == rest[k - 1]);
            }
        }
    }
}

/// The lines of the children of a node within the depth limit lie within it.
proof fn lemma_child_rows_depth(item: AnalysisItem, config: Arguments, info: InfoView, i: int)
    requires
        info.level < config.max_depth,
    ensures
        forall|k: int|
            0 <= k < child_rows(item, config, info, i).len() ==> #[trigger] child_rows(
                item,
                config,
                info,
                i,
            )[k].info.level <= config.max_depth,
    decreases item, 0int, children_of(item).len() - i,
{
    match item.children {
        Some(v) => {
            if 0 <= i < v@.len() {
                lemma_child_rows_depth(item, config, info, i + 1);
                if !is_shown(item, i, config.min_percent) {
                    assert(child_rows(item, config, info, i) == child_rows(item, config, info, i + 1));
                } else {
                    let ci = info.child(
                        share_of(v@[i], item),
                        none_shown_after(item, i, config.min_percent),
                    );
                    lemma_depth_bounded(v@[i], config, ci);
                    let head = rows_of(v@[i], config, ci);
                    let rest = child_rows(item, config, info, i + 1);
                    assert(child_rows(item, config, info, i) == head + rest);
                    assert forall|k: int|
                        0 <= k < (head + rest).len() implies #[trigger] (head + rest)[k].info.level
                        <= config.max_depth by {
                        if k >= head.len() {
                            assert((head + rest)[k] == rest[k - head.len()]);
                        }
                    }
                }
            }
        },
        None => {},
    }
}

/// Threshold: every line after the first shows a node whose share of its
/// parent (`100 * size / parent size`, 0 for an empty parent) is strictly
/// above `config.min_percent`.
pub proof fn lemma_shown_above_threshold(item: AnalysisItem, config: Arguments, info: InfoView)
    ensures
        forall|k: int|
            1 <= k < rows_of(item, config, info).len() ==> share_exceeds(
                #[trigger] rows_of(item, config, info)[k].info.occupied,
                config.min_percent,
            ),
    decreases item, 1int, 0int,
{
    let rows = rows_of(item, config, info);
    if info.level < config.max_depth {
        lemma_child_rows_above(item, config, info, 0);
        let rest = child_rows(item, config, info, 0);
        assert forall|k: int| 1 <= k < rows.len() implies share_exceeds(
            #[trigger] rows[k].info.occupied,
            config.min_percent,
        ) by {
            assert(rows[k] == rest[k - 1]);
        }
    }
}

/// Every line rendered for the children of a node shows a share above the
/// threshold.
proof fn lemma_child_rows_above(item: AnalysisItem, config: Arguments, info: InfoView, i: int)
    ensures
        forall|k: int|
            0 <= k < child_rows(item, config, info, i).len() ==> share_exceeds(
                #[trigger] child_rows(item, config, info, i)[k].info.occupied,
                config.min_percent,
            ),
    decreases item, 0int, children_of(item).len() - i,
{
    match item.children {
        Some(v) => {
            if 0 <= i < v@.len() {
                lemma_child_rows_above(item, config, info, i + 1);
                if !is_shown(item, i, config.min_percent) {
                    assert(child_rows(item, config, info, i) == child_rows(item, config, info, i + 1));
                } else {
                    let ci = info.child(
                        share_of(v@[i], item),
                        none_shown_after(item, i, config.min_percent),
                    );
                    lemma_shown_above_threshold(v@[i], config, ci);
                    let head = rows_of(v@[i], config, ci);
                    let rest = child_rows(item, config, info, i + 1);
                    assert(child_rows(item, config, info, i) == head + rest);
                    assert forall|k: int| 0 <= k < (head + rest).len() implies share_exceeds(
                        #[trigger] (head + rest)[k].info.occupied,
                        config.min_percent,
                    ) by {
                        if k >= head.len() {
                            assert((head + rest)[k] == rest[k - head.len()]);
                        } else if k == 0 {
                            assert(head[0] == row_of(v@[i], ci));
                        }
                    }
                }
            }
        },
        None => {},
    }
}

/// Last sibling: once any child of a node is shown, exactly one shown child
/// is marked last, and no shown child follows it.
pub proof fn lemma_one_last_sibling(item: AnalysisItem, min: Percent, i: int)
    requires
        0 <= i < children_of(item).len(),
        is_shown(item, i, min),
    ensures
        exists|j: int|
            i <= j < children_of(item).len() && is_shown(item, j, min) && #[trigger] none_shown_after(
                item,
                j,
                min,
            ),
        forall|j: int, k: int|
            0 <= j < children_of(item).len() && 0 <= k < children_of(item).len() && is_shown(
                item,
                j,
                min,
            ) && is_shown(item, k, min) && #[trigger] none_shown_after(item, j, min)
                && #[trigger] none_shown_after(item, k, min) ==> j == k,
    decreases children_of(item).len() - i,
{
    if !none_shown_after(item, i, min) {
        let j = choose|j: int| i < j < children_of(item).len() && is_shown(item, j, min);
        lemma_one_last_sibling(item, min, j);
    }
    assert forall|j: int, k: int|
        0 <= j < children_of(item).len() && 0 <= k < children_of(item).len() && is_shown(
            item,
            j,
            min,
        ) && is_shown(item, k, min) && #[trigger] none_shown_after(item, j, min)
            && #[trigger] none_shown_after(item, k, min) implies j == k by {
        if j < k {
            assert(!is_shown(item, k, min));
        } else if k < j {
            assert(!is_shown(item, j, min));
        }
    }
}

/// The last-sibling flags met when descending along `path` from `info`:
/// the flag of `info`, then that of each step.
pub open spec fn flags_along(info: InfoView, path: Seq<(Share, bool)>) -> Seq<bool> {
    seq![info.is_last] + path.map_values(|p: (Share, bool)| p.1)
}

/// Indentation: the prefix reached by descending along `path` is the
/// starting prefix followed by the continuation glyphs of the ancestors'
/// last-sibling flags alone, and its own flag is the last step's.
pub proof fn lemma_prefix_from_ancestors(info: InfoView, path: Seq<(Share, bool)>)
    ensures
        info.descend(path).prefix == info.prefix + indentation(
            flags_along(info, path).take(path.len() as int),
        ),
        info.descend(path).is_last == flags_along(info, path)[path.len() as int],
    decreases path.len(),
{
    let f = flags_along(info, path);
    if path.len() == 0 {
        assert(f.take(0) =~= Seq::<bool>::empty());
        assert(info.prefix + Seq::<char>::empty() =~= info.prefix);
    } else {
        let p = path.drop_last();
        let m = p.len() as int;
        lemma_prefix_from_ancestors(info, p);
        let fp = flags_along(info, p);
        assert(forall|k: int| 0 <= k <= m ==> fp[k] == f[k]);
        assert(f.take(m + 1).drop_last() =~= fp.take(m));
        assert(f.take(m + 1).last() == f[m]);
        assert(info.descend(path).prefix =~= info.prefix + indentation(f.take(m + 1)));
    }
}

} // verus!
