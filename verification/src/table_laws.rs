//! What holds of the rows of every ranking, stated of their fields.

use crate::floats::lemma_nearest_double_exact;
use crate::models::{
    BenchmarkNodeRow, ChampionCollection, ChampionSummary, MeasurementKind, NodeView, ParticipationState,
    RecordView,
};
use crate::order::{
    goes_before, key_order, law_sorted_order_is_stable, lemma_key_order_flip, part_order, sorted_order,
};
use crate::rankings::{
    MetricKind, NodeFigures, ReferenceFigures, RowView, ahead, chosen_rows, count_ahead, is_ranked, leader,
    lemma_leader_is_chosen, metric, metric_champion, metric_key, metric_rank, node_with_id,
    overall_champion, overall_key, plain_rows, rank_view, ranked, ranked_in, reminder_of, reminders,
    reminders_of, row_views, scored, table, table_key, tests_per_day, with_ranks,
};
use crate::settings::SettingsView;
use crate::traffic::usual_size;
use vstd::prelude::*;

verus! {

/// The place, among the rows in the order of the nodes, of a row of the table.
spec fn origin(plain: Seq<RowView>, i: int) -> int {
    sorted_order(ranked(plain).map_values(table_key()))[i]
}

proof fn lemma_origin(rows: Seq<BenchmarkNodeRow>, plain: Seq<RowView>, i: int)
    requires
        row_views(rows) == table(plain),
        0 <= i < rows.len(),
    ensures
        rows.len() == plain.len(),
        0 <= origin(plain, i) < plain.len(),
        rows[i]@ == with_ranks(plain, origin(plain, i)),
        forall|j: int| i < j < rows.len() ==> origin(plain, i) != #[trigger] origin(plain, j),
        forall|j: int|
            i < j < rows.len() ==> key_order(table_key()(rows[i]@), table_key()(#[trigger] rows[j]@)) <= 0,
{
    let keys = ranked(plain).map_values(table_key());
    law_sorted_order_is_stable(keys);
    let order = sorted_order(keys);
    assert(row_views(rows).len() == rows.len());
    assert(row_views(rows)[i] == rows[i]@);
    assert(table(plain)[i] == ranked(plain)[order[i]]);
    assert forall|j: int| i < j < rows.len() implies origin(plain, i) != #[trigger] origin(plain, j) by {
        assert(goes_before(keys, order[i], order[j]));
        lemma_key_order_flip(keys[order[i]], keys[order[i]]);
    }
    assert forall|j: int| i < j < rows.len() implies key_order(
        table_key()(rows[i]@),
        table_key()(#[trigger] rows[j]@),
    ) <= 0 by {
        assert(goes_before(keys, order[i], order[j]));
        assert(row_views(rows)[j] == rows[j]@);
        assert(table(plain)[j] == ranked(plain)[order[j]]);
    }
}

proof fn lemma_place(rows: Seq<BenchmarkNodeRow>, plain: Seq<RowView>, k: int) -> (i: int)
    requires
        row_views(rows) == table(plain),
        0 <= k < plain.len(),
    ensures
        0 <= i < rows.len(),
        origin(plain, i) == k,
        rows[i]@ == with_ranks(plain, k),
{
    let keys = ranked(plain).map_values(table_key());
    law_sorted_order_is_stable(keys);
    let order = sorted_order(keys);
    assert(order.contains(k));
    let i = choose|i: int| 0 <= i < order.len() && order[i] == k;
    assert(row_views(rows).len() == rows.len());
    lemma_origin(rows, plain, i);
    i
}

proof fn lemma_ahead_counts_more(rows: Seq<RowView>, kind: MetricKind, i: int, j: int, n: int)
    requires
        0 <= i < rows.len(),
        0 <= j < rows.len(),
        0 <= n <= rows.len(),
        is_ranked(rows[i], kind),
        ahead(rows, kind, i, j),
    ensures
        count_ahead(rows, kind, i, n) + (if i < n {
            1int
        } else {
            0int
        }) <= count_ahead(rows, kind, j, n),
    decreases n,
{
    if n > 0 {
        lemma_ahead_counts_more(rows, kind, i, j, n - 1);
        assert(ahead(rows, kind, n - 1, i) ==> ahead(rows, kind, n - 1, j));
        assert(!ahead(rows, kind, i, i));
    }
}

proof fn lemma_count_is_not_negative(rows: Seq<RowView>, kind: MetricKind, i: int, n: int)
    ensures
        count_ahead(rows, kind, i, n) >= 0,
    decreases n,
{
    if n > 0 {
        lemma_count_is_not_negative(rows, kind, i, n - 1);
    }
}

proof fn lemma_next_ahead(rows: Seq<RowView>, kind: MetricKind, i: int, n: int) -> (k: int)
    requires
        0 <= i < rows.len(),
        0 <= n <= rows.len(),
        count_ahead(rows, kind, i, n) > 0,
    ensures
        0 <= k < n,
        ahead(rows, kind, k, i),
        forall|m: int| 0 <= m < n && #[trigger] ahead(rows, kind, m, i) ==> m == k || ahead(rows, kind, m, k),
    decreases n,
{
    let last = n - 1;
    if !ahead(rows, kind, last, i) {
        lemma_next_ahead(rows, kind, i, n - 1)
    } else if count_ahead(rows, kind, i, n - 1) == 0 {
        lemma_none_ahead(rows, kind, i, n - 1);
        last
    } else {
        lemma_count_is_not_negative(rows, kind, i, n - 1);
        let k = lemma_next_ahead(rows, kind, i, n - 1);
        if ahead(rows, kind, last, k) {
            k
        } else {
            assert(ahead(rows, kind, k, last));
            assert forall|m: int| 0 <= m < n && #[trigger] ahead(rows, kind, m, i) implies m == last || ahead(
                rows,
                kind,
                m,
                last,
            ) by {
                if m != last && m != k {
                    assert(ahead(rows, kind, m, k));
                }
            }
            last
        }
    }
}

proof fn lemma_none_ahead(rows: Seq<RowView>, kind: MetricKind, i: int, n: int)
    requires
        count_ahead(rows, kind, i, n) == 0,
    ensures
        forall|m: int| 0 <= m < n ==> !(#[trigger] ahead(rows, kind, m, i)),
    decreases n,
{
    if n > 0 {
        lemma_count_is_not_negative(rows, kind, i, n - 1);
        lemma_none_ahead(rows, kind, i, n - 1);
    }
}

proof fn lemma_next_counts_one_less(rows: Seq<RowView>, kind: MetricKind, k: int, i: int, n: int)
    requires
        0 <= k < rows.len(),
        0 <= i < rows.len(),
        0 <= n <= rows.len(),
        ahead(rows, kind, k, i),
        forall|m: int|
            0 <= m < rows.len() && #[trigger] ahead(rows, kind, m, i) ==> m == k || ahead(rows, kind, m, k),
    ensures
        count_ahead(rows, kind, i, n) == count_ahead(rows, kind, k, n) + if k < n {
            1int
        } else {
            0int
        },
    decreases n,
{
    if n > 0 {
        lemma_next_counts_one_less(rows, kind, k, i, n - 1);
        let m = n - 1;
        assert(ahead(rows, kind, m, k) ==> ahead(rows, kind, m, i));
        assert(!ahead(rows, kind, k, k));
        assert(ahead(rows, kind, m, i) ==> m == k || ahead(rows, kind, m, k));
    }
}

/// A row with a rank in each of the three metrics has the sum of these three ranks as its score; a
/// row that lacks one of them has none.
pub proof fn law_scores_are_sums_of_ranks(rows: Seq<BenchmarkNodeRow>, plain: Seq<RowView>, i: int)
    requires
        row_views(rows) == table(plain),
        0 <= i < rows.len(),
    ensures
        match (rows[i].download.rank, rows[i].upload.rank, rows[i].latency.rank) {
            (Some(download), Some(upload), Some(latency)) => rows[i].total_rank_score matches Some(score)
                && score == download + upload + latency,
            _ => rows[i].total_rank_score is None,
        },
{
    lemma_origin(rows, plain, i);
    let row = rows[i]@;
    assert(row == rows[i]@);
}

/// Exactly the participants with a median have a rank.
pub proof fn law_participants_with_a_median_are_ranked(rows: Seq<BenchmarkNodeRow>, plain: Seq<RowView>, i: int)
    requires
        row_views(rows) == table(plain),
        0 <= i < rows.len(),
    ensures
        ({
            let row = rows[i];
            let takes_part = row.state == ParticipationState::Participating;
            &&& row.latency.rank is Some <==> takes_part && row.latency.median is Some
            &&& row.download.rank is Some <==> takes_part && row.download.median is Some
            &&& row.upload.rank is Some <==> takes_part && row.upload.median is Some
        }),
{
    lemma_origin(rows, plain, i);
    let row = rows[i]@;
    assert(row.latency.rank == metric_rank(plain, MetricKind::Latency, origin(plain, i)));
    assert(row.download.rank == metric_rank(plain, MetricKind::Download, origin(plain, i)));
    assert(row.upload.rank == metric_rank(plain, MetricKind::Upload, origin(plain, i)));
}

proof fn lemma_ranks_of_two(plain: Seq<RowView>, kind: MetricKind, i: int, j: int)
    requires
        0 <= i < plain.len(),
        0 <= j < plain.len(),
        i != j,
        is_ranked(plain[i], kind),
        is_ranked(plain[j], kind),
    ensures
        metric_rank(plain, kind, i)->0 != metric_rank(plain, kind, j)->0,
        ahead(plain, kind, i, j) <==> metric_rank(plain, kind, i)->0 < metric_rank(plain, kind, j)->0,
{
    let n = plain.len() as int;
    if ahead(plain, kind, i, j) {
        lemma_ahead_counts_more(plain, kind, i, j, n);
    } else {
        assert(ahead(plain, kind, j, i));
        lemma_ahead_counts_more(plain, kind, j, i, n);
    }
}

/// No two rows share a rank. Of two rows with medians that are not negative, the one with the
/// smaller latency has the better latency rank, and the one with the larger speed the better rank
/// in that direction. (Such numbers are ordered like their bits.)
pub proof fn law_better_medians_have_better_ranks(
    rows: Seq<BenchmarkNodeRow>,
    plain: Seq<RowView>,
    i: int,
    j: int,
)
    requires
        row_views(rows) == table(plain),
        0 <= i < rows.len(),
        0 <= j < rows.len(),
        i != j,
    ensures
        ({
            let left = rows[i].latency;
            let right = rows[j].latency;
            left.rank is Some && right.rank is Some ==> {
                &&& left.rank != right.rank
                &&& left.median->0.bits < right.median->0.bits < 0x8000_0000_0000_0000 ==> left.rank->0
                    < right.rank->0
            }
        }),
        ({
            let left = rows[i].download;
            let right = rows[j].download;
            left.rank is Some && right.rank is Some ==> {
                &&& left.rank != right.rank
                &&& right.median->0.bits < left.median->0.bits < 0x8000_0000_0000_0000 ==> left.rank->0
                    < right.rank->0
            }
        }),
        ({
            let left = rows[i].upload;
            let right = rows[j].upload;
            left.rank is Some && right.rank is Some ==> {
                &&& left.rank != right.rank
                &&& right.median->0.bits < left.median->0.bits < 0x8000_0000_0000_0000 ==> left.rank->0
                    < right.rank->0
            }
        }),
{
    lemma_origin(rows, plain, i);
    lemma_origin(rows, plain, j);
    let a = origin(plain, i);
    let b = origin(plain, j);
    assert(a != b);
    let left = rows[i]@;
    let right = rows[j]@;
    assert(left.latency.rank == metric_rank(plain, MetricKind::Latency, a));
    assert(right.latency.rank == metric_rank(plain, MetricKind::Latency, b));
    assert(left.download.rank == metric_rank(plain, MetricKind::Download, a));
    assert(right.download.rank == metric_rank(plain, MetricKind::Download, b));
    assert(left.upload.rank == metric_rank(plain, MetricKind::Upload, a));
    assert(right.upload.rank == metric_rank(plain, MetricKind::Upload, b));
    if rows[i].latency.rank is Some && rows[j].latency.rank is Some {
        lemma_ranks_of_two(plain, MetricKind::Latency, a, b);
    }
    if rows[i].download.rank is Some && rows[j].download.rank is Some {
        lemma_ranks_of_two(plain, MetricKind::Download, a, b);
    }
    if rows[i].upload.rank is Some && rows[j].upload.rank is Some {
        lemma_ranks_of_two(plain, MetricKind::Upload, a, b);
    }
}

/// Of two nodes with the same median the one that is listed first has the better rank.
pub proof fn law_equal_medians_rank_in_the_order_of_the_nodes(plain: Seq<RowView>, i: int, j: int)
    requires
        0 <= i < j < plain.len(),
    ensures
        ({
            let left = ranked(plain)[i];
            let right = ranked(plain)[j];
            &&& left.latency.rank is Some && right.latency.rank is Some && left.latency.median
                == right.latency.median ==> left.latency.rank->0 < right.latency.rank->0
            &&& left.download.rank is Some && right.download.rank is Some && left.download.median
                == right.download.median ==> left.download.rank->0 < right.download.rank->0
            &&& left.upload.rank is Some && right.upload.rank is Some && left.upload.median
                == right.upload.median ==> left.upload.rank->0 < right.upload.rank->0
        }),
{
    if is_ranked(plain[i], MetricKind::Latency) && is_ranked(plain[j], MetricKind::Latency) {
        lemma_ranks_of_two(plain, MetricKind::Latency, i, j);
    }
    if is_ranked(plain[i], MetricKind::Download) && is_ranked(plain[j], MetricKind::Download) {
        lemma_ranks_of_two(plain, MetricKind::Download, i, j);
    }
    if is_ranked(plain[i], MetricKind::Upload) && is_ranked(plain[j], MetricKind::Upload) {
        lemma_ranks_of_two(plain, MetricKind::Upload, i, j);
    }
}

proof fn lemma_rank_before(plain: Seq<RowView>, kind: MetricKind, i: int) -> (k: int)
    requires
        0 <= i < plain.len(),
        metric_rank(plain, kind, i) is Some,
        metric_rank(plain, kind, i)->0 > 1,
    ensures
        0 <= k < plain.len(),
        metric_rank(plain, kind, k) == Some(metric_rank(plain, kind, i)->0 - 1),
{
    let n = plain.len() as int;
    let k = lemma_next_ahead(plain, kind, i, n);
    lemma_next_counts_one_less(plain, kind, k, i, n);
    k
}

/// Ranks count from one without a gap: where a row has a rank above one, another row has the rank
/// before it.
pub proof fn law_ranks_have_no_gaps(rows: Seq<BenchmarkNodeRow>, plain: Seq<RowView>, i: int)
    requires
        row_views(rows) == table(plain),
        0 <= i < rows.len(),
    ensures
        rows[i].latency.rank matches Some(rank) ==> rank == 1 || exists|j: int|
            0 <= j < rows.len() && (#[trigger] rows[j]).latency.rank == Some((rank - 1) as usize),
        rows[i].download.rank matches Some(rank) ==> rank == 1 || exists|j: int|
            0 <= j < rows.len() && (#[trigger] rows[j]).download.rank == Some((rank - 1) as usize),
        rows[i].upload.rank matches Some(rank) ==> rank == 1 || exists|j: int|
            0 <= j < rows.len() && (#[trigger] rows[j]).upload.rank == Some((rank - 1) as usize),
{
    lemma_origin(rows, plain, i);
    let a = origin(plain, i);
    let n = plain.len() as int;
    let row = rows[i]@;
    lemma_count_is_not_negative(plain, MetricKind::Latency, a, n);
    lemma_count_is_not_negative(plain, MetricKind::Download, a, n);
    lemma_count_is_not_negative(plain, MetricKind::Upload, a, n);
    assert(row.latency.rank == metric_rank(plain, MetricKind::Latency, a));
    assert(row.download.rank == metric_rank(plain, MetricKind::Download, a));
    assert(row.upload.rank == metric_rank(plain, MetricKind::Upload, a));
    if rows[i].latency.rank is Some && rows[i].latency.rank->0 != 1 {
        let k = lemma_rank_before(plain, MetricKind::Latency, a);
        let j = lemma_place(rows, plain, k);
        let other = rows[j]@;
        assert(other.latency.rank == metric_rank(plain, MetricKind::Latency, k));
        assert(rows[j].latency.rank == Some((rows[i].latency.rank->0 - 1) as usize));
    }
    if rows[i].download.rank is Some && rows[i].download.rank->0 != 1 {
        let k = lemma_rank_before(plain, MetricKind::Download, a);
        let j = lemma_place(rows, plain, k);
        let other = rows[j]@;
        assert(other.download.rank == metric_rank(plain, MetricKind::Download, k));
        assert(rows[j].download.rank == Some((rows[i].download.rank->0 - 1) as usize));
    }
    if rows[i].upload.rank is Some && rows[i].upload.rank->0 != 1 {
        let k = lemma_rank_before(plain, MetricKind::Upload, a);
        let j = lemma_place(rows, plain, k);
        let other = rows[j]@;
        assert(other.upload.rank == metric_rank(plain, MetricKind::Upload, k));
        assert(rows[j].upload.rank == Some((rows[i].upload.rank->0 - 1) as usize));
    }
}

/// The table lists the smaller score first, and rows without a score last. Among equal scores the
/// larger share of successes comes first, then the steadier latency, then more samples, then the
/// later test. (Numbers that are not negative are ordered like their bits.)
pub proof fn law_table_is_ordered_by_score(rows: Seq<BenchmarkNodeRow>, plain: Seq<RowView>, i: int, j: int)
    requires
        row_views(rows) == table(plain),
        0 <= i < j < rows.len(),
        3 * rows.len() < usize::MAX,
    ensures
        rows[i].total_rank_score is None ==> rows[j].total_rank_score is None,
        rows[i].total_rank_score is Some && rows[j].total_rank_score is Some ==> rows[i].total_rank_score->0
            <= rows[j].total_rank_score->0,
        rows[i].total_rank_score == rows[j].total_rank_score && rows[i].stability_percent is Some
            && rows[j].stability_percent is Some && rows[i].stability_percent->0.bits < 0x8000_0000_0000_0000
            && rows[j].stability_percent->0.bits < 0x8000_0000_0000_0000 ==> {
            &&& rows[i].stability_percent->0.bits >= rows[j].stability_percent->0.bits
            &&& rows[i].stability_percent == rows[j].stability_percent && rows[i].latency_jitter.bits
                < 0x8000_0000_0000_0000 && rows[j].latency_jitter.bits < 0x8000_0000_0000_0000 ==> {
                &&& rows[i].latency_jitter.bits <= rows[j].latency_jitter.bits
                &&& rows[i].latency_jitter == rows[j].latency_jitter ==> {
                    let left = rows[i].latency.samples + rows[i].download.samples + rows[i].upload.samples;
                    let right = rows[j].latency.samples + rows[j].download.samples + rows[j].upload.samples;
                    &&& left >= right
                    &&& left == right && rows[i].last_tested_at is Some && rows[j].last_tested_at is Some
                        ==> rows[i].last_tested_at->0 >= rows[j].last_tested_at->0
                }
            }
        },
{
    lemma_origin(rows, plain, i);
    lemma_origin(rows, plain, j);
    let left = table_key()(rows[i]@);
    let right = table_key()(rows[j]@);
    assert(key_order(left, right) <= 0);
    lemma_small_score(rows, plain, i);
    lemma_small_score(rows, plain, j);
    reveal_with_fuel(key_order, 6);
    let l1 = left.drop_first();
    let r1 = right.drop_first();
    let l2 = l1.drop_first();
    let r2 = r1.drop_first();
    let l3 = l2.drop_first();
    let r3 = r2.drop_first();
    let l4 = l3.drop_first();
    let r4 = r3.drop_first();
    assert(l1[0] == left[1] && r1[0] == right[1]);
    assert(l2[0] == left[2] && r2[0] == right[2]);
    assert(l3[0] == left[3] && r3[0] == right[3]);
    assert(l4[0] == left[4] && r4[0] == right[4]);
}

proof fn lemma_small_score(rows: Seq<BenchmarkNodeRow>, plain: Seq<RowView>, i: int)
    requires
        row_views(rows) == table(plain),
        0 <= i < rows.len(),
    ensures
        rows[i]@.total_rank_score matches Some(score) ==> score <= 3 * rows.len(),
{
    lemma_origin(rows, plain, i);
    let a = origin(plain, i);
    let n = plain.len() as int;
    lemma_count_at_most(plain, MetricKind::Latency, a, n);
    lemma_count_at_most(plain, MetricKind::Download, a, n);
    lemma_count_at_most(plain, MetricKind::Upload, a, n);
}

proof fn lemma_count_at_most(rows: Seq<RowView>, kind: MetricKind, i: int, n: int)
    requires
        0 <= i < rows.len(),
        0 <= n <= rows.len(),
    ensures
        count_ahead(rows, kind, i, n) <= n - (if i < n {
            1int
        } else {
            0int
        }),
    decreases n,
{
    if n > 0 {
        lemma_count_at_most(rows, kind, i, n - 1);
        assert(!ahead(rows, kind, i, i));
    }
}

/// Every node has one row, and every row is that of one node: it carries the node's names, state
/// and next times, and the medians of that node's own figures.
pub proof fn law_rows_are_of_the_nodes(
    rows: Seq<BenchmarkNodeRow>,
    nodes: Seq<NodeView>,
    records: Seq<RecordView>,
    start_at: int,
    figures: Seq<NodeFigures>,
    settings: SettingsView,
    now: int,
) -> (source: Seq<int>)
    requires
        row_views(rows) == table(plain_rows(nodes, records, start_at, figures, settings, now)),
    ensures
        rows.len() == nodes.len(),
        source.len() == nodes.len(),
        source.no_duplicates(),
        forall|i: int|
            0 <= i < rows.len() ==> {
                let k = #[trigger] source[i];
                &&& 0 <= k < nodes.len()
                &&& rows[i].node_id@ == nodes[k].node_id
                &&& rows[i].profile_uid@ == nodes[k].profile_uid
                &&& rows[i].profile_name@ == nodes[k].profile_name
                &&& rows[i].node_name@ == nodes[k].node_name
                &&& rows[i].node_type@ == nodes[k].node_type
                &&& rows[i].fingerprint@ == nodes[k].fingerprint
                &&& rows[i].state == nodes[k].state
                &&& rows[i].last_seen_at == nodes[k].last_seen_at
                &&& rows[i].next_latency_at == nodes[k].next_latency_at
                &&& rows[i].next_download_at == nodes[k].next_download_at
                &&& rows[i].next_upload_at == nodes[k].next_upload_at
                &&& rows[i].latency.median is Some ==> rows[i].latency.median == Some(
                    figures[k].latency.median,
                )
                &&& rows[i].download.median is Some ==> rows[i].download.median == Some(
                    figures[k].download.median,
                )
                &&& rows[i].upload.median is Some ==> rows[i].upload.median == Some(
                    figures[k].upload.median,
                )
            },
{
    let plain = plain_rows(nodes, records, start_at, figures, settings, now);
    assert(row_views(rows).len() == rows.len());
    law_sorted_order_is_stable(ranked(plain).map_values(table_key()));
    let source = Seq::new(rows.len(), |i: int| origin(plain, i));
    assert forall|i: int, j: int| 0 <= i < j < rows.len() implies source[i] != source[j] by {
        lemma_origin(rows, plain, i);
        assert(source[j] == origin(plain, j));
    }
    assert forall|i: int| 0 <= i < rows.len() implies ({
        let k = #[trigger] source[i];
        &&& 0 <= k < nodes.len()
        &&& rows[i].node_id@ == nodes[k].node_id
        &&& rows[i].profile_uid@ == nodes[k].profile_uid
        &&& rows[i].profile_name@ == nodes[k].profile_name
        &&& rows[i].node_name@ == nodes[k].node_name
        &&& rows[i].node_type@ == nodes[k].node_type
        &&& rows[i].fingerprint@ == nodes[k].fingerprint
        &&& rows[i].state == nodes[k].state
        &&& rows[i].last_seen_at == nodes[k].last_seen_at
        &&& rows[i].next_latency_at == nodes[k].next_latency_at
        &&& rows[i].next_download_at == nodes[k].next_download_at
        &&& rows[i].next_upload_at == nodes[k].next_upload_at
        &&& rows[i].latency.median is Some ==> rows[i].latency.median == Some(figures[k].latency.median)
        &&& rows[i].download.median is Some ==> rows[i].download.median == Some(figures[k].download.median)
        &&& rows[i].upload.median is Some ==> rows[i].upload.median == Some(figures[k].upload.median)
    }) by {
        lemma_origin(rows, plain, i);
        let view = rows[i]@;
        assert(view == with_ranks(plain, source[i]));
        assert(view.node_id == rows[i].node_id@);
        assert(view.latency.median == rows[i].latency.median);
        assert(view.download.median == rows[i].download.median);
        assert(view.upload.median == rows[i].upload.median);
    }
    source
}

proof fn lemma_chosen_row(rows: Seq<RowView>, chosen: spec_fn(RowView) -> bool, i: int)
    requires
        0 <= i < rows.len(),
        chosen(rows[i]),
    ensures
        chosen_rows(rows, chosen).contains(rows[i]),
        chosen_rows(rows, chosen).len() > 0,
    decreases rows.len(),
{
    let front = rows.drop_last();
    let all = chosen_rows(rows, chosen);
    if i < front.len() {
        lemma_chosen_row(front, chosen, i);
        let before = chosen_rows(front, chosen);
        let k = choose|k: int| 0 <= k < before.len() && before[k] == front[i];
        assert(all[k] == rows[i]);
    } else {
        assert(all[all.len() - 1] == rows[i]);
    }
}

proof fn lemma_row_of_choice(rows: Seq<RowView>, chosen: spec_fn(RowView) -> bool, row: RowView) -> (i: int)
    requires
        chosen_rows(rows, chosen).contains(row),
    ensures
        0 <= i < rows.len(),
        rows[i] == row,
        chosen(row),
    decreases rows.len(),
{
    let front = rows.drop_last();
    let all = chosen_rows(rows, chosen);
    let k = choose|k: int| 0 <= k < all.len() && all[k] == row;
    if k < chosen_rows(front, chosen).len() {
        assert(chosen_rows(front, chosen)[k] == row);
        lemma_row_of_choice(front, chosen, row)
    } else {
        rows.len() - 1
    }
}

/// There is an overall winner exactly where a participant has a score. It is such a participant; it
/// is official where any of them is, among those that are as official none has a smaller score, and its
/// value is its score.
pub proof fn law_overall_winner_has_the_best_score(
    rows: Seq<BenchmarkNodeRow>,
    champion: Option<ChampionSummary>,
    j: int,
)
    requires
        overall_champion(champion, row_views(rows)),
        0 <= j < rows.len(),
    ensures
        rows[j].state == ParticipationState::Participating && rows[j].total_rank_score is Some
            ==> champion is Some && (rows[j].official_eligible ==> champion->0.official),
        champion is Some ==> exists|i: int|
            0 <= i < rows.len() && {
                let row = #[trigger] rows[i];
                &&& row.state == ParticipationState::Participating && row.total_rank_score is Some
                &&& champion->0.node_id@ == row.node_id@
                &&& champion->0.node_name@ == row.node_name@
                &&& champion->0.profile_name@ == row.profile_name@
                &&& champion->0.official == row.official_eligible
                &&& rows[j].state == ParticipationState::Participating && rows[j].total_rank_score is Some
                    && rows[j].official_eligible == row.official_eligible ==> row.total_rank_score->0
                    <= rows[j].total_rank_score->0
                &&& row.total_rank_score->0 < 0x20_0000_0000_0000 ==> champion->0.value.denotes(
                    row.total_rank_score->0 as int,
                )
            },
{
    let views = row_views(rows);
    assert(views.len() == rows.len());
    assert(views[j] == rows[j]@);
    let other = views[j];
    if scored()(other) {
        lemma_chosen_row(views, scored(), j);
    }
    if champion is Some {
        lemma_leader_is_chosen(views, scored(), overall_key());
        let winner = leader(views, scored(), overall_key())->0;
        let i = lemma_row_of_choice(views, scored(), winner);
        assert(views[i] == rows[i]@);
        if scored()(other) {
            let candidates = chosen_rows(views, scored());
            let k = choose|k: int| 0 <= k < candidates.len() && candidates[k] == other;
            let left = overall_key()(winner);
            let right = overall_key()(candidates[k]);
            assert(key_order(left, right) <= 0);
            reveal_with_fuel(key_order, 3);
            assert(left.drop_first()[0] == left[1]);
            assert(right.drop_first()[0] == right[1]);
        }
        let row = rows[i];
        assert(row@ == winner);
        assert(rank_view(row.total_rank_score) == winner.total_rank_score);
        assert(rank_view(rows[j].total_rank_score) == other.total_rank_score);
        if row.total_rank_score->0 < 0x20_0000_0000_0000 {
            lemma_nearest_double_exact(row.total_rank_score->0 as nat);
        }
    }
}

/// There is a winner in a metric exactly where a participant has a median in it. It is such a
/// participant, its value is that median, and no participant has a smaller latency or a larger
/// speed. (Numbers that are not negative are ordered like their bits.)
pub proof fn law_metric_winners_have_the_best_medians(
    rows: Seq<BenchmarkNodeRow>,
    champions: ChampionCollection,
    j: int,
)
    requires
        metric_champion(champions.latency, row_views(rows), MetricKind::Latency),
        metric_champion(champions.download, row_views(rows), MetricKind::Download),
        metric_champion(champions.upload, row_views(rows), MetricKind::Upload),
        0 <= j < rows.len(),
        rows[j].state == ParticipationState::Participating,
    ensures
        rows[j].latency.median matches Some(median) ==> champions.latency is Some && (median.bits
            < 0x8000_0000_0000_0000 && champions.latency->0.value.bits < 0x8000_0000_0000_0000
            ==> champions.latency->0.value.bits <= median.bits),
        rows[j].download.median matches Some(median) ==> champions.download is Some && (median.bits
            < 0x8000_0000_0000_0000 && champions.download->0.value.bits < 0x8000_0000_0000_0000
            ==> champions.download->0.value.bits >= median.bits),
        rows[j].upload.median matches Some(median) ==> champions.upload is Some && (median.bits
            < 0x8000_0000_0000_0000 && champions.upload->0.value.bits < 0x8000_0000_0000_0000
            ==> champions.upload->0.value.bits >= median.bits),
{
    lemma_metric_winner(rows, champions.latency, MetricKind::Latency, j);
    lemma_metric_winner(rows, champions.download, MetricKind::Download, j);
    lemma_metric_winner(rows, champions.upload, MetricKind::Upload, j);
    assert(row_views(rows)[j] == rows[j]@);
}

proof fn lemma_metric_winner(
    rows: Seq<BenchmarkNodeRow>,
    champion: Option<ChampionSummary>,
    kind: MetricKind,
    j: int,
)
    requires
        metric_champion(champion, row_views(rows), kind),
        0 <= j < rows.len(),
        rows[j].state == ParticipationState::Participating,
    ensures
        metric(rows[j]@, kind).median matches Some(median) ==> champion is Some && if kind
            == MetricKind::Latency {
            champion->0.value.rank_view() <= median.rank_view()
        } else {
            champion->0.value.rank_view() >= median.rank_view()
        },
{
    let views = row_views(rows);
    assert(views.len() == rows.len());
    assert(views[j] == rows[j]@);
    let other = views[j];
    if is_ranked(other, kind) {
        lemma_chosen_row(views, ranked_in(kind), j);
        lemma_leader_is_chosen(views, ranked_in(kind), metric_key(kind));
        let winner = leader(views, ranked_in(kind), metric_key(kind))->0;
        let candidates = chosen_rows(views, ranked_in(kind));
        let k = choose|k: int| 0 <= k < candidates.len() && candidates[k] == other;
        let left = metric_key(kind)(winner);
        let right = metric_key(kind)(candidates[k]);
        assert(key_order(left, right) <= 0);
        assert(part_order(left[0], right[0]) <= 0);
    }
}

/// The winner of a metric is one of the participants with a median in it, and its value is that
/// median.
pub proof fn law_metric_winners_are_rows(rows: Seq<BenchmarkNodeRow>, champions: ChampionCollection)
    requires
        metric_champion(champions.latency, row_views(rows), MetricKind::Latency),
        metric_champion(champions.download, row_views(rows), MetricKind::Download),
        metric_champion(champions.upload, row_views(rows), MetricKind::Upload),
    ensures
        champions.latency matches Some(champion) ==> exists|i: int|
            0 <= i < rows.len() && (#[trigger] rows[i]).state == ParticipationState::Participating
                && rows[i].latency.median == Some(champion.value) && rows[i].node_id@ == champion.node_id@
                && rows[i].node_name@ == champion.node_name@ && rows[i].profile_name@
                == champion.profile_name@ && rows[i].official_eligible == champion.official,
        champions.download matches Some(champion) ==> exists|i: int|
            0 <= i < rows.len() && (#[trigger] rows[i]).state == ParticipationState::Participating
                && rows[i].download.median == Some(champion.value) && rows[i].node_id@ == champion.node_id@
                && rows[i].node_name@ == champion.node_name@ && rows[i].profile_name@
                == champion.profile_name@ && rows[i].official_eligible == champion.official,
        champions.upload matches Some(champion) ==> exists|i: int|
            0 <= i < rows.len() && (#[trigger] rows[i]).state == ParticipationState::Participating
                && rows[i].upload.median == Some(champion.value) && rows[i].node_id@ == champion.node_id@
                && rows[i].node_name@ == champion.node_name@ && rows[i].profile_name@
                == champion.profile_name@ && rows[i].official_eligible == champion.official,
{
    let views = row_views(rows);
    if champions.latency is Some {
        let i = lemma_winner_is_a_row(views, MetricKind::Latency);
        assert(views[i] == rows[i]@);
        assert(rows[i].latency.median == Some(champions.latency->0.value));
    }
    if champions.download is Some {
        let i = lemma_winner_is_a_row(views, MetricKind::Download);
        assert(views[i] == rows[i]@);
        assert(rows[i].download.median == Some(champions.download->0.value));
    }
    if champions.upload is Some {
        let i = lemma_winner_is_a_row(views, MetricKind::Upload);
        assert(views[i] == rows[i]@);
        assert(rows[i].upload.median == Some(champions.upload->0.value));
    }
}

proof fn lemma_winner_is_a_row(views: Seq<RowView>, kind: MetricKind) -> (i: int)
    requires
        leader(views, ranked_in(kind), metric_key(kind)) is Some,
    ensures
        0 <= i < views.len(),
        is_ranked(views[i], kind),
        leader(views, ranked_in(kind), metric_key(kind)) == Some(views[i]),
{
    lemma_leader_is_chosen(views, ranked_in(kind), metric_key(kind));
    lemma_row_of_choice(views, ranked_in(kind), leader(views, ranked_in(kind), metric_key(kind))->0)
}

proof fn lemma_node_with_id(nodes: Seq<NodeView>, n: int)
    requires
        0 <= n < nodes.len(),
        forall|m: int| 0 <= m < n ==> (#[trigger] nodes[m]).node_id != nodes[n].node_id,
    ensures
        node_with_id(nodes, nodes[n].node_id) == Some(nodes[n]),
    decreases nodes.len(),
{
    if n > 0 {
        assert(nodes[0].node_id != nodes[n].node_id);
        let rest = nodes.drop_first();
        assert forall|m: int| 0 <= m < n - 1 implies (#[trigger] rest[m]).node_id != rest[n - 1].node_id by {
            assert(nodes[m + 1].node_id != nodes[n].node_id);
        }
        lemma_node_with_id(rest, n - 1);
    }
}

proof fn lemma_reminder_listed(
    rows: Seq<RowView>,
    nodes: Seq<NodeView>,
    records: Seq<RecordView>,
    settings: SettingsView,
    now: int,
    count: int,
    figures: ReferenceFigures,
    i: int,
)
    requires
        0 <= i < rows.len(),
        reminder_of(rows[i], nodes, records, settings, now, count, figures) is Some,
    ensures
        reminders_of(rows, nodes, records, settings, now, count, figures).contains(
            reminder_of(rows[i], nodes, records, settings, now, count, figures)->0,
        ),
    decreases rows.len(),
{
    let front = rows.drop_last();
    let before = reminders_of(front, nodes, records, settings, now, count, figures);
    let all = reminders_of(rows, nodes, records, settings, now, count, figures);
    let wanted = reminder_of(rows[i], nodes, records, settings, now, count, figures)->0;
    if i < front.len() {
        lemma_reminder_listed(front, nodes, records, settings, now, count, figures, i);
        let k = choose|k: int| 0 <= k < before.len() && before[k] == wanted;
        assert(all[k] == wanted);
    } else {
        assert(all[all.len() - 1] == wanted);
    }
}

/// The user is reminded of every slow node: where at least four rows are ranked by latency, a row in
/// their last quarter with twenty successes, whose node has been known for a day, was neither
/// dismissed nor put off, and is not close to the best, gets a reminder that shows its rank.
pub proof fn law_slow_nodes_are_reminded_of(
    nodes: Seq<NodeView>,
    rows: Seq<RowView>,
    records: Seq<RecordView>,
    settings: SettingsView,
    now: int,
    figures: ReferenceFigures,
    i: int,
    n: int,
)
    requires
        0 <= i < rows.len(),
        rows[i].state == ParticipationState::Participating,
        rows[i].latency.median is Some,
        rows[i].latency.rank is Some,
        rows[i].latency_successes >= 20,
        ({
            let count = rows.filter(
                |row: RowView|
                    row.state == ParticipationState::Participating && row.latency.median is Some,
            ).len();
            count >= 4 && 4 * (rows[i].latency.rank->0 - 1) >= 3 * count
        }),
        0 <= n < nodes.len(),
        nodes[n].node_id == rows[i].node_id,
        forall|m: int| 0 <= m < n ==> (#[trigger] nodes[m]).node_id != nodes[n].node_id,
        now - nodes[n].first_seen_at >= 86_400,
        !nodes[n].ignore_reminder,
        nodes[n].snoozed_until is None || nodes[n].snoozed_until->0 <= now,
        !rows[i].latency.median->0.below(figures.near) || !rows[i].latency.median->0.below(figures.double),
    ensures
        exists|k: int|
            0 <= k < reminders(nodes, rows, records, settings, now, figures).len() && {
                let reminder = #[trigger] reminders(nodes, rows, records, settings, now, figures)[k];
                &&& reminder.node_id == rows[i].node_id
                &&& reminder.node_name == rows[i].node_name
                &&& reminder.profile_name == rows[i].profile_name
                &&& reminder.latency_rank == rows[i].latency.rank->0
                &&& reminder.median_latency == rows[i].latency.median->0
                &&& reminder.download_rank == rows[i].download.rank
                &&& reminder.upload_rank == rows[i].upload.rank
                &&& reminder.stability_percent == rows[i].stability_percent
                &&& reminder.total_nodes == rows.filter(
                    |row: RowView|
                        row.state == ParticipationState::Participating && row.latency.median is Some,
                ).len()
            },
{
    let same = |row: RowView| row.state == ParticipationState::Participating && row.latency.median is Some;
    let ranked_rows = chosen_rows(rows, ranked_in(MetricKind::Latency));
    lemma_chosen_rows_are_filtered(rows, ranked_in(MetricKind::Latency), same);
    lemma_chosen_row(rows, ranked_in(MetricKind::Latency), i);
    lemma_node_with_id(nodes, n);
    let at = choose|at: int| 0 <= at < ranked_rows.len() && ranked_rows[at] == rows[i];
    let count = ranked_rows.len() as int;
    assert(reminder_of(ranked_rows[at], nodes, records, settings, now, count, figures) is Some);
    lemma_reminder_listed(ranked_rows, nodes, records, settings, now, count, figures, at);
    let all = reminders(nodes, rows, records, settings, now, figures);
    let wanted = reminder_of(ranked_rows[at], nodes, records, settings, now, count, figures)->0;
    let k = choose|k: int| 0 <= k < all.len() && all[k] == wanted;
    assert(all[k] == wanted);
}

/// Rows that are chosen are those that the condition keeps.
pub proof fn lemma_chosen_rows_are_filtered(
    rows: Seq<RowView>,
    chosen: spec_fn(RowView) -> bool,
    same: spec_fn(RowView) -> bool,
)
    requires
        forall|row: RowView| #[trigger] same(row) == chosen(row),
    ensures
        chosen_rows(rows, chosen) == rows.filter(same),
    decreases rows.len(),
{
    reveal(Seq::filter);
    if rows.len() > 0 {
        lemma_chosen_rows_are_filtered(rows.drop_last(), chosen, same);
        assert(same(rows.last()) == chosen(rows.last()));
    }
}

proof fn lemma_reminder_source(
    rows: Seq<RowView>,
    nodes: Seq<NodeView>,
    records: Seq<RecordView>,
    settings: SettingsView,
    now: int,
    count: int,
    figures: ReferenceFigures,
    k: int,
) -> (i: int)
    requires
        0 <= k < reminders_of(rows, nodes, records, settings, now, count, figures).len(),
    ensures
        0 <= i < rows.len(),
        reminder_of(rows[i], nodes, records, settings, now, count, figures) == Some(
            reminders_of(rows, nodes, records, settings, now, count, figures)[k],
        ),
    decreases rows.len(),
{
    let front = rows.drop_last();
    if k < reminders_of(front, nodes, records, settings, now, count, figures).len() {
        lemma_reminder_source(front, nodes, records, settings, now, count, figures, k)
    } else {
        rows.len() - 1
    }
}

proof fn lemma_node_found(nodes: Seq<NodeView>, node_id: Seq<char>) -> (n: int)
    requires
        node_with_id(nodes, node_id) is Some,
    ensures
        0 <= n < nodes.len(),
        nodes[n] == node_with_id(nodes, node_id)->0,
        nodes[n].node_id == node_id,
    decreases nodes.len(),
{
    if nodes[0].node_id == node_id {
        0
    } else {
        1 + lemma_node_found(nodes.drop_first(), node_id)
    }
}

/// The user is reminded of slow nodes only: every reminder is of a participant in the last quarter
/// of at least four, with twenty successes, whose node has been known for a day and was neither
/// dismissed nor put off, and that is not close to the best.
pub proof fn law_reminders_are_of_slow_nodes(
    nodes: Seq<NodeView>,
    rows: Seq<RowView>,
    records: Seq<RecordView>,
    settings: SettingsView,
    now: int,
    figures: ReferenceFigures,
    k: int,
) -> (source: (int, int))
    requires
        0 <= k < reminders(nodes, rows, records, settings, now, figures).len(),
    ensures
        ({
            let reminder = reminders(nodes, rows, records, settings, now, figures)[k];
            let count = rows.filter(
                |row: RowView|
                    row.state == ParticipationState::Participating && row.latency.median is Some,
            ).len();
            let (i, n) = source;
            &&& 0 <= i < rows.len() && 0 <= n < nodes.len()
            &&& reminder.node_id == rows[i].node_id && rows[i].node_id == nodes[n].node_id
            &&& reminder.total_nodes == count && count >= 4
            &&& rows[i].state == ParticipationState::Participating
            &&& rows[i].latency.rank == Some(reminder.latency_rank)
            &&& rows[i].latency.median == Some(reminder.median_latency)
            &&& 4 * (reminder.latency_rank - 1) >= 3 * count
            &&& rows[i].latency_successes >= 20
            &&& now - nodes[n].first_seen_at >= 86_400
            &&& !nodes[n].ignore_reminder
            &&& nodes[n].snoozed_until is None || nodes[n].snoozed_until->0 <= now
            &&& !reminder.median_latency.below(figures.near) || !reminder.median_latency.below(
                figures.double,
            )
        }),
{
    let same = |row: RowView| row.state == ParticipationState::Participating && row.latency.median is Some;
    let ranked_rows = chosen_rows(rows, ranked_in(MetricKind::Latency));
    lemma_chosen_rows_are_filtered(rows, ranked_in(MetricKind::Latency), same);
    let count = ranked_rows.len() as int;
    let at = lemma_reminder_source(ranked_rows, nodes, records, settings, now, count, figures, k);
    let row = ranked_rows[at];
    let i = lemma_row_of_choice(rows, ranked_in(MetricKind::Latency), row);
    let n = lemma_node_found(nodes, row.node_id);
    (i, n)
}

/// A node is tested often enough per day to fill it, and not once more: with an interval below a day
/// the tests but one would not fill it.
pub proof fn law_tests_fill_the_day(interval_hours: u64)
    requires
        interval_hours >= 1,
    ensures
        ({
            let tests = tests_per_day(interval_hours);
            &&& tests >= 1
            &&& tests * interval_hours >= 24
            &&& (tests - 1) * interval_hours < 24
        }),
{
    let tests = tests_per_day(interval_hours);
    let hours = interval_hours as int;
    if hours < 24 {
        assert(tests >= 1 && tests * hours >= 24 && (tests - 1) * hours < 24) by (nonlinear_arith)
            requires
                tests == (24 + hours - 1) / hours,
                1 <= hours < 24,
        ;
    } else {
        assert(tests * hours == hours && (tests - 1) * hours == 0) by (nonlinear_arith)
            requires
                tests == 1,
        ;
    }
}

/// A reminder tells what a day without the tests of its node saves in each direction: the usual size of
/// the node's own tests in that direction, as often as the day has room for a test.
pub proof fn law_reminders_tell_the_savings(
    nodes: Seq<NodeView>,
    rows: Seq<RowView>,
    records: Seq<RecordView>,
    settings: SettingsView,
    now: int,
    figures: ReferenceFigures,
    k: int,
)
    requires
        0 <= k < reminders(nodes, rows, records, settings, now, figures).len(),
    ensures
        ({
            let reminder = reminders(nodes, rows, records, settings, now, figures)[k];
            let tests = tests_per_day(settings.speed_interval_hours);
            let most = settings.speed_max_bytes as int;
            let down = usual_size(records, reminder.node_id, MeasurementKind::Download, false, most) * tests;
            let up = usual_size(records, reminder.node_id, MeasurementKind::Upload, false, most) * tests;
            &&& reminder.saved_download_bytes_per_day == if down > u64::MAX {
                u64::MAX as int
            } else {
                down
            }
            &&& reminder.saved_upload_bytes_per_day == if up > u64::MAX {
                u64::MAX as int
            } else {
                up
            }
            &&& reminder.reference_latency == figures.reference
        }),
{
    let ranked_rows = chosen_rows(rows, ranked_in(MetricKind::Latency));
    let count = ranked_rows.len() as int;
    let at = lemma_reminder_source(ranked_rows, nodes, records, settings, now, count, figures, k);
    assert(reminder_of(ranked_rows[at], nodes, records, settings, now, count, figures) is Some);
}

} // verus!
