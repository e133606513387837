//! What holds of every ranking.

use crate::models::{
    BenchmarkNodeRow, BenchmarkWindow, ChampionCollection, ExclusionReminder, NodeView,
    ParticipationState, RecordView,
};
use crate::order::{
    KeyView, goes_before, key_order, law_sorted_order_is_stable, part_order, sorted_order,
};
use crate::rankings::{
    MetricKind, NodeFigures, RankingFigures, ReferenceFigures, RowView, ahead, bottom_start, chosen_rows,
    count_ahead, is_ranked, is_ranking, leader, lemma_leader_is_chosen, merit, metric_champion,
    metric_key, metric_rank, overall_champion, overall_key, ranked, ranked_in, reminder_views,
    reminders, reminders_of, row_of, row_views, scored, table, table_key, with_ranks,
};
use crate::settings::SettingsView;
use vstd::prelude::*;

verus! {

proof fn lemma_count_ahead(rows: Seq<RowView>, kind: MetricKind, i: int, j: int, n: int)
    requires
        0 <= i < rows.len(),
        0 <= j < rows.len(),
        0 <= n <= rows.len(),
        is_ranked(rows[i], kind),
        ahead(rows, kind, i, j),
    ensures
        count_ahead(rows, kind, i, n) + (if i < n {
            1int
        } else {
            0int
        }) <= count_ahead(rows, kind, j, n),
        0 <= count_ahead(rows, kind, i, n) <= n,
    decreases n,
{
    if n > 0 {
        lemma_count_ahead(rows, kind, i, j, n - 1);
        let k = n - 1;
        assert(ahead(rows, kind, k, i) ==> ahead(rows, kind, k, j));
        assert(!ahead(rows, kind, i, i));
    }
}

/// Of two ranked rows the one with the better median has the better rank, and no two rows share
/// a rank.
pub proof fn law_ranks_follow_merit(rows: Seq<RowView>, kind: MetricKind, i: int, j: int)
    requires
        0 <= i < rows.len(),
        0 <= j < rows.len(),
        i != j,
        is_ranked(rows[i], kind),
        is_ranked(rows[j], kind),
    ensures
        merit(rows[i], kind) < merit(rows[j], kind) ==> metric_rank(rows, kind, i)->0 < metric_rank(
            rows,
            kind,
            j,
        )->0,
        metric_rank(rows, kind, i)->0 != metric_rank(rows, kind, j)->0,
{
    let n = rows.len() as int;
    if ahead(rows, kind, i, j) {
        lemma_count_ahead(rows, kind, i, j, n);
    } else {
        assert(ahead(rows, kind, j, i));
        lemma_count_ahead(rows, kind, j, i, n);
    }
}

proof fn lemma_count_bounds(rows: Seq<RowView>, kind: MetricKind, i: int, n: int)
    requires
        0 <= i < rows.len(),
        0 <= n <= rows.len(),
    ensures
        0 <= count_ahead(rows, kind, i, n) <= n - (if i < n {
            1int
        } else {
            0int
        }),
    decreases n,
{
    if n > 0 {
        lemma_count_bounds(rows, kind, i, n - 1);
        assert(!ahead(rows, kind, i, i));
    }
}

/// Ranks count from one and never exceed the number of rows.
pub proof fn law_ranks_are_in_range(rows: Seq<RowView>, kind: MetricKind, i: int)
    requires
        0 <= i < rows.len(),
        is_ranked(rows[i], kind),
    ensures
        1 <= metric_rank(rows, kind, i)->0 <= rows.len(),
{
    lemma_count_bounds(rows, kind, i, rows.len() as int);
}

/// Only participants are ranked, and only rows with all three ranks have a sum.
pub proof fn law_only_participants_are_ranked(rows: Seq<RowView>, i: int)
    requires
        0 <= i < rows.len(),
        rows[i].state != ParticipationState::Participating,
    ensures
        with_ranks(rows, i).latency.rank is None,
        with_ranks(rows, i).download.rank is None,
        with_ranks(rows, i).upload.rank is None,
        with_ranks(rows, i).total_rank_score is None,
{
}

/// The table holds every node exactly once, in the order of its key.
pub proof fn law_table_holds_every_row(rows: Seq<RowView>)
    ensures
        table(rows).len() == rows.len(),
        forall|i: int| 0 <= i < rows.len() ==> table(rows).contains(#[trigger] ranked(rows)[i]),
        forall|i: int, j: int|
            0 <= i < j < rows.len() ==> key_order(
                table_key()(#[trigger] table(rows)[i]),
                table_key()(#[trigger] table(rows)[j]),
            ) <= 0,
{
    let keys = ranked(rows).map_values(table_key());
    law_sorted_order_is_stable(keys);
    let order = sorted_order(keys);
    assert forall|i: int| 0 <= i < rows.len() implies table(rows).contains(#[trigger] ranked(rows)[i]) by {
        assert(order.contains(i));
        let k = choose|k: int| 0 <= k < order.len() && order[k] == i;
        assert(table(rows)[k] == ranked(rows)[i]);
    }
    assert forall|i: int, j: int| 0 <= i < j < rows.len() implies key_order(
        table_key()(#[trigger] table(rows)[i]),
        table_key()(#[trigger] table(rows)[j]),
    ) <= 0 by {
        assert(goes_before(keys, order[i], order[j]));
        assert(keys[order[i]] == table_key()(ranked(rows)[order[i]]));
        assert(keys[order[j]] == table_key()(ranked(rows)[order[j]]));
    }
}

/// No ranked row has a better median than the winner of a metric.
pub proof fn law_metric_winner_is_best(rows: Seq<RowView>, kind: MetricKind, k: int)
    requires
        leader(rows, ranked_in(kind), metric_key(kind)) is Some,
        0 <= k < chosen_rows(rows, ranked_in(kind)).len(),
    ensures
        merit(leader(rows, ranked_in(kind), metric_key(kind))->0, kind) <= merit(
            chosen_rows(rows, ranked_in(kind))[k],
            kind,
        ),
{
    lemma_leader_is_chosen(rows, ranked_in(kind), metric_key(kind));
    let winner = leader(rows, ranked_in(kind), metric_key(kind))->0;
    let other = chosen_rows(rows, ranked_in(kind))[k];
    let left = metric_key(kind)(winner);
    let right = metric_key(kind)(other);
    assert(key_order(left, right) <= 0);
    assert(left[0] == KeyView::Number(merit(winner, kind)));
    assert(right[0] == KeyView::Number(merit(other, kind)));
    if part_order(left[0], right[0]) == 0 {
        assert(merit(winner, kind) == merit(other, kind));
    }
}

/// Where an official candidate exists, the overall winner is official.
pub proof fn law_official_candidates_win(rows: Seq<RowView>, k: int)
    requires
        0 <= k < chosen_rows(rows, scored()).len(),
        chosen_rows(rows, scored())[k].official_eligible,
    ensures
        leader(rows, scored(), overall_key()) is Some,
        leader(rows, scored(), overall_key())->0.official_eligible,
{
    lemma_leader_is_chosen(rows, scored(), overall_key());
    let winner = leader(rows, scored(), overall_key())->0;
    let other = chosen_rows(rows, scored())[k];
    let left = overall_key()(winner);
    let right = overall_key()(other);
    assert(key_order(left, right) <= 0);
    assert(right[0] == KeyView::Number(0));
    if !winner.official_eligible {
        assert(left[0] == KeyView::Number(1));
        assert(part_order(left[0], right[0]) == 1);
    }
}

proof fn lemma_reminders(
    rows: Seq<RowView>,
    nodes: Seq<NodeView>,
    records: Seq<RecordView>,
    settings: SettingsView,
    now: int,
    count: int,
    figures: ReferenceFigures,
)
    ensures
        forall|k: int|
            0 <= k < reminders_of(rows, nodes, records, settings, now, count, figures).len() ==> {
                let reminder = #[trigger] reminders_of(rows, nodes, records, settings, now, count, figures)[k];
                reminder.latency_rank > bottom_start(count) && reminder.total_nodes == count
            },
    decreases rows.len(),
{
    if rows.len() > 0 {
        lemma_reminders(rows.drop_last(), nodes, records, settings, now, count, figures);
    }
}

/// Reminders exist only among at least four ranked nodes, and only for nodes in the bottom
/// quarter.
pub proof fn law_reminders_are_of_the_bottom_quarter(
    nodes: Seq<NodeView>,
    rows: Seq<RowView>,
    records: Seq<RecordView>,
    settings: SettingsView,
    now: int,
    figures: ReferenceFigures,
    k: int,
)
    requires
        0 <= k < reminders(nodes, rows, records, settings, now, figures).len(),
    ensures
        ({
            let reminder = reminders(nodes, rows, records, settings, now, figures)[k];
            reminder.total_nodes >= 4 && 4 * reminder.latency_rank > 3 * reminder.total_nodes
        }),
{
    let ranked_rows = chosen_rows(rows, ranked_in(MetricKind::Latency));
    lemma_reminders(ranked_rows, nodes, records, settings, now, ranked_rows.len() as int, figures);
}

/// The reminders are the same whichever window is shown: they rest on the figures of the last 24
/// hours alone.
pub proof fn law_reminders_are_the_same_for_every_window(
    nodes: Seq<NodeView>,
    records: Seq<RecordView>,
    settings: SettingsView,
    now: int,
    one: (Seq<BenchmarkNodeRow>, ChampionCollection, Seq<ExclusionReminder>),
    one_window: BenchmarkWindow,
    one_figures: RankingFigures,
    other: (Seq<BenchmarkNodeRow>, ChampionCollection, Seq<ExclusionReminder>),
    other_window: BenchmarkWindow,
    other_figures: RankingFigures,
)
    requires
        is_ranking(one.0, one.1, one.2, nodes, records, one_window, settings, now, one_figures),
        is_ranking(other.0, other.1, other.2, nodes, records, other_window, settings, now, other_figures),
        one_figures.day@ == other_figures.day@,
        one_figures.reference == other_figures.reference,
    ensures
        reminder_views(one.2) == reminder_views(other.2),
{
}

/// The winners of a ranking are those of its own table.
pub proof fn law_winners_are_of_the_table(
    nodes: Seq<NodeView>,
    records: Seq<RecordView>,
    settings: SettingsView,
    now: int,
    rows: Seq<BenchmarkNodeRow>,
    champions: ChampionCollection,
    advice: Seq<ExclusionReminder>,
    window: BenchmarkWindow,
    figures: RankingFigures,
)
    requires
        is_ranking(rows, champions, advice, nodes, records, window, settings, now, figures),
    ensures
        overall_champion(champions.overall, row_views(rows)),
        metric_champion(champions.download, row_views(rows), MetricKind::Download),
        metric_champion(champions.upload, row_views(rows), MetricKind::Upload),
        metric_champion(champions.latency, row_views(rows), MetricKind::Latency),
{
}

/// A node that can officially win succeeded in at least 95 of 100 of the latency tests that its own
/// row counts, and in twenty of them, whatever the figures say.
pub proof fn law_official_nodes_are_stable(
    node: NodeView,
    records: Seq<RecordView>,
    figures: NodeFigures,
    settings: SettingsView,
    now: int,
)
    ensures
        ({
            let row = row_of(node, records, figures, settings, now);
            row.official_eligible ==> row.latency_attempts > 0 && row.latency_successes >= 20
                && row.latency_successes * 100 >= row.latency_attempts * 95
        }),
{
}

} // verus!
