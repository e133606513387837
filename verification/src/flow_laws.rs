//! What holds of the steps between tests: of rounds and their groups, of visits that are stopped, of
//! addresses, of starting cores and of what is noted on manual tests.

use crate::controller::{ReadyReply, alphanumeric, capital_digit, percent_encoded};
use crate::course_laws::{law_profiles_keep_their_nodes, law_rotation_keeps_the_wheel, steps_from};
use crate::cycle::{CycleView, end_phase, fresh_cycle, next_round};
use crate::manual::{RunView, manual_failure_record};
use crate::models::{
    ManualSpeedMode, MeasurementKind, NodeView, ParticipationState, SpeedTestResult,
};
use crate::outcome_laws::put_off;
use crate::outcomes::SpeedErrorView;
use crate::replies::{ReplyView, listed_nodes, listed_type};
use crate::schedule::{
    group_round, is_ranking_test, profiles_of, rotated, round_groups, speed_pause, trigger_text,
};
use crate::settings::SettingsView;
use crate::speed::SpeedTestOptions;
use crate::status::ScheduledWorker;
use crate::store::StoreView;
use crate::visit::{VisitStage, VisitStep, following, phase_at, step_at};
use vstd::prelude::*;

verus! {

/// A visit that is stopped ends at its next step, wherever it is; one that finds nothing due only
/// measures the latency and lets the line rest.
pub proof fn law_stopped_visits_end(
    stage: VisitStage,
    worker: ScheduledWorker,
    download_due: bool,
    upload_due: bool,
)
    ensures
        stage != VisitStage::Start ==> step_at(following(stage, worker, download_due, upload_due, true))
            == VisitStep::Leave,
        steps_from(VisitStage::Start, ScheduledWorker::Speed, false, false) == seq![
            VisitStep::AwaitTurn,
            VisitStep::Rest,
            VisitStep::TestLatency,
            VisitStep::Rest,
            VisitStep::Leave,
        ],
        ({
            let phase = phase_at(stage);
            let step = step_at(stage);
            &&& step == VisitStep::AwaitTurn ==> phase == Some("waitingForOtherQueue"@)
            &&& step == VisitStep::Rest ==> phase == Some("cooldown"@)
            &&& step == VisitStep::TestLatency ==> phase == Some("latency"@)
        }),
{
    reveal_with_fuel(steps_from, 10);
    assert(steps_from(VisitStage::Start, ScheduledWorker::Speed, false, false) =~= seq![
        VisitStep::AwaitTurn,
        VisitStep::Rest,
        VisitStep::TestLatency,
        VisitStep::Rest,
        VisitStep::Leave,
    ]);
}

/// In each round another profile comes first, and in each profile another node: profiles and nodes
/// keep their order as on a wheel that turns by one place with each round, and with each group of the
/// round by one more.
pub proof fn law_groups_take_turns(nodes: Seq<NodeView>, round: u64, i: int, j: int)
    requires
        0 <= i < round_groups(nodes, round).len(),
        0 <= j < round_groups(nodes, round)[i].nodes.len(),
        round + i <= u32::MAX,
    ensures
        ({
            let uids = profiles_of(nodes);
            let group = round_groups(nodes, round)[i];
            let own = nodes.filter(|node: NodeView| node.profile_uid == group.profile_uid);
            &&& round_groups(nodes, round).len() == uids.len()
            &&& group.profile_uid == uids[(i + round) % (uids.len() as int)]
            &&& group.nodes.len() == own.len()
            &&& group.nodes[j] == own[(j + round + i) % (own.len() as int)]
        }),
{
    let uids = profiles_of(nodes);
    let group = round_groups(nodes, round)[i];
    let own = nodes.filter(|node: NodeView| node.profile_uid == group.profile_uid);
    let turn = (round as usize) as int;
    assert(turn == round);
    let shift = (group_round(round, i) as usize) as int;
    assert(shift == round + i);
    if uids.len() > 0 {
        law_rotation_keeps_the_wheel(uids, turn, 0);
    }
    law_rotation_keeps_the_wheel(uids, turn, i);
    law_profiles_keep_their_nodes(nodes, group.profile_uid, Seq::empty());
    assert(group.nodes == rotated(own, shift));
    if own.len() > 0 {
        law_rotation_keeps_the_wheel(own, shift, 0);
    }
    law_rotation_keeps_the_wheel(own, shift, j);
    assert(j + shift == j + round + i);
}

/// A round begins before its first group with nothing done, nothing open and nothing known of the
/// sources; it is as long as there are due nodes. Rounds are counted one by one.
pub proof fn law_rounds_begin_afresh(
    worker: ScheduledWorker,
    now: i64,
    settings: SettingsView,
    nodes: Seq<NodeView>,
    round: u64,
)
    ensures
        ({
            let cycle = fresh_cycle(worker, now, settings, nodes, round);
            &&& cycle.worker == worker && cycle.now == now && cycle.settings == settings
            &&& cycle.groups == round_groups(nodes, round)
            &&& cycle.group == 0 && cycle.node == 0 && !cycle.open
            &&& cycle.completed == 0 && cycle.total == nodes.len()
            &&& cycle.profile_name is None && cycle.available.len() == 0
            &&& cycle.download_source is None && cycle.upload_source is None
        }),
        round < u64::MAX ==> next_round(round) == round + 1,
        round == u64::MAX ==> next_round(round) == 0,
        end_phase(true) == "cancelled"@,
        end_phase(false) == "idle"@,
{
}

/// A passed node is counted, and the one behind it comes next. A group that is left gives way to the
/// next one; one that could not be prepared counts with all of its nodes. An opened group begins with
/// its first node, and its sources are asked anew.
pub proof fn law_rounds_go_on_in_order(cycle: CycleView, available: Seq<Seq<char>>)
    requires
        0 <= cycle.group < cycle.groups.len(),
    ensures
        ({
            let after = cycle.past_node();
            &&& after.completed == cycle.completed + 1
            &&& after == (CycleView { node: after.node, completed: after.completed, ..cycle })
            &&& 0 <= cycle.node && cycle.node + 1 < cycle.groups[cycle.group].nodes.len() ==> after.next_node()
                == cycle.groups[cycle.group].nodes[cycle.node + 1]
        }),
        ({
            let after = cycle.past_group();
            &&& after.group == cycle.group + 1 && !after.open && after.node == 0 && after.profile_name is None
            &&& after.completed == cycle.completed && after.total == cycle.total
            &&& after.groups == cycle.groups && after.worker == cycle.worker && after.now == cycle.now
            &&& after.settings == cycle.settings
        }),
        ({
            let after = cycle.without_group();
            &&& after == (CycleView { completed: after.completed, ..cycle.past_group() })
            &&& after.completed - cycle.completed == cycle.groups[cycle.group].nodes.len()
        }),
        ({
            let after = cycle.with_group_open(available);
            &&& after.open && after.node == 0 && after.available == available
            &&& after.source_view(MeasurementKind::Download) is None
            &&& after.source_view(MeasurementKind::Upload) is None
            &&& after.completed == cycle.completed && after.group == cycle.group && after.groups
                == cycle.groups && after.total == cycle.total && after.profile_name == cycle.profile_name
            &&& cycle.groups[cycle.group].nodes.len() > 0 ==> after.next_node()
                == cycle.groups[cycle.group].nodes[0]
        }),
        cycle.source_view(MeasurementKind::Download) == cycle.download_source,
        cycle.source_view(MeasurementKind::Upload) == cycle.upload_source,
        cycle.profile_name is Some ==> cycle.group_name() == cycle.profile_name,
        cycle.profile_name is None && cycle.groups[cycle.group].nodes.len() > 0 ==> cycle.group_name()
            == Some(cycle.groups[cycle.group].nodes[0].profile_name),
{
}

/// A node that none of the listed nodes is keeps all of its times when the due tests of those are put
/// off. The latency tests of a listed node that were to come earlier come at the given time.
pub proof fn law_delays_concern_the_listed_nodes(
    store: StoreView,
    worker: ScheduledWorker,
    nodes: Seq<NodeView>,
    now: i64,
    retry_at: i64,
    i: int,
)
    requires
        0 <= i < store.nodes.len(),
    ensures
        ({
            let after = store.after_delays(worker, nodes, now, retry_at);
            let was = store.nodes[i].node;
            let listed = exists|k: int| 0 <= k < nodes.len() && (#[trigger] nodes[k]).node_id == was.node_id;
            &&& after.nodes.len() == store.nodes.len()
            &&& after.measurements == store.measurements && after.changes == store.changes && after.profiles
                == store.profiles && after.settings == store.settings
            &&& !listed ==> after.nodes[i] == store.nodes[i]
            &&& listed && worker == ScheduledWorker::Latency ==> put_off(
                after.nodes[i].node.next_latency_at,
                was.next_latency_at,
                retry_at as int,
            )
            &&& after.nodes[i].node.node_id == was.node_id
        }),
    decreases nodes.len(),
{
    if nodes.len() > 0 {
        let front = nodes.drop_last();
        law_delays_concern_the_listed_nodes(store, worker, front, now, retry_at, i);
        let before = store.after_delays(worker, front, now, retry_at);
        let was = store.nodes[i].node;
        if exists|k: int| 0 <= k < front.len() && (#[trigger] front[k]).node_id == was.node_id {
            let k = choose|k: int| 0 <= k < front.len() && (#[trigger] front[k]).node_id == was.node_id;
            assert(nodes[k] == front[k]);
        }
        if nodes.last().node_id == was.node_id {
            assert(nodes[nodes.len() - 1].node_id == was.node_id);
        }
        if exists|k: int| 0 <= k < nodes.len() && (#[trigger] nodes[k]).node_id == was.node_id {
            let k = choose|k: int| 0 <= k < nodes.len() && (#[trigger] nodes[k]).node_id == was.node_id;
            if k < front.len() {
                assert(front[k] == nodes[k]);
            }
        }
        assert(before.nodes[i].node.node_id == was.node_id);
    }
}

/// Speed tests from the third one on come at the fixed interval. They belong to the first series
/// until three were made.
pub proof fn law_later_tests_come_at_the_interval(bootstrap_stage: u8, interval_hours: u64)
    ensures
        bootstrap_stage >= 2 ==> speed_pause(bootstrap_stage, interval_hours) == interval_hours * 60 * 60,
        speed_pause(1, interval_hours) == 3 * 60 * 60,
        bootstrap_stage <= 2 ==> trigger_text(bootstrap_stage) == "bootstrap"@,
        bootstrap_stage > 2 ==> trigger_text(bootstrap_stage) == "scheduled"@,
{
}

/// A test of the ranking takes the duration and the size of the settings, eight seconds to connect
/// and three seconds of silence.
pub proof fn law_ranking_tests_follow_the_settings(options: SpeedTestOptions, url: Seq<char>, settings: SettingsView)
    requires
        is_ranking_test(options, url, settings),
    ensures
        options.url@ == url,
        options.duration_ms is Some && options.duration_ms->0 == settings.speed_duration_ms,
        options.max_bytes is Some && options.max_bytes->0 == settings.speed_max_bytes,
        options.connect_timeout_ms is Some && options.connect_timeout_ms->0 == 8_000,
        options.read_idle_timeout_ms is Some && options.read_idle_timeout_ms->0 == 3_000,
{
}

/// A core is ready when it answers with a status from 200 to 299; otherwise the complaint tells the
/// status or why there was no answer.
pub proof fn law_ready_cores_answer_well(reply: ReadyReply)
    ensures
        match reply {
            ReadyReply::Answered { status_code, status_text } => {
                &&& reply.ready() <==> 200 <= status_code <= 299
                &&& reply.complaint() == "控制接口状态码 "@ + status_text@
            },
            ReadyReply::Failed { message } => !reply.ready() && reply.complaint() == message@,
        },
{
}

/// The value of a hexadecimal digit in capitals.
pub open spec fn digit_value(digit: char) -> int {
    if '0' <= digit && digit <= '9' {
        digit as int - '0' as int
    } else {
        digit as int - 'A' as int + 10
    }
}

/// A part of an address is written byte by byte: a letter or a digit as itself, any other byte as a
/// percent sign and two hexadecimal digits whose values give the byte back.
pub proof fn law_addresses_spell_every_byte(bytes: Seq<u8>, byte: u8)
    ensures
        ({
            let plain = ('0' as int <= byte <= '9' as int) || ('A' as int <= byte <= 'Z' as int) || ('a' as int <= byte
                <= 'z' as int);
            let before = percent_encoded(bytes);
            let after = percent_encoded(bytes.push(byte));
            &&& percent_encoded(Seq::empty()).len() == 0
            &&& after.len() == before.len() + if plain {
                1int
            } else {
                3
            }
            &&& after.take(before.len() as int) == before
            &&& plain ==> after[before.len() as int] as int == byte
            &&& !plain ==> {
                let high = after[before.len() as int + 1];
                let low = after[before.len() as int + 2];
                &&& after[before.len() as int] == '%'
                &&& 0 <= digit_value(high) < 16 && 0 <= digit_value(low) < 16
                &&& digit_value(high) * 16 + digit_value(low) == byte
            }
        }),
{
    let all = bytes.push(byte);
    assert(all.drop_last() =~= bytes);
    let before = percent_encoded(bytes);
    let after = percent_encoded(all);
    let own = if alphanumeric(byte) {
        seq![byte as char]
    } else {
        seq![
            '%',
            capital_digit(byte as int / 16),
            capital_digit(byte as int % 16),
        ]
    };
    assert(after == before + own);
    assert(after.take(before.len() as int) =~= before);
    if alphanumeric(byte) {
        assert(after[before.len() as int] == own[0]);
    } else {
        assert(after[before.len() as int] == own[0]);
        assert(after[before.len() as int + 1] == own[1]);
        assert(after[before.len() as int + 2] == own[2]);
        lemma_capital_digit(byte as int / 16);
        lemma_capital_digit(byte as int % 16);
    }
}

proof fn lemma_capital_digit(value: int)
    requires
        0 <= value < 16,
    ensures
        digit_value(capital_digit(value)) == value,
{
    let digit = capital_digit(value);
    if value < 10 {
        assert((48 + value) as u8 == 48 + value);
        assert(digit as int == 48 + value);
    } else {
        assert((55 + value) as u8 == 55 + value);
        assert(digit as int == 55 + value);
    }
}

/// Each listed node has the type that the reply about all proxies tells under its name, and an
/// unknown one where it tells none.
pub proof fn law_listed_nodes_have_their_types(
    all: ReplyView,
    members: Seq<ReplyView>,
    proxies: ReplyView,
    proxy: ReplyView,
    k: int,
)
    requires
        0 <= k < listed_nodes(all, members).len(),
        all.field("proxies"@) == Some(proxies),
    ensures
        ({
            let node = listed_nodes(all, members)[k];
            let told = proxies.field(node.0) == Some(proxy) && proxy.field("type"@) is Some && proxy.field(
                "type"@,
            )->0 is Text;
            &&& told ==> proxy.field("type"@) == Some(ReplyView::Text(node.1))
            &&& proxies.field(node.0) is None ==> node.1 == "Unknown"@
        }),
    decreases members.len(),
{
    if members.len() > 0 {
        let front = members.drop_last();
        let before = listed_nodes(all, front);
        if k < before.len() {
            law_listed_nodes_have_their_types(all, front, proxies, proxy, k);
            assert(listed_nodes(all, members)[k] == before[k]);
        } else {
            assert(listed_nodes(all, members)[k].1 == listed_type(all, listed_nodes(all, members)[k].0));
        }
    }
}

/// A failed manual test is noted with its node, its direction, what it moved and how long it took. It
/// counts against the node exactly where the environment works, the test is made as those of the
/// ranking are and the user confirmed the node as a participant; where the environment fails, the
/// note says so.
pub proof fn law_failed_manual_tests_are_noted(
    node: NodeView,
    mode: ManualSpeedMode,
    error: SpeedErrorView,
    reachable: bool,
    alike: bool,
    measured_ms: u64,
    now: i64,
)
    ensures
        ({
            let record = manual_failure_record(node, mode, error, reachable, alike, measured_ms, now);
            &&& record.node_id == node.node_id && record.created_at == now
            &&& !record.success && record.value is None
            &&& record.kind == match mode {
                ManualSpeedMode::Download => MeasurementKind::Download,
                ManualSpeedMode::Upload => MeasurementKind::Upload,
            }
            &&& match error.progress {
                Some(progress) => record.bytes_down == progress.0 && record.bytes_up == progress.1
                    && record.duration_ms == progress.2,
                None => record.bytes_down == 0 && record.bytes_up == 0 && record.duration_ms == measured_ms,
            }
            &&& record.rank_eligible <==> reachable && alike && node.manual_override && node.state
                == ParticipationState::Participating
            &&& reachable ==> record.trigger == "manual"@ && record.error == Some(error.message)
            &&& !reachable ==> record.trigger == "environment"@ && record.error == Some(
                "测试环境异常，不计入节点结果："@ + error.message,
            )
        }),
{
}

/// A successful manual test is noted for the node that has its name in the profile of the batch, as a
/// manual one; where no active node has it, nothing is noted.
pub proof fn law_manual_successes_are_noted(run: RunView, tables: StoreView, result: SpeedTestResult, now: i64)
    ensures
        ({
            let after = run.success_recorded(tables, result, now);
            let named = tables.node_by_name(run.profile_uid, run.next_name());
            &&& named is None ==> after == tables
            &&& named is Some ==> {
                let added = after.measurements.last();
                &&& after == (StoreView { measurements: after.measurements, ..tables })
                &&& after.measurements.len() == tables.measurements.len() + 1
                &&& after.measurements.take(tables.measurements.len() as int) == tables.measurements
                &&& added.node_id == named->0.node_id && added.success && added.trigger == "manual"@
                &&& added.created_at == now
                &&& added.rank_eligible <==> run.alike && named->0.manual_override && named->0.state
                    == ParticipationState::Participating
                &&& added.kind == match result {
                    SpeedTestResult::Download(_) => MeasurementKind::Download,
                    SpeedTestResult::Upload(_) => MeasurementKind::Upload,
                }
            }
        }),
{
    let after = run.success_recorded(tables, result, now);
    if tables.node_by_name(run.profile_uid, run.next_name()) is Some {
        assert(after.measurements.take(tables.measurements.len() as int) =~= tables.measurements);
    }
}

/// A batch goes through its nodes in the order of the request, one after the other.
pub proof fn law_batches_go_on_in_order(run: RunView)
    requires
        run.valid(),
        run.awaits_node(),
    ensures
        run.next_name() == run.request.node_names@[run.next]@,
        run.past_node() == (RunView { next: run.past_node().next, ..run }),
        run.past_node().awaits_node() ==> run.past_node().next_name() == run.request.node_names@[run.next + 1]@,
        !run.past_node().awaits_node() <==> run.next + 1 == run.request.node_names@.len(),
{
}

} // verus!
