//! What holds of the course of tests: of rounds, visits, batches and their status.

use crate::batch::{BatchRowView, BatchView, row_at, with_row};
use crate::config::{ConfigView, entry, with_entry};
use crate::controller::{READY_ATTEMPTS, running_config};
use crate::delay::delay_plan;
use crate::digits::decimal;
use crate::manual::manual_counts;
use crate::models::{ManualBatchRequest, ManualSpeedMode, NodeView, ParticipationState, SpeedTestResult};
use crate::profile::lemma_with_entry;
use crate::replies::{ReplyView, listed_nodes};
use crate::schedule::{
    BUSY_NETWORK_BYTES_PER_SECOND, LONG_RETRY, MEASUREMENT_COOLDOWN, SCAN_INTERVAL, SHORT_RETRY,
    matches_ranking, nodes_of, of_profiles, rotated,
};
use crate::settings::SettingsView;
use crate::status::{ScheduledWorker, TaskView};
use crate::store::StoreView;
use crate::text::trimmed;
use crate::visit::{VisitStage, VisitStep, following, stages_left, step_at};
use vstd::prelude::*;

verus! {

/// The steps of a visit from a stage on that nobody stops.
pub open spec fn steps_from(stage: VisitStage, worker: ScheduledWorker, download_due: bool, upload_due: bool) -> Seq<
    VisitStep,
>
    decreases stages_left(stage),
{
    if stage == VisitStage::Over {
        Seq::empty()
    } else {
        let next = following(stage, worker, download_due, upload_due, false);
        if stages_left(next) < stages_left(stage) {
            seq![step_at(next)] + steps_from(next, worker, download_due, upload_due)
        } else {
            Seq::empty()
        }
    }
}

/// A visit that nobody stops waits for its turn, lets the line rest and measures the latency. The
/// speed queue then makes exactly the speed tests that are due, the download first, with a rest
/// between two and one at the end. The latency queue leaves the node.
pub proof fn law_visits_make_every_due_test()
    ensures
        steps_from(VisitStage::Start, ScheduledWorker::Speed, true, true) == seq![
            VisitStep::AwaitTurn,
            VisitStep::Rest,
            VisitStep::TestLatency,
            VisitStep::TestDownload,
            VisitStep::Rest,
            VisitStep::TestUpload,
            VisitStep::Rest,
            VisitStep::Leave,
        ],
        steps_from(VisitStage::Start, ScheduledWorker::Speed, true, false) == seq![
            VisitStep::AwaitTurn,
            VisitStep::Rest,
            VisitStep::TestLatency,
            VisitStep::TestDownload,
            VisitStep::Rest,
            VisitStep::Leave,
        ],
        steps_from(VisitStage::Start, ScheduledWorker::Speed, false, true) == seq![
            VisitStep::AwaitTurn,
            VisitStep::Rest,
            VisitStep::TestLatency,
            VisitStep::TestUpload,
            VisitStep::Rest,
            VisitStep::Leave,
        ],
        forall|download_due: bool, upload_due: bool| #[trigger]
            steps_from(VisitStage::Start, ScheduledWorker::Latency, download_due, upload_due) == seq![
                VisitStep::AwaitTurn,
                VisitStep::Rest,
                VisitStep::TestLatency,
                VisitStep::Leave,
            ],
{
    reveal_with_fuel(steps_from, 10);
    let speed = ScheduledWorker::Speed;
    assert(steps_from(VisitStage::Start, speed, true, true) =~= seq![
        VisitStep::AwaitTurn,
        VisitStep::Rest,
        VisitStep::TestLatency,
        VisitStep::TestDownload,
        VisitStep::Rest,
        VisitStep::TestUpload,
        VisitStep::Rest,
        VisitStep::Leave,
    ]);
    assert(steps_from(VisitStage::Start, speed, true, false) =~= seq![
        VisitStep::AwaitTurn,
        VisitStep::Rest,
        VisitStep::TestLatency,
        VisitStep::TestDownload,
        VisitStep::Rest,
        VisitStep::Leave,
    ]);
    assert(steps_from(VisitStage::Start, speed, false, true) =~= seq![
        VisitStep::AwaitTurn,
        VisitStep::Rest,
        VisitStep::TestLatency,
        VisitStep::TestUpload,
        VisitStep::Rest,
        VisitStep::Leave,
    ]);
    assert forall|download_due: bool, upload_due: bool| #[trigger]
        steps_from(VisitStage::Start, ScheduledWorker::Latency, download_due, upload_due) == seq![
            VisitStep::AwaitTurn,
            VisitStep::Rest,
            VisitStep::TestLatency,
            VisitStep::Leave,
        ] by {
        assert(steps_from(VisitStage::Start, ScheduledWorker::Latency, download_due, upload_due) =~= seq![
            VisitStep::AwaitTurn,
            VisitStep::Rest,
            VisitStep::TestLatency,
            VisitStep::Leave,
        ]);
    }
}

/// In each round the items keep their order as on a wheel: the one at a place comes from as many
/// places further on as rounds have passed.
pub proof fn law_rotation_keeps_the_wheel<T>(items: Seq<T>, round: int, i: int)
    requires
        0 <= i < items.len(),
        round >= 0,
    ensures
        rotated(items, round).len() == items.len(),
        rotated(items, round)[i] == items[(i + round) % (items.len() as int)],
{
    let n = items.len() as int;
    let offset = round % n;
    assert(0 <= offset < n) by (nonlinear_arith)
        requires
            n > 0,
            offset == round % n,
    ;
    let quotient = round / n;
    assert(round == n * quotient + offset) by (nonlinear_arith)
        requires
            n > 0,
            quotient == round / n,
            offset == round % n,
    ;
    if i + offset < n {
        vstd::arithmetic::div_mod::lemma_fundamental_div_mod_converse(i + round, n, quotient, i + offset);
    } else {
        assert(n * quotient + (i + offset) == n * (quotient + 1) + (i + offset - n)) by (nonlinear_arith);
        vstd::arithmetic::div_mod::lemma_fundamental_div_mod_converse(
            i + round,
            n,
            quotient + 1,
            i + offset - n,
        );
    }
    if n == 1 {
        assert(offset == 0);
    }
}

/// The nodes of a group are exactly those of its profile, in their order, and the nodes of selected
/// profiles are exactly those whose profile is selected.
pub proof fn law_profiles_keep_their_nodes(
    nodes: Seq<NodeView>,
    profile_uid: Seq<char>,
    profile_uids: Seq<Seq<char>>,
)
    ensures
        nodes_of(nodes, profile_uid) == nodes.filter(|node: NodeView| node.profile_uid == profile_uid),
        of_profiles(nodes, profile_uids) == nodes.filter(
            |node: NodeView| profile_uids.contains(node.profile_uid),
        ),
    decreases nodes.len(),
{
    reveal(Seq::filter);
    if nodes.len() > 0 {
        law_profiles_keep_their_nodes(nodes.drop_last(), profile_uid, profile_uids);
    }
}

/// A queue takes the due nodes of the selected profiles and of its own kind of test.
pub proof fn law_queues_take_the_due_nodes_of_selected_profiles(
    store: StoreView,
    now: i64,
    profile_uids: Seq<Seq<char>>,
)
    ensures
        store.due_nodes(ScheduledWorker::Latency, now, profile_uids) == store.due_latency_nodes(now).filter(
            |node: NodeView| profile_uids.contains(node.profile_uid),
        ),
        store.due_nodes(ScheduledWorker::Speed, now, profile_uids) == store.due_speed_nodes(now).filter(
            |node: NodeView| profile_uids.contains(node.profile_uid),
        ),
{
    law_profiles_keep_their_nodes(store.due_latency_nodes(now), Seq::empty(), profile_uids);
    law_profiles_keep_their_nodes(store.due_speed_nodes(now), Seq::empty(), profile_uids);
}

/// Tests rest for two seconds between each other, are tried again after ten minutes or half an hour,
/// give way to five mebibytes per second on the line, and profiles are scanned every half hour. A
/// starting core is asked forty times.
pub proof fn law_times_are_fixed()
    ensures
        MEASUREMENT_COOLDOWN == 2,
        SHORT_RETRY == 10 * 60,
        LONG_RETRY == 30 * 60,
        SCAN_INTERVAL == 30 * 60,
        BUSY_NETWORK_BYTES_PER_SECOND == 5 * 1_024 * 1_024,
        READY_ATTEMPTS == 40,
{
}

/// A manual test is made as those of the ranking are exactly where it is meant to count and has the
/// address of its direction, the duration and the size of the settings; without wishes it takes five
/// seconds and 32 mebibytes. Its result counts where the user also confirmed the node as a
/// participant.
pub proof fn law_manual_tests_count_where_they_are_alike(
    request: ManualBatchRequest,
    settings: SettingsView,
    node: NodeView,
)
    ensures
        ({
            let address = match request.mode {
                ManualSpeedMode::Download => settings.download_url,
                ManualSpeedMode::Upload => settings.upload_url,
            };
            let duration: u64 = match request.options.duration_ms {
                Some(duration) => duration,
                None => 5_000,
            };
            let bytes: u64 = match request.options.max_bytes {
                Some(bytes) => bytes,
                None => 33_554_432,
            };
            manual_counts(matches_ranking(request, settings), node) <==> {
                &&& request.include_in_ranking
                &&& trimmed(request.options.url@) == address
                &&& duration == settings.speed_duration_ms
                &&& bytes == settings.speed_max_bytes
                &&& node.manual_override
                &&& node.state == ParticipationState::Participating
            }
        }),
{
}

/// When a batch ends, a row that was waiting or being tested fails with the error of the batch, or is
/// cancelled where there is no error and the batch was cancelled. Every other row stays as it is, and
/// no row loses its node or its result.
pub proof fn law_open_rows_end_with_the_batch(
    batch: BatchView,
    error: Option<Seq<char>>,
    cancelled: bool,
    i: int,
)
    requires
        0 <= i < batch.rows.len(),
    ensures
        ({
            let after = batch.ended(error, cancelled);
            let was = batch.rows[i];
            let row = after.rows[i];
            let open = was.status == "queued"@ || was.status == "testing"@;
            &&& !after.running && after.job_id == batch.job_id && after.mode == batch.mode
            &&& after.rows.len() == batch.rows.len()
            &&& row.node_name == was.node_name && row.result == was.result
            &&& open && error is Some ==> row.status == "failed"@ && row.error == error
            &&& open && error is None && cancelled ==> row.status == "cancelled"@ && row.error is None
            &&& !open || (error is None && !cancelled) ==> row == was
        }),
{
    reveal_strlit("queued");
    reveal_strlit("testing");
    reveal_strlit("failed");
    assert("queued"@[0] == 'q');
    assert("testing"@[0] == 't');
    assert("failed"@[0] == 'f');
}

proof fn lemma_row_place(rows: Seq<BatchRowView>, node_name: Seq<char>)
    ensures
        0 <= row_at(rows, node_name) <= rows.len(),
        row_at(rows, node_name) < rows.len() ==> rows[row_at(rows, node_name)].node_name == node_name,
        forall|k: int| 0 <= k < row_at(rows, node_name) ==> (#[trigger] rows[k]).node_name != node_name,
    decreases rows.len(),
{
    if rows.len() > 0 && rows[0].node_name != node_name {
        let rest = rows.drop_first();
        lemma_row_place(rest, node_name);
        assert forall|k: int| 0 <= k < row_at(rows, node_name) implies (#[trigger] rows[k]).node_name
            != node_name by {
            if k > 0 {
                assert(rest[k - 1] == rows[k]);
            }
        }
    }
}

/// What is noted of a node in a batch is noted in the first row of that node and in no other.
pub proof fn law_notes_go_to_the_row_of_the_node(
    rows: Seq<BatchRowView>,
    node_name: Seq<char>,
    status: Seq<char>,
    error: Option<Seq<char>>,
    result: Option<SpeedTestResult>,
    i: int,
)
    requires
        0 <= i < rows.len(),
    ensures
        ({
            let after = with_row(rows, node_name, status, error, result);
            let first = rows[i].node_name == node_name && forall|k: int|
                0 <= k < i ==> (#[trigger] rows[k]).node_name != node_name;
            &&& after.len() == rows.len()
            &&& first ==> after[i] == (BatchRowView { node_name, status, error, result })
            &&& !first ==> after[i] == rows[i]
        }),
{
    lemma_row_place(rows, node_name);
    let at = row_at(rows, node_name);
    if rows[i].node_name == node_name {
        assert(at <= i);
    }
}

/// While a queue works, the status shows its phase, its node and its progress, both for the queue and
/// in the summary; the other queue stays as it is. The summary shows the error of this report, or
/// else the last one of a queue.
pub proof fn law_status_shows_work(
    status: TaskView,
    worker: ScheduledWorker,
    phase: Seq<char>,
    profile_name: Option<Seq<char>>,
    node_name: Option<Seq<char>>,
    completed: usize,
    total: usize,
    error: Option<Seq<char>>,
)
    ensures
        ({
            let after = status.at_work(worker, phase, profile_name, node_name, completed, total, error);
            let (own, other, other_was) = match worker {
                ScheduledWorker::Latency => (after.latency, after.speed, status.speed),
                ScheduledWorker::Speed => (after.speed, after.latency, status.latency),
            };
            &&& after.running && after.cancellable && own.running
            &&& own.phase == Some(phase) && after.phase == Some(phase)
            &&& own.profile_name == profile_name && after.profile_name == profile_name
            &&& own.node_name == node_name && after.node_name == node_name
            &&& own.completed == completed && after.completed == completed
            &&& own.total == total && after.total == total
            &&& own.last_error == error
            &&& other == other_was
            &&& error is Some ==> after.last_error == error
            &&& error is None ==> after.last_error == other_was.last_error
        }),
{
}

/// When a queue ends, it keeps its node and, without a new one, its error, and shows its last phase
/// and progress. The other queue stays as it is; where it runs, the summary shows it.
pub proof fn law_status_shows_the_end(
    status: TaskView,
    worker: ScheduledWorker,
    completed: usize,
    total: usize,
    phase: Seq<char>,
    error: Option<Seq<char>>,
)
    ensures
        ({
            let after = status.at_rest(worker, completed, total, phase, error);
            let (own, own_was, other, other_was) = match worker {
                ScheduledWorker::Latency => (after.latency, status.latency, after.speed, status.speed),
                ScheduledWorker::Speed => (after.speed, status.speed, after.latency, status.latency),
            };
            &&& !own.running && own.phase == Some(phase) && own.completed == completed && own.total == total
            &&& own.profile_name == own_was.profile_name && own.node_name == own_was.node_name
            &&& error is Some ==> own.last_error == error && after.last_error == error
            &&& error is None ==> own.last_error == own_was.last_error
            &&& other == other_was
            &&& after.running == other.running && after.cancellable == other.running
            &&& other.running ==> after.phase == other.phase && after.profile_name == other.profile_name
                && after.node_name == other.node_name && after.completed == other.completed && after.total
                == other.total
            &&& !other.running ==> after.phase == Some(phase) && after.profile_name is None
                && after.node_name is None && after.completed == completed && after.total == total
        }),
{
}

/// A started core listens on the given port, is controlled at the given address with the given
/// secret, and measures delays as one.
pub proof fn law_running_config_has_its_own_keys(
    config: Seq<(ConfigView, ConfigView)>,
    mixed_port: int,
    address: Seq<char>,
    secret: Seq<char>,
)
    ensures
        ({
            let running = running_config(config, mixed_port, address, secret);
            &&& entry(running, "mixed-port"@) == Some(ConfigView::Number(mixed_port))
            &&& entry(running, "external-controller"@) == Some(ConfigView::Text(address))
            &&& entry(running, "secret"@) == Some(ConfigView::Text(secret))
            &&& entry(running, "unified-delay"@) == Some(ConfigView::Flag(true))
        }),
{
    reveal_strlit("mixed-port");
    reveal_strlit("external-controller");
    reveal_strlit("secret");
    reveal_strlit("unified-delay");
    assert("mixed-port"@[0] == 'm' && "external-controller"@[0] == 'e');
    assert("secret"@[0] == 's' && "unified-delay"@[0] == 'u');
    let listening = with_entry(config, "mixed-port"@, ConfigView::Number(mixed_port));
    let controlled = with_entry(listening, "external-controller"@, ConfigView::Text(address));
    let secured = with_entry(controlled, "secret"@, ConfigView::Text(secret));
    lemma_with_entry(config, "mixed-port"@, ConfigView::Number(mixed_port), "mixed-port"@);
    lemma_with_entry(listening, "external-controller"@, ConfigView::Text(address), "mixed-port"@);
    lemma_with_entry(controlled, "secret"@, ConfigView::Text(secret), "mixed-port"@);
    lemma_with_entry(secured, "unified-delay"@, ConfigView::Flag(true), "mixed-port"@);
    lemma_with_entry(controlled, "secret"@, ConfigView::Text(secret), "external-controller"@);
    lemma_with_entry(secured, "unified-delay"@, ConfigView::Flag(true), "external-controller"@);
    lemma_with_entry(secured, "unified-delay"@, ConfigView::Flag(true), "secret"@);
}

/// A delay test connects to the host itself, or to the proxy of this machine where there is one. The
/// port is the given one, or that of the scheme. Only a handshake without a proxy sends nothing
/// first; a handshake through the proxy first asks it for a tunnel to the host.
pub proof fn law_delay_tests_go_through_the_proxy(
    url: Seq<char>,
    scheme: Seq<char>,
    host: Seq<char>,
    port: Option<u16>,
    proxy_port: Option<u16>,
)
    ensures
        ({
            let plan = delay_plan(url, scheme, host, port, proxy_port);
            let default: u16 = if scheme == "https"@ {
                443
            } else {
                80
            };
            let target = host + ":"@ + decimal(
                (if port is Some {
                    port->0
                } else {
                    default
                }) as nat,
            );
            &&& plan.https == (scheme == "https"@)
            &&& plan.host == host
            &&& proxy_port is Some ==> plan.address == "127.0.0.1"@ + ":"@ + decimal(proxy_port->0 as nat)
            &&& proxy_port is None ==> plan.address == target
            &&& plan.request is None <==> scheme == "https"@ && proxy_port is None
            &&& scheme == "https"@ && proxy_port is Some ==> plan.request == Some(
                "CONNECT "@ + target + " HTTP/1.1\r\nHost: "@ + target + "\r\n\r\n"@,
            )
            &&& scheme != "https"@ && proxy_port is Some ==> plan.request == Some(
                "HEAD "@ + url + " HTTP/1.1\r\nHost: "@ + host + "\r\nConnection: close\r\n\r\n"@,
            )
            &&& scheme != "https"@ && proxy_port is None ==> plan.request == Some(
                "HEAD / HTTP/1.1\r\nHost: "@ + host + "\r\nConnection: close\r\n\r\n"@,
            )
        }),
{
}

/// The nodes of a reply are the members of the group that are texts, in their order.
pub proof fn law_listed_nodes_are_the_named_members(all: ReplyView, members: Seq<ReplyView>)
    ensures
        listed_nodes(all, members).map_values(|node: (Seq<char>, Seq<char>)| node.0) == members.filter(
            |member: ReplyView| member is Text,
        ).map_values(|member: ReplyView| member->Text_0),
    decreases members.len(),
{
    reveal(Seq::filter);
    let named = |node: (Seq<char>, Seq<char>)| node.0;
    let text = |member: ReplyView| member is Text;
    let name = |member: ReplyView| member->Text_0;
    let listed = listed_nodes(all, members);
    if members.len() == 0 {
        assert(listed.map_values(named) =~= members.filter(text).map_values(name));
    } else {
        let front = members.drop_last();
        let last = members.last();
        law_listed_nodes_are_the_named_members(all, front);
        if last is Text {
            assert(listed.map_values(named) =~= listed_nodes(all, front).map_values(named).push(last->Text_0));
            assert(front.filter(text).push(last).map_values(name) =~= front.filter(text).map_values(name).push(
                last->Text_0,
            ));
        }
    }
}

} // verus!
