//! When tests take place and with which options.

use vstd::prelude::*;

use crate::models::{ManualBatchRequest, ManualSpeedMode, NodeView, StoredNode};
use crate::settings::{law_sorted_unique, sort_unique, sorted_unique, BenchmarkSettings, SettingsView};
use crate::speed::SpeedTestOptions;
use crate::store::{contains_text, node_views};
use crate::text::{lemma_text_order_flip, same_text, text_order, texts, trim, trimmed};

verus! {

/// The seconds of rest between two tests.
pub const MEASUREMENT_COOLDOWN: u64 = 2;

/// The bytes per second on the main line from which on speed tests are put off.
pub const BUSY_NETWORK_BYTES_PER_SECOND: u64 = 5_242_880;

/// The seconds until tests are tried again after the environment failed.
pub const SHORT_RETRY: i64 = 600;

/// The seconds until a speed test is tried again after the node failed.
pub const LONG_RETRY: i64 = 1_800;

/// The seconds between two scans of the profiles.
pub const SCAN_INTERVAL: i64 = 1_800;

/// Moves the first `count` items of a slice to its end, which is what the method `rotate_left` of
/// slices in the standard library documents. That method panics where the count exceeds the
/// length.
#[verifier::external_body]
pub(crate) fn turn_left<T>(items: &mut [T], count: usize)
    requires
        count <= old(items)@.len(),
    ensures
        final(items)@ == old(items)@.skip(count as int) + old(items)@.take(count as int),
{
    items.rotate_left(count);
}

/// Items turned round so that another one comes first in each round.
pub open spec fn rotated<T>(items: Seq<T>, round: int) -> Seq<T> {
    if items.len() > 1 {
        let offset = round % items.len() as int;
        items.skip(offset) + items.take(offset)
    } else {
        items
    }
}

/// Turns items round so that another one comes first in each round. The round counts modulo the
/// word size of the machine.
pub fn rotate_for_round<T>(items: &mut [T], round: u64)
    ensures
        final(items)@ == rotated(old(items)@, (round as usize) as int),
{
    if items.len() > 1 {
        let offset: usize = round as usize % items.len();
        turn_left(items, offset);
    }
}

/// Turning round keeps every item, and the item that comes first is the one whose turn it is.
pub proof fn law_rotation_takes_turns<T>(items: Seq<T>, round: int)
    requires
        items.len() > 0,
        round >= 0,
    ensures
        rotated(items, round).len() == items.len(),
        rotated(items, round).first() == items[round % items.len() as int],
        rotated(items, round).to_multiset() == items.to_multiset(),
{
    if items.len() > 1 {
        let offset = round % items.len() as int;
        assert(0 <= offset < items.len());
        let front = items.take(offset);
        let back = items.skip(offset);
        assert(items =~= front + back);
        vstd::seq_lib::lemma_multiset_commutative(front, back);
        vstd::seq_lib::lemma_multiset_commutative(back, front);
        assert(front.to_multiset().add(back.to_multiset()) =~= back.to_multiset().add(front.to_multiset()));
    } else {
        assert(round % 1 == 0);
    }
}

/// The note on a speed test: part of the first series, or of the regular schedule.
pub open spec fn trigger_text(bootstrap_stage: u8) -> Seq<char> {
    if bootstrap_stage < 3 {
        "bootstrap"@
    } else {
        "scheduled"@
    }
}

/// The note on a speed test of a stage.
pub fn speed_trigger(bootstrap_stage: u8) -> (text: &'static str)
    ensures
        text@ == trigger_text(bootstrap_stage),
{
    if bootstrap_stage < 3 {
        "bootstrap"
    } else {
        "scheduled"
    }
}

/// The seconds until the speed test that follows one of a stage.
pub open spec fn speed_pause(bootstrap_stage: u8, interval_hours: u64) -> int {
    if bootstrap_stage == 0 {
        3_600
    } else if bootstrap_stage == 1 {
        10_800
    } else {
        interval_hours * 3_600
    }
}

/// The stage and the time of the speed test that follows one of a stage: after one hour, after
/// three more, and then at the fixed interval.
pub fn next_speed_schedule(bootstrap_stage: u8, now: i64, interval_hours: u64) -> (next: (u8, i64))
    requires
        now + speed_pause(bootstrap_stage, interval_hours) <= i64::MAX,
        bootstrap_stage >= 2 ==> interval_hours * 3_600 <= i64::MAX,
    ensures
        next.0 == if bootstrap_stage >= 2 {
            3
        } else {
            bootstrap_stage + 1
        },
        next.1 == now + speed_pause(bootstrap_stage, interval_hours),
{
    match bootstrap_stage {
        0 => (1, now + 3_600),
        1 => (2, now + 10_800),
        _ => (3, now + interval_hours as i64 * 3_600),
    }
}

/// The first three speed tests of a node take place at once, after one hour and after four hours.
pub proof fn law_first_series_takes_four_hours(interval_hours: u64)
    ensures
        speed_pause(0, interval_hours) == 3_600,
        speed_pause(0, interval_hours) + speed_pause(1, interval_hours) == 4 * 3_600,
{
}

/// The seconds until the next day, given when it starts. A day that has started already gives a
/// number beyond the signed 64-bit numbers.
pub fn seconds_until_local_day_end(next_day_start: i64, now: i64) -> (seconds: u64)
    ensures
        ({
            let left = next_day_start - now;
            let limited = if left > i64::MAX {
                i64::MAX as int
            } else if left < i64::MIN {
                i64::MIN as int
            } else {
                left
            };
            seconds == if limited >= 0 {
                limited
            } else {
                limited + 0x1_0000_0000_0000_0000
            }
        }),
{
    let left: i128 = next_day_start as i128 - now as i128;
    let limited: i128 = if left > i64::MAX as i128 {
        i64::MAX as i128
    } else if left < i64::MIN as i128 {
        i64::MIN as i128
    } else {
        left
    };
    if limited >= 0 {
        limited as u64
    } else {
        (limited + 0x1_0000_0000_0000_0000) as u64
    }
}

/// The options of a speed test of the ranking.
pub open spec fn is_ranking_test(options: SpeedTestOptions, url: Seq<char>, settings: SettingsView) -> bool {
    &&& options.url@ == url
    &&& options.duration_ms == Some(settings.speed_duration_ms)
    &&& options.max_bytes == Some(settings.speed_max_bytes)
    &&& options.connect_timeout_ms == Some(8_000u64)
    &&& options.read_idle_timeout_ms == Some(3_000u64)
}

/// The options of a speed test of the ranking.
pub fn speed_options(url: &str, settings: &BenchmarkSettings) -> (options: SpeedTestOptions)
    ensures
        is_ranking_test(options, url@, settings@),
{
    SpeedTestOptions {
        url: url.to_owned(),
        duration_ms: Some(settings.speed_duration_ms),
        max_bytes: Some(settings.speed_max_bytes),
        connect_timeout_ms: Some(8_000),
        read_idle_timeout_ms: Some(3_000),
    }
}

/// The options of a short test that tells whether the source of a speed test works.
pub fn probe_options(url: &str, settings: &BenchmarkSettings) -> (options: SpeedTestOptions)
    ensures
        options.url@ == url@,
        options.duration_ms == Some(3_000u64),
        options.max_bytes == Some(1_048_576u64),
        options.connect_timeout_ms == Some(8_000u64),
        options.read_idle_timeout_ms == Some(3_000u64),
{
    let mut options = speed_options(url, settings);
    options.duration_ms = Some(3_000);
    options.max_bytes = Some(1_048_576);
    options
}

/// Whether a manual test is made as those of the ranking are: it is meant to count, and address,
/// length and size agree.
pub open spec fn matches_ranking(request: ManualBatchRequest, settings: SettingsView) -> bool {
    &&& request.include_in_ranking
    &&& trimmed(request.options.url@) == match request.mode {
        ManualSpeedMode::Download => settings.download_url,
        ManualSpeedMode::Upload => settings.upload_url,
    }
    &&& settings.speed_duration_ms == match request.options.duration_ms {
        Some(duration) => duration,
        None => 5_000,
    }
    &&& settings.speed_max_bytes == planned_bytes(request)
}

/// The most bytes that a manual test is to move.
pub open spec fn planned_bytes(request: ManualBatchRequest) -> u64 {
    match request.options.max_bytes {
        Some(bytes) => bytes,
        None => 33_554_432,
    }
}

/// The most bytes that a manual test is to move.
pub fn manual_bytes(request: &ManualBatchRequest) -> (bytes: u64)
    ensures
        bytes == planned_bytes(*request),
{
    match request.options.max_bytes {
        Some(bytes) => bytes,
        None => 33_554_432,
    }
}

/// Whether a manual test is made as those of the ranking are.
pub fn manual_matches_ranking(request: &ManualBatchRequest, settings: &BenchmarkSettings) -> (result: bool)
    ensures
        result == matches_ranking(*request, settings@),
{
    let url = trim(request.options.url.as_str());
    let expected: &str = match request.mode {
        ManualSpeedMode::Download => settings.download_url.as_str(),
        ManualSpeedMode::Upload => settings.upload_url.as_str(),
    };
    let duration: u64 = match request.options.duration_ms {
        Some(duration) => duration,
        None => 5_000,
    };
    request.include_in_ranking && same_text(url.as_str(), expected) && duration
        == settings.speed_duration_ms && manual_bytes(request) == settings.speed_max_bytes
}

/// Whether the main line is too busy for speed tests, given the bytes per second up and down.
pub fn network_is_busy(up: u64, down: u64) -> (busy: bool)
    ensures
        busy == (up + down >= BUSY_NETWORK_BYTES_PER_SECOND),
{
    up >= BUSY_NETWORK_BYTES_PER_SECOND || down >= BUSY_NETWORK_BYTES_PER_SECOND - up
}

/// The nodes of one profile that are tested one after the other.
#[derive(Debug)]
pub struct NodeGroup {
    pub profile_uid: String,
    pub nodes: Vec<StoredNode>,
}

/// What a group stands for.
#[verifier::ext_equal]
pub struct GroupView {
    pub profile_uid: Seq<char>,
    pub nodes: Seq<NodeView>,
}

impl View for NodeGroup {
    type V = GroupView;

    open spec fn view(&self) -> GroupView {
        GroupView { profile_uid: self.profile_uid@, nodes: node_views(self.nodes@) }
    }
}

/// What groups stand for.
pub open spec fn group_views(groups: Seq<NodeGroup>) -> Seq<GroupView> {
    groups.map_values(|group: NodeGroup| group@)
}

/// The nodes of a profile, in their order.
pub open spec fn nodes_of(nodes: Seq<NodeView>, profile_uid: Seq<char>) -> Seq<NodeView>
    decreases nodes.len(),
{
    if nodes.len() == 0 {
        nodes
    } else {
        let front = nodes_of(nodes.drop_last(), profile_uid);
        if nodes.last().profile_uid == profile_uid {
            front.push(nodes.last())
        } else {
            front
        }
    }
}

/// The profiles of nodes, each once, in ascending order.
pub open spec fn profiles_of(nodes: Seq<NodeView>) -> Seq<Seq<char>> {
    sorted_unique(nodes.map_values(|node: NodeView| node.profile_uid))
}

/// The groups of a round: the profiles in ascending order, turned round, and the nodes of each
/// turned round as well.
pub open spec fn round_groups(nodes: Seq<NodeView>, round: u64) -> Seq<GroupView> {
    let uids = rotated(profiles_of(nodes), (round as usize) as int);
    Seq::new(
        uids.len(),
        |i: int|
            GroupView {
                profile_uid: uids[i],
                nodes: rotated(nodes_of(nodes, uids[i]), (group_round(round, i) as usize) as int),
            },
    )
}

/// The round by which the nodes of a group are turned.
pub open spec fn group_round(round: u64, index: int) -> u64 {
    if round + index > u64::MAX {
        u64::MAX
    } else {
        (round + index) as u64
    }
}

fn pick_profile(nodes: &Vec<StoredNode>, profile_uid: &str) -> (result: Vec<StoredNode>)
    ensures
        node_views(result@) == nodes_of(node_views(nodes@), profile_uid@),
{
    let ghost all = node_views(nodes@);
    let mut result: Vec<StoredNode> = Vec::new();
    assert(node_views(result@) =~= Seq::empty());
    assert(all.take(0) =~= Seq::empty());
    for i in 0..nodes.len()
        invariant
            all == node_views(nodes@),
            node_views(result@) == nodes_of(all.take(i as int), profile_uid@),
    {
        assert(all.take(i + 1).drop_last() =~= all.take(i as int));
        assert(all.take(i + 1).last() == nodes@[i as int]@);
        if same_text(nodes[i].profile_uid.as_str(), profile_uid) {
            let ghost before = result@;
            let copy = nodes[i].clone();
            result.push(copy);
            assert(node_views(result@) =~= node_views(before).push(copy@));
        }
    }
    assert(all.take(all.len() as int) =~= all);
    result
}

fn rotate_texts(items: Vec<String>, round: u64) -> (result: Vec<String>)
    ensures
        texts(result@) == rotated(texts(items@), (round as usize) as int),
{
    let mut result = items;
    let ghost given = result@;
    rotate_for_round(result.as_mut_slice(), round);
    assert(texts(result@) =~= rotated(texts(given), (round as usize) as int));
    result
}

fn rotate_nodes(items: Vec<StoredNode>, round: u64) -> (result: Vec<StoredNode>)
    ensures
        node_views(result@) == rotated(node_views(items@), (round as usize) as int),
{
    let mut result = items;
    let ghost given = result@;
    rotate_for_round(result.as_mut_slice(), round);
    assert(node_views(result@) =~= rotated(node_views(given), (round as usize) as int));
    result
}

/// Groups due nodes by profile for a round.
pub fn plan_groups(nodes: &Vec<StoredNode>, round: u64) -> (groups: Vec<NodeGroup>)
    ensures
        group_views(groups@) == round_groups(node_views(nodes@), round),
{
    let ghost all = node_views(nodes@);
    let ghost uid_views = all.map_values(|node: NodeView| node.profile_uid);
    let mut uids: Vec<String> = Vec::new();
    for i in 0..nodes.len()
        invariant
            all == node_views(nodes@),
            uid_views == all.map_values(|node: NodeView| node.profile_uid),
            texts(uids@) == uid_views.take(i as int),
    {
        let ghost before = uids@;
        uids.push(nodes[i].profile_uid.clone());
        assert(texts(uids@) =~= texts(before).push(nodes@[i as int].profile_uid@));
        assert(uid_views[i as int] == nodes@[i as int].profile_uid@);
        assert(uid_views.take(i + 1) =~= uid_views.take(i as int).push(uid_views[i as int]));
    }
    assert(uid_views.take(uid_views.len() as int) =~= uid_views);
    let turned = rotate_texts(sort_unique(&uids), round);
    let ghost wanted = round_groups(all, round);
    let ghost turned_views = texts(turned@);
    let mut groups: Vec<NodeGroup> = Vec::new();
    for i in 0..turned.len()
        invariant
            all == node_views(nodes@),
            turned_views == texts(turned@),
            turned_views == rotated(profiles_of(all), (round as usize) as int),
            wanted == round_groups(all, round),
            group_views(groups@) == wanted.take(i as int),
    {
        let index: u64 = i as u64;
        let group_turn: u64 = if round > u64::MAX - index {
            u64::MAX
        } else {
            round + index
        };
        assert(turned_views[i as int] == turned@[i as int]@);
        let members = rotate_nodes(pick_profile(nodes, turned[i].as_str()), group_turn);
        let group = NodeGroup { profile_uid: turned[i].clone(), nodes: members };
        let ghost before = groups@;
        assert(wanted[i as int] =~= group@);
        groups.push(group);
        assert(group_views(groups@) =~= group_views(before).push(group@));
        assert(wanted.take(i + 1) =~= wanted.take(i as int).push(wanted[i as int]));
    }
    assert(wanted.take(wanted.len() as int) =~= wanted);
    groups
}

/// The nodes of some profiles, in their order.
pub open spec fn of_profiles(nodes: Seq<NodeView>, profile_uids: Seq<Seq<char>>) -> Seq<NodeView>
    decreases nodes.len(),
{
    if nodes.len() == 0 {
        nodes
    } else {
        let front = of_profiles(nodes.drop_last(), profile_uids);
        if profile_uids.contains(nodes.last().profile_uid) {
            front.push(nodes.last())
        } else {
            front
        }
    }
}

/// Keeps the nodes of some profiles.
pub fn keep_profiles(nodes: &Vec<StoredNode>, profile_uids: &Vec<String>) -> (result: Vec<StoredNode>)
    ensures
        node_views(result@) == of_profiles(node_views(nodes@), texts(profile_uids@)),
{
    let ghost all = node_views(nodes@);
    let mut result: Vec<StoredNode> = Vec::new();
    assert(node_views(result@) =~= Seq::empty());
    assert(all.take(0) =~= Seq::empty());
    for i in 0..nodes.len()
        invariant
            all == node_views(nodes@),
            node_views(result@) == of_profiles(all.take(i as int), texts(profile_uids@)),
    {
        assert(all.take(i + 1).drop_last() =~= all.take(i as int));
        assert(all.take(i + 1).last() == nodes@[i as int]@);
        if contains_text(profile_uids.as_slice(), nodes[i].profile_uid.as_str()) {
            let ghost before = result@;
            let copy = nodes[i].clone();
            result.push(copy);
            assert(node_views(result@) =~= node_views(before).push(copy@));
        }
    }
    assert(all.take(all.len() as int) =~= all);
    result
}

/// How many nodes the groups hold.
pub open spec fn group_sizes(groups: Seq<GroupView>) -> int
    decreases groups.len(),
{
    if groups.len() == 0 {
        0
    } else {
        groups.first().nodes.len() + group_sizes(groups.drop_first())
    }
}

/// How many nodes the profiles hold.
spec fn sizes_of(nodes: Seq<NodeView>, uids: Seq<Seq<char>>) -> int
    decreases uids.len(),
{
    if uids.len() == 0 {
        0
    } else {
        nodes_of(nodes, uids.first()).len() + sizes_of(nodes, uids.drop_first())
    }
}

proof fn lemma_one_more_node(nodes: Seq<NodeView>, node: NodeView, uids: Seq<Seq<char>>)
    requires
        uids.no_duplicates(),
    ensures
        sizes_of(nodes.push(node), uids) == sizes_of(nodes, uids) + if uids.contains(node.profile_uid) {
            1int
        } else {
            0int
        },
    decreases uids.len(),
{
    assert(nodes.push(node).drop_last() =~= nodes);
    if uids.len() > 0 {
        let rest = uids.drop_first();
        assert(rest.no_duplicates()) by {
            assert forall|i: int, j: int| 0 <= i < rest.len() && 0 <= j < rest.len() && i != j implies rest[i]
                != rest[j] by {
                assert(uids[i + 1] != uids[j + 1]);
            }
        }
        lemma_one_more_node(nodes, node, rest);
        if uids.first() == node.profile_uid {
            assert(uids.contains(node.profile_uid));
            assert(!rest.contains(node.profile_uid)) by {
                if rest.contains(node.profile_uid) {
                    let i = choose|i: int| 0 <= i < rest.len() && rest[i] == node.profile_uid;
                    assert(uids[i + 1] == uids[0]);
                }
            }
        } else {
            assert(uids.contains(node.profile_uid) == rest.contains(node.profile_uid)) by {
                if uids.contains(node.profile_uid) {
                    let i = choose|i: int| 0 <= i < uids.len() && uids[i] == node.profile_uid;
                    assert(rest[i - 1] == node.profile_uid);
                }
                if rest.contains(node.profile_uid) {
                    let i = choose|i: int| 0 <= i < rest.len() && rest[i] == node.profile_uid;
                    assert(uids[i + 1] == node.profile_uid);
                }
            }
        }
    }
}

proof fn lemma_sizes_of(nodes: Seq<NodeView>, uids: Seq<Seq<char>>)
    requires
        uids.no_duplicates(),
        forall|k: int| 0 <= k < nodes.len() ==> uids.contains((#[trigger] nodes[k]).profile_uid),
    ensures
        sizes_of(nodes, uids) == nodes.len(),
    decreases nodes.len(),
{
    if nodes.len() == 0 {
        lemma_no_sizes(nodes, uids);
    } else {
        let front = nodes.drop_last();
        assert forall|k: int| 0 <= k < front.len() implies uids.contains((#[trigger] front[k]).profile_uid) by {
            assert(front[k] == nodes[k]);
        }
        lemma_sizes_of(front, uids);
        assert(front.push(nodes.last()) =~= nodes);
        assert(uids.contains(nodes[nodes.len() - 1].profile_uid));
        lemma_one_more_node(front, nodes.last(), uids);
    }
}

proof fn lemma_no_sizes(nodes: Seq<NodeView>, uids: Seq<Seq<char>>)
    requires
        nodes.len() == 0,
    ensures
        sizes_of(nodes, uids) == 0,
    decreases uids.len(),
{
    if uids.len() > 0 {
        lemma_no_sizes(nodes, uids.drop_first());
    }
}

proof fn lemma_group_sizes_of(nodes: Seq<NodeView>, groups: Seq<GroupView>, uids: Seq<Seq<char>>)
    requires
        groups.len() == uids.len(),
        forall|i: int|
            0 <= i < groups.len() ==> (#[trigger] groups[i]).nodes.len() == nodes_of(nodes, uids[i]).len(),
    ensures
        group_sizes(groups) == sizes_of(nodes, uids),
    decreases groups.len(),
{
    if groups.len() > 0 {
        let rest = groups.drop_first();
        assert(groups[0].nodes.len() == nodes_of(nodes, uids[0]).len());
        assert forall|i: int| 0 <= i < rest.len() implies (#[trigger] rest[i]).nodes.len() == nodes_of(
            nodes,
            uids.drop_first()[i],
        ).len() by {
            assert(rest[i] == groups[i + 1]);
        }
        lemma_group_sizes_of(nodes, rest, uids.drop_first());
    }
}

proof fn lemma_rotated_list(uids: Seq<Seq<char>>, round: int)
    requires
        uids.no_duplicates(),
        round >= 0,
    ensures
        rotated(uids, round).no_duplicates(),
        forall|uid: Seq<char>| uids.contains(uid) ==> #[trigger] rotated(uids, round).contains(uid),
{
    if uids.len() > 1 {
        let n = uids.len() as int;
        let offset = round % n;
        assert(0 <= offset < n);
        let turned = rotated(uids, round);
        assert forall|i: int| 0 <= i < n implies #[trigger] turned[i] == uids[if i + offset < n {
            i + offset
        } else {
            i + offset - n
        }] by {}
        assert forall|i: int, j: int| 0 <= i < n && 0 <= j < n && i != j implies turned[i] != turned[j] by {}
        assert forall|uid: Seq<char>| uids.contains(uid) implies #[trigger] turned.contains(uid) by {
            let k = choose|k: int| 0 <= k < n && uids[k] == uid;
            let i = if k >= offset {
                k - offset
            } else {
                k - offset + n
            };
            assert(turned[i] == uid);
        }
    }
}

/// The groups of a round hold as many nodes as are due: none is left out and none comes twice.
pub proof fn law_groups_hold_as_many_nodes(nodes: Seq<NodeView>, round: u64)
    ensures
        group_sizes(round_groups(nodes, round)) == nodes.len(),
{
    let uid_views = nodes.map_values(|node: NodeView| node.profile_uid);
    let uids = profiles_of(nodes);
    law_sorted_unique(uid_views);
    assert(uids.no_duplicates()) by {
        assert forall|i: int, j: int| 0 <= i < uids.len() && 0 <= j < uids.len() && i != j implies uids[i]
            != uids[j] by {
            let (low, high) = if i < j {
                (i, j)
            } else {
                (j, i)
            };
            assert(text_order(uids[low], uids[high]) < 0);
            lemma_text_order_flip(uids[low], uids[high]);
        }
    }
    let turn = (round as usize) as int;
    let turned = rotated(uids, turn);
    lemma_rotated_list(uids, turn);
    assert forall|k: int| 0 <= k < nodes.len() implies turned.contains((#[trigger] nodes[k]).profile_uid) by {
        assert(uid_views[k] == nodes[k].profile_uid);
        assert(uids.contains(nodes[k].profile_uid));
    }
    lemma_sizes_of(nodes, turned);
    let groups = round_groups(nodes, round);
    assert forall|i: int| 0 <= i < groups.len() implies (#[trigger] groups[i]).nodes.len() == nodes_of(
        nodes,
        turned[i],
    ).len() by {
        let members = nodes_of(nodes, turned[i]);
        let shift = (group_round(round, i) as usize) as int;
        if members.len() > 1 {
            assert(0 <= shift % members.len() as int && shift % (members.len() as int) < members.len());
        }
    }
    lemma_group_sizes_of(nodes, groups, turned);
}

/// Every node of a profile is in exactly the group of that profile, and every due node is in some
/// group.
pub proof fn law_groups_hold_every_node(nodes: Seq<NodeView>, round: u64, k: int)
    requires
        0 <= k < nodes.len(),
    ensures
        exists|g: int|
            0 <= g < round_groups(nodes, round).len() && (#[trigger] round_groups(nodes, round)[g]).profile_uid
                == nodes[k].profile_uid && round_groups(nodes, round)[g].nodes.to_multiset() == nodes_of(
                nodes,
                nodes[k].profile_uid,
            ).to_multiset(),
        nodes_of(nodes, nodes[k].profile_uid).contains(nodes[k]),
{
    let uid_views = nodes.map_values(|node: NodeView| node.profile_uid);
    let uids = profiles_of(nodes);
    law_sorted_unique(uid_views);
    assert(uid_views[k] == nodes[k].profile_uid);
    assert(uids.contains(nodes[k].profile_uid));
    let turn = (round as usize) as int;
    let turned = rotated(uids, turn);
    law_rotation_takes_turns(uids, turn);
    uids.to_multiset_ensures();
    turned.to_multiset_ensures();
    assert(turned.to_multiset().contains(nodes[k].profile_uid));
    assert(turned.contains(nodes[k].profile_uid));
    let g = choose|g: int| 0 <= g < turned.len() && turned[g] == nodes[k].profile_uid;
    let group = round_groups(nodes, round)[g];
    lemma_nodes_of_contains(nodes, k);
    law_rotation_takes_turns(
        nodes_of(nodes, nodes[k].profile_uid),
        (group_round(round, g) as usize) as int,
    );
    assert(group.profile_uid == nodes[k].profile_uid);
}

proof fn lemma_nodes_of_contains(nodes: Seq<NodeView>, k: int)
    requires
        0 <= k < nodes.len(),
    ensures
        nodes_of(nodes, nodes[k].profile_uid).contains(nodes[k]),
        nodes_of(nodes, nodes[k].profile_uid).len() > 0,
    decreases nodes.len(),
{
    let uid = nodes[k].profile_uid;
    let result = nodes_of(nodes, uid);
    if k == nodes.len() - 1 {
        assert(result[result.len() - 1] == nodes[k]);
    } else {
        let front = nodes.drop_last();
        assert(front[k] == nodes[k]);
        lemma_nodes_of_contains(front, k);
        let inner = nodes_of(front, uid);
        let i = choose|i: int| 0 <= i < inner.len() && inner[i] == nodes[k];
        assert(result[i] == nodes[k]);
    }
}

} // verus!
