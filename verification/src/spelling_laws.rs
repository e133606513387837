//! How numbers and hashes are written, and with what the records of new nodes begin.

use crate::digits::{decimal, digit, hex};
use crate::models::{DiscoveredView, NodeView, ParticipationState};
use crate::profile::{fnv, hash_text};
use crate::reconcile::{lemma_node_at_facts, node_at, with_sighting};
use crate::store::NodeRecordView;
use vstd::prelude::*;

verus! {

/// The value of a digit in small letters.
pub open spec fn worth(digit: char) -> int {
    if '0' <= digit && digit <= '9' {
        digit as int - '0' as int
    } else {
        digit as int - 'a' as int + 10
    }
}

/// The number that digits of a base denote.
pub open spec fn number_of(digits: Seq<char>, base: int) -> int
    decreases digits.len(),
{
    if digits.len() == 0 {
        0
    } else {
        number_of(digits.drop_last(), base) * base + worth(digits.last())
    }
}

proof fn lemma_worth(value: int)
    requires
        0 <= value < 16,
    ensures
        worth(digit(value)) == value,
{
    let written = digit(value);
    if value < 10 {
        assert((48 + value) as u8 == 48 + value);
        assert(written as int == 48 + value);
    } else {
        assert((87 + value) as u8 == 87 + value);
        assert(written as int == 87 + value);
    }
}

/// A number in decimal digits denotes the number, and begins with a zero only where it is zero.
pub proof fn law_decimal_digits_denote_the_number(value: nat)
    ensures
        number_of(decimal(value), 10) == value,
        decimal(value).len() >= 1,
        value > 0 ==> decimal(value)[0] != '0',
    decreases value,
{
    if value < 10 {
        lemma_worth(value as int);
        assert(decimal(value).drop_last() =~= Seq::empty());
        assert(decimal(value).last() == digit(value as int));
        assert(number_of(Seq::empty(), 10) == 0);
        if value > 0 {
            assert((48 + value) as u8 == 48 + value);
        }
    } else {
        let rest = value / 10;
        law_decimal_digits_denote_the_number(rest);
        lemma_worth((value % 10) as int);
        assert(decimal(value).drop_last() =~= decimal(rest));
        assert(decimal(value)[0] == decimal(rest)[0]);
    }
}

/// How many numbers a count of hexadecimal digits can denote.
pub open spec fn room_for(count: nat) -> int
    decreases count,
{
    if count == 0 {
        1
    } else {
        16 * room_for((count - 1) as nat)
    }
}

proof fn lemma_hex_denotes(value: int, count: nat)
    requires
        0 <= value < room_for(count),
    ensures
        hex(value, count).len() == count,
        number_of(hex(value, count), 16) == value,
    decreases count,
{
    if count > 0 {
        let less = (count - 1) as nat;
        lemma_hex_denotes(value / 16, less);
        lemma_worth(value % 16);
        assert(hex(value, count).drop_last() =~= hex(value / 16, less));
        assert(hex(value, count).last() == digit(value % 16));
    }
}

/// A hash is written in sixteen hexadecimal digits that denote it, so different hashes are written
/// differently. It begins with a fixed number and takes in one byte after the other.
pub proof fn law_hashes_are_written_in_full(bytes: Seq<u8>, byte: u8)
    ensures
        hash_text(bytes).len() == 16,
        number_of(hash_text(bytes), 16) == fnv(bytes),
        fnv(Seq::empty()) == 0xcbf2_9ce4_8422_2325,
        fnv(bytes.push(byte)) == (fnv(bytes) ^ (byte as u64)).wrapping_mul(0x100_0000_01b3),
{
    assert(room_for(16) == 0x1_0000_0000_0000_0000) by {
        reveal_with_fuel(room_for, 17);
    }
    lemma_hex_denotes(fnv(bytes) as int, 16);
    assert(bytes.push(byte).drop_last() =~= bytes);
}

/// A node that is seen for the first time is added with all of its tests due at once, at the beginning
/// of its first series and without reminders. One that is known is the same node as before with what
/// was found of it: its schedule, its reminders and the time of its first sighting stay. Every other
/// node stays as it is.
pub proof fn law_first_sightings_begin_a_series(
    nodes: Seq<NodeRecordView>,
    found: DiscoveredView,
    state: ParticipationState,
    manual_override: bool,
    now: i64,
    i: int,
)
    requires
        0 <= i < nodes.len(),
    ensures
        ({
            let after = with_sighting(nodes, found, state, manual_override, now);
            let known = exists|k: int| 0 <= k < nodes.len() && (#[trigger] nodes[k]).node.node_id == found.node_id;
            let first = nodes[i].node.node_id == found.node_id && forall|k: int|
                0 <= k < i ==> (#[trigger] nodes[k]).node.node_id != found.node_id;
            &&& after.len() == nodes.len() + if known {
                0int
            } else {
                1
            }
            &&& !known ==> {
                let record = after.last();
                let node = record.node;
                &&& record.active && node.node_id == found.node_id && node.profile_uid == found.profile_uid
                &&& node.profile_name == found.profile_name && node.node_name == found.node_name
                &&& node.node_type == found.node_type && node.fingerprint == found.fingerprint
                &&& node.state == state && node.manual_override == manual_override
                &&& node.first_seen_at == now && node.last_seen_at == now
                &&& node.next_latency_at == now && node.next_speed_at == now && node.next_download_at == now
                    && node.next_upload_at == now
                &&& node.bootstrap_stage == 0 && node.download_bootstrap_stage == 0
                    && node.upload_bootstrap_stage == 0
                &&& node.snoozed_until is None && !node.ignore_reminder
            }
            &&& first ==> after[i] == (NodeRecordView {
                node: NodeView {
                    profile_name: found.profile_name,
                    node_name: found.node_name,
                    node_type: found.node_type,
                    fingerprint: found.fingerprint,
                    state,
                    manual_override,
                    last_seen_at: now,
                    ..nodes[i].node
                },
                active: true,
            })
            &&& !first ==> after[i] == nodes[i]
        }),
{
    lemma_node_at_facts(nodes, found.node_id);
    let at = node_at(nodes, found.node_id);
    if nodes[i].node.node_id == found.node_id {
        assert(at <= i);
    }
}

} // verus!
