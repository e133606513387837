//! What holds of settings, of keywords and of the texts that users write.

use crate::floats::FloatBits;
use crate::keywords::{folded, kept_keywords, keywords, proposed_state};
use crate::models::ParticipationState;
use crate::settings::{
    SettingsView, UrlView, law_sorted_unique, limited_multipliers, parsed_url,
};
use crate::text::{occurs_at, occurs_in, split_pieces, text_order, trimmed, white_space};
use vstd::prelude::*;

verus! {

/// Whether a value is a wish moved into a range: the wish itself inside the range, and the nearer
/// limit outside.
pub open spec fn moved_into(value: u64, wish: u64, low: u64, high: u64) -> bool {
    &&& low <= wish <= high ==> value == wish
    &&& wish < low ==> value == low
    &&& wish > high ==> value == high
}

/// Normal settings have their intervals, durations and sizes in range, their profiles each once and
/// in order, and every address without surrounding white space. Everything else stays as wished.
pub proof fn law_settings_are_moved_into_range(settings: SettingsView)
    ensures
        ({
            let normal = settings.normal();
            &&& moved_into(normal.latency_interval_minutes, settings.latency_interval_minutes, 5, 60)
            &&& moved_into(normal.speed_interval_hours, settings.speed_interval_hours, 1, 168)
            &&& moved_into(normal.speed_duration_ms, settings.speed_duration_ms, 3_000, 30_000)
            &&& moved_into(normal.speed_max_bytes, settings.speed_max_bytes, 8_388_608, 2_147_483_648)
            &&& normal.enabled == settings.enabled
            &&& normal.case_sensitive == settings.case_sensitive
            &&& normal.include_keywords == settings.include_keywords
            &&& normal.exclude_keywords == settings.exclude_keywords
            &&& normal.download_daily_limit_bytes == settings.download_daily_limit_bytes
            &&& normal.upload_daily_limit_bytes == settings.upload_daily_limit_bytes
            &&& normal.latency_url == trimmed(settings.latency_url)
            &&& normal.upload_url == trimmed(settings.upload_url)
            &&& trimmed(settings.download_url) != "https://speed.cloudflare.com/__down?bytes=1000000000"@
                ==> normal.download_url == trimmed(settings.download_url)
            &&& trimmed(settings.download_url) == "https://speed.cloudflare.com/__down?bytes=1000000000"@
                ==> normal.download_url == "https://speed.cloudflare.com/__down?bytes=50000000"@
        }),
        forall|uid: Seq<char>| #[trigger]
            settings.normal().selected_profile_uids.contains(uid) <==> settings.selected_profile_uids.contains(
                uid,
            ),
        forall|i: int, j: int|
            0 <= i < j < settings.normal().selected_profile_uids.len() ==> text_order(
                #[trigger] settings.normal().selected_profile_uids[i],
                #[trigger] settings.normal().selected_profile_uids[j],
            ) < 0,
{
    law_sorted_unique(settings.selected_profile_uids);
}

/// Whether parsing made a web address of a text.
pub open spec fn is_web_address(reply: Result<UrlView, Seq<char>>) -> bool {
    reply is Ok && (reply->Ok_0.0 == "http"@ || reply->Ok_0.0 == "https"@)
}

/// Settings are accepted exactly where all three of their addresses are web addresses.
pub proof fn law_settings_need_web_addresses(settings: SettingsView)
    ensures
        settings.refusal() is None <==> is_web_address(parsed_url(settings.normal().latency_url))
            && is_web_address(parsed_url(settings.normal().download_url)) && is_web_address(
            parsed_url(settings.normal().upload_url),
        ),
{
}

/// A multiplier that is no finite number above zero is dropped; any other one is kept, moved into the
/// range from a tenth to a hundred. (Numbers above zero are ordered like their bits.)
pub proof fn law_multipliers_are_moved_into_range(
    multipliers: Seq<(Seq<char>, FloatBits)>,
    uid: Seq<char>,
    multiplier: FloatBits,
)
    ensures
        ({
            let before = limited_multipliers(multipliers);
            let after = limited_multipliers(multipliers.push((uid, multiplier)));
            let low = FloatBits { bits: 0x3fb9_9999_9999_999a };
            let high = FloatBits { bits: 0x4059_0000_0000_0000 };
            &&& multiplier.bits == 0 || multiplier.bits >= 0x7ff0_0000_0000_0000 ==> after == before
            &&& 0 < multiplier.bits < low.bits ==> after == before.push((uid, low))
            &&& low.bits <= multiplier.bits <= high.bits ==> after == before.push((uid, multiplier))
            &&& high.bits < multiplier.bits < 0x7ff0_0000_0000_0000 ==> after == before.push((uid, high))
        }),
{
    let more = multipliers.push((uid, multiplier));
    assert(more.drop_last() =~= multipliers);
    let bits = multiplier.bits as int;
    if bits >= 0x8000_0000_0000_0000 {
        assert(bits % 0x8000_0000_0000_0000 == bits - 0x8000_0000_0000_0000);
    } else {
        assert(bits % 0x8000_0000_0000_0000 == bits);
    }
}

/// Trimming takes off white space at both ends and nothing else.
pub proof fn law_trimming_takes_off_white_space(text: Seq<char>) -> (ends: (int, int))
    ensures
        0 <= ends.0 <= ends.1 <= text.len(),
        trimmed(text) == text.subrange(ends.0, ends.1),
        forall|i: int| 0 <= i < ends.0 ==> white_space(#[trigger] text[i]),
        forall|i: int| ends.1 <= i < text.len() ==> white_space(#[trigger] text[i]),
        ends.0 < ends.1 ==> !white_space(text[ends.0]) && !white_space(text[ends.1 - 1]),
    decreases text.len(),
{
    if text.len() == 0 {
        assert(text.subrange(0, 0) =~= text);
        (0, 0)
    } else if white_space(text.first()) {
        let rest = text.drop_first();
        let inner = law_trimming_takes_off_white_space(rest);
        assert(rest.subrange(inner.0, inner.1) =~= text.subrange(inner.0 + 1, inner.1 + 1));
        assert forall|i: int| 0 <= i < inner.0 + 1 implies white_space(#[trigger] text[i]) by {
            if i > 0 {
                assert(rest[i - 1] == text[i]);
            }
        }
        assert forall|i: int| inner.1 + 1 <= i < text.len() implies white_space(#[trigger] text[i]) by {
            assert(rest[i - 1] == text[i]);
        }
        (inner.0 + 1, inner.1 + 1)
    } else if white_space(text.last()) {
        let rest = text.drop_last();
        let inner = law_trimming_takes_off_white_space(rest);
        assert(rest.subrange(inner.0, inner.1) =~= text.subrange(inner.0, inner.1));
        assert forall|i: int| 0 <= i < inner.0 implies white_space(#[trigger] text[i]) by {
            assert(rest[i] == text[i]);
        }
        assert forall|i: int| inner.1 <= i < text.len() implies white_space(#[trigger] text[i]) by {
            if i < rest.len() {
                assert(rest[i] == text[i]);
            }
        }
        inner
    } else {
        assert(text.subrange(0, text.len() as int) =~= text);
        (0, text.len() as int)
    }
}

/// Texts are ordered by the first character in which they differ, and a text comes before every
/// longer one that begins with it.
pub proof fn law_first_difference_decides(shared: Seq<char>, left: Seq<char>, right: Seq<char>)
    ensures
        left.len() > 0 && right.len() > 0 && left[0] < right[0] ==> text_order(shared + left, shared + right)
            < 0,
        left.len() == 0 && right.len() > 0 ==> text_order(shared + left, shared + right) < 0,
        text_order(shared, shared) == 0,
    decreases shared.len(),
{
    if shared.len() > 0 {
        let rest = shared.drop_first();
        law_first_difference_decides(rest, left, right);
        assert((shared + left).drop_first() =~= rest + left);
        assert((shared + right).drop_first() =~= rest + right);
        assert((shared + left)[0] == shared[0] && (shared + right)[0] == shared[0]);
    } else {
        assert(shared + left =~= left);
        assert(shared + right =~= right);
    }
}

/// Whether a text has none of the characters that separate keywords.
pub open spec fn is_one_piece(text: Seq<char>) -> bool {
    forall|i: int|
        0 <= i < text.len() ==> (#[trigger] text[i]) != '|' && text[i] != ',' && text[i] != ';' && text[i]
            != '\n'
}

proof fn lemma_one_piece(text: Seq<char>)
    requires
        is_one_piece(text),
    ensures
        split_pieces(text) == seq![text],
    decreases text.len(),
{
    if text.len() > 0 {
        let front = text.drop_last();
        assert forall|i: int| 0 <= i < front.len() implies (#[trigger] front[i]) != '|' && front[i] != ','
            && front[i] != ';' && front[i] != '\n' by {
            assert(text[i] == front[i]);
        }
        lemma_one_piece(front);
        let before = split_pieces(front);
        assert(before.last() == front);
        assert(text[text.len() - 1] == text.last());
        assert(front.push(text.last()) =~= text);
        assert(before.drop_last().push(text) =~= seq![text]);
    } else {
        assert(text =~= Seq::<char>::empty());
    }
}

proof fn lemma_joined_pieces(left: Seq<char>, separator: char, right: Seq<char>)
    requires
        separator == '|' || separator == ',' || separator == ';' || separator == '\n',
    ensures
        split_pieces(left.push(separator) + right) == split_pieces(left) + split_pieces(right),
        split_pieces(right).len() > 0,
    decreases right.len(),
{
    let text = left.push(separator) + right;
    if right.len() == 0 {
        assert(text =~= left.push(separator));
        assert(text.drop_last() =~= left);
        assert(split_pieces(text) =~= split_pieces(left) + split_pieces(right));
    } else {
        let front = right.drop_last();
        lemma_joined_pieces(left, separator, front);
        assert(text.drop_last() =~= left.push(separator) + front);
        assert(text.last() == right.last());
        let all = split_pieces(left) + split_pieces(front);
        let last = right.last();
        if last == '|' || last == ',' || last == ';' || last == '\n' {
            assert(split_pieces(text) =~= split_pieces(left) + split_pieces(right));
        } else {
            assert(all.last() == split_pieces(front).last());
            assert(split_pieces(text) =~= split_pieces(left) + split_pieces(right));
        }
    }
}

proof fn lemma_joined_keywords(left: Seq<Seq<char>>, right: Seq<Seq<char>>, case_sensitive: bool)
    ensures
        kept_keywords(left + right, case_sensitive) == kept_keywords(left, case_sensitive) + kept_keywords(
            right,
            case_sensitive,
        ),
    decreases right.len(),
{
    if right.len() == 0 {
        assert(left + right =~= left);
        assert(kept_keywords(left, case_sensitive) + right =~= kept_keywords(left, case_sensitive));
    } else {
        let front = right.drop_last();
        lemma_joined_keywords(left, front, case_sensitive);
        assert((left + right).drop_last() =~= left + front);
        assert((left + right).last() == right.last());
        assert(kept_keywords(left + right, case_sensitive) =~= kept_keywords(left, case_sensitive)
            + kept_keywords(right, case_sensitive));
    }
}

/// A list of keywords can be cut at any bar, comma, semicolon or line end: its keywords are those
/// before and those after. A list without such a character is one keyword, or none where it is blank.
pub proof fn law_keywords_are_separated(
    left: Seq<char>,
    separator: char,
    right: Seq<char>,
    case_sensitive: bool,
)
    ensures
        separator == '|' || separator == ',' || separator == ';' || separator == '\n' ==> keywords(
            left.push(separator) + right,
            case_sensitive,
        ) == keywords(left, case_sensitive) + keywords(right, case_sensitive),
        is_one_piece(left) && trimmed(left).len() > 0 ==> keywords(left, case_sensitive) == seq![
            folded(trimmed(left), case_sensitive),
        ],
        is_one_piece(left) && trimmed(left).len() == 0 ==> keywords(left, case_sensitive).len() == 0,
{
    if separator == '|' || separator == ',' || separator == ';' || separator == '\n' {
        lemma_joined_pieces(left, separator, right);
        lemma_joined_keywords(split_pieces(left), split_pieces(right), case_sensitive);
    }
    if is_one_piece(left) {
        lemma_one_piece(left);
        let pieces = seq![left];
        assert(pieces.drop_last() =~= Seq::empty());
        assert(kept_keywords(pieces.drop_last(), case_sensitive).len() == 0);
        if trimmed(left).len() > 0 {
            assert(kept_keywords(pieces, case_sensitive) =~= seq![folded(trimmed(left), case_sensitive)]);
        }
    }
}

/// A node is proposed exactly where its profile's name and its own, with a blank between, hold one of
/// the including keywords, or there is none, and hold none of the excluding ones.
pub proof fn law_proposals_follow_the_keywords(
    node_name: Seq<char>,
    profile_name: Seq<char>,
    settings: SettingsView,
)
    requires
        settings.case_sensitive,
    ensures
        ({
            let text = profile_name + " "@ + node_name;
            let includes = keywords(settings.include_keywords, true);
            let excludes = keywords(settings.exclude_keywords, true);
            let holds = |keyword: Seq<char>|
                exists|i: int|
                    0 <= i <= text.len() - keyword.len() && #[trigger] text.subrange(i, i + keyword.len())
                        == keyword;
            let proposed = proposed_state(node_name, profile_name, settings);
            &&& proposed == ParticipationState::Participating || proposed == ParticipationState::Excluded
            &&& (proposed == ParticipationState::Participating <==> (includes.len() == 0 || exists|k: int|
                0 <= k < includes.len() && holds(#[trigger] includes[k])) && forall|k: int|
                0 <= k < excludes.len() ==> !holds(#[trigger] excludes[k]))
        }),
{
    let text = profile_name + " "@ + node_name;
    let includes = keywords(settings.include_keywords, true);
    let excludes = keywords(settings.exclude_keywords, true);
    let holds = |keyword: Seq<char>|
        exists|i: int|
            0 <= i <= text.len() - keyword.len() && #[trigger] text.subrange(i, i + keyword.len()) == keyword;
    assert forall|keyword: Seq<char>| #[trigger] holds(keyword) == (exists|i: int|
        occurs_at(keyword, text, i)) by {
        if holds(keyword) {
            let i = choose|i: int|
                0 <= i <= text.len() - keyword.len() && #[trigger] text.subrange(i, i + keyword.len())
                    == keyword;
            assert(occurs_at(keyword, text, i));
        }
        if exists|i: int| occurs_at(keyword, text, i) {
            let i = choose|i: int| occurs_at(keyword, text, i);
            assert(text.subrange(i, i + keyword.len()) == keyword);
        }
    }
    assert forall|k: int| 0 <= k < includes.len() implies holds(#[trigger] includes[k])
        == occurs_in(includes[k], text) by {}
    assert forall|k: int| 0 <= k < excludes.len() implies holds(#[trigger] excludes[k])
        == occurs_in(excludes[k], text) by {}
}

} // verus!
