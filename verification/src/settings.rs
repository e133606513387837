//! The settings of the node ranking and the checks on them.

use crate::errors::{BenchmarkError, UrlField};
use crate::floats::FloatBits;
use crate::speed::{clamp, clamped};
use crate::text::{
    chars_of, law_trim_is_idempotent, lemma_text_order_chain, lemma_text_order_flip, order_of_texts,
    same_text, text_order, texts, trim, trimmed,
};
use vstd::prelude::*;

verus! {

/// The default address of download tests; its size is one that the source serves reliably.
pub const DEFAULT_DOWNLOAD_URL: &'static str = "https://speed.cloudflare.com/__down?bytes=50000000";

/// A former address of download tests that the source refuses by now.
pub const LEGACY_DOWNLOAD_URL: &'static str = "https://speed.cloudflare.com/__down?bytes=1000000000";

/// The bits of the double 0.1, the smallest traffic multiplier.
pub const LOWEST_MULTIPLIER: u64 = 0x3fb9_9999_9999_999a;

/// The bits of the double 100.0, the largest traffic multiplier.
pub const HIGHEST_MULTIPLIER: u64 = 0x4059_0000_0000_0000;

/// What the logic reads of a parsed address.
#[derive(Debug)]
pub struct UrlParts {
    pub scheme: String,
    pub host: Option<String>,
    pub port: Option<u16>,
}

/// A scheme, a host where there is one, and a port where one is given that is not the
/// scheme's own.
pub type UrlView = (Seq<char>, Option<Seq<char>>, Option<u16>);

impl View for UrlParts {
    type V = UrlView;

    open spec fn view(&self) -> UrlView {
        (
            self.scheme@,
            match self.host {
                Some(host) => Some(host@),
                None => None,
            },
            self.port,
        )
    }
}

/// What an attempt to parse an address stands for.
pub open spec fn reply_view(reply: Result<UrlParts, String>) -> Result<UrlView, Seq<char>> {
    match reply {
        Ok(parts) => Ok(parts@),
        Err(reason) => Err(reason@),
    }
}

/// Names what `reqwest::Url::parse` makes of a text: the parts of the address, or the text of
/// the error.
pub uninterp spec fn parsed_url(text: Seq<char>) -> Result<
    (Seq<char>, Option<Seq<char>>, Option<u16>),
    Seq<char>,
>;

/// `reqwest::Url::parse`, with `scheme`, `host_str` and `port` of the address that it returns:
/// what comes out depends on the text alone.
#[verifier::external_body]
pub(crate) fn parse_url(text: &str) -> (reply: Result<UrlParts, String>)
    ensures
        reply_view(reply) == parsed_url(text@),
{
    match reqwest::Url::parse(text) {
        Ok(url) => Ok(
            UrlParts {
                scheme: url.scheme().to_owned(),
                host: url.host_str().map(str::to_owned),
                port: url.port(),
            },
        ),
        Err(error) => Err(error.to_string()),
    }
}

/// The settings of the ranking.
#[derive(Debug)]
pub struct BenchmarkSettings {
    pub enabled: bool,
    pub selected_profile_uids: Vec<String>,
    pub include_keywords: String,
    pub exclude_keywords: String,
    pub case_sensitive: bool,
    pub latency_interval_minutes: u64,
    pub speed_interval_hours: u64,
    pub latency_url: String,
    pub download_url: String,
    pub upload_url: String,
    pub download_daily_limit_bytes: u64,
    pub upload_daily_limit_bytes: u64,
    /// The multiplier of each profile, at most one per profile.
    pub profile_traffic_multipliers: Vec<(String, FloatBits)>,
    pub speed_duration_ms: u64,
    pub speed_max_bytes: u64,
}

/// What settings stand for.
#[verifier::ext_equal]
pub struct SettingsView {
    pub enabled: bool,
    pub selected_profile_uids: Seq<Seq<char>>,
    pub include_keywords: Seq<char>,
    pub exclude_keywords: Seq<char>,
    pub case_sensitive: bool,
    pub latency_interval_minutes: u64,
    pub speed_interval_hours: u64,
    pub latency_url: Seq<char>,
    pub download_url: Seq<char>,
    pub upload_url: Seq<char>,
    pub download_daily_limit_bytes: u64,
    pub upload_daily_limit_bytes: u64,
    pub profile_traffic_multipliers: Seq<(Seq<char>, FloatBits)>,
    pub speed_duration_ms: u64,
    pub speed_max_bytes: u64,
}

/// What a list of multipliers stands for.
pub open spec fn multiplier_views(multipliers: Seq<(String, FloatBits)>) -> Seq<(Seq<char>, FloatBits)> {
    multipliers.map_values(|entry: (String, FloatBits)| (entry.0@, entry.1))
}

impl View for BenchmarkSettings {
    type V = SettingsView;

    open spec fn view(&self) -> SettingsView {
        SettingsView {
            enabled: self.enabled,
            selected_profile_uids: texts(self.selected_profile_uids@),
            include_keywords: self.include_keywords@,
            exclude_keywords: self.exclude_keywords@,
            case_sensitive: self.case_sensitive,
            latency_interval_minutes: self.latency_interval_minutes,
            speed_interval_hours: self.speed_interval_hours,
            latency_url: self.latency_url@,
            download_url: self.download_url@,
            upload_url: self.upload_url@,
            download_daily_limit_bytes: self.download_daily_limit_bytes,
            upload_daily_limit_bytes: self.upload_daily_limit_bytes,
            profile_traffic_multipliers: multiplier_views(self.profile_traffic_multipliers@),
            speed_duration_ms: self.speed_duration_ms,
            speed_max_bytes: self.speed_max_bytes,
        }
    }
}

/// Copies a list of texts.
pub fn copy_texts(items: &Vec<String>) -> (copy: Vec<String>)
    ensures
        copy@ == items@,
{
    let mut copy: Vec<String> = Vec::new();
    for i in 0..items.len()
        invariant
            copy@ == items@.take(i as int),
    {
        copy.push(items[i].clone());
    }
    copy
}

impl Clone for BenchmarkSettings {
    fn clone(&self) -> (copy: Self)
        ensures
            copy@ == self@,
    {
        let mut multipliers: Vec<(String, FloatBits)> = Vec::new();
        for i in 0..self.profile_traffic_multipliers.len()
            invariant
                multipliers@ == self.profile_traffic_multipliers@.take(i as int),
        {
            let entry = &self.profile_traffic_multipliers[i];
            multipliers.push((entry.0.clone(), entry.1));
        }
        BenchmarkSettings {
            enabled: self.enabled,
            selected_profile_uids: copy_texts(&self.selected_profile_uids),
            include_keywords: self.include_keywords.clone(),
            exclude_keywords: self.exclude_keywords.clone(),
            case_sensitive: self.case_sensitive,
            latency_interval_minutes: self.latency_interval_minutes,
            speed_interval_hours: self.speed_interval_hours,
            latency_url: self.latency_url.clone(),
            download_url: self.download_url.clone(),
            upload_url: self.upload_url.clone(),
            download_daily_limit_bytes: self.download_daily_limit_bytes,
            upload_daily_limit_bytes: self.upload_daily_limit_bytes,
            profile_traffic_multipliers: multipliers,
            speed_duration_ms: self.speed_duration_ms,
            speed_max_bytes: self.speed_max_bytes,
        }
    }
}

impl Default for BenchmarkSettings {
    /// Settings that balance accuracy and traffic.
    fn default() -> (settings: Self)
        ensures
            settings@ == SettingsView::initial(),
    {
        BenchmarkSettings {
            enabled: false,
            selected_profile_uids: Vec::new(),
            include_keywords: String::new(),
            exclude_keywords: String::new(),
            case_sensitive: false,
            latency_interval_minutes: 15,
            speed_interval_hours: 12,
            latency_url: "https://www.gstatic.com/generate_204".to_owned(),
            download_url: DEFAULT_DOWNLOAD_URL.to_owned(),
            upload_url: "https://speed.cloudflare.com/__up".to_owned(),
            download_daily_limit_bytes: 10_737_418_240,
            upload_daily_limit_bytes: 3_221_225_472,
            profile_traffic_multipliers: Vec::new(),
            speed_duration_ms: 12_000,
            speed_max_bytes: 1_073_741_824,
        }
    }
}

/// Puts a text into an ascending list, unless it is there.
pub open spec fn with_text(list: Seq<Seq<char>>, text: Seq<char>) -> Seq<Seq<char>>
    decreases list.len(),
{
    if list.len() == 0 {
        seq![text]
    } else if text_order(list.last(), text) < 0 {
        list.push(text)
    } else if text_order(list.last(), text) == 0 {
        list
    } else {
        with_text(list.drop_last(), text).push(list.last())
    }
}

/// The different texts of a list in ascending order.
pub open spec fn sorted_unique(list: Seq<Seq<char>>) -> Seq<Seq<char>>
    decreases list.len(),
{
    if list.len() == 0 {
        list
    } else {
        with_text(sorted_unique(list.drop_last()), list.last())
    }
}

/// Whether each text of a list comes before all that follow it.
pub open spec fn strictly_ascending(list: Seq<Seq<char>>) -> bool {
    forall|i: int, j: int|
        0 <= i < j < list.len() ==> text_order(#[trigger] list[i], #[trigger] list[j]) < 0
}

proof fn lemma_with_text(list: Seq<Seq<char>>, text: Seq<char>)
    requires
        strictly_ascending(list),
    ensures
        strictly_ascending(with_text(list, text)),
        forall|other: Seq<char>|
            #[trigger] with_text(list, text).contains(other) <==> list.contains(other) || other == text,
    decreases list.len(),
{
    let result = with_text(list, text);
    if list.len() == 0 {
        assert(result[0] == text);
        assert forall|other: Seq<char>| #[trigger] result.contains(other) <==> list.contains(other)
            || other == text by {
            if other == text {
                assert(result[0] == other);
            }
        }
    } else {
        let last = list.last();
        let front = list.drop_last();
        lemma_text_order_flip(last, text);
        if text_order(last, text) < 0 {
            assert forall|i: int, j: int| 0 <= i < j < result.len() implies text_order(
                #[trigger] result[i],
                #[trigger] result[j],
            ) < 0 by {
                if j == list.len() && i < list.len() - 1 {
                    assert(text_order(list[i], list[list.len() - 1]) < 0);
                    lemma_text_order_chain(list[i], last, text);
                }
            }
            assert forall|other: Seq<char>| #[trigger] result.contains(other) <==> list.contains(other)
                || other == text by {
                if list.contains(other) {
                    let k = choose|k: int| 0 <= k < list.len() && list[k] == other;
                    assert(result[k] == other);
                }
                if other == text {
                    assert(result[list.len() as int] == other);
                }
                if result.contains(other) {
                    let k = choose|k: int| 0 <= k < result.len() && result[k] == other;
                    if k < list.len() {
                        assert(list[k] == other);
                    }
                }
            }
        } else if text_order(last, text) == 0 {
            assert(last == text);
            assert(list[list.len() - 1] == text);
        } else {
            assert(strictly_ascending(front));
            lemma_with_text(front, text);
            let inner = with_text(front, text);
            assert forall|i: int| 0 <= i < front.len() implies text_order(#[trigger] front[i], last) < 0 by {
                assert(text_order(list[i], list[list.len() - 1]) < 0);
            }
            assert forall|i: int, j: int| 0 <= i < j < result.len() implies text_order(
                #[trigger] result[i],
                #[trigger] result[j],
            ) < 0 by {
                if j == inner.len() {
                    assert(inner.contains(inner[i]));
                    if front.contains(inner[i]) {
                        let k = choose|k: int| 0 <= k < front.len() && front[k] == inner[i];
                        assert(text_order(front[k], last) < 0);
                    }
                } else {
                    assert(text_order(inner[i], inner[j]) < 0);
                }
            }
            assert forall|other: Seq<char>| #[trigger] result.contains(other) <==> list.contains(other)
                || other == text by {
                assert(inner.contains(other) <==> front.contains(other) || other == text);
                if list.contains(other) {
                    let k = choose|k: int| 0 <= k < list.len() && list[k] == other;
                    if k < front.len() {
                        assert(front[k] == other);
                        let m = choose|m: int| 0 <= m < inner.len() && inner[m] == other;
                        assert(result[m] == other);
                    } else {
                        assert(result[inner.len() as int] == other);
                    }
                }
                if other == text {
                    let m = choose|m: int| 0 <= m < inner.len() && inner[m] == other;
                    assert(result[m] == other);
                }
                if result.contains(other) {
                    let k = choose|k: int| 0 <= k < result.len() && result[k] == other;
                    if k < inner.len() {
                        assert(inner[k] == other);
                        if front.contains(other) {
                            let m = choose|m: int| 0 <= m < front.len() && front[m] == other;
                            assert(list[m] == other);
                        }
                    } else {
                        assert(list[list.len() - 1] == other);
                    }
                }
            }
        }
    }
}

/// Sorting a list without repetitions gives an ascending list of exactly the same texts.
pub proof fn law_sorted_unique(list: Seq<Seq<char>>)
    ensures
        strictly_ascending(sorted_unique(list)),
        forall|text: Seq<char>| #[trigger] sorted_unique(list).contains(text) <==> list.contains(text),
    decreases list.len(),
{
    if list.len() > 0 {
        let front = list.drop_last();
        law_sorted_unique(front);
        lemma_with_text(sorted_unique(front), list.last());
        assert forall|text: Seq<char>| #[trigger] sorted_unique(list).contains(text) <==> list.contains(
            text,
        ) by {
            if list.contains(text) {
                let k = choose|k: int| 0 <= k < list.len() && list[k] == text;
                if k < front.len() {
                    assert(front[k] == text);
                    assert(sorted_unique(front).contains(text));
                }
            }
            if sorted_unique(front).contains(text) {
                let k = choose|k: int| 0 <= k < front.len() && front[k] == text;
                assert(list[k] == text);
            }
            if text == list.last() {
                assert(list[list.len() - 1] == text);
            }
        }
    }
}

proof fn lemma_ascending_is_sorted(list: Seq<Seq<char>>)
    requires
        strictly_ascending(list),
    ensures
        sorted_unique(list) == list,
    decreases list.len(),
{
    if list.len() > 0 {
        let front = list.drop_last();
        lemma_ascending_is_sorted(front);
        if front.len() > 0 {
            assert(text_order(list[list.len() - 2], list[list.len() - 1]) < 0);
        }
        assert(list =~= front.push(list.last()));
    }
}

fn put_text(list: &mut Vec<String>, text: String)
    ensures
        texts(final(list)@) == with_text(texts(old(list)@), text@),
{
    let ghost before = texts(list@);
    let chars = chars_of(text.as_str());
    let mut at: usize = list.len();
    let ghost mut tail: Seq<Seq<char>> = Seq::empty();
    assert(before =~= before.take(at as int));
    assert(with_text(before, text@) =~= with_text(before.take(at as int), text@) + tail);
    while at > 0
        invariant
            at <= list.len(),
            list@ == old(list)@,
            before == texts(list@),
            chars@ == text@,
            tail == before.skip(at as int),
            with_text(before, text@) == with_text(before.take(at as int), text@) + tail,
        ensures
            at <= list.len(),
            list@ == old(list)@,
            at == 0 || text_order(before[at - 1], text@) < 0,
            tail == before.skip(at as int),
            with_text(before, text@) == with_text(before.take(at as int), text@) + tail,
        decreases at,
    {
        let order: i8 = order_of_texts(&chars_of(list[at - 1].as_str()), &chars);
        let ghost front = before.take(at as int);
        assert(front.last() == before[at - 1]);
        if order == 0 {
            assert(before =~= front + tail);
            return;
        }
        if order < 0 {
            break;
        }
        proof {
            assert(front.drop_last() =~= before.take(at - 1));
            assert(before.skip(at - 1) =~= seq![before[at - 1]] + tail);
            assert(with_text(before, text@) =~= with_text(before.take(at - 1), text@) + before.skip(at - 1));
            tail = before.skip(at - 1);
        }
        at = at - 1;
    }
    proof {
        let front = before.take(at as int);
        if at > 0 {
            assert(front.last() == before[at - 1]);
        }
        assert(with_text(front, text@) =~= front.push(text@));
        assert(texts(list@.insert(at as int, text)) =~= front.push(text@) + tail);
    }
    list.insert(at, text);
}

/// The different texts of a list in ascending order.
pub fn sort_unique(list: &Vec<String>) -> (result: Vec<String>)
    ensures
        texts(result@) == sorted_unique(texts(list@)),
{
    let mut result: Vec<String> = Vec::new();
    assert(texts(result@) =~= Seq::empty());
    assert(texts(list@).take(0) =~= Seq::empty());
    for i in 0..list.len()
        invariant
            texts(result@) == sorted_unique(texts(list@).take(i as int)),
    {
        put_text(&mut result, list[i].clone());
        assert(texts(list@).take(i + 1).drop_last() =~= texts(list@).take(i as int));
    }
    assert(texts(list@).take(list@.len() as int) =~= texts(list@));
    result
}

/// Whether a multiplier can be used: a finite number above zero.
pub open spec fn usable_multiplier(multiplier: FloatBits) -> bool {
    multiplier.finite() && (FloatBits { bits: 0 }).below(multiplier)
}

/// A multiplier, moved into its range.
pub open spec fn limited_multiplier(multiplier: FloatBits) -> FloatBits {
    if multiplier.below(FloatBits { bits: LOWEST_MULTIPLIER }) {
        FloatBits { bits: LOWEST_MULTIPLIER }
    } else if (FloatBits { bits: HIGHEST_MULTIPLIER }).below(multiplier) {
        FloatBits { bits: HIGHEST_MULTIPLIER }
    } else {
        multiplier
    }
}

/// The usable multipliers, each moved into its range.
pub open spec fn limited_multipliers(multipliers: Seq<(Seq<char>, FloatBits)>) -> Seq<
    (Seq<char>, FloatBits),
>
    decreases multipliers.len(),
{
    if multipliers.len() == 0 {
        multipliers
    } else {
        let front = limited_multipliers(multipliers.drop_last());
        let (uid, multiplier) = multipliers.last();
        if usable_multiplier(multiplier) {
            front.push((uid, limited_multiplier(multiplier)))
        } else {
            front
        }
    }
}

fn limit_multipliers(multipliers: &Vec<(String, FloatBits)>) -> (result: Vec<(String, FloatBits)>)
    ensures
        multiplier_views(result@) == limited_multipliers(multiplier_views(multipliers@)),
{
    let zero = FloatBits { bits: 0 };
    let lowest = FloatBits { bits: LOWEST_MULTIPLIER };
    let highest = FloatBits { bits: HIGHEST_MULTIPLIER };
    let mut result: Vec<(String, FloatBits)> = Vec::new();
    let ghost all = multiplier_views(multipliers@);
    assert(multiplier_views(result@) =~= Seq::empty());
    assert(all.take(0) =~= Seq::empty());
    for i in 0..multipliers.len()
        invariant
            all == multiplier_views(multipliers@),
            zero == (FloatBits { bits: 0 }),
            lowest == (FloatBits { bits: LOWEST_MULTIPLIER }),
            highest == (FloatBits { bits: HIGHEST_MULTIPLIER }),
            multiplier_views(result@) == limited_multipliers(all.take(i as int)),
    {
        let entry = &multipliers[i];
        let multiplier = entry.1;
        let ghost before = result@;
        if multiplier.is_finite() && zero.is_below(&multiplier) {
            let kept = if multiplier.is_below(&lowest) {
                lowest
            } else if highest.is_below(&multiplier) {
                highest
            } else {
                multiplier
            };
            result.push((entry.0.clone(), kept));
            assert(multiplier_views(result@) =~= multiplier_views(before).push((entry.0@, kept)));
        }
        assert(all.take(i + 1).drop_last() =~= all.take(i as int));
        assert(all.take(i + 1).last() == (entry.0@, multiplier));
    }
    assert(all.take(all.len() as int) =~= all);
    result
}

proof fn lemma_limited_multipliers(multipliers: Seq<(Seq<char>, FloatBits)>)
    ensures
        forall|i: int|
            0 <= i < limited_multipliers(multipliers).len() ==> {
                let multiplier = (#[trigger] limited_multipliers(multipliers)[i]).1;
                usable_multiplier(multiplier) && limited_multiplier(multiplier) == multiplier
            },
        forall|i: int|
            0 <= i < limited_multipliers(multipliers).len() ==> exists|j: int|
                0 <= j < multipliers.len() && (#[trigger] multipliers[j]).0
                    == (#[trigger] limited_multipliers(multipliers)[i]).0,
    decreases multipliers.len(),
{
    if multipliers.len() > 0 {
        let front = multipliers.drop_last();
        let result = limited_multipliers(multipliers);
        lemma_limited_multipliers(front);
        assert forall|i: int| 0 <= i < result.len() implies exists|j: int|
            0 <= j < multipliers.len() && (#[trigger] multipliers[j]).0 == (#[trigger] result[i]).0 by {
            if i < limited_multipliers(front).len() {
                assert(result[i] == limited_multipliers(front)[i]);
                let j = choose|j: int| 0 <= j < front.len() && (#[trigger] front[j]).0 == result[i].0;
                assert(multipliers[j].0 == result[i].0);
            } else {
                assert(multipliers[multipliers.len() - 1].0 == result[i].0);
            }
        }
    }
}

proof fn lemma_limited_is_limited(multipliers: Seq<(Seq<char>, FloatBits)>)
    requires
        forall|i: int|
            0 <= i < multipliers.len() ==> {
                let multiplier = (#[trigger] multipliers[i]).1;
                usable_multiplier(multiplier) && limited_multiplier(multiplier) == multiplier
            },
    ensures
        limited_multipliers(multipliers) == multipliers,
    decreases multipliers.len(),
{
    if multipliers.len() > 0 {
        let front = multipliers.drop_last();
        assert forall|i: int| 0 <= i < front.len() implies {
            let multiplier = (#[trigger] front[i]).1;
            usable_multiplier(multiplier) && limited_multiplier(multiplier) == multiplier
        } by {
            assert(front[i] == multipliers[i]);
        }
        lemma_limited_is_limited(front);
        assert(multipliers[multipliers.len() - 1] == multipliers.last());
        assert(multipliers =~= front.push(multipliers.last()));
    }
}

/// Whether no profile has two multipliers.
pub open spec fn one_multiplier_each(multipliers: Seq<(Seq<char>, FloatBits)>) -> bool {
    forall|i: int, j: int|
        0 <= i < j < multipliers.len() ==> (#[trigger] multipliers[i]).0 != (#[trigger] multipliers[j]).0
}

/// Limiting the multipliers never gives a profile a second one.
pub proof fn law_one_multiplier_stays(multipliers: Seq<(Seq<char>, FloatBits)>)
    requires
        one_multiplier_each(multipliers),
    ensures
        one_multiplier_each(limited_multipliers(multipliers)),
    decreases multipliers.len(),
{
    if multipliers.len() > 0 {
        let front = multipliers.drop_last();
        assert(one_multiplier_each(front));
        law_one_multiplier_stays(front);
        lemma_limited_multipliers(front);
        let result = limited_multipliers(multipliers);
        assert forall|i: int, j: int| 0 <= i < j < result.len() implies (#[trigger] result[i]).0 != (
        #[trigger] result[j]).0 by {
            let kept = limited_multipliers(front);
            if j == kept.len() {
                assert(result[i] == kept[i]);
                let k = choose|k: int| 0 <= k < front.len() && (#[trigger] front[k]).0 == kept[i].0;
                assert(multipliers[k] == front[k]);
                assert(multipliers[k].0 != multipliers[multipliers.len() - 1].0);
            } else {
                assert(kept[i].0 != kept[j].0);
            }
        }
    }
}

/// Why an address cannot be used.
pub enum UrlRefusal {
    Invalid { reason: Seq<char> },
    Scheme,
}

/// Why an address cannot be used, given what parsing made of it.
pub open spec fn url_refusal(reply: Result<UrlView, Seq<char>>) -> Option<UrlRefusal> {
    match reply {
        Err(reason) => Some(UrlRefusal::Invalid { reason }),
        Ok(parts) => if parts.0 == "http"@ || parts.0 == "https"@ {
            None
        } else {
            Some(UrlRefusal::Scheme)
        },
    }
}

/// The error that refuses an address.
pub open spec fn refuses(error: BenchmarkError, field: UrlField, refusal: UrlRefusal) -> bool {
    match refusal {
        UrlRefusal::Invalid { reason } => error is InvalidUrl && error->InvalidUrl_field == field
            && error->InvalidUrl_reason@ == reason,
        UrlRefusal::Scheme => error == (BenchmarkError::UnsupportedScheme { field }),
    }
}

/// The first of the three addresses that cannot be used, with the reason.
pub open spec fn first_refusal(
    latency: Result<UrlView, Seq<char>>,
    download: Result<UrlView, Seq<char>>,
    upload: Result<UrlView, Seq<char>>,
) -> Option<(UrlField, UrlRefusal)> {
    match url_refusal(latency) {
        Some(refusal) => Some((UrlField::Latency, refusal)),
        None => match url_refusal(download) {
            Some(refusal) => Some((UrlField::Download, refusal)),
            None => match url_refusal(upload) {
                Some(refusal) => Some((UrlField::Upload, refusal)),
                None => None,
            },
        },
    }
}

fn check_url(field: UrlField, reply: Result<UrlParts, String>) -> (result: Result<(), BenchmarkError>)
    ensures
        match (result, url_refusal(reply_view(reply))) {
            (Ok(_), None) => true,
            (Err(error), Some(refusal)) => refuses(error, field, refusal),
            _ => false,
        },
{
    match reply {
        Err(reason) => Err(BenchmarkError::InvalidUrl { field, reason }),
        Ok(parts) => {
            if same_text(parts.scheme.as_str(), "http") || same_text(parts.scheme.as_str(), "https") {
                Ok(())
            } else {
                Err(BenchmarkError::UnsupportedScheme { field })
            }
        },
    }
}

/// The address of download tests that is used in place of a wished one.
pub open spec fn download_address(wished: Seq<char>) -> Seq<char> {
    if trimmed(wished) == LEGACY_DOWNLOAD_URL@ {
        DEFAULT_DOWNLOAD_URL@
    } else {
        trimmed(wished)
    }
}

impl SettingsView {
    /// The settings of a new installation.
    pub open spec fn initial() -> SettingsView {
        SettingsView {
            enabled: false,
            selected_profile_uids: Seq::empty(),
            include_keywords: Seq::empty(),
            exclude_keywords: Seq::empty(),
            case_sensitive: false,
            latency_interval_minutes: 15,
            speed_interval_hours: 12,
            latency_url: "https://www.gstatic.com/generate_204"@,
            download_url: DEFAULT_DOWNLOAD_URL@,
            upload_url: "https://speed.cloudflare.com/__up"@,
            download_daily_limit_bytes: 10_737_418_240,
            upload_daily_limit_bytes: 3_221_225_472,
            profile_traffic_multipliers: Seq::empty(),
            speed_duration_ms: 12_000,
            speed_max_bytes: 1_073_741_824,
        }
    }

    /// The settings with every value in its range.
    pub open spec fn normal(self) -> SettingsView {
        SettingsView {
            enabled: self.enabled,
            selected_profile_uids: sorted_unique(self.selected_profile_uids),
            include_keywords: self.include_keywords,
            exclude_keywords: self.exclude_keywords,
            case_sensitive: self.case_sensitive,
            latency_interval_minutes: clamped(self.latency_interval_minutes as int, 5, 60) as u64,
            speed_interval_hours: clamped(self.speed_interval_hours as int, 1, 168) as u64,
            latency_url: trimmed(self.latency_url),
            download_url: download_address(self.download_url),
            upload_url: trimmed(self.upload_url),
            download_daily_limit_bytes: self.download_daily_limit_bytes,
            upload_daily_limit_bytes: self.upload_daily_limit_bytes,
            profile_traffic_multipliers: limited_multipliers(self.profile_traffic_multipliers),
            speed_duration_ms: clamped(self.speed_duration_ms as int, 3_000, 30_000) as u64,
            speed_max_bytes: clamped(self.speed_max_bytes as int, 8_388_608, 2_147_483_648) as u64,
        }
    }

    /// The first address that cannot be used, with the reason.
    pub open spec fn refusal(self) -> Option<(UrlField, UrlRefusal)> {
        first_refusal(
            parsed_url(trimmed(self.latency_url)),
            parsed_url(download_address(self.download_url)),
            parsed_url(trimmed(self.upload_url)),
        )
    }
}

impl BenchmarkSettings {
    /// Moves every value into its range and refuses addresses that cannot be used.
    pub fn normalized(self) -> (result: Result<BenchmarkSettings, BenchmarkError>)
        ensures
            match (result, self@.refusal()) {
                (Ok(settings), None) => settings@ == self@.normal(),
                (Err(error), Some((field, refusal))) => refuses(error, field, refusal),
                _ => false,
            },
    {
        let settings = self.in_range();
        let latency = parse_url(settings.latency_url.as_str());
        let download = parse_url(settings.download_url.as_str());
        let upload = parse_url(settings.upload_url.as_str());
        match check_urls(latency, download, upload) {
            Ok(_) => Ok(settings),
            Err(error) => Err(error),
        }
    }

    /// Moves every value into its range and trims the addresses, without a look at what the
    /// addresses mean.
    pub fn in_range(self) -> (settings: BenchmarkSettings)
        ensures
            settings@ == self@.normal(),
    {
        let wished = trim(self.download_url.as_str());
        let download_url = if same_text(wished.as_str(), LEGACY_DOWNLOAD_URL) {
            DEFAULT_DOWNLOAD_URL.to_owned()
        } else {
            wished
        };
        BenchmarkSettings {
            enabled: self.enabled,
            selected_profile_uids: sort_unique(&self.selected_profile_uids),
            include_keywords: self.include_keywords,
            exclude_keywords: self.exclude_keywords,
            case_sensitive: self.case_sensitive,
            latency_interval_minutes: clamp(self.latency_interval_minutes, 5, 60),
            speed_interval_hours: clamp(self.speed_interval_hours, 1, 168),
            latency_url: trim(self.latency_url.as_str()),
            download_url,
            upload_url: trim(self.upload_url.as_str()),
            download_daily_limit_bytes: self.download_daily_limit_bytes,
            upload_daily_limit_bytes: self.upload_daily_limit_bytes,
            profile_traffic_multipliers: limit_multipliers(&self.profile_traffic_multipliers),
            speed_duration_ms: clamp(self.speed_duration_ms, 3_000, 30_000),
            speed_max_bytes: clamp(self.speed_max_bytes, 8_388_608, 2_147_483_648),
        }
    }
}

/// Refuses the first of three addresses that cannot be used, given what parsing made of them.
pub fn check_urls(
    latency: Result<UrlParts, String>,
    download: Result<UrlParts, String>,
    upload: Result<UrlParts, String>,
) -> (result: Result<(), BenchmarkError>)
    ensures
        match (
            result,
            first_refusal(reply_view(latency), reply_view(download), reply_view(upload)),
        ) {
            (Ok(_), None) => true,
            (Err(error), Some((field, refusal))) => refuses(error, field, refusal),
            _ => false,
        },
{
    match check_url(UrlField::Latency, latency) {
        Err(error) => return Err(error),
        Ok(_) => {},
    }
    match check_url(UrlField::Download, download) {
        Err(error) => return Err(error),
        Ok(_) => {},
    }
    check_url(UrlField::Upload, upload)
}

proof fn lemma_known_addresses()
    ensures
        trimmed(DEFAULT_DOWNLOAD_URL@) == DEFAULT_DOWNLOAD_URL@,
        trimmed(LEGACY_DOWNLOAD_URL@) == LEGACY_DOWNLOAD_URL@,
        DEFAULT_DOWNLOAD_URL@ != LEGACY_DOWNLOAD_URL@,
{
    reveal_strlit("https://speed.cloudflare.com/__down?bytes=50000000");
    reveal_strlit("https://speed.cloudflare.com/__down?bytes=1000000000");
    assert(DEFAULT_DOWNLOAD_URL@.len() < LEGACY_DOWNLOAD_URL@.len());
}

/// A download address that the source no longer serves is replaced by the default one; the
/// default one stays.
pub proof fn law_legacy_address_is_replaced(settings: SettingsView)
    ensures
        settings.download_url == LEGACY_DOWNLOAD_URL@ || settings.download_url == DEFAULT_DOWNLOAD_URL@
            ==> settings.normal().download_url == DEFAULT_DOWNLOAD_URL@,
{
    lemma_known_addresses();
}

/// Settings that passed the check once pass it again and stay as they are.
pub proof fn law_normal_settings_stay(settings: SettingsView)
    ensures
        settings.normal().normal() == settings.normal(),
        settings.normal().refusal() == settings.refusal(),
{
    let normal = settings.normal();
    law_sorted_unique(settings.selected_profile_uids);
    lemma_ascending_is_sorted(normal.selected_profile_uids);
    lemma_limited_multipliers(settings.profile_traffic_multipliers);
    lemma_limited_is_limited(normal.profile_traffic_multipliers);
    law_trim_is_idempotent(settings.latency_url);
    law_trim_is_idempotent(settings.upload_url);
    law_trim_is_idempotent(settings.download_url);
    lemma_known_addresses();
    assert(normal.normal() =~= normal);
}

} // verus!
