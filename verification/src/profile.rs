//! The nodes of a profile and the configuration with which they are tested in isolation.

use crate::config::{
    ConfigView, bare, content, contents, entries, entry, entry_at, find, find_mut, find_table,
    find_text, flag_value, json_of, lemma_entry_at, list_value, number_value, parse_config,
    parsed_config, put, table_entry, table_value, take_out, text_entry, text_value, to_json,
    value_at, value_mut_at, with_bare, with_entry, without_entry,
};
use crate::digits::{hex, hex_text};
use crate::errors::BenchmarkError;
use crate::models::{DiscoveredNode, DiscoveredView};
use crate::reconcile::discovered_views;
use crate::store::contains_text;
use crate::text::{ascii_lowered, same_text, texts, to_ascii_lower};
use serde_yaml_ng::{Mapping, Value};
use vstd::prelude::*;
use vstd::utf8::encode_utf8;

verus! {

/// The name of the only group of an isolated configuration.
pub const BENCHMARK_GROUP_NAME: &'static str = "__CVR_NODE_BENCHMARK__";

/// The start value of the hash.
pub const HASH_START: u64 = 0xcbf2_9ce4_8422_2325;

/// The factor of the hash.
pub const HASH_FACTOR: u64 = 0x100_0000_01b3;

/// The 64-bit FNV-1a hash of bytes.
pub open spec fn fnv(bytes: Seq<u8>) -> u64
    decreases bytes.len(),
{
    if bytes.len() == 0 {
        HASH_START
    } else {
        (fnv(bytes.drop_last()) ^ (bytes.last() as u64)).wrapping_mul(HASH_FACTOR)
    }
}

/// The text of a hash: sixteen hexadecimal digits.
pub open spec fn hash_text(bytes: Seq<u8>) -> Seq<char> {
    hex(fnv(bytes) as int, 16)
}

/// The FNV-1a hash of bytes as sixteen hexadecimal digits, the same in every version.
pub fn stable_hash(bytes: &[u8]) -> (text: String)
    ensures
        text@ == hash_text(bytes@),
{
    let mut hash: u64 = HASH_START;
    assert(bytes@.take(0) =~= Seq::empty());
    for i in 0..bytes.len()
        invariant
            hash == fnv(bytes@.take(i as int)),
    {
        assert(bytes@.take(i + 1).drop_last() =~= bytes@.take(i as int));
        hash = (hash ^ (bytes[i] as u64)).wrapping_mul(HASH_FACTOR);
    }
    assert(bytes@.take(bytes@.len() as int) =~= bytes@);
    hex_text(hash, 16)
}

/// Whether a node is a built-in exit that is no proxy.
pub open spec fn special(name: Seq<char>, node_type: Seq<char>) -> bool {
    let lowered = ascii_lowered(node_type);
    ||| name == "DIRECT"@
    ||| name == "REJECT"@
    ||| name == "REJECT-DROP"@
    ||| name == "PASS"@
    ||| name == "COMPATIBLE"@
    ||| lowered == "direct"@
    ||| lowered == "reject"@
    ||| lowered == "rejectdrop"@
    ||| lowered == "pass"@
    ||| lowered == "compatible"@
    ||| lowered == "selector"@
}

/// Whether a node is a built-in exit that is no proxy.
pub fn is_special_proxy(name: &str, node_type: &str) -> (result: bool)
    ensures
        result == special(name@, node_type@),
{
    let lowered = to_ascii_lower(node_type);
    let kind: &str = lowered.as_str();
    same_text(name, "DIRECT") || same_text(name, "REJECT") || same_text(name, "REJECT-DROP") || same_text(
        name,
        "PASS",
    ) || same_text(name, "COMPATIBLE") || same_text(kind, "direct") || same_text(kind, "reject") || same_text(
        kind,
        "rejectdrop",
    ) || same_text(kind, "pass") || same_text(kind, "compatible") || same_text(kind, "selector")
}

/// The fingerprint of a proxy of a configuration.
#[derive(Debug)]
pub struct ProxyFingerprint {
    pub name: String,
    pub fingerprint: String,
    pub node_type: String,
}

/// What a fingerprint stands for.
pub struct PrintView {
    pub name: Seq<char>,
    pub fingerprint: Seq<char>,
    pub node_type: Seq<char>,
}

impl View for ProxyFingerprint {
    type V = PrintView;

    open spec fn view(&self) -> PrintView {
        PrintView { name: self.name@, fingerprint: self.fingerprint@, node_type: self.node_type@ }
    }
}

/// What fingerprints stand for.
pub open spec fn print_views(prints: Seq<ProxyFingerprint>) -> Seq<PrintView> {
    prints.map_values(|print: ProxyFingerprint| print@)
}

/// The index of the fingerprint of a proxy, or the number of fingerprints.
pub open spec fn print_at(prints: Seq<PrintView>, name: Seq<char>) -> int
    decreases prints.len(),
{
    if prints.len() == 0 {
        0
    } else if prints[0].name == name {
        0
    } else {
        1 + print_at(prints.drop_first(), name)
    }
}

/// The fingerprint of a proxy.
pub open spec fn print_of(prints: Seq<PrintView>, name: Seq<char>) -> Option<PrintView> {
    let at = print_at(prints, name);
    if at < prints.len() {
        Some(prints[at])
    } else {
        None
    }
}

/// The fingerprints with one added or put in the place of an earlier one of the same proxy.
pub open spec fn with_print(prints: Seq<PrintView>, print: PrintView) -> Seq<PrintView> {
    let at = print_at(prints, print.name);
    if at < prints.len() {
        prints.update(at, print)
    } else {
        prints.push(print)
    }
}

/// The fingerprints with others added.
pub open spec fn with_prints(prints: Seq<PrintView>, more: Seq<PrintView>) -> Seq<PrintView>
    decreases more.len(),
{
    if more.len() == 0 {
        prints
    } else {
        with_print(with_prints(prints, more.drop_last()), more.last())
    }
}

/// The type of a proxy, or a default.
pub open spec fn proxy_type(proxy: Seq<(ConfigView, ConfigView)>) -> Seq<char> {
    match text_entry(proxy, "type"@) {
        Some(node_type) => node_type,
        None => "Unknown"@,
    }
}

/// The fingerprint of a proxy with a name: the hash of all of its entries but the name.
pub open spec fn proxy_print(proxy: Seq<(ConfigView, ConfigView)>, name: Seq<char>) -> Result<
    PrintView,
    Seq<char>,
> {
    match json_of(without_entry(proxy, "name"@)) {
        Ok(bytes) => Ok(
            PrintView { name, fingerprint: hash_text(bytes), node_type: proxy_type(proxy) },
        ),
        Err(reason) => Err(reason),
    }
}

/// The fingerprints of a list of proxies; items that are no mapping or have no name are left out.
pub open spec fn list_prints(proxies: Seq<ConfigView>) -> Result<Seq<PrintView>, Seq<char>>
    decreases proxies.len(),
{
    if proxies.len() == 0 {
        Ok(Seq::empty())
    } else {
        match list_prints(proxies.drop_last()) {
            Err(reason) => Err(reason),
            Ok(front) => match bare(proxies.last()) {
                ConfigView::Table(proxy) => match text_entry(proxy, "name"@) {
                    Some(name) => match proxy_print(proxy, name) {
                        Ok(print) => Ok(with_print(front, print)),
                        Err(reason) => Err(reason),
                    },
                    None => Ok(front),
                },
                _ => Ok(front),
            },
        }
    }
}

/// The fingerprints of the proxies that a configuration holds itself.
pub open spec fn config_prints(config: Seq<(ConfigView, ConfigView)>) -> Result<Seq<PrintView>, Seq<char>> {
    match entry(config, "proxies"@) {
        Some(value) => match bare(value) {
            ConfigView::List(proxies) => list_prints(proxies),
            _ => Ok(Seq::empty()),
        },
        None => Ok(Seq::empty()),
    }
}

fn find_print(prints: &Vec<ProxyFingerprint>, name: &str) -> (at: usize)
    ensures
        at == print_at(print_views(prints@), name@),
        at <= prints.len(),
{
    let ghost all = print_views(prints@);
    assert(all.skip(0) =~= all);
    for i in 0..prints.len()
        invariant
            all == print_views(prints@),
            print_at(all, name@) == i + print_at(all.skip(i as int), name@),
    {
        assert(all.skip(i as int)[0] == prints@[i as int]@);
        if same_text(prints[i].name.as_str(), name) {
            return i;
        }
        assert(all.skip(i as int).drop_first() =~= all.skip(i + 1));
    }
    prints.len()
}

fn put_print(prints: &mut Vec<ProxyFingerprint>, print: ProxyFingerprint)
    ensures
        print_views(final(prints)@) == with_print(print_views(old(prints)@), print@),
{
    let at: usize = find_print(prints, print.name.as_str());
    if at < prints.len() {
        prints.set(at, print);
    } else {
        prints.push(print);
    }
    assert(print_views(prints@) =~= with_print(print_views(old(prints)@), print@));
}

/// The fingerprints of the proxies that a configuration holds itself. A fingerprint covers the
/// connection of a proxy and not its name.
pub fn direct_proxy_fingerprints(config: &Mapping) -> (result: Result<Vec<ProxyFingerprint>, BenchmarkError>)
    ensures
        match (result, config_prints(entries(*config))) {
            (Ok(prints), Ok(views)) => print_views(prints@) == views,
            (Err(error), Err(reason)) => error is Unwritable && error->Unwritable_reason@ == reason,
            _ => false,
        },
{
    let mut prints: Vec<ProxyFingerprint> = Vec::new();
    assert(print_views(prints@) =~= Seq::empty());
    let proxies = match find(config, "proxies") {
        Some(value) => match value.as_sequence() {
            Some(proxies) => proxies,
            None => return Ok(prints),
        },
        None => return Ok(prints),
    };
    let ghost all = contents(proxies@);
    assert(all.take(0) =~= Seq::empty());
    for i in 0..proxies.len()
        invariant
            all == contents(proxies@),
            config_prints(entries(*config)) == list_prints(all),
            list_prints(all.take(i as int)) == Ok::<Seq<PrintView>, Seq<char>>(print_views(prints@)),
    {
        assert(all.take(i + 1).drop_last() =~= all.take(i as int));
        assert(all.take(i + 1).last() == content(proxies@[i as int]));
        match proxies[i].as_mapping() {
            Some(proxy) => match find_text(proxy, "name") {
                Some(name) => {
                    let node_type: String = match find_text(proxy, "type") {
                        Some(node_type) => node_type.to_owned(),
                        None => "Unknown".to_owned(),
                    };
                    let mut connection = proxy.clone();
                    take_out(&mut connection, "name");
                    match to_json(&connection) {
                        Ok(bytes) => {
                            let print = ProxyFingerprint {
                                name: name.to_owned(),
                                fingerprint: stable_hash(bytes.as_slice()),
                                node_type,
                            };
                            put_print(&mut prints, print);
                        },
                        Err(reason) => {
                            proof {
                                lemma_first_failure(all, i as int, reason@);
                            }
                            return Err(BenchmarkError::Unwritable { reason });
                        },
                    }
                },
                None => {},
            },
            None => {},
        }
    }
    assert(all.take(all.len() as int) =~= all);
    Ok(prints)
}

proof fn lemma_first_failure(proxies: Seq<ConfigView>, i: int, reason: Seq<char>)
    requires
        0 <= i < proxies.len(),
        list_prints(proxies.take(i + 1)) == Err::<Seq<PrintView>, Seq<char>>(reason),
    ensures
        list_prints(proxies) == Err::<Seq<PrintView>, Seq<char>>(reason),
    decreases proxies.len(),
{
    if i + 1 == proxies.len() {
        assert(proxies.take(i + 1) =~= proxies);
    } else {
        assert(proxies.drop_last().take(i + 1) =~= proxies.take(i + 1));
        lemma_first_failure(proxies.drop_last(), i, reason);
    }
}

/// The fingerprints that the files of proxy providers give; files that cannot be read as such
/// are left out.
pub open spec fn provider_prints(sources: Seq<Seq<char>>) -> Seq<PrintView>
    decreases sources.len(),
{
    if sources.len() == 0 {
        Seq::empty()
    } else {
        let front = provider_prints(sources.drop_last());
        match parsed_config(sources.last()) {
            Some(view) => match bare(view) {
                ConfigView::Table(config) => match config_prints(config) {
                    Ok(prints) => with_prints(front, prints),
                    Err(_) => front,
                },
                _ => front,
            },
            None => front,
        }
    }
}

fn extend_prints(prints: &mut Vec<ProxyFingerprint>, more: Vec<ProxyFingerprint>)
    ensures
        print_views(final(prints)@) == with_prints(print_views(old(prints)@), print_views(more@)),
{
    let ghost given = print_views(prints@);
    let ghost all = print_views(more@);
    assert(all.take(0) =~= Seq::empty());
    for i in 0..more.len()
        invariant
            all == print_views(more@),
            print_views(prints@) == with_prints(given, all.take(i as int)),
    {
        assert(all.take(i + 1).drop_last() =~= all.take(i as int));
        assert(all.take(i + 1).last() == more@[i as int]@);
        let print = &more[i];
        put_print(
            prints,
            ProxyFingerprint {
                name: print.name.clone(),
                fingerprint: print.fingerprint.clone(),
                node_type: print.node_type.clone(),
            },
        );
    }
    assert(all.take(all.len() as int) =~= all);
}

/// The fingerprints that the texts of the files of proxy providers give.
pub fn provider_proxy_fingerprints(sources: &[String]) -> (prints: Vec<ProxyFingerprint>)
    ensures
        print_views(prints@) == provider_prints(texts(sources@)),
{
    let ghost all = texts(sources@);
    let mut prints: Vec<ProxyFingerprint> = Vec::new();
    assert(print_views(prints@) =~= Seq::empty());
    assert(all.take(0) =~= Seq::empty());
    for i in 0..sources.len()
        invariant
            all == texts(sources@),
            print_views(prints@) == provider_prints(all.take(i as int)),
    {
        assert(all.take(i + 1).drop_last() =~= all.take(i as int));
        assert(all.take(i + 1).last() == sources@[i as int]@);
        match parse_config(sources[i].as_str()) {
            Some(value) => match value.as_mapping() {
                Some(config) => match direct_proxy_fingerprints(config) {
                    Ok(more) => {
                        extend_prints(&mut prints, more);
                    },
                    Err(_) => {},
                },
                None => {},
            },
            None => {},
        }
    }
    assert(all.take(all.len() as int) =~= all);
    prints
}

/// Renaming a proxy does not change its fingerprint.
pub proof fn law_fingerprint_ignores_display_name(
    proxy: Seq<(ConfigView, ConfigView)>,
    other: ConfigView,
    name: Seq<char>,
)
    requires
        entry(proxy, "name"@) is Some,
    ensures
        proxy_print(with_entry(proxy, "name"@, other), name) == proxy_print(proxy, name),
{
    let renamed = with_entry(proxy, "name"@, other);
    let at = entry_at(proxy, "name"@);
    lemma_entry_at(proxy, "name"@);
    lemma_entry_at(renamed, "name"@);
    let found = entry_at(renamed, "name"@);
    assert(renamed[at].0 == ConfigView::Text("name"@));
    if found < at {
        assert(renamed[found] == proxy[found]);
    }
    assert(found == at);
    assert(without_entry(renamed, "name"@) =~= without_entry(proxy, "name"@));
    reveal_strlit("name");
    reveal_strlit("type");
    assert("name"@[0] != "type"@[0]);
    lemma_with_entry(proxy, "name"@, other, "type"@);
}

/// The entry of a key does not change when another key gets a value, and a key that gets a value
/// has it.
pub proof fn lemma_with_entry(
    entries: Seq<(ConfigView, ConfigView)>,
    key: Seq<char>,
    value: ConfigView,
    other: Seq<char>,
)
    ensures
        entry(with_entry(entries, key, value), key) == Some(value),
        key != other ==> entry(with_entry(entries, key, value), other) == entry(entries, other),
{
    let after = with_entry(entries, key, value);
    lemma_entry_at(entries, key);
    lemma_entry_at(after, key);
    lemma_entry_at(entries, other);
    lemma_entry_at(after, other);
    let at = entry_at(entries, key);
    assert(after[at].0 == ConfigView::Text(key));
    let found = entry_at(after, key);
    if found < at {
        assert(after[found] == entries[found]);
    }
    if key != other {
        let before = entry_at(entries, other);
        let now = entry_at(after, other);
        if before < entries.len() {
            assert(before != at);
            assert(after[before] == entries[before]);
            if now < before {
                if now == at {
                    assert(after[now].0 == ConfigView::Text(key));
                } else {
                    assert(after[now] == entries[now]);
                }
            }
            assert(now == before);
        } else if now < after.len() {
            if now == at {
                assert(after[now].0 == ConfigView::Text(key));
            } else {
                assert(after[now] == entries[now]);
            }
        }
    }
}

/// The group with all proxies.
pub open spec fn group_entries() -> Seq<(ConfigView, ConfigView)> {
    let named = with_entry(Seq::empty(), "name"@, ConfigView::Text(BENCHMARK_GROUP_NAME@));
    let typed = with_entry(named, "type"@, ConfigView::Text("select"@));
    let filled = with_entry(typed, "include-all"@, ConfigView::Flag(true));
    with_entry(filled, "proxies"@, ConfigView::List(seq![ConfigView::Text("DIRECT"@)]))
}

/// The entries that isolate a configuration: listeners on this machine only.
pub open spec fn isolating_entries(mixed_port: int) -> Seq<(ConfigView, ConfigView)> {
    let listening = with_entry(Seq::empty(), "mixed-port"@, ConfigView::Number(mixed_port));
    let moded = with_entry(listening, "mode"@, ConfigView::Text("rule"@));
    let silent = with_entry(moded, "log-level"@, ConfigView::Text("silent"@));
    let narrow = with_entry(silent, "ipv6"@, ConfigView::Flag(false));
    let private = with_entry(narrow, "allow-lan"@, ConfigView::Flag(false));
    with_entry(private, "bind-address"@, ConfigView::Text("127.0.0.1"@))
}

/// Entries with a key of another mapping taken over, where it has that key.
pub open spec fn with_taken(
    entries: Seq<(ConfigView, ConfigView)>,
    source: Seq<(ConfigView, ConfigView)>,
    key: Seq<char>,
) -> Seq<(ConfigView, ConfigView)> {
    match entry(source, key) {
        Some(value) => with_entry(entries, key, value),
        None => entries,
    }
}

/// The isolated configuration: the proxies and providers of a profile, and one group and one rule
/// of its own.
pub open spec fn isolated(source: Seq<(ConfigView, ConfigView)>, mixed_port: int) -> Seq<
    (ConfigView, ConfigView),
> {
    let started = isolating_entries(mixed_port);
    let proxied = with_taken(started, source, "proxies"@);
    let provided = with_taken(proxied, source, "proxy-providers"@);
    let grouped = with_entry(
        provided,
        "proxy-groups"@,
        ConfigView::List(seq![ConfigView::Table(group_entries())]),
    );
    with_entry(
        grouped,
        "rules"@,
        ConfigView::List(seq![ConfigView::Text("MATCH,"@ + BENCHMARK_GROUP_NAME@)]),
    )
}

fn build_group() -> (group: Mapping)
    ensures
        entries(group) == group_entries(),
{
    let mut group = Mapping::new();
    put(&mut group, "name", text_value(BENCHMARK_GROUP_NAME));
    put(&mut group, "type", text_value("select"));
    put(&mut group, "include-all", flag_value(true));
    let mut members: Vec<Value> = Vec::new();
    members.push(text_value("DIRECT"));
    assert(contents(members@) =~= seq![ConfigView::Text("DIRECT"@)]);
    put(&mut group, "proxies", list_value(members));
    group
}

/// Extracts the proxies and providers of a configuration and puts listeners, group and rule of
/// its own around them. A configuration without proxies and providers is refused.
pub fn build_isolated_config(source: &Mapping, mixed_port: u16) -> (result: Result<Mapping, BenchmarkError>)
    ensures
        match result {
            Ok(config) => {
                &&& entry(entries(*source), "proxies"@) is Some || entry(
                    entries(*source),
                    "proxy-providers"@,
                ) is Some
                &&& entries(config) == isolated(entries(*source), mixed_port as int)
            },
            Err(error) => {
                &&& error == BenchmarkError::NoProxySource
                &&& entry(entries(*source), "proxies"@) is None
                &&& entry(entries(*source), "proxy-providers"@) is None
            },
        },
{
    let mut config = Mapping::new();
    put(&mut config, "mixed-port", number_value(mixed_port));
    put(&mut config, "mode", text_value("rule"));
    put(&mut config, "log-level", text_value("silent"));
    put(&mut config, "ipv6", flag_value(false));
    put(&mut config, "allow-lan", flag_value(false));
    put(&mut config, "bind-address", text_value("127.0.0.1"));
    let mut any: bool = false;
    match find(source, "proxies") {
        Some(value) => {
            put(&mut config, "proxies", value.clone());
            any = true;
        },
        None => {},
    }
    match find(source, "proxy-providers") {
        Some(value) => {
            put(&mut config, "proxy-providers", value.clone());
            any = true;
        },
        None => {},
    }
    let mut groups: Vec<Value> = Vec::new();
    groups.push(table_value(build_group()));
    assert(contents(groups@) =~= seq![ConfigView::Table(group_entries())]);
    put(&mut config, "proxy-groups", list_value(groups));
    let rule = "MATCH,".to_owned().concat(BENCHMARK_GROUP_NAME);
    let mut rules: Vec<Value> = Vec::new();
    rules.push(text_value(rule.as_str()));
    assert(contents(rules@) =~= seq![ConfigView::Text("MATCH,"@ + BENCHMARK_GROUP_NAME@)]);
    put(&mut config, "rules", list_value(rules));
    if !any {
        return Err(BenchmarkError::NoProxySource);
    }
    Ok(config)
}

/// The keys that an isolated configuration can have.
pub open spec fn own_keys() -> Seq<Seq<char>> {
    seq![
        "mixed-port"@,
        "mode"@,
        "log-level"@,
        "ipv6"@,
        "allow-lan"@,
        "bind-address"@,
        "proxies"@,
        "proxy-providers"@,
        "proxy-groups"@,
        "rules"@,
    ]
}

/// An isolated configuration keeps the proxies and providers of the profile, listens on the given
/// port, and has no key of the profile beside these.
pub proof fn law_isolation_keeps_proxies_only(
    source: Seq<(ConfigView, ConfigView)>,
    mixed_port: int,
    key: Seq<char>,
)
    ensures
        entry(isolated(source, mixed_port), "proxies"@) == entry(source, "proxies"@),
        entry(isolated(source, mixed_port), "proxy-providers"@) == entry(source, "proxy-providers"@),
        entry(isolated(source, mixed_port), "mixed-port"@) == Some(ConfigView::Number(mixed_port)),
        entry(isolated(source, mixed_port), "proxy-groups"@) == Some(
            ConfigView::List(seq![ConfigView::Table(group_entries())]),
        ),
        !own_keys().contains(key) ==> entry(isolated(source, mixed_port), key) is None,
{
    reveal_strlit("mixed-port");
    reveal_strlit("mode");
    reveal_strlit("log-level");
    reveal_strlit("ipv6");
    reveal_strlit("allow-lan");
    reveal_strlit("bind-address");
    reveal_strlit("proxies");
    reveal_strlit("proxy-providers");
    reveal_strlit("proxy-groups");
    reveal_strlit("rules");
    assert("mixed-port"@.len() == 10 && "mode"@.len() == 4 && "log-level"@.len() == 9);
    assert("ipv6"@.len() == 4 && "allow-lan"@.len() == 9 && "bind-address"@.len() == 12);
    assert("proxies"@.len() == 7 && "proxy-providers"@.len() == 15 && "rules"@.len() == 5);
    assert("proxy-groups"@.len() == 12);
    assert("proxy-groups"@[2] == 'o' && "bind-address"@[2] == 'n');
    lemma_isolated_entry(source, mixed_port, "proxies"@);
    lemma_isolated_entry(source, mixed_port, "proxy-providers"@);
    lemma_isolated_entry(source, mixed_port, "mixed-port"@);
    lemma_isolated_entry(source, mixed_port, "proxy-groups"@);
    lemma_isolated_entry(source, mixed_port, key);
    let keys = own_keys();
    if !keys.contains(key) {
        assert(keys[0] != key && keys[1] != key && keys[2] != key && keys[3] != key && keys[4] != key);
        assert(keys[5] != key && keys[6] != key && keys[7] != key && keys[8] != key && keys[9] != key);
    }
}

/// What an isolated configuration has under each key.
pub proof fn lemma_isolated_entry(source: Seq<(ConfigView, ConfigView)>, mixed_port: int, key: Seq<char>)
    ensures
        entry(isolated(source, mixed_port), key) == if key == "rules"@ {
            Some(ConfigView::List(seq![ConfigView::Text("MATCH,"@ + BENCHMARK_GROUP_NAME@)]))
        } else if key == "proxy-groups"@ {
            Some(ConfigView::List(seq![ConfigView::Table(group_entries())]))
        } else if key == "proxy-providers"@ && entry(source, key) is Some {
            entry(source, key)
        } else if key == "proxies"@ && entry(source, key) is Some {
            entry(source, key)
        } else {
            entry(isolating_entries(mixed_port), key)
        },
        entry(isolating_entries(mixed_port), key) == if key == "bind-address"@ {
            Some(ConfigView::Text("127.0.0.1"@))
        } else if key == "allow-lan"@ {
            Some(ConfigView::Flag(false))
        } else if key == "ipv6"@ {
            Some(ConfigView::Flag(false))
        } else if key == "log-level"@ {
            Some(ConfigView::Text("silent"@))
        } else if key == "mode"@ {
            Some(ConfigView::Text("rule"@))
        } else if key == "mixed-port"@ {
            Some(ConfigView::Number(mixed_port))
        } else {
            None
        },
{
    let listening = with_entry(Seq::empty(), "mixed-port"@, ConfigView::Number(mixed_port));
    let moded = with_entry(listening, "mode"@, ConfigView::Text("rule"@));
    let silent = with_entry(moded, "log-level"@, ConfigView::Text("silent"@));
    let narrow = with_entry(silent, "ipv6"@, ConfigView::Flag(false));
    let private = with_entry(narrow, "allow-lan"@, ConfigView::Flag(false));
    let started = isolating_entries(mixed_port);
    lemma_with_entry(Seq::empty(), "mixed-port"@, ConfigView::Number(mixed_port), key);
    lemma_with_entry(listening, "mode"@, ConfigView::Text("rule"@), key);
    lemma_with_entry(moded, "log-level"@, ConfigView::Text("silent"@), key);
    lemma_with_entry(silent, "ipv6"@, ConfigView::Flag(false), key);
    lemma_with_entry(narrow, "allow-lan"@, ConfigView::Flag(false), key);
    lemma_with_entry(private, "bind-address"@, ConfigView::Text("127.0.0.1"@), key);
    let proxied = with_taken(started, source, "proxies"@);
    if entry(source, "proxies"@) is Some {
        lemma_with_entry(started, "proxies"@, entry(source, "proxies"@)->0, key);
    }
    let provided = with_taken(proxied, source, "proxy-providers"@);
    if entry(source, "proxy-providers"@) is Some {
        lemma_with_entry(proxied, "proxy-providers"@, entry(source, "proxy-providers"@)->0, key);
    }
    let groups = ConfigView::List(seq![ConfigView::Table(group_entries())]);
    let grouped = with_entry(provided, "proxy-groups"@, groups);
    lemma_with_entry(provided, "proxy-groups"@, groups, key);
    lemma_with_entry(
        grouped,
        "rules"@,
        ConfigView::List(seq![ConfigView::Text("MATCH,"@ + BENCHMARK_GROUP_NAME@)]),
        key,
    );
}

/// A profile with its isolated configuration.
pub struct PreparedProfile {
    pub profile_uid: String,
    pub profile_name: String,
    pub config: Mapping,
    pub source_hash: String,
    pub direct_fingerprints: Vec<ProxyFingerprint>,
}

/// What a prepared profile stands for.
pub struct PreparedView {
    pub profile_uid: Seq<char>,
    pub profile_name: Seq<char>,
    pub config: Seq<(ConfigView, ConfigView)>,
    pub source_hash: Seq<char>,
    pub direct_fingerprints: Seq<PrintView>,
}

impl View for PreparedProfile {
    type V = PreparedView;

    open spec fn view(&self) -> PreparedView {
        PreparedView {
            profile_uid: self.profile_uid@,
            profile_name: self.profile_name@,
            config: entries(self.config),
            source_hash: self.source_hash@,
            direct_fingerprints: print_views(self.direct_fingerprints@),
        }
    }
}

/// What pairs of name and type stand for.
pub open spec fn node_pairs(nodes: Seq<(String, String)>) -> Seq<(Seq<char>, Seq<char>)> {
    nodes.map_values(|node: (String, String)| (node.0@, node.1@))
}

impl PreparedView {
    /// The fingerprint of a node before it is told apart from others: that of its proxy, or a
    /// hash of the profile's source, the name and the type.
    pub open spec fn base_print(self, node: (Seq<char>, Seq<char>)) -> Seq<char> {
        match print_of(self.direct_fingerprints, node.0) {
            Some(print) => print.fingerprint,
            None => hash_text(encode_utf8(self.source_hash + "\n"@ + node.0 + "\n"@ + node.1)),
        }
    }

    /// Whether an earlier node has a fingerprint.
    pub open spec fn base_taken(self, nodes: Seq<(Seq<char>, Seq<char>)>, base: Seq<char>) -> bool {
        exists|i: int|
            0 <= i < nodes.len() && !special(nodes[i].0, nodes[i].1) && self.base_print(
                #[trigger] nodes[i],
            ) == base
    }

    /// The fingerprint of a node: a second node with the same one gets a hash of its name added.
    pub open spec fn node_print(
        self,
        earlier: Seq<(Seq<char>, Seq<char>)>,
        node: (Seq<char>, Seq<char>),
    ) -> Seq<char> {
        let base = self.base_print(node);
        if self.base_taken(earlier, base) {
            base + "-"@ + hash_text(encode_utf8(node.0))
        } else {
            base
        }
    }

    /// The record of a node.
    pub open spec fn found_node(
        self,
        earlier: Seq<(Seq<char>, Seq<char>)>,
        node: (Seq<char>, Seq<char>),
    ) -> DiscoveredView {
        let fingerprint = self.node_print(earlier, node);
        DiscoveredView {
            node_id: self.profile_uid + ":"@ + fingerprint,
            profile_uid: self.profile_uid,
            profile_name: self.profile_name,
            node_name: node.0,
            node_type: match print_of(self.direct_fingerprints, node.0) {
                Some(print) => print.node_type,
                None => node.1,
            },
            fingerprint,
        }
    }

    /// The records of nodes, built-in exits left out.
    pub open spec fn found_nodes(self, nodes: Seq<(Seq<char>, Seq<char>)>) -> Seq<DiscoveredView>
        decreases nodes.len(),
    {
        if nodes.len() == 0 {
            Seq::empty()
        } else {
            let earlier = nodes.drop_last();
            let front = self.found_nodes(earlier);
            if special(nodes.last().0, nodes.last().1) {
                front
            } else {
                front.push(self.found_node(earlier, nodes.last()))
            }
        }
    }

    /// The proxies of the configuration itself, by name and type.
    pub open spec fn direct_pairs(self) -> Seq<(Seq<char>, Seq<char>)> {
        self.direct_fingerprints.map_values(|print: PrintView| (print.name, print.node_type))
    }
}

/// A profile has at most as many nodes as are listed.
pub proof fn lemma_found_nodes_fewer(profile: PreparedView, nodes: Seq<(Seq<char>, Seq<char>)>)
    ensures
        profile.found_nodes(nodes).len() <= nodes.len(),
    decreases nodes.len(),
{
    if nodes.len() > 0 {
        lemma_found_nodes_fewer(profile, nodes.drop_last());
    }
}

impl PreparedProfile {
    /// Turns the nodes that the core lists into records of this profile.
    pub fn discovered_nodes(&self, api_nodes: &[(String, String)]) -> (result: Vec<DiscoveredNode>)
        ensures
            discovered_views(result@) == self@.found_nodes(node_pairs(api_nodes@)),
    {
        let ghost all = node_pairs(api_nodes@);
        let mut taken: Vec<String> = Vec::new();
        let mut result: Vec<DiscoveredNode> = Vec::new();
        assert(discovered_views(result@) =~= Seq::empty());
        assert(all.take(0) =~= Seq::empty());
        for i in 0..api_nodes.len()
            invariant
                all == node_pairs(api_nodes@),
                discovered_views(result@) == self@.found_nodes(all.take(i as int)),
                lists_taken(texts(taken@), self@, all.take(i as int)),
        {
            let node = &api_nodes[i];
            let ghost pair = (node.0@, node.1@);
            let ghost earlier = all.take(i as int);
            assert(all[i as int] == pair);
            assert(all.take(i + 1).drop_last() =~= earlier);
            assert(all.take(i + 1).last() == pair);
            if is_special_proxy(node.0.as_str(), node.1.as_str()) {
                proof {
                    lemma_taken_grows(self@, all, i as int);
                    assert(lists_taken(texts(taken@), self@, all.take(i + 1)));
                }
            } else {
                let at: usize = find_print(&self.direct_fingerprints, node.0.as_str());
                let known: bool = at < self.direct_fingerprints.len();
                proof {
                    if known {
                        assert(self@.direct_fingerprints[at as int] == self.direct_fingerprints@[at as int]@);
                    }
                }
                let base: String = if known {
                    self.direct_fingerprints[at].fingerprint.clone()
                } else {
                    let source = self.source_hash.clone().concat("\n").concat(node.0.as_str()).concat(
                        "\n",
                    ).concat(node.1.as_str());
                    stable_hash(source.as_str().as_bytes())
                };
                assert(base@ == self@.base_print(pair));
                assert(texts(taken@).contains(base@) == self@.base_taken(earlier, base@));
                let fingerprint: String = if contains_text(taken.as_slice(), base.as_str()) {
                    base.clone().concat("-").concat(stable_hash(node.0.as_str().as_bytes()).as_str())
                } else {
                    base.clone()
                };
                assert(fingerprint@ == self@.node_print(earlier, pair));
                let node_type: String = if known {
                    self.direct_fingerprints[at].node_type.clone()
                } else {
                    node.1.clone()
                };
                let ghost before = result@;
                let found = DiscoveredNode {
                    node_id: self.profile_uid.clone().concat(":").concat(fingerprint.as_str()),
                    profile_uid: self.profile_uid.clone(),
                    profile_name: self.profile_name.clone(),
                    node_name: node.0.clone(),
                    node_type,
                    fingerprint,
                };
                assert(found@ == self@.found_node(earlier, pair));
                result.push(found);
                assert(discovered_views(result@) =~= discovered_views(before).push(found@));
                let ghost taken_before = taken@;
                let ghost base_view = base@;
                taken.push(base);
                proof {
                    lemma_lists_taken(texts(taken_before), base_view, self@, all, i as int);
                    assert(texts(taken@) =~= texts(taken_before).push(base_view));
                }
            }
        }
        assert(all.take(all.len() as int) =~= all);
        result
    }

    /// The proxies of the configuration itself as records of this profile.
    pub fn direct_nodes(&self) -> (result: Vec<DiscoveredNode>)
        ensures
            discovered_views(result@) == self@.found_nodes(self@.direct_pairs()),
    {
        let ghost wanted = self@.direct_pairs();
        let mut nodes: Vec<(String, String)> = Vec::new();
        for i in 0..self.direct_fingerprints.len()
            invariant
                wanted == self@.direct_pairs(),
                node_pairs(nodes@) == wanted.take(i as int),
        {
            let print = &self.direct_fingerprints[i];
            let ghost before = nodes@;
            assert(self@.direct_fingerprints[i as int] == print@);
            nodes.push((print.name.clone(), print.node_type.clone()));
            assert(node_pairs(nodes@) =~= node_pairs(before).push((print.name@, print.node_type@)));
            assert(wanted.take(i + 1) =~= wanted.take(i as int).push(wanted[i as int]));
        }
        assert(wanted.take(wanted.len() as int) =~= wanted);
        self.discovered_nodes(nodes.as_slice())
    }

    /// Whether the configuration has proxy providers, which only the core can load.
    pub fn has_proxy_providers(&self) -> (result: bool)
        ensures
            result == (table_entry(self@.config, "proxy-providers"@) matches Some(providers) && providers.len()
                > 0),
    {
        match find_table(&self.config, "proxy-providers") {
            Some(providers) => providers.len() > 0,
            None => false,
        }
    }
}

/// Whether a list holds exactly the fingerprints that nodes have taken.
spec fn lists_taken(
    taken: Seq<Seq<char>>,
    profile: PreparedView,
    nodes: Seq<(Seq<char>, Seq<char>)>,
) -> bool {
    forall|base: Seq<char>| taken.contains(base) <==> #[trigger] profile.base_taken(nodes, base)
}

proof fn lemma_lists_taken(
    taken: Seq<Seq<char>>,
    base: Seq<char>,
    profile: PreparedView,
    nodes: Seq<(Seq<char>, Seq<char>)>,
    i: int,
)
    requires
        0 <= i < nodes.len(),
        lists_taken(taken, profile, nodes.take(i)),
        !special(nodes[i].0, nodes[i].1),
        profile.base_print(nodes[i]) == base,
    ensures
        lists_taken(taken.push(base), profile, nodes.take(i + 1)),
{
    lemma_taken_grows(profile, nodes, i);
    let after = taken.push(base);
    assert forall|other: Seq<char>|
        after.contains(other) <==> #[trigger] profile.base_taken(nodes.take(i + 1), other) by {
        assert(taken.contains(other) == profile.base_taken(nodes.take(i), other));
        if taken.contains(other) {
            let k = choose|k: int| 0 <= k < taken.len() && taken[k] == other;
            assert(after[k] == other);
        }
        if other == base {
            assert(after[taken.len() as int] == other);
        }
        if after.contains(other) && other != base {
            let k = choose|k: int| 0 <= k < after.len() && after[k] == other;
            assert(taken[k] == other);
        }
    }
}

proof fn lemma_taken_grows(profile: PreparedView, nodes: Seq<(Seq<char>, Seq<char>)>, i: int)
    requires
        0 <= i < nodes.len(),
    ensures
        forall|base: Seq<char>|
            #[trigger] profile.base_taken(nodes.take(i + 1), base) <==> profile.base_taken(nodes.take(i), base)
                || (!special(nodes[i].0, nodes[i].1) && profile.base_print(nodes[i]) == base),
{
    let before = nodes.take(i);
    let after = nodes.take(i + 1);
    assert forall|base: Seq<char>|
        #[trigger] profile.base_taken(after, base) <==> profile.base_taken(before, base) || (!special(
            nodes[i].0,
            nodes[i].1,
        ) && profile.base_print(nodes[i]) == base) by {
        if profile.base_taken(before, base) {
            let k = choose|k: int|
                0 <= k < before.len() && !special(before[k].0, before[k].1) && profile.base_print(
                    #[trigger] before[k],
                ) == base;
            assert(after[k] == before[k]);
        }
        if profile.base_taken(after, base) {
            let k = choose|k: int|
                0 <= k < after.len() && !special(after[k].0, after[k].1) && profile.base_print(
                    #[trigger] after[k],
                ) == base;
            if k < i {
                assert(before[k] == after[k]);
            }
        }
        assert(after[i] == nodes[i]);
    }
}

/// Whether a prepared profile is the one of an isolated configuration and of the files of its
/// providers.
pub open spec fn prepared(
    profile: PreparedView,
    profile_uid: Seq<char>,
    profile_name: Seq<char>,
    config: Seq<(ConfigView, ConfigView)>,
    sources: Seq<Seq<char>>,
) -> bool {
    &&& json_of(config) is Ok
    &&& config_prints(config) is Ok
    &&& profile == (PreparedView {
        profile_uid,
        profile_name,
        config,
        source_hash: hash_text(json_of(config)->Ok_0),
        direct_fingerprints: with_prints(config_prints(config)->Ok_0, provider_prints(sources)),
    })
}

/// Prepares a profile, given its isolated configuration and the texts of the files of its proxy
/// providers. A configuration that cannot be written down is refused.
pub fn prepare_profile(
    profile_uid: &str,
    profile_name: &str,
    config: Mapping,
    provider_sources: &[String],
) -> (result: Result<PreparedProfile, BenchmarkError>)
    ensures
        match result {
            Ok(profile) => prepared(
                profile@,
                profile_uid@,
                profile_name@,
                entries(config),
                texts(provider_sources@),
            ),
            Err(error) => error is Unwritable && match (
                json_of(entries(config)),
                config_prints(entries(config)),
            ) {
                (Err(reason), _) => error->Unwritable_reason@ == reason,
                (Ok(_), Err(reason)) => error->Unwritable_reason@ == reason,
                (Ok(_), Ok(_)) => false,
            },
        },
{
    let bytes = match to_json(&config) {
        Ok(bytes) => bytes,
        Err(reason) => return Err(BenchmarkError::Unwritable { reason }),
    };
    let source_hash = stable_hash(bytes.as_slice());
    match direct_proxy_fingerprints(&config) {
        Err(error) => Err(error),
        Ok(direct) => {
            let mut direct_fingerprints = direct;
            extend_prints(&mut direct_fingerprints, provider_proxy_fingerprints(provider_sources));
            Ok(
                PreparedProfile {
                    profile_uid: profile_uid.to_owned(),
                    profile_name: profile_name.to_owned(),
                    config,
                    source_hash,
                    direct_fingerprints,
                },
            )
        },
    }
}

/// The path of a proxy provider; nothing where it has none.
pub open spec fn provider_path(provider: ConfigView) -> Option<Seq<char>> {
    match bare(provider) {
        ConfigView::Table(inner) => text_entry(inner, "path"@),
        _ => None,
    }
}

/// How many of some proxy providers have a path.
pub open spec fn path_count(providers: Seq<(ConfigView, ConfigView)>) -> int
    decreases providers.len(),
{
    if providers.len() == 0 {
        0
    } else {
        path_count(providers.drop_last()) + if provider_path(providers.last().1) is Some {
            1int
        } else {
            0int
        }
    }
}

/// The paths of proxy providers, in their order.
pub open spec fn paths_of(providers: Seq<(ConfigView, ConfigView)>) -> Seq<Seq<char>>
    decreases providers.len(),
{
    if providers.len() == 0 {
        Seq::empty()
    } else {
        let front = paths_of(providers.drop_last());
        match provider_path(providers.last().1) {
            Some(path) => front.push(path),
            None => front,
        }
    }
}

/// The proxy providers of a configuration.
pub open spec fn providers_of(config: Seq<(ConfigView, ConfigView)>) -> Seq<(ConfigView, ConfigView)> {
    match table_entry(config, "proxy-providers"@) {
        Some(providers) => providers,
        None => Seq::empty(),
    }
}

fn path_at(providers: &Mapping, i: usize) -> (path: Option<String>)
    requires
        i < entries(*providers).len(),
    ensures
        match path {
            Some(path) => provider_path(entries(*providers)[i as int].1) == Some(path@),
            None => provider_path(entries(*providers)[i as int].1) is None,
        },
{
    match value_at(providers, i) {
        Some(provider) => match provider.as_mapping() {
            Some(inner) => match find_text(inner, "path") {
                Some(path) => Some(path.to_owned()),
                None => None,
            },
            None => None,
        },
        None => None,
    }
}

/// The paths of the proxy providers of a configuration, in their order.
pub fn provider_paths(config: &Mapping) -> (paths: Vec<String>)
    ensures
        texts(paths@) == paths_of(providers_of(entries(*config))),
        paths@.len() == path_count(providers_of(entries(*config))),
{
    let mut paths: Vec<String> = Vec::new();
    assert(texts(paths@) =~= Seq::empty());
    match find_table(config, "proxy-providers") {
        Some(providers) => {
            let ghost all = entries(*providers);
            assert(all.take(0) =~= Seq::empty());
            let count: usize = providers.len();
            for i in 0..count
                invariant
                    all == entries(*providers),
                    count == all.len(),
                    texts(paths@) == paths_of(all.take(i as int)),
                    paths@.len() == path_count(all.take(i as int)),
            {
                assert(all.take(i + 1).drop_last() =~= all.take(i as int));
                assert(all.take(i + 1).last() == all[i as int]);
                match path_at(providers, i) {
                    Some(path) => {
                        let ghost before = paths@;
                        paths.push(path);
                        assert(texts(paths@) =~= texts(before).push(path@));
                    },
                    None => {},
                }
            }
            assert(all.take(all.len() as int) =~= all);
        },
        None => {},
    }
    paths
}

/// A proxy provider with another path.
pub open spec fn with_path(provider: ConfigView, path: Seq<char>) -> ConfigView {
    match bare(provider) {
        ConfigView::Table(inner) => with_bare(
            provider,
            ConfigView::Table(with_entry(inner, "path"@, ConfigView::Text(path))),
        ),
        _ => provider,
    }
}

/// A proxy provider after its path was replaced, where it has one and a replacement is given.
pub open spec fn relocated(
    providers: Seq<(ConfigView, ConfigView)>,
    i: int,
    replacements: Seq<Option<String>>,
) -> ConfigView {
    let provider = providers[i].1;
    match provider_path(provider) {
        Some(_) => match replacements[path_count(providers.take(i))] {
            Some(path) => with_path(provider, path@),
            None => provider,
        },
        None => provider,
    }
}

/// The first proxy providers after their paths were replaced, and the others.
pub open spec fn relocated_first(
    providers: Seq<(ConfigView, ConfigView)>,
    replacements: Seq<Option<String>>,
    n: int,
) -> Seq<(ConfigView, ConfigView)> {
    Seq::new(
        providers.len(),
        |i: int|
            (
                providers[i].0,
                if i < n {
                    relocated(providers, i, replacements)
                } else {
                    providers[i].1
                },
            ),
    )
}

/// A configuration with other proxy providers.
pub open spec fn with_providers(
    config: Seq<(ConfigView, ConfigView)>,
    providers: Seq<(ConfigView, ConfigView)>,
) -> Seq<(ConfigView, ConfigView)> {
    let at = entry_at(config, "proxy-providers"@);
    config.update(at, (config[at].0, with_bare(config[at].1, ConfigView::Table(providers))))
}

/// A configuration after the paths of its proxy providers were replaced.
pub open spec fn relocated_config(
    config: Seq<(ConfigView, ConfigView)>,
    replacements: Seq<Option<String>>,
) -> Seq<(ConfigView, ConfigView)> {
    match table_entry(config, "proxy-providers"@) {
        Some(providers) => with_providers(
            config,
            relocated_first(providers, replacements, providers.len() as int),
        ),
        None => config,
    }
}

proof fn lemma_with_bare(view: ConfigView, inside: ConfigView, other: ConfigView)
    requires
        !(inside is Tagged),
    ensures
        bare(with_bare(view, inside)) == inside,
        with_bare(with_bare(view, inside), other) == with_bare(view, other),
        with_bare(view, bare(view)) == view,
    decreases view,
{
    match view {
        ConfigView::Tagged(_, inner) => {
            lemma_with_bare(*inner, inside, other);
        },
        _ => {},
    }
}

proof fn lemma_with_providers(
    config: Seq<(ConfigView, ConfigView)>,
    providers: Seq<(ConfigView, ConfigView)>,
    others: Seq<(ConfigView, ConfigView)>,
)
    requires
        table_entry(config, "proxy-providers"@) is Some,
    ensures
        table_entry(with_providers(config, providers), "proxy-providers"@) == Some(providers),
        with_providers(with_providers(config, providers), others) == with_providers(config, others),
        with_providers(config, table_entry(config, "proxy-providers"@)->0) == config,
{
    let key = "proxy-providers"@;
    let after = with_providers(config, providers);
    lemma_entry_at(config, key);
    lemma_entry_at(after, key);
    let at = entry_at(config, key);
    let now = entry_at(after, key);
    assert(after[at].0 == ConfigView::Text(key));
    if now < at {
        assert(after[now] == config[now]);
    }
    assert(now == at);
    lemma_with_bare(config[at].1, ConfigView::Table(providers), ConfigView::Table(others));
    assert(with_providers(after, others) =~= with_providers(config, others));
    lemma_with_bare(config[at].1, ConfigView::Table(providers), config[at].1);
    assert(with_providers(config, table_entry(config, key)->0) =~= config);
}

fn set_provider_path(config: &mut Mapping, i: usize, path: &str)
    requires
        table_entry(entries(*old(config)), "proxy-providers"@) matches Some(providers) && i < providers.len()
            && provider_path(providers[i as int].1) is Some,
    ensures
        ({
            let providers = table_entry(entries(*old(config)), "proxy-providers"@)->0;
            entries(*final(config)) == with_providers(
                entries(*old(config)),
                providers.update(
                    i as int,
                    (providers[i as int].0, with_path(providers[i as int].1, path@)),
                ),
            )
        }),
{
    if let Some(value) = find_mut(config, "proxy-providers") {
        if let Some(providers) = value.as_mapping_mut() {
            if let Some(provider) = value_mut_at(providers, i) {
                if let Some(inner) = provider.as_mapping_mut() {
                    put(inner, "path", text_value(path));
                }
            }
        }
    }
}

proof fn lemma_path_count(providers: Seq<(ConfigView, ConfigView)>, n: int)
    requires
        0 <= n <= providers.len(),
    ensures
        0 <= path_count(providers.take(n)) <= path_count(providers),
        n < providers.len() && provider_path(providers[n].1) is Some ==> path_count(providers.take(n))
            < path_count(providers),
    decreases providers.len(),
{
    if n == providers.len() {
        assert(providers.take(n) =~= providers);
        if n > 0 {
            lemma_path_count(providers.drop_last(), n - 1);
            assert(providers.drop_last().take(n - 1) =~= providers.drop_last());
        }
    } else {
        let front = providers.drop_last();
        lemma_path_count(front, n);
        assert(front.take(n) =~= providers.take(n));
        if n < front.len() {
            assert(front[n] == providers[n]);
        } else {
            assert(providers.take(n) =~= front);
        }
    }
}

/// Replaces the paths of the proxy providers of a configuration: for each provider with a path, in
/// their order, either another path is given or the path stays.
pub fn absolutize_provider_paths(config: &mut Mapping, replacements: &[Option<String>])
    requires
        replacements@.len() == path_count(providers_of(entries(*old(config)))),
    ensures
        entries(*final(config)) == relocated_config(entries(*old(config)), replacements@),
{
    let ghost given = entries(*config);
    let count: usize = match find_table(config, "proxy-providers") {
        Some(providers) => providers.len(),
        None => return,
    };
    let ghost providers = table_entry(given, "proxy-providers"@)->0;
    let mut used: usize = 0;
    proof {
        lemma_with_providers(given, providers, providers);
        assert(relocated_first(providers, replacements@, 0) =~= providers);
        assert(providers.take(0) =~= Seq::empty());
    }
    for i in 0..count
        invariant
            table_entry(given, "proxy-providers"@) == Some(providers),
            count == providers.len(),
            replacements@.len() == path_count(providers),
            used == path_count(providers.take(i as int)),
            entries(*config) == with_providers(given, relocated_first(providers, replacements@, i as int)),
    {
        let ghost current = relocated_first(providers, replacements@, i as int);
        let ghost next = relocated_first(providers, replacements@, i + 1);
        proof {
            lemma_with_providers(given, current, next);
            lemma_path_count(providers, i as int);
            assert(providers.take(i + 1).drop_last() =~= providers.take(i as int));
            assert(providers.take(i + 1).last() == providers[i as int]);
            assert(current[i as int] == providers[i as int]);
        }
        let has_path: bool = match find_table(config, "proxy-providers") {
            Some(found) => path_at(found, i).is_some(),
            None => false,
        };
        assert(has_path == (provider_path(providers[i as int].1) is Some));
        if has_path {
            match &replacements[used] {
                Some(path) => {
                    set_provider_path(config, i, path.as_str());
                    assert(next =~= current.update(
                        i as int,
                        (current[i as int].0, with_path(current[i as int].1, path@)),
                    ));
                },
                None => {
                    assert(next =~= current);
                },
            }
            proof {
                lemma_path_count(providers, i + 1);
            }
            used = used + 1;
        } else {
            assert(next =~= current);
        }
    }
}

/// A profile as the configuration of the application lists it.
#[derive(Debug)]
pub struct ProfileItem {
    pub uid: Option<String>,
    pub name: Option<String>,
    pub itype: Option<String>,
}

/// Whether a profile can be tested: it is remote or local.
pub open spec fn testable(item: ProfileItem) -> bool {
    match item.itype {
        Some(itype) => itype@ == "remote"@ || itype@ == "local"@,
        None => false,
    }
}

fn is_testable(item: &ProfileItem) -> (result: bool)
    ensures
        result == testable(*item),
{
    match &item.itype {
        Some(itype) => same_text(itype.as_str(), "remote") || same_text(itype.as_str(), "local"),
        None => false,
    }
}

/// The profiles that can be tested and have an id and a name.
pub open spec fn available(items: Seq<ProfileItem>) -> Seq<(Seq<char>, Seq<char>)>
    decreases items.len(),
{
    if items.len() == 0 {
        Seq::empty()
    } else {
        let front = available(items.drop_last());
        let item = items.last();
        match (item.uid, item.name) {
            (Some(uid), Some(name)) => if testable(item) {
                front.push((uid@, name@))
            } else {
                front
            },
            _ => front,
        }
    }
}

/// The profiles that can be tested, by id and name.
pub fn available_profiles(items: &[ProfileItem]) -> (result: Vec<(String, String)>)
    ensures
        node_pairs(result@) == available(items@),
{
    let mut result: Vec<(String, String)> = Vec::new();
    assert(node_pairs(result@) =~= Seq::empty());
    assert(items@.take(0) =~= Seq::empty());
    for i in 0..items.len()
        invariant
            node_pairs(result@) == available(items@.take(i as int)),
    {
        let item = &items[i];
        assert(items@.take(i + 1).drop_last() =~= items@.take(i as int));
        assert(items@.take(i + 1).last() == *item);
        if is_testable(item) {
            match (&item.uid, &item.name) {
                (Some(uid), Some(name)) => {
                    let ghost before = result@;
                    result.push((uid.clone(), name.clone()));
                    assert(node_pairs(result@) =~= node_pairs(before).push((uid@, name@)));
                },
                _ => {},
            }
        }
    }
    assert(items@.take(items@.len() as int) =~= items@);
    result
}

/// The name of a profile that is to be prepared: its own, or its id. A profile that is unknown or
/// cannot be tested is refused.
pub fn testable_name(profile_uid: &str, item: Option<&ProfileItem>) -> (result: Result<String, BenchmarkError>)
    ensures
        match item {
            None => result is Err && result->Err_0 is UnknownProfile
                && result->Err_0->UnknownProfile_profile_uid@ == profile_uid@,
            Some(item) => if testable(*item) {
                result is Ok && result->Ok_0@ == match item.name {
                    Some(name) => name@,
                    None => profile_uid@,
                }
            } else {
                result is Err && result->Err_0 == BenchmarkError::ProfileNotTestable
            },
        },
{
    match item {
        None => Err(BenchmarkError::UnknownProfile { profile_uid: profile_uid.to_owned() }),
        Some(item) => {
            if !is_testable(item) {
                return Err(BenchmarkError::ProfileNotTestable);
            }
            match &item.name {
                Some(name) => Ok(name.clone()),
                None => Ok(profile_uid.to_owned()),
            }
        },
    }
}

/// No built-in exit is ever recorded as a node.
pub proof fn law_special_exits_are_left_out(profile: PreparedView, nodes: Seq<(Seq<char>, Seq<char>)>, k: int)
    requires
        0 <= k < profile.found_nodes(nodes).len(),
    ensures
        exists|i: int|
            0 <= i < nodes.len() && !special((#[trigger] nodes[i]).0, nodes[i].1) && profile.found_nodes(
                nodes,
            )[k].node_name == nodes[i].0,
    decreases nodes.len(),
{
    let earlier = nodes.drop_last();
    let front = profile.found_nodes(earlier);
    if k < front.len() {
        law_special_exits_are_left_out(profile, earlier, k);
        let i = choose|i: int|
            0 <= i < earlier.len() && !special((#[trigger] earlier[i]).0, earlier[i].1) && front[k].node_name
                == earlier[i].0;
        assert(nodes[i] == earlier[i]);
    } else {
        assert(!special(nodes[nodes.len() - 1].0, nodes[nodes.len() - 1].1));
    }
}

} // verus!
