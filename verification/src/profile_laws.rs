//! What holds of the fingerprints of proxies, of the nodes of profiles and of isolated
//! configurations.

use crate::config::{
    ConfigView, bare, entry, entry_at, json_of, lemma_entry_at, text_entry, with_entry, without_entry,
};
use crate::models::DiscoveredView;
use crate::profile::{
    BENCHMARK_GROUP_NAME, PreparedView, PrintView, ProfileItem, available, config_prints, group_entries,
    hash_text, isolated, lemma_isolated_entry, lemma_with_entry, list_prints, print_at, proxy_print,
    special, with_print,
};
use crate::text::ascii_lowered;
use vstd::prelude::*;

verus! {

/// Whether no key occurs twice.
pub open spec fn distinct_keys(entries: Seq<(ConfigView, ConfigView)>) -> bool {
    forall|i: int, j: int| 0 <= i < j < entries.len() ==> (#[trigger] entries[i]).0 != (#[trigger] entries[j]).0
}

/// Whether an item of a list of proxies is a mapping with a name.
pub open spec fn named(item: ConfigView, name: Seq<char>) -> bool {
    bare(item) matches ConfigView::Table(proxy) && exists|n: int|
        0 <= n < proxy.len() && (#[trigger] proxy[n]).0 == ConfigView::Text("name"@) && bare(proxy[n].1)
            == ConfigView::Text(name)
}

proof fn lemma_distinct_entry(entries: Seq<(ConfigView, ConfigView)>, key: Seq<char>, i: int)
    requires
        distinct_keys(entries),
        0 <= i < entries.len(),
        entries[i].0 == ConfigView::Text(key),
    ensures
        entry_at(entries, key) == i,
        entry(entries, key) == Some(entries[i].1),
{
    lemma_entry_at(entries, key);
    let at = entry_at(entries, key);
    if at < i {
        assert(entries[at].0 != entries[i].0);
    }
}

proof fn lemma_without(entries: Seq<(ConfigView, ConfigView)>, key: Seq<char>, pair: (ConfigView, ConfigView))
    ensures
        pair.0 != ConfigView::Text(key) ==> (without_entry(entries, key).contains(pair) <==> entries.contains(
            pair,
        )),
        distinct_keys(entries) && pair.0 == ConfigView::Text(key) ==> !without_entry(entries, key).contains(
            pair,
        ),
{
    let after = without_entry(entries, key);
    let at = entry_at(entries, key);
    let last = entries.len() - 1;
    lemma_entry_at(entries, key);
    if after.contains(pair) {
        let k = choose|k: int| 0 <= k < after.len() && after[k] == pair;
        let from = if at < entries.len() && k == at {
            last
        } else {
            k
        };
        assert(entries[from] == pair);
        if distinct_keys(entries) && at < entries.len() {
            if from < at {
                assert(entries[from].0 != entries[at].0);
            } else if at < from {
                assert(entries[at].0 != entries[from].0);
            }
        }
    }
    if entries.contains(pair) && pair.0 != ConfigView::Text(key) {
        let k = choose|k: int| 0 <= k < entries.len() && entries[k] == pair;
        assert(k != at);
        if at < entries.len() && k == last {
            assert(after[at] == pair);
        } else {
            assert(after[k] == pair);
        }
    }
}

/// What is hashed for a proxy are its entries but the name: those with every other key, and only
/// those.
pub proof fn law_prints_cover_every_other_entry(
    proxy: Seq<(ConfigView, ConfigView)>,
    name: Seq<char>,
) -> (hashed: Seq<(ConfigView, ConfigView)>)
    requires
        distinct_keys(proxy),
    ensures
        forall|pair: (ConfigView, ConfigView)| #[trigger]
            hashed.contains(pair) <==> proxy.contains(pair) && pair.0 != ConfigView::Text("name"@),
        match json_of(hashed) {
            Ok(bytes) => proxy_print(proxy, name) matches Ok(print) && print.name == name
                && print.fingerprint == hash_text(bytes),
            Err(reason) => proxy_print(proxy, name) == Err::<PrintView, Seq<char>>(reason),
        },
{
    let hashed = without_entry(proxy, "name"@);
    assert forall|pair: (ConfigView, ConfigView)| #[trigger]
        hashed.contains(pair) <==> proxy.contains(pair) && pair.0 != ConfigView::Text("name"@) by {
        lemma_without(proxy, "name"@, pair);
    }
    hashed
}

/// Where two proxies differ in the value of a key other than the name, or only one of them has that
/// key, different mappings are hashed for them.
pub proof fn law_different_connections_are_hashed_differently(
    proxy: Seq<(ConfigView, ConfigView)>,
    other: Seq<(ConfigView, ConfigView)>,
    pair: (ConfigView, ConfigView),
    name: Seq<char>,
) -> (hashed: (Seq<(ConfigView, ConfigView)>, Seq<(ConfigView, ConfigView)>))
    requires
        distinct_keys(proxy),
        distinct_keys(other),
        pair.0 != ConfigView::Text("name"@),
        proxy.contains(pair),
        !other.contains(pair),
        proxy_print(proxy, name) is Ok,
        proxy_print(other, name) is Ok,
    ensures
        hashed.0 != hashed.1,
        json_of(hashed.0) matches Ok(bytes) && proxy_print(proxy, name)->Ok_0.fingerprint == hash_text(bytes),
        json_of(hashed.1) matches Ok(bytes) && proxy_print(other, name)->Ok_0.fingerprint == hash_text(bytes),
{
    let left = law_prints_cover_every_other_entry(proxy, name);
    let right = law_prints_cover_every_other_entry(other, name);
    assert(left.contains(pair));
    assert(!right.contains(pair));
    (left, right)
}

proof fn lemma_print_at(prints: Seq<PrintView>, name: Seq<char>)
    ensures
        0 <= print_at(prints, name) <= prints.len(),
        print_at(prints, name) < prints.len() ==> prints[print_at(prints, name)].name == name,
        forall|k: int| 0 <= k < print_at(prints, name) ==> (#[trigger] prints[k]).name != name,
    decreases prints.len(),
{
    if prints.len() > 0 && prints[0].name != name {
        let rest = prints.drop_first();
        lemma_print_at(rest, name);
        assert forall|k: int| 0 <= k < print_at(prints, name) implies (#[trigger] prints[k]).name != name by {
            if k > 0 {
                assert(rest[k - 1] == prints[k]);
            }
        }
    }
}

proof fn lemma_with_print_keeps(prints: Seq<PrintView>, print: PrintView, kept: PrintView)
    ensures
        with_print(prints, print).contains(print),
        prints.contains(kept) && kept.name != print.name ==> with_print(prints, print).contains(kept),
{
    let at = print_at(prints, print.name);
    let after = with_print(prints, print);
    lemma_print_at(prints, print.name);
    assert(after[at] == print);
    if prints.contains(kept) && kept.name != print.name {
        let k = choose|k: int| 0 <= k < prints.len() && prints[k] == kept;
        assert(after[k] == kept);
    }
}

proof fn lemma_list_prints(
    proxies: Seq<ConfigView>,
    prints: Seq<PrintView>,
    i: int,
    proxy: Seq<(ConfigView, ConfigView)>,
    name: Seq<char>,
)
    requires
        list_prints(proxies) == Ok::<Seq<PrintView>, Seq<char>>(prints),
        0 <= i < proxies.len(),
        bare(proxies[i]) == ConfigView::Table(proxy),
        text_entry(proxy, "name"@) == Some(name),
        forall|j: int| i < j < proxies.len() ==> !named(#[trigger] proxies[j], name),
    ensures
        proxy_print(proxy, name) is Ok,
        prints.contains(proxy_print(proxy, name)->Ok_0),
    decreases proxies.len(),
{
    let front = proxies.drop_last();
    let before = list_prints(front)->Ok_0;
    if i == proxies.len() - 1 {
        let print = proxy_print(proxy, name)->Ok_0;
        lemma_with_print_keeps(before, print, print);
    } else {
        assert forall|j: int| i < j < front.len() implies !named(#[trigger] front[j], name) by {
            assert(!named(proxies[j], name));
        }
        lemma_list_prints(front, before, i, proxy, name);
        let kept = proxy_print(proxy, name)->Ok_0;
        assert(!named(proxies[proxies.len() - 1], name));
        if let ConfigView::Table(last) = bare(proxies.last()) {
            if text_entry(last, "name"@) is Some {
                let other = text_entry(last, "name"@)->0;
                lemma_entry_at(last, "name"@);
                assert(other != name) by {
                    if other == name {
                        let n = entry_at(last, "name"@);
                        assert(last[n].0 == ConfigView::Text("name"@));
                        assert(named(proxies.last(), name));
                    }
                }
                lemma_with_print_keeps(before, proxy_print(last, other)->Ok_0, kept);
            }
        }
    }
}

/// Every proxy of a configuration that has a name gets a fingerprint: the hash of the JSON of a
/// mapping that has, for each key other than the name, the entry of the proxy, and no entry for the
/// name. Of several proxies with one name the last counts.
pub proof fn law_fingerprints_cover_the_connection(
    config: Seq<(ConfigView, ConfigView)>,
    prints: Seq<PrintView>,
    at: int,
    proxies: Seq<ConfigView>,
    i: int,
    proxy: Seq<(ConfigView, ConfigView)>,
    n: int,
    name: Seq<char>,
) -> (hashed: Seq<(ConfigView, ConfigView)>)
    requires
        config_prints(config) == Ok::<Seq<PrintView>, Seq<char>>(prints),
        distinct_keys(config),
        0 <= at < config.len(),
        config[at].0 == ConfigView::Text("proxies"@),
        bare(config[at].1) == ConfigView::List(proxies),
        0 <= i < proxies.len(),
        bare(proxies[i]) == ConfigView::Table(proxy),
        distinct_keys(proxy),
        0 <= n < proxy.len(),
        proxy[n].0 == ConfigView::Text("name"@),
        bare(proxy[n].1) == ConfigView::Text(name),
        forall|j: int| i < j < proxies.len() ==> !named(#[trigger] proxies[j], name),
    ensures
        forall|pair: (ConfigView, ConfigView)| #[trigger]
            hashed.contains(pair) <==> proxy.contains(pair) && pair.0 != ConfigView::Text("name"@),
        json_of(hashed) is Ok,
        exists|k: int|
            0 <= k < prints.len() && (#[trigger] prints[k]).name == name && prints[k].fingerprint == hash_text(
                json_of(hashed)->Ok_0,
            ) && forall|t: int|
                0 <= t < proxy.len() && (#[trigger] proxy[t]).0 == ConfigView::Text("type"@) && bare(
                    proxy[t].1,
                ) is Text ==> prints[k].node_type == bare(proxy[t].1)->Text_0,
{
    lemma_distinct_entry(config, "proxies"@, at);
    lemma_distinct_entry(proxy, "name"@, n);
    lemma_list_prints(proxies, prints, i, proxy, name);
    let hashed = law_prints_cover_every_other_entry(proxy, name);
    let print = proxy_print(proxy, name)->Ok_0;
    let k = choose|k: int| 0 <= k < prints.len() && prints[k] == print;
    assert forall|t: int|
        0 <= t < proxy.len() && (#[trigger] proxy[t]).0 == ConfigView::Text("type"@) && bare(proxy[t].1) is Text
        implies prints[k].node_type == bare(proxy[t].1)->Text_0 by {
        lemma_distinct_entry(proxy, "type"@, t);
    }
    hashed
}

/// An isolated configuration listens on this machine only, on the given port, and keeps quiet; its
/// only rule sends everything to its only group, which offers every proxy for selection.
pub proof fn law_isolated_configurations_stay_local(source: Seq<(ConfigView, ConfigView)>, mixed_port: int)
    ensures
        ({
            let config = isolated(source, mixed_port);
            &&& entry(config, "mixed-port"@) == Some(ConfigView::Number(mixed_port))
            &&& entry(config, "bind-address"@) == Some(ConfigView::Text("127.0.0.1"@))
            &&& entry(config, "allow-lan"@) == Some(ConfigView::Flag(false))
            &&& entry(config, "ipv6"@) == Some(ConfigView::Flag(false))
            &&& entry(config, "log-level"@) == Some(ConfigView::Text("silent"@))
            &&& entry(config, "mode"@) == Some(ConfigView::Text("rule"@))
            &&& entry(config, "rules"@) == Some(
                ConfigView::List(seq![ConfigView::Text("MATCH,"@ + "__CVR_NODE_BENCHMARK__"@)]),
            )
            &&& entry(config, "proxy-groups"@) is Some && entry(config, "proxy-groups"@)->0 is List && entry(
                config,
                "proxy-groups"@,
            )->0->List_0.len() == 1 && entry(config, "proxy-groups"@)->0->List_0[0] is Table
            &&& {
                let group = entry(config, "proxy-groups"@)->0->List_0[0]->Table_0;
                &&& group.len() == 4
                &&& entry(group, "name"@) == Some(ConfigView::Text("__CVR_NODE_BENCHMARK__"@))
                &&& entry(group, "type"@) == Some(ConfigView::Text("select"@))
                &&& entry(group, "include-all"@) == Some(ConfigView::Flag(true))
                &&& entry(group, "proxies"@) == Some(ConfigView::List(seq![ConfigView::Text("DIRECT"@)]))
            }
        }),
{
    reveal_strlit("mixed-port");
    reveal_strlit("mode");
    reveal_strlit("log-level");
    reveal_strlit("ipv6");
    reveal_strlit("allow-lan");
    reveal_strlit("bind-address");
    reveal_strlit("proxies");
    reveal_strlit("proxy-providers");
    reveal_strlit("proxy-groups");
    reveal_strlit("rules");
    reveal_strlit("name");
    reveal_strlit("type");
    reveal_strlit("include-all");
    assert("mixed-port"@.len() == 10 && "mode"@.len() == 4 && "log-level"@.len() == 9);
    assert("ipv6"@.len() == 4 && "allow-lan"@.len() == 9 && "bind-address"@.len() == 12);
    assert("proxies"@.len() == 7 && "proxy-providers"@.len() == 15 && "rules"@.len() == 5);
    assert("proxy-groups"@.len() == 12);
    assert("proxy-groups"@[2] == 'o' && "bind-address"@[2] == 'n');
    assert("mode"@[0] == 'm' && "ipv6"@[0] == 'i');
    assert("log-level"@[0] == 'l' && "allow-lan"@[0] == 'a');
    lemma_isolated_entry(source, mixed_port, "mixed-port"@);
    lemma_isolated_entry(source, mixed_port, "bind-address"@);
    lemma_isolated_entry(source, mixed_port, "allow-lan"@);
    lemma_isolated_entry(source, mixed_port, "ipv6"@);
    lemma_isolated_entry(source, mixed_port, "log-level"@);
    lemma_isolated_entry(source, mixed_port, "mode"@);
    lemma_isolated_entry(source, mixed_port, "rules"@);
    lemma_isolated_entry(source, mixed_port, "proxy-groups"@);
    assert("name"@[0] == 'n' && "type"@[0] == 't' && "include-all"@[0] == 'i' && "proxies"@[0] == 'p');
    let group = group_entries();
    lemma_group_entry("name"@);
    lemma_group_entry("type"@);
    lemma_group_entry("include-all"@);
    lemma_group_entry("proxies"@);
    let groups = entry(isolated(source, mixed_port), "proxy-groups"@)->0->List_0;
    assert(groups[0] == ConfigView::Table(group));
    assert(group.len() == 4) by {
        let named = with_entry(Seq::empty(), "name"@, ConfigView::Text(BENCHMARK_GROUP_NAME@));
        let typed = with_entry(named, "type"@, ConfigView::Text("select"@));
        let filled = with_entry(typed, "include-all"@, ConfigView::Flag(true));
        lemma_entry_at(Seq::empty(), "name"@);
        lemma_entry_at(named, "type"@);
        lemma_entry_at(typed, "include-all"@);
        lemma_entry_at(filled, "proxies"@);
        assert(named.len() == 1 && named[0].0 == ConfigView::Text("name"@));
        assert(typed.len() == 2 && typed[0].0 == ConfigView::Text("name"@) && typed[1].0 == ConfigView::Text(
            "type"@,
        ));
        assert(filled.len() == 3 && filled[2].0 == ConfigView::Text("include-all"@));
    }
}

proof fn lemma_group_entry(key: Seq<char>)
    ensures
        entry(group_entries(), key) == if key == "proxies"@ {
            Some(ConfigView::List(seq![ConfigView::Text("DIRECT"@)]))
        } else if key == "include-all"@ {
            Some(ConfigView::Flag(true))
        } else if key == "type"@ {
            Some(ConfigView::Text("select"@))
        } else if key == "name"@ {
            Some(ConfigView::Text(BENCHMARK_GROUP_NAME@))
        } else {
            None
        },
{
    let named = with_entry(Seq::empty(), "name"@, ConfigView::Text(BENCHMARK_GROUP_NAME@));
    let typed = with_entry(named, "type"@, ConfigView::Text("select"@));
    let filled = with_entry(typed, "include-all"@, ConfigView::Flag(true));
    lemma_with_entry(Seq::empty(), "name"@, ConfigView::Text(BENCHMARK_GROUP_NAME@), key);
    lemma_with_entry(named, "type"@, ConfigView::Text("select"@), key);
    lemma_with_entry(typed, "include-all"@, ConfigView::Flag(true), key);
    lemma_with_entry(filled, "proxies"@, ConfigView::List(seq![ConfigView::Text("DIRECT"@)]), key);
}

/// Whether a name or a type marks a built-in exit.
pub open spec fn built_in(name: Seq<char>, node_type: Seq<char>) -> bool {
    ||| seq!["DIRECT"@, "REJECT"@, "REJECT-DROP"@, "PASS"@, "COMPATIBLE"@].contains(name)
    ||| seq!["direct"@, "reject"@, "rejectdrop"@, "pass"@, "compatible"@, "selector"@].contains(
        ascii_lowered(node_type),
    )
}

/// The built-in exits are those of the two lists.
pub proof fn lemma_built_in(name: Seq<char>, node_type: Seq<char>)
    ensures
        special(name, node_type) == built_in(name, node_type),
{
    let names = seq!["DIRECT"@, "REJECT"@, "REJECT-DROP"@, "PASS"@, "COMPATIBLE"@];
    let types = seq!["direct"@, "reject"@, "rejectdrop"@, "pass"@, "compatible"@, "selector"@];
    let lowered = ascii_lowered(node_type);
    assert(names[0] == "DIRECT"@ && names[1] == "REJECT"@ && names[2] == "REJECT-DROP"@);
    assert(names[3] == "PASS"@ && names[4] == "COMPATIBLE"@);
    assert(types[0] == "direct"@ && types[1] == "reject"@ && types[2] == "rejectdrop"@);
    assert(types[3] == "pass"@ && types[4] == "compatible"@ && types[5] == "selector"@);
    if names.contains(name) {
        let k = choose|k: int| 0 <= k < names.len() && names[k] == name;
        assert(k == 0 || k == 1 || k == 2 || k == 3 || k == 4);
    }
    if types.contains(lowered) {
        let k = choose|k: int| 0 <= k < types.len() && types[k] == lowered;
        assert(k == 0 || k == 1 || k == 2 || k == 3 || k == 4 || k == 5);
    }
}

/// The nodes of a profile are exactly the listed ones that are no built-in exits, in their order,
/// and the id of each is made of the profile and its fingerprint.
pub proof fn law_every_proxy_becomes_a_node(profile: PreparedView, nodes: Seq<(Seq<char>, Seq<char>)>)
    ensures
        profile.found_nodes(nodes).map_values(|found: DiscoveredView| found.node_name)
            == nodes.filter(|node: (Seq<char>, Seq<char>)| !built_in(node.0, node.1)).map_values(
            |node: (Seq<char>, Seq<char>)| node.0,
        ),
        forall|k: int|
            0 <= k < profile.found_nodes(nodes).len() ==> {
                let found = #[trigger] profile.found_nodes(nodes)[k];
                &&& found.profile_uid == profile.profile_uid
                &&& found.profile_name == profile.profile_name
                &&& found.node_id == profile.profile_uid + ":"@ + found.fingerprint
            },
    decreases nodes.len(),
{
    reveal(Seq::filter);
    let kept = |node: (Seq<char>, Seq<char>)| !built_in(node.0, node.1);
    let named = |found: DiscoveredView| found.node_name;
    let first = |node: (Seq<char>, Seq<char>)| node.0;
    let all = profile.found_nodes(nodes);
    if nodes.len() > 0 {
        let front = nodes.drop_last();
        let last = nodes.last();
        law_every_proxy_becomes_a_node(profile, front);
        lemma_built_in(last.0, last.1);
        if !special(last.0, last.1) {
            let found = profile.found_node(front, last);
            assert(all == profile.found_nodes(front).push(found));
            assert(nodes.filter(kept) == front.filter(kept).push(last));
            assert(all.map_values(named) =~= profile.found_nodes(front).map_values(named).push(last.0));
            assert(nodes.filter(kept).map_values(first) =~= front.filter(kept).map_values(first).push(last.0));
        }
    } else {
        assert(all.map_values(named) =~= nodes.filter(kept).map_values(first));
    }
}

/// A profile is offered exactly where it is remote or local and has an id and a name.
pub proof fn law_remote_and_local_profiles_are_offered(
    items: Seq<ProfileItem>,
    uid: Seq<char>,
    name: Seq<char>,
)
    ensures
        available(items).contains((uid, name)) <==> exists|i: int|
            0 <= i < items.len() && {
                let item = #[trigger] items[i];
                &&& item.uid is Some && item.uid->0@ == uid
                &&& item.name is Some && item.name->0@ == name
                &&& item.itype is Some && (item.itype->0@ == "remote"@ || item.itype->0@ == "local"@)
            },
    decreases items.len(),
{
    if items.len() > 0 {
        let front = items.drop_last();
        let last = items.last();
        let before = available(front);
        let all = available(items);
        law_remote_and_local_profiles_are_offered(front, uid, name);
        if before.contains((uid, name)) {
            let k = choose|k: int| 0 <= k < before.len() && before[k] == (uid, name);
            assert(all[k] == (uid, name));
            let i = choose|i: int|
                0 <= i < front.len() && {
                    let item = #[trigger] front[i];
                    &&& item.uid is Some && item.uid->0@ == uid
                    &&& item.name is Some && item.name->0@ == name
                    &&& item.itype is Some && (item.itype->0@ == "remote"@ || item.itype->0@ == "local"@)
                };
            assert(items[i] == front[i]);
        } else {
            if all.contains((uid, name)) {
                let k = choose|k: int| 0 <= k < all.len() && all[k] == (uid, name);
                if k < before.len() {
                    assert(before[k] == (uid, name));
                }
                assert(items[items.len() - 1] == last);
            }
            if exists|i: int|
                0 <= i < items.len() && {
                    let item = #[trigger] items[i];
                    &&& item.uid is Some && item.uid->0@ == uid
                    &&& item.name is Some && item.name->0@ == name
                    &&& item.itype is Some && (item.itype->0@ == "remote"@ || item.itype->0@ == "local"@)
                } {
                let i = choose|i: int|
                    0 <= i < items.len() && {
                        let item = #[trigger] items[i];
                        &&& item.uid is Some && item.uid->0@ == uid
                        &&& item.name is Some && item.name->0@ == name
                        &&& item.itype is Some && (item.itype->0@ == "remote"@ || item.itype->0@ == "local"@)
                    };
                if i < front.len() {
                    assert(front[i] == items[i]);
                } else {
                    assert(all[all.len() - 1] == (uid, name));
                }
            }
        }
    }
}

} // verus!
