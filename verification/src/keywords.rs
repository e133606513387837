//! The keyword filter that proposes which nodes take part.

use vstd::prelude::*;

use crate::models::ParticipationState;
use crate::settings::{BenchmarkSettings, SettingsView};
use crate::text::{
    chars_of, lowercase, occurs, occurs_in, split_keywords, split_pieces, texts, trim, trimmed,
};

verus! {

/// A text as it is compared: unchanged, or in lowercase where case does not matter.
pub open spec fn folded(text: Seq<char>, case_sensitive: bool) -> Seq<char> {
    if case_sensitive {
        text
    } else {
        lowercase(text)
    }
}

/// The keywords among pieces of text: trimmed, without the empty ones, as they are compared.
pub open spec fn kept_keywords(pieces: Seq<Seq<char>>, case_sensitive: bool) -> Seq<Seq<char>>
    decreases pieces.len(),
{
    if pieces.len() == 0 {
        pieces
    } else {
        let front = kept_keywords(pieces.drop_last(), case_sensitive);
        let keyword = trimmed(pieces.last());
        if keyword.len() == 0 {
            front
        } else {
            front.push(folded(keyword, case_sensitive))
        }
    }
}

/// The keywords of a list that a user wrote down.
pub open spec fn keywords(list: Seq<char>, case_sensitive: bool) -> Seq<Seq<char>> {
    kept_keywords(split_pieces(list), case_sensitive)
}

/// Whether one of the keywords occurs in a text.
pub open spec fn any_occurs(keywords: Seq<Seq<char>>, text: Seq<char>) -> bool {
    exists|i: int| 0 <= i < keywords.len() && occurs_in(#[trigger] keywords[i], text)
}

/// The text in which the keywords of a node are sought: the names of the profile and the node.
pub open spec fn searched_text(node_name: Seq<char>, profile_name: Seq<char>) -> Seq<char> {
    profile_name + " "@ + node_name
}

/// The state that the keywords propose for a node.
pub open spec fn proposed_state(
    node_name: Seq<char>,
    profile_name: Seq<char>,
    settings: SettingsView,
) -> ParticipationState {
    let text = folded(searched_text(node_name, profile_name), settings.case_sensitive);
    let includes = keywords(settings.include_keywords, settings.case_sensitive);
    let excludes = keywords(settings.exclude_keywords, settings.case_sensitive);
    if (includes.len() == 0 || any_occurs(includes, text)) && !any_occurs(excludes, text) {
        ParticipationState::Participating
    } else {
        ParticipationState::Excluded
    }
}

fn fold(text: String, case_sensitive: bool) -> (result: String)
    ensures
        result@ == folded(text@, case_sensitive),
{
    if case_sensitive {
        text
    } else {
        text.as_str().to_lowercase()
    }
}

fn read_keywords(list: &str, case_sensitive: bool) -> (result: Vec<String>)
    ensures
        texts(result@) == keywords(list@, case_sensitive),
{
    let pieces = split_keywords(list);
    let ghost all = texts(pieces@);
    let mut result: Vec<String> = Vec::new();
    assert(texts(result@) =~= Seq::empty());
    assert(all.take(0) =~= Seq::empty());
    for i in 0..pieces.len()
        invariant
            all == texts(pieces@),
            texts(result@) == kept_keywords(all.take(i as int), case_sensitive),
    {
        let keyword = trim(pieces[i].as_str());
        let ghost before = result@;
        assert(all.take(i + 1).drop_last() =~= all.take(i as int));
        assert(all.take(i + 1).last() == pieces@[i as int]@);
        if keyword.as_str().unicode_len() > 0 {
            let kept = fold(keyword, case_sensitive);
            result.push(kept);
            assert(texts(result@) =~= texts(before).push(kept@));
        }
    }
    assert(all.take(all.len() as int) =~= all);
    result
}

fn any_keyword_occurs(list: &Vec<String>, text: &Vec<char>) -> (found: bool)
    ensures
        found == any_occurs(texts(list@), text@),
{
    for i in 0..list.len()
        invariant
            forall|k: int| 0 <= k < i ==> !occurs_in(#[trigger] texts(list@)[k], text@),
    {
        if occurs(&chars_of(list[i].as_str()), text) {
            assert(occurs_in(texts(list@)[i as int], text@));
            return true;
        }
        assert(texts(list@)[i as int] == list@[i as int]@);
    }
    false
}

/// The state that the keywords propose for a node.
pub fn default_state_for_name(node_name: &str, profile_name: &str, settings: &BenchmarkSettings) -> (state:
    ParticipationState)
    ensures
        state == proposed_state(node_name@, profile_name@, settings@),
{
    let searched = profile_name.to_owned().concat(" ").concat(node_name);
    let text = chars_of(fold(searched, settings.case_sensitive).as_str());
    let includes = read_keywords(settings.include_keywords.as_str(), settings.case_sensitive);
    let excludes = read_keywords(settings.exclude_keywords.as_str(), settings.case_sensitive);
    if (includes.len() == 0 || any_keyword_occurs(&includes, &text)) && !any_keyword_occurs(
        &excludes,
        &text,
    ) {
        ParticipationState::Participating
    } else {
        ParticipationState::Excluded
    }
}

/// A node that matches an excluding keyword is excluded, whatever else it matches.
pub proof fn law_exclusion_prevails(
    node_name: Seq<char>,
    profile_name: Seq<char>,
    settings: SettingsView,
)
    requires
        any_occurs(
            keywords(settings.exclude_keywords, settings.case_sensitive),
            folded(searched_text(node_name, profile_name), settings.case_sensitive),
        ),
    ensures
        proposed_state(node_name, profile_name, settings) == ParticipationState::Excluded,
{
}

/// Where case does not matter, names that agree in lowercase get the same proposal.
pub proof fn law_case_is_ignored(
    left_node: Seq<char>,
    left_profile: Seq<char>,
    right_node: Seq<char>,
    right_profile: Seq<char>,
    settings: SettingsView,
)
    requires
        !settings.case_sensitive,
        lowercase(searched_text(left_node, left_profile)) == lowercase(
            searched_text(right_node, right_profile),
        ),
    ensures
        proposed_state(left_node, left_profile, settings) == proposed_state(
            right_node,
            right_profile,
            settings,
        ),
{
}

/// Without keywords every node is proposed to take part.
pub proof fn law_no_keyword_admits_all(
    node_name: Seq<char>,
    profile_name: Seq<char>,
    settings: SettingsView,
)
    requires
        keywords(settings.include_keywords, settings.case_sensitive).len() == 0,
        keywords(settings.exclude_keywords, settings.case_sensitive).len() == 0,
    ensures
        proposed_state(node_name, profile_name, settings) == ParticipationState::Participating,
{
}

} // verus!
