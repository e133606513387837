//! Scans of the selected profiles for nodes that came, went or changed.

use vstd::prelude::*;

use crate::errors::BenchmarkError;
use crate::models::{DiscoveredNode, DiscoveredView};
use crate::profile::{node_pairs, PreparedProfile, PreparedView};
use crate::reconcile::discovered_views;
use crate::schedule::SCAN_INTERVAL;
use crate::settings::{BenchmarkSettings, SettingsView};
use crate::store::{BenchmarkStore, StoreView};

verus! {

/// The nodes that a scan found in a profile.
#[derive(Debug)]
pub struct ProfileDiscovery {
    pub profile_name: String,
    pub source_hash: String,
    pub nodes: Vec<DiscoveredNode>,
}

/// What found nodes stand for.
pub struct DiscoveryView {
    pub profile_name: Seq<char>,
    pub source_hash: Seq<char>,
    pub nodes: Seq<DiscoveredView>,
}

impl View for ProfileDiscovery {
    type V = DiscoveryView;

    open spec fn view(&self) -> DiscoveryView {
        DiscoveryView {
            profile_name: self.profile_name@,
            source_hash: self.source_hash@,
            nodes: discovered_views(self.nodes@),
        }
    }
}

impl PreparedView {
    /// The nodes of a prepared profile: those that the core lists, or, without a core, those of
    /// the configuration itself.
    pub open spec fn discovery(self, listed: Option<Seq<(Seq<char>, Seq<char>)>>) -> DiscoveryView {
        DiscoveryView {
            profile_name: self.profile_name,
            source_hash: self.source_hash,
            nodes: self.found_nodes(
                match listed {
                    Some(nodes) => nodes,
                    None => self.direct_pairs(),
                },
            ),
        }
    }
}

impl PreparedProfile {
    /// The nodes of a prepared profile: those that the core lists, or, without a core, those of
    /// the configuration itself.
    pub fn discovery(&self, listed: Option<&[(String, String)]>) -> (discovery: ProfileDiscovery)
        ensures
            discovery@ == self@.discovery(
                match listed {
                    Some(nodes) => Some(node_pairs(nodes@)),
                    None => None,
                },
            ),
    {
        let nodes = match listed {
            Some(nodes) => self.discovered_nodes(nodes),
            None => self.direct_nodes(),
        };
        ProfileDiscovery {
            profile_name: self.profile_name.clone(),
            source_hash: self.source_hash.clone(),
            nodes,
        }
    }
}

/// What a scan of a selected profile came to.
#[derive(Debug)]
pub enum ScanOutcome {
    /// The configuration has the profile no longer.
    Missing,
    Found(ProfileDiscovery),
    Failed { profile_name: String, error: String },
}

/// What the outcome of a scan stands for.
pub enum ScanView {
    Missing,
    Found(DiscoveryView),
    Failed { profile_name: Seq<char>, error: Seq<char> },
}

impl View for ScanOutcome {
    type V = ScanView;

    open spec fn view(&self) -> ScanView {
        match self {
            ScanOutcome::Missing => ScanView::Missing,
            ScanOutcome::Found(discovery) => ScanView::Found(discovery@),
            ScanOutcome::Failed { profile_name, error } => ScanView::Failed {
                profile_name: profile_name@,
                error: error@,
            },
        }
    }
}

impl ScanView {
    /// The most changes that the outcome can bring.
    pub open spec fn most_changes(self, tables: StoreView) -> int {
        match self {
            ScanView::Found(discovery) => (discovery.nodes.len() + tables.nodes.len() + 1) as int,
            _ => 1,
        }
    }
}

impl StoreView {
    /// The tables after the nodes of a profile were found.
    pub open spec fn after_discovery(
        self,
        profile_uid: Seq<char>,
        discovery: DiscoveryView,
        settings: SettingsView,
        now: i64,
    ) -> StoreView {
        self.reconciled(
            self.merge_of(profile_uid, discovery.profile_name, settings, now),
            discovery.nodes,
        ).after_scan(profile_uid, discovery.profile_name, Some(discovery.source_hash), now, None)
    }

    /// The tables after a scan of a selected profile.
    pub open spec fn after_outcome(
        self,
        profile_uid: Seq<char>,
        outcome: ScanView,
        settings: SettingsView,
        now: i64,
    ) -> StoreView {
        match outcome {
            ScanView::Missing => self.after_loss(profile_uid, profile_uid, now),
            ScanView::Found(discovery) => self.after_discovery(profile_uid, discovery, settings, now),
            ScanView::Failed { profile_name, error } => self.after_scan(
                profile_uid,
                profile_name,
                None,
                now,
                Some(error),
            ),
        }
    }
}

impl BenchmarkStore {
    /// Whether that many more changes can be numbered.
    pub fn has_room_for(&self, changes: usize) -> (result: bool)
        ensures
            result == self@.has_room(changes as int),
    {
        self.last_change_id as i128 + changes as i128 <= i64::MAX as i128
    }

    /// Takes note of the nodes of a profile.
    pub fn record_discovery(
        &mut self,
        profile_uid: &str,
        discovery: &ProfileDiscovery,
        settings: &BenchmarkSettings,
        now: i64,
    )
        requires
            old(self)@.valid(),
            old(self)@.has_room(ScanView::Found(discovery@).most_changes(old(self)@)),
        ensures
            final(self)@ == old(self)@.after_discovery(profile_uid@, discovery@, settings@, now),
            final(self)@.valid(),
    {
        self.reconcile_nodes(
            profile_uid,
            discovery.profile_name.as_str(),
            discovery.nodes.as_slice(),
            settings,
            now,
        );
        self.save_profile_scan(
            profile_uid,
            discovery.profile_name.as_str(),
            Some(discovery.source_hash.as_str()),
            now,
            None,
        );
    }

    /// Takes note of what a scan of a selected profile came to.
    pub fn record_scan(
        &mut self,
        profile_uid: &str,
        outcome: &ScanOutcome,
        settings: &BenchmarkSettings,
        now: i64,
    )
        requires
            old(self)@.valid(),
            old(self)@.has_room(outcome@.most_changes(old(self)@)),
        ensures
            final(self)@ == old(self)@.after_outcome(profile_uid@, outcome@, settings@, now),
            final(self)@.valid(),
    {
        match outcome {
            ScanOutcome::Missing => {
                self.mark_profile_missing(profile_uid, profile_uid, now);
            },
            ScanOutcome::Found(discovery) => {
                self.record_discovery(profile_uid, discovery, settings, now);
            },
            ScanOutcome::Failed { profile_name, error } => {
                self.save_profile_scan(profile_uid, profile_name.as_str(), None, now, Some(error.as_str()));
            },
        }
    }

    /// The settings for a scan, where one is due: the ranking runs, and the last scan is long ago.
    pub fn due_scan(&self, last_scan_at: i64, now: i64) -> (result: Result<Option<BenchmarkSettings>, BenchmarkError>)
        ensures
            match result {
                Err(error) => !self@.settings_sound() && self@.settings_refused(error),
                Ok(None) => self@.settings_sound() && !(self@.current_settings().enabled && now - last_scan_at
                    >= SCAN_INTERVAL),
                Ok(Some(settings)) => self@.settings_sound() && settings@ == self@.current_settings()
                    && settings@.enabled && now - last_scan_at >= SCAN_INTERVAL,
            },
    {
        let settings = match self.load_settings() {
            Ok(settings) => settings,
            Err(error) => {
                return Err(error);
            },
        };
        if settings.enabled && now as i128 - last_scan_at as i128 >= SCAN_INTERVAL as i128 {
            Ok(Some(settings))
        } else {
            Ok(None)
        }
    }
}

} // verus!
