//! The settings of a session: where the tracker is, which project and board
//! to show, and the team whose issues to show.

use crate::ordered_map::{text_values, OrderedMap};
use vstd::prelude::*;

verus! {

/// The settings of a session. They do not change once loaded.
#[derive(Clone, Debug)]
pub struct Settings {
    pub jira_url: String,
    pub jira_username: String,
    pub jira_password: String,
    pub jira_project: String,
    pub jira_board_id: u32,
    /// The users whose issues are shown; empty to show everyone's.
    pub team_members: Vec<String>,
    /// The labels whose issues are shown; empty to show them all.
    pub team_labels: Vec<String>,
    /// For each label that has one, the name under which it is counted.
    pub labels_mapping: OrderedMap<String>,
}

/// The settings as a mathematical value.
pub struct SettingsView {
    pub jira_url: Seq<char>,
    pub jira_username: Seq<char>,
    pub jira_password: Seq<char>,
    pub jira_project: Seq<char>,
    pub jira_board_id: u32,
    pub team_members: Seq<Seq<char>>,
    pub team_labels: Seq<Seq<char>>,
    pub labels_mapping: Map<Seq<char>, Seq<char>>,
}

impl View for Settings {
    type V = SettingsView;

    open spec fn view(&self) -> SettingsView {
        SettingsView {
            jira_url: self.jira_url@,
            jira_username: self.jira_username@,
            jira_password: self.jira_password@,
            jira_project: self.jira_project@,
            jira_board_id: self.jira_board_id,
            team_members: self.team_members.deep_view(),
            team_labels: self.team_labels.deep_view(),
            labels_mapping: text_values(self.labels_mapping@),
        }
    }
}

impl Settings {
    /// Settings for a tracker, a project and a board, with no team members,
    /// no team labels and no names for labels.
    pub fn new(
        jira_url: String,
        jira_username: String,
        jira_password: String,
        jira_project: String,
        jira_board_id: u32,
    ) -> (r: Settings)
        ensures
            r@ == (SettingsView {
                jira_url: jira_url@,
                jira_username: jira_username@,
                jira_password: jira_password@,
                jira_project: jira_project@,
                jira_board_id,
                team_members: Seq::empty(),
                team_labels: Seq::empty(),
                labels_mapping: Map::empty(),
            }),
    {
        let r = Settings {
            jira_url,
            jira_username,
            jira_password,
            jira_project,
            jira_board_id,
            team_members: Vec::new(),
            team_labels: Vec::new(),
            labels_mapping: OrderedMap::new(),
        };
        assert(r@.team_members =~= Seq::empty());
        assert(r@.team_labels =~= Seq::empty());
        assert(r@.labels_mapping =~= Map::empty());
        r
    }
}

} // verus!
