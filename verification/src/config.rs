//! The persisted settings records the library's rules read and update.

use vstd::prelude::*;
use crate::recents::RecentEntry;
use crate::text::str_eq;

verus! {

broadcast use vstd::string::group_string_axioms;

/// A configured local folder.
#[derive(Debug, Clone, Default)]
pub struct LocalFolder {
    pub id: String,
    pub name: String,
    pub path: String,
    /// Declared section kind ("movie"/"show"), empty when undeclared.
    pub kind: String,
}

/// A configured SMB share.
#[derive(Debug, Clone, Default)]
pub struct SmbMount {
    pub id: String,
    pub name: String,
    pub server: String,
    pub share: String,
    pub username: String,
    pub password: String,
    pub domain: String,
    /// Where the OS mounts the share (empty for native, mountless shares).
    pub mountpoint: String,
}

/// A configured SSH/SFTP folder mounted through sshfs.
#[derive(Debug, Clone, Default)]
pub struct SshMount {
    pub id: String,
    pub name: String,
    pub host: String,
    pub username: String,
    pub remote_path: String,
    pub port: u16,
    pub identity_file: String,
    pub mountpoint: String,
    /// The local folder record that browses this mount.
    pub local_folder_id: String,
}

/// A persisted server source row.
#[derive(Debug, Clone, Default)]
pub struct SourceConfig {
    pub id: String,
    pub kind: String,
    pub name: String,
    pub base_url: String,
    pub access_token: Option<String>,
    pub api_key: Option<String>,
    pub user_id: Option<String>,
    pub device_id: Option<String>,
    pub machine_identifier: Option<String>,
}

/// What the player does at a published skip range.
#[derive(Debug, Clone, Copy, PartialEq, Eq, Structural)]
pub enum SkipPolicy {
    Off,
    Button,
    Autoskip,
}

impl SkipPolicy {
    pub fn is_off(&self) -> (r: bool)
        ensures
            r == (*self == SkipPolicy::Off),
    {
        match self {
            SkipPolicy::Off => true,
            _ => false,
        }
    }

    /// The value the marker script reads for this policy.
    pub fn as_option_value(&self) -> (r: &'static str)
        ensures
            r@ == skip_policy_text(*self),
    {
        match self {
            SkipPolicy::Off => "off",
            SkipPolicy::Button => "button",
            SkipPolicy::Autoskip => "autoskip",
        }
    }
}

pub open spec fn skip_policy_text(p: SkipPolicy) -> Seq<char> {
    match p {
        SkipPolicy::Off => "off"@,
        SkipPolicy::Button => "button"@,
        SkipPolicy::Autoskip => "autoskip"@,
    }
}

/// The settings the library's rules read and update.
pub struct AppConfig {
    /// Vela's own "recently played" record, newest first.
    pub recents: Vec<RecentEntry>,
    /// Continue Watching tombstones, oldest first.
    pub hidden_from_continue: Vec<String>,
    /// Percent of duration past which a play counts as finished.
    pub watched_threshold_percent: Option<u8>,
    pub sources: Vec<SourceConfig>,
    pub local_folders: Vec<LocalFolder>,
    pub smb_mounts: Vec<SmbMount>,
    pub ssh_mounts: Vec<SshMount>,
}

impl Default for AppConfig {
    fn default() -> (r: Self)
        ensures
            r.recents@.len() == 0,
            r.hidden_from_continue@.len() == 0,
            r.watched_threshold_percent is None,
            r.sources@.len() == 0,
            r.local_folders@.len() == 0,
            r.smb_mounts@.len() == 0,
            r.ssh_mounts@.len() == 0,
    {
        AppConfig {
            recents: Vec::new(),
            hidden_from_continue: Vec::new(),
            watched_threshold_percent: None,
            sources: Vec::new(),
            local_folders: Vec::new(),
            smb_mounts: Vec::new(),
            ssh_mounts: Vec::new(),
        }
    }
}

/// Whether two settings records agree on everything but recents and
/// tombstones.
pub open spec fn same_settings(a: AppConfig, b: AppConfig) -> bool {
    &&& a.watched_threshold_percent == b.watched_threshold_percent
    &&& a.sources == b.sources
    &&& a.local_folders == b.local_folders
    &&& a.smb_mounts == b.smb_mounts
    &&& a.ssh_mounts == b.ssh_mounts
}

} // verus!
