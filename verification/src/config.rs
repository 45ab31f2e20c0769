//! What the bridge is told at its start, what it tells of itself, and where
//! both lie.

use vstd::prelude::*;

use crate::paths;

verus! {

/// The systems that the bridge runs on.
#[derive(Clone, Copy, Debug, PartialEq, Eq, Structural)]
pub enum Platform {
    Linux,
    MacOs,
}

/// How the bridge reaches the Windows machine and introduces itself. How fast
/// to scroll is left to what carries the scrolling out.
pub struct Config {
    pub security_key: String,
    pub windows_ip: String,
    pub machine_name: String,
    pub machine_id: u32,
    /// The layout that the virtual keyboard is compiled with.
    pub xkb_layout: String,
    pub xkb_variant: String,
}

impl Config {
    pub open spec fn same_as(&self, other: &Config) -> bool {
        &&& self.security_key@ == other.security_key@
        &&& self.windows_ip@ == other.windows_ip@
        &&& self.machine_name@ == other.machine_name@
        &&& self.machine_id == other.machine_id
        &&& self.xkb_layout@ == other.xkb_layout@
        &&& self.xkb_variant@ == other.xkb_variant@
    }

    /// A copy of the configuration.
    pub fn duplicate(&self) -> (r: Config)
        ensures
            r.same_as(self),
    {
        Config {
            security_key: self.security_key.clone(),
            windows_ip: self.windows_ip.clone(),
            machine_name: self.machine_name.clone(),
            machine_id: self.machine_id,
            xkb_layout: self.xkb_layout.clone(),
            xkb_variant: self.xkb_variant.clone(),
        }
    }
}

/// What stands in a configuration that names no layout.
pub fn default_xkb_layout() -> (r: String)
    ensures
        r@ == "us"@,
{
    String::from_str("us")
}

/// Whether the bridge is connected, to whom, and what else there is to say.
pub struct Status {
    pub connected: bool,
    pub peer: String,
    pub detail: String,
    pub updated_epoch: u64,
}

impl Status {
    /// A status as of `epoch`, in seconds. A clock that is set before 1970
    /// gives none, and the status then says 0.
    pub fn new(connected: bool, peer: &str, detail: &str, epoch: Option<u64>) -> (r: Status)
        ensures
            r.connected == connected,
            r.peer@ == peer@,
            r.detail@ == detail@,
            r.updated_epoch == (match epoch {
                Some(seconds) => seconds,
                None => 0,
            }),
    {
        Status {
            connected,
            peer: String::from_str(peer),
            detail: String::from_str(detail),
            updated_epoch: match epoch {
                Some(seconds) => seconds,
                None => 0,
            },
        }
    }
}

/// What the status line of the menu says.
pub open spec fn status_text(status: Option<Status>) -> Seq<char> {
    match status {
        Some(s) => if s.connected {
            "Connected to "@ + s.peer@
        } else {
            "Status: "@ + s.detail@
        },
        None => "Status: starting..."@,
    }
}

/// The status line of the menu.
pub fn status_line(status: &Option<Status>) -> (r: String)
    ensures
        r@ == status_text(*status),
{
    match status {
        Some(s) => if s.connected {
            let mut line: String = String::from_str("Connected to ");
            line.append(s.peer.as_str());
            line
        } else {
            let mut line: String = String::from_str("Status: ");
            line.append(s.detail.as_str());
            line
        },
        None => String::from_str("Status: starting..."),
    }
}

/// What the status says while the connection is being made.
pub const DETAIL_CONNECTING: &'static str = "Connecting...";

/// What the status says once the challenge is met.
pub const DETAIL_CONNECTED: &'static str = "Connected";

/// What the status says where the challenge is not met.
pub const DETAIL_WRONG_KEY: &'static str = "Handshake failed — check the security key";

/// What the status says without a configuration on Linux.
pub const DETAIL_UNCONFIGURED_LINUX: &'static str =
    "Not configured — set Security Key, Windows IP, and Machine Name from the Omarchy bar widget, then restart.";

/// What the status says without a configuration on macOS.
pub const DETAIL_UNCONFIGURED_MACOS: &'static str =
    "Not configured — edit config.json from the menu bar icon, then Restart Connection.";

/// What the status says when a connection has ended.
pub fn disconnected_detail(error: &str) -> (r: String)
    ensures
        r@ == "Disconnected: "@ + error@ + ". Reconnecting..."@,
{
    let mut r: String = String::from_str("Disconnected: ");
    r.append(error);
    r.append(". Reconnecting...");
    r
}

/// The directory of the bridge under the home directory.
pub open spec fn data_dir_name(platform: Platform) -> Seq<char> {
    match platform {
        Platform::Linux => ".local/share/omarchy-mwb-bridge"@,
        Platform::MacOs => "Library/Application Support/mwb-mac-bridge"@,
    }
}

/// The directory for what passes through, under the home directory.
pub open spec fn cache_dir_name(platform: Platform) -> Seq<char> {
    match platform {
        Platform::Linux => ".cache/omarchy-mwb-bridge-files"@,
        Platform::MacOs => "Library/Caches/mwb-mac-bridge"@,
    }
}

/// The directory that the configuration and the status lie in.
pub fn data_dir(platform: Platform, home: &str) -> (r: String)
    ensures
        r@ == paths::joined(home@, data_dir_name(platform)),
{
    match platform {
        Platform::Linux => paths::join_path(home, ".local/share/omarchy-mwb-bridge"),
        Platform::MacOs => paths::join_path(home, "Library/Application Support/mwb-mac-bridge"),
    }
}

/// Where the configuration lies.
pub fn config_path(platform: Platform, home: &str) -> (r: String)
    ensures
        r@ == paths::joined(paths::joined(home@, data_dir_name(platform)), "config.json"@),
{
    paths::join_path(data_dir(platform, home).as_str(), "config.json")
}

/// Where the status lies.
pub fn status_path(platform: Platform, home: &str) -> (r: String)
    ensures
        r@ == paths::joined(paths::joined(home@, data_dir_name(platform)), "status.json"@),
{
    paths::join_path(data_dir(platform, home).as_str(), "status.json")
}

/// The directory for received files and for an image that waits to be pulled.
pub fn clipboard_files_dir(platform: Platform, home: &str) -> (r: String)
    ensures
        r@ == paths::joined(home@, cache_dir_name(platform)),
{
    match platform {
        Platform::Linux => paths::join_path(home, ".cache/omarchy-mwb-bridge-files"),
        Platform::MacOs => paths::join_path(home, "Library/Caches/mwb-mac-bridge"),
    }
}

/// Where an image waits to be pulled. There is only ever one.
pub fn outbound_image_path(platform: Platform, home: &str) -> (r: String)
    ensures
        r@ == paths::joined(
            paths::joined(home@, cache_dir_name(platform)),
            "outbound-image.png"@,
        ),
{
    paths::join_path(clipboard_files_dir(platform, home).as_str(), "outbound-image.png")
}

/// The configuration that a new user finds and edits.
pub const CONFIG_TEMPLATE: &'static str =
    "{\n  \"security_key\": \"CHANGE-ME-must-match-PowerToys-Settings-key\",\n  \"windows_ip\": \"windows-pc.local:15101\",\n  \"machine_name\": \"mac\",\n  \"machine_id\": 2,\n  \"scroll_speed\": 1.0\n}\n";

/// The status line names the peer while connected, and tells the detail
/// otherwise, in full.
pub proof fn status_line_tells_the_status(s: Status)
    ensures
        s.connected ==> status_text(Some(s)) == "Connected to "@ + s.peer@,
        !s.connected ==> status_text(Some(s)) == "Status: "@ + s.detail@,
        status_text(None) == "Status: starting..."@,
{
}

/// The files of the bridge lie under the home directory, apart on each system.
pub proof fn files_lie_under_home(home: Seq<char>)
    requires
        home.len() > 0,
        home.last() != '/',
    ensures
        paths::joined(home, data_dir_name(Platform::Linux)) == home + seq!['/']
            + ".local/share/omarchy-mwb-bridge"@,
        paths::joined(home, data_dir_name(Platform::MacOs)) == home + seq!['/']
            + "Library/Application Support/mwb-mac-bridge"@,
        paths::joined(home, cache_dir_name(Platform::Linux)) == home + seq!['/']
            + ".cache/omarchy-mwb-bridge-files"@,
        paths::joined(home, cache_dir_name(Platform::MacOs)) == home + seq!['/']
            + "Library/Caches/mwb-mac-bridge"@,
{
}

} // verus!
