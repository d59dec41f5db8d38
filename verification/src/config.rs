//! `config.toml`: daemon and CLI settings, every one with a default.

use vstd::prelude::*;
use crate::store::{load_with, FileRead, LoadError};
use crate::text::{chars_of, slice_chars, string_from, trim, trim_bounds};

verus! {

/// Default TCP port the daemon listens on.
pub const DEFAULT_PORT: u16 = 47654;

/// Default largest clipboard payload synced inline, in bytes (1 MiB).
pub const DEFAULT_MAX_CLIPBOARD_BYTES: u64 = 1048576;

/// Top-level daemon/CLI configuration. Every field has a default, so an
/// absent or partial `config.toml` still yields a usable `Config`.
#[derive(Debug, Clone, PartialEq, Eq)]
pub struct Config {
    /// Human-readable name advertised to peers.
    pub device_name: String,
    /// TCP port the daemon listens on.
    pub port: u16,
    /// Clipboard sync master switch.
    pub sync_clipboard: bool,
    /// Whether images (not just text) sync via the clipboard.
    pub sync_images: bool,
    /// Largest clipboard payload to sync inline, in bytes.
    pub max_clipboard_bytes: u64,
    /// Prompt before accepting an incoming file.
    pub require_confirm: bool,
    /// Default log filter when `--verbose` is not passed.
    pub log_filter: String,
}

/// The defaults, for a given device name.
pub open spec fn default_config(device_name: Seq<char>, c: Config) -> bool {
    &&& c.device_name@ == device_name
    &&& c.port == DEFAULT_PORT
    &&& c.sync_clipboard
    &&& c.sync_images
    &&& c.max_clipboard_bytes == DEFAULT_MAX_CLIPBOARD_BYTES
    &&& !c.require_confirm
    &&& c.log_filter@ == seq!['i', 'n', 'f', 'o']
}

/// `"qdrop-device"`, the name used when nothing better is known.
pub open spec fn fallback_name() -> Seq<char> {
    seq!['q', 'd', 'r', 'o', 'p', '-', 'd', 'e', 'v', 'i', 'c', 'e']
}

/// The default device name: `QDROP_DEVICE_NAME` when set and non-empty,
/// else the trimmed output of `hostname` when that is non-empty, else
/// `qdrop-device`.
pub open spec fn spec_device_name(env_name: Option<String>, hostname_output: Option<String>) -> Seq<char> {
    if env_name matches Some(n) && n@.len() > 0 {
        env_name->0@
    } else if hostname_output matches Some(h) && trim(h@).len() > 0 {
        trim(hostname_output->0@)
    } else {
        fallback_name()
    }
}

/// Pick the default device name from `QDROP_DEVICE_NAME` and the output of
/// the `hostname` command (when it ran successfully).
pub fn default_device_name(env_name: Option<String>, hostname_output: Option<String>) -> (r: String)
    ensures r@ == spec_device_name(env_name, hostname_output),
{
    let ghost (e0, h0) = (env_name, hostname_output);
    if let Some(n) = env_name {
        if chars_of(n.as_str()).len() > 0 {
            return n;
        }
    }
    if let Some(h) = hostname_output {
        let v = chars_of(h.as_str());
        let (lo, hi) = trim_bounds(v.as_slice());
        if lo < hi {
            return string_from(slice_chars(v.as_slice(), lo, hi).as_slice());
        }
    }
    let f: [char; 12] = ['q', 'd', 'r', 'o', 'p', '-', 'd', 'e', 'v', 'i', 'c', 'e'];
    proof { assert(f@ =~= fallback_name()); }
    string_from(f.as_slice())
}

impl Config {
    /// The default configuration for a device called `device_name`.
    pub fn with_device_name(device_name: String) -> (c: Config)
        ensures default_config(device_name@, c),
    {
        let info: [char; 4] = ['i', 'n', 'f', 'o'];
        proof { assert(info@ =~= seq!['i', 'n', 'f', 'o']); }
        Config {
            device_name,
            port: DEFAULT_PORT,
            sync_clipboard: true,
            sync_images: true,
            max_clipboard_bytes: DEFAULT_MAX_CLIPBOARD_BYTES,
            require_confirm: false,
            log_filter: string_from(info.as_slice()),
        }
    }

    /// Load semantics of `config.toml`: the parsed file, or the defaults for
    /// `device_name` when there is no file; a malformed or unreadable file is
    /// an error.
    pub fn load(read: FileRead<Config>, device_name: String) -> (r: Result<Config, LoadError>)
        ensures
            read is Missing ==> (r matches Ok(c) && default_config(device_name@, c)),
            read matches FileRead::Parsed(c) ==> r == Ok::<Config, LoadError>(c),
            read matches FileRead::Invalid(e) ==> r == Err::<Config, LoadError>(LoadError::Parse(e)),
            read matches FileRead::Unreadable(e) ==> r == Err::<Config, LoadError>(LoadError::Read(e)),
    {
        let fallback = Config::with_device_name(device_name);
        load_with(read, fallback)
    }
}

/// How incoming files and links from a peer are gated.
#[derive(Debug, Clone, Copy, PartialEq, Eq, Structural)]
pub enum ConfirmPolicy {
    /// Accept directly from every paired peer.
    Off,
    /// Hold transfers from peers that are not pre-authorized.
    On,
    /// Hold transfers from every peer, authorized or not.
    Strict,
}

impl ConfirmPolicy {
    /// The policy a boolean `require_confirm` setting stands for.
    pub fn from_flag(require_confirm: bool) -> (p: ConfirmPolicy)
        ensures p == (if require_confirm { ConfirmPolicy::On } else { ConfirmPolicy::Off }),
    {
        if require_confirm { ConfirmPolicy::On } else { ConfirmPolicy::Off }
    }
}

/// Whether a transfer from a peer must wait for confirmation.
pub open spec fn spec_needs_confirm(policy: ConfirmPolicy, peer_authorized: bool) -> bool {
    match policy {
        ConfirmPolicy::Off => false,
        ConfirmPolicy::On => !peer_authorized,
        ConfirmPolicy::Strict => true,
    }
}

/// Whether a transfer from a peer (authorized or not) must wait for
/// confirmation under `policy`.
pub fn needs_confirm(policy: ConfirmPolicy, peer_authorized: bool) -> (b: bool)
    ensures b == spec_needs_confirm(policy, peer_authorized),
{
    match policy {
        ConfirmPolicy::Off => false,
        ConfirmPolicy::On => !peer_authorized,
        ConfirmPolicy::Strict => true,
    }
}

} // verus!
