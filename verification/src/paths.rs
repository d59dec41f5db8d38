//! Filesystem locations qdrop uses, resolved from the environment the
//! caller read. Config lives under `~/.config/qdrop/` on every platform;
//! `QDROP_CONFIG_DIR` overrides everything so tests stay hermetic.

use vstd::prelude::*;
use crate::text::{chars_of, string_from};

verus! {

/// Unix path join (`Path::join` with a relative piece): the piece alone
/// when the base is empty, otherwise base, a `/` unless the base already
/// ends in one, and the piece.
pub open spec fn join_spec(base: Seq<char>, piece: Seq<char>) -> Seq<char> {
    if base.len() == 0 {
        piece
    } else if base.last() == '/' {
        base + piece
    } else {
        base.push('/') + piece
    }
}

/// Join a relative piece onto a directory path.
pub fn join(base: &str, piece: &str) -> (r: String)
    ensures r@ == join_spec(base@, piece@),
{
    let mut v = chars_of(base);
    let p = chars_of(piece);
    if v.len() > 0 && v[v.len() - 1] != '/' {
        v.push('/');
    }
    let mut i: usize = 0;
    let ghost v0 = v@;
    while i < p.len()
        invariant
            i <= p@.len(),
            v@ == v0 + p@.subrange(0, i as int),
        decreases p@.len() - i,
    {
        v.push(p[i]);
        i += 1;
        proof { assert(v@ =~= v0 + p@.subrange(0, i as int)); }
    }
    proof {
        assert(p@.subrange(0, p@.len() as int) =~= p@);
        if base@.len() == 0 { assert(v@ =~= piece@); }
    }
    string_from(v.as_slice())
}

/// No directory could be resolved from the environment.
#[derive(Debug, Clone, PartialEq, Eq)]
pub enum PathsError {
    /// Neither `QDROP_CONFIG_DIR`, `XDG_CONFIG_HOME`, nor `HOME` is set.
    NoConfigHome,
    /// `HOME` is not set.
    NoHome,
    /// The path has no parent directory.
    NoParent,
}

/// A set, non-empty environment value.
pub open spec fn nonempty(v: Option<String>) -> bool {
    v matches Some(s) && s@.len() > 0
}

/// Whether an optional environment value is set and non-empty.
pub fn is_nonempty(v: &Option<String>) -> (b: bool)
    ensures b == nonempty(*v),
{
    match v {
        Some(s) => chars_of(s.as_str()).len() > 0,
        None => false,
    }
}

/// The directory holding `config.toml` and `peers.toml`:
/// `QDROP_CONFIG_DIR` when set (even if empty), else
/// `$XDG_CONFIG_HOME/qdrop`, else `$HOME/.config/qdrop`.
pub open spec fn config_dir_spec(qdrop_dir: Option<String>, xdg: Option<String>, home: Option<String>) -> Result<Seq<char>, PathsError> {
    if qdrop_dir is Some {
        Ok(qdrop_dir->0@)
    } else if nonempty(xdg) {
        Ok(join_spec(xdg->0@, seq!['q', 'd', 'r', 'o', 'p']))
    } else if nonempty(home) {
        Ok(join_spec(join_spec(home->0@, seq!['.', 'c', 'o', 'n', 'f', 'i', 'g']), seq!['q', 'd', 'r', 'o', 'p']))
    } else {
        Err(PathsError::NoConfigHome)
    }
}

/// Resolve the config directory from the values of `QDROP_CONFIG_DIR`,
/// `XDG_CONFIG_HOME` and `HOME`.
pub fn config_dir(qdrop_dir: Option<String>, xdg: Option<String>, home: Option<String>) -> (r: Result<String, PathsError>)
    ensures
        match r {
            Ok(s) => config_dir_spec(qdrop_dir, xdg, home) == Ok::<Seq<char>, PathsError>(s@),
            Err(e) => config_dir_spec(qdrop_dir, xdg, home) == Err::<Seq<char>, PathsError>(e),
        },
{
    let ghost (q0, x0, h0) = (qdrop_dir, xdg, home);
    if let Some(d) = qdrop_dir {
        return Ok(d);
    }
    if is_nonempty(&xdg) {
        let x = xdg.unwrap();
        let q: [char; 5] = ['q', 'd', 'r', 'o', 'p'];
        let qs = string_from(q.as_slice());
        proof { assert(q@ =~= seq!['q', 'd', 'r', 'o', 'p']); }
        return Ok(join(x.as_str(), qs.as_str()));
    }
    if is_nonempty(&home) {
        let h = home.unwrap();
        let c: [char; 7] = ['.', 'c', 'o', 'n', 'f', 'i', 'g'];
        let q: [char; 5] = ['q', 'd', 'r', 'o', 'p'];
        let cs = string_from(c.as_slice());
        let qs = string_from(q.as_slice());
        proof {
            assert(c@ =~= seq!['.', 'c', 'o', 'n', 'f', 'i', 'g']);
            assert(q@ =~= seq!['q', 'd', 'r', 'o', 'p']);
        }
        let base = join(h.as_str(), cs.as_str());
        return Ok(join(base.as_str(), qs.as_str()));
    }
    Err(PathsError::NoConfigHome)
}

/// `<config dir>/<name>` for one of qdrop's files.
fn config_child(dir: &str, name: &[char]) -> (r: String)
    ensures r@ == join_spec(dir@, name@),
{
    let n = string_from(name);
    join(dir, n.as_str())
}

/// Path to the main config file, `<config dir>/config.toml`.
pub fn config_file(config_dir: &str) -> (r: String)
    ensures r@ == join_spec(config_dir@, seq!['c', 'o', 'n', 'f', 'i', 'g', '.', 't', 'o', 'm', 'l']),
{
    let n: [char; 11] = ['c', 'o', 'n', 'f', 'i', 'g', '.', 't', 'o', 'm', 'l'];
    proof { assert(n@ =~= seq!['c', 'o', 'n', 'f', 'i', 'g', '.', 't', 'o', 'm', 'l']); }
    config_child(config_dir, n.as_slice())
}

/// Path to the paired-peer registry, `<config dir>/peers.toml`.
pub fn peers_file(config_dir: &str) -> (r: String)
    ensures r@ == join_spec(config_dir@, seq!['p', 'e', 'e', 'r', 's', '.', 't', 'o', 'm', 'l']),
{
    let n: [char; 10] = ['p', 'e', 'e', 'r', 's', '.', 't', 'o', 'm', 'l'];
    proof { assert(n@ =~= seq!['p', 'e', 'e', 'r', 's', '.', 't', 'o', 'm', 'l']); }
    config_child(config_dir, n.as_slice())
}

/// Path to the long-term identity key, `<config dir>/identity.pem`.
pub fn identity_file(config_dir: &str) -> (r: String)
    ensures r@ == join_spec(config_dir@, seq!['i', 'd', 'e', 'n', 't', 'i', 't', 'y', '.', 'p', 'e', 'm']),
{
    let n: [char; 12] = ['i', 'd', 'e', 'n', 't', 'i', 't', 'y', '.', 'p', 'e', 'm'];
    proof { assert(n@ =~= seq!['i', 'd', 'e', 'n', 't', 'i', 't', 'y', '.', 'p', 'e', 'm']); }
    config_child(config_dir, n.as_slice())
}

/// Path to the daemon's live-status file, `<config dir>/state.json`.
pub fn state_file(config_dir: &str) -> (r: String)
    ensures r@ == join_spec(config_dir@, seq!['s', 't', 'a', 't', 'e', '.', 'j', 's', 'o', 'n']),
{
    let n: [char; 10] = ['s', 't', 'a', 't', 'e', '.', 'j', 's', 'o', 'n'];
    proof { assert(n@ =~= seq!['s', 't', 'a', 't', 'e', '.', 'j', 's', 'o', 'n']); }
    config_child(config_dir, n.as_slice())
}

/// Path to the persisted device id, `<config dir>/device_id`.
pub fn device_id_file(config_dir: &str) -> (r: String)
    ensures r@ == join_spec(config_dir@, seq!['d', 'e', 'v', 'i', 'c', 'e', '_', 'i', 'd']),
{
    let n: [char; 9] = ['d', 'e', 'v', 'i', 'c', 'e', '_', 'i', 'd'];
    proof { assert(n@ =~= seq!['d', 'e', 'v', 'i', 'c', 'e', '_', 'i', 'd']); }
    config_child(config_dir, n.as_slice())
}

/// Directory holding the clipboard history, `<config dir>/history`.
pub fn history_dir(config_dir: &str) -> (r: String)
    ensures r@ == join_spec(config_dir@, seq!['h', 'i', 's', 't', 'o', 'r', 'y']),
{
    let n: [char; 7] = ['h', 'i', 's', 't', 'o', 'r', 'y'];
    proof { assert(n@ =~= seq!['h', 'i', 's', 't', 'o', 'r', 'y']); }
    config_child(config_dir, n.as_slice())
}

/// Path to the control socket, `<dir>/qdropd.sock`.
fn sock_in(dir: &str) -> (r: String)
    ensures r@ == join_spec(dir@, seq!['q', 'd', 'r', 'o', 'p', 'd', '.', 's', 'o', 'c', 'k']),
{
    let n: [char; 11] = ['q', 'd', 'r', 'o', 'p', 'd', '.', 's', 'o', 'c', 'k'];
    proof { assert(n@ =~= seq!['q', 'd', 'r', 'o', 'p', 'd', '.', 's', 'o', 'c', 'k']); }
    config_child(dir, n.as_slice())
}

/// The control socket: `QDROP_CONTROL_SOCK` when set and non-empty, else
/// `$XDG_RUNTIME_DIR/qdropd.sock` when that is set and non-empty, else
/// `<config dir>/qdropd.sock`.
pub open spec fn socket_path_spec(sock: Option<String>, runtime: Option<String>, config_dir: Seq<char>) -> Seq<char> {
    if nonempty(sock) {
        sock->0@
    } else if nonempty(runtime) {
        join_spec(runtime->0@, seq!['q', 'd', 'r', 'o', 'p', 'd', '.', 's', 'o', 'c', 'k'])
    } else {
        join_spec(config_dir, seq!['q', 'd', 'r', 'o', 'p', 'd', '.', 's', 'o', 'c', 'k'])
    }
}

/// Resolve the control socket from `QDROP_CONTROL_SOCK`, `XDG_RUNTIME_DIR`
/// and the config directory.
pub fn socket_path(sock: Option<String>, runtime: Option<String>, config_dir: &str) -> (r: String)
    ensures r@ == socket_path_spec(sock, runtime, config_dir@),
{
    let ghost (s0, r0) = (sock, runtime);
    if is_nonempty(&sock) {
        return sock.unwrap();
    }
    if is_nonempty(&runtime) {
        let d = runtime.unwrap();
        return sock_in(d.as_str());
    }
    sock_in(config_dir)
}

/// Incoming files land in `QDROP_DOWNLOAD_DIR` when set, else
/// `$HOME/Downloads/qdrop`.
pub open spec fn downloads_dir_spec(download_dir: Option<String>, home: Option<String>) -> Result<Seq<char>, PathsError> {
    if download_dir is Some {
        Ok(download_dir->0@)
    } else if nonempty(home) {
        Ok(join_spec(join_spec(home->0@, seq!['D', 'o', 'w', 'n', 'l', 'o', 'a', 'd', 's']), seq!['q', 'd', 'r', 'o', 'p']))
    } else {
        Err(PathsError::NoHome)
    }
}

/// Resolve the downloads directory from `QDROP_DOWNLOAD_DIR` and `HOME`.
pub fn downloads_dir(download_dir: Option<String>, home: Option<String>) -> (r: Result<String, PathsError>)
    ensures
        match r {
            Ok(s) => downloads_dir_spec(download_dir, home) == Ok::<Seq<char>, PathsError>(s@),
            Err(e) => downloads_dir_spec(download_dir, home) == Err::<Seq<char>, PathsError>(e),
        },
{
    let ghost (d0, h0) = (download_dir, home);
    if let Some(d) = download_dir {
        return Ok(d);
    }
    if is_nonempty(&home) {
        let h = home.unwrap();
        let dl: [char; 9] = ['D', 'o', 'w', 'n', 'l', 'o', 'a', 'd', 's'];
        let q: [char; 5] = ['q', 'd', 'r', 'o', 'p'];
        proof {
            assert(dl@ =~= seq!['D', 'o', 'w', 'n', 'l', 'o', 'a', 'd', 's']);
            assert(q@ =~= seq!['q', 'd', 'r', 'o', 'p']);
        }
        let base = config_child(h.as_str(), dl.as_slice());
        return Ok(config_child(base.as_str(), q.as_slice()));
    }
    Err(PathsError::NoHome)
}

} // verus!
