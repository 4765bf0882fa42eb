//! SSH/SFTP folders mounted through sshfs: which mounts are acceptable, the
//! remote spec and the command line passed to sshfs, and the messages the
//! user sees. Running sshfs and touching the file system happen outside the
//! library.

use vstd::prelude::*;
use crate::config::SshMount;
use crate::text::{
    chars_of, concat, decimal, decimal_string, is_ascii_alnum, starts_with, str_eq, string_of,
    strings_view, trim, trim_chars,
};

verus! {

broadcast use vstd::string::group_string_axioms;

/// The sshfs `-o` options always passed: reconnect on a dropped link,
/// liveness probes, key-only authentication, symlink following, and four
/// parallel SFTP channels so a seek is not stuck behind read-ahead.
pub const SSHFS_OPTIONS: [&'static str; 6] = [
    "reconnect",
    "ServerAliveInterval=15",
    "ServerAliveCountMax=3",
    "BatchMode=yes",
    "follow_symlinks",
    "max_conns=4",
];

/// Where sshfs is looked for besides `PATH`.
pub const SSHFS_LOCATIONS: [&'static str; 3] = ["/usr/bin/sshfs", "/usr/local/bin/sshfs", "/opt/homebrew/bin/sshfs"];

/// The "sshfs missing" advice: on macOS the macFUSE route, elsewhere the
/// package manager.
pub fn not_found_message(macos: bool) -> (r: String)
    ensures
        macos ==> r@ == "sshfs was not found. On macOS: install macFUSE (brew install --cask macfuse), approve its system extension, then install a macFUSE-compatible sshfs build (brew install gromgit/fuse/sshfs-mac) and try again."@,
        !macos ==> r@ == "sshfs was not found. Install sshfs with your package manager, then try again."@,
{
    if macos {
        "sshfs was not found. On macOS: install macFUSE (brew install --cask macfuse), approve its system extension, then install a macFUSE-compatible sshfs build (brew install gromgit/fuse/sshfs-mac) and try again.".to_string()
    } else {
        "sshfs was not found. Install sshfs with your package manager, then try again.".to_string()
    }
}

/// Every character that is not an ASCII letter or digit as `_`.
pub open spec fn sanitized(s: Seq<char>) -> Seq<char> {
    s.map_values(|c: char| if is_ascii_alnum(c) { c } else { '_' })
}

pub fn sanitize(s: &str) -> (r: String)
    ensures
        r@ == sanitized(s@),
{
    let v = chars_of(s);
    let mut out: Vec<char> = Vec::new();
    let mut i: usize = 0;
    while i < v.len()
        invariant
            i <= v.len(),
            v@ == s@,
            out@ == sanitized(v@.take(i as int)),
        decreases v.len() - i,
    {
        let c = v[i];
        out.push(if crate::text::char_is_alnum(c) { c } else { '_' });
        assert(sanitized(v@.take(i + 1)) =~= sanitized(v@.take(i as int)).push(
            if is_ascii_alnum(c) { c } else { '_' },
        ));
        i += 1;
    }
    assert(v@.take(i as int) =~= v@);
    string_of(out.as_slice())
}

/// The mountpoint of an SSH mount under the mounts folder `base`.
pub open spec fn mountpoint_in(base: Seq<char>, m: SshMount) -> Seq<char> {
    crate::source::metadata::joined(
        base,
        "ssh_"@ + sanitized(m.host@) + "_"@ + sanitized(m.remote_path@) + "_"@ + m.id@,
    )
}

/// The default mountpoint of an SSH mount under the mounts folder.
pub fn default_mountpoint(base: &str, m: &SshMount) -> (r: String)
    ensures
        r@ == mountpoint_in(base@, *m),
{
    let a = concat("ssh_", sanitize(m.host.as_str()).as_str());
    let b = concat(a.as_str(), "_");
    let c = concat(b.as_str(), sanitize(m.remote_path.as_str()).as_str());
    let d = concat(c.as_str(), "_");
    let name = concat(d.as_str(), m.id.as_str());
    crate::source::metadata::join_path(base, name.as_str())
}

/// A field holding a line break.
pub open spec fn has_newline(v: Seq<char>) -> bool {
    v.contains('\n') || v.contains('\r')
}

/// Refuse a field holding a line break.
pub fn reject_newline(field: &str, value: &str) -> (r: Result<(), String>)
    ensures
        r is Err <==> has_newline(value@),
        r matches Err(m) ==> m@ == field@ + " cannot contain a newline"@,
{
    if crate::text::contains_char(value, '\n') || crate::text::contains_char(value, '\r') {
        Err(concat(field, " cannot contain a newline"))
    } else {
        Ok(())
    }
}

/// Why an SSH mount is refused, in the order the checks run.
pub open spec fn mount_error(m: SshMount) -> Option<Seq<char>> {
    if trim(m.host@).len() == 0 {
        Some("host is required"@)
    } else if trim(m.remote_path@).len() == 0 {
        Some("remote path is required"@)
    } else if m.port == 0 {
        Some("port must be between 1 and 65535"@)
    } else if has_newline(m.host@) {
        Some("host cannot contain a newline"@)
    } else if has_newline(m.username@) {
        Some("username cannot contain a newline"@)
    } else if has_newline(m.remote_path@) {
        Some("remote path cannot contain a newline"@)
    } else if has_newline(m.identity_file@) {
        Some("identity file cannot contain a newline"@)
    } else {
        None
    }
}

/// Check an SSH mount before it is mounted.
pub fn validate(m: &SshMount) -> (r: Result<(), String>)
    ensures
        match mount_error(*m) {
            Some(e) => r matches Err(msg) && msg@ == e,
            None => r is Ok,
        },
{
    if trim_chars(&chars_of(m.host.as_str())).len() == 0 {
        return Err("host is required".to_string());
    }
    if trim_chars(&chars_of(m.remote_path.as_str())).len() == 0 {
        return Err("remote path is required".to_string());
    }
    if m.port == 0 {
        return Err("port must be between 1 and 65535".to_string());
    }
    proof {
        reveal_strlit("host");
        reveal_strlit("username");
        reveal_strlit("remote path");
        reveal_strlit("identity file");
        reveal_strlit(" cannot contain a newline");
        reveal_strlit("host cannot contain a newline");
        reveal_strlit("username cannot contain a newline");
        reveal_strlit("remote path cannot contain a newline");
        reveal_strlit("identity file cannot contain a newline");
    }
    match reject_newline("host", m.host.as_str()) {
        Err(e) => return Err(e),
        Ok(()) => {},
    }
    match reject_newline("username", m.username.as_str()) {
        Err(e) => return Err(e),
        Ok(()) => {},
    }
    match reject_newline("remote path", m.remote_path.as_str()) {
        Err(e) => return Err(e),
        Ok(()) => {},
    }
    match reject_newline("identity file", m.identity_file.as_str()) {
        Err(e) => return Err(e),
        Ok(()) => {},
    }
    Ok(())
}

/// A host as ssh wants it: trimmed, an IPv6 address in brackets.
pub open spec fn bracketed_host(host: Seq<char>) -> Seq<char> {
    let h = trim(host);
    if h.contains(':') && !starts_with(h, "["@) {
        "["@ + h + "]"@
    } else {
        h
    }
}

pub fn ssh_host(host: &str) -> (r: String)
    ensures
        r@ == bracketed_host(host@),
{
    let h = string_of(trim_chars(&chars_of(host)).as_slice());
    if crate::text::contains_char(h.as_str(), ':') && !crate::text::starts_with_str(h.as_str(), "[") {
        let a = concat("[", h.as_str());
        concat(a.as_str(), "]")
    } else {
        h
    }
}

/// `user@host:path` (or `host:path` without a user), all trimmed.
pub open spec fn remote_spec_of(m: SshMount) -> Seq<char> {
    let user = trim(m.username@);
    let authority = if user.len() == 0 {
        bracketed_host(m.host@)
    } else {
        user + "@"@ + bracketed_host(m.host@)
    };
    authority + ":"@ + trim(m.remote_path@)
}

pub fn remote_spec(m: &SshMount) -> (r: String)
    ensures
        r@ == remote_spec_of(*m),
{
    let user = string_of(trim_chars(&chars_of(m.username.as_str())).as_slice());
    let host = ssh_host(m.host.as_str());
    let authority = if user.as_str().is_empty() {
        host
    } else {
        let a = concat(user.as_str(), "@");
        concat(a.as_str(), host.as_str())
    };
    let b = concat(authority.as_str(), ":");
    concat(b.as_str(), string_of(trim_chars(&chars_of(m.remote_path.as_str())).as_slice()).as_str())
}

/// The sshfs command line: remote spec, mountpoint, port, the fixed
/// options, and an identity file when one is given.
pub open spec fn mount_args_of(m: SshMount, identity: Option<Seq<char>>) -> Seq<Seq<char>> {
    seq![remote_spec_of(m), m.mountpoint@, "-p"@, decimal(m.port as nat)] + seq![
        "-o"@,
        "reconnect"@,
        "-o"@,
        "ServerAliveInterval=15"@,
        "-o"@,
        "ServerAliveCountMax=3"@,
        "-o"@,
        "BatchMode=yes"@,
        "-o"@,
        "follow_symlinks"@,
        "-o"@,
        "max_conns=4"@,
    ] + match identity {
        Some(i) => seq!["-o"@, "IdentityFile="@ + i],
        None => Seq::empty(),
    }
}

/// The arguments sshfs is run with for a mount; `identity` is the already
/// expanded identity file, when the mount names one.
pub fn mount_args(m: &SshMount, identity: Option<&str>) -> (r: Vec<String>)
    ensures
        crate::text::strings_view(r@) == mount_args_of(
            *m,
            match identity {
                Some(i) => Some(i@),
                None => None,
            },
        ),
{
    let mut args: Vec<String> = Vec::new();
    args.push(remote_spec(m));
    args.push(m.mountpoint.clone());
    args.push("-p".to_string());
    args.push(decimal_string(m.port as u64));
    args.push("-o".to_string());
    args.push("reconnect".to_string());
    args.push("-o".to_string());
    args.push("ServerAliveInterval=15".to_string());
    args.push("-o".to_string());
    args.push("ServerAliveCountMax=3".to_string());
    args.push("-o".to_string());
    args.push("BatchMode=yes".to_string());
    args.push("-o".to_string());
    args.push("follow_symlinks".to_string());
    args.push("-o".to_string());
    args.push("max_conns=4".to_string());
    match identity {
        Some(id) => {
            args.push("-o".to_string());
            args.push(concat("IdentityFile=", id));
        },
        None => {},
    }
    assert(crate::text::strings_view(args@) =~= mount_args_of(
        *m,
        match identity {
            Some(i) => Some(i@),
            None => None,
        },
    ));
    args
}

/// An identity file path sshfs's comma-separated options cannot carry.
pub fn identity_refusal(identity: &str) -> (r: Option<String>)
    ensures
        crate::text::opt_view(r) == if identity@.contains(',') {
            Some("identity file path cannot contain a comma"@)
        } else {
            None
        },
{
    if crate::text::contains_char(identity, ',') {
        Some("identity file path cannot contain a comma".to_string())
    } else {
        None
    }
}

/// A failed sshfs run's message, with how Vela authenticates.
pub fn mount_failure_message(error: &str) -> (r: String)
    ensures
        r@ == error@ + ". Vela uses SSH keys, ssh-agent, and ~/.ssh/config; it does not store SSH passwords. If this is the first connection to that host, trust the host key with ssh first."@,
{
    concat(
        error,
        ". Vela uses SSH keys, ssh-agent, and ~/.ssh/config; it does not store SSH passwords. If this is the first connection to that host, trust the host key with ssh first.",
    )
}

/// The unmount commands to try in order: `umount` on macOS; elsewhere
/// `fusermount3 -u`, `fusermount -u`, then `umount`.
pub fn unmount_commands(mountpoint: &str, macos: bool) -> (r: Vec<(String, Vec<String>)>)
    ensures
        macos ==> r@.len() == 1 && r@[0].0@ == "umount"@ && strings_view(r@[0].1@) == seq![mountpoint@],
        !macos ==> r@.len() == 3 && r@[0].0@ == "fusermount3"@ && strings_view(r@[0].1@) == seq![
            "-u"@,
            mountpoint@,
        ] && r@[1].0@ == "fusermount"@ && strings_view(r@[1].1@) == seq!["-u"@, mountpoint@]
            && r@[2].0@ == "umount"@ && strings_view(r@[2].1@) == seq![mountpoint@],
{
    let mut out: Vec<(String, Vec<String>)> = Vec::new();
    if !macos {
        let mut a: Vec<String> = Vec::new();
        a.push("-u".to_string());
        a.push(mountpoint.to_string());
        assert(strings_view(a@) =~= seq!["-u"@, mountpoint@]);
        out.push(("fusermount3".to_string(), a));
        let mut b: Vec<String> = Vec::new();
        b.push("-u".to_string());
        b.push(mountpoint.to_string());
        assert(strings_view(b@) =~= seq!["-u"@, mountpoint@]);
        out.push(("fusermount".to_string(), b));
    }
    let mut c: Vec<String> = Vec::new();
    c.push(mountpoint.to_string());
    assert(strings_view(c@) =~= seq![mountpoint@]);
    out.push(("umount".to_string(), c));
    out
}

/// Naming an identity file adds exactly the option that passes it, at the
/// end: the arguments are those without one, then `-o` and
/// `IdentityFile=` followed by the path.
pub proof fn law_identity_file_is_passed(m: SshMount, identity: Seq<char>)
    ensures
        mount_args_of(m, Some(identity)).len() == mount_args_of(m, None).len() + 2,
        mount_args_of(m, Some(identity)).take(mount_args_of(m, None).len() as int) == mount_args_of(
            m,
            None,
        ),
        mount_args_of(m, Some(identity))[mount_args_of(m, None).len() as int] == "-o"@,
        mount_args_of(m, Some(identity)).last() == "IdentityFile="@ + identity,
{
    let a = mount_args_of(m, None);
    let b = mount_args_of(m, Some(identity));
    assert(b =~= a + seq!["-o"@, "IdentityFile="@ + identity]);
    assert(b.take(a.len() as int) =~= a);
}

} // verus!
