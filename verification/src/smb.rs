//! OS-level SMB mounting on macOS (`mount_smbfs`) and Windows (`net use`):
//! where a share is mounted and the command lines that mount it. Linux
//! reaches shares natively, so its teardown hooks do nothing. Running the
//! commands happens outside the library.

use vstd::prelude::*;
use crate::config::SmbMount;
use crate::sshfs::{sanitize, sanitized};
use crate::text::{concat, string_of, strings_view, words};

verus! {

broadcast use vstd::string::group_string_axioms;

/// The mountpoint of a share under the mounts folder `base` (macOS); the
/// mount id keeps shares whose names sanitize alike apart.
pub open spec fn mountpoint_in(base: Seq<char>, m: SmbMount) -> Seq<char> {
    crate::source::metadata::joined(
        base,
        sanitized(m.server@) + "_"@ + sanitized(m.share@) + "_"@ + m.id@,
    )
}

/// The default mountpoint of a share under the mounts folder (macOS).
pub fn default_mountpoint(base: &str, m: &SmbMount) -> (r: String)
    ensures
        r@ == mountpoint_in(base@, *m),
{
    let a = concat(sanitize(m.server.as_str()).as_str(), "_");
    let b = concat(a.as_str(), sanitize(m.share.as_str()).as_str());
    let c = concat(b.as_str(), "_");
    let name = concat(c.as_str(), m.id.as_str());
    crate::source::metadata::join_path(base, name.as_str())
}

/// The UNC path of a share (Windows).
pub fn unc_mountpoint(m: &SmbMount) -> (r: String)
    ensures
        r@ == "\\\\"@ + m.server@ + "\\"@ + m.share@,
{
    let a = concat("\\\\", m.server.as_str());
    let b = concat(a.as_str(), "\\");
    concat(b.as_str(), m.share.as_str())
}

/// A byte that stays as it is in a URL authority.
pub open spec fn unreserved(b: u8) -> bool {
    (65 <= b <= 90) || (97 <= b <= 122) || (48 <= b <= 57) || b == 45 || b == 95 || b == 46
        || b == 126
}

/// An upper-case hexadecimal digit.
pub open spec fn hex_digit(d: int) -> char {
    if d < 10 {
        crate::text::digit_char(d)
    } else if d == 10 {
        'A'
    } else if d == 11 {
        'B'
    } else if d == 12 {
        'C'
    } else if d == 13 {
        'D'
    } else if d == 14 {
        'E'
    } else {
        'F'
    }
}

/// Percent-encoding of bytes for a URL authority: unreserved bytes as
/// themselves, every other byte as `%XX`.
pub open spec fn pct_bytes(bs: Seq<u8>) -> Seq<char>
    decreases bs.len(),
{
    if bs.len() == 0 {
        Seq::empty()
    } else {
        let b = bs.last();
        pct_bytes(bs.drop_last()) + if unreserved(b) {
            seq![b as char]
        } else {
            seq!['%', hex_digit(b as int / 16), hex_digit(b as int % 16)]
        }
    }
}

fn hex_of(d: u8) -> (c: char)
    requires
        d < 16,
    ensures
        c == hex_digit(d as int),
{
    if d < 10 {
        if d == 0 {
            '0'
        } else if d == 1 {
            '1'
        } else if d == 2 {
            '2'
        } else if d == 3 {
            '3'
        } else if d == 4 {
            '4'
        } else if d == 5 {
            '5'
        } else if d == 6 {
            '6'
        } else if d == 7 {
            '7'
        } else if d == 8 {
            '8'
        } else {
            '9'
        }
    } else if d == 10 {
        'A'
    } else if d == 11 {
        'B'
    } else if d == 12 {
        'C'
    } else if d == 13 {
        'D'
    } else if d == 14 {
        'E'
    } else {
        'F'
    }
}

/// Percent-encode a credential component for a `mount_smbfs` URL.
pub fn pct(s: &str) -> (r: String)
    ensures
        r@ == pct_bytes(vstd::utf8::encode_utf8(s@)),
{
    let bs = s.as_bytes();
    let mut out: Vec<char> = Vec::new();
    let mut i: usize = 0;
    while i < bs.len()
        invariant
            i <= bs.len(),
            bs@ == vstd::utf8::encode_utf8(s@),
            out@ == pct_bytes(bs@.take(i as int)),
        decreases bs.len() - i,
    {
        let b = bs[i];
        let ghost before = out@;
        assert(bs@.take(i + 1).drop_last() =~= bs@.take(i as int));
        assert(bs@.take(i + 1).last() == b);
        if (65 <= b && b <= 90) || (97 <= b && b <= 122) || (48 <= b && b <= 57) || b == 45 || b
            == 95 || b == 46 || b == 126 {
            out.push(b as char);
            assert(out@ =~= before + seq![b as char]);
        } else {
            out.push('%');
            out.push(hex_of(b / 16));
            out.push(hex_of(b % 16));
            assert(out@ =~= before + seq!['%', hex_digit(b as int / 16), hex_digit(b as int % 16)]);
        }
        i += 1;
    }
    assert(bs@.take(i as int) =~= bs@);
    string_of(out.as_slice())
}

/// The `mount_smbfs` URL: `//server/share` for a guest, else with
/// `[domain;]user[:password]@`, each part percent-encoded.
pub open spec fn smbfs_url_of(m: SmbMount) -> Seq<char> {
    if m.username@.len() == 0 {
        "//"@ + m.server@ + "/"@ + m.share@
    } else {
        let domain = if m.domain@.len() == 0 {
            Seq::empty()
        } else {
            pct_bytes(vstd::utf8::encode_utf8(m.domain@)) + ";"@
        };
        let password = if m.password@.len() == 0 {
            Seq::empty()
        } else {
            ":"@ + pct_bytes(vstd::utf8::encode_utf8(m.password@))
        };
        "//"@ + domain + pct_bytes(vstd::utf8::encode_utf8(m.username@)) + password + "@"@ + m.server@
            + "/"@ + m.share@
    }
}

/// The share URL handed to `mount_smbfs` (macOS).
pub fn smbfs_url(m: &SmbMount) -> (r: String)
    ensures
        r@ == smbfs_url_of(*m),
{
    proof {
        reveal_strlit("");
    }
    if m.username.as_str().is_empty() {
        let a = concat("//", m.server.as_str());
        let b = concat(a.as_str(), "/");
        return concat(b.as_str(), m.share.as_str());
    }
    let domain = if m.domain.as_str().is_empty() {
        "".to_string()
    } else {
        concat(pct(m.domain.as_str()).as_str(), ";")
    };
    let password = if m.password.as_str().is_empty() {
        "".to_string()
    } else {
        concat(":", pct(m.password.as_str()).as_str())
    };
    let a = concat("//", domain.as_str());
    let b = concat(a.as_str(), pct(m.username.as_str()).as_str());
    let c = concat(b.as_str(), password.as_str());
    let d = concat(c.as_str(), "@");
    let e = concat(d.as_str(), m.server.as_str());
    let f = concat(e.as_str(), "/");
    concat(f.as_str(), m.share.as_str())
}

/// The `net use` arguments mounting a share (Windows): the UNC path, then
/// for a named user the password (when there is one) and `/user:` with the
/// optional domain.
pub open spec fn net_use_args_of(m: SmbMount) -> Seq<Seq<char>> {
    let base = seq!["use"@, m.mountpoint@];
    if m.username@.len() == 0 {
        base
    } else {
        let user = if m.domain@.len() == 0 {
            m.username@
        } else {
            m.domain@ + "\\"@ + m.username@
        };
        base + (if m.password@.len() == 0 {
            Seq::empty()
        } else {
            seq![m.password@]
        }) + seq!["/user:"@ + user]
    }
}

pub fn net_use_args(m: &SmbMount) -> (r: Vec<String>)
    ensures
        strings_view(r@) == net_use_args_of(*m),
{
    let mut args: Vec<String> = Vec::new();
    args.push("use".to_string());
    args.push(m.mountpoint.clone());
    if !m.username.as_str().is_empty() {
        if !m.password.as_str().is_empty() {
            args.push(m.password.clone());
        }
        let user = if m.domain.as_str().is_empty() {
            m.username.clone()
        } else {
            let a = concat(m.domain.as_str(), "\\");
            concat(a.as_str(), m.username.as_str())
        };
        args.push(concat("/user:", user.as_str()));
    }
    assert(strings_view(args@) =~= net_use_args_of(*m));
    args
}

/// `net use /delete` output naming error 2250 (the connection is already
/// gone) as a token of its own.
pub open spec fn already_gone_text(msg: Seq<char>) -> bool {
    words(msg).contains("2250"@)
}

pub fn already_gone(msg: &str) -> (r: bool)
    ensures
        r == already_gone_text(msg@),
{
    let ws = crate::text::split_words(&crate::text::chars_of(msg));
    let ghost wv = ws@.map_values(|w: Vec<char>| w@);
    let mut i: usize = 0;
    while i < ws.len()
        invariant
            i <= ws.len(),
            wv == ws@.map_values(|w: Vec<char>| w@),
            wv == words(msg@),
            forall|k: int| 0 <= k < i ==> wv[k] != "2250"@,
        decreases ws.len() - i,
    {
        assert(wv[i as int] == ws@[i as int]@);
        if crate::text::str_eq(string_of(ws[i].as_slice()).as_str(), "2250") {
            assert(wv[i as int] == "2250"@);
            return true;
        }
        i += 1;
    }
    false
}

/// Linux reaches shares natively: there is no OS mount to take down.
pub fn unmount(mountpoint: &str) -> (r: Result<(), String>)
    ensures
        r is Ok,
{
    Ok(())
}

} // verus!
