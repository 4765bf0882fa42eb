//! SMB shares reached natively: the share URL, directory attributes, the
//! credential bytes handed to the SMB library, and user-facing error text.
//! Talking to the share itself happens outside the library.

use vstd::prelude::*;
use crate::text::{
    chars_of, concat, pieces, split_pieces, strip_char, strip_char_chars, string_of, trim,
    trim_chars,
};

verus! {

broadcast use vstd::string::group_string_axioms;

/// The DOS attribute bit marking a directory.
pub const DOS_ATTR_DIRECTORY: u16 = 0x10;

/// Whether DOS attributes mark a directory.
pub fn is_dir_attrs(attrs: u16) -> (r: bool)
    ensures
        r == (attrs & DOS_ATTR_DIRECTORY != 0),
{
    attrs & DOS_ATTR_DIRECTORY != 0
}

/// One directory entry.
#[derive(Debug, Clone)]
pub struct SmbEntry {
    pub name: String,
    pub is_dir: bool,
}

/// The `/`-prefixed pieces of a share-relative path, in order.
pub open spec fn rel_suffix(parts: Seq<Seq<char>>) -> Seq<char>
    decreases parts.len(),
{
    if parts.len() == 0 {
        Seq::empty()
    } else {
        rel_suffix(parts.drop_last()) + seq!['/'] + parts.last()
    }
}

/// `smb://server/share/a/b`: server and share trimmed of whitespace and
/// outer slashes, empty path pieces dropped. No credentials in it.
pub open spec fn smb_url_of(server: Seq<char>, share: Seq<char>, relative: Seq<char>) -> Seq<char> {
    "smb://"@ + strip_char(trim(server), '/') + "/"@ + strip_char(trim(share), '/') + rel_suffix(
        pieces(relative, '/'),
    )
}

/// The `smb://` URL of a share-relative path.
pub fn smb_url(server: &str, share: &str, relative: &str) -> (r: String)
    ensures
        r@ == smb_url_of(server@, share@, relative@),
{
    let sv = strip_char_chars(&trim_chars(&chars_of(server)), '/');
    let sh = strip_char_chars(&trim_chars(&chars_of(share)), '/');
    let a = concat("smb://", string_of(sv.as_slice()).as_str());
    let b = concat(a.as_str(), "/");
    let mut url = chars_of(concat(b.as_str(), string_of(sh.as_slice()).as_str()).as_str());
    let ghost head = url@;
    let parts = split_pieces(&chars_of(relative), '/');
    let ghost pv = parts@.map_values(|w: Vec<char>| w@);
    let mut i: usize = 0;
    while i < parts.len()
        invariant
            i <= parts.len(),
            pv == parts@.map_values(|w: Vec<char>| w@),
            url@ == head + rel_suffix(pv.take(i as int)),
        decreases parts.len() - i,
    {
        let ghost t = pv.take(i + 1);
        assert(t.drop_last() =~= pv.take(i as int));
        assert(t.last() == parts@[i as int]@);
        url.push('/');
        let p = &parts[i];
        let ghost before = url@;
        let mut k: usize = 0;
        while k < p.len()
            invariant
                k <= p.len(),
                url@ == before + p@.take(k as int),
            decreases p.len() - k,
        {
            url.push(p[k]);
            k += 1;
            assert(url@ =~= before + p@.take(k as int));
        }
        assert(p@.take(k as int) =~= p@);
        assert(url@ =~= head + rel_suffix(t));
        i += 1;
    }
    assert(pv.take(i as int) =~= pv);
    string_of(url.as_slice())
}

/// The kinds of I/O failure the user is told about in their own words.
#[derive(Debug, Clone, Copy, PartialEq, Eq, Structural)]
pub enum FailureKind {
    PermissionDenied,
    NotFound,
    TimedOut,
    HostUnreachable,
    NetworkUnreachable,
    ConnectionRefused,
    Other,
}

/// What the user is told for a failure kind; `None` keeps the system text.
pub open spec fn failure_text(kind: FailureKind) -> Option<Seq<char>> {
    match kind {
        FailureKind::PermissionDenied => Some(
            "access denied \u{2014} check the username, password, and share permissions"@,
        ),
        FailureKind::NotFound => Some("no such share or folder on the server"@),
        FailureKind::TimedOut | FailureKind::HostUnreachable | FailureKind::NetworkUnreachable => Some(
            "the server did not respond \u{2014} check the address and that it is online"@,
        ),
        FailureKind::ConnectionRefused => Some(
            "the server refused the connection \u{2014} is SMB enabled?"@,
        ),
        FailureKind::Other => None,
    }
}

/// A user-facing message naming the failed action and the condition,
/// without echoing URLs or credentials; other failures keep `system_text`.
pub fn friendly_error(action: &str, kind: FailureKind, system_text: &str) -> (r: String)
    ensures
        r@ == action@ + ": "@ + match failure_text(kind) {
            Some(t) => t,
            None => system_text@,
        },
{
    let detail: &str = match kind {
        FailureKind::PermissionDenied => "access denied \u{2014} check the username, password, and share permissions",
        FailureKind::NotFound => "no such share or folder on the server",
        FailureKind::TimedOut | FailureKind::HostUnreachable | FailureKind::NetworkUnreachable => "the server did not respond \u{2014} check the address and that it is online",
        FailureKind::ConnectionRefused => "the server refused the connection \u{2014} is SMB enabled?",
        FailureKind::Other => system_text,
    };
    let a = concat(action, ": ");
    concat(a.as_str(), detail)
}

/// The bytes written into a C buffer of `capacity` bytes: the value without
/// interior NULs, cut to leave room for the terminator, then the
/// terminator; nothing for a zero-sized buffer.
pub open spec fn cstr_bytes(value: Seq<u8>, capacity: nat) -> Seq<u8> {
    let clean = value.filter(|b: u8| b != 0);
    if capacity == 0 {
        Seq::empty()
    } else {
        let n = if clean.len() < capacity - 1 {
            clean.len() as int
        } else {
            capacity - 1
        };
        clean.take(n).push(0u8)
    }
}

/// The bytes to copy into a credential buffer of `capacity` bytes.
pub fn cstr_buffer(value: &[u8], capacity: usize) -> (r: Vec<u8>)
    ensures
        r@ == cstr_bytes(value@, capacity as nat),
{
    let mut out: Vec<u8> = Vec::new();
    if capacity == 0 {
        return out;
    }
    let ghost p = |b: u8| b != 0;
    let mut i: usize = 0;
    while i < value.len()
        invariant
            i <= value.len(),
            p == (|b: u8| b != 0),
            out@ == value@.take(i as int).filter(p),
        decreases value.len() - i,
    {
        proof {
            crate::seqs::lemma_filter_take_step(value@, p, i as int);
        }
        if value[i] != 0 {
            out.push(value[i]);
        }
        i += 1;
    }
    assert(value@.take(i as int) =~= value@);
    let ghost clean = out@;
    if out.len() > capacity - 1 {
        out.truncate(capacity - 1);
    }
    out.push(0);
    proof {
        let n = if clean.len() < capacity - 1 {
            clean.len() as int
        } else {
            capacity - 1
        };
        assert(clean.take(n) =~= if clean.len() > capacity - 1 {
            clean.take(capacity - 1)
        } else {
            clean
        });
    }
    out
}

} // verus!
