//! The local family (plain folders plus SMB/SSH mounts): source ids, how the
//! settings group into sources, and the filename rules that turn a folder
//! tree into movies, shows, seasons and episodes.
//!
//! Paths here are `/`-separated strings; a path's file name is its last
//! non-empty component.

use vstd::prelude::*;
use crate::config::{AppConfig, LocalFolder};
use crate::source::{namespace_key, namespaced, ItemDto, ItemView};
use crate::text::{
    all_digits, chars_of, concat, is_digit, is_ws, join, join_words, lower, lower_chars, split_once,
    parse_u32, parse_u32_chars, split_words, starts_with, str_eq, string_of, strings_view, trim,
    trim_chars, words, first_index, find_char, slice_chars,
};

verus! {

broadcast use vstd::string::group_string_axioms;

/// Id of the plain local-folders source.
pub const LOCAL_SOURCE_ID: &'static str = "local";

/// Source id of an SMB mount's source.
pub fn smb_source_id(mount_id: &str) -> (r: String)
    ensures
        r@ == "smb-"@ + mount_id@,
{
    concat("smb-", mount_id)
}

/// Source id of an SSH mount's source.
pub fn ssh_source_id(mount_id: &str) -> (r: String)
    ensures
        r@ == "ssh-"@ + mount_id@,
{
    concat("ssh-", mount_id)
}

/// Ids owned by the local family: the plain local source or a per-mount
/// SMB/SSH source.
pub open spec fn local_family_id(id: Seq<char>) -> bool {
    id == "local"@ || starts_with(id, "smb-"@) || starts_with(id, "ssh-"@)
}

/// True for ids owned by the local family; these are managed through folder
/// and mount entries, never removed as free-standing sources.
pub fn is_local_family_id(id: &str) -> (r: bool)
    ensures
        r == local_family_id(id@),
{
    str_eq(id, LOCAL_SOURCE_ID) || crate::text::starts_with_str(id, "smb-")
        || crate::text::starts_with_str(id, "ssh-")
}

/// Every mount's source id is in the local family.
pub proof fn law_mount_ids_are_local_family(mount_id: Seq<char>)
    ensures
        local_family_id("smb-"@ + mount_id),
        local_family_id("ssh-"@ + mount_id),
{
    let a = "smb-"@ + mount_id;
    let b = "ssh-"@ + mount_id;
    assert(a.take("smb-"@.len() as int) =~= "smb-"@);
    assert(b.take("ssh-"@.len() as int) =~= "ssh-"@);
}

// ---- grouping the settings into sources ---------------------------------------

/// One member of the local family, ready to register.
#[derive(Debug, Clone)]
pub struct LocalFamilyMember {
    pub id: String,
    pub name: String,
    pub kind: &'static str,
    pub folders: Vec<LocalFolder>,
}

/// The abstract content of a [`LocalFamilyMember`].
pub struct MemberView {
    pub id: Seq<char>,
    pub name: Seq<char>,
    pub kind: Seq<char>,
    pub folders: Seq<LocalFolder>,
}

impl View for LocalFamilyMember {
    type V = MemberView;

    open spec fn view(&self) -> MemberView {
        MemberView { id: self.id@, name: self.name@, kind: self.kind@, folders: self.folders@ }
    }
}

pub open spec fn members_view(v: Seq<LocalFamilyMember>) -> Seq<MemberView> {
    v.map_values(|m: LocalFamilyMember| m@)
}

/// A folder root that may be browsed.
pub open spec fn safe(f: LocalFolder, unsafe_roots: Seq<Seq<char>>) -> bool {
    !unsafe_roots.contains(f.path@)
}

/// Plain folders: not owned by an SSH mount, and safe.
pub open spec fn plain_folders(
    folders: Seq<LocalFolder>,
    ssh_ids: Seq<Seq<char>>,
    unsafe_roots: Seq<Seq<char>>,
) -> Seq<LocalFolder> {
    folders.filter(|f: LocalFolder| !ssh_ids.contains(f.id@) && safe(f, unsafe_roots))
}

fn copy_folder(f: &LocalFolder) -> (r: LocalFolder)
    ensures
        r == *f,
{
    LocalFolder { id: f.id.clone(), name: f.name.clone(), path: f.path.clone(), kind: f.kind.clone() }
}

fn contains_string(v: &Vec<String>, s: &str) -> (r: bool)
    ensures
        r == strings_view(v@).contains(s@),
{
    let ghost sv = strings_view(v@);
    let mut i: usize = 0;
    while i < v.len()
        invariant
            i <= v.len(),
            sv == strings_view(v@),
            forall|k: int| 0 <= k < i ==> sv[k] != s@,
        decreases v.len() - i,
    {
        assert(sv[i as int] == v@[i as int]@);
        if str_eq(v[i].as_str(), s) {
            return true;
        }
        i += 1;
    }
    false
}

fn safe_folders(v: Vec<LocalFolder>, unsafe_roots: &Vec<String>) -> (r: Vec<LocalFolder>)
    ensures
        r@ == v@.filter(|f: LocalFolder| safe(f, strings_view(unsafe_roots@))),
{
    let ghost u = strings_view(unsafe_roots@);
    let ghost p = |f: LocalFolder| safe(f, u);
    let mut out: Vec<LocalFolder> = Vec::new();
    let mut i: usize = 0;
    while i < v.len()
        invariant
            i <= v.len(),
            u == strings_view(unsafe_roots@),
            p == (|f: LocalFolder| safe(f, u)),
            out@ == v@.take(i as int).filter(p),
        decreases v.len() - i,
    {
        proof {
            crate::seqs::lemma_filter_take_step(v@, p, i as int);
        }
        if !contains_string(unsafe_roots, v[i].path.as_str()) {
            out.push(copy_folder(&v[i]));
        }
        i += 1;
    }
    assert(v@.take(i as int) =~= v@);
    out
}

/// Group the settings into local-family members: the plain folders (minus
/// the ones SSH mounts own) under "local"/"Local", then one source per SMB
/// mount and one per SSH mount, named after the mount. `smb_folders[i]` and
/// `ssh_folders[i]` are what mount `i` resolves to; every folder whose root
/// is in `unsafe_roots` is dropped, and members left with no folder are
/// omitted.
pub fn local_family(
    cfg: &AppConfig,
    smb_folders: Vec<Vec<LocalFolder>>,
    ssh_folders: Vec<Option<LocalFolder>>,
    unsafe_roots: &Vec<String>,
) -> (r: Vec<LocalFamilyMember>)
    requires
        smb_folders.len() == cfg.smb_mounts.len(),
        ssh_folders.len() == cfg.ssh_mounts.len(),
    ensures
        members_view(r@) == plain_member(cfg, strings_view(unsafe_roots@)) + smb_members(
            cfg.smb_mounts@,
            smb_folders@,
            strings_view(unsafe_roots@),
        ) + ssh_members(cfg.ssh_mounts@, ssh_folders@, strings_view(unsafe_roots@)),
{
    let ghost u = strings_view(unsafe_roots@);
    let mut ssh_ids: Vec<String> = Vec::new();
    let mut i: usize = 0;
    while i < cfg.ssh_mounts.len()
        invariant
            i <= cfg.ssh_mounts.len(),
            strings_view(ssh_ids@) == ssh_owned(cfg.ssh_mounts@).take(i as int),
        decreases cfg.ssh_mounts.len() - i,
    {
        let ghost before = strings_view(ssh_ids@);
        assert(ssh_owned(cfg.ssh_mounts@)[i as int] == cfg.ssh_mounts@[i as int].local_folder_id@);
        ssh_ids.push(cfg.ssh_mounts[i].local_folder_id.clone());
        assert(strings_view(ssh_ids@) =~= before.push(cfg.ssh_mounts@[i as int].local_folder_id@));
        assert(ssh_owned(cfg.ssh_mounts@).take(i + 1) =~= ssh_owned(cfg.ssh_mounts@).take(i as int).push(
            cfg.ssh_mounts@[i as int].local_folder_id@,
        ));
        i += 1;
    }
    assert(ssh_owned(cfg.ssh_mounts@).take(i as int) =~= ssh_owned(cfg.ssh_mounts@));
    let ghost ids = ssh_owned(cfg.ssh_mounts@);
    let ghost p = |f: LocalFolder| !ids.contains(f.id@) && safe(f, u);
    let mut plain: Vec<LocalFolder> = Vec::new();
    let mut k: usize = 0;
    while k < cfg.local_folders.len()
        invariant
            k <= cfg.local_folders.len(),
            strings_view(ssh_ids@) == ids,
            u == strings_view(unsafe_roots@),
            p == (|f: LocalFolder| !ids.contains(f.id@) && safe(f, u)),
            plain@ == cfg.local_folders@.take(k as int).filter(p),
        decreases cfg.local_folders.len() - k,
    {
        proof {
            crate::seqs::lemma_filter_take_step(cfg.local_folders@, p, k as int);
        }
        let f = &cfg.local_folders[k];
        if !contains_string(&ssh_ids, f.id.as_str()) && !contains_string(unsafe_roots, f.path.as_str()) {
            plain.push(copy_folder(f));
        }
        k += 1;
    }
    assert(cfg.local_folders@.take(k as int) =~= cfg.local_folders@);
    let mut members: Vec<LocalFamilyMember> = Vec::new();
    if plain.len() > 0 {
        members.push(
            LocalFamilyMember {
                id: LOCAL_SOURCE_ID.to_string(),
                name: "Local".to_string(),
                kind: "local",
                folders: plain,
            },
        );
    }
    assert(members_view(members@) =~= plain_member(cfg, u));
    let ghost base = members_view(members@);
    let mut smb_left = smb_folders;
    let mut m: usize = 0;
    while m < cfg.smb_mounts.len()
        invariant
            m <= cfg.smb_mounts.len(),
            smb_folders.len() == cfg.smb_mounts.len(),
            smb_left.len() == cfg.smb_mounts.len() - m,
            smb_left@ == smb_folders@.skip(m as int),
            u == strings_view(unsafe_roots@),
            members_view(members@) == base + smb_members(
                cfg.smb_mounts@.take(m as int),
                smb_folders@.take(m as int),
                u,
            ),
        decreases cfg.smb_mounts.len() - m,
    {
        let ghost fm = smb_folders@[m as int];
        assert(smb_folders@.skip(m as int)[0] == fm);
        let taken = smb_left.remove(0);
        assert(smb_left@ =~= smb_folders@.skip(m + 1));
        let folders = safe_folders(taken, unsafe_roots);
        let mount = &cfg.smb_mounts[m];
        let ghost before = members_view(members@);
        if folders.len() > 0 {
            members.push(
                LocalFamilyMember {
                    id: smb_source_id(mount.id.as_str()),
                    name: mount.name.clone(),
                    kind: "smb",
                    folders,
                },
            );
            assert(members_view(members@) =~= before.push(members@.last()@));
        }
        proof {
            let ms = cfg.smb_mounts@.take(m + 1);
            let fs = smb_folders@.take(m + 1);
            assert(ms.drop_last() =~= cfg.smb_mounts@.take(m as int));
            assert(fs.drop_last() =~= smb_folders@.take(m as int));
            assert(ms.last() == cfg.smb_mounts@[m as int]);
            assert(fs.last() == fm);
        }
        m += 1;
    }
    assert(cfg.smb_mounts@.take(m as int) =~= cfg.smb_mounts@);
    assert(smb_folders@.take(m as int) =~= smb_folders@);
    let ghost base2 = members_view(members@);
    let mut n: usize = 0;
    while n < cfg.ssh_mounts.len()
        invariant
            n <= cfg.ssh_mounts.len(),
            ssh_folders.len() == cfg.ssh_mounts.len(),
            u == strings_view(unsafe_roots@),
            members_view(members@) == base2 + ssh_members(
                cfg.ssh_mounts@.take(n as int),
                ssh_folders@.take(n as int),
                u,
            ),
        decreases cfg.ssh_mounts.len() - n,
    {
        let mount = &cfg.ssh_mounts[n];
        let ghost before = members_view(members@);
        match &ssh_folders[n] {
            Some(f) => {
                if !contains_string(unsafe_roots, f.path.as_str()) {
                    let mut one: Vec<LocalFolder> = Vec::new();
                    one.push(copy_folder(f));
                    members.push(
                        LocalFamilyMember {
                            id: ssh_source_id(mount.id.as_str()),
                            name: mount.name.clone(),
                            kind: "ssh",
                            folders: one,
                        },
                    );
                    assert(members_view(members@) =~= before.push(members@.last()@));
                }
            },
            None => {},
        }
        proof {
            let ms = cfg.ssh_mounts@.take(n + 1);
            let fs = ssh_folders@.take(n + 1);
            assert(ms.drop_last() =~= cfg.ssh_mounts@.take(n as int));
            assert(fs.drop_last() =~= ssh_folders@.take(n as int));
            assert(ms.last() == cfg.ssh_mounts@[n as int]);
            assert(fs.last() == ssh_folders@[n as int]);
        }
        n += 1;
    }
    assert(cfg.ssh_mounts@.take(n as int) =~= cfg.ssh_mounts@);
    assert(ssh_folders@.take(n as int) =~= ssh_folders@);
    members
}

/// The folder ids SSH mounts own.
pub open spec fn ssh_owned(mounts: Seq<crate::config::SshMount>) -> Seq<Seq<char>> {
    mounts.map_values(|m: crate::config::SshMount| m.local_folder_id@)
}

/// The plain member, when it has folders.
pub open spec fn plain_member(cfg: &AppConfig, unsafe_roots: Seq<Seq<char>>) -> Seq<MemberView> {
    let fs = plain_folders(cfg.local_folders@, ssh_owned(cfg.ssh_mounts@), unsafe_roots);
    if fs.len() > 0 {
        seq![MemberView { id: "local"@, name: "Local"@, kind: "local"@, folders: fs }]
    } else {
        Seq::empty()
    }
}

/// One member per SMB mount that keeps a safe folder, in mount order.
pub open spec fn smb_members(
    mounts: Seq<crate::config::SmbMount>,
    folders: Seq<Vec<LocalFolder>>,
    unsafe_roots: Seq<Seq<char>>,
) -> Seq<MemberView>
    decreases mounts.len(),
{
    if mounts.len() == 0 {
        Seq::empty()
    } else {
        let prev = smb_members(mounts.drop_last(), folders.drop_last(), unsafe_roots);
        let fs = folders.last()@.filter(|f: LocalFolder| safe(f, unsafe_roots));
        if fs.len() > 0 {
            prev.push(
                MemberView {
                    id: "smb-"@ + mounts.last().id@,
                    name: mounts.last().name@,
                    kind: "smb"@,
                    folders: fs,
                },
            )
        } else {
            prev
        }
    }
}

/// One member per SSH mount whose folder resolved and is safe.
pub open spec fn ssh_members(
    mounts: Seq<crate::config::SshMount>,
    folders: Seq<Option<LocalFolder>>,
    unsafe_roots: Seq<Seq<char>>,
) -> Seq<MemberView>
    decreases mounts.len(),
{
    if mounts.len() == 0 {
        Seq::empty()
    } else {
        let prev = ssh_members(mounts.drop_last(), folders.drop_last(), unsafe_roots);
        match folders.last() {
            Some(f) => if safe(f, unsafe_roots) {
                prev.push(
                    MemberView {
                        id: "ssh-"@ + mounts.last().id@,
                        name: mounts.last().name@,
                        kind: "ssh"@,
                        folders: seq![f],
                    },
                )
            } else {
                prev
            },
            None => prev,
        }
    }
}

// ---- filename and folder structure rules ----------------------------------------

/// Position of the last `c` in `s`.
pub open spec fn last_index(s: Seq<char>, c: char) -> Option<int>
    decreases s.len(),
{
    if s.len() == 0 {
        None
    } else if s.last() == c {
        Some(s.len() - 1)
    } else {
        last_index(s.drop_last(), c)
    }
}

/// The path without trailing separators.
pub open spec fn strip_slashes(p: Seq<char>) -> Seq<char>
    decreases p.len(),
{
    if p.len() > 0 && p.last() == '/' {
        strip_slashes(p.drop_last())
    } else {
        p
    }
}

/// The last component of a path (empty for the root).
pub open spec fn file_name(p: Seq<char>) -> Seq<char> {
    let t = strip_slashes(p);
    match last_index(t, '/') {
        Some(i) => t.skip(i + 1),
        None => t,
    }
}

/// The path of the folder holding the last component.
pub open spec fn parent(p: Seq<char>) -> Seq<char> {
    let t = strip_slashes(p);
    match last_index(t, '/') {
        Some(i) => t.take(i),
        None => Seq::empty(),
    }
}

/// The text after the last dot of a file name, unless that dot starts it.
pub open spec fn extension(name: Seq<char>) -> Option<Seq<char>> {
    match last_index(name, '.') {
        Some(i) => if i > 0 {
            Some(name.skip(i + 1))
        } else {
            None
        },
        None => None,
    }
}

/// A file name without its extension.
pub open spec fn stem(name: Seq<char>) -> Seq<char> {
    match last_index(name, '.') {
        Some(i) => if i > 0 {
            name.take(i)
        } else {
            name
        },
        None => name,
    }
}

/// The extensions of playable video files.
pub open spec fn video_ext(e: Seq<char>) -> bool {
    ||| e == "mkv"@
    ||| e == "mp4"@
    ||| e == "m4v"@
    ||| e == "mov"@
    ||| e == "avi"@
    ||| e == "ts"@
    ||| e == "m2ts"@
    ||| e == "webm"@
    ||| e == "wmv"@
    ||| e == "flv"@
    ||| e == "mpg"@
    ||| e == "mpeg"@
}

/// A video file, by its extension in any letter case.
pub open spec fn video_path(p: Seq<char>) -> bool {
    match extension(file_name(p)) {
        Some(e) => video_ext(lower(e)),
        None => false,
    }
}

pub(crate) fn last_index_of(v: &Vec<char>, c: char) -> (r: Option<usize>)
    ensures
        r matches Some(i) ==> i < v.len() && last_index(v@, c) == Some(i as int),
        r is None ==> last_index(v@, c) is None,
{
    let mut i: usize = v.len();
    assert(v@.take(v.len() as int) =~= v@);
    while i > 0
        invariant
            i <= v.len(),
            last_index(v@, c) == last_index(v@.take(i as int), c),
        decreases i,
    {
        let ghost t = v@.take(i as int);
        assert(t.drop_last() =~= v@.take(i - 1));
        assert(t.last() == v@[i - 1]);
        if v[i - 1] == c {
            return Some(i - 1);
        }
        i -= 1;
    }
    None
}

pub(crate) fn strip_slashes_chars(v: &Vec<char>) -> (r: Vec<char>)
    ensures
        r@ == strip_slashes(v@),
{
    let mut n: usize = v.len();
    assert(v@.take(n as int) =~= v@);
    while n > 0 && v[n - 1] == '/'
        invariant
            n <= v.len(),
            strip_slashes(v@) == strip_slashes(v@.take(n as int)),
        decreases n,
    {
        assert(v@.take(n as int).drop_last() =~= v@.take(n - 1));
        n -= 1;
    }
    slice_chars(v, 0, n)
}

fn file_name_chars(p: &str) -> (r: Vec<char>)
    ensures
        r@ == file_name(p@),
{
    let v = chars_of(p);
    let t = strip_slashes_chars(&v);
    match last_index_of(&t, '/') {
        Some(i) => {
            let r = slice_chars(&t, i + 1, t.len());
            assert(r@ =~= t@.skip(i + 1));
            r
        },
        None => t,
    }
}

fn parent_path(p: &str) -> (r: String)
    ensures
        r@ == parent(p@),
{
    let v = chars_of(p);
    let t = strip_slashes_chars(&v);
    match last_index_of(&t, '/') {
        Some(i) => {
            let r = slice_chars(&t, 0, i);
            assert(r@ =~= t@.take(i as int));
            string_of(r.as_slice())
        },
        None => {
            let e: Vec<char> = Vec::new();
            assert(e@ =~= Seq::<char>::empty());
            string_of(e.as_slice())
        },
    }
}

/// The last component of a path.
pub fn dir_name(path: &str) -> (r: String)
    ensures
        r@ == file_name(path@),
{
    let v = file_name_chars(path);
    string_of(v.as_slice())
}

/// The file name of a path without its extension.
pub fn file_stem(path: &str) -> (r: String)
    ensures
        r@ == stem(file_name(path@)),
{
    let name = file_name_chars(path);
    match last_index_of(&name, '.') {
        Some(i) => if i > 0 {
            let r = slice_chars(&name, 0, i);
            assert(r@ =~= name@.take(i as int));
            string_of(r.as_slice())
        } else {
            string_of(name.as_slice())
        },
        None => string_of(name.as_slice()),
    }
}

/// Whether a path names a video file, by extension in any letter case.
pub fn is_video(path: &str) -> (r: bool)
    ensures
        r == video_path(path@),
{
    let name = file_name_chars(path);
    match last_index_of(&name, '.') {
        Some(i) => if i > 0 {
            let e = slice_chars(&name, i + 1, name.len());
            assert(e@ =~= name@.skip(i + 1));
            let l = string_of(lower_chars(&e).as_slice());
            let s = l.as_str();
            str_eq(s, "mkv") || str_eq(s, "mp4") || str_eq(s, "m4v") || str_eq(s, "mov") || str_eq(
                s,
                "avi",
            ) || str_eq(s, "ts") || str_eq(s, "m2ts") || str_eq(s, "webm") || str_eq(s, "wmv")
                || str_eq(s, "flv") || str_eq(s, "mpg") || str_eq(s, "mpeg")
        } else {
            false
        },
        None => false,
    }
}

/// Dots and underscores read as spaces.
pub open spec fn spaced(s: Seq<char>) -> Seq<char> {
    s.map_values(|c: char| if c == '.' || c == '_' { ' ' } else { c })
}

/// A tidied name: dots and underscores as spaces, runs of whitespace
/// collapsed to one space, no leading or trailing space.
pub open spec fn clean(s: Seq<char>) -> Seq<char> {
    join(words(spaced(s)), seq![' '])
}

fn spaced_chars(s: &Vec<char>) -> (r: Vec<char>)
    ensures
        r@ == spaced(s@),
{
    let mut r: Vec<char> = Vec::new();
    let mut i: usize = 0;
    while i < s.len()
        invariant
            i <= s.len(),
            r@ == spaced(s@.take(i as int)),
        decreases s.len() - i,
    {
        let c = s[i];
        r.push(if c == '.' || c == '_' { ' ' } else { c });
        assert(spaced(s@.take(i + 1)) =~= spaced(s@.take(i as int)).push(
            if c == '.' || c == '_' { ' ' } else { c },
        ));
        i += 1;
    }
    assert(s@.take(i as int) =~= s@);
    r
}

/// Tidy a raw name: dots and underscores become spaces, whitespace runs
/// collapse.
pub fn clean_title(s: &str) -> (r: String)
    ensures
        r@ == clean(s@),
{
    let v = spaced_chars(&chars_of(s));
    let ws = split_words(&v);
    let j = join_words(&ws, 0, ws.len());
    assert(ws@.map_values(|w: Vec<char>| w@).subrange(0, ws.len() as int) =~= ws@.map_values(
        |w: Vec<char>| w@,
    ));
    string_of(j.as_slice())
}

/// A plausible release year.
pub open spec fn year_like(y: u32) -> bool {
    1900 <= y <= 2100
}

/// `Title (2021)`: the year in the first parentheses, with the text before
/// them as the title.
pub open spec fn paren_year(stem: Seq<char>) -> Option<(int, u32)> {
    match first_index(stem, '(') {
        Some(open) => match first_index(stem.skip(open), ')') {
            Some(close) => match parse_u32(trim(stem.subrange(open + 1, open + close))) {
                Some(y) => if year_like(y) {
                    Some((open, y))
                } else {
                    None
                },
                None => None,
            },
            None => None,
        },
        None => None,
    }
}

/// The first token after the first that is four characters reading as a
/// plausible year.
pub open spec fn year_token_from(ws: Seq<Seq<char>>, i: int) -> Option<(int, u32)>
    decreases ws.len() - i,
{
    if i >= ws.len() || i < 1 {
        None
    } else if ws[i].len() == 4 && parse_u32(ws[i]) is Some && year_like(parse_u32(ws[i])->0) {
        Some((i, parse_u32(ws[i])->0))
    } else {
        year_token_from(ws, i + 1)
    }
}

/// `Title (2021)` or `Title.2021.1080p...` read as (title, year).
pub open spec fn movie_of(stem: Seq<char>) -> (Seq<char>, Option<u32>) {
    match paren_year(stem) {
        Some((open, y)) => (clean(stem.take(open)), Some(y)),
        None => {
            let ws = words(spaced(stem));
            match year_token_from(ws, 1) {
                Some((i, y)) => (join(ws.take(i), seq![' ']), Some(y)),
                None => (clean(stem), None),
            }
        },
    }
}

fn paren_year_of(v: &Vec<char>) -> (r: Option<(usize, u32)>)
    ensures
        r matches Some((open, y)) ==> open <= v.len() && paren_year(v@) == Some((open as int, y)),
        r is None ==> paren_year(v@) is None,
{
    let open = match find_char(v, '(') {
        Some(o) => o,
        None => return None,
    };
    let rest = slice_chars(v, open, v.len());
    assert(rest@ =~= v@.skip(open as int));
    let close = match find_char(&rest, ')') {
        Some(c) => c,
        None => return None,
    };
    proof {
        crate::text::lemma_first_index_props(rest@, ')');
    }
    assert(close >= 1) by {
        assert(rest@[0] == '(');
    }
    let inner = slice_chars(v, open + 1, open + close);
    let y = match parse_u32_chars(&trim_chars(&inner)) {
        Some(y) => y,
        None => return None,
    };
    if 1900 <= y && y <= 2100 {
        Some((open, y))
    } else {
        None
    }
}

/// `Title (2021)` or `Title.2021.1080p...` read as (title, year).
pub fn parse_movie(stem: &str) -> (r: (String, Option<u32>))
    ensures
        r.0@ == movie_of(stem@).0,
        r.1 == movie_of(stem@).1,
{
    let v = chars_of(stem);
    match paren_year_of(&v) {
        Some((open, y)) => {
            let head = slice_chars(&v, 0, open);
            assert(head@ =~= v@.take(open as int));
            let t = clean_title(string_of(head.as_slice()).as_str());
            return (t, Some(y));
        },
        None => {},
    }
    let ws = split_words(&spaced_chars(&v));
    let ghost wv = ws@.map_values(|w: Vec<char>| w@);
    let mut i: usize = 1;
    while i < ws.len()
        invariant
            1 <= i,
            wv == ws@.map_values(|w: Vec<char>| w@),
            wv == words(spaced(v@)),
            v@ == stem@,
            paren_year(v@) is None,
            year_token_from(wv, 1) == year_token_from(wv, i as int),
        decreases ws.len() - i,
    {
        assert(wv[i as int] == ws@[i as int]@);
        if ws[i].len() == 4 {
            match parse_u32_chars(&ws[i]) {
                Some(y) => if 1900 <= y && y <= 2100 {
                    let j = join_words(&ws, 0, i);
                    assert(wv.subrange(0, i as int) =~= wv.take(i as int));
                    return (string_of(j.as_slice()), Some(y));
                },
                None => {},
            }
        }
        i += 1;
    }
    (clean_title(stem), None)
}

/// The end of the digit run starting at `from`.
pub open spec fn digits_end(b: Seq<char>, from: int) -> int
    decreases b.len() - from,
{
    if from < 0 || from >= b.len() || !is_digit(b[from]) {
        from
    } else {
        digits_end(b, from + 1)
    }
}

/// The first `s<digits>e<digits>` marker from position `i` on; a marker
/// whose numbers overflow ends the search with nothing.
pub open spec fn episode_scan(b: Seq<char>, i: int) -> Option<(u32, u32)>
    decreases b.len() - i,
{
    if i < 0 || i >= b.len() {
        None
    } else {
        let j = digits_end(b, i + 1);
        let k = digits_end(b, j + 1);
        if b[i] == 's' && j > i + 1 && j < b.len() && b[j] == 'e' && k > j + 1 {
            match (parse_u32(b.subrange(i + 1, j)), parse_u32(b.subrange(j + 1, k))) {
                (Some(s), Some(e)) => Some((s, e)),
                _ => None,
            }
        } else {
            episode_scan(b, i + 1)
        }
    }
}

/// An `SxxEyy` marker in any letter case, as (season, episode).
pub open spec fn episode_of(name: Seq<char>) -> Option<(u32, u32)> {
    episode_scan(lower(name), 0)
}

fn digits_end_exec(b: &Vec<char>, from: usize) -> (r: usize)
    requires
        from <= b.len(),
    ensures
        r as int == digits_end(b@, from as int),
        from <= r <= b.len(),
{
    let mut j: usize = from;
    while j < b.len() && crate::text::char_is_digit(b[j])
        invariant
            from <= j <= b.len(),
            digits_end(b@, from as int) == digits_end(b@, j as int),
        decreases b.len() - j,
    {
        j += 1;
    }
    j
}

/// Find an `SxxEyy` marker in any letter case, as (season, episode).
pub fn parse_episode(name: &str) -> (r: Option<(u32, u32)>)
    ensures
        r == episode_of(name@),
{
    let b = lower_chars(&chars_of(name));
    let mut i: usize = 0;
    while i < b.len()
        invariant
            i <= b.len(),
            b@ == lower(name@),
            episode_scan(b@, 0) == episode_scan(b@, i as int),
        decreases b.len() - i,
    {
        if b[i] == 's' {
            let j = digits_end_exec(&b, i + 1);
            if j > i + 1 && j < b.len() && b[j] == 'e' {
                let k = digits_end_exec(&b, j + 1);
                if k > j + 1 {
                    let s = parse_u32_chars(&slice_chars(&b, i + 1, j));
                    let e = parse_u32_chars(&slice_chars(&b, j + 1, k));
                    return match (s, e) {
                        (Some(s), Some(e)) => Some((s, e)),
                        _ => None,
                    };
                }
            }
        }
        i += 1;
    }
    None
}

/// `Season 01` is season 1 and `Specials` season 0, in any letter case.
pub open spec fn season_of(name: Seq<char>) -> Option<u32> {
    let l = lower(trim(name));
    if l == "specials"@ {
        Some(0)
    } else if starts_with(l, "season"@) {
        parse_u32(trim(l.skip("season"@.len() as int)))
    } else {
        None
    }
}

/// `Season 01` is season 1 and `Specials` season 0.
pub fn parse_season_dir(name: &str) -> (r: Option<u32>)
    ensures
        r == season_of(name@),
{
    let l = lower_chars(&trim_chars(&chars_of(name)));
    let ls = string_of(l.as_slice());
    if str_eq(ls.as_str(), "specials") {
        return Some(0);
    }
    if !crate::text::starts_with_str(ls.as_str(), "season") {
        return None;
    }
    let p = chars_of("season");
    let rest = slice_chars(&l, p.len(), l.len());
    assert(rest@ =~= l@.skip("season"@.len() as int));
    parse_u32_chars(&trim_chars(&rest))
}

/// The show an episode file belongs to: its folder, or the folder above
/// when that one is a season folder, read as a title.
pub open spec fn show_title(file: Seq<char>) -> Seq<char> {
    let p = parent(file);
    let show_dir = if season_of(file_name(p)) is Some {
        parent(p)
    } else {
        p
    };
    movie_of(file_name(show_dir)).0
}

/// The show title for an episode file.
pub fn show_title_for(file: &str) -> (r: String)
    ensures
        r@ == show_title(file@),
{
    let p = parent_path(file);
    let season = parse_season_dir(dir_name(p.as_str()).as_str());
    let show_dir = if season.is_some() {
        parent_path(p.as_str())
    } else {
        p
    };
    parse_movie(dir_name(show_dir.as_str()).as_str()).0
}

/// The listing entry of a path before any metadata: keyed by its path,
/// titled, typed, and nothing else known.
pub open spec fn base_view(source_id: Seq<char>, path: Seq<char>, title: Seq<char>, year: Option<u32>, media_type: Seq<char>) -> ItemView {
    ItemView {
        rating_key: namespaced(source_id, path),
        title,
        year,
        summary: None,
        duration_ms: None,
        media_type: Some(media_type),
        poster: None,
        series_poster: None,
        backdrop: None,
        view_offset_ms: None,
        played: None,
        last_watched_at_ms: None,
        added_at_ms: None,
        index: None,
        parent_index: None,
        grandparent_title: None,
        parent_title: None,
        parent_rating_key: None,
        grandparent_rating_key: None,
        source_id,
        provider_ids: Seq::empty(),
        backing: None,
        canonical_id: None,
        watch_key: None,
        detail_key: None,
    }
}

/// The listing entry of a file or folder under a local-family source.
pub fn base_item(source_id: &str, path: &str, title: String, year: Option<u32>, media_type: &str) -> (r:
    ItemDto)
    ensures
        r@ == base_view(source_id@, path@, title@, year, media_type@),
{
    let r = ItemDto {
        rating_key: namespace_key(source_id, path),
        title,
        year,
        summary: None,
        duration_ms: None,
        media_type: Some(media_type.to_string()),
        poster: None,
        series_poster: None,
        backdrop: None,
        view_offset_ms: None,
        played: None,
        last_watched_at_ms: None,
        added_at_ms: None,
        index: None,
        parent_index: None,
        grandparent_title: None,
        parent_title: None,
        parent_rating_key: None,
        grandparent_rating_key: None,
        source_id: source_id.to_string(),
        provider_ids: Vec::new(),
        backing: None,
        canonical_id: None,
        watch_key: None,
        detail_key: None,
    };
    assert(strings_view(r.provider_ids@) =~= Seq::<Seq<char>>::empty());
    r
}

/// What a cached level holds, and how to walk it again. Part of the cache
/// key, so a folder that is both a section root and a container cannot
/// serve the wrong shape.
#[derive(Debug, Clone)]
pub enum LevelKind {
    Items { section_type: String },
    Children,
}

impl LevelKind {
    /// The cache key of a level.
    pub fn cache_key(&self, source_id: &str, path: &str) -> (r: String)
        ensures
            r@ == match self {
                LevelKind::Items { section_type } => source_id@ + "|items:"@ + section_type@ + ":"@
                    + path@,
                LevelKind::Children => source_id@ + "|children:"@ + path@,
            },
    {
        match self {
            LevelKind::Items { section_type } => {
                let a = concat(source_id, "|items:");
                let b = concat(a.as_str(), section_type.as_str());
                let c = concat(b.as_str(), ":");
                concat(c.as_str(), path)
            },
            LevelKind::Children => {
                let a = concat(source_id, "|children:");
                concat(a.as_str(), path)
            },
        }
    }
}

// ---- ordering listings -------------------------------------------------------

/// How a listing is ordered.
#[derive(Debug, Clone, Copy, PartialEq, Eq, Structural)]
pub enum ItemOrder {
    /// By lower-cased title.
    Title,
    /// By year, unknown years first.
    Year,
    /// By season, then episode, then lower-cased title; unknown numbers
    /// first.
    Episodes,
}

/// An optional number as key material: absent below every present value.
pub open spec fn opt_rank(o: Option<u32>) -> int {
    match o {
        Some(x) => x + 1,
        None => 0,
    }
}

pub open spec fn item_key(it: ItemDto, order: ItemOrder) -> Seq<int> {
    match order {
        ItemOrder::Title => crate::selection::string_key(crate::text::unicode_lower(it.title@)),
        ItemOrder::Year => seq![opt_rank(it.year)],
        ItemOrder::Episodes => seq![opt_rank(it.parent_index), opt_rank(it.index)]
            + crate::selection::string_key(crate::text::unicode_lower(it.title@)),
    }
}

pub open spec fn sorts_after(a: ItemDto, b: ItemDto, order: ItemOrder) -> bool {
    crate::selection::lex(item_key(a, order), item_key(b, order)) > 0
}

/// Where a stable insertion puts `x`: before the first element sorting
/// strictly after it.
pub open spec fn item_insert_at(t: Seq<ItemDto>, x: ItemDto, order: ItemOrder) -> int
    decreases t.len(),
{
    if t.len() == 0 {
        0
    } else if sorts_after(t[0], x, order) {
        0
    } else {
        1 + item_insert_at(t.drop_first(), x, order)
    }
}

/// The stable sort of `s` by the order's key.
pub open spec fn sorted_items(s: Seq<ItemDto>, order: ItemOrder) -> Seq<ItemDto>
    decreases s.len(),
{
    if s.len() == 0 {
        s
    } else {
        let t = sorted_items(s.drop_last(), order);
        t.insert(item_insert_at(t, s.last(), order), s.last())
    }
}

fn opt_rank_of(o: Option<u32>) -> (r: i128)
    ensures
        r as int == opt_rank(o),
{
    match o {
        Some(x) => x as i128 + 1,
        None => 0,
    }
}

fn item_key_of(it: &ItemDto, order: ItemOrder) -> (r: Vec<i128>)
    ensures
        crate::selection::ints(r@) == item_key(*it, order),
{
    let mut v: Vec<i128> = Vec::new();
    match order {
        ItemOrder::Title => {
            let l = crate::text::to_lowercase(it.title.as_str());
            crate::selection::push_string_key(&mut v, l.as_str());
            assert(crate::selection::ints(v@) =~= item_key(*it, order));
        },
        ItemOrder::Year => {
            v.push(opt_rank_of(it.year));
            assert(crate::selection::ints(v@) =~= item_key(*it, order));
        },
        ItemOrder::Episodes => {
            v.push(opt_rank_of(it.parent_index));
            v.push(opt_rank_of(it.index));
            assert(crate::selection::ints(v@) =~= seq![opt_rank(it.parent_index), opt_rank(it.index)]);
            let l = crate::text::to_lowercase(it.title.as_str());
            crate::selection::push_string_key(&mut v, l.as_str());
        },
    }
    v
}

/// Stable sort of a listing.
pub fn sort_items(items: &mut Vec<ItemDto>, order: ItemOrder)
    ensures
        final(items)@ == sorted_items(old(items)@, order),
{
    let ghost s = items@;
    let mut rest: Vec<ItemDto> = Vec::new();
    std::mem::swap(&mut rest, items);
    let mut out: Vec<ItemDto> = Vec::new();
    let ghost mut j: int = 0;
    while rest.len() > 0
        invariant
            0 <= j <= s.len(),
            rest.len() == s.len() - j,
            rest@ == s.skip(j),
            out@ == sorted_items(s.take(j), order),
        decreases rest.len(),
    {
        let ghost raw = rest@;
        let x = rest.remove(0);
        proof {
            assert(rest@ =~= raw.skip(1));
            assert(s.skip(j)[0] == s[j]);
            assert(s.skip(j).skip(1) =~= s.skip(j + 1));
            assert(s.take(j + 1).drop_last() =~= s.take(j));
            assert(s.take(j + 1).last() == s[j]);
        }
        let ghost t = out@;
        let kx = item_key_of(&x, order);
        let mut at: usize = 0;
        assert(t.skip(0) =~= t);
        while at < out.len()
            invariant_except_break
                at <= out.len(),
                t == out@,
                crate::selection::ints(kx@) == item_key(x, order),
                item_insert_at(t, x, order) == at + item_insert_at(t.skip(at as int), x, order),
            ensures
                at <= out.len(),
                item_insert_at(t, x, order) == at,
            decreases out.len() - at,
        {
            assert(t.skip(at as int)[0] == out@[at as int]);
            let ko = item_key_of(&out[at], order);
            if crate::selection::lex_order(&ko, &kx) > 0 {
                break ;
            }
            assert(t.skip(at as int).drop_first() =~= t.skip(at + 1));
            at += 1;
        }
        proof {
            if at == out.len() {
                assert(t.skip(at as int).len() == 0);
            }
        }
        let ghost xv = x;
        out.insert(at, x);
        assert(out@ =~= t.insert(at as int, xv));
        proof {
            j = j + 1;
        }
    }
    assert(s.take(j) =~= s);
    *items = out;
}

/// A listing's requested order: `field:direction`, `titleSort:asc` when
/// none is asked; `year` sorts by year and any other field by title;
/// `desc` in any letter case reverses.
pub open spec fn requested_order(sort: Option<Seq<char>>) -> (ItemOrder, bool) {
    let s = match sort {
        Some(x) => x,
        None => "titleSort:asc"@,
    };
    match split_once(s, ':') {
        Some((f, d)) => (
            if f == "year"@ {
                ItemOrder::Year
            } else {
                ItemOrder::Title
            },
            lower(d) == "desc"@,
        ),
        None => (ItemOrder::Title, false),
    }
}

/// One page of the ordered listing: `size` items from position `start`.
pub open spec fn listing_page(items: Seq<ItemDto>, sort: Option<Seq<char>>, start: int, size: int) -> Seq<ItemDto> {
    let (order, desc) = requested_order(sort);
    let sorted = sorted_items(items, order);
    let ordered = if desc {
        sorted.reverse()
    } else {
        sorted
    };
    if start >= ordered.len() {
        Seq::empty()
    } else if size >= ordered.len() - start {
        ordered.skip(start)
    } else {
        ordered.skip(start).take(size)
    }
}

fn requested_order_of(sort: Option<&str>) -> (r: (ItemOrder, bool))
    ensures
        r == requested_order(crate::playback::opt_str(sort)),
{
    let s = match sort {
        Some(x) => x,
        None => "titleSort:asc",
    };
    match crate::text::split_once_str(s, ':') {
        Some((f, d)) => {
            let order = if str_eq(f.as_str(), "year") {
                ItemOrder::Year
            } else {
                ItemOrder::Title
            };
            let dl = crate::text::lowercase(d.as_str());
            (order, str_eq(dl.as_str(), "desc"))
        },
        None => (ItemOrder::Title, false),
    }
}

/// Sort a listing as asked and cut one page from it.
pub fn sort_and_page(items: Vec<ItemDto>, sort: Option<&str>, start: usize, size: usize) -> (r: Vec<ItemDto>)
    ensures
        crate::source::items_view(r@) == crate::source::items_view(
            listing_page(items@, crate::playback::opt_str(sort), start as int, size as int),
        ),
{
    let (order, desc) = requested_order_of(sort);
    let mut items = items;
    sort_items(&mut items, order);
    let ghost sorted = items@;
    let ghost ordered = if desc {
        sorted.reverse()
    } else {
        sorted
    };
    let n = items.len();
    let mut out: Vec<ItemDto> = Vec::new();
    if start >= n {
        return out;
    }
    let count = if size >= n - start {
        n - start
    } else {
        size
    };
    let mut k: usize = 0;
    while k < count
        invariant
            k <= count,
            count <= n - start,
            start < n,
            n == items.len(),
            items@ == sorted,
            ordered == if desc {
                sorted.reverse()
            } else {
                sorted
            },
            crate::source::items_view(out@) == crate::source::items_view(
                ordered.skip(start as int).take(k as int),
            ),
        decreases count - k,
    {
        let idx = start + k;
        let pos = if desc {
            n - 1 - idx
        } else {
            idx
        };
        let ghost before = crate::source::items_view(out@);
        out.push(items[pos].duplicate());
        assert(ordered[idx as int] == items@[pos as int]);
        assert(ordered.skip(start as int).take(k + 1) =~= ordered.skip(start as int).take(
            k as int,
        ).push(ordered[idx as int]));
        assert(crate::source::items_view(out@) =~= before.push(ordered[idx as int]@));
        assert(crate::source::items_view(ordered.skip(start as int).take(k + 1))
            =~= crate::source::items_view(ordered.skip(start as int).take(k as int)).push(
            ordered[idx as int]@,
        ));
        k += 1;
    }
    proof {
        if size >= n - start {
            assert(ordered.skip(start as int).take(count as int) =~= ordered.skip(start as int));
        }
    }
    out
}

proof fn lemma_item_insert_at(t: Seq<ItemDto>, x: ItemDto, order: ItemOrder)
    ensures
        0 <= item_insert_at(t, x, order) <= t.len(),
        forall|k: int| 0 <= k < item_insert_at(t, x, order) ==> !sorts_after(#[trigger] t[k], x, order),
        item_insert_at(t, x, order) < t.len() ==> sorts_after(t[item_insert_at(t, x, order)], x, order),
    decreases t.len(),
{
    if t.len() > 0 && !sorts_after(t[0], x, order) {
        let d = t.drop_first();
        lemma_item_insert_at(d, x, order);
        assert forall|k: int| 0 <= k < item_insert_at(t, x, order) implies !sorts_after(
            #[trigger] t[k],
            x,
            order,
        ) by {
            if k > 0 {
                assert(t[k] == d[k - 1]);
            }
        }
    }
}

/// No element sorts after a later one.
pub open spec fn items_in_order(t: Seq<ItemDto>, order: ItemOrder) -> bool {
    forall|i: int, j: int| 0 <= i < j < t.len() ==> !sorts_after(#[trigger] t[i], #[trigger] t[j], order)
}

/// A sorted listing is in order by its key and holds exactly the items it
/// was given.
pub proof fn law_sorted_items_are_an_ordered_permutation(s: Seq<ItemDto>, order: ItemOrder)
    ensures
        items_in_order(sorted_items(s, order), order),
        sorted_items(s, order).to_multiset() == s.to_multiset(),
    decreases s.len(),
{
    broadcast use vstd::seq_lib::to_multiset_build, vstd::seq_lib::to_multiset_insert;

    if s.len() > 0 {
        let d = s.drop_last();
        law_sorted_items_are_an_ordered_permutation(d, order);
        let t = sorted_items(d, order);
        let x = s.last();
        lemma_item_insert_at(t, x, order);
        let p = item_insert_at(t, x, order);
        let u = t.insert(p, x);
        assert(s =~= d.push(x));
        assert forall|i: int, j: int| 0 <= i < j < u.len() implies !sorts_after(
            #[trigger] u[i],
            #[trigger] u[j],
            order,
        ) by {
            let kx = item_key(x, order);
            if j < p {
                assert(u[i] == t[i] && u[j] == t[j]);
            } else if j == p {
                assert(u[i] == t[i]);
            } else if i == p {
                assert(u[j] == t[j - 1]);
                let kp = item_key(t[p], order);
                let kj = item_key(t[j - 1], order);
                crate::selection::lemma_lex_antisym(kp, kx);
                if p < j - 1 {
                    assert(!sorts_after(t[p], t[j - 1], order));
                    crate::selection::lemma_lex_trans(kx, kp, kj);
                } else {
                    crate::selection::lemma_lex_antisym(kx, kj);
                }
            } else if i < p {
                assert(u[i] == t[i] && u[j] == t[j - 1]);
            } else {
                assert(u[i] == t[i - 1] && u[j] == t[j - 1]);
            }
        }
    }
}

// ---- a show folder's children ----------------------------------------------

/// The show a folder belongs to: the folder itself, or its parent when it is
/// a season folder, read as a title.
pub open spec fn folder_show_title(dir: Seq<char>) -> Seq<char> {
    let show_dir = if season_of(file_name(dir)) is Some {
        parent(dir)
    } else {
        dir
    };
    movie_of(file_name(show_dir)).0
}

pub fn children_show_title(dir: &str) -> (r: String)
    ensures
        r@ == folder_show_title(dir@),
{
    let season = parse_season_dir(dir_name(dir).as_str());
    let show_dir = if season.is_some() {
        parent_path(dir)
    } else {
        dir.to_string()
    };
    parse_movie(dir_name(show_dir.as_str()).as_str()).0
}

/// A season folder's entry: titled by its folder name, numbered when the
/// name says so.
pub fn season_entry(source_id: &str, path: &str) -> (r: ItemDto)
    ensures
        r@ == (ItemView {
            index: season_of(file_name(path@)),
            ..base_view(source_id@, path@, file_name(path@), None, "season"@)
        }),
{
    let name = dir_name(path);
    let index = parse_season_dir(name.as_str());
    let mut item = base_item(source_id, path, name, None, "season");
    item.index = index;
    item
}

/// An episode file's entry in a show or season folder: titled from its
/// cleaned stem, numbered by an `SxxEyy` marker, under the show's title.
/// Also the season (the marker's, else the folder's) and episode numbers
/// metadata lookups use.
pub fn episode_entry(source_id: &str, path: &str, dir: &str, show_title: &str) -> (r: (
    ItemDto,
    Option<u32>,
    Option<u32>,
))
    ensures
        r.0@ == (ItemView {
            parent_index: match episode_of(stem(file_name(path@))) {
                Some((s, _)) => Some(s),
                None => None,
            },
            index: match episode_of(stem(file_name(path@))) {
                Some((_, e)) => Some(e),
                None => None,
            },
            grandparent_title: Some(show_title@),
            ..base_view(source_id@, path@, clean(stem(file_name(path@))), None, "episode"@)
        }),
        r.1 == match episode_of(stem(file_name(path@))) {
            Some((s, _)) => Some(s),
            None => season_of(file_name(dir@)),
        },
        r.2 == match episode_of(stem(file_name(path@))) {
            Some((_, e)) => Some(e),
            None => None,
        },
{
    let st = file_stem(path);
    let mut item = base_item(source_id, path, clean_title(st.as_str()), None, "episode");
    let parsed = parse_episode(st.as_str());
    if let Some((s, e)) = parsed {
        item.parent_index = Some(s);
        item.index = Some(e);
    }
    item.grandparent_title = Some(show_title.to_string());
    let season = match parsed {
        Some((s, _)) => Some(s),
        None => parse_season_dir(dir_name(dir).as_str()),
    };
    let episode = match parsed {
        Some((_, e)) => Some(e),
        None => None,
    };
    (item, season, episode)
}

/// What a filename search for `needle` (already lowercased) makes of a video
/// file: nothing unless its lowercased stem contains the needle; else an
/// episode, numbered and under its show's title, when the stem carries an
/// `SxxEyy` marker, and a movie otherwise.
pub fn search_hit(source_id: &str, path: &str, needle: &str) -> (r: Option<ItemDto>)
    ensures
        r is Some <==> crate::text::contains(
            crate::text::unicode_lower(stem(file_name(path@))),
            needle@,
        ),
        r matches Some(it) ==> it@ == match episode_of(stem(file_name(path@))) {
            Some((season, episode)) => ItemView {
                parent_index: Some(season),
                index: Some(episode),
                grandparent_title: Some(show_title(path@)),
                ..base_view(source_id@, path@, clean(stem(file_name(path@))), None, "episode"@)
            },
            None => base_view(
                source_id@,
                path@,
                movie_of(stem(file_name(path@))).0,
                movie_of(stem(file_name(path@))).1,
                "movie"@,
            ),
        },
{
    let st = file_stem(path);
    let lowered = crate::text::to_lowercase(st.as_str());
    if !crate::text::contains_str(lowered.as_str(), needle) {
        return None;
    }
    match parse_episode(st.as_str()) {
        Some((season, episode)) => {
            let mut item = base_item(source_id, path, clean_title(st.as_str()), None, "episode");
            item.parent_index = Some(season);
            item.index = Some(episode);
            item.grandparent_title = Some(show_title_for(path));
            Some(item)
        },
        None => {
            let (title, year) = parse_movie(st.as_str());
            Some(base_item(source_id, path, title, year, "movie"))
        },
    }
}

proof fn lemma_last_index_past(x: Seq<char>, s: Seq<char>, c: char)
    requires
        !s.contains(c),
    ensures
        last_index(x + s, c) == last_index(x, c),
    decreases s.len(),
{
    if s.len() == 0 {
        assert(x + s =~= x);
    } else {
        assert(s.last() != c) by {
            assert(s[s.len() - 1] == s.last());
        }
        assert(!s.drop_last().contains(c)) by {
            if s.drop_last().contains(c) {
                let k = choose|k: int| 0 <= k < s.drop_last().len() && s.drop_last()[k] == c;
                assert(s[k] == c);
            }
        }
        lemma_last_index_past(x, s.drop_last(), c);
        assert((x + s).drop_last() =~= x + s.drop_last());
    }
}

/// A path of a folder, a separator and a name without separators has that
/// folder as its parent and that name as its file name.
proof fn lemma_path_join(d: Seq<char>, name: Seq<char>)
    requires
        name.len() > 0,
        !name.contains('/'),
    ensures
        parent(d + seq!['/'] + name) == d,
        file_name(d + seq!['/'] + name) == name,
{
    let x = d + seq!['/'];
    let p = x + name;
    assert(p =~= d + seq!['/'] + name);
    assert(name.last() != '/') by {
        assert(name[name.len() - 1] == name.last());
    }
    assert(p.last() == name.last());
    assert(strip_slashes(p) == p);
    lemma_last_index_past(x, name, '/');
    assert(x.last() == '/');
    assert(last_index(x, '/') == Some(d.len() as int));
    assert(p.take(d.len() as int) =~= d);
    assert(p.skip(d.len() as int + 1) =~= name);
}

/// An episode directly inside a folder that is not a season folder belongs
/// to the show that folder names.
pub proof fn law_show_title_in_show_folder(root: Seq<char>, folder: Seq<char>, name: Seq<char>)
    requires
        folder.len() > 0,
        !folder.contains('/'),
        name.len() > 0,
        !name.contains('/'),
        season_of(folder) is None,
    ensures
        show_title(root + seq!['/'] + folder + seq!['/'] + name) == movie_of(folder).0,
{
    let dir = root + seq!['/'] + folder;
    lemma_path_join(dir, name);
    lemma_path_join(root, folder);
}

/// An episode inside a season folder belongs to the show the folder above
/// it names.
pub proof fn law_show_title_in_season_folder(
    root: Seq<char>,
    show: Seq<char>,
    season: Seq<char>,
    name: Seq<char>,
)
    requires
        show.len() > 0,
        !show.contains('/'),
        season.len() > 0,
        !season.contains('/'),
        name.len() > 0,
        !name.contains('/'),
        season_of(season) is Some,
    ensures
        show_title(root + seq!['/'] + show + seq!['/'] + season + seq!['/'] + name) == movie_of(
            show,
        ).0,
{
    let show_dir = root + seq!['/'] + show;
    let season_dir = show_dir + seq!['/'] + season;
    lemma_path_join(season_dir, name);
    lemma_path_join(show_dir, season);
    lemma_path_join(root, show);
}

} // verus!
