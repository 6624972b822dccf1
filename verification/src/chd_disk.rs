//! CHD-backed disks: where writes go, what an existing overlay is, and how
//! overlays are folded back into their base.
//!
//! A compressed base cannot be written in place, so it always has a diff that names
//! it as parent. An uncompressed base carries no checksum and cannot be a parent:
//! it is written in place, or gets a sparse overlay where copy-on-write is asked
//! for.
use vstd::prelude::*;
use crate::disk_error::invalid_data;
use crate::disk_error::invalid_input;
use crate::disk_error::DiskError;
use crate::disk_error::DiskErrorKind;
use crate::net_addr::split_pieces;
use crate::sparse_overlay::check_transfer;
use crate::text::chars_of;
use crate::text::find_last_char;
use crate::text::lower_chars;
use crate::text::owned;
use crate::text::push_decimal;
use crate::text::push_hex;
use crate::text::same_chars;
use crate::text::slice_of;
use crate::text::string_of;

verus! {

// ---------------------------------------------------------------------------
// Paths
// ---------------------------------------------------------------------------

/// `p` with `suffix` behind its file name.
pub fn with_suffix(p: &str, suffix: &str) -> (r: String)
    ensures
        r@ == p@ + suffix@,
{
    let mut s = owned(p);
    s.append(suffix);
    s
}

/// Marker that stands while an overlay is folded into its base. Folding is not
/// atomic; the marker lets the next open finish it.
pub fn apply_marker_path(overlay: &str) -> (r: String)
    ensures
        r@ == overlay@ + ".apply"@,
{
    with_suffix(overlay, ".apply")
}

/// File that a fresh overlay is built in, before it is renamed into place.
pub fn creating_path(overlay: &str) -> (r: String)
    ensures
        r@ == overlay@ + ".creating"@,
{
    with_suffix(overlay, ".creating")
}

/// File that a base is rebuilt in, beside it so that the rename is atomic.
pub fn temp_sync_path_for(base: &str) -> (r: String)
    ensures
        r@ == base@ + ".synctmp.chd"@,
{
    with_suffix(base, ".synctmp.chd")
}

/// What the marker of a commit says.
pub fn marker_text(base: &str, overlay: &str) -> (r: String)
    ensures
        r@ == "base="@ + base@ + "\noverlay="@ + overlay@ + "\n"@,
{
    let mut s = owned("base=");
    s.append(base);
    s.append("\noverlay=");
    s.append(overlay);
    s.append("\n");
    s
}

/// Where the diff of a base lies when its own directory cannot be written.
#[derive(Debug)]
pub struct DiffDir {
    /// The directory, with the separator that joins a file name to it.
    pub dir: String,
    /// A hash of the base's full path, so that bases of one name in different
    /// directories do not collide.
    pub path_hash: u64,
    /// Paths are those of Windows.
    pub windows: bool,
}

/// The overlay of a base in a directory of its own.
pub open spec fn diff_name(dir: Seq<char>, stem: Option<Seq<char>>, path_hash: u64) -> Seq<char> {
    let name = match stem {
        Some(stem) => stem,
        None => "disk"@,
    };
    dir + name + "."@ + crate::text::hex(path_hash as nat, 16) + ".diff.chd"@
}

/// The overlays of bases with different hashes, in one directory and of one stem, are different
/// files; each lies in its directory and ends in `.diff.chd`.
pub proof fn law_diffs_do_not_collide(dir: Seq<char>, stem: Option<Seq<char>>, a: u64, b: u64)
    ensures
        diff_name(dir, stem, a) == diff_name(dir, stem, b) <==> a == b,
        crate::text::begins_with(diff_name(dir, stem, a), dir),
        diff_name(dir, stem, a).skip(diff_name(dir, stem, a).len() - ".diff.chd"@.len())
            == ".diff.chd"@,
{
    let name = match stem {
        Some(stem) => stem,
        None => "disk"@,
    };
    let front = dir + name + "."@;
    let x = diff_name(dir, stem, a);
    let y = diff_name(dir, stem, b);
    crate::text::law_hex_digits(a as nat, 16);
    crate::text::law_hex_digits(b as nat, 16);
    let n = front.len() as int;
    assert(x.subrange(n, n + 16) =~= crate::text::hex(a as nat, 16));
    assert(y.subrange(n, n + 16) =~= crate::text::hex(b as nat, 16));
    if x == y {
        assert(vstd::arithmetic::power::pow(16, 16) == 0x1_0000_0000_0000_0000) by {
            reveal_with_fuel(vstd::arithmetic::power::pow, 17);
        }
        crate::text::lemma_hex_reads_back(a as nat, 16);
        crate::text::lemma_hex_reads_back(b as nat, 16);
    }
    assert(x.take(dir.len() as int) =~= dir);
    assert(x.skip(x.len() - ".diff.chd"@.len()) =~= ".diff.chd"@);
}

/// The overlay of a base: beside it, or in the directory that is set aside for
/// overlays, named by the base's stem (`disk` if it has none) and the hash of its path.
pub fn diff_path_for(parent: &str, aside: &Option<DiffDir>) -> (r: String)
    ensures
        r@ == match aside {
            Some(d) => d.dir@ + match stem_on(parent@, d.windows) {
                Some(stem) => stem,
                None => "disk"@,
            } + "."@ + crate::text::hex(d.path_hash as nat, 16) + ".diff.chd"@,
            None => parent@ + ".diff.chd"@,
        },
        match aside {
            Some(d) => r@ == diff_name(d.dir@, stem_on(parent@, d.windows), d.path_hash),
            None => r@ == parent@ + ".diff.chd"@,
        },
{
    match aside {
        Some(d) => {
            let mut s = owned(d.dir.as_str());
            match file_stem(parent, d.windows) {
                Some(stem) => {
                    s.append(string_of(&stem).as_str());
                },
                None => {
                    s.append("disk");
                },
            }
            s.append(".");
            push_hex(&mut s, d.path_hash, 16);
            s.append(".diff.chd");
            s
        },
        None => with_suffix(parent, ".diff.chd"),
    }
}

/// The last component of a path that names something, below `n` pieces: empty
/// components do not count, and `..` names nothing. `.` does not count either, but in a
/// verbatim path it names nothing.
pub open spec fn last_name(parts: Seq<Seq<char>>, verbatim: bool, n: int) -> Option<Seq<char>>
    decreases n,
{
    if n <= 0 || n > parts.len() {
        None
    } else if parts[n - 1].len() == 0 || (parts[n - 1] == seq!['.'] && !verbatim) {
        last_name(parts, verbatim, n - 1)
    } else if parts[n - 1] == seq!['.'] || parts[n - 1] == seq!['.', '.'] {
        None
    } else {
        Some(parts[n - 1])
    }
}

/// A separator of Windows.
pub open spec fn separates(c: char) -> bool {
    c == '/' || c == '\\'
}

/// A drive letter and its colon stand at `at`.
pub open spec fn drive_at(path: Seq<char>, at: int) -> bool {
    &&& 0 <= at && at + 2 <= path.len()
    &&& path[at + 1] == ':'
    &&& 'a' <= path[at] <= 'z' || 'A' <= path[at] <= 'Z'
}

/// A verbatim path of Windows: it begins with `\\?\`, written with no other separator.
pub open spec fn verbatim(path: Seq<char>) -> bool {
    path.len() >= 4 && path[0] == '\\' && path[1] == '\\' && path[2] == '?' && path[3] == '\\'
}

/// Where the component that begins at `at` ends. In a verbatim path only `\` separates.
pub open spec fn component_end(path: Seq<char>, verbatim: bool, at: int) -> int
    decreases path.len() - at,
{
    if at < 0 || at >= path.len() || path[at] == '\\' || (path[at] == '/' && !verbatim) {
        at
    } else {
        component_end(path, verbatim, at + 1)
    }
}

/// Where a server and its share end that begin at `at`; where the server ends if no share
/// is named.
pub open spec fn share_end(path: Seq<char>, verbatim: bool, at: int) -> int {
    let server = component_end(path, verbatim, at);
    let share = component_end(path, verbatim, server + 1);
    if share > server + 1 {
        share
    } else {
        server
    }
}

/// How many characters of a path of Windows are its prefix, which names a volume and no
/// file: a drive `C:`, a share `\\server\share`, a device `\\.\COM1`, or one of the
/// verbatim forms `\\?\C:`, `\\?\UNC\server\share` and `\\?\name`.
pub open spec fn prefix_len(path: Seq<char>) -> int {
    if verbatim(path) {
        if path.len() >= 8 && path[4] == 'U' && path[5] == 'N' && path[6] == 'C' && separates(
            path[7],
        ) {
            share_end(path, true, 8)
        } else if drive_at(path, 4) && (path.len() == 6 || separates(path[6])) {
            6
        } else {
            component_end(path, true, 4)
        }
    } else if path.len() >= 2 && separates(path[0]) && separates(path[1]) {
        if path.len() >= 4 && path[2] == '.' && separates(path[3]) {
            component_end(path, false, 4)
        } else {
            let server = component_end(path, false, 2);
            let share = share_end(path, false, 2);
            if server > 2 && share > server {
                share
            } else {
                0
            }
        }
    } else if drive_at(path, 0) {
        2
    } else {
        0
    }
}

/// A path without the prefix that it has on Windows. The separator that follows the prefix
/// of a verbatim path may be either one.
pub open spec fn without_prefix(path: Seq<char>, windows: bool) -> Seq<char> {
    if windows {
        let n = prefix_len(path);
        if verbatim(path) && n < path.len() && separates(path[n]) {
            path.skip(n + 1)
        } else {
            path.skip(n)
        }
    } else {
        path
    }
}

/// The separators of a path: `/`, on Windows `\` too, and only `\` in a verbatim path.
pub open spec fn separators(path: Seq<char>, windows: bool) -> (char, char) {
    if !windows {
        ('/', '/')
    } else if verbatim(path) {
        ('\\', '\\')
    } else {
        ('/', '\\')
    }
}

/// The file name of a path, none if its last component names nothing.
pub open spec fn file_name_on(path: Seq<char>, windows: bool) -> Option<Seq<char>> {
    let (a, b) = separators(path, windows);
    let parts = crate::net_addr::pieces(without_prefix(path, windows), a, b);
    last_name(parts, windows && verbatim(path), parts.len() as int)
}

fn is_separator(c: char) -> (r: bool)
    ensures
        r == separates(c),
{
    c == '/' || c == '\\'
}

fn has_drive(path: &[char], at: usize) -> (r: bool)
    requires
        at <= path.len(),
    ensures
        r == drive_at(path@, at as int),
{
    path.len() - at >= 2 && path[at + 1] == ':' && (('a' <= path[at] && path[at] <= 'z') || ('A'
        <= path[at] && path[at] <= 'Z'))
}

fn is_verbatim(path: &[char]) -> (r: bool)
    ensures
        r == verbatim(path@),
{
    path.len() >= 4 && path[0] == '\\' && path[1] == '\\' && path[2] == '?' && path[3] == '\\'
}

fn end_of_component(path: &[char], verb: bool, from: usize) -> (r: usize)
    requires
        from <= path.len(),
    ensures
        r == component_end(path@, verb, from as int),
        from <= r <= path.len(),
{
    let mut at: usize = from;
    while at < path.len() && path[at] != '\\' && (verb || path[at] != '/')
        invariant
            from <= at <= path.len(),
            component_end(path@, verb, from as int) == component_end(path@, verb, at as int),
        decreases path.len() - at,
    {
        at = at + 1;
    }
    at
}

/// Where the server ends, and where the share does.
fn end_of_share(path: &[char], verb: bool, from: usize) -> (r: (usize, usize))
    requires
        from <= path.len(),
    ensures
        r.0 == component_end(path@, verb, from as int),
        r.1 == share_end(path@, verb, from as int),
        from <= r.0 <= r.1 <= path.len(),
{
    let server: usize = end_of_component(path, verb, from);
    if server == path.len() {
        return (server, server);
    }
    let share: usize = end_of_component(path, verb, server + 1);
    if share > server + 1 {
        (server, share)
    } else {
        (server, server)
    }
}

fn length_of_prefix(path: &[char]) -> (r: usize)
    ensures
        r == prefix_len(path@),
        r <= path.len(),
{
    let n: usize = path.len();
    if is_verbatim(path) {
        if n >= 8 && path[4] == 'U' && path[5] == 'N' && path[6] == 'C' && is_separator(path[7]) {
            end_of_share(path, true, 8).1
        } else if has_drive(path, 4) && (n == 6 || is_separator(path[6])) {
            6
        } else {
            end_of_component(path, true, 4)
        }
    } else if n >= 2 && is_separator(path[0]) && is_separator(path[1]) {
        if n >= 4 && path[2] == '.' && is_separator(path[3]) {
            end_of_component(path, false, 4)
        } else {
            let (server, share) = end_of_share(path, false, 2);
            if server > 2 && share > server {
                share
            } else {
                0
            }
        }
    } else if has_drive(path, 0) {
        2
    } else {
        0
    }
}

/// The file name of a path, on Windows or elsewhere.
pub fn file_name(path: &str, windows: bool) -> (r: Option<Vec<char>>)
    ensures
        match r {
            Some(name) => file_name_on(path@, windows) == Some(name@),
            None => file_name_on(path@, windows) is None,
        },
{
    let all = chars_of(path);
    let verb = windows && is_verbatim(&all);
    let mut start: usize = 0;
    if windows {
        start = length_of_prefix(&all);
        if verb && start < all.len() && is_separator(all[start]) {
            start = start + 1;
        }
    }
    let chars = slice_of(&all, start, all.len());
    proof {
        assert(chars@ =~= without_prefix(path@, windows));
    }
    let a: char = if verb {
        '\\'
    } else {
        '/'
    };
    let b: char = if windows {
        '\\'
    } else {
        '/'
    };
    let parts = split_pieces(&chars, a, b);
    let ghost specs = crate::net_addr::pieces(chars@, a, b);
    let mut n: usize = parts.len();
    while n > 0
        invariant
            n <= parts.len(),
            parts.len() == specs.len(),
            file_name_on(path@, windows) == last_name(specs, verb, specs.len() as int),
            forall|i: int| 0 <= i < parts.len() ==> (#[trigger] parts[i])@ == specs[i],
            last_name(specs, verb, specs.len() as int) == last_name(specs, verb, n as int),
        decreases n,
    {
        let name = &parts[n - 1];
        let dot = name.len() == 1 && name[0] == '.';
        let dots = name.len() == 2 && name[0] == '.' && name[1] == '.';
        proof {
            assert(name@ == specs[n - 1]);
            assert(dot == (name@ =~= seq!['.']));
            assert(dots == (name@ =~= seq!['.', '.']));
        }
        if name.len() == 0 || (dot && !verb) {
            n = n - 1;
        } else if dot || dots {
            return None;
        } else {
            let found = slice_of(name, 0, name.len());
            proof {
                assert(found@ =~= name@);
            }
            return Some(found);
        }
    }
    None
}

/// Where the last dot of a file name stands, unless it is the first character.
pub open spec fn extension_dot(name: Seq<char>) -> Option<int> {
    match crate::text::last_before(name, '.', name.len() as int) {
        Some(i) => if i > 0 {
            Some(i)
        } else {
            None
        },
        None => None,
    }
}

/// The extension of a path: what stands behind the last dot of its file name,
/// unless that dot is the first character.
pub open spec fn extension_on(path: Seq<char>, windows: bool) -> Option<Seq<char>> {
    match file_name_on(path, windows) {
        Some(name) => match extension_dot(name) {
            Some(i) => Some(name.skip(i + 1)),
            None => None,
        },
        None => None,
    }
}

/// The stem of a path: its file name without the extension.
pub open spec fn stem_on(path: Seq<char>, windows: bool) -> Option<Seq<char>> {
    match file_name_on(path, windows) {
        Some(name) => match extension_dot(name) {
            Some(i) => Some(name.take(i)),
            None => Some(name),
        },
        None => None,
    }
}

/// The stem of a path, on Windows or elsewhere.
pub fn file_stem(path: &str, windows: bool) -> (r: Option<Vec<char>>)
    ensures
        match r {
            Some(stem) => stem_on(path@, windows) == Some(stem@),
            None => stem_on(path@, windows) is None,
        },
{
    match file_name(path, windows) {
        Some(name) => match find_last_char(&name, '.') {
            Some(i) => {
                if i == 0 {
                    Some(name)
                } else {
                    let stem = slice_of(&name, 0, i);
                    proof {
                        assert(stem@ =~= name@.take(i as int));
                    }
                    Some(stem)
                }
            },
            None => Some(name),
        },
        None => None,
    }
}

/// A path has the extension `chd`, in capitals or not.
pub open spec fn chd_on(path: Seq<char>, windows: bool) -> bool {
    extension_on(path, windows) matches Some(e) && crate::text::lowered(e) == "chd"@
}

/// Whether a path has the extension `chd`, in capitals or not, on Windows or elsewhere.
pub fn is_chd_on(path: &str, windows: bool) -> (r: bool)
    ensures
        r == chd_on(path@, windows),
{
    match file_name(path, windows) {
        Some(name) => match find_last_char(&name, '.') {
            Some(i) => {
                if i == 0 {
                    false
                } else {
                    let ext = slice_of(&name, i + 1, name.len());
                    proof {
                        assert(ext@ =~= name@.skip(i + 1));
                    }
                    same_chars(&lower_chars(&ext), &chars_of("chd"))
                }
            },
            None => false,
        },
        None => false,
    }
}

/// Whether a path has the extension `chd`, in capitals or not, as this host reads paths:
/// as Windows does if it separates components by `\`. A plain path reads the same on
/// every host; of another, the answer is one of the two.
pub fn is_chd(path: &str) -> (r: bool)
    ensures
        plain(path@) ==> r == chd_on(path@, false),
        r == chd_on(path@, false) || r == chd_on(path@, true),
{
    proof {
        if plain(path@) {
            law_plain_paths_read_alike(path@);
        }
    }
    is_chd_on(path, std::path::is_separator('\\'))
}

/// A path with nothing in it that only Windows knows: no `\`, no drive letter and no two
/// separators at its front.
pub open spec fn plain(path: Seq<char>) -> bool {
    &&& !path.contains('\\')
    &&& !drive_at(path, 0)
    &&& !(path.len() >= 2 && path[0] == '/' && path[1] == '/')
}

/// A plain path has the same file name, stem and extension on Windows as elsewhere.
pub proof fn law_plain_paths_read_alike(path: Seq<char>)
    requires
        plain(path),
    ensures
        file_name_on(path, true) == file_name_on(path, false),
        stem_on(path, true) == stem_on(path, false),
        extension_on(path, true) == extension_on(path, false),
        chd_on(path, true) == chd_on(path, false),
{
    if path.len() > 0 {
        assert(path.contains(path[0]));
    }
    if path.len() > 1 {
        assert(path.contains(path[1]));
    }
    assert(without_prefix(path, true) =~= path);
    lemma_one_separator(path);
}

proof fn lemma_one_separator(path: Seq<char>)
    requires
        !path.contains('\\'),
    ensures
        crate::net_addr::pieces(path, '/', '\\') == crate::net_addr::pieces(path, '/', '/'),
    decreases path.len(),
{
    if path.len() > 0 {
        let front = path.drop_last();
        assert forall|i: int| 0 <= i < front.len() implies front[i] != '\\' by {
            assert(path.contains(path[i]));
        }
        assert(path.contains(path.last()));
        lemma_one_separator(front);
    }
}

/// A text can name a file: it is not empty, holds no separator, and is neither `.` nor `..`.
pub open spec fn names_a_file(name: Seq<char>, a: char, b: char) -> bool {
    &&& name.len() > 0
    &&& forall|i: int| 0 <= i < name.len() ==> #[trigger] name[i] != a && name[i] != b
    &&& name != seq!['.']
    &&& name != seq!['.', '.']
}

/// The last piece of a path that names a file is its name, whatever stands before it.
proof fn lemma_last_piece(dir: Seq<char>, c: char, name: Seq<char>, a: char, b: char, verb: bool)
    requires
        c == a || c == b,
        names_a_file(name, a, b),
    ensures
        ({
            let whole = crate::net_addr::pieces(dir + seq![c] + name, a, b);
            let alone = crate::net_addr::pieces(name, a, b);
            &&& last_name(whole, verb, whole.len() as int) == Some(name)
            &&& last_name(alone, verb, alone.len() as int) == Some(name)
        }),
{
    crate::net_addr::law_separators_part_the_pieces(dir, c, name, a, b);
    crate::net_addr::law_separators_part_the_pieces(name, c, name, a, b);
    let whole = crate::net_addr::pieces(dir + seq![c] + name, a, b);
    assert(whole.last() == name);
}

/// The file name of a path is what stands behind its last `/`; without one it is the whole
/// path. A `/` at the end, and a `.` behind one, change nothing; behind a last `..` there is no
/// name.
pub proof fn law_file_names(dir: Seq<char>, name: Seq<char>)
    requires
        names_a_file(name, '/', '/'),
    ensures
        file_name_on(name, false) == Some(name),
        file_name_on(dir + seq!['/'] + name, false) == Some(name),
        file_name_on(dir + seq!['/'] + name + seq!['/'], false) == Some(name),
        file_name_on(dir + seq!['/'] + name + seq!['/'] + seq!['.'], false) == Some(name),
        file_name_on(dir + seq!['/'] + seq!['.', '.'], false) is None,
        file_name_on(dir + seq!['/'], false) == file_name_on(dir, false),
{
    lemma_last_piece(dir, '/', name, '/', '/', false);
    let full = dir + seq!['/'] + name;
    let none = Seq::<char>::empty();
    crate::net_addr::law_separators_part_the_pieces(full, '/', none, '/', '/');
    crate::net_addr::law_separators_part_the_pieces(none, '/', none, '/', '/');
    assert(full + seq!['/'] + none =~= full + seq!['/']);
    let whole = crate::net_addr::pieces(full, '/', '/');
    let ended = crate::net_addr::pieces(full + seq!['/'], '/', '/');
    assert(ended =~= whole.push(none));
    lemma_last_name_prefix(ended, whole, false, whole.len() as int);
    crate::net_addr::law_separators_part_the_pieces(full, '/', seq!['.'], '/', '/');
    crate::net_addr::law_separators_part_the_pieces(seq!['.'], '/', none, '/', '/');
    let dotted = crate::net_addr::pieces(full + seq!['/'] + seq!['.'], '/', '/');
    assert(dotted =~= whole.push(seq!['.']));
    lemma_last_name_prefix(dotted, whole, false, whole.len() as int);
    let up = seq!['.', '.'];
    crate::net_addr::law_separators_part_the_pieces(dir, '/', up, '/', '/');
    crate::net_addr::law_separators_part_the_pieces(up, '/', none, '/', '/');
    let above = crate::net_addr::pieces(dir + seq!['/'] + up, '/', '/');
    assert(above.last() == up);
    assert(up.len() == 2);
    assert(up != seq!['.']) by {
        assert(seq!['.'].len() == 1);
    }
    crate::net_addr::law_separators_part_the_pieces(dir, '/', none, '/', '/');
    assert(dir + seq!['/'] + none =~= dir + seq!['/']);
    let bare = crate::net_addr::pieces(dir, '/', '/');
    let closed = crate::net_addr::pieces(dir + seq!['/'], '/', '/');
    assert(closed =~= bare.push(none));
    lemma_last_name_prefix(closed, bare, false, bare.len() as int);
}

proof fn lemma_last_name_prefix(
    long: Seq<Seq<char>>,
    short: Seq<Seq<char>>,
    verb: bool,
    n: int,
)
    requires
        0 <= n <= short.len() <= long.len(),
        forall|i: int| 0 <= i < n ==> #[trigger] long[i] == short[i],
    ensures
        last_name(long, verb, n) == last_name(short, verb, n),
    decreases n,
{
    if n > 0 {
        lemma_last_name_prefix(long, short, verb, n - 1);
    }
}

/// On Windows both separators part a path, and a drive in front of it is not part of the file
/// name.
pub proof fn law_file_names_behind_a_drive(drive: char, dir: Seq<char>, c: char, name: Seq<char>)
    requires
        'a' <= drive <= 'z' || 'A' <= drive <= 'Z',
        c == '/' || c == '\\',
        names_a_file(name, '/', '\\'),
    ensures
        file_name_on(seq![drive, ':'] + name, true) == Some(name),
        file_name_on(seq![drive, ':'] + dir + seq![c] + name, true) == Some(name),
{
    lemma_last_piece(dir, c, name, '/', '\\', false);
    let a = seq![drive, ':'] + name;
    assert(a[0] == drive && a[1] == ':');
    assert(without_prefix(a, true) =~= name);
    let b = seq![drive, ':'] + dir + seq![c] + name;
    assert(b[0] == drive && b[1] == ':');
    assert(without_prefix(b, true) =~= dir + seq![c] + name);
}

/// On Windows a server and a share in front of a path are not part of the file name; alone
/// they name no file.
pub proof fn law_file_names_behind_a_share(
    server: Seq<char>,
    share: Seq<char>,
    c: char,
    name: Seq<char>,
)
    requires
        c == '/' || c == '\\',
        names_a_file(name, '/', '\\'),
        names_a_file(server, '/', '\\') && server != seq!['?'],
        names_a_file(share, '/', '\\'),
    ensures
        ({
            let volume = seq!['\\', '\\'] + server + seq!['\\'] + share;
            &&& file_name_on(volume, true) is None
            &&& file_name_on(volume + seq![c] + name, true) == Some(name)
        }),
{
    let front = seq!['\\', '\\'] + server + seq!['\\'] + share;
    let whole = front + seq![c] + name;
    let n = front.len() as int;
    let none = Seq::<char>::empty();
    assert(front.take(n) =~= front);
    assert(whole.take(n) =~= front);
    assert(whole[n] == c);
    lemma_share(front, server, share);
    lemma_share(whole, server, share);
    assert(without_prefix(front, true) =~= none);
    let parts = crate::net_addr::pieces(none, '/', '\\');
    assert(parts =~= seq![none]);
    assert(last_name(parts, false, 0) is None);
    assert(last_name(parts, false, 1) is None);
    assert(without_prefix(whole, true) =~= none + seq![c] + name);
    lemma_last_piece(none, c, name, '/', '\\', false);
}

/// The prefix of a verbatim share is the server and the share, that of a device the device, and
/// that of any other verbatim path its first component: none of them is part of the file name,
/// and alone they name no file.
pub proof fn law_file_names_behind_other_volumes(
    server: Seq<char>,
    share: Seq<char>,
    c: char,
    name: Seq<char>,
)
    requires
        c == '/' || c == '\\',
        names_a_file(name, '/', '\\'),
        names_a_file(server, '/', '\\'),
        names_a_file(share, '/', '\\'),
        server.len() > 3,
    ensures
        ({
            let volume = seq!['\\', '\\', '?', '\\', 'U', 'N', 'C', '\\'] + server + seq!['\\']
                + share;
            &&& file_name_on(volume, true) is None
            &&& file_name_on(volume + seq!['\\'] + name, true) == Some(name)
        }),
        ({
            let volume = seq!['\\', '\\', '.', '\\'] + server;
            &&& file_name_on(volume, true) is None
            &&& file_name_on(volume + seq![c] + name, true) == Some(name)
        }),
        ({
            let volume = seq!['\\', '\\', '?', '\\'] + server;
            &&& file_name_on(volume, true) is None
            &&& file_name_on(volume + seq!['\\'] + name, true) == Some(name)
        }),
{
    lemma_verbatim_share(server, share, name);
    lemma_device(server, c, name);
    lemma_verbatim_volume(server, name);
}

/// Nothing behind the prefix names no file.
proof fn lemma_nothing_behind(path: Seq<char>)
    requires
        without_prefix(path, true).len() == 0,
    ensures
        file_name_on(path, true) is None,
{
    let none = Seq::<char>::empty();
    assert(without_prefix(path, true) =~= none);
    let (a, b) = separators(path, true);
    let verb = verbatim(path);
    let parts = crate::net_addr::pieces(none, a, b);
    assert(parts =~= seq![none]);
    assert(last_name(parts, verb, 0) is None);
    assert(last_name(parts, verb, 1) is None);
}

proof fn lemma_verbatim_share(server: Seq<char>, share: Seq<char>, name: Seq<char>)
    requires
        names_a_file(name, '/', '\\'),
        names_a_file(server, '/', '\\'),
        names_a_file(share, '/', '\\'),
    ensures
        ({
            let volume = seq!['\\', '\\', '?', '\\', 'U', 'N', 'C', '\\'] + server + seq!['\\']
                + share;
            &&& file_name_on(volume, true) is None
            &&& file_name_on(volume + seq!['\\'] + name, true) == Some(name)
        }),
{
    let volume = seq!['\\', '\\', '?', '\\', 'U', 'N', 'C', '\\'] + server + seq!['\\'] + share;
    let whole = volume + seq!['\\'] + name;
    let n = server.len() as int;
    let m = share.len() as int;
    assert forall|i: int| 8 <= i < 8 + n implies !separates(#[trigger] volume[i]) by {
        assert(volume[i] == server[i - 8]);
    }
    assert(volume[8 + n] == '\\');
    assert forall|i: int| 9 + n <= i < 9 + n + m implies !separates(#[trigger] volume[i]) by {
        assert(volume[i] == share[i - 9 - n]);
    }
    assert forall|i: int| 0 <= i < volume.len() implies #[trigger] whole[i] == volume[i] by {}
    assert(whole[9 + n + m] == '\\');
    lemma_any_component(volume, true, 8, 8 + n);
    lemma_any_component(volume, true, 9 + n, 9 + n + m);
    lemma_any_component(whole, true, 8, 8 + n);
    lemma_any_component(whole, true, 9 + n, 9 + n + m);
    assert(prefix_len(volume) == volume.len());
    assert(prefix_len(whole) == volume.len());
    lemma_nothing_behind(volume);
    assert(without_prefix(whole, true) =~= name);
    lemma_last_piece(name, '\\', name, '\\', '\\', true);
}

proof fn lemma_device(device: Seq<char>, c: char, name: Seq<char>)
    requires
        c == '/' || c == '\\',
        names_a_file(name, '/', '\\'),
        names_a_file(device, '/', '\\'),
    ensures
        ({
            let volume = seq!['\\', '\\', '.', '\\'] + device;
            &&& file_name_on(volume, true) is None
            &&& file_name_on(volume + seq![c] + name, true) == Some(name)
        }),
{
    let volume = seq!['\\', '\\', '.', '\\'] + device;
    let whole = volume + seq![c] + name;
    let n = device.len() as int;
    let none = Seq::<char>::empty();
    assert forall|i: int| 4 <= i < 4 + n implies !separates(#[trigger] volume[i]) by {
        assert(volume[i] == device[i - 4]);
    }
    assert forall|i: int| 0 <= i < volume.len() implies #[trigger] whole[i] == volume[i] by {}
    assert(whole[4 + n] == c);
    lemma_any_component(volume, false, 4, 4 + n);
    lemma_any_component(whole, false, 4, 4 + n);
    assert(prefix_len(volume) == volume.len());
    assert(prefix_len(whole) == volume.len());
    lemma_nothing_behind(volume);
    assert(without_prefix(whole, true) =~= none + seq![c] + name);
    lemma_last_piece(none, c, name, '/', '\\', false);
}

proof fn lemma_verbatim_volume(first: Seq<char>, name: Seq<char>)
    requires
        names_a_file(name, '/', '\\'),
        names_a_file(first, '/', '\\'),
        first.len() > 3,
    ensures
        ({
            let volume = seq!['\\', '\\', '?', '\\'] + first;
            &&& file_name_on(volume, true) is None
            &&& file_name_on(volume + seq!['\\'] + name, true) == Some(name)
        }),
{
    let volume = seq!['\\', '\\', '?', '\\'] + first;
    let whole = volume + seq!['\\'] + name;
    let n = first.len() as int;
    assert forall|i: int| 4 <= i < 4 + n implies !separates(#[trigger] volume[i]) by {
        assert(volume[i] == first[i - 4]);
    }
    assert forall|i: int| 0 <= i < volume.len() implies #[trigger] whole[i] == volume[i] by {}
    assert(!separates(volume[6]) && !separates(volume[7]));
    assert(whole[4 + n] == '\\');
    lemma_any_component(volume, true, 4, 4 + n);
    lemma_any_component(whole, true, 4, 4 + n);
    assert(prefix_len(volume) == volume.len());
    assert(prefix_len(whole) == volume.len());
    lemma_nothing_behind(volume);
    assert(without_prefix(whole, true) =~= name);
    lemma_last_piece(name, '\\', name, '\\', '\\', true);
}

proof fn lemma_any_component(path: Seq<char>, verb: bool, at: int, end: int)
    requires
        0 <= at <= end <= path.len(),
        forall|i: int| at <= i < end ==> !separates(#[trigger] path[i]),
        end < path.len() ==> path[end] == '\\' || (path[end] == '/' && !verb),
    ensures
        component_end(path, verb, at) == end,
    decreases end - at,
{
    if at < end {
        lemma_any_component(path, verb, at + 1, end);
    }
}

/// In a verbatim path of Windows only the backslash parts: behind the drive, the file name is
/// what stands behind the last one, slashes and all, and a last `.` names nothing.
pub proof fn law_file_names_in_verbatim_paths(drive: char, dir: Seq<char>, name: Seq<char>)
    requires
        'a' <= drive <= 'z' || 'A' <= drive <= 'Z',
        names_a_file(name, '\\', '\\'),
    ensures
        ({
            let volume = seq!['\\', '\\', '?', '\\', drive, ':', '\\'];
            &&& file_name_on(volume + name, true) == Some(name)
            &&& file_name_on(volume + dir + seq!['\\'] + name, true) == Some(name)
            &&& file_name_on(volume + dir + seq!['\\'] + seq!['.'], true) is None
        }),
{
    let volume = seq!['\\', '\\', '?', '\\', drive, ':', '\\'];
    lemma_last_piece(dir, '\\', name, '\\', '\\', true);
    let a = volume + name;
    lemma_verbatim_drive(a, drive, name);
    let b = volume + dir + seq!['\\'] + name;
    assert(b =~= volume + (dir + seq!['\\'] + name));
    lemma_verbatim_drive(b, drive, dir + seq!['\\'] + name);
    let dot = seq!['.'];
    let c = volume + dir + seq!['\\'] + dot;
    assert(c =~= volume + (dir + seq!['\\'] + dot));
    lemma_verbatim_drive(c, drive, dir + seq!['\\'] + dot);
    crate::net_addr::law_separators_part_the_pieces(dir, '\\', dot, '\\', '\\');
    crate::net_addr::law_separators_part_the_pieces(dot, '\\', dot, '\\', '\\');
    let parts = crate::net_addr::pieces(dir + seq!['\\'] + dot, '\\', '\\');
    assert(parts.last() == dot);
}

proof fn lemma_verbatim_drive(path: Seq<char>, drive: char, rest: Seq<char>)
    requires
        'a' <= drive <= 'z' || 'A' <= drive <= 'Z',
        path == seq!['\\', '\\', '?', '\\', drive, ':', '\\'] + rest,
    ensures
        verbatim(path),
        without_prefix(path, true) == rest,
{
    assert(path[5] == ':');
    assert(path[6] == '\\');
    assert(prefix_len(path) == 6);
    assert(path.skip(7) =~= rest);
}

/// The prefix of a path that begins with a server and a share is those two.
proof fn lemma_share(path: Seq<char>, server: Seq<char>, share: Seq<char>)
    requires
        names_a_file(server, '/', '\\') && server != seq!['?'],
        names_a_file(share, '/', '\\'),
        ({
            let front = seq!['\\', '\\'] + server + seq!['\\'] + share;
            &&& front.len() <= path.len()
            &&& path.take(front.len() as int) == front
            &&& front.len() < path.len() ==> separates(path[front.len() as int])
        }),
    ensures
        !verbatim(path),
        prefix_len(path) == 3 + server.len() + share.len(),
{
    let front = seq!['\\', '\\'] + server + seq!['\\'] + share;
    let n = server.len() as int;
    let m = share.len() as int;
    assert forall|i: int| 0 <= i < front.len() implies path[i] == #[trigger] front[i] by {
        assert(path.take(front.len() as int)[i] == path[i]);
    }
    assert(path[0] == front[0] && path[1] == front[1]);
    assert forall|i: int| 0 <= i < n implies path[2 + i] == #[trigger] server[i] by {
        assert(front[2 + i] == server[i]);
    }
    assert(front[2 + n] == '\\');
    assert forall|i: int| 0 <= i < m implies path[3 + n + i] == #[trigger] share[i] by {
        assert(front[3 + n + i] == share[i]);
    }
    if verbatim(path) {
        if n > 1 {
            assert(path[3] == server[1]);
        }
        assert(n == 1);
        assert(server[0] == '?');
        assert(server =~= seq!['?']);
    }
    if path[2] == '.' && separates(path[3]) {
        if n > 1 {
            assert(server[1] == path[3]);
        }
        assert(server[0] == '.');
        assert(server =~= seq!['.']);
    }
    assert forall|i: int| 2 <= i < 2 + n implies !separates(#[trigger] path[i]) by {
        assert(path[2 + (i - 2)] == server[i - 2]);
    }
    assert forall|i: int| 3 + n <= i < 3 + n + m implies !separates(#[trigger] path[i]) by {
        assert(path[3 + n + (i - 3 - n)] == share[i - 3 - n]);
    }
    lemma_any_component(path, false, 2, 2 + n);
    lemma_any_component(path, false, 3 + n, 3 + n + m);
}

/// A name is parted at its last dot: what stands before it is the stem, what stands behind it
/// the extension. A dot at the very front parts nothing, nor does a name without a dot. The
/// extension of a CHD is `chd`, in capitals or not.
pub proof fn law_extensions(dir: Seq<char>, stem: Seq<char>, ext: Seq<char>, name: Seq<char>)
    requires
        stem.len() > 0,
        names_a_file(stem + seq!['.'] + ext, '/', '/'),
        forall|i: int| 0 <= i < ext.len() ==> #[trigger] ext[i] != '.',
        names_a_file(name, '/', '/'),
        forall|i: int| 0 < i < name.len() ==> #[trigger] name[i] != '.',
    ensures
        ({
            let path = dir + seq!['/'] + (stem + seq!['.'] + ext);
            &&& extension_on(path, false) == Some(ext)
            &&& stem_on(path, false) == Some(stem)
            &&& chd_on(path, false) <==> ext.len() == 3 && (ext[0] == 'c' || ext[0] == 'C') && (
            ext[1] == 'h' || ext[1] == 'H') && (ext[2] == 'd' || ext[2] == 'D')
        }),
        extension_on(dir + seq!['/'] + name, false) is None,
        stem_on(dir + seq!['/'] + name, false) == Some(name),
        !chd_on(dir + seq!['/'] + name, false),
{
    let file = stem + seq!['.'] + ext;
    law_file_names(dir, file);
    law_file_names(dir, name);
    crate::text::law_last_place(file, '.', file.len() as int);
    let at = stem.len() as int;
    assert(file[at] == '.');
    assert forall|k: int| at < k < file.len() implies #[trigger] file[k] != '.' by {
        assert(file[k] == ext[k - at - 1]);
    }
    assert(crate::text::last_before(file, '.', file.len() as int) == Some(at));
    assert(file.skip(at + 1) =~= ext);
    assert(file.take(at) =~= stem);
    crate::text::law_last_place(name, '.', name.len() as int);
    reveal_strlit("chd");
    let low = crate::text::lowered(ext);
    assert(low.len() == ext.len());
    assert("chd"@.len() == 3);
    if ext.len() == 3 {
        crate::text::law_lower_case(ext, 0);
        crate::text::law_lower_case(ext, 1);
        crate::text::law_lower_case(ext, 2);
        if low[0] == 'c' && low[1] == 'h' && low[2] == 'd' {
            assert(low =~= "chd"@);
        }
    }
    if low == "chd"@ {
        assert(ext.len() == 3);
        assert(low[0] == 'c' && low[1] == 'h' && low[2] == 'd');
    }
}

// ---------------------------------------------------------------------------
// Existing overlays
// ---------------------------------------------------------------------------

/// What an overlay that lies beside a base turns out to be.
#[derive(Clone, Copy, Debug, PartialEq, Eq, Structural)]
pub enum ExistingOverlay {
    /// A sparse overlay: it has the overlay's own record.
    Sparse,
    /// A diff that names a parent, usable with a compressed base.
    Parented,
    /// A diff that names no parent and is no sparse overlay: what was left where a
    /// diff was made for an uncompressed base. Nothing can be read through it, so
    /// nothing was written through it either.
    UnlinkableParentless,
}

/// What an overlay is, by whether it has the overlay's own record and by the parent that its
/// header names.
pub open spec fn overlay_kind(has_record: bool, parent_sha1: Seq<u8>) -> ExistingOverlay {
    if has_record {
        ExistingOverlay::Sparse
    } else if crate::sparse_overlay::all_zeros(parent_sha1) {
        ExistingOverlay::UnlinkableParentless
    } else {
        ExistingOverlay::Parented
    }
}

/// An overlay with its own record is a sparse one whatever its header says; of the others, one
/// whose parent has a byte that is not zero has a parent, and one without such a byte has none.
pub proof fn law_what_an_overlay_is(parent_sha1: Seq<u8>, i: int)
    ensures
        overlay_kind(true, parent_sha1) == ExistingOverlay::Sparse,
        0 <= i < parent_sha1.len() && parent_sha1[i] != 0 ==> overlay_kind(false, parent_sha1)
            == ExistingOverlay::Parented,
        (forall|k: int| 0 <= k < parent_sha1.len() ==> #[trigger] parent_sha1[k] == 0)
            ==> overlay_kind(false, parent_sha1) == ExistingOverlay::UnlinkableParentless,
{
}

/// What an overlay is: the overlay's own record decides first, then whether the
/// header names a parent.
pub fn classify_overlay(has_record: bool, parent_sha1: &[u8; 20]) -> (r: ExistingOverlay)
    ensures
        r == if has_record {
            ExistingOverlay::Sparse
        } else if forall|i: int| 0 <= i < 20 ==> parent_sha1@[i] == 0 {
            ExistingOverlay::UnlinkableParentless
        } else {
            ExistingOverlay::Parented
        },
        r == overlay_kind(has_record, parent_sha1@),
{
    if has_record {
        return ExistingOverlay::Sparse;
    }
    let mut i: usize = 0;
    while i < 20
        invariant
            !has_record,
            i <= 20,
            forall|k: int| 0 <= k < i ==> parent_sha1@[k] == 0,
        decreases 20 - i,
    {
        if parent_sha1[i] != 0 {
            return ExistingOverlay::Parented;
        }
        i = i + 1;
    }
    ExistingOverlay::UnlinkableParentless
}

/// Whether a diff that cannot be linked may be removed: only one whose hunk map
/// shows that nothing was ever written to it.
pub fn discard_unusable_diff(diff: &str, map: &Vec<u32>) -> (r: Result<(), DiskError>)
    ensures
        match r {
            Ok(_) => forall|i: int| 0 <= i < map.len() ==> map@[i] == 0,
            Err(e) => {
                &&& exists|i: int| 0 <= i < map.len() && map@[i] != 0
                &&& e@ == (
                    DiskErrorKind::InvalidData,
                    diff@
                        + " is a diff whose parent link cannot be validated, but it holds written hunks. Move it aside and inspect it offline; IRIS will not discard it."@,
                )
            },
        },
{
    let mut i: usize = 0;
    while i < map.len()
        invariant
            i <= map.len(),
            forall|k: int| 0 <= k < i ==> map@[k] == 0,
        decreases map.len() - i,
    {
        if map[i] != 0 {
            let mut m = owned(diff);
            m.append(
                " is a diff whose parent link cannot be validated, but it holds written hunks. Move it aside and inspect it offline; IRIS will not discard it.",
            );
            return Err(invalid_data(m));
        }
        i = i + 1;
    }
    Ok(())
}

/// How an overlay is folded into its base.
#[derive(Clone, Copy, Debug, PartialEq, Eq, Structural)]
pub enum CommitAction {
    /// Write the overlay's hunks into the base, in place.
    ApplyHunks,
    /// Rebuild the base through the compressor.
    Flatten,
    /// Nothing was written; remove the overlay.
    Discard,
}

/// How an overlay is folded into its base, by what it is.
pub open spec fn commit_way(existing: ExistingOverlay) -> CommitAction {
    match existing {
        ExistingOverlay::Sparse => CommitAction::ApplyHunks,
        ExistingOverlay::Parented => CommitAction::Flatten,
        ExistingOverlay::UnlinkableParentless => CommitAction::Discard,
    }
}

/// A commit throws an overlay away exactly if nothing can have been written through it; it
/// writes hunks into the base exactly for a sparse overlay, and rebuilds the base exactly for a
/// diff of it.
pub proof fn law_ways_of_committing(existing: ExistingOverlay)
    ensures
        commit_way(existing) == CommitAction::Discard <==> existing
            == ExistingOverlay::UnlinkableParentless,
        commit_way(existing) == CommitAction::ApplyHunks <==> existing == ExistingOverlay::Sparse,
        commit_way(existing) == CommitAction::Flatten <==> existing == ExistingOverlay::Parented,
{
}

/// How an overlay is folded into its base, by what it is.
pub fn commit_overlay(existing: ExistingOverlay) -> (r: CommitAction)
    ensures
        r == match existing {
            ExistingOverlay::Sparse => CommitAction::ApplyHunks,
            ExistingOverlay::Parented => CommitAction::Flatten,
            ExistingOverlay::UnlinkableParentless => CommitAction::Discard,
        },
        r == commit_way(existing),
{
    match existing {
        ExistingOverlay::Sparse => CommitAction::ApplyHunks,
        ExistingOverlay::Parented => CommitAction::Flatten,
        ExistingOverlay::UnlinkableParentless => CommitAction::Discard,
    }
}

/// What an open does about a commit that was cut short.
#[derive(Clone, Copy, Debug, PartialEq, Eq, Structural)]
pub enum ResumeAction {
    /// No commit was running.
    Nothing,
    /// Write the overlay's hunks into the base, remove the overlay, then the marker.
    FinishCommit,
    /// The overlay is gone: the commit had ended. Remove the marker.
    ClearMarker,
    /// The overlay is no sparse one, so that the marker is stale. Remove it, with a
    /// warning; an error would leave the disk unopenable.
    ClearStaleMarker,
}

/// What an open does about a marker, by what lies beside it.
pub open spec fn resume_way(
    marker_exists: bool,
    overlay_exists: bool,
    classified: Option<ExistingOverlay>,
) -> ResumeAction {
    if !marker_exists {
        ResumeAction::Nothing
    } else if !overlay_exists {
        ResumeAction::ClearMarker
    } else if classified == Some(ExistingOverlay::Sparse) {
        ResumeAction::FinishCommit
    } else {
        ResumeAction::ClearStaleMarker
    }
}

/// Without a marker an open does nothing. With one, the hunks are written exactly if a sparse
/// overlay is there; else the marker alone goes, with a warning exactly if some other overlay is
/// there.
pub proof fn law_ways_of_resuming(
    marker_exists: bool,
    overlay_exists: bool,
    classified: Option<ExistingOverlay>,
)
    ensures
        ({
            let way = resume_way(marker_exists, overlay_exists, classified);
            let sparse = classified == Some(ExistingOverlay::Sparse);
            &&& way == ResumeAction::Nothing <==> !marker_exists
            &&& way == ResumeAction::FinishCommit <==> marker_exists && overlay_exists && sparse
            &&& way == ResumeAction::ClearMarker <==> marker_exists && !overlay_exists
            &&& way == ResumeAction::ClearStaleMarker <==> marker_exists && overlay_exists
                && !sparse
        }),
{
}

/// What an open does about a marker. `overlay` is what lies there: nothing, or an
/// overlay that could or could not be classified.
pub fn resume_interrupted_commit(
    marker_exists: bool,
    overlay_exists: bool,
    classified: Option<ExistingOverlay>,
) -> (r: ResumeAction)
    ensures
        r == if !marker_exists {
            ResumeAction::Nothing
        } else if !overlay_exists {
            ResumeAction::ClearMarker
        } else if classified == Some(ExistingOverlay::Sparse) {
            ResumeAction::FinishCommit
        } else {
            ResumeAction::ClearStaleMarker
        },
        r == resume_way(marker_exists, overlay_exists, classified),
{
    if !marker_exists {
        return ResumeAction::Nothing;
    }
    if !overlay_exists {
        return ResumeAction::ClearMarker;
    }
    match classified {
        Some(ExistingOverlay::Sparse) => ResumeAction::FinishCommit,
        _ => ResumeAction::ClearStaleMarker,
    }
}

// ---------------------------------------------------------------------------
// The hard disk
// ---------------------------------------------------------------------------

/// How a hard disk is opened, and so where its writes land.
#[derive(Clone, Copy, Debug, PartialEq, Eq, Structural)]
pub enum OpenAction {
    /// Attach the sparse overlay that is there.
    AttachSparse,
    /// Reopen the diff that is there.
    ReopenParented,
    /// Make a diff, for a compressed base.
    CreateParented,
    /// Make a sparse overlay, for an uncompressed base.
    CreateSparse,
    /// Write the uncompressed base in place.
    WriteInPlace,
}

impl OpenAction {
    /// Writes go to a sparse overlay.
    pub open spec fn sparse(self) -> bool {
        self == OpenAction::AttachSparse || self == OpenAction::CreateSparse
    }

    /// The overlay carries what an earlier session wrote.
    pub open spec fn reattached(self) -> bool {
        self == OpenAction::AttachSparse || self == OpenAction::ReopenParented
    }
}

/// How a disk with no usable overlay beside it is opened.
pub open spec fn fresh_action(compressed: bool, cow: bool) -> OpenAction {
    if compressed {
        OpenAction::CreateParented
    } else if cow {
        OpenAction::CreateSparse
    } else {
        OpenAction::WriteInPlace
    }
}

/// How a hard disk is opened, and whether what lies beside it is discarded first.
pub open spec fn opening(existing: Option<ExistingOverlay>, compressed: bool, cow: bool) -> (
    bool,
    OpenAction,
) {
    match existing {
        Some(ExistingOverlay::Sparse) => (false, OpenAction::AttachSparse),
        Some(ExistingOverlay::Parented) => (false, OpenAction::ReopenParented),
        Some(ExistingOverlay::UnlinkableParentless) => (true, fresh_action(compressed, cow)),
        None => (false, fresh_action(compressed, cow)),
    }
}

/// What an earlier session wrote is never passed over: an overlay that can be read through is
/// used, whatever is asked for now, and only one that cannot is discarded. A base is written in
/// place exactly if no usable overlay lies beside it, it is not compressed and copy-on-write is
/// not asked for.
pub proof fn law_openings(existing: Option<ExistingOverlay>, compressed: bool, cow: bool)
    ensures
        ({
            let (discard, action) = opening(existing, compressed, cow);
            let usable = existing == Some(ExistingOverlay::Sparse) || existing == Some(
                ExistingOverlay::Parented,
            );
            &&& discard <==> existing == Some(ExistingOverlay::UnlinkableParentless)
            &&& action.reattached() <==> usable
            &&& action == OpenAction::AttachSparse <==> existing == Some(ExistingOverlay::Sparse)
            &&& action == OpenAction::ReopenParented <==> existing == Some(
                ExistingOverlay::Parented,
            )
            &&& action == OpenAction::WriteInPlace <==> !usable && !compressed && !cow
            &&& action == OpenAction::CreateParented <==> !usable && compressed
            &&& action == OpenAction::CreateSparse <==> !usable && !compressed && cow
        }),
{
}

/// How a disk is opened, given its base and the overlay that lies beside it. The
/// bool says that what lies there has to be discarded first.
pub fn open_action(
    path: &str,
    is_hd: bool,
    compressed: bool,
    existing: Option<ExistingOverlay>,
    cow: bool,
) -> (r: Result<(bool, OpenAction), DiskError>)
    ensures
        match r {
            Ok((discard, action)) => {
                &&& is_hd
                &&& discard == (existing == Some(ExistingOverlay::UnlinkableParentless))
                &&& action == match existing {
                    Some(ExistingOverlay::Sparse) => OpenAction::AttachSparse,
                    Some(ExistingOverlay::Parented) => OpenAction::ReopenParented,
                    _ => fresh_action(compressed, cow),
                }
                &&& (discard, action) == opening(existing, compressed, cow)
            },
            Err(e) => !is_hd && e@ == (
                DiskErrorKind::InvalidInput,
                path@ + " is not a hard-disk CHD"@,
            ),
        },
{
    if !is_hd {
        let mut m = owned(path);
        m.append(" is not a hard-disk CHD");
        return Err(invalid_input(m));
    }
    let discard = match existing {
        Some(ExistingOverlay::Sparse) => {
            return Ok((false, OpenAction::AttachSparse));
        },
        Some(ExistingOverlay::Parented) => {
            return Ok((false, OpenAction::ReopenParented));
        },
        Some(ExistingOverlay::UnlinkableParentless) => true,
        None => false,
    };
    let action = if compressed {
        OpenAction::CreateParented
    } else if cow {
        OpenAction::CreateSparse
    } else {
        OpenAction::WriteInPlace
    };
    Ok((discard, action))
}

/// With copy-on-write asked for, the base is never written in place; a compressed
/// base never is.
pub proof fn law_cow_never_writes_the_base(compressed: bool, cow: bool)
    ensures
        fresh_action(compressed, cow) == OpenAction::WriteInPlace <==> !compressed && !cow,
{
}

/// What is wrong with a read of blocks, if anything. A sparse overlay checks the place
/// of every transfer; the others go sector by sector, so that an empty transfer is
/// accepted anywhere.
pub open spec fn block_read_error(
    lba: u64,
    count: usize,
    block_size: u64,
    sector: u32,
    total: u64,
    sparse: bool,
) -> Option<(DiskErrorKind, Seq<char>)> {
    if block_size != sector {
        Some(
            (
                DiskErrorKind::InvalidInput,
                "CHD HD sector size "@ + crate::text::decimal(sector as nat)
                    + " != requested block size "@ + crate::text::decimal(block_size as nat),
            ),
        )
    } else if count == 0 && !sparse {
        None
    } else if lba * sector > u64::MAX || count * sector > usize::MAX {
        Some((DiskErrorKind::InvalidData, "read offset overflows"@))
    } else {
        crate::sparse_overlay::transfer_error(
            "read"@,
            (lba * sector) as u64,
            (count * sector) as usize,
            total,
        )
    }
}

/// What is wrong with a write of sectors, if anything. As with a read, only a sparse
/// overlay checks the place of an empty one.
pub open spec fn sector_write_error(
    lba: u64,
    len: usize,
    sector: u32,
    total: u64,
    sparse: bool,
) -> Option<(DiskErrorKind, Seq<char>)> {
    if len as int % sector as int != 0 {
        Some(
            (
                DiskErrorKind::InvalidInput,
                "CHD HD write length "@ + crate::text::decimal(len as nat)
                    + " not a multiple of sector "@ + crate::text::decimal(sector as nat),
            ),
        )
    } else if len == 0 && !sparse {
        None
    } else if lba * sector > u64::MAX {
        Some((DiskErrorKind::InvalidData, "write offset overflows"@))
    } else {
        crate::sparse_overlay::transfer_error("write"@, (lba * sector) as u64, len, total)
    }
}

/// Where a transfer starts. An empty one that is not checked for its place has none, and
/// is put at the start of the disk.
pub open spec fn transfer_start(lba: u64, len: usize, sector: u32, sparse: bool) -> int {
    if len == 0 && !sparse {
        0
    } else {
        lba * sector
    }
}

/// Which transfers a hard disk accepts: a read in blocks of a sector, and a write of whole
/// sectors, that end on the disk. Where no sparse overlay looks at the place, an empty one is
/// accepted anywhere.
pub proof fn law_which_transfers_are_accepted(
    lba: u64,
    count: usize,
    len: usize,
    block_size: u64,
    sector: u32,
    total: u64,
    sparse: bool,
)
    requires
        sector > 0,
        count * sector <= usize::MAX,
    ensures
        block_read_error(lba, count, block_size, sector, total, sparse) is None <==> block_size
            == sector && ((count == 0 && !sparse) || lba * sector + count * sector <= total),
        sector_write_error(lba, len, sector, total, sparse) is None <==> len as int % sector as int
            == 0 && ((len == 0 && !sparse) || lba * sector + len <= total),
        block_read_error(lba, count, block_size, sector, total, sparse) matches Some(e) ==> (
        block_size != sector ==> e.0 == DiskErrorKind::InvalidInput),
        sector_write_error(lba, len, sector, total, sparse) matches Some(e) ==> (len as int
            % sector as int != 0 ==> e.0 == DiskErrorKind::InvalidInput),
{
    assert(0 <= lba * sector && 0 <= count * sector) by (nonlinear_arith)
        requires
            lba >= 0,
            count >= 0,
            sector > 0,
    ;
}

/// Where an accepted transfer starts: as many bytes from the start of the disk as there are in
/// the sectors before it, unless it is empty and its place was not looked at.
pub proof fn law_where_transfers_start(lba: u64, len: usize, sector: u32, sparse: bool)
    ensures
        len > 0 || sparse ==> transfer_start(lba, len, sector, sparse) == lba * sector,
        len == 0 && !sparse ==> transfer_start(lba, len, sector, sparse) == 0,
{
}

/// What each way of opening means: writes go to a sparse overlay where one is attached or
/// made, and what an earlier session wrote is there where an overlay is attached or a diff
/// reopened. A disk without an overlay gets a diff if it is compressed, else a sparse overlay if
/// copy-on-write is asked for, else none.
pub proof fn law_ways_of_opening(action: OpenAction, compressed: bool, cow: bool)
    ensures
        action.sparse() <==> action == OpenAction::AttachSparse || action
            == OpenAction::CreateSparse,
        action.reattached() <==> action == OpenAction::AttachSparse || action
            == OpenAction::ReopenParented,
        !fresh_action(compressed, cow).reattached(),
        fresh_action(compressed, cow) == OpenAction::CreateParented <==> compressed,
        fresh_action(compressed, cow) == OpenAction::CreateSparse <==> !compressed && cow,
        fresh_action(compressed, cow) == OpenAction::WriteInPlace <==> !compressed && !cow,
{
}

/// What an accepted write leaves behind: whether the overlay differs from the base, and whether
/// something waits for a flush.
pub open spec fn after_write(has_overlay: bool, unsynced: bool, len: usize) -> (bool, bool) {
    (has_overlay, unsynced || len > 0)
}

/// After an accepted write an overlay counts as changed, whatever it was before, and a base
/// without one never does. Bytes that were written wait for a flush until there is one.
pub proof fn law_writes_leave_their_mark(has_overlay: bool, unsynced: bool, len: usize)
    ensures
        after_write(has_overlay, unsynced, len).0 <==> has_overlay,
        len > 0 ==> after_write(has_overlay, unsynced, len).1,
        after_write(has_overlay, unsynced, 0).1 == unsynced,
        after_write(has_overlay, true, len).1,
{
}

/// A clean exit folds an overlay back by itself.
pub open spec fn folds_back(cow: bool, diverged: bool, has_overlay: bool) -> bool {
    !cow && diverged && has_overlay
}

/// With copy-on-write nothing is ever folded back by itself; without, exactly an overlay with
/// changes is.
pub proof fn law_what_folds_back(diverged: bool, has_overlay: bool)
    ensures
        !folds_back(true, diverged, has_overlay),
        folds_back(false, diverged, has_overlay) <==> diverged && has_overlay,
{
}

/// A writable hard disk.
#[derive(Debug)]
pub struct ChdHd {
    action: OpenAction,
    sector_size: u32,
    total_bytes: u64,
    base_path: String,
    diff_path: Option<String>,
    dirty: bool,
    cow: bool,
    unflushed: bool,
}

impl ChdHd {
    /// How the disk was opened.
    pub closed spec fn opened_as(self) -> OpenAction {
        self.action
    }

    /// Bytes in a sector.
    pub closed spec fn sector(self) -> u32 {
        self.sector_size
    }

    /// Bytes of the disk.
    pub closed spec fn bytes(self) -> u64 {
        self.total_bytes
    }

    /// The base and its overlay, where writes go to one.
    pub closed spec fn paths(self) -> Option<(Seq<char>, Seq<char>)> {
        match self.diff_path {
            Some(d) => Some((self.base_path@, d@)),
            None => None,
        }
    }

    /// The overlay holds changes that the base does not have.
    pub closed spec fn diverged(self) -> bool {
        self.dirty
    }

    /// Copy-on-write was asked for.
    pub closed spec fn asked_cow(self) -> bool {
        self.cow
    }

    /// Something was written since the last flush.
    pub closed spec fn unsynced(self) -> bool {
        self.unflushed
    }

    /// Sectors have bytes; a disk has an overlay unless it is written in place, and
    /// one that is written in place has no changes to fold.
    pub open spec fn wf(self) -> bool {
        &&& self.sector() > 0
        &&& self.paths() is None <==> self.opened_as() == OpenAction::WriteInPlace
        &&& self.paths() is None ==> !self.diverged()
    }

    /// The disk that was opened this way. A disk whose sectors have no bytes is
    /// refused.
    pub fn open(
        action: OpenAction,
        base: &str,
        diff: &str,
        sector_size: u32,
        total_bytes: u64,
        cow: bool,
    ) -> (r: Result<Self, DiskError>)
        ensures
            match r {
                Ok(hd) => {
                    &&& sector_size > 0
                    &&& hd.wf()
                    &&& hd.opened_as() == action
                    &&& hd.sector() == sector_size
                    &&& hd.bytes() == total_bytes
                    &&& hd.paths() == if action == OpenAction::WriteInPlace {
                        None
                    } else {
                        Some((base@, diff@))
                    }
                    &&& hd.diverged() == action.reattached()
                    &&& hd.asked_cow() == cow
                    &&& !hd.unsynced()
                },
                Err(e) => sector_size == 0 && e@ == (
                    DiskErrorKind::InvalidData,
                    base@ + " reports a zero sector size"@,
                ),
            },
    {
        if sector_size == 0 {
            let mut m = owned(base);
            m.append(" reports a zero sector size");
            return Err(invalid_data(m));
        }
        let in_place = match action {
            OpenAction::WriteInPlace => true,
            _ => false,
        };
        let dirty = match action {
            OpenAction::AttachSparse => true,
            OpenAction::ReopenParented => true,
            _ => false,
        };
        Ok(
            ChdHd {
                action,
                sector_size,
                total_bytes,
                base_path: owned(base),
                diff_path: if in_place {
                    None
                } else {
                    Some(owned(diff))
                },
                dirty,
                cow,
                unflushed: false,
            },
        )
    }

    /// The base and the overlay that a clean exit folds back by itself: one with
    /// changes, unless copy-on-write keeps them apart.
    pub fn pending_sync(&self) -> (r: Option<(String, String)>)
        ensures
            match r {
                Some((b, d)) => !self.asked_cow() && self.diverged() && self.paths() == Some(
                    (b@, d@),
                ),
                None => self.asked_cow() || !self.diverged() || self.paths() is None,
            },
            r is Some <==> folds_back(self.asked_cow(), self.diverged(), self.paths() is Some),
    {
        if self.cow || !self.dirty {
            return None;
        }
        self.overlay_paths()
    }

    pub fn is_cow(&self) -> (r: bool)
        ensures
            r == self.asked_cow(),
    {
        self.cow
    }

    /// Whether writes go to a sparse overlay.
    pub fn is_sparse_overlay(&self) -> (r: bool)
        ensures
            r == self.opened_as().sparse(),
    {
        match self.action {
            OpenAction::AttachSparse => true,
            OpenAction::CreateSparse => true,
            _ => false,
        }
    }

    /// The base and the overlay, where writes go to one.
    pub fn overlay_paths(&self) -> (r: Option<(String, String)>)
        ensures
            match r {
                Some((b, d)) => self.paths() == Some((b@, d@)),
                None => self.paths() is None,
            },
    {
        match &self.diff_path {
            Some(d) => Some((self.base_path.clone(), d.clone())),
            None => None,
        }
    }

    /// Whether the overlay holds changes that are not in the base.
    pub fn diff_dirty(&self) -> (r: bool)
        ensures
            r == self.diverged(),
    {
        self.dirty
    }

    pub fn size(&self) -> (r: u64)
        ensures
            r == self.bytes(),
    {
        self.total_bytes
    }

    /// Where a read of blocks starts, and how many bytes it has.
    pub fn read_blocks(&self, lba: u64, count: usize, block_size: u64) -> (r: Result<
        (u64, usize),
        DiskError,
    >)
        requires
            self.wf(),
        ensures
            match r {
                Ok((offset, len)) => {
                    &&& block_read_error(
                        lba,
                        count,
                        block_size,
                        self.sector(),
                        self.bytes(),
                        self.opened_as().sparse(),
                    ) is None
                    &&& offset == transfer_start(
                        lba,
                        count,
                        self.sector(),
                        self.opened_as().sparse(),
                    )
                    &&& len == count * self.sector()
                    &&& offset + len <= self.bytes()
                },
                Err(e) => block_read_error(
                    lba,
                    count,
                    block_size,
                    self.sector(),
                    self.bytes(),
                    self.opened_as().sparse(),
                ) == Some(e@),
            },
    {
        let ss: u64 = self.sector_size as u64;
        if block_size != ss {
            let mut m = owned("CHD HD sector size ");
            push_decimal(&mut m, ss);
            m.append(" != requested block size ");
            push_decimal(&mut m, block_size);
            return Err(invalid_input(m));
        }
        if count == 0 && !self.is_sparse_overlay() {
            return Ok((0, 0));
        }
        let offset: u64 = match lba.checked_mul(ss) {
            Some(v) => v,
            None => {
                return Err(invalid_data(owned("read offset overflows")));
            },
        };
        let len: usize = match count.checked_mul(self.sector_size as usize) {
            Some(v) => v,
            None => {
                return Err(invalid_data(owned("read offset overflows")));
            },
        };
        match check_transfer("read", offset, len, self.total_bytes) {
            Ok(_) => Ok((offset, len)),
            Err(e) => Err(e),
        }
    }

    /// Accepts a write of `len` bytes at `lba`, and says where it starts. The whole
    /// range is checked before anything is written; an accepted write makes the
    /// overlay diverge from the base before it is tried, so that one that fails half
    /// way is still folded back.
    pub fn write_sectors(&mut self, lba: u64, len: usize) -> (r: Result<u64, DiskError>)
        requires
            old(self).wf(),
        ensures
            final(self).wf(),
            match r {
                Ok(offset) => {
                    &&& sector_write_error(
                        lba,
                        len,
                        old(self).sector(),
                        old(self).bytes(),
                        old(self).opened_as().sparse(),
                    ) is None
                    &&& offset == transfer_start(
                        lba,
                        len,
                        old(self).sector(),
                        old(self).opened_as().sparse(),
                    )
                    &&& offset + len <= old(self).bytes()
                    &&& final(self).diverged() == (old(self).paths() is Some)
                    &&& final(self).unsynced() == (old(self).unsynced() || len > 0)
                    &&& (final(self).diverged(), final(self).unsynced()) == after_write(
                        old(self).paths() is Some,
                        old(self).unsynced(),
                        len,
                    )
                },
                Err(e) => {
                    &&& sector_write_error(
                        lba,
                        len,
                        old(self).sector(),
                        old(self).bytes(),
                        old(self).opened_as().sparse(),
                    ) == Some(e@)
                    &&& *final(self) == *old(self)
                },
            },
            final(self).opened_as() == old(self).opened_as(),
            final(self).sector() == old(self).sector(),
            final(self).bytes() == old(self).bytes(),
            final(self).paths() == old(self).paths(),
            final(self).asked_cow() == old(self).asked_cow(),
    {
        let ss: u64 = self.sector_size as u64;
        if len as u64 % ss != 0 {
            let mut m = owned("CHD HD write length ");
            push_decimal(&mut m, len as u64);
            m.append(" not a multiple of sector ");
            push_decimal(&mut m, ss);
            return Err(invalid_input(m));
        }
        let offset: u64 = if len == 0 && !self.is_sparse_overlay() {
            0
        } else {
            let at: u64 = match lba.checked_mul(ss) {
                Some(v) => v,
                None => {
                    return Err(invalid_data(owned("write offset overflows")));
                },
            };
            match check_transfer("write", at, len, self.total_bytes) {
                Ok(_) => {},
                Err(e) => {
                    return Err(e);
                },
            }
            at
        };
        if self.diff_path.is_some() {
            self.dirty = true;
        }
        if len > 0 {
            self.unflushed = true;
        }
        Ok(offset)
    }

    /// Whether a flush has anything to do. What was written becomes durable only
    /// when the file is closed, so that a flush closes and reopens it.
    pub fn flush(&self) -> (r: bool)
        ensures
            r == self.unsynced(),
    {
        self.unflushed
    }

    /// The file was closed and reopened.
    pub fn flushed(&mut self)
        requires
            old(self).wf(),
        ensures
            final(self).wf(),
            !final(self).unsynced(),
            final(self).opened_as() == old(self).opened_as(),
            final(self).sector() == old(self).sector(),
            final(self).bytes() == old(self).bytes(),
            final(self).paths() == old(self).paths(),
            final(self).diverged() == old(self).diverged(),
            final(self).asked_cow() == old(self).asked_cow(),
    {
        self.unflushed = false;
    }
}

// ---------------------------------------------------------------------------
// Rebuilding a compressed base
// ---------------------------------------------------------------------------

/// The next step of a stream over the sectors of a disk.
#[derive(Clone, Copy, Debug, PartialEq, Eq, Structural)]
pub enum ReadStep {
    /// Every sector was streamed.
    End,
    /// This sector has to be read into the buffer. Once it is there, `fetched` says
    /// so; a read that failed is asked for again.
    Fetch(u64),
    /// Copy `len` bytes from the buffer, from `from` on.
    Copy { from: usize, len: usize },
}

/// A sequential stream over the sectors of a disk, one sector in the buffer at a
/// time.
#[derive(Debug)]
pub struct MergedReader {
    sector_size: usize,
    sector_count: u64,
    next_lba: u64,
    pos: usize,
    len: usize,
}

impl MergedReader {
    pub closed spec fn wf(self) -> bool {
        &&& self.sector_size > 0
        &&& self.pos <= self.len
        &&& self.len == 0 || self.len == self.sector_size
        &&& self.next_lba <= self.sector_count
        &&& self.len > 0 ==> self.next_lba > 0
    }

    /// Bytes in a sector.
    pub closed spec fn sector(self) -> int {
        self.sector_size as int
    }

    /// The bytes of the disk.
    pub closed spec fn total(self) -> int {
        self.sector_size * self.sector_count
    }

    /// The bytes that were streamed.
    pub closed spec fn streamed(self) -> int {
        self.sector_size * self.next_lba - (self.len - self.pos)
    }

    /// The bytes that the buffer still holds.
    pub closed spec fn buffered(self) -> int {
        self.len - self.pos
    }

    pub fn new(sector_size: usize, sector_count: u64) -> (r: Self)
        requires
            sector_size > 0,
        ensures
            r.wf(),
            r.sector() == sector_size,
            r.total() == sector_size * sector_count,
            r.streamed() == 0,
            r.buffered() == 0,
    {
        MergedReader { sector_size, sector_count, next_lba: 0, pos: 0, len: 0 }
    }

    /// What a read of up to `want` bytes does next. The bytes that are copied are
    /// the next ones of the disk: the first of them is the byte at `streamed()`, and
    /// the buffer holds the sector that it lies in.
    pub fn read(&mut self, want: usize) -> (r: ReadStep)
        requires
            old(self).wf(),
        ensures
            final(self).wf(),
            final(self).total() == old(self).total(),
            final(self).sector() == old(self).sector(),
            0 <= old(self).streamed() <= old(self).total(),
            match r {
                ReadStep::End => {
                    &&& old(self).buffered() == 0
                    &&& old(self).streamed() == old(self).total()
                    &&& *final(self) == *old(self)
                },
                ReadStep::Fetch(lba) => {
                    &&& old(self).buffered() == 0
                    &&& lba * old(self).sector() == old(self).streamed()
                    &&& old(self).streamed() < old(self).total()
                    &&& *final(self) == *old(self)
                },
                ReadStep::Copy { from, len } => {
                    &&& old(self).buffered() > 0
                    &&& len == if want <= old(self).buffered() {
                        want as int
                    } else {
                        old(self).buffered()
                    }
                    &&& from == old(self).sector() - old(self).buffered()
                    &&& (from as int, len as int) == copied_range(
                        old(self).sector(),
                        old(self).buffered(),
                        want as int,
                    )
                    &&& from + len <= old(self).sector()
                    &&& final(self).streamed() == old(self).streamed() + len
                    &&& final(self).buffered() == old(self).buffered() - len
                },
            },
    {
        proof {
            self.lemma_streamed();
        }
        if self.pos >= self.len {
            if self.next_lba >= self.sector_count {
                return ReadStep::End;
            }
            return ReadStep::Fetch(self.next_lba);
        }
        let held: usize = self.len - self.pos;
        let n: usize = if want <= held {
            want
        } else {
            held
        };
        let from: usize = self.pos;
        self.pos = from + n;
        ReadStep::Copy { from, len: n }
    }

    /// The sector that the last `read` asked for is in the buffer.
    pub fn fetched(&mut self)
        requires
            old(self).wf(),
            old(self).buffered() == 0,
            old(self).streamed() < old(self).total(),
        ensures
            final(self).wf(),
            final(self).total() == old(self).total(),
            final(self).sector() == old(self).sector(),
            final(self).streamed() == old(self).streamed(),
            final(self).buffered() == old(self).sector(),
    {
        proof {
            self.lemma_streamed();
        }
        self.next_lba = self.next_lba + 1;
        self.pos = 0;
        self.len = self.sector_size;
    }

    proof fn lemma_streamed(self)
        requires
            self.wf(),
        ensures
            0 <= self.streamed() <= self.total(),
            self.next_lba * self.sector_size == self.sector_size * self.next_lba,
            self.sector_size * (self.next_lba + 1) == self.sector_size * self.next_lba
                + self.sector_size,
            self.next_lba < self.sector_count ==> self.sector_size * self.next_lba
                + self.sector_size <= self.total(),
            self.next_lba >= self.sector_count ==> self.sector_size * self.next_lba == self.total(),
    {
        let s = self.sector_size as int;
        let n = self.next_lba as int;
        let c = self.sector_count as int;
        assert(0 <= s * n <= s * c) by (nonlinear_arith)
            requires
                s > 0,
                0 <= n <= c,
        ;
        if n > 0 {
            assert(s * n >= s) by (nonlinear_arith)
                requires
                    s > 0,
                    n >= 1,
            ;
        }
        if n < c {
            assert(s * n + s <= s * c) by (nonlinear_arith)
                requires
                    s > 0,
                    n + 1 <= c,
            ;
        }
        assert(s * (n + 1) == s * n + s) by (nonlinear_arith);
        assert(n * s == s * n) by (nonlinear_arith);
    }
}

/// What a source gave is the whole disk: no read of it failed, and it gave as many bytes as the
/// disk has.
pub open spec fn gave_all(failed: bool, given: u64, wanted: u64) -> bool {
    !failed && given == wanted
}

/// A source that failed anywhere, gave less or gave more is not the disk.
pub proof fn law_only_whole_sources_are_installed(given: u64, wanted: u64)
    ensures
        !gave_all(true, given, wanted),
        given < wanted || given > wanted ==> !gave_all(false, given, wanted),
        gave_all(false, wanted, wanted),
{
}

/// The bytes that a read copies out of a buffer that still holds `buffered` bytes of a sector:
/// where they start in it, and how many they are.
pub open spec fn copied_range(sector: int, buffered: int, want: int) -> (int, int) {
    (
        sector - buffered,
        if want <= buffered {
            want
        } else {
            buffered
        },
    )
}

/// Reads go through a sector front to back: the first starts at its start, each next one where
/// the one before ended, and the last ends at its end. A read gets all that it wants, or all
/// that is left.
pub proof fn law_sectors_are_streamed_in_order(sector: int, buffered: int, want: int, next: int)
    requires
        0 <= want,
        0 <= next,
        0 < buffered <= sector,
    ensures
        copied_range(sector, sector, want).0 == 0,
        ({
            let (from, len) = copied_range(sector, buffered, want);
            &&& copied_range(sector, buffered - len, next).0 == from + len
            &&& 0 <= from && from + len <= sector
            &&& len == want || (len < want && from + len == sector)
        }),
{
}

/// The source of a rebuild, watched. The compressor pads with zeros where its source
/// fails or ends early, so that only the source can tell whether its output is the
/// disk.
#[derive(Debug)]
pub struct CheckedReader {
    expected: u64,
    produced: u64,
    failed: bool,
}

impl CheckedReader {
    /// The bytes that the source has to give.
    pub closed spec fn wanted(self) -> u64 {
        self.expected
    }

    /// The bytes that it gave, as far as they can be counted.
    pub closed spec fn given(self) -> u64 {
        self.produced
    }

    /// A read failed.
    pub closed spec fn latched(self) -> bool {
        self.failed
    }

    pub fn new(expected: u64) -> (r: Self)
        ensures
            r.wanted() == expected,
            r.given() == 0,
            !r.latched(),
    {
        CheckedReader { expected, produced: 0, failed: false }
    }

    /// A read gave `n` bytes.
    pub fn on_bytes(&mut self, n: u64)
        ensures
            final(self).wanted() == old(self).wanted(),
            final(self).given() == if old(self).given() + n > u64::MAX {
                u64::MAX as int
            } else {
                old(self).given() + n
            },
            final(self).latched() == old(self).latched(),
    {
        self.produced = self.produced.saturating_add(n);
    }

    /// A read failed. The error stays, whatever follows.
    pub fn on_error(&mut self)
        ensures
            final(self).wanted() == old(self).wanted(),
            final(self).given() == old(self).given(),
            final(self).latched(),
    {
        self.failed = true;
    }

    /// Whether the output may replace the base: no read failed, and every byte came.
    pub fn may_install(&self) -> (r: bool)
        ensures
            r == (!self.latched() && self.given() == self.wanted()),
            r == gave_all(self.latched(), self.given(), self.wanted()),
    {
        !self.failed && self.produced == self.expected
    }
}

/// Metadata tag of the geometry record: `GDDD`.
pub const GEOMETRY_TAG: u32 = 0x4744_4444;

/// Metadata tag of the identification record: `IDNT`.
pub const IDENT_TAG: u32 = 0x4944_4E54;

/// A rebuild carries a record over: the first geometry record and the first
/// identification record. A record is given by its tag, and by how many of the same tag
/// stand before it.
pub open spec fn carried_over(record: (u32, u32)) -> bool {
    (record.0 == GEOMETRY_TAG || record.0 == IDENT_TAG) && record.1 == 0
}

/// The tag of the first record of a base, from `from` on, that a rebuild would lose.
pub open spec fn first_lost(records: Seq<(u32, u32)>, from: int) -> Option<u32>
    decreases records.len() - from,
{
    if from < 0 || from >= records.len() {
        None
    } else if !carried_over(records[from]) {
        Some(records[from].0)
    } else {
        first_lost(records, from + 1)
    }
}

/// No record is lost exactly if each is the first of its tag, and the tag is `GDDD` or `IDNT`;
/// else the tag that is named is that of the first other one.
pub proof fn law_which_records_are_lost(records: Seq<(u32, u32)>, from: int)
    requires
        0 <= from <= records.len(),
    ensures
        match first_lost(records, from) {
            None => forall|i: int|
                from <= i < records.len() ==> (#[trigger] records[i]).1 == 0 && (records[i].0
                    == 0x4744_4444 || records[i].0 == 0x4944_4E54),
            Some(tag) => exists|i: int|
                {
                    &&& from <= i < records.len()
                    &&& (#[trigger] records[i]).0 == tag
                    &&& records[i].1 != 0 || (tag != 0x4744_4444 && tag != 0x4944_4E54)
                    &&& forall|j: int|
                        from <= j < i ==> (#[trigger] records[j]).1 == 0 && (records[j].0
                            == 0x4744_4444 || records[j].0 == 0x4944_4E54)
                },
        },
    decreases records.len() - from,
{
    if from < records.len() {
        law_which_records_are_lost(records, from + 1);
        if carried_over(records[from]) && first_lost(records, from) is Some {
            let tag = first_lost(records, from)->0;
            let i = choose|i: int|
                {
                    &&& from + 1 <= i < records.len()
                    &&& (#[trigger] records[i]).0 == tag
                    &&& records[i].1 != 0 || (tag != 0x4744_4444 && tag != 0x4944_4E54)
                    &&& forall|j: int|
                        from + 1 <= j < i ==> (#[trigger] records[j]).1 == 0 && (records[j].0
                            == 0x4744_4444 || records[j].0 == 0x4944_4E54)
                };
            assert(from <= i && records[i].0 == tag);
        } else if !carried_over(records[from]) {
            assert(records[from].0 == first_lost(records, from)->0);
        }
    }
}

/// The tag of the first record of a base that a rebuild would lose, if there is one:
/// geometry and identification are carried over, and a base with any other record is not
/// rebuilt.
pub fn unsupported_record(records: &Vec<(u32, u32)>) -> (r: Option<u32>)
    ensures
        r == first_lost(records@, 0),
{
    let mut i: usize = 0;
    while i < records.len()
        invariant
            i <= records.len(),
            first_lost(records@, 0) == first_lost(records@, i as int),
        decreases records.len() - i,
    {
        let (tag, index) = records[i];
        if !((tag == GEOMETRY_TAG || tag == IDENT_TAG) && index == 0) {
            return Some(tag);
        }
        i = i + 1;
    }
    None
}

// ---------------------------------------------------------------------------
// The CD
// ---------------------------------------------------------------------------

/// A read-only CD.
#[derive(Debug)]
pub struct ChdCd {
    total_bytes: u64,
}

impl ChdCd {
    /// Bytes of the disc.
    pub closed spec fn bytes(self) -> u64 {
        self.total_bytes
    }

    pub fn open(total_bytes: u64) -> (r: Self)
        ensures
            r.bytes() == total_bytes,
    {
        ChdCd { total_bytes }
    }

    pub fn size(&self) -> (r: u64)
        ensures
            r == self.bytes(),
    {
        self.total_bytes
    }

    /// Where a read of blocks starts, and how many bytes it has; none where that
    /// does not fit in 64 bits.
    pub fn read_blocks(&self, lba: u64, count: usize, block_size: u64) -> (r: Option<(u64, u64)>)
        ensures
            match r {
                Some((offset, len)) => offset == lba * block_size && len == count * block_size,
                None => lba * block_size > u64::MAX || count * block_size > u64::MAX,
            },
    {
        match (lba.checked_mul(block_size), (count as u64).checked_mul(block_size)) {
            (Some(offset), Some(len)) => Some((offset, len)),
            _ => None,
        }
    }
}

} // verus!
