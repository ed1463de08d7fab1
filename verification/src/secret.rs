//! The secret file: where it must stand, what it must be called and how large it may be.
use crate::error::{ArcError, ArcErrorView, ARC_MAX_FILE_SIZE};
use crate::text;
use crate::text::same_text;
use std::path::Path;
use vstd::prelude::*;

verus! {

broadcast use vstd::string::group_string_axioms;

/// The extension of a secret file, without its dot.
pub const ARC_KEY_EXTENSION: &'static str = "key";

/// The directory of the secret files, but on Windows.
pub const ARC_TOKENS_DIR_LINUX: &'static str = "/var/opt/azcmagent/tokens";

/// The directory of the agent, below the program data of Windows.
pub const ARC_CONNECTED_MACHINE_DIR: &'static str = "AzureConnectedMachineAgent";

/// The directory of the secret files, below that of the agent.
pub const ARC_TOKENS_SUBDIR: &'static str = "Tokens";

/// What stands for the directory where there is none to be told.
pub const NO_TOKENS_DIR: &'static str = "<unavailable default tokens dir>";

/// The index of the last `c` in `s`, or -1 where there is none.
pub open spec fn last_position(s: Seq<char>, c: char) -> int
    decreases s.len(),
{
    if s.len() == 0 {
        -1
    } else if s.last() == c {
        s.len() - 1
    } else {
        last_position(s.drop_last(), c)
    }
}

/// Whether `c` separates the components of a path on Unix or on Windows.
pub open spec fn separator(c: char) -> bool {
    c == '/' || c == '\\'
}

/// Whether a path begins with two separators, as one to a share does on Windows.
pub open spec fn two_separators(path: Seq<char>) -> bool {
    path.len() >= 2 && separator(path[0]) && separator(path[1])
}

/// Whether a path has no backslash.
pub open spec fn slashes_only(path: Seq<char>) -> bool {
    forall|i: int| 0 <= i < path.len() ==> #[trigger] path[i] != '\\'
}

/// A path that is taken apart alike on Unix and on Windows: it has no backslash, and does not
/// begin with a drive or with two slashes.
pub open spec fn portable_path(path: Seq<char>) -> bool {
    &&& slashes_only(path)
    &&& !(path.len() >= 2 && path[1] == ':')
    &&& !two_separators(path)
}

/// Where the names of a path begin: behind the slash that is the root, or behind a `.` that is
/// a component of its own.
pub open spec fn names_start(path: Seq<char>) -> int {
    if path.len() > 0 && path[0] == '/' {
        1
    } else if path.len() > 0 && path[0] == '.' && (path.len() == 1 || path[1] == '/') {
        1
    } else {
        0
    }
}

/// Where the last name of a path begins, which is not before `start`.
pub open spec fn last_name_start(path: Seq<char>, start: int) -> int
    decreases path.len(),
{
    if path.len() <= start {
        start
    } else if path.len() > 0 && path.last() == '/' {
        path.len() as int
    } else if path.len() > 0 {
        last_name_start(path.drop_last(), start)
    } else {
        start
    }
}

/// A path without its last name and the slash before it.
pub open spec fn without_last_name(path: Seq<char>, start: int) -> Seq<char> {
    let name = last_name_start(path, start);
    if name > start {
        path.take(name - 1)
    } else {
        path.take(start)
    }
}

/// A path without the slashes, and the `.` behind a slash, that it ends in: these name
/// nothing.
pub open spec fn settled(path: Seq<char>, start: int) -> Seq<char>
    decreases path.len(),
{
    if start < 0 || path.len() <= start {
        path
    } else {
        let name = path.skip(last_name_start(path, start));
        if name.len() == 0 || name == seq!['.'] {
            proof {
                lemma_last_name_start(path, start);
            }
            settled(without_last_name(path, start), start)
        } else {
            path
        }
    }
}

/// The directory of a path without backslashes: the path without its last name, and without the slashes
/// that are left at its end. The root and the empty path have none.
pub open spec fn parent_of(path: Seq<char>) -> Option<Seq<char>> {
    let start = names_start(path);
    let whole = settled(path, start);
    if whole.len() > start {
        Some(settled(without_last_name(whole, start), start))
    } else if path.len() > 0 && path[0] == '.' {
        Some(Seq::<char>::empty())
    } else {
        None
    }
}

/// The last name of a path without backslashes, if it has one that is not `..`.
pub open spec fn file_name_of(path: Seq<char>) -> Option<Seq<char>> {
    let start = names_start(path);
    let whole = settled(path, start);
    let name = whole.skip(last_name_start(whole, start));
    if whole.len() > start && name != seq!['.', '.'] {
        Some(name)
    } else {
        None
    }
}

/// The extension of a path without backslashes: what follows the last dot of its file name,
/// unless the dot is the first character of it.
pub open spec fn extension_of(path: Seq<char>) -> Option<Seq<char>> {
    match file_name_of(path) {
        Some(name) => {
            let dot = last_position(name, '.');
            if dot <= 0 {
                None
            } else {
                Some(name.skip(dot + 1))
            }
        },
        None => None,
    }
}

/// Where a last name may begin.
pub proof fn lemma_last_name_start(path: Seq<char>, start: int)
    requires
        0 <= start <= path.len(),
    ensures
        start <= last_name_start(path, start) <= path.len(),
    decreases path.len(),
{
    if path.len() > start && path.last() != '/' {
        lemma_last_name_start(path.drop_last(), start);
    }
}

/// A last name is told by the slash before it and by the lack of one in it.
pub proof fn lemma_last_name_start_is(path: Seq<char>, start: int, n: int)
    requires
        0 <= start <= n <= path.len(),
        n > start ==> path[n - 1] == '/',
        forall|i: int| n <= i < path.len() ==> path[i] != '/',
    ensures
        last_name_start(path, start) == n,
    decreases path.len(),
{
    if path.len() > start && n < path.len() {
        lemma_last_name_start_is(path.drop_last(), start, n);
    }
}

/// A path, of Unix or of Windows, whose last dot stands inside its file name, behind a letter of
/// it.
pub open spec fn dotted_path(path: Seq<char>) -> bool {
    let dot = last_position(path, '.');
    &&& dot > 0
    &&& !separator(path[dot - 1]) && path[dot - 1] != ':' && path[dot - 1] != '.'
    &&& forall|i: int| dot < i < path.len() ==> !separator(#[trigger] path[i])
    &&& !(separator(path[0]) && separator(path[1]))
}

/// A path of Windows that begins with a drive, with a backslash before each component and
/// nothing in it to normalise.
pub open spec fn drive_path(path: Seq<char>) -> bool {
    let last = last_position(path, '\\');
    let name = path.skip(last + 1);
    &&& last > 2
    &&& 'A' <= path[0] <= 'Z' || 'a' <= path[0] <= 'z'
    &&& path[1] == ':' && path[2] == '\\'
    &&& forall|i: int| 2 < i < path.len() ==> #[trigger] path[i] != '/' && path[i] != ':'
    &&& name.len() > 0 && name != seq!['.'] && name != seq!['.', '.']
    &&& path[last - 1] != '\\'
    &&& !(path[last - 2] == '\\' && path[last - 1] == '.')
}

/// Whether a character can only belong to a name: it is no separator and no dot.
pub open spec fn of_a_name(c: char) -> bool {
    !separator(c) && c != '.'
}

/// Whether there are three names in a path, with slashes between them.
pub open spec fn three_names(path: Seq<char>) -> bool {
    exists|a: int, x: int, b: int, y: int, c: int|
        #![trigger path[a], path[x], path[b], path[y], path[c]]
        0 <= a < x < b < y < c < path.len() && of_a_name(path[a]) && path[x] == '/' && of_a_name(
            path[b],
        ) && path[y] == '/' && of_a_name(path[c])
}

/// A path without backslashes that begins with two slashes, as one to a share does on Windows,
/// and holds a name behind those of a server and of a share.
pub open spec fn share_path(path: Seq<char>) -> bool {
    slashes_only(path) && two_separators(path) && three_names(path)
}

/// A path without backslashes whose directory is a drive, or stands below one.
pub open spec fn below_drive(path: Seq<char>) -> bool {
    &&& slashes_only(path)
    &&& path.len() >= 2 && path[1] == ':'
    &&& parent_of(path) matches Some(p) && p.len() >= 2
}

/// Whether a path ends in more than a root, a drive or a share, whatever the platform: it has
/// a character of a name, which is not that of the drive that it may begin with. Where the
/// path begins with two slashes, a name must follow those of the server and of the share.
pub open spec fn holds_a_name(path: Seq<char>) -> bool {
    if two_separators(path) {
        share_path(path)
    } else {
        exists|i: int|
            0 <= i < path.len() && of_a_name(#[trigger] path[i]) && (i >= 2 || path.len() < 2
                || path[1] != ':')
    }
}

/// Whether a dot and `ext` behind it stand in `path` at index `i`.
pub open spec fn dotted_at(path: Seq<char>, ext: Seq<char>, i: int) -> bool {
    &&& 0 <= i
    &&& i + 1 + ext.len() <= path.len()
    &&& path[i] == '.'
    &&& path.subrange(i + 1, i + 1 + ext.len()) == ext
}

/// What may come out as the extension of a path. An extension always stands in the path, behind
/// a dot. Unless the path is portable, or goes below a share or a drive by slashes alone, or has
/// its last dot inside its file name, or has no dot, the platform has its say in which one it
/// is.
pub open spec fn may_have_extension(path: Seq<char>, ext: Option<Seq<char>>) -> bool {
    &&& portable_path(path) || share_path(path) || below_drive(path) ==> ext == extension_of(path)
    &&& slashes_only(path) && two_separators(path) ==> ext == extension_of(path) || ext is None
    &&& dotted_path(path) ==> ext == Some(path.skip(last_position(path, '.') + 1))
    &&& last_position(path, '.') < 0 ==> ext is None
    &&& ext matches Some(e) ==> exists|i: int| dotted_at(path, e, i)
}

/// Whether there are two names in a text, with a slash between them.
pub open spec fn two_names(s: Seq<char>) -> bool {
    exists|a: int, x: int, b: int|
        #![trigger s[a], s[x], s[b]]
        0 <= a < x < b < s.len() && of_a_name(s[a]) && s[x] == '/' && of_a_name(s[b])
}

/// Whether `parent` ends where a component of `path` begins or ends, and no more than one name
/// follows it.
pub open spec fn cut_before_a_name(path: Seq<char>, parent: Seq<char>) -> bool {
    let n = parent.len() as int;
    &&& n < path.len()
    &&& n == 0 || separator(path[n]) || separator(path[n - 1]) || path[n - 1] == ':'
    &&& !two_names(path.skip(n))
}

/// What may come out as the parent of a path below a share, where `plain` is its directory: that
/// directory, or, where it is no more than the share, the root of the share.
pub open spec fn may_have_parent_below_share(
    plain: Option<Seq<char>>,
    parent: Option<Seq<char>>,
) -> bool {
    plain matches Some(p) && (parent == plain || (!three_names(p) && parent == Some(p.push('/'))))
}

/// What may come out as the parent of a path below a drive, where `plain` is its directory: that
/// directory, or, where it is no more than the drive, the root of the drive.
pub open spec fn may_have_parent_below_drive(
    path: Seq<char>,
    plain: Option<Seq<char>>,
    parent: Option<Seq<char>>,
) -> bool {
    plain matches Some(p) && (parent == plain || (p.len() == 2 && parent == Some(path.take(3))))
}

/// What may come out as the parent of a path. A parent is always what the path begins with, and
/// a path that holds a name has one, with no more than one name behind it. Unless the path is
/// portable, the platform has its say in where it ends. The root of a share, and that of a
/// drive, keeps its slash on Windows. With backslashes, a path with a drive has a directory on
/// Windows, and elsewhere is a mere file name.
pub open spec fn may_have_parent(path: Seq<char>, parent: Option<Seq<char>>) -> bool {
    &&& portable_path(path) ==> parent == parent_of(path)
    &&& parent matches Some(p) ==> p.len() <= path.len() && path.take(p.len() as int) == p
    &&& slashes_only(path) || !two_separators(path) ==> (parent matches Some(p)
        ==> cut_before_a_name(path, p))
    &&& holds_a_name(path) ==> parent is Some
    &&& share_path(path) ==> may_have_parent_below_share(parent_of(path), parent)
    &&& below_drive(path) ==> may_have_parent_below_drive(path, parent_of(path), parent)
    &&& drive_path(path) ==> parent == Some(path.take(last_position(path, '\\'))) || parent
        == Some(Seq::<char>::empty())
}

/// The last `c` of a text is the one that no other follows.
pub proof fn lemma_last_position_is(s: Seq<char>, c: char, n: int)
    requires
        -1 <= n < s.len(),
        n >= 0 ==> s[n] == c,
        forall|i: int| n < i < s.len() ==> s[i] != c,
    ensures
        last_position(s, c) == n,
    decreases s.len(),
{
    if s.len() > 0 && n < s.len() - 1 {
        lemma_last_position_is(s.drop_last(), c, n);
    }
}

/// Calls `Path::extension`. Claimed: an extension stands in the path, behind a dot. Of a path
/// without backslashes that is portable, or goes below a share or a drive, it is what follows
/// the last dot of the file name, if that dot is not its first character; the file name is the
/// last component, with repeated slashes, slashes at the end and `.` components left out, and
/// `..` is none. So it is of any other path that begins with two slashes and has no backslash,
/// unless that is all server and share, which has none. Of a path whose last dot stands inside its file name it is what follows that
/// dot. A path without a dot has none. Which extension other paths have depends on the platform
/// and is left open.
#[verifier::external_body]
pub(crate) fn path_extension(path: &str) -> (r: Option<String>)
    ensures
        may_have_extension(path@, text::text_of(r)),
{
    Path::new(path).extension().and_then(|e| e.to_str()).map(|e| e.to_string())
}

/// Calls `Path::parent`. Claimed: a parent is what the path begins with, up to where its last
/// component or what separates that from the others begins, and there is one unless the path
/// ends in a root or a prefix or is empty. Of a portable path it is the path without its last
/// component, and without the slashes and the `.` components that are left at the end. So it is
/// of a path that goes below a share or a drive by slashes alone, but that one slash may stay
/// behind the share or the drive itself. Of a path with a drive and backslashes it is what
/// stands before the last backslash, on Windows, or else empty. Where the parent of other paths
/// ends depends on the platform and is left open.
#[verifier::external_body]
pub(crate) fn path_parent(path: &str) -> (r: Option<String>)
    ensures
        may_have_parent(path@, text::text_of(r)),
{
    Path::new(path).parent().map(|p| p.to_string_lossy().into_owned())
}

/// Whether `s` is a single, ordinary path component.
pub open spec fn component(s: Seq<char>) -> bool {
    &&& s.len() > 0
    &&& s != seq!['.']
    &&& s != seq!['.', '.']
    &&& forall|i: int| 0 <= i < s.len() ==> #[trigger] s[i] != '/' && s[i] != '\\' && s[i] != ':'
}

/// Two components below `base`, with `gap` between it and them.
pub open spec fn joined(
    base: Seq<char>,
    gap: Seq<char>,
    a: Seq<char>,
    b: Seq<char>,
    sep: char,
) -> Seq<char> {
    base + gap + a.push(sep) + b
}

/// What may come out on Unix when two components are joined to `base`: a slash goes before each
/// of them, but none behind a slash and none behind nothing.
pub open spec fn joined_by_slashes(base: Seq<char>, a: Seq<char>, b: Seq<char>) -> Seq<char> {
    if base.len() == 0 || base.last() == '/' {
        joined(base, seq![], a, b, '/')
    } else {
        joined(base, seq!['/'], a, b, '/')
    }
}

/// Whether `r` may come out on Windows when two components are joined to `base`: a backslash
/// goes before each of them, but none behind a separator, none behind nothing and none behind
/// a mere drive. A `base` that begins with two backslashes may be rewritten.
pub open spec fn may_be_joined_by_backslashes(
    base: Seq<char>,
    a: Seq<char>,
    b: Seq<char>,
    r: Seq<char>,
) -> bool {
    let bare = joined(base, seq![], a, b, '\\');
    let parted = joined(base, seq!['\\'], a, b, '\\');
    if base.len() >= 2 && base[0] == '\\' && base[1] == '\\' {
        text::ends_with(r, a.push('\\') + b)
    } else if base.len() == 0 || separator(base.last()) {
        r == bare
    } else if base.last() == ':' {
        r == bare || r == parted
    } else {
        r == parted
    }
}

/// What may come out when two components are joined to `base`.
pub open spec fn may_be_joined(base: Seq<char>, a: Seq<char>, b: Seq<char>, r: Seq<char>) -> bool {
    component(a) && component(b) ==> r == joined_by_slashes(base, a, b)
        || may_be_joined_by_backslashes(base, a, b, r)
}

/// Calls `Path::join` twice. Claimed: a component is joined by the separator of the platform,
/// where the directory does not end in a separator already. Whether one goes behind a colon on
/// Windows, and how a directory that begins with two backslashes is written there, is left
/// open.
#[verifier::external_body]
pub(crate) fn path_join(base: &str, a: &str, b: &str) -> (r: String)
    ensures
        may_be_joined(base@, a@, b@, r@),
{
    Path::new(base).join(a).join(b).to_string_lossy().into_owned()
}

/// What the platform says of the default directory.
pub enum Platform {
    /// Windows, with the directory for program data that the environment names.
    Windows { program_data: Option<String> },
    /// Any other.
    Other,
}

/// Whether `dir` may come out as the directory of the secret files.
pub open spec fn may_be_tokens_dir(
    override_dir: Option<Seq<char>>,
    platform: Platform,
    dir: Option<Seq<char>>,
) -> bool {
    match override_dir {
        Some(d) => dir == Some(d),
        None => match platform {
            Platform::Other => dir == Some(ARC_TOKENS_DIR_LINUX@),
            Platform::Windows { program_data: None } => dir is None,
            Platform::Windows { program_data: Some(base) } => dir matches Some(d) && may_be_joined(
                base@,
                ARC_CONNECTED_MACHINE_DIR@,
                ARC_TOKENS_SUBDIR@,
                d,
            ),
        },
    }
}

/// The directory of the secret files: the one that the environment names in place of the
/// default, or else the default of the platform.
pub fn tokens_dir(override_dir: Option<String>, platform: Platform) -> (r: Option<String>)
    ensures
        may_be_tokens_dir(text::text_of(override_dir), platform, text::text_of(r)),
{
    if let Some(dir) = override_dir {
        return Some(dir);
    }
    match platform {
        Platform::Windows { program_data } => match program_data {
            Some(base) => Some(
                path_join(base.as_str(), ARC_CONNECTED_MACHINE_DIR, ARC_TOKENS_SUBDIR),
            ),
            None => None,
        },
        Platform::Other => Some(ARC_TOKENS_DIR_LINUX.to_owned()),
    }
}

/// The directory that the path is held against.
pub open spec fn expected_dir(dir: Option<Seq<char>>) -> Seq<char> {
    match dir {
        Some(d) => d,
        None => NO_TOKENS_DIR@,
    }
}

/// The directory that the path is held against, where `dir` is that of the secret files.
pub fn expected_dir_text(dir: Option<String>) -> (r: String)
    ensures
        r@ == expected_dir(text::text_of(dir)),
{
    match dir {
        Some(d) => d,
        None => NO_TOKENS_DIR.to_owned(),
    }
}

/// What a check says, as a mathematical value.
pub open spec fn verdict_of(r: Result<(), ArcError>) -> Result<(), ArcErrorView> {
    match r {
        Ok(_) => Ok(()),
        Err(e) => Err(e@),
    }
}

/// What is said of the extension of the secret file.
pub open spec fn extension_verdict(ext: Option<Seq<char>>) -> Result<(), ArcErrorView> {
    if ext == Some(ARC_KEY_EXTENSION@) {
        Ok(())
    } else {
        Err(ArcErrorView::SecretExtension)
    }
}

/// What is said of the place of the secret file: it must exist, in the expected directory
/// unless the environment of the process names another.
pub open spec fn location_verdict(
    parent: Option<Seq<char>>,
    expected: Seq<char>,
    present: bool,
    overridden: bool,
) -> Result<(), ArcErrorView> {
    if !present {
        Err(ArcErrorView::SecretMissing)
    } else {
        match parent {
            Some(found) if found != expected && !overridden => Err(
                ArcErrorView::SecretDirectory { expected, found },
            ),
            _ => Ok(()),
        }
    }
}

/// What is said of the secret file as a whole.
pub open spec fn path_verdict(
    ext: Option<Seq<char>>,
    parent: Option<Seq<char>>,
    expected: Seq<char>,
    present: bool,
    overridden: bool,
) -> Result<(), ArcErrorView> {
    match extension_verdict(ext) {
        Ok(_) => location_verdict(parent, expected, present, overridden),
        Err(e) => Err(e),
    }
}

/// Whether `verdict` may be said of the secret file at `path`: it is said of an extension and a
/// parent that the path may have.
pub open spec fn may_be_verdict(
    path: Seq<char>,
    expected: Seq<char>,
    present: bool,
    overridden: bool,
    verdict: Result<(), ArcErrorView>,
) -> bool {
    exists|ext: Option<Seq<char>>, parent: Option<Seq<char>>|
        #![trigger may_have_extension(path, ext), may_have_parent(path, parent)]
        may_have_extension(path, ext) && may_have_parent(path, parent) && verdict == path_verdict(
            ext,
            parent,
            expected,
            present,
            overridden,
        )
}

/// Checks the extension of the secret file.
pub fn check_secret_extension(ext: Option<String>) -> (r: Result<(), ArcError>)
    ensures
        verdict_of(r) == extension_verdict(text::text_of(ext)),
{
    match ext {
        Some(e) if same_text(e.as_str(), ARC_KEY_EXTENSION) => Ok(()),
        _ => Err(ArcError::SecretExtension),
    }
}

/// Checks the place of the secret file.
pub fn check_secret_location(
    parent: Option<String>,
    expected: &str,
    present: bool,
    overridden: bool,
) -> (r: Result<(), ArcError>)
    ensures
        verdict_of(r) == location_verdict(text::text_of(parent), expected@, present, overridden),
{
    if !present {
        return Err(ArcError::SecretMissing);
    }
    match parent {
        Some(found) if !same_text(found.as_str(), expected) && !overridden => Err(
            ArcError::SecretDirectory { expected: expected.to_owned(), found },
        ),
        _ => Ok(()),
    }
}

/// Checks the path of the secret file: `present` tells whether there is such a file,
/// `overridden` whether the environment of the process names a directory in place of the
/// default.
pub fn validate_arc_secret_path(
    path_str: &str,
    expected_dir: &str,
    present: bool,
    overridden: bool,
) -> (r: Result<(), ArcError>)
    ensures
        may_be_verdict(path_str@, expected_dir@, present, overridden, verdict_of(r)),
        portable_path(path_str@) ==> verdict_of(r) == path_verdict(
            extension_of(path_str@),
            parent_of(path_str@),
            expected_dir@,
            present,
            overridden,
        ),
{
    let ext: Option<String> = path_extension(path_str);
    let parent: Option<String> = path_parent(path_str);
    let ghost e = text::text_of(ext);
    let ghost p = text::text_of(parent);
    assert(may_have_extension(path_str@, e) && may_have_parent(path_str@, p));
    match check_secret_extension(ext) {
        Ok(_) => check_secret_location(parent, expected_dir, present, overridden),
        Err(error) => Err(error),
    }
}

/// Checks the size of the secret.
pub fn check_secret_size(secret: &Vec<u8>) -> (r: Result<(), ArcError>)
    ensures
        verdict_of(r) == size_verdict(secret@),
{
    let size: u64 = secret.len() as u64;
    if size > ARC_MAX_FILE_SIZE {
        Err(ArcError::SecretTooLarge { size })
    } else {
        Ok(())
    }
}

/// What is said of the size of the secret.
pub open spec fn size_verdict(secret: Seq<u8>) -> Result<(), ArcErrorView> {
    if secret.len() > ARC_MAX_FILE_SIZE {
        Err(ArcErrorView::SecretTooLarge { size: secret.len() as u64 })
    } else {
        Ok(())
    }
}

}
