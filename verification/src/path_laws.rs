//! What holds of the path of a secret file, told by the directory and the names that it is made
//! of.
use crate::error::ArcErrorView;
use crate::laws;
use crate::secret;
use crate::secret::Platform;
use vstd::prelude::*;

verus! {

broadcast use vstd::string::group_string_axioms;

proof fn lemma_slash_names_nothing(x: Seq<char>, start: int)
    requires
        0 <= start <= x.len(),
    ensures
        secret::settled(x + seq!['/'], start) == secret::settled(x, start),
        secret::settled(x + seq!['/', '.'], start) == secret::settled(x, start),
{
    let slashed = x + seq!['/'];
    secret::lemma_last_name_start_is(slashed, start, slashed.len() as int);
    assert(secret::without_last_name(slashed, start) =~= x);
    let dotted = x + seq!['/', '.'];
    secret::lemma_last_name_start_is(dotted, start, (x.len() + 1) as int);
    assert(dotted.skip((x.len() + 1) as int) =~= seq!['.']);
    assert(secret::without_last_name(dotted, start) =~= x);
}

/// Whether a path of a directory, something between, a name and something behind is taken apart
/// into that directory and that name.
proof fn lemma_file_in_directory(
    dir: Seq<char>,
    between: Seq<char>,
    name: Seq<char>,
    behind: Seq<char>,
)
    requires
        laws::plain_directory(dir),
        between == seq!['/'] || between == seq!['/', '/'] || between == seq!['/', '.', '/'],
        behind == Seq::<char>::empty() || behind == seq!['/'] || behind == seq!['/', '.'],
        name.len() > 0,
        name != seq!['.'],
        forall|i: int| 0 <= i < name.len() ==> #[trigger] name[i] != '/' && name[i] != '\\',
    ensures
        secret::portable_path(dir + between + name + behind),
        secret::parent_of(dir + between + name + behind) == Some(dir),
        name != seq!['.', '.'] ==> secret::file_name_of(dir + between + name + behind) == Some(name),
{
    let file = dir + between + name;
    let path = file + behind;
    let n = (dir.len() + between.len()) as int;
    assert forall|i: int| 0 <= i < path.len() implies #[trigger] path[i] != '\\' by {
        if i < dir.len() {
            assert(path[i] == dir[i]);
        } else if i < n {
            assert(path[i] == between[i - dir.len()]);
        } else if i < file.len() {
            assert(path[i] == name[i - n]);
        } else {
            assert(path[i] == behind[i - file.len()]);
        }
    }
    assert(path[0] == dir[0]);
    assert(path[dir.len() as int] == between[0]);
    assert(dir.len() > 1 ==> path[1] == dir[1]);
    let start = secret::names_start(path);
    if dir.len() == 1 && dir[0] == '.' {
        assert(dir =~= seq!['.']);
    }
    if behind.len() == 0 {
        assert(path =~= file);
    } else {
        lemma_slash_names_nothing(file, start);
    }
    assert forall|i: int| n <= i < file.len() implies file[i] != '/' by {
        assert(file[i] == name[i - n]);
    }
    assert(file[n - 1] == between.last());
    secret::lemma_last_name_start_is(file, start, n);
    assert(file.skip(n) =~= name);
    assert(secret::settled(file, start) == file);
    let cut = secret::without_last_name(file, start);
    let front = between.drop_last();
    assert(cut =~= dir + front);
    if between.len() == 1 {
        assert(cut =~= dir);
    } else if between.len() == 2 {
        assert(front =~= seq!['/']);
        lemma_slash_names_nothing(dir, start);
    } else {
        assert(front =~= seq!['/', '.']);
        lemma_slash_names_nothing(dir, start);
    }
    laws::lemma_directory_is_settled(dir, start);
}

proof fn lemma_extension(path: Seq<char>, stem: Seq<char>, ext: Seq<char>)
    requires
        stem.len() > 0,
        forall|i: int| 0 <= i < ext.len() ==> ext[i] != '.',
        secret::file_name_of(path) == Some(stem + seq!['.'] + ext),
    ensures
        secret::extension_of(path) == Some(ext),
{
    let name = stem + seq!['.'] + ext;
    let dot = stem.len() as int;
    assert forall|i: int| dot < i < name.len() implies name[i] != '.' by {
        assert(name[i] == ext[i - dot - 1]);
    }
    assert(name[dot] == '.');
    secret::lemma_last_position_is(name, '.', dot);
    assert(name.skip(dot + 1) =~= ext);
}

/// A file in a directory has that directory for its parent, and for its extension what follows
/// the last dot of its name; a slash or a `.` too many, before the name or behind it, changes
/// neither.
pub proof fn law_file_in_a_directory(
    dir: Seq<char>,
    between: Seq<char>,
    stem: Seq<char>,
    ext: Seq<char>,
    behind: Seq<char>,
    found_ext: Option<Seq<char>>,
    found_parent: Option<Seq<char>>,
)
    requires
        dir.len() > 0,
        forall|i: int| 0 <= i < dir.len() ==> #[trigger] dir[i] != '\\',
        dir.len() > 1 ==> dir[1] != ':' && !(dir[0] == '/' && dir[1] == '/'),
        dir.last() != '/',
        dir.len() > 1 ==> !(dir[dir.len() - 2] == '/' && dir.last() == '.'),
        between == "/"@ || between == "//"@ || between == "/./"@,
        behind == ""@ || behind == "/"@ || behind == "/."@,
        stem.len() > 0,
        forall|i: int| 0 <= i < stem.len() ==> #[trigger] stem[i] != '/' && stem[i] != '\\',
        forall|i: int|
            0 <= i < ext.len() ==> #[trigger] ext[i] != '/' && ext[i] != '\\' && ext[i] != '.',
        stem + "."@ + ext != ".."@,
        secret::may_have_extension(dir + between + (stem + "."@ + ext) + behind, found_ext),
        secret::may_have_parent(dir + between + (stem + "."@ + ext) + behind, found_parent),
    ensures
        found_ext == Some(ext),
        found_parent == Some(dir),
{
    lemma_ordinary_file(dir, between, stem, ext, behind);
}

proof fn lemma_ordinary_file(
    dir: Seq<char>,
    between: Seq<char>,
    stem: Seq<char>,
    ext: Seq<char>,
    behind: Seq<char>,
)
    requires
        laws::plain_directory(dir),
        between == "/"@ || between == "//"@ || between == "/./"@,
        behind == ""@ || behind == "/"@ || behind == "/."@,
        stem.len() > 0,
        forall|i: int| 0 <= i < stem.len() ==> #[trigger] stem[i] != '/' && stem[i] != '\\',
        forall|i: int|
            0 <= i < ext.len() ==> #[trigger] ext[i] != '/' && ext[i] != '\\' && ext[i] != '.',
        stem + "."@ + ext != ".."@,
    ensures
        ({
            let path = dir + between + (stem + "."@ + ext) + behind;
            &&& secret::portable_path(path)
            &&& secret::parent_of(path) == Some(dir)
            &&& secret::extension_of(path) == Some(ext)
        }),
{
    reveal_strlit("");
    reveal_strlit("/");
    reveal_strlit("//");
    reveal_strlit("/.");
    reveal_strlit("/./");
    reveal_strlit(".");
    reveal_strlit("..");
    assert("/"@ =~= seq!['/']);
    assert("//"@ =~= seq!['/', '/']);
    assert("/./"@ =~= seq!['/', '.', '/']);
    assert("/."@ =~= seq!['/', '.']);
    assert(""@ =~= Seq::<char>::empty());
    assert("."@ =~= seq!['.']);
    assert(".."@ =~= seq!['.', '.']);
    let name = stem + "."@ + ext;
    assert forall|i: int| 0 <= i < name.len() implies #[trigger] name[i] != '/' && name[i]
        != '\\' by {
        if i < stem.len() {
            assert(name[i] == stem[i]);
        } else if i > stem.len() {
            assert(name[i] == ext[i - stem.len() - 1]);
        } else {
            assert(name[i] == "."@[0]);
        }
    }
    assert(name.len() >= 2);
    assert(seq!['.'].len() == 1);
    lemma_file_in_directory(dir, between, name, behind);
    lemma_extension(dir + between + name + behind, stem, ext);
}

/// What is said of a file in a directory: that it is no key file unless its name ends in `.key`;
/// else that it is missing where it is not there; else that it stands in the wrong directory
/// where that is not the expected one, unless the environment names another; and else that all
/// is well. A slash or a `.` too many does not change it.
pub proof fn law_verdict_on_a_file(
    dir: Seq<char>,
    between: Seq<char>,
    stem: Seq<char>,
    ext: Seq<char>,
    behind: Seq<char>,
    expected: Seq<char>,
    present: bool,
    overridden: bool,
    verdict: Result<(), ArcErrorView>,
)
    requires
        dir.len() > 0,
        forall|i: int| 0 <= i < dir.len() ==> #[trigger] dir[i] != '\\',
        dir.len() > 1 ==> dir[1] != ':' && !(dir[0] == '/' && dir[1] == '/'),
        dir.last() != '/',
        dir.len() > 1 ==> !(dir[dir.len() - 2] == '/' && dir.last() == '.'),
        between == "/"@ || between == "//"@ || between == "/./"@,
        behind == ""@ || behind == "/"@ || behind == "/."@,
        stem.len() > 0,
        forall|i: int| 0 <= i < stem.len() ==> #[trigger] stem[i] != '/' && stem[i] != '\\',
        forall|i: int|
            0 <= i < ext.len() ==> #[trigger] ext[i] != '/' && ext[i] != '\\' && ext[i] != '.',
        stem + "."@ + ext != ".."@,
        secret::may_be_verdict(
            dir + between + (stem + "."@ + ext) + behind,
            expected,
            present,
            overridden,
            verdict,
        ),
    ensures
        verdict == if ext != "key"@ {
            Err::<(), ArcErrorView>(ArcErrorView::SecretExtension)
        } else if !present {
            Err(ArcErrorView::SecretMissing)
        } else if dir != expected && !overridden {
            Err(ArcErrorView::SecretDirectory { expected, found: dir })
        } else {
            Ok(())
        },
{
    lemma_ordinary_file(dir, between, stem, ext, behind);
}

/// A file whose name has no dot, or none but its first character, has no extension, so it is no
/// key file, wherever it stands.
pub proof fn law_no_extension_no_key_file(
    dir: Seq<char>,
    name: Seq<char>,
    expected: Seq<char>,
    present: bool,
    overridden: bool,
    verdict: Result<(), ArcErrorView>,
)
    requires
        dir.len() > 0,
        forall|i: int| 0 <= i < dir.len() ==> #[trigger] dir[i] != '\\',
        dir.len() > 1 ==> dir[1] != ':' && !(dir[0] == '/' && dir[1] == '/'),
        dir.last() != '/',
        dir.len() > 1 ==> !(dir[dir.len() - 2] == '/' && dir.last() == '.'),
        name.len() > 1,
        forall|i: int| 0 <= i < name.len() ==> #[trigger] name[i] != '/' && name[i] != '\\',
        forall|i: int| 0 < i < name.len() ==> name[i] != '.',
        secret::may_be_verdict(dir + "/"@ + name, expected, present, overridden, verdict),
    ensures
        verdict == Err::<(), ArcErrorView>(ArcErrorView::SecretExtension),
{
    reveal_strlit("/");
    assert("/"@ =~= seq!['/']);
    let none = Seq::<char>::empty();
    assert(dir + "/"@ + name + none =~= dir + "/"@ + name);
    assert(seq!['.'].len() == 1);
    if name == seq!['.', '.'] {
        assert(name[1] == '.');
    }
    lemma_file_in_directory(dir, "/"@, name, none);
    if name[0] == '.' {
        secret::lemma_last_position_is(name, '.', 0);
    } else {
        secret::lemma_last_position_is(name, '.', -1);
    }
}

/// A path that is accepted holds `.key`, and is that of a file that is there. Unless the
/// environment names another directory, it begins with the expected one, and there are no two
/// names behind that with a slash between them. Only of a path that begins with two separators
/// this is not said: on some platforms that names a server.
pub proof fn law_accepted_path(
    path: Seq<char>,
    expected: Seq<char>,
    present: bool,
    overridden: bool,
    a: int,
    x: int,
    b: int,
)
    requires
        secret::may_be_verdict(path, expected, present, overridden, Ok(())),
    ensures
        present,
        exists|i: int|
            0 <= i && i + 4 <= path.len() && #[trigger] path.subrange(i, i + 4) == ".key"@,
        ({
            let server = (path[0] == '/' || path[0] == '\\') && (path[1] == '/' || path[1] == '\\');
            !overridden && !server ==> {
                &&& expected.len() < path.len()
                &&& path.take(expected.len() as int) == expected
                &&& !(expected.len() <= a < x < b < path.len() && path[x] == '/' && path[a] != '/'
                    && path[a] != '\\' && path[a] != '.' && path[b] != '/' && path[b] != '\\'
                    && path[b] != '.')
            }
        }),
{
    reveal_strlit("key");
    reveal_strlit(".key");
    let (ext, parent) = choose|ext: Option<Seq<char>>, parent: Option<Seq<char>>|
        #![trigger secret::may_have_extension(path, ext), secret::may_have_parent(path, parent)]
        secret::may_have_extension(path, ext) && secret::may_have_parent(path, parent) && Ok::<
            (),
            ArcErrorView,
        >(()) == secret::path_verdict(ext, parent, expected, present, overridden);
    let key = "key"@;
    assert(ext == Some(key));
    let i = choose|i: int| secret::dotted_at(path, key, i);
    let tail = path.subrange(i + 1, i + 4);
    assert(tail[0] == path[i + 1] && tail[1] == path[i + 2] && tail[2] == path[i + 3]);
    assert(tail == key);
    let whole = path.subrange(i, i + 4);
    assert(whole[0] == '.' && whole[1] == 'k' && whole[2] == 'e' && whole[3] == 'y');
    assert(whole =~= ".key"@);
    assert(secret::of_a_name(path[i + 1]));
    let server = (path[0] == '/' || path[0] == '\\') && (path[1] == '/' || path[1] == '\\');
    if !overridden && !server {
        assert(secret::holds_a_name(path));
        assert(parent == Some(expected));
        assert(secret::cut_before_a_name(path, expected));
        let n = expected.len() as int;
        let rest = path.skip(n);
        if n <= a < x < b < path.len() {
            assert(rest[a - n] == path[a] && rest[x - n] == path[x] && rest[b - n] == path[b]);
        }
    }
}

proof fn lemma_taken_apart(dir: Seq<char>, name: Seq<char>, start: int)
    requires
        start == secret::names_start(dir + seq!['/'] + name),
        0 <= start <= dir.len(),
        secret::settled(dir, start) == dir,
        name.len() > 0,
        name != seq!['.'],
        name != seq!['.', '.'],
        forall|i: int| 0 <= i < name.len() ==> #[trigger] name[i] != '/',
    ensures
        secret::parent_of(dir + seq!['/'] + name) == Some(dir),
        secret::file_name_of(dir + seq!['/'] + name) == Some(name),
{
    let path = dir + seq!['/'] + name;
    let n = dir.len() + 1;
    assert forall|i: int| n <= i < path.len() implies path[i] != '/' by {
        assert(path[i] == name[i - n]);
    }
    secret::lemma_last_name_start_is(path, start, n as int);
    assert(path.skip(n as int) =~= name);
    assert(secret::without_last_name(path, start) =~= dir);
}

/// A file at the root has the root for its parent, and one without a directory has the empty
/// one.
pub proof fn law_file_without_a_directory(
    stem: Seq<char>,
    ext: Seq<char>,
    found_ext: Option<Seq<char>>,
    found_parent: Option<Seq<char>>,
)
    requires
        stem.len() > 1,
        stem[1] != ':',
        forall|i: int| 0 <= i < stem.len() ==> #[trigger] stem[i] != '/' && stem[i] != '\\',
        stem[0] != ':',
        forall|i: int|
            0 <= i < ext.len() ==> #[trigger] ext[i] != '/' && ext[i] != '\\' && ext[i] != '.',
    ensures
        secret::may_have_extension("/"@ + (stem + "."@ + ext), found_ext) ==> found_ext == Some(ext),
        secret::may_have_parent("/"@ + (stem + "."@ + ext), found_parent) ==> found_parent == Some(
            "/"@,
        ),
        secret::may_have_extension(stem + "."@ + ext, found_ext) ==> found_ext == Some(ext),
        secret::may_have_parent(stem + "."@ + ext, found_parent) ==> found_parent == Some(""@),
{
    reveal_strlit("/");
    reveal_strlit("");
    reveal_strlit(".");
    assert("."@ =~= seq!['.']);
    assert("/"@ =~= seq!['/']);
    assert(""@ =~= Seq::<char>::empty());
    let name = stem + "."@ + ext;
    assert forall|i: int| 0 <= i < name.len() implies #[trigger] name[i] != '/' && name[i]
        != '\\' by {
        if i < stem.len() {
            assert(name[i] == stem[i]);
        } else if i > stem.len() {
            assert(name[i] == ext[i - stem.len() - 1]);
        } else {
            assert(name[i] == "."@[0]);
        }
    }
    assert(name.len() > 2 && seq!['.'].len() == 1 && seq!['.', '.'].len() == 2);
    let path = "/"@ + name;
    assert forall|i: int| 0 <= i < path.len() implies #[trigger] path[i] != '\\' by {
        if i > 0 {
            assert(path[i] == name[i - 1]);
        }
    }
    assert forall|i: int| 1 <= i < path.len() implies path[i] != '/' by {
        assert(path[i] == name[i - 1]);
    }
    assert(path[1] == stem[0]);
    assert(secret::portable_path(path));
    secret::lemma_last_name_start_is(path, 1, 1);
    assert(path.skip(1) =~= name);
    assert(secret::without_last_name(path, 1) =~= "/"@);
    lemma_extension(path, stem, ext);
    assert(name[1] == stem[1] && name[0] == stem[0]);
    assert(secret::portable_path(name));
    secret::lemma_last_name_start_is(name, 0, 0);
    assert(name.skip(0) =~= name);
    assert(secret::without_last_name(name, 0) =~= ""@);
    lemma_extension(name, stem, ext);
}

proof fn lemma_ends_in_a_name(dir: Seq<char>, front: Seq<char>, last: Seq<char>, start: int)
    requires
        dir == front + seq!['/'] + last,
        0 <= start <= front.len(),
        last.len() > 0,
        last != seq!['.'],
        forall|i: int| 0 <= i < last.len() ==> #[trigger] last[i] != '/',
    ensures
        secret::settled(dir, start) == dir,
{
    let n = front.len() + 1;
    assert forall|i: int| n <= i < dir.len() implies dir[i] != '/' by {
        assert(dir[i] == last[i - n]);
    }
    secret::lemma_last_name_start_is(dir, start, n as int);
    assert(dir.skip(n as int) =~= last);
}

/// Below a drive, by slashes alone, a file has the directory that it stands in, whatever the
/// platform, and for its extension what follows the last dot of its name.
pub proof fn law_file_below_a_drive(
    drive: char,
    front: Seq<char>,
    last: Seq<char>,
    stem: Seq<char>,
    ext: Seq<char>,
    found_ext: Option<Seq<char>>,
    found_parent: Option<Seq<char>>,
)
    requires
        drive != '/' && drive != '\\',
        front.len() >= 2 && front[0] == drive && front[1] == ':',
        forall|i: int| 0 <= i < front.len() ==> #[trigger] front[i] != '\\',
        last.len() > 0 && last != "."@,
        forall|i: int| 0 <= i < last.len() ==> #[trigger] last[i] != '/' && last[i] != '\\',
        stem.len() > 1,
        forall|i: int| 0 <= i < stem.len() ==> #[trigger] stem[i] != '/' && stem[i] != '\\',
        forall|i: int|
            0 <= i < ext.len() ==> #[trigger] ext[i] != '/' && ext[i] != '\\' && ext[i] != '.',
        secret::may_have_extension(
            front + "/"@ + last + "/"@ + (stem + "."@ + ext),
            found_ext,
        ),
        secret::may_have_parent(
            front + "/"@ + last + "/"@ + (stem + "."@ + ext),
            found_parent,
        ),
    ensures
        found_ext == Some(ext),
        found_parent == Some(front + "/"@ + last),
{
    let dir = front + "/"@ + last;
    let name = stem + "."@ + ext;
    let path = dir + "/"@ + name;
    lemma_below(front, last, stem, ext, 0);
    assert(dir[0] == front[0] && dir[1] == front[1]);
    assert(path[0] == dir[0] && path[1] == dir[1]);
    assert(secret::below_drive(path));
}

proof fn lemma_below(front: Seq<char>, last: Seq<char>, stem: Seq<char>, ext: Seq<char>, start: int)
    requires
        front.len() >= 2,
        start == secret::names_start(front + "/"@ + last + "/"@ + (stem + "."@ + ext)),
        0 <= start <= 1,
        forall|i: int| 0 <= i < front.len() ==> #[trigger] front[i] != '\\',
        last.len() > 0 && last != "."@,
        forall|i: int| 0 <= i < last.len() ==> #[trigger] last[i] != '/' && last[i] != '\\',
        stem.len() > 1,
        forall|i: int| 0 <= i < stem.len() ==> #[trigger] stem[i] != '/' && stem[i] != '\\',
        forall|i: int|
            0 <= i < ext.len() ==> #[trigger] ext[i] != '/' && ext[i] != '\\' && ext[i] != '.',
    ensures
        ({
            let dir = front + "/"@ + last;
            let path = dir + "/"@ + (stem + "."@ + ext);
            &&& secret::slashes_only(path)
            &&& secret::parent_of(path) == Some(dir)
            &&& secret::extension_of(path) == Some(ext)
        }),
{
    reveal_strlit("/");
    reveal_strlit(".");
    assert("."@ =~= seq!['.']);
    assert("/"@ =~= seq!['/']);
    let dir = front + "/"@ + last;
    let name = stem + "."@ + ext;
    let path = dir + "/"@ + name;
    assert forall|i: int| 0 <= i < name.len() implies #[trigger] name[i] != '/' && name[i]
        != '\\' by {
        if i < stem.len() {
            assert(name[i] == stem[i]);
        } else if i > stem.len() {
            assert(name[i] == ext[i - stem.len() - 1]);
        } else {
            assert(name[i] == "."@[0]);
        }
    }
    assert(name.len() > 2 && seq!['.'].len() == 1 && seq!['.', '.'].len() == 2);
    assert forall|i: int| 0 <= i < path.len() implies #[trigger] path[i] != '\\' by {
        if i < front.len() {
            assert(path[i] == front[i]);
        } else if i < dir.len() {
            assert(path[i] == dir[i]);
            if i > front.len() {
                assert(dir[i] == last[i - front.len() - 1]);
            }
        } else if i > dir.len() {
            assert(path[i] == name[i - dir.len() - 1]);
        }
    }
    lemma_ends_in_a_name(dir, front, last, start);
    lemma_taken_apart(dir, name, start);
    lemma_extension(path, stem, ext);
}

/// Below a share, by slashes alone, a file has for its extension what follows the last dot of
/// its name, whatever the platform, and for its parent the directory that it stands in; only
/// the share itself may keep a slash behind it.
pub proof fn law_file_below_a_share(
    server: Seq<char>,
    last: Seq<char>,
    stem: Seq<char>,
    ext: Seq<char>,
    found_ext: Option<Seq<char>>,
    found_parent: Option<Seq<char>>,
)
    requires
        server.len() > 0 && server[0] != '.' && server[0] != '/',
        forall|i: int| 0 <= i < server.len() ==> #[trigger] server[i] != '\\',
        last.len() > 0 && last[0] != '.',
        forall|i: int| 0 <= i < last.len() ==> #[trigger] last[i] != '/' && last[i] != '\\',
        stem.len() > 1 && stem[0] != '.',
        forall|i: int| 0 <= i < stem.len() ==> #[trigger] stem[i] != '/' && stem[i] != '\\',
        forall|i: int|
            0 <= i < ext.len() ==> #[trigger] ext[i] != '/' && ext[i] != '\\' && ext[i] != '.',
        secret::may_have_extension(
            "//"@ + server + "/"@ + last + "/"@ + (stem + "."@ + ext),
            found_ext,
        ),
        secret::may_have_parent(
            "//"@ + server + "/"@ + last + "/"@ + (stem + "."@ + ext),
            found_parent,
        ),
    ensures
        found_ext == Some(ext),
        found_parent == Some("//"@ + server + "/"@ + last) || found_parent == Some(
            "//"@ + server + "/"@ + last + "/"@,
        ),
{
    reveal_strlit("//");
    reveal_strlit("/");
    reveal_strlit(".");
    assert("."@ =~= seq!['.']);
    let front = "//"@ + server;
    let dir = front + "/"@ + last;
    let name = stem + "."@ + ext;
    let path = dir + "/"@ + name;
    assert forall|i: int| 0 <= i < front.len() implies #[trigger] front[i] != '\\' by {
        if i >= 2 {
            assert(front[i] == server[i - 2]);
        }
    }
    assert(last != "."@) by {
        if last == "."@ {
            assert(last[0] == '.');
        }
    }
    assert(front[0] == '/' && front[1] == '/' && front[2] == server[0]);
    assert(dir[0] == '/' && dir[1] == '/' && dir[2] == server[0]);
    assert(path[0] == '/' && path[1] == '/' && path[2] == server[0]);
    lemma_below(front, last, stem, ext, 1);
    let x = front.len() as int;
    let y = dir.len() as int;
    assert(dir[x] == '/' && dir[x + 1] == last[0]);
    assert(path[x] == dir[x] && path[x + 1] == dir[x + 1]);
    assert(path[y] == '/');
    assert(name[0] == stem[0]);
    assert(path[y + 1] == name[0]);
    assert(secret::of_a_name(path[2]) && secret::of_a_name(path[x + 1]) && secret::of_a_name(
        path[y + 1],
    ));
    assert(secret::three_names(path));
    assert(secret::share_path(path));
    assert(dir.push('/') =~= dir + "/"@);
}

/// A verdict is made of what is said of the extension, and then of the place.
pub proof fn law_verdict_on_the_parts(
    ext: Option<Seq<char>>,
    parent: Option<Seq<char>>,
    expected: Seq<char>,
    present: bool,
    overridden: bool,
)
    ensures
        secret::path_verdict(ext, parent, expected, present, overridden) == if ext != Some("key"@) {
            Err::<(), ArcErrorView>(ArcErrorView::SecretExtension)
        } else if !present {
            Err(ArcErrorView::SecretMissing)
        } else if !overridden && parent is Some && parent != Some(expected) {
            Err(ArcErrorView::SecretDirectory { expected, found: parent->0 })
        } else {
            Ok(())
        },
{
}

/// A parent is what the path begins with, and a path with a letter or a digit behind its first
/// two characters, of which not both are separators, has one.
pub proof fn law_parents(path: Seq<char>, parent: Option<Seq<char>>, i: int)
    requires
        secret::may_have_parent(path, parent),
    ensures
        parent matches Some(p) ==> p.len() <= path.len() && path.take(p.len() as int) == p,
        2 <= i < path.len() && path[i] != '/' && path[i] != '\\' && path[i] != '.' && !((path[0]
            == '/' || path[0] == '\\') && (path[1] == '/' || path[1] == '\\')) ==> parent is Some,
{
    if 2 <= i < path.len() && path[i] != '/' && path[i] != '\\' && path[i] != '.' && !((path[0]
        == '/' || path[0] == '\\') && (path[1] == '/' || path[1] == '\\')) {
        assert(secret::of_a_name(path[i]));
        assert(secret::holds_a_name(path));
    }
}

/// The directory of the secret files is the one that the environment names, whatever it is, or
/// else that of the platform; on Windows without program data there is none.
pub proof fn law_directory_of_the_secrets(
    named: Seq<char>,
    platform: Platform,
    dir: Option<Seq<char>>,
)
    ensures
        secret::may_be_tokens_dir(Some(named), platform, dir) <==> dir == Some(named),
        secret::may_be_tokens_dir(None, Platform::Other, dir) <==> dir == Some(
            "/var/opt/azcmagent/tokens"@,
        ),
        secret::may_be_tokens_dir(
            None,
            Platform::Windows { program_data: None },
            dir,
        ) <==> dir is None,
{
}

/// Below the program data of Windows, the directory is that of the agent and then that of the
/// tokens, each behind a separator, all of one kind; behind a separator at the end of the
/// program data none of its kind is added.
pub proof fn law_directory_below_program_data(base: String, dir: Option<Seq<char>>)
    requires
        secret::may_be_tokens_dir(None, Platform::Windows { program_data: Some(base) }, dir),
        !(base@.len() > 1 && base@[0] == '\\' && base@[1] == '\\'),
        base@.len() > 0,
        base@.last() != ':',
    ensures
        base@.last() != '/' && base@.last() != '\\' ==> dir == Some(
            base@ + "/AzureConnectedMachineAgent/Tokens"@,
        ) || dir == Some(base@ + "\\AzureConnectedMachineAgent\\Tokens"@),
        base@.last() == '/' ==> dir == Some(base@ + "AzureConnectedMachineAgent/Tokens"@) || dir
            == Some(base@ + "AzureConnectedMachineAgent\\Tokens"@),
        base@.last() == '\\' ==> dir == Some(base@ + "/AzureConnectedMachineAgent/Tokens"@) || dir
            == Some(base@ + "AzureConnectedMachineAgent\\Tokens"@),
{
    reveal_strlit("AzureConnectedMachineAgent");
    reveal_strlit("Tokens");
    reveal_strlit("/AzureConnectedMachineAgent/Tokens");
    reveal_strlit("\\AzureConnectedMachineAgent\\Tokens");
    reveal_strlit("AzureConnectedMachineAgent/Tokens");
    reveal_strlit("AzureConnectedMachineAgent\\Tokens");
    let a = "AzureConnectedMachineAgent"@;
    let b = "Tokens"@;
    assert(a.len() > 2 && b.len() > 2 && seq!['.'].len() == 1 && seq!['.', '.'].len() == 2);
    assert(secret::component(a) && secret::component(b));
    let none = Seq::<char>::empty();
    assert(base@ + seq!['/'] + a.push('/') + b =~= base@ + "/AzureConnectedMachineAgent/Tokens"@);
    assert(base@ + seq!['\\'] + a.push('\\') + b =~= base@
        + "\\AzureConnectedMachineAgent\\Tokens"@);
    assert(base@ + none + a.push('/') + b =~= base@ + "AzureConnectedMachineAgent/Tokens"@);
    assert(base@ + none + a.push('\\') + b =~= base@ + "AzureConnectedMachineAgent\\Tokens"@);
}

}
