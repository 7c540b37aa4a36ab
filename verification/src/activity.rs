//! The activity scan: when a project was last worked on.
//!
//! The time a directory was changed says little: build tools touch it, and
//! so does cleaning. The scan looks at the files instead, and leaves out
//! what lies in the directories that build tools fill.

use crate::age::Timestamp;
use crate::text::chars_of;
use vstd::prelude::*;
use vstd::string::*;

verus! {

/// One entry that the scan came by.
#[derive(Debug)]
pub struct ActivityEntry {
    /// The path, relative to the root of the scan.
    pub path: String,
    /// Whether it is a regular file.
    pub is_file: bool,
    /// When it was last changed, if that could be read.
    pub modified: Option<Timestamp>,
}

/// The names of the directories that the scan does not enter.
pub open spec fn ignored_names() -> Seq<Seq<char>> {
    seq![
        ".angular"@,
        ".build"@,
        ".dart_tool"@,
        ".elixir-tools"@,
        ".elixir_ls"@,
        ".git"@,
        ".godot"@,
        ".gradle"@,
        ".ipynb_checkpoints"@,
        ".lexical"@,
        ".mypy_cache"@,
        ".nox"@,
        ".pixi"@,
        ".pytest_cache"@,
        ".ruff_cache"@,
        ".stack-work"@,
        ".swiftpm"@,
        ".tox"@,
        ".turbo"@,
        ".venv"@,
        ".zig-cache"@,
        "__pycache__"@,
        "__pypackages__"@,
        "_build"@,
        "Binaries"@,
        "Build"@,
        "Builds"@,
        "DerivedDataCache"@,
        "Library"@,
        "Logs"@,
        "MemoryCaptures"@,
        "Obj"@,
        "Saved"@,
        "Temp"@,
        "bin"@,
        "build"@,
        "cmake-build-debug"@,
        "cmake-build-release"@,
        "dist-newstyle"@,
        "node_modules"@,
        "obj"@,
        "target"@,
        "vendor"@,
        "zig-cache"@,
        "zig-out"@,
    ]
}

/// The names of the directories that the scan does not enter.
pub fn ignored_directories() -> (names: Vec<Vec<char>>)
    ensures
        names@.len() == ignored_names().len(),
        forall|k: int| 0 <= k < names@.len() ==> (#[trigger] names@[k])@ == ignored_names()[k],
{
    let mut names: Vec<Vec<char>> = Vec::new();
    names.push(chars_of(".angular"));
    names.push(chars_of(".build"));
    names.push(chars_of(".dart_tool"));
    names.push(chars_of(".elixir-tools"));
    names.push(chars_of(".elixir_ls"));
    names.push(chars_of(".git"));
    names.push(chars_of(".godot"));
    names.push(chars_of(".gradle"));
    names.push(chars_of(".ipynb_checkpoints"));
    names.push(chars_of(".lexical"));
    names.push(chars_of(".mypy_cache"));
    names.push(chars_of(".nox"));
    names.push(chars_of(".pixi"));
    names.push(chars_of(".pytest_cache"));
    names.push(chars_of(".ruff_cache"));
    names.push(chars_of(".stack-work"));
    names.push(chars_of(".swiftpm"));
    names.push(chars_of(".tox"));
    names.push(chars_of(".turbo"));
    names.push(chars_of(".venv"));
    names.push(chars_of(".zig-cache"));
    names.push(chars_of("__pycache__"));
    names.push(chars_of("__pypackages__"));
    names.push(chars_of("_build"));
    names.push(chars_of("Binaries"));
    names.push(chars_of("Build"));
    names.push(chars_of("Builds"));
    names.push(chars_of("DerivedDataCache"));
    names.push(chars_of("Library"));
    names.push(chars_of("Logs"));
    names.push(chars_of("MemoryCaptures"));
    names.push(chars_of("Obj"));
    names.push(chars_of("Saved"));
    names.push(chars_of("Temp"));
    names.push(chars_of("bin"));
    names.push(chars_of("build"));
    names.push(chars_of("cmake-build-debug"));
    names.push(chars_of("cmake-build-release"));
    names.push(chars_of("dist-newstyle"));
    names.push(chars_of("node_modules"));
    names.push(chars_of("obj"));
    names.push(chars_of("target"));
    names.push(chars_of("vendor"));
    names.push(chars_of("zig-cache"));
    names.push(chars_of("zig-out"));
    names
}

/// The separator between the components of a path.
pub const SLASH: char = '/';

/// The characters from `i` up to `j` are a component of the path that
/// names a directory above its last component.
pub open spec fn is_directory_component(path: Seq<char>, i: int, j: int) -> bool {
    &&& 0 <= i <= j < path.len()
    &&& i == 0 || path[i - 1] == SLASH
    &&& path[j] == SLASH
    &&& forall|k: int| i <= k < j ==> path[k] != SLASH
}

/// The path leads through a directory that the scan does not enter.
pub open spec fn enters_ignored(path: Seq<char>) -> bool {
    exists|i: int, j: int|
        is_directory_component(path, i, j) && ignored_names().contains(
            #[trigger] path.subrange(i, j),
        )
}

/// The entry counts for the scan: a regular file whose time is known and
/// which lies in no directory that the scan does not enter.
pub open spec fn counts(entry: ActivityEntry) -> bool {
    entry.is_file && entry.modified is Some && !enters_ignored(entry.path@)
}

/// The latest time among the entries that count; the start of 1970 when
/// none counts or none is later than that.
pub open spec fn newest(entries: Seq<ActivityEntry>) -> Timestamp
    decreases entries.len(),
{
    if entries.len() == 0 {
        Timestamp { seconds: 0, nanos: 0 }
    } else {
        let before = newest(entries.drop_last());
        let entry = entries.last();
        if counts(entry) && entry.modified->0.total_nanos() > before.total_nanos() {
            entry.modified->0
        } else {
            before
        }
    }
}

/// No entry that counts is later than the newest, and the newest is the
/// time of an entry that counts unless it is the start of 1970.
pub proof fn lemma_newest_is_latest(entries: Seq<ActivityEntry>)
    ensures
        forall|k: int|
            0 <= k < entries.len() && counts(#[trigger] entries[k])
                ==> entries[k].modified->0.total_nanos() <= newest(entries).total_nanos(),
        newest(entries) == (Timestamp { seconds: 0, nanos: 0 }) || exists|k: int|
            0 <= k < entries.len() && counts(#[trigger] entries[k]) && entries[k].modified
                == Some(newest(entries)),
    decreases entries.len(),
{
    if entries.len() > 0 {
        let front = entries.drop_last();
        lemma_newest_is_latest(front);
        assert forall|k: int| 0 <= k < entries.len() && counts(#[trigger] entries[k]) implies
            entries[k].modified->0.total_nanos() <= newest(entries).total_nanos() by {
            if k < front.len() {
                assert(front[k] == entries[k]);
            }
        }
        if newest(entries) != (Timestamp { seconds: 0, nanos: 0 }) {
            if newest(entries) == newest(front) {
                let k = choose|k: int|
                    0 <= k < front.len() && counts(#[trigger] front[k]) && front[k].modified
                        == Some(newest(front));
                assert(entries[k] == front[k]);
            } else {
                assert(entries[entries.len() - 1].modified == Some(newest(entries)));
            }
        }
    }
}

/// Whether the characters between `from` and `to` are one of the names.
fn among(names: &Vec<Vec<char>>, chars: &Vec<char>, from: usize, to: usize) -> (r: bool)
    requires
        from <= to <= chars.len(),
    ensures
        r == exists|k: int|
            0 <= k < names@.len() && (#[trigger] names@[k])@ == chars@.subrange(
                from as int,
                to as int,
            ),
{
    let ghost word = chars@.subrange(from as int, to as int);
    let mut k: usize = 0;
    while k < names.len()
        invariant
            k <= names.len(),
            from <= to <= chars.len(),
            word == chars@.subrange(from as int, to as int),
            forall|j: int| 0 <= j < k ==> (#[trigger] names@[j])@ != word,
        decreases names.len() - k,
    {
        let name = &names[k];
        if name.len() == to - from {
            let mut i: usize = 0;
            while i < name.len() && name[i] == chars[from + i]
                invariant
                    i <= name.len(),
                    name.len() == to - from,
                    from <= to <= chars.len(),
                    word == chars@.subrange(from as int, to as int),
                    forall|j: int| 0 <= j < i ==> name@[j] == word[j],
                decreases name.len() - i,
            {
                i += 1;
            }
            if i == name.len() {
                assert(name@ =~= word);
                return true;
            }
            assert(name@[i as int] != word[i as int]);
        }
        k += 1;
    }
    false
}

/// Whether the path leads through a directory that the scan does not enter.
pub fn leads_through_ignored(path: &str) -> (r: bool)
    ensures
        r == enters_ignored(path@),
{
    let names = ignored_directories();
    let chars = chars_of(path);
    let mut start: usize = 0;
    let mut at: usize = 0;
    while at < chars.len()
        invariant
            start <= at <= chars.len(),
            chars@ == path@,
            names@.len() == ignored_names().len(),
            forall|k: int| 0 <= k < names@.len() ==> (#[trigger] names@[k])@ == ignored_names()[k],
            start == 0 || chars@[start - 1] == SLASH,
            forall|k: int| start <= k < at ==> chars@[k] != SLASH,
            forall|i: int, j: int|
                j < at && is_directory_component(chars@, i, j) ==> !ignored_names().contains(
                    #[trigger] chars@.subrange(i, j),
                ),
        decreases chars.len() - at,
    {
        if chars[at] == SLASH {
            let found = among(&names, &chars, start, at);
            let ghost word = chars@.subrange(start as int, at as int);
            proof {
                if found {
                    let k = choose|k: int| 0 <= k < names@.len() && (#[trigger] names@[k])@ == word;
                    assert(ignored_names()[k] == word);
                    assert(is_directory_component(chars@, start as int, at as int));
                }
                if ignored_names().contains(word) {
                    let k = choose|k: int|
                        0 <= k < ignored_names().len() && ignored_names()[k] == word;
                    assert(names@[k]@ == word);
                }
            }
            if found {
                return true;
            }
            proof {
                assert forall|i: int, j: int|
                    j < at + 1 && is_directory_component(
                        chars@,
                        i,
                        j,
                    ) implies !ignored_names().contains(#[trigger] chars@.subrange(i, j)) by {
                    if j == at {
                        if i < start {
                            assert(chars@[start - 1] == SLASH);
                        } else if i > start {
                            assert(chars@[i - 1] == SLASH);
                        }
                        assert(i == start);
                    }
                }
            }
            start = at + 1;
        }
        at += 1;
    }
    proof {
        assert forall|i: int, j: int| is_directory_component(chars@, i, j)
            implies !ignored_names().contains(#[trigger] chars@.subrange(i, j)) by {}
    }
    false
}

/// Whether the scan leaves a directory alone: it has one of the names, and
/// is not the root of the scan.
pub fn is_activity_ignored(name: &str, depth: usize, is_dir: bool) -> (r: bool)
    ensures
        r == (depth != 0 && is_dir && ignored_names().contains(name@)),
{
    if depth == 0 || !is_dir {
        return false;
    }
    let names = ignored_directories();
    let chars = chars_of(name);
    let found = among(&names, &chars, 0, chars.len());
    proof {
        assert(chars@.subrange(0, chars.len() as int) =~= name@);
        if found {
            let k = choose|k: int| 0 <= k < names@.len() && (#[trigger] names@[k])@ == name@;
            assert(ignored_names()[k] == name@);
        }
        if ignored_names().contains(name@) {
            let k = choose|k: int| 0 <= k < ignored_names().len() && ignored_names()[k] == name@;
            assert(names@[k]@ == name@);
        }
    }
    found
}

/// When the project was last worked on: the latest time of a file that
/// counts, or the time of the root when there is none.
pub fn activity_time(entries: &Vec<ActivityEntry>, root_modified: Timestamp) -> (time: Timestamp)
    ensures
        time == if newest(entries@) == (Timestamp { seconds: 0, nanos: 0 }) {
            root_modified
        } else {
            newest(entries@)
        },
{
    let mut latest = Timestamp::epoch();
    let mut i: usize = 0;
    while i < entries.len()
        invariant
            i <= entries.len(),
            latest == newest(entries@.take(i as int)),
        decreases entries.len() - i,
    {
        proof {
            assert(entries@.take(i + 1).drop_last() =~= entries@.take(i as int));
        }
        let entry = &entries[i];
        if entry.is_file {
            if let Some(modified) = entry.modified {
                if modified.is_after(latest) && !leads_through_ignored(entry.path.as_str()) {
                    latest = modified;
                }
            }
        }
        i += 1;
    }
    proof {
        assert(entries@.take(i as int) =~= entries@);
    }
    if latest.seconds == 0 && latest.nanos == 0 {
        root_modified
    } else {
        latest
    }
}

} // verus!
