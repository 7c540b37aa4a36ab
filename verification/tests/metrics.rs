use swab::listing::Entry;
use swab::metrics::size_plan;
use swab::metrics::subdirectories;
use swab::metrics::walked_size;
use swab::metrics::FileKind;
use swab::metrics::Metadata;
use swab::metrics::SizeError;
use swab::metrics::SizePlan;
use swab::metrics::Sized;

fn file(len: u64) -> Sized {
    Sized::Entry(Metadata { kind: FileKind::File, len })
}

fn dir() -> Sized {
    Sized::Entry(Metadata { kind: FileKind::Directory, len: 4096 })
}

fn link(len: u64) -> Sized {
    Sized::Entry(Metadata { kind: FileKind::Symlink, len })
}

fn child(path: &str, is_dir: bool) -> Entry {
    Entry { path: path.to_string(), is_dir }
}

/// The size of a path from what the file system says of it and, for a
/// directory, from the walk of it.
fn size(path: Metadata, walk: &[Sized], follow_symlinks: bool) -> Result<u64, SizeError> {
    match size_plan(path, follow_symlinks) {
        SizePlan::Known(bytes) => Ok(bytes),
        SizePlan::Walk => walked_size(&walk.iter().map(copy).collect(), follow_symlinks),
    }
}

fn copy(step: &Sized) -> Sized {
    match step {
        Sized::Entry(entry) => Sized::Entry(*entry),
        Sized::Failed(said) => Sized::Failed(said.clone()),
    }
}

const DIRECTORY: Metadata = Metadata { kind: FileKind::Directory, len: 4096 };

#[test]
fn size_of_file() {
    let path = Metadata { kind: FileKind::File, len: 5 };
    assert_eq!(size(path, &[], false).unwrap(), 5);
}

#[test]
fn size_of_empty_file() {
    let path = Metadata { kind: FileKind::File, len: 0 };
    assert_eq!(size(path, &[], false).unwrap(), 0);
}

#[test]
fn size_of_empty_directory() {
    assert_eq!(size(DIRECTORY, &[dir()], false).unwrap(), 0);
}

#[test]
fn size_of_directory_with_files() {
    assert_eq!(size(DIRECTORY, &[dir(), file(3), file(5)], false).unwrap(), 8);
}

#[test]
fn size_of_nested_directory() {
    assert_eq!(size(DIRECTORY, &[dir(), file(4), dir(), file(6)], false).unwrap(), 10);
}

#[test]
fn size_of_deeply_nested_directory() {
    let walk = [dir(), file(1), dir(), file(2), dir(), file(3)];
    assert_eq!(size(DIRECTORY, &walk, false).unwrap(), 6);
}

#[test]
fn size_of_subdirectory() {
    assert_eq!(size(DIRECTORY, &[dir(), file(6)], false).unwrap(), 6);
}

#[test]
fn size_of_empty_subdirectory() {
    assert_eq!(size(DIRECTORY, &[dir()], false).unwrap(), 0);
}

#[test]
fn size_of_nonexistent_path_returns_error() {
    let walk = [Sized::Failed("No such file or directory".to_string())];
    assert!(size(DIRECTORY, &walk, false).is_err());
}

#[test]
fn directories_returns_sorted_subdirectories() {
    let children = vec![
        child("/t/file.txt", false),
        child("/t/zebra", true),
        child("/t/alpha", true),
        child("/t/middle", true),
    ];

    let directories = subdirectories(&children);

    assert_eq!(directories.len(), 3);

    assert_eq!(directories[0], "/t/alpha");
    assert_eq!(directories[1], "/t/middle");
    assert_eq!(directories[2], "/t/zebra");
}

#[test]
fn directories_excludes_files() {
    let children =
        vec![child("/t/file1.txt", false), child("/t/file2.txt", false), child("/t/only_dir", true)];

    let directories = subdirectories(&children);

    assert_eq!(directories.len(), 1);

    assert_eq!(*directories.first().unwrap(), "/t/only_dir");
}

#[test]
fn directories_empty_directory() {
    let directories = subdirectories(&vec![]);

    assert!(directories.is_empty());
}

#[test]
fn directories_come_once_each() {
    let children = vec![child("b", true), child("a", true), child("b", true), child("a-b", true)];
    assert_eq!(subdirectories(&children), vec!["a", "a-b", "b"]);
}

#[test]
fn size_plan_goes_by_the_kind() {
    let link_here = Metadata { kind: FileKind::Symlink, len: 11 };
    assert_eq!(size_plan(link_here, false), SizePlan::Known(11));
    assert_eq!(size_plan(link_here, true), SizePlan::Known(0));
    assert_eq!(size_plan(Metadata { kind: FileKind::Other, len: 9 }, false), SizePlan::Known(0));
    assert_eq!(size_plan(DIRECTORY, true), SizePlan::Walk);
    assert_eq!(size_plan(Metadata { kind: FileKind::File, len: 9 }, true), SizePlan::Known(9));
}

#[test]
fn links_count_only_where_they_are_not_followed() {
    let walk = vec![dir(), file(10), link(7), Sized::Entry(Metadata { kind: FileKind::Other, len: 99 })];
    assert_eq!(walked_size(&walk, false), Ok(17));
    assert_eq!(walked_size(&walk, true), Ok(10));
}

#[test]
fn first_unreadable_entry_fails_the_size() {
    let walk = vec![
        file(1),
        Sized::Failed("first".to_string()),
        file(u64::MAX),
        Sized::Failed("second".to_string()),
    ];
    assert_eq!(walked_size(&walk, false), Err(SizeError::Unreadable("first".to_string())));
}

#[test]
fn size_that_does_not_fit_is_refused() {
    assert_eq!(walked_size(&vec![file(u64::MAX), file(1)], false), Err(SizeError::TooLarge));
    assert_eq!(walked_size(&vec![file(u64::MAX - 1), file(1)], false), Ok(u64::MAX));
    assert_eq!(walked_size(&vec![file(u64::MAX), link(1)], true), Ok(u64::MAX));
}
