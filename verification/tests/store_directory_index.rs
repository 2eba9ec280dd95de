use tagsyd::ids::FileId;
use tagsyd::paths::{LogicalPath, PhysicalPath};
use tagsyd::store::schema::{migrate_files_to_v2, FileRowV1};
use tagsyd::store::{DatabaseError, DirectoryIndex, SyncDirectoryFile};

fn empty_index() -> DirectoryIndex {
    DirectoryIndex::initialize(Vec::new()).expect("an empty index opens")
}

#[test]
fn added_file_is_found_both_ways() {
    let mut index = empty_index();
    let file_id = FileId::new();
    let path = PhysicalPath::new("/data/a.txt");
    index.add_file(file_id, &path).unwrap();
    let file = index.get_file(file_id).unwrap();
    assert_eq!(file.file_id, file_id);
    assert_eq!(file.physical_path, path);
    assert_eq!(index.get_file_id(&path).unwrap(), file_id);
    assert!(matches!(
        index.add_file(file_id, &path),
        Err(DatabaseError::Sqlite { .. })
    ));
}

#[test]
fn unknown_file_and_path_are_missing() {
    let index = empty_index();
    assert!(matches!(
        index.get_file(FileId::new()),
        Err(DatabaseError::MissingFile)
    ));
    assert!(matches!(
        index.get_file_id(&PhysicalPath::new("/nowhere")),
        Err(DatabaseError::MissingFile)
    ));
}

#[test]
fn moved_file_keeps_its_id() {
    let mut index = empty_index();
    let file_id = FileId::new();
    index.add_file(file_id, &PhysicalPath::new("/old")).unwrap();
    index.update_file_physical_path(file_id, &PhysicalPath::new("/new")).unwrap();
    assert_eq!(index.get_file_id(&PhysicalPath::new("/new")).unwrap(), file_id);
    assert!(index.get_file_id(&PhysicalPath::new("/old")).is_err());
    index.update_file_physical_path(FileId::new(), &PhysicalPath::new("/x")).unwrap();
    assert_eq!(index.get_all_files().unwrap().len(), 1);
}

#[test]
fn removed_file_is_gone() {
    let mut index = empty_index();
    let file_id = FileId::new();
    let other = FileId::new();
    index.add_file(file_id, &PhysicalPath::new("/a")).unwrap();
    index.add_file(other, &PhysicalPath::new("/b")).unwrap();
    index.remove_file_by_id(file_id).unwrap();
    index.remove_file_by_id(FileId::new()).unwrap();
    let left = index.get_all_files().unwrap();
    assert_eq!(left.len(), 1);
    assert_eq!(left[0].file_id, other);
}

#[test]
fn path_in_use_counts_other_files_only() {
    let mut index = empty_index();
    let file_id = FileId::new();
    let path = PhysicalPath::new("/a");
    index.add_file(file_id, &path).unwrap();
    assert!(!index.physical_path_in_use_by_other(&path, file_id).unwrap());
    assert!(index.physical_path_in_use_by_other(&path, FileId::new()).unwrap());
}

#[test]
fn files_under_a_path_are_listed() {
    let mut index = empty_index();
    for path in ["/data/a", "/data/b/c", "/other"] {
        index.add_file(FileId::new(), &PhysicalPath::new(path)).unwrap();
    }
    let found = index.get_all_files_at(&PhysicalPath::new("/data/")).unwrap();
    let paths: Vec<&str> = found.iter().map(|file| file.physical_path.as_str()).collect();
    assert_eq!(paths, vec!["/data/a", "/data/b/c"]);
    let found = index.get_all_files_at(&PhysicalPath::new("/DATA/")).unwrap();
    assert_eq!(found.len(), 2, "the case of ASCII letters is ignored");
}

#[test]
fn index_with_one_file_twice_is_refused() {
    let file_id = FileId::new();
    let row = || SyncDirectoryFile {
        file_id,
        physical_path: PhysicalPath::new("/a"),
    };
    assert!(DirectoryIndex::initialize(vec![row()]).is_ok());
    assert!(matches!(
        DirectoryIndex::initialize(vec![row(), row()]),
        Err(DatabaseError::UnableToOpenOrCreate)
    ));
}

#[test]
fn older_rows_have_never_been_restored() {
    let id = FileId::new();
    let rows = migrate_files_to_v2(vec![FileRowV1 {
        id,
        logical_path: LogicalPath::new("a"),
        logical_path_modified_at: 3,
        deleted: true,
        deleted_at: 4,
    }]);
    assert_eq!(rows.len(), 1);
    assert_eq!(rows[0].id, id);
    assert_eq!(rows[0].logical_path.as_str(), "a");
    assert_eq!(rows[0].logical_path_modified_at, 3);
    assert!(rows[0].deleted);
    assert_eq!(rows[0].deleted_at, 4);
    assert_eq!(rows[0].restored_at, 0);
}
