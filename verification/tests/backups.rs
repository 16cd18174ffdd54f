use logholizon_core::backups::{backup_file_name, check_backup_name, is_backup_file, list_backups, BackupFile};
use logholizon_core::error::AppError;

fn file(name: &str, size: u64, modified: i64) -> BackupFile {
    BackupFile { name: name.to_string(), size, modified }
}

#[test]
fn backup_files_are_those_ending_in_db() {
    assert!(is_backup_file("core-1.db"));
    assert!(is_backup_file("a.b.db"));
    assert!(is_backup_file("..db"));
    assert!(!is_backup_file(".db"));
    assert!(!is_backup_file("a.db.bak"));
    assert!(!is_backup_file("x.DB"));
    assert!(!is_backup_file("db"));
    assert!(!is_backup_file(""));
}

#[test]
fn backup_names_carry_the_time_taken() {
    assert_eq!(backup_file_name(5), "core-5.db");
    assert_eq!(backup_file_name(1700000000), "core-1700000000.db");
    assert_eq!(backup_file_name(0), "core-0.db");
}

#[test]
fn backups_are_listed_newest_name_first() {
    let entries = vec![
        file("core-100.db", 10, 1),
        file("notes.txt", 3, 2),
        file("core-300.db", 30, 3),
        file("core-200.db", 20, 4),
        file(".db", 1, 5),
    ];
    let listed = list_backups(&entries);
    let names: Vec<&str> = listed.iter().map(|f| f.name.as_str()).collect();
    assert_eq!(names, vec!["core-300.db", "core-200.db", "core-100.db"]);
    assert_eq!((listed[0].size, listed[0].modified), (30, 3));
    assert_eq!((listed[2].size, listed[2].modified), (10, 1));
    assert!(list_backups(&Vec::new()).is_empty());
}

#[test]
fn no_backup_name_passes_the_download_check() {
    for name in ["core-1.db", "core-1", "a/b.db", "x:y", ""] {
        match check_backup_name(name) {
            Err(AppError::BadRequest(m)) => assert_eq!(m, "invalid backup name"),
            other => panic!("unexpected {:?}", other),
        }
    }
}
