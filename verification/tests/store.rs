use rowstore::executor::{execute_sql, ExecOutcome};
use rowstore::pager::{Pager, PagerError, FILE_SIZE};
use rowstore::table::{Table, NAME_SIZE, TABLE_CAPACITY};
use rowstore::{MAX_PAGES, PAGE_SIZE};

/// Boundary: requesting page `MAX_PAGES` on a `MAX_PAGES`-slot pager is
/// a capacity error, not a silent wrap or truncation.
#[test]
fn get_page_at_capacity_fails_fast() {
    let mut pager = Pager::new();
    let r = pager.get_page(MAX_PAGES);
    assert_eq!(r.unwrap_err(), PagerError::Capacity);
    assert!(pager.get_page(MAX_PAGES - 1).is_ok());
    assert_eq!(pager.get_page(usize::MAX).unwrap_err(), PagerError::Capacity);
}

#[test]
fn open_rejects_wrong_sized_image() {
    assert_eq!(FILE_SIZE, MAX_PAGES * PAGE_SIZE);
    assert_eq!(
        Pager::open(vec![0u8; 10]).map(|_| ()).unwrap_err(),
        PagerError::BadImage
    );
    assert_eq!(
        Table::open(vec![0u8; FILE_SIZE + 1]).map(|_| ()).unwrap_err(),
        PagerError::BadImage
    );
    assert!(Pager::open(vec![0u8; FILE_SIZE]).is_ok());
}

#[test]
fn fresh_pager_image_is_zero_filled() {
    let pager = Pager::new();
    let image = pager.image();
    assert_eq!(image.len(), FILE_SIZE);
    assert!(image.iter().all(|&b| b == 0));
}

#[test]
fn execute_insert_then_select() {
    let mut table = Table::new();

    let r = execute_sql("INSERT INTO users VALUES 7, \"bob\", \"bob@x.com\"", &mut table);
    assert_eq!(r, ExecOutcome::Inserted);
    assert_eq!(table.count(), 1);

    let r = execute_sql("SELECT 'id' FROM 'users'", &mut table);
    match r {
        ExecOutcome::Selected(Some(row)) => {
            assert_eq!(row.id, 7);
            assert_eq!(&row.username[0..3], b"bob");
            assert_eq!(&row.email[0..9], b"bob@x.com");
        }
        other => panic!("expected a selected row, got {:?}", other),
    }
}

#[test]
fn execute_select_on_empty_table() {
    let mut table = Table::new();
    let r = execute_sql("SELECT 'id' FROM 'users'", &mut table);
    assert_eq!(r, ExecOutcome::Selected(None));
}

#[test]
fn execute_rejects_bad_sql() {
    let mut table = Table::new();
    assert_eq!(execute_sql("SELECT FROM users", &mut table), ExecOutcome::InvalidSql);
    assert_eq!(execute_sql("DROP TABLE users", &mut table), ExecOutcome::InvalidSql);
    assert_eq!(execute_sql("", &mut table), ExecOutcome::InvalidSql);
    assert_eq!(table.count(), 0);
}

#[test]
fn execute_rejects_bad_values() {
    let mut table = Table::new();
    // id must be an integer
    assert_eq!(
        execute_sql("INSERT INTO users VALUES \"x\", \"y\", \"z\"", &mut table),
        ExecOutcome::InvalidValues
    );
    // three values are needed
    assert_eq!(
        execute_sql("INSERT INTO users VALUES 1, \"y\"", &mut table),
        ExecOutcome::InvalidValues
    );
    // a username longer than the row buffer is rejected, not fatal
    let long = "a".repeat(NAME_SIZE + 1);
    let sql = format!("INSERT INTO users VALUES 1, \"{}\", \"e\"", long);
    assert_eq!(execute_sql(&sql, &mut table), ExecOutcome::InvalidValues);
    assert_eq!(table.count(), 0);
}

#[test]
fn execute_reports_full_table() {
    let mut table = Table::new();
    for i in 0..TABLE_CAPACITY {
        let sql = format!("INSERT INTO users VALUES {}, \"u\", \"e\"", i);
        assert_eq!(execute_sql(&sql, &mut table), ExecOutcome::Inserted);
    }
    assert_eq!(
        execute_sql("INSERT INTO users VALUES 1, \"u\", \"e\"", &mut table),
        ExecOutcome::Full
    );
}
