use rowstore::pager::Page;
use rowstore::table::{NAME_SIZE, ROW_SIZE, ROWS_PER_PAGE, Row, TABLE_CAPACITY, Table};

#[test]
fn test_row_serialize() {
    let row = Row::new(1, "Username", "email");

    let data = row.serialize();

    assert_eq!(&data[0..4], &[0xff, 0xff, 0xff, 0xff]);
}

#[test]
fn serialize_layout_is_exact() {
    let row = Row::new(0x01020304, "ab", "cd");
    let data = row.serialize();
    assert_eq!(data.len(), ROW_SIZE);
    // sentinel
    assert_eq!(&data[0..4], &[0xff, 0xff, 0xff, 0xff]);
    // big-endian id
    assert_eq!(&data[4..8], &[0x01, 0x02, 0x03, 0x04]);
    // zero-padded username and email
    assert_eq!(&data[8..10], b"ab");
    assert!(data[10..8 + NAME_SIZE].iter().all(|&b| b == 0));
    assert_eq!(&data[8 + NAME_SIZE..10 + NAME_SIZE], b"cd");
    assert!(data[10 + NAME_SIZE..ROW_SIZE].iter().all(|&b| b == 0));
}

/// Round trip: decoding an encoded row gives back the same row, with
/// the buffers compared in their padded form.
#[test]
fn row_round_trip_through_page() {
    let row = Row::new(42, "alice", "alice@example.com");
    let data = row.serialize();

    let mut page = Page::new();
    let slot = 3;
    page.write_at(slot * ROW_SIZE, &data);

    let back = Row::from_page(&page, slot).expect("slot is occupied");
    assert_eq!(back, row);
    assert_eq!(back.id, 42);
    assert_eq!(&back.username[0..5], b"alice");
    assert!(back.username[5..].iter().all(|&b| b == 0));
}

#[test]
fn empty_slot_reads_as_none() {
    let page = Page::new();
    assert_eq!(Row::from_page(&page, 0), None);
    assert_eq!(Row::from_page(&page, ROWS_PER_PAGE - 1), None);
}

#[test]
fn try_new_rejects_long_buffers() {
    let long = "a".repeat(NAME_SIZE + 1);
    let ok = "b".repeat(NAME_SIZE);
    assert!(Row::try_new(1, &long, "x").is_none());
    assert!(Row::try_new(1, "x", &long).is_none());
    let row = Row::try_new(1, &ok, "x").expect("exactly NAME_SIZE bytes fit");
    assert_eq!(row.username.len(), NAME_SIZE);
}

#[test]
fn insert_then_get_row() {
    let mut table = Table::new();
    assert_eq!(table.get_row(0), None);

    let row = Row::new(7, "bob", "bob@x.com");
    table.insert(Row::new(7, "bob", "bob@x.com")).expect("not full");
    assert_eq!(table.count(), 1);

    assert_eq!(table.get_row(0), Some(row));
    assert_eq!(table.get_row(1), None);
}

/// Inserts fill pages sequentially; crossing a page boundary works.
#[test]
fn insert_across_page_boundary() {
    let mut table = Table::new();
    let n = ROWS_PER_PAGE + 3;
    for i in 0..n {
        let row = Row::new(i as u32, &format!("user{}", i), "e@x");
        table.insert(row).expect("not full");
    }
    for i in 0..n {
        let row = table.get_row(i).expect("occupied");
        assert_eq!(row.id, i as u32);
    }
    assert_eq!(table.get_row(n), None);
}

/// A full table reports a capacity error instead of writing past the
/// last page.
#[test]
fn insert_past_capacity_is_capacity_error() {
    let mut table = Table::new();
    for i in 0..TABLE_CAPACITY {
        table.insert(Row::new(i as u32, "u", "e")).expect("not full");
    }
    assert_eq!(table.count(), TABLE_CAPACITY);
    let r = table.insert(Row::new(9999, "u", "e"));
    assert!(r.is_err());
    assert_eq!(table.count(), TABLE_CAPACITY);
}

/// Page persistence: inserting N rows, flushing, reopening on the same
/// image, and reading back row N-1 yields the same decoded row.
#[test]
fn persistence_across_reopen() {
    let n = 20;
    let mut table = Table::new();
    for i in 0..n {
        let row = Row::new(i as u32, &format!("user{}", i), &format!("u{}@x.com", i));
        table.insert(row).expect("not full");
    }
    table.flush();
    let image = table.image();

    let mut reopened = Table::open(image).expect("well-sized image");
    let last = reopened.get_row(n - 1).expect("occupied");
    assert_eq!(last, Row::new((n - 1) as u32, &format!("user{}", n - 1), &format!("u{}@x.com", n - 1)));
}

/// Idempotent flush: a second flush with no intervening writes leaves
/// a byte-identical file image.
#[test]
fn flush_is_idempotent() {
    let mut table = Table::new();
    for i in 0..7 {
        table.insert(Row::new(i, "user", "mail")).expect("not full");
    }
    table.flush();
    let first = table.image();
    table.flush();
    let second = table.image();
    assert_eq!(first, second);
}

/// An unflushed insert is not part of the file image.
#[test]
fn image_reflects_only_flushed_pages() {
    let mut table = Table::new();
    table.insert(Row::new(1, "a", "b")).expect("not full");
    let before = table.image();
    assert!(before.iter().all(|&b| b == 0));
    table.flush();
    let after = table.image();
    assert_eq!(&after[0..4], &[0xff, 0xff, 0xff, 0xff]);
}
