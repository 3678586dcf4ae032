use media_server::range::{resolve, resolve_from, RangeError, RangePlan};

fn plan(start: u64, end: u64, total_size: u64, satisfiable: bool) -> Result<RangePlan, RangeError> {
    Ok(RangePlan { start, end, total_size, satisfiable })
}

fn satisfiable(r: Result<RangePlan, RangeError>) -> bool {
    r.unwrap().satisfiable
}

#[test]
fn no_header_is_whole_file() {
    assert_eq!(resolve(1000, None), plan(0, 999, 1000, true));
}

#[test]
fn open_ended_range() {
    assert_eq!(resolve(1000, Some("bytes=500-")), plan(500, 999, 1000, true));
}

#[test]
fn closed_range() {
    assert_eq!(resolve(1000, Some("bytes=500-600")), plan(500, 600, 1000, true));
}

#[test]
fn range_past_end_is_unsatisfiable() {
    assert!(!satisfiable(resolve(1000, Some("bytes=1000-2000"))));
    assert!(!satisfiable(resolve(1000, Some("bytes=1500-"))));
}

#[test]
fn range_boundaries() {
    assert_eq!(resolve(1000, Some("bytes=0-")), plan(0, 999, 1000, true));
    assert_eq!(resolve(1000, Some("bytes=0-0")), plan(0, 0, 1000, true));
    assert_eq!(resolve(1000, Some("bytes=999-")), plan(999, 999, 1000, true));
    assert_eq!(resolve(1000, Some("bytes=999-999")), plan(999, 999, 1000, true));
    assert!(!satisfiable(resolve(1000, Some("bytes=1000-"))));
}

#[test]
fn reversed_range_is_unsatisfiable() {
    assert_eq!(resolve(1000, Some("bytes=600-500")), plan(0, 0, 1000, false));
}

#[test]
fn multi_ranges_are_unsatisfiable() {
    for h in ["bytes=0-1,5-6", "bytes=0-1,5-", "bytes=0-,10-20,30-40"] {
        assert_eq!(resolve(1000, Some(h)), plan(0, 0, 1000, false), "{}", h);
    }
}

#[test]
fn malformed_ranges_are_refused() {
    for h in [
        "items=0-1", "bytes=abc", "bytes=-500", "bytes=a-5", "bytes=", "bytes=5", "", "bytes=1-2-3",
        "bytes=0-1,", "bytes=0-1,abc", ",bytes=0-1", "Bytes=0-1", "bytes= 0-1",
    ] {
        assert_eq!(resolve(1000, Some(h)), Err(RangeError::Malformed), "{}", h);
    }
}

#[test]
fn huge_numbers() {
    assert!(!satisfiable(resolve(1000, Some("bytes=99999999999999999999999-"))));
    assert_eq!(resolve(1000, Some("bytes=10-99999999999999999999999")), plan(10, 999, 1000, true));
    assert_eq!(
        resolve(u64::MAX, Some("bytes=0-18446744073709551614")),
        plan(0, u64::MAX - 1, u64::MAX, true)
    );
}

#[test]
fn empty_file() {
    assert_eq!(resolve(0, None), plan(0, 0, 0, true));
    assert!(!satisfiable(resolve(0, Some("bytes=0-"))));
}

#[test]
fn range_from_offset() {
    assert_eq!(Ok(resolve_from(1000, 250)), plan(250, 999, 1000, true));
    assert_eq!(Ok(resolve_from(1000, 1000)), plan(0, 0, 1000, false));
}
