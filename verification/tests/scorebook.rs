use queenui::scorebook::{capped_log_total_mb, import_limit, tally_import};

#[test]
fn imports_ask_for_a_bounded_number_of_games() {
    assert_eq!(import_limit(None), 1000);
    assert_eq!(import_limit(Some(0)), 1);
    assert_eq!(import_limit(Some(1)), 1);
    assert_eq!(import_limit(Some(3000)), 3000);
    assert_eq!(import_limit(Some(5000)), 3000);
}

#[test]
fn an_import_counts_added_and_skipped_games() {
    let report = tally_import(&vec![Some(true), None, Some(false), Some(true)]);
    assert_eq!(report.imported, 2);
    assert_eq!(report.skipped, 2);
    assert_eq!(report.scanned, 4);
    let empty = tally_import(&vec![]);
    assert_eq!((empty.imported, empty.skipped, empty.scanned), (0, 0, 0));
}

#[test]
fn the_flight_recorder_cap_fits_the_runner_ceiling() {
    let mib = 1024 * 1024;
    assert_eq!(capped_log_total_mb(100, 512 * mib), None);
    assert_eq!(capped_log_total_mb(512, 512 * mib), None);
    assert_eq!(capped_log_total_mb(1024, 512 * mib), Some(512));
    assert_eq!(capped_log_total_mb(0, 512 * mib), Some(512));
    assert_eq!(capped_log_total_mb(0, 1000), Some(1));
    assert_eq!(capped_log_total_mb(3, 5 * mib + 7), None);
}
