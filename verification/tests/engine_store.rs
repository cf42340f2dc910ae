use queenui::engine_store::random_hex;
use queenui::engine_store::{check_admin_mode, check_allowlist, check_opening_book_asset};
use queenui::engine_store::{check_trusted_entry, modified_at_ms};
use queenui::engine_store::split_components;
use queenui::engine_store::{
    available_disk_bytes, browse_page_size, check_entry_name, check_free_space,
    check_registered_engine, check_root_ids, check_store_quota, child_relative_path, gc_removes,
    is_store_digest, is_store_temporary, parse_relative_path, store_usage, validate_root_id,
    AvailabilityLimits, BrowseRate, CursorTable, EntryStep, PageBuilder, MAX_BROWSES_PER_WINDOW,
};

const DIGEST: &str = "0123456789abcdef0123456789abcdef0123456789abcdef0123456789abcdef";

#[test]
fn scoped_browser_rejects_parent_absolute_empty_and_overdeep_paths() {
    let invalid = "The engine-browser relative path is invalid";
    for path in ["../outside", "/etc/passwd", "a/../b", "a//b", "a/./b", "a\\b", "a\0b", "a/"] {
        assert_eq!(parse_relative_path(path, true).unwrap_err(), invalid, "{path:?}");
    }
    assert_eq!(
        parse_relative_path("", false).unwrap_err(),
        "Select an engine file below the configured root"
    );
    assert!(parse_relative_path("", true).unwrap().is_empty());
    let deep = vec!["d"; 17].join("/");
    assert_eq!(parse_relative_path(&deep, true).unwrap_err(), invalid);
    let deepest = vec!["d"; 16].join("/");
    assert_eq!(parse_relative_path(&deepest, true).unwrap().len(), 16);
    assert_eq!(
        parse_relative_path("engines/stockfish/sf16", false).unwrap(),
        vec!["engines".to_string(), "stockfish".to_string(), "sf16".to_string()]
    );
    let long_component = "x".repeat(256);
    assert_eq!(parse_relative_path(&long_component, true).unwrap_err(), invalid);
    assert!(parse_relative_path(&"x".repeat(255), true).is_ok());
    // 128 three-byte characters are 384 bytes.
    assert_eq!(parse_relative_path(&"€".repeat(128), true).unwrap_err(), invalid);
}

#[test]
fn pagination_cursors_are_opaque_single_use_and_bound_to_root_and_directory() {
    let mut cursors = CursorTable::new();
    let token = cursors.mint("root", "engines", 100, 1_000).unwrap();
    assert_eq!(token.len(), 32);
    assert!(token.chars().all(|c| c.is_ascii_alphanumeric() || c == '-' || c == '_'));

    let other = cursors.mint("root", "engines", 200, 1_000).unwrap();
    assert_eq!(
        cursors.resolve("root", "other-dir", Some(&other), 1_001).unwrap_err(),
        "The engine-browser cursor is invalid or expired"
    );
    // The refused cursor was consumed as well.
    assert!(cursors.resolve("root", "engines", Some(&other), 1_001).is_err());

    let (root, path, offset) = cursors.resolve("root", "engines", Some(&token), 1_001).unwrap();
    assert_eq!((root.as_str(), path.as_str(), offset), ("root", "engines", 100));
    assert!(cursors.resolve("root", "engines", Some(&token), 1_002).is_err());

    let expiring = cursors.mint("root", "engines", 5, 1_000).unwrap();
    assert!(cursors.resolve("root", "engines", Some(&expiring), 61_000).is_err());

    let (_, _, start) = cursors.resolve("root", "engines", None, 0).unwrap();
    assert_eq!(start, 0);
}

#[test]
fn cursor_quota_is_bounded() {
    let mut cursors = CursorTable::new();
    for _ in 0..128 {
        cursors.mint("root", "", 1, 0).unwrap();
    }
    assert_eq!(
        cursors.mint("root", "", 1, 0).unwrap_err(),
        "The engine-browser cursor quota is full"
    );
    // Once they expire, new cursors can be minted again.
    assert!(cursors.mint("root", "", 1, 60_000).is_ok());
}

#[test]
fn page_builder_skips_collects_and_reports_more() {
    let mut page = PageBuilder::new(1, 2);
    assert_eq!(page.next_entry().unwrap(), EntryStep::Skip);
    assert_eq!(page.next_entry().unwrap(), EntryStep::Collect);
    assert!(page.accept(100));
    assert_eq!(page.next_entry().unwrap(), EntryStep::Collect);
    assert!(page.accept(100));
    assert_eq!(page.next_entry().unwrap(), EntryStep::Full);
    assert_eq!(page.next_offset(), Some(3));

    let mut small = PageBuilder::new(0, 10);
    assert_eq!(small.next_entry().unwrap(), EntryStep::Collect);
    assert!(!small.accept(262_145));
    assert_eq!(small.next_offset(), Some(0));

    let mut done = PageBuilder::new(0, 10);
    assert_eq!(done.next_entry().unwrap(), EntryStep::Collect);
    assert!(done.accept(10));
    assert_eq!(done.next_offset(), None);

    let mut huge = PageBuilder::new(usize::MAX, 1);
    for _ in 0..4096 {
        assert_eq!(huge.next_entry().unwrap(), EntryStep::Skip);
    }
    assert_eq!(
        huge.next_entry().unwrap_err(),
        "The engine-browser directory exceeds the bounded work limit"
    );
}

#[test]
fn browse_rate_allows_a_bounded_number_per_minute() {
    let mut rate = BrowseRate::new();
    for i in 0..MAX_BROWSES_PER_WINDOW {
        rate.admit_browse(i as u64).unwrap();
    }
    assert_eq!(rate.admit_browse(1_000).unwrap_err(), "The engine-browser rate limit was reached");
    assert!(rate.admit_browse(60_000).is_ok());
}

#[test]
fn page_size_defaults_and_is_bounded() {
    assert_eq!(browse_page_size(None).unwrap(), 100);
    assert_eq!(browse_page_size(Some(200)).unwrap(), 200);
    assert!(browse_page_size(Some(0)).is_err());
    assert!(browse_page_size(Some(201)).is_err());
}

#[test]
fn startup_rejects_legacy_arbitrary_engine_paths_outside_the_managed_store() {
    assert!(check_registered_engine(true, Some(DIGEST)).is_ok());
    assert_eq!(
        check_registered_engine(false, Some(DIGEST)).unwrap_err(),
        "A registered runner engine predates trusted-engine storage; remove it from config and re-register through a configured root"
    );
    assert!(check_registered_engine(true, Some(&DIGEST.to_uppercase())).is_err());
    assert!(check_registered_engine(true, Some("stockfish")).is_err());
    assert_eq!(
        check_registered_engine(true, None).unwrap_err(),
        "A registered runner engine is not a managed content identity"
    );
}

#[test]
fn startup_gc_removes_crash_temporaries_and_unreferenced_content_but_keeps_live_content() {
    let live = DIGEST.to_string();
    let dead = "f".repeat(64);
    let referenced = vec![live.clone()];
    assert!(is_store_digest(&live));
    assert!(is_store_temporary(".0123456789abcdef0123456789abcdef.tmp"));
    assert!(!is_store_temporary(".0123456789abcdef0123456789abcde.tmp"));
    assert!(gc_removes(".0123456789abcdef0123456789abcdef.tmp", &referenced));
    assert!(gc_removes(&dead, &referenced));
    assert!(!gc_removes(&live, &referenced));
    assert!(!gc_removes("README", &referenced));
}

#[test]
fn engine_store_quota_rejects_a_copy_before_any_temporary_bytes_are_written() {
    assert!(check_store_quota(10, 90, 100).is_ok());
    assert_eq!(
        check_store_quota(11, 90, 100).unwrap_err(),
        "The engine-store temporary and installed byte quota would be exceeded"
    );
    assert!(check_store_quota(1, 200, 100).is_err());
    assert!(check_free_space(300, 100, 200).is_ok());
    assert_eq!(
        check_free_space(299, 100, 200).unwrap_err(),
        "The engine store does not have the configured free-space reserve"
    );
    assert!(check_free_space(u64::MAX, u64::MAX, 1).is_ok());
    assert_eq!(available_disk_bytes(10, 4096), 40_960);
    assert_eq!(available_disk_bytes(u64::MAX, 2), u64::MAX);
    assert_eq!(store_usage(&vec![Some(10), None, Some(5)]).unwrap(), 15);
    assert_eq!(store_usage(&vec![Some(u64::MAX), Some(5)]).unwrap(), u64::MAX);
    assert_eq!(
        store_usage(&vec![None; 4097]).unwrap_err(),
        "The engine store exceeds its bounded entry quota"
    );
}

#[test]
fn root_ids_and_entry_names_are_validated() {
    assert!(validate_root_id("engines_1-a").is_ok());
    assert!(validate_root_id("").is_err());
    assert!(validate_root_id(&"a".repeat(65)).is_err());
    assert!(validate_root_id("bad id").is_err());
    assert!(check_root_ids(&vec!["a".into(), "b".into()]).is_ok());
    assert!(check_root_ids(&vec!["a".into(), "a".into()]).is_err());
    assert!(check_entry_name(&"x".repeat(255)).is_ok());
    assert_eq!(
        check_entry_name(&"é".repeat(128)).unwrap_err(),
        "The engine-browser found an overlong entry name"
    );
    assert_eq!(child_relative_path(&vec![], "sf"), "sf");
    assert_eq!(child_relative_path(&vec!["a".into(), "b".into()], "sf"), "a/b/sf");
}

#[test]
fn availability_defaults_are_within_bounds() {
    let limits = AvailabilityLimits::default(8);
    assert_eq!(limits.simultaneous_engines, 8);
    assert!(limits.validate().is_ok());
    assert_eq!(AvailabilityLimits::default(64).simultaneous_engines, 16);
    let mut broken = AvailabilityLimits::default(4);
    broken.total_engine_output_bytes_per_second = 1024;
    assert_eq!(
        broken.validate().unwrap_err(),
        "runner-config.json contains an availability limit outside the safe server bounds"
    );
}

#[test]
fn temporary_names_are_32_lowercase_hex_digits() {
    let a = random_hex().unwrap();
    let b = random_hex().unwrap();
    assert_eq!(a.len(), 32);
    assert!(a.chars().all(|c| c.is_ascii_digit() || ('a'..='f').contains(&c)));
    assert_ne!(a, b);
}

#[test]
fn scoped_browser_rejects_a_world_writable_traversed_directory_and_leaf() {
    assert!(check_trusted_entry(Some(7), 7, 0, 1000, 0o40755).is_ok());
    assert!(check_trusted_entry(None, 9, 1000, 1000, 0o100700).is_ok());
    let untrusted = "An engine-browser entry is not owned and protected by the runner administrator";
    assert_eq!(check_trusted_entry(Some(7), 7, 0, 1000, 0o40777).unwrap_err(), untrusted);
    assert_eq!(check_trusted_entry(Some(7), 7, 0, 1000, 0o100620).unwrap_err(), untrusted);
    assert_eq!(check_trusted_entry(Some(7), 7, 1001, 1000, 0o100755).unwrap_err(), untrusted);
    assert_eq!(
        check_trusted_entry(Some(7), 8, 0, 1000, 0o40755).unwrap_err(),
        "The engine-browser does not cross mounted filesystems"
    );
    assert_eq!(modified_at_ms(-1), None);
    assert_eq!(modified_at_ms(2), Some(2_000));
    assert_eq!(modified_at_ms(i64::MAX), Some(u64::MAX));
}

#[test]
fn paths_split_at_every_slash() {
    let chars: Vec<char> = "/a//b/".chars().collect();
    assert_eq!(split_components(&chars), vec!["", "a", "", "b", ""]);
    assert_eq!(split_components(&Vec::new()), vec![""]);
}

#[test]
fn a_given_token_is_minted_once_and_resolved_once() {
    let mut cursors = CursorTable::new();
    assert_eq!(cursors.mint_with_token("tok".into(), "root", "dir", 7, 0).unwrap(), "tok");
    let (_, _, offset) = cursors.resolve("root", "dir", Some("tok"), 59_999).unwrap();
    assert_eq!(offset, 7);
    assert!(cursors.resolve("root", "dir", Some("tok"), 59_999).is_err());
    for i in 0..128 {
        cursors.mint_with_token(format!("t{i}"), "root", "dir", 1, 0).unwrap();
    }
    assert_eq!(
        cursors.mint_with_token("one-more".into(), "root", "dir", 1, 0).unwrap_err(),
        "The engine-browser cursor quota is full"
    );
}

#[test]
fn remote_opening_books_must_be_allowlisted_assets() {
    let allowlist = vec!["/srv/books/approved.bin".to_string()];
    assert_eq!(
        check_opening_book_asset("books/approved.bin", Some("/srv/books/approved.bin".into()), &allowlist)
            .unwrap_err(),
        "Remote opening books require an administrator-allowlisted asset"
    );
    assert_eq!(
        check_opening_book_asset("/srv/books/missing.bin", None, &allowlist).unwrap_err(),
        "The selected administrator asset is unavailable"
    );
    assert_eq!(
        check_opening_book_asset("/srv/books/other.bin", Some("/srv/books/other.bin".into()), &allowlist)
            .unwrap_err(),
        "Remote opening books require an administrator-allowlisted asset"
    );
    assert_eq!(
        check_opening_book_asset("/srv/books/./approved.bin", Some("/srv/books/approved.bin".into()), &allowlist)
            .unwrap(),
        "/srv/books/approved.bin"
    );
}

#[test]
fn runner_configuration_refuses_secure_install_and_bad_allowlists() {
    assert!(check_admin_mode(false).is_ok());
    assert_eq!(
        check_admin_mode(true).unwrap_err(),
        "engine_admin=secure-install is reserved until the containment preflight is implemented"
    );
    let entries = vec!["/srv/a.bin".to_string(), "/srv/link.bin".to_string()];
    let canonical = vec![Some("/srv/a.bin".to_string()), Some("/srv/b.bin".to_string())];
    assert_eq!(
        check_allowlist(&entries, &canonical).unwrap(),
        vec!["/srv/a.bin".to_string(), "/srv/b.bin".to_string()]
    );
    let relative = vec!["/srv/a.bin".to_string(), "b.bin".to_string()];
    assert_eq!(
        check_allowlist(&relative, &vec![Some("/srv/a.bin".to_string()), Some("/x/b.bin".to_string())])
            .unwrap_err(),
        "opening_book_allowlist entries must be absolute"
    );
    assert_eq!(
        check_allowlist(&entries, &vec![None, None]).unwrap_err(),
        "An opening_book_allowlist entry is unavailable"
    );
}

#[test]
fn the_first_bad_root_id_decides_the_refusal() {
    assert_eq!(
        check_root_ids(&vec!["a".to_string(), "a".to_string(), "bad id".to_string()]).unwrap_err(),
        "runner-config.json contains a duplicate engine root id"
    );
    assert_eq!(
        check_root_ids(&vec!["bad id".to_string(), "a".to_string(), "a".to_string()]).unwrap_err(),
        "Engine root ids must use 1-64 ASCII letters, digits, '-' or '_'"
    );
}
