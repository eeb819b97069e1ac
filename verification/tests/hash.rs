use slideforge::cli::{build_step, refusal_exit_code, BuildStep, Refusal};
use slideforge::hash::{
    classify_output, hex, is_hash_text, parse_single, path_less, sha256_hex, source_in_sync,
    token_lines, OutputGuard, Records, SyncPoint,
};

const A: &str = "/work/a.pptx";
const B: &str = "/work/b.pptx";

#[test]
fn records_roundtrip_and_guard() {
    // Nothing recorded yet → uncovered.
    let records = Records::load(None, Vec::new());
    assert!(records.get(A).is_none());
    assert_eq!(
        classify_output(&records, A, b"hello"),
        OutputGuard::Uncovered
    );

    // Record a, save, reload → InSync.
    let h = sha256_hex(b"hello");
    assert_eq!(h.len(), 64);
    let mut records = Records::load(None, Vec::new());
    records.set(A, &h);
    let saved = records.to_text();
    let records = Records::load(Some(&saved), Vec::new());
    assert_eq!(classify_output(&records, A, b"hello"), OutputGuard::InSync);

    // Content changed → Stale (hash computed live vs recorded).
    assert_eq!(classify_output(&records, A, b"world"), OutputGuard::Stale);

    // Same content but a different file → still uncovered: records are
    // per file, not per content.
    assert_eq!(classify_output(&records, B, b"world"), OutputGuard::Uncovered);

    // Multiple outputs coexist in one map.
    let mut records = Records::load(Some(&saved), Vec::new());
    records.set(B, &sha256_hex(b"world"));
    let saved = records.to_text();
    let records = Records::load(Some(&saved), Vec::new());
    assert_eq!(classify_output(&records, A, b"world"), OutputGuard::Stale);
    assert_eq!(classify_output(&records, B, b"world"), OutputGuard::InSync);
}

#[test]
fn legacy_sidecars_are_absorbed_and_removed() {
    let h = sha256_hex(b"hello");

    // Legacy `.src.hash` / `.build.hash` with a path line feed the map on load.
    let legacy_text = format!("{h}\n{A}\n");
    let src = parse_single(&legacy_text).expect("legacy record parses");
    let build = parse_single(&legacy_text).expect("legacy record parses");
    let records = Records::load(None, vec![src, build]);
    assert!(records.has_legacy());
    assert_eq!(records.get(A), Some(&h));
    assert_eq!(classify_output(&records, A, b"hello"), OutputGuard::InSync);
    // Saving writes the current format only; a reload carries no legacy flag.
    let saved = records.to_text();
    let reloaded = Records::load(Some(&saved), Vec::new());
    assert!(!reloaded.has_legacy());
    assert_eq!(reloaded.get(A), Some(&h));

    // Legacy path-less `.src.hash` exposes its hash for re-binding.
    let pathless = parse_single(&format!("{h}\n")).expect("legacy record parses");
    assert_eq!(pathless.path, None);
    let records = Records::load(None, vec![pathless]);
    assert_eq!(records.legacy_hash(), Some(&h));
    assert!(records.get(A).is_none());
}

#[test]
fn sha256_of_known_input() {
    assert_eq!(
        sha256_hex(b"hello"),
        "2cf24dba5fb0a30e26e83b2ac5b9e29e1b161e5c1fa7425e73043362938b9824"
    );
    assert_eq!(
        sha256_hex(b""),
        "e3b0c44298fc1c149afbf4c8996fb92427ae41e4649b934ca495991b7852b855"
    );
}

#[test]
fn hex_is_lowercase_two_digits_per_byte() {
    assert_eq!(hex(&[0x00, 0x0f, 0xa0, 0xff]), "000fa0ff");
    assert_eq!(hex(&[]), "");
}

#[test]
fn hash_text_shape() {
    let h = sha256_hex(b"x");
    assert!(is_hash_text(&h));
    assert!(!is_hash_text(&h.to_uppercase()));
    assert!(!is_hash_text(&h[1..]));
    assert!(!is_hash_text(&format!("{}g", &h[1..])));
}

#[test]
fn lines_are_trimmed_and_blank_lines_dropped() {
    let lines = token_lines("  a \r\n\n\t b\n   \nc");
    assert_eq!(lines, vec!["a".to_string(), "b".to_string(), "c".to_string()]);
    assert!(token_lines("").is_empty());
    assert!(token_lines("\n \n").is_empty());
}

#[test]
fn parsing_stops_at_the_first_malformed_pair() {
    let h1 = sha256_hex(b"1");
    let h2 = sha256_hex(b"2");
    let text = format!("{h1}\n/x/one.pptx\nnot-a-hash\n/x/two.pptx\n{h2}\n/x/three.pptx\n");
    let records = Records::load(Some(&text), Vec::new());
    assert_eq!(records.get("/x/one.pptx"), Some(&h1));
    assert!(records.get("/x/two.pptx").is_none());
    assert!(records.get("/x/three.pptx").is_none());

    // A trailing hash without its path is dropped.
    let text = format!("{h1}\n/x/one.pptx\n{h2}\n");
    let records = Records::load(Some(&text), Vec::new());
    assert_eq!(records.get("/x/one.pptx"), Some(&h1));
    assert_eq!(records.to_text(), format!("{h1}\n/x/one.pptx\n"));
}

#[test]
fn later_pairs_override_earlier_ones() {
    let h1 = sha256_hex(b"1");
    let h2 = sha256_hex(b"2");
    let text = format!("{h1}\n/x/a\n{h2}\n/x/a\n");
    let records = Records::load(Some(&text), Vec::new());
    assert_eq!(records.get("/x/a"), Some(&h2));
}

#[test]
fn saved_text_lists_paths_in_path_order() {
    let h = sha256_hex(b"1");
    let mut records = Records::load(None, Vec::new());
    records.set("/x/b-c", &h);
    records.set("/x/b/c", &h);
    records.set("/x/a", &h);
    assert_eq!(
        records.to_text(),
        format!("{h}\n/x/a\n{h}\n/x/b/c\n{h}\n/x/b-c\n")
    );
    assert!(path_less("/x/b/c", "/x/b-c"));
    assert!(!path_less("/x/b-c", "/x/b/c"));
    assert!(path_less("/x/b", "/x/b/c"));
    assert!(!path_less("/x/a", "/x/a"));
}

#[test]
fn set_then_get_gives_the_new_hash() {
    let h1 = sha256_hex(b"1");
    let h2 = sha256_hex(b"2");
    let mut records = Records::load(None, Vec::new());
    records.set("/x/a", &h1);
    records.set("/x/a", &h2);
    assert_eq!(records.get("/x/a"), Some(&h2));
    assert_eq!(records.to_text(), format!("{h2}\n/x/a\n"));
}

#[test]
fn current_records_win_over_legacy_ones() {
    let h1 = sha256_hex(b"1");
    let h2 = sha256_hex(b"2");
    let sync = format!("{h1}\n/x/a\n");
    let legacy = SyncPoint {
        hash: h2.clone(),
        path: Some("/x/a".to_string()),
    };
    let other = SyncPoint {
        hash: h2.clone(),
        path: Some("/x/b".to_string()),
    };
    let records = Records::load(Some(&sync), vec![legacy, other]);
    assert_eq!(records.get("/x/a"), Some(&h1));
    assert_eq!(records.get("/x/b"), Some(&h2));
    assert!(records.has_legacy());
    assert!(records.legacy_hash().is_none());
}

#[test]
fn first_pathless_legacy_hash_is_kept() {
    let h1 = sha256_hex(b"1");
    let h2 = sha256_hex(b"2");
    let a = SyncPoint {
        hash: h1.clone(),
        path: None,
    };
    let b = SyncPoint {
        hash: h2.clone(),
        path: None,
    };
    let records = Records::load(None, vec![a, b]);
    assert_eq!(records.legacy_hash(), Some(&h1));
}

#[test]
fn legacy_records_need_a_hash_first() {
    assert!(parse_single("").is_none());
    assert!(parse_single("not a hash\n/x/a\n").is_none());
    let h = sha256_hex(b"1");
    let sp = parse_single(&format!("\n  {h}  \r\n  /x/a  \n")).expect("parses");
    assert_eq!(sp.hash, h);
    assert_eq!(sp.path.as_deref(), Some("/x/a"));
}

#[test]
fn unchanged_source_is_skipped_and_changed_source_is_not() {
    let h = sha256_hex(b"deck v1");
    let other = sha256_hex(b"deck v2");
    let mut records = Records::load(None, Vec::new());
    assert!(!source_in_sync(&records, A, &h));
    records.set(A, &h);
    assert!(source_in_sync(&records, A, &h));
    assert!(!source_in_sync(&records, A, &other));
    // Another source is not vouched for by A's record.
    assert!(!source_in_sync(&records, B, &h));
}

#[test]
fn pathless_legacy_hash_vouches_for_unrecorded_sources_only() {
    let h = sha256_hex(b"deck v1");
    let other = sha256_hex(b"deck v2");
    let legacy = SyncPoint {
        hash: h.clone(),
        path: None,
    };
    let mut records = Records::load(None, vec![legacy]);
    assert!(source_in_sync(&records, A, &h));
    assert!(!source_in_sync(&records, A, &other));
    // Once A has its own record, that record decides.
    records.set(A, &other);
    assert!(source_in_sync(&records, A, &other));
    assert!(!source_in_sync(&records, A, &h));
}

#[test]
fn recording_one_output_leaves_the_others_alone() {
    let mut records = Records::load(None, Vec::new());
    records.set(A, &sha256_hex(b"a"));
    assert_eq!(classify_output(&records, B, b"b"), OutputGuard::Uncovered);
    records.set(B, &sha256_hex(b"b"));
    assert_eq!(classify_output(&records, A, b"a"), OutputGuard::InSync);
    assert_eq!(classify_output(&records, A, b"changed"), OutputGuard::Stale);
    assert_eq!(classify_output(&records, B, b"b"), OutputGuard::InSync);
}

#[test]
fn build_refuses_issues_and_unvouched_outputs() {
    assert_eq!(build_step(0, None), BuildStep::Write);
    assert_eq!(build_step(0, Some(OutputGuard::InSync)), BuildStep::Write);
    assert_eq!(build_step(0, Some(OutputGuard::Stale)), BuildStep::Refuse(Refusal::Stale));
    assert_eq!(build_step(0, Some(OutputGuard::Uncovered)), BuildStep::Refuse(Refusal::Uncovered));
    assert_eq!(build_step(3, Some(OutputGuard::InSync)), BuildStep::Refuse(Refusal::Issues));
    assert_eq!(build_step(1, None), BuildStep::Refuse(Refusal::Issues));
    for r in [Refusal::Issues, Refusal::Stale, Refusal::Uncovered] {
        assert_eq!(refusal_exit_code(r), 2);
    }
}
