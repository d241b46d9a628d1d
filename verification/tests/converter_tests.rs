use prefab_converter::engine::ConversionRequest;
use prefab_converter::engine::MaterializeAction;
use prefab_converter::engine::build_request;
use prefab_converter::engine::find_markers;
use prefab_converter::engine::output_file_path;
use prefab_converter::engine::output_sidecar_path;
use prefab_converter::engine::process_contents;
use prefab_converter::engine::source_sidecar_path;
use prefab_converter::extensions::build_extension_list;
use prefab_converter::extensions::default_extensions;
use prefab_converter::extensions::name_matches_any;
use prefab_converter::paths::file_name;
use prefab_converter::paths::join_path;
use prefab_converter::paths::mirror_dir;
use prefab_converter::paths::parent_dir;
use prefab_converter::record::MetaRecord;
use prefab_converter::reconcile::RemapTable;
use prefab_converter::reconcile::effective_destination;
use prefab_converter::reconcile::reconcile;

fn b(s: &str) -> Vec<u8> {
    s.as_bytes().to_vec()
}

fn rec(id: &str, identity: u64, content: u64, name: &str, dir: &str) -> MetaRecord {
    assert_eq!(id.len(), 32);
    MetaRecord {
        identifier: b(id),
        identity_hash: identity,
        content_hash: content,
        display_name: b(name),
        directory: b(dir),
    }
}

const GUID_A: &str = "AAAAAAAAAAAAAAAAAAAAAAAAAAAAAAAA";
const GUID_B: &str = "BBBBBBBBBBBBBBBBBBBBBBBBBBBBBBBB";
const GUID_C: &str = "CCCCCCCCCCCCCCCCCCCCCCCCCCCCCCCC";
const GUID_D: &str = "DDDDDDDDDDDDDDDDDDDDDDDDDDDDDDDD";

fn run_engine(
    text: &str,
    remap: &RemapTable,
    missing: &mut Vec<MetaRecord>,
    queue: &mut Vec<ConversionRequest>,
) -> (Vec<u8>, Vec<MaterializeAction>) {
    let exts = default_extensions();
    let contents = b(text);
    process_contents(
        &contents,
        remap,
        missing,
        queue,
        &exts,
        &b("/proj/src"),
        &b("/proj/out"),
    )
}

#[test]
fn remapped_reference_rewritten_at_exact_offset() {
    // Reference rewrite correctness: the replacement lands at the same
    // offset, nothing else moves.
    let text = format!("head\nguid: {}\ntail\n", GUID_A);
    let mut remap = RemapTable::new();
    remap.insert(b(GUID_A), rec(GUID_B, 7, 8, "dep.mat", "/proj/src/Dep"));
    let mut missing = Vec::new();
    let mut queue = Vec::new();
    let (out, actions) = run_engine(&text, &remap, &mut missing, &mut queue);
    let expected = format!("head\nguid: {}\ntail\n", GUID_B);
    assert_eq!(out, b(&expected));
    assert_eq!(out.len(), text.len());
    assert!(actions.is_empty());
    assert!(queue.is_empty());
}

#[test]
fn unresolved_reference_left_unchanged() {
    let text = format!("guid: {}", GUID_D);
    let remap = RemapTable::new();
    let mut missing = vec![rec(GUID_B, 1, 2, "dep.prefab", "/proj/src/Dep")];
    let mut queue = Vec::new();
    let (out, actions) = run_engine(&text, &remap, &mut missing, &mut queue);
    assert_eq!(out, b(&text));
    assert!(actions.is_empty());
    assert_eq!(missing.len(), 1);
}

#[test]
fn missing_dependency_copied_enqueued_and_consumed() {
    // Scenario: A refers to B, destination has neither; processing A's text
    // materializes B, enqueues it (it is convertible), keeps the reference
    // text unchanged, and removes B from the missing set.
    let text = format!("x guid: {} y", GUID_B);
    let remap = RemapTable::new();
    let mut missing = vec![rec(GUID_B, 1, 2, "b.prefab", "/proj/src/Sub")];
    let mut queue = Vec::new();
    let (out, actions) = run_engine(&text, &remap, &mut missing, &mut queue);
    assert_eq!(out, b(&text));
    assert_eq!(actions.len(), 1);
    assert_eq!(actions[0].record.identifier, b(GUID_B));
    assert_eq!(actions[0].dst_dir, b("/proj/out/Sub"));
    assert!(missing.is_empty());
    assert_eq!(queue.len(), 1);
    assert_eq!(queue[0].path, b("/proj/src/Sub/b.prefab"));
    assert_eq!(queue[0].output_path, b("/proj/out/Sub"));

    // B's own text holds no references: the next pass changes nothing.
    let req = queue.pop().unwrap();
    let (out_b, actions_b) = run_engine("plain body", &remap, &mut missing, &mut queue);
    assert_eq!(out_b, b("plain body"));
    assert!(actions_b.is_empty());
    assert!(queue.is_empty());
    assert_eq!(output_file_path(&req), b("/proj/out/Sub/b.prefab"));
    assert_eq!(output_sidecar_path(&req), b("/proj/out/Sub/b.prefab.meta"));
    assert_eq!(source_sidecar_path(&req), b("/proj/src/Sub/b.prefab.meta"));
}

#[test]
fn dependency_referenced_twice_copied_once() {
    // At-most-once copy: two references to the same missing identifier
    // yield one materialize action and one worklist enqueue.
    let text = format!("guid: {} and guid: {}", GUID_B, GUID_B);
    let remap = RemapTable::new();
    let mut missing = vec![rec(GUID_B, 1, 2, "b.prefab", "/proj/src/Sub")];
    let mut queue = Vec::new();
    let (out, actions) = run_engine(&text, &remap, &mut missing, &mut queue);
    assert_eq!(out, b(&text));
    assert_eq!(actions.len(), 1);
    assert_eq!(queue.len(), 1);
    assert!(missing.is_empty());
}

#[test]
fn non_convertible_dependency_copied_but_not_enqueued() {
    let text = format!("guid: {}", GUID_B);
    let remap = RemapTable::new();
    let mut missing = vec![rec(GUID_B, 1, 2, "b.png", "/proj/src/Tex")];
    let mut queue = Vec::new();
    let (_, actions) = run_engine(&text, &remap, &mut missing, &mut queue);
    assert_eq!(actions.len(), 1);
    assert!(queue.is_empty());
    assert!(missing.is_empty());
}

#[test]
fn pending_path_not_enqueued_twice() {
    let text = format!("guid: {}", GUID_B);
    let remap = RemapTable::new();
    let mut missing = vec![rec(GUID_B, 1, 2, "b.prefab", "/proj/src/Sub")];
    let mut queue = vec![ConversionRequest {
        path: b("/proj/src/Sub/b.prefab"),
        output_path: b("/proj/out/Sub"),
    }];
    let (_, actions) = run_engine(&text, &remap, &mut missing, &mut queue);
    assert_eq!(actions.len(), 1);
    assert_eq!(queue.len(), 1);
}

#[test]
fn content_match_remaps_and_skips_copy() {
    // Scenario: source C and destination D share a content hash under
    // different identifiers; C is remapped to D, not copied, and references
    // to C's identifier are rewritten to D's.
    let src = vec![rec(GUID_C, 10, 77, "c.prefab", "/proj/src/C")];
    let dst = vec![rec(GUID_D, 20, 77, "d.prefab", "/dst/D")];
    let (remap, missing) = reconcile(&src, &dst);
    assert!(missing.is_empty());
    assert_eq!(remap.entries.len(), 1);
    assert_eq!(remap.entries[0].key, b(GUID_C));
    assert_eq!(remap.entries[0].record.identifier, b(GUID_D));

    let text = format!("ref guid: {} end", GUID_C);
    let mut missing = missing;
    let mut queue = Vec::new();
    let (out, actions) = run_engine(&text, &remap, &mut missing, &mut queue);
    assert_eq!(out, b(&format!("ref guid: {} end", GUID_D)));
    assert!(actions.is_empty());
    assert!(queue.is_empty());
}

#[test]
fn identity_match_never_remapped_nor_missing() {
    // Remap precedence: an identity match found first leaves the record in
    // neither the remap table nor the missing set, even though a later
    // destination record shares its content hash.
    let src = vec![rec(GUID_A, 10, 77, "a.prefab", "/proj/src/A")];
    let dst = vec![
        rec(GUID_A, 10, 77, "a.prefab", "/dst/A"),
        rec(GUID_D, 20, 77, "d.prefab", "/dst/D"),
    ];
    let (remap, missing) = reconcile(&src, &dst);
    assert!(remap.entries.is_empty());
    assert!(missing.is_empty());
}

#[test]
fn first_found_match_wins_in_scan_order() {
    // The scan is first-found: a content match earlier in iteration order
    // wins over an identity match later in it.
    let src = vec![rec(GUID_A, 10, 77, "a.prefab", "/proj/src/A")];
    let dst = vec![
        rec(GUID_D, 20, 77, "d.prefab", "/dst/D"),
        rec(GUID_A, 10, 77, "a.prefab", "/dst/A"),
    ];
    let (remap, missing) = reconcile(&src, &dst);
    assert!(missing.is_empty());
    assert_eq!(remap.entries.len(), 1);
    assert_eq!(remap.entries[0].record.identifier, b(GUID_D));
}

#[test]
fn second_run_over_populated_destination_does_nothing() {
    // Idempotence: once the destination holds every source record by
    // identity, reconciliation finds nothing missing and nothing remapped,
    // and a pass over any text emits no action and rewrites nothing.
    let src = vec![
        rec(GUID_A, 1, 11, "a.prefab", "/proj/src/A"),
        rec(GUID_B, 2, 22, "b.prefab", "/proj/src/B"),
    ];
    let dst = vec![
        rec(GUID_A, 1, 11, "a.prefab", "/dst/A"),
        rec(GUID_B, 2, 22, "b.prefab", "/dst/B"),
    ];
    let (remap, mut missing) = reconcile(&src, &dst);
    assert!(remap.entries.is_empty());
    assert!(missing.is_empty());
    let text = format!("guid: {} guid: {}", GUID_A, GUID_B);
    let mut queue = Vec::new();
    let (out, actions) = run_engine(&text, &remap, &mut missing, &mut queue);
    assert_eq!(out, b(&text));
    assert!(actions.is_empty());
    assert!(queue.is_empty());
}

#[test]
fn cache_records_yield_to_destination_names() {
    let dst = vec![rec(GUID_A, 1, 11, "a.prefab", "/dst/A")];
    let cache = vec![
        rec(GUID_B, 2, 22, "a.prefab", "/cache/A"),
        rec(GUID_C, 3, 33, "c.prefab", "/cache/C"),
    ];
    let eff = effective_destination(&dst, &cache);
    assert_eq!(eff.len(), 2);
    assert_eq!(eff[0].identifier, b(GUID_A));
    assert_eq!(eff[1].identifier, b(GUID_C));
    assert_eq!(eff[1].directory, b("/cache/C"));
}

#[test]
fn default_extension_list_contents() {
    let exts = default_extensions();
    let expected: Vec<Vec<u8>> = vec![
        b(".prefab"),
        b(".mat"),
        b(".asset"),
        b(".unity"),
        b(".controller"),
    ];
    assert_eq!(exts, expected);
}

#[test]
fn extension_file_lines_filtered() {
    let lines = vec![
        b("# comment"),
        b(""),
        b(".fbx"),
        b(".mat"),
        b(".fbx"),
        b(".anim"),
    ];
    let exts = build_extension_list(&lines);
    let expected: Vec<Vec<u8>> = vec![
        b(".prefab"),
        b(".mat"),
        b(".asset"),
        b(".unity"),
        b(".controller"),
        b(".fbx"),
        b(".anim"),
    ];
    assert_eq!(exts, expected);
}

#[test]
fn name_matches_configured_extension() {
    let exts = default_extensions();
    assert!(name_matches_any(&exts, &b("thing.prefab")));
    assert!(name_matches_any(&exts, &b("scene.unity")));
    assert!(!name_matches_any(&exts, &b("texture.png")));
    assert!(!name_matches_any(&exts, &b("prefab")));
}

#[test]
fn markers_found_in_order_and_truncated_tail_ignored() {
    let text = format!("guid: {}--guid: {}guid: short", GUID_A, GUID_B);
    let positions = find_markers(&b(&text));
    assert_eq!(positions, vec![0, 40]);

    // A reference that fits exactly at the end is found.
    let tail = format!("x guid: {}", GUID_C);
    assert_eq!(find_markers(&b(&tail)), vec![2]);

    // No room for a full identifier: no reference.
    assert_eq!(find_markers(&b("guid: tooshort")), Vec::<usize>::new());
}

#[test]
fn dependency_directory_mirrored_exactly() {
    // Directory mirroring: <src_root>/Sub/Dir lands at <export_root>/Sub/Dir.
    let dir = b("/proj/src/Sub/Dir");
    let out = mirror_dir(&dir, &b("/proj/src"), &b("/proj/out"));
    assert_eq!(out, b("/proj/out/Sub/Dir"));
    // The source root itself mirrors to the export root.
    let at_root = mirror_dir(&b("/proj/src"), &b("/proj/src"), &b("/proj/out"));
    assert_eq!(at_root, b("/proj/out"));
}

#[test]
fn package_cache_located_beside_destination() {
    let cache = prefab_converter::engine::package_cache_dir(&b("/proj/Assets"));
    assert_eq!(cache, b("/proj/Library/PackageCache"));
}

#[test]
fn path_helpers_split_and_join() {
    assert_eq!(join_path(&b("a/b"), &b("c")), b("a/b/c"));
    assert_eq!(join_path(&b("a/b/"), &b("c")), b("a/b/c"));
    assert_eq!(join_path(&b(""), &b("c")), b("c"));
    assert_eq!(join_path(&b("a"), &b("/abs")), b("/abs"));
    assert_eq!(file_name(&b("a/b/c.prefab")), b("c.prefab"));
    assert_eq!(file_name(&b("plain")), b("plain"));
    assert_eq!(parent_dir(&b("a/b/c.prefab")), b("a/b"));
    assert_eq!(parent_dir(&b("plain")), b(""));
}

#[test]
fn request_built_from_path_under_source_root() {
    let req = build_request(&b("/proj/src/Items/thing.prefab"), &b("/proj/src"), &b("./ConversionOutput"));
    assert_eq!(req.path, b("/proj/src/Items/thing.prefab"));
    assert_eq!(req.output_path, b("./ConversionOutput/Items"));
}

#[test]
fn request_built_from_relative_path_anchored_under_root() {
    let req = build_request(&b("Items/thing.prefab"), &b("/proj/src"), &b("./ConversionOutput"));
    assert_eq!(req.path, b("/proj/src/Items/thing.prefab"));
    assert_eq!(req.output_path, b("./ConversionOutput/Items"));
}

#[test]
fn record_paths_derived_from_directory_and_name() {
    let r = rec(GUID_A, 1, 2, "a.prefab", "/proj/src/A");
    assert_eq!(r.primary_path(), b("/proj/src/A/a.prefab"));
    assert_eq!(r.sidecar_path(), b("/proj/src/A/a.prefab.meta"));
    assert_eq!(r.primary_path_in(&b("/proj/out/A")), b("/proj/out/A/a.prefab"));
    assert_eq!(r.sidecar_path_in(&b("/proj/out/A")), b("/proj/out/A/a.prefab.meta"));
}

#[test]
fn reconcile_of_empty_collections_finds_nothing() {
    let (remap, missing) = reconcile(&Vec::new(), &Vec::new());
    assert!(remap.entries.is_empty());
    assert!(missing.is_empty());
    assert_eq!(find_markers(&Vec::new()), Vec::<usize>::new());
}

#[test]
fn end_to_end_reconcile_and_convert() {
    // Scenario: A refers to B; the destination holds neither.  Requesting A
    // copies and enqueues B, processes it, leaves A's reference unchanged,
    // and writes both under the export root.
    let src = vec![
        rec(GUID_A, 1, 11, "a.prefab", "/proj/src/A"),
        rec(GUID_B, 2, 22, "b.prefab", "/proj/src/B"),
    ];
    let (remap, mut missing) = reconcile(&src, &Vec::new());
    assert!(remap.entries.is_empty());
    assert_eq!(missing.len(), 2);

    let texts: Vec<(Vec<u8>, String)> = vec![
        (b("/proj/src/A/a.prefab"), format!("guid: {}", GUID_B)),
        (b("/proj/src/B/b.prefab"), "leaf".to_string()),
    ];
    let exts = default_extensions();
    let mut queue = vec![build_request(
        &b("/proj/src/A/a.prefab"),
        &b("/proj/src"),
        &b("/proj/out"),
    )];
    let mut writes: Vec<Vec<u8>> = Vec::new();
    let mut copied: Vec<Vec<u8>> = Vec::new();
    while let Some(req) = queue.pop() {
        let text = texts
            .iter()
            .find(|(p, _)| *p == req.path)
            .map(|(_, t)| t.clone())
            .unwrap();
        let contents = text.as_bytes().to_vec();
        let (out, actions) = process_contents(
            &contents,
            &remap,
            &mut missing,
            &mut queue,
            &exts,
            &b("/proj/src"),
            &b("/proj/out"),
        );
        assert_eq!(out, contents);
        for a in &actions {
            copied.push(a.record.identifier.clone());
        }
        writes.push(output_file_path(&req));
    }
    assert_eq!(copied, vec![b(GUID_B)]);
    assert_eq!(writes, vec![b("/proj/out/A/a.prefab"), b("/proj/out/B/b.prefab")]);
    // A itself was requested, not referenced: it stays in the missing set.
    assert_eq!(missing.len(), 1);
    assert_eq!(missing[0].identifier, b(GUID_A));
}

#[test]
fn depth_first_worklist_drains_to_empty() {
    // A small in-memory run of the whole loop: A references B and C; B
    // references C as well.  Every dependency is copied exactly once and
    // the worklist drains.
    let texts: Vec<(Vec<u8>, String)> = vec![
        (
            b("/proj/src/A/a.prefab"),
            format!("guid: {}\nguid: {}\n", GUID_B, GUID_C),
        ),
        (b("/proj/src/B/b.prefab"), format!("see guid: {}", GUID_C)),
        (b("/proj/src/C/c.prefab"), "leaf".to_string()),
    ];
    let remap = RemapTable::new();
    let mut missing = vec![
        rec(GUID_B, 2, 22, "b.prefab", "/proj/src/B"),
        rec(GUID_C, 3, 33, "c.prefab", "/proj/src/C"),
    ];
    let mut queue = vec![build_request(
        &b("/proj/src/A/a.prefab"),
        &b("/proj/src"),
        &b("/proj/out"),
    )];
    let exts = default_extensions();
    let mut all_actions: Vec<MaterializeAction> = Vec::new();
    let mut writes: Vec<Vec<u8>> = Vec::new();
    let mut steps: usize = 0;
    while let Some(req) = queue.pop() {
        steps += 1;
        assert!(steps < 100);
        let text = texts
            .iter()
            .find(|(p, _)| *p == req.path)
            .map(|(_, t)| t.clone())
            .unwrap();
        let contents = text.as_bytes().to_vec();
        let (out, mut actions) = process_contents(
            &contents,
            &remap,
            &mut missing,
            &mut queue,
            &exts,
            &b("/proj/src"),
            &b("/proj/out"),
        );
        assert_eq!(out, contents);
        all_actions.append(&mut actions);
        writes.push(output_file_path(&req));
    }
    assert_eq!(all_actions.len(), 2);
    assert!(missing.is_empty());
    let copied: Vec<&Vec<u8>> = all_actions.iter().map(|a| &a.record.identifier).collect();
    assert!(copied.contains(&&b(GUID_B)));
    assert!(copied.contains(&&b(GUID_C)));
    assert!(writes.contains(&b("/proj/out/A/a.prefab")));
    assert!(writes.contains(&b("/proj/out/B/b.prefab")));
    assert!(writes.contains(&b("/proj/out/C/c.prefab")));
}
