use asset_reconciler::classify::AssetType;
use asset_reconciler::events::AssetDefinition;
use asset_reconciler::events::AssetFile;
use asset_reconciler::events::AssetFsEvent;
use asset_reconciler::reconcile::perform_asset_reconciliation;

fn known(id: u128, path: &str, hash: &str) -> AssetDefinition {
    AssetDefinition { id, path: String::from(path), hash: String::from(hash) }
}

fn scanned(path: &str, hash: &str) -> AssetFile {
    AssetFile { path: String::from(path), hash: String::from(hash) }
}

#[test]
fn stable_state_yields_no_events() {
    let k = vec![known(1, "a.png", "H1"), known(2, "dir/m.obj", "H2")];
    let s = vec![scanned("a.png", "H1"), scanned("dir/m.obj", "H2")];
    let events = perform_asset_reconciliation(&k, &s);
    assert!(events.is_empty());
}

#[test]
fn changed_hash_yields_single_modify() {
    let k = vec![known(7, "a.png", "H1"), known(8, "b.wav", "H2")];
    let s = vec![scanned("a.png", "H9"), scanned("b.wav", "H2")];
    let events = perform_asset_reconciliation(&k, &s);
    assert_eq!(
        events,
        vec![AssetFsEvent::Modify { asset_id: 7, new_hash: String::from("H9") }]
    );
}

#[test]
fn moved_file_yields_single_rename() {
    let k = vec![known(1, "a.png", "H1")];
    let s = vec![scanned("b.png", "H1")];
    let events = perform_asset_reconciliation(&k, &s);
    assert_eq!(
        events,
        vec![AssetFsEvent::Rename { asset_id: 1, new_path: String::from("b.png") }]
    );
}

#[test]
fn vanished_file_yields_single_delete() {
    let k = vec![known(2, "m.obj", "H2")];
    let s = vec![];
    let events = perform_asset_reconciliation(&k, &s);
    assert_eq!(events, vec![AssetFsEvent::Delete { asset_id: 2 }]);
}

#[test]
fn unknown_file_yields_single_create() {
    let k = vec![];
    let s = vec![scanned("s.wav", "H3")];
    let events = perform_asset_reconciliation(&k, &s);
    assert_eq!(events.len(), 1);
    match &events[0] {
        AssetFsEvent::Create { asset_id: _, path, hash, asset_type } => {
            assert_eq!(path, "s.wav");
            assert_eq!(hash, "H3");
            assert_eq!(*asset_type, AssetType::Sound);
        }
        other => panic!("expected a Create event, got {:?}", other),
    }
}

#[test]
fn rename_target_is_not_also_created() {
    // One known asset disappears; its hash shows up at a new path while a
    // second new file appears as well: one Rename, one Create, no event
    // for the consumed candidate.
    let k = vec![known(4, "old.png", "HX")];
    let s = vec![scanned("new.png", "HX"), scanned("extra.jpg", "HY")];
    let events = perform_asset_reconciliation(&k, &s);
    assert_eq!(events.len(), 2);
    assert_eq!(
        events[0],
        AssetFsEvent::Rename { asset_id: 4, new_path: String::from("new.png") }
    );
    match &events[1] {
        AssetFsEvent::Create { asset_id: _, path, hash, asset_type } => {
            assert_eq!(path, "extra.jpg");
            assert_eq!(hash, "HY");
            assert_eq!(*asset_type, AssetType::Texture);
        }
        other => panic!("expected a Create event, got {:?}", other),
    }
}

#[test]
fn duplicate_hashes_resolve_in_encounter_order() {
    // Two deleted assets share a hash and two candidates share it too:
    // first-match-by-hash pairs them in encounter order.
    let k = vec![known(1, "a.png", "H"), known(2, "b.png", "H")];
    let s = vec![scanned("c.png", "H"), scanned("d.png", "H")];
    let events = perform_asset_reconciliation(&k, &s);
    assert_eq!(
        events,
        vec![
            AssetFsEvent::Rename { asset_id: 1, new_path: String::from("c.png") },
            AssetFsEvent::Rename { asset_id: 2, new_path: String::from("d.png") },
        ]
    );
}

#[test]
fn unsupported_candidate_produces_no_event() {
    // A candidate with an unsupported extension is skipped defensively in
    // the creation phase.
    let k = vec![];
    let s = vec![scanned("notes.txt", "H1"), scanned("tex.png", "H2")];
    let events = perform_asset_reconciliation(&k, &s);
    assert_eq!(events.len(), 1);
    match &events[0] {
        AssetFsEvent::Create { asset_id: _, path, asset_type, .. } => {
            assert_eq!(path, "tex.png");
            assert_eq!(*asset_type, AssetType::Texture);
        }
        other => panic!("expected a Create event, got {:?}", other),
    }
}

#[test]
fn event_order_is_modify_then_rename_delete_then_create() {
    let k = vec![
        known(1, "changed.png", "H1"),
        known(2, "gone.obj", "H2"),
        known(3, "moved.wav", "H3"),
    ];
    let s = vec![
        scanned("fresh.mtl", "H9"),
        scanned("changed.png", "H1b"),
        scanned("relocated.wav", "H3"),
    ];
    let events = perform_asset_reconciliation(&k, &s);
    assert_eq!(events.len(), 4);
    assert_eq!(
        events[0],
        AssetFsEvent::Modify { asset_id: 1, new_hash: String::from("H1b") }
    );
    assert_eq!(events[1], AssetFsEvent::Delete { asset_id: 2 });
    assert_eq!(
        events[2],
        AssetFsEvent::Rename { asset_id: 3, new_path: String::from("relocated.wav") }
    );
    match &events[3] {
        AssetFsEvent::Create { asset_id: _, path, hash, asset_type } => {
            assert_eq!(path, "fresh.mtl");
            assert_eq!(hash, "H9");
            assert_eq!(*asset_type, AssetType::MeshSupplementary);
        }
        other => panic!("expected a Create event, got {:?}", other),
    }
}

#[test]
fn create_ids_are_distinct_between_events() {
    let k = vec![];
    let s = vec![scanned("a.png", "H1"), scanned("b.png", "H2")];
    let events = perform_asset_reconciliation(&k, &s);
    assert_eq!(events.len(), 2);
    let id_of = |e: &AssetFsEvent| match e {
        AssetFsEvent::Create { asset_id, .. } => *asset_id,
        other => panic!("expected a Create event, got {:?}", other),
    };
    assert_ne!(id_of(&events[0]), id_of(&events[1]));
}

#[test]
fn hash_at_a_claimed_path_is_not_a_rename_target() {
    // The vanished asset's hash does appear on disk, but only at a path
    // that another known asset holds: that file is no candidate, so the
    // vanished asset is deleted.
    let k = vec![known(1, "a.png", "H"), known(2, "b.png", "H")];
    let s = vec![scanned("b.png", "H")];
    let events = perform_asset_reconciliation(&k, &s);
    assert_eq!(events, vec![AssetFsEvent::Delete { asset_id: 1 }]);
}

#[test]
fn modified_file_is_not_a_rename_target() {
    // A file matched by path contributes only its Modify event; its new
    // hash never pairs it with a deleted asset.
    let k = vec![known(1, "a.png", "H1"), known(2, "b.png", "H2")];
    let s = vec![scanned("a.png", "H2")];
    let events = perform_asset_reconciliation(&k, &s);
    assert_eq!(
        events,
        vec![
            AssetFsEvent::Modify { asset_id: 1, new_hash: String::from("H2") },
            AssetFsEvent::Delete { asset_id: 2 },
        ]
    );
}
