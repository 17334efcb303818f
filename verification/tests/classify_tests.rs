use asset_reconciler::classify::get_asset_type;
use asset_reconciler::classify::is_supported_asset_type;
use asset_reconciler::classify::AssetType;
use asset_reconciler::scan::normalize_asset_path;
use asset_reconciler::text::str_eq;

#[test]
fn mesh_extensions_classify_as_mesh() {
    for p in ["a.obj", "a.fbx", "a.gltf", "a.glb", "a.stl"] {
        assert_eq!(get_asset_type(p), Some(AssetType::Mesh), "{}", p);
    }
}

#[test]
fn remaining_categories_classify_by_extension() {
    assert_eq!(get_asset_type("m.mtl"), Some(AssetType::MeshSupplementary));
    assert_eq!(get_asset_type("code.ts"), Some(AssetType::Script));
    assert_eq!(get_asset_type("code.js"), Some(AssetType::Script));
    assert_eq!(get_asset_type("s.mp3"), Some(AssetType::Sound));
    assert_eq!(get_asset_type("s.ogg"), Some(AssetType::Sound));
    assert_eq!(get_asset_type("s.wav"), Some(AssetType::Sound));
    assert_eq!(get_asset_type("t.png"), Some(AssetType::Texture));
    assert_eq!(get_asset_type("t.jpg"), Some(AssetType::Texture));
    assert_eq!(get_asset_type("t.jpeg"), Some(AssetType::Texture));
    assert_eq!(get_asset_type("t.bmp"), Some(AssetType::Texture));
    assert_eq!(get_asset_type("t.basis"), Some(AssetType::Texture));
    assert_eq!(get_asset_type("t.dds"), Some(AssetType::Texture));
    assert_eq!(get_asset_type("m.pzmat"), Some(AssetType::Material));
}

#[test]
fn unsupported_extension_is_not_an_asset() {
    assert_eq!(get_asset_type("notes.txt"), None);
    assert!(!is_supported_asset_type("notes.txt"));
}

#[test]
fn extension_is_taken_from_final_component() {
    assert_eq!(get_asset_type("dir.obj/readme"), None);
    assert_eq!(get_asset_type("dir.txt/mesh.obj"), Some(AssetType::Mesh));
    assert_eq!(get_asset_type("a/b/c/tex.png"), Some(AssetType::Texture));
}

#[test]
fn extension_matching_is_case_sensitive_and_literal() {
    assert_eq!(get_asset_type("a.OBJ"), None);
    assert_eq!(get_asset_type("a.Png"), None);
    assert_eq!(get_asset_type("a.png "), None);
}

#[test]
fn paths_without_extension_are_not_assets() {
    assert_eq!(get_asset_type("Makefile"), None);
    assert_eq!(get_asset_type("dir/file"), None);
    assert_eq!(get_asset_type(""), None);
    assert_eq!(get_asset_type("a."), None);
}

#[test]
fn hidden_file_dot_is_not_an_extension() {
    assert_eq!(get_asset_type(".png"), None);
    assert_eq!(get_asset_type("dir/.wav"), None);
    assert_eq!(get_asset_type(".hidden.png"), Some(AssetType::Texture));
}

#[test]
fn normalization_turns_backslashes_into_slashes() {
    assert_eq!(normalize_asset_path("dir\\sub\\tex.png"), "dir/sub/tex.png");
    assert_eq!(normalize_asset_path("already/fine.obj"), "already/fine.obj");
    assert_eq!(normalize_asset_path(""), "");
}

#[test]
fn string_equality_compares_contents() {
    assert!(str_eq("abc", "abc"));
    assert!(!str_eq("abc", "abd"));
    assert!(!str_eq("abc", "ab"));
    assert!(str_eq("", ""));
}
