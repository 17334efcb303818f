//! The data model: scanned files, known assets, and change events.
//!
//! Paths are normalized, forward-slash strings relative to the project
//! root; hashes are opaque digest strings; asset identifiers are 128-bit
//! values.

use vstd::prelude::*;

verus! {

use crate::classify::AssetType;

/// An asset file found on disk during one scan.
#[derive(Debug, PartialEq, Eq)]
pub struct AssetFile {
    pub path: String,
    pub hash: String,
}

/// Mathematical model of an `AssetFile`.
pub ghost struct AssetFileModel {
    pub path: Seq<char>,
    pub hash: Seq<char>,
}

impl View for AssetFile {
    type V = AssetFileModel;

    open spec fn view(&self) -> AssetFileModel {
        AssetFileModel { path: self.path@, hash: self.hash@ }
    }
}

impl DeepView for AssetFile {
    type V = AssetFileModel;

    open spec fn deep_view(&self) -> AssetFileModel {
        self@
    }
}

impl Clone for AssetFile {
    fn clone(&self) -> (r: Self)
        ensures
            r == *self,
    {
        AssetFile { path: self.path.clone(), hash: self.hash.clone() }
    }
}

/// A previously recorded asset, as the project manifest lists it.
#[derive(Debug, PartialEq, Eq)]
pub struct AssetDefinition {
    pub id: u128,
    pub path: String,
    pub hash: String,
}

/// Mathematical model of an `AssetDefinition`.
pub ghost struct AssetDefinitionModel {
    pub id: u128,
    pub path: Seq<char>,
    pub hash: Seq<char>,
}

impl View for AssetDefinition {
    type V = AssetDefinitionModel;

    open spec fn view(&self) -> AssetDefinitionModel {
        AssetDefinitionModel { id: self.id, path: self.path@, hash: self.hash@ }
    }
}

impl DeepView for AssetDefinition {
    type V = AssetDefinitionModel;

    open spec fn deep_view(&self) -> AssetDefinitionModel {
        self@
    }
}

impl Clone for AssetDefinition {
    fn clone(&self) -> (r: Self)
        ensures
            r == *self,
    {
        AssetDefinition { id: self.id, path: self.path.clone(), hash: self.hash.clone() }
    }
}

/// A change to the asset inventory, derived from one reconciliation pass.
#[derive(Debug, PartialEq, Eq)]
pub enum AssetFsEvent {
    /// A new (previously unknown) asset has been added.
    Create { asset_id: u128, path: String, hash: String, asset_type: AssetType },
    /// A previously known asset has been removed.
    Delete { asset_id: u128 },
    /// A known asset's content hash has changed.
    Modify { asset_id: u128, new_hash: String },
    /// An asset has been renamed or moved.
    Rename { asset_id: u128, new_path: String },
}

/// Mathematical model of an `AssetFsEvent`.
pub ghost enum AssetFsEventModel {
    Create { asset_id: u128, path: Seq<char>, hash: Seq<char>, asset_type: AssetType },
    Delete { asset_id: u128 },
    Modify { asset_id: u128, new_hash: Seq<char> },
    Rename { asset_id: u128, new_path: Seq<char> },
}

impl View for AssetFsEvent {
    type V = AssetFsEventModel;

    open spec fn view(&self) -> AssetFsEventModel {
        match self {
            AssetFsEvent::Create { asset_id, path, hash, asset_type } => AssetFsEventModel::Create {
                asset_id: *asset_id,
                path: path@,
                hash: hash@,
                asset_type: *asset_type,
            },
            AssetFsEvent::Delete { asset_id } => AssetFsEventModel::Delete { asset_id: *asset_id },
            AssetFsEvent::Modify { asset_id, new_hash } => AssetFsEventModel::Modify {
                asset_id: *asset_id,
                new_hash: new_hash@,
            },
            AssetFsEvent::Rename { asset_id, new_path } => AssetFsEventModel::Rename {
                asset_id: *asset_id,
                new_path: new_path@,
            },
        }
    }
}

impl DeepView for AssetFsEvent {
    type V = AssetFsEventModel;

    open spec fn deep_view(&self) -> AssetFsEventModel {
        self@
    }
}

impl Clone for AssetFsEvent {
    fn clone(&self) -> (r: Self)
        ensures
            r == *self,
    {
        match self {
            AssetFsEvent::Create { asset_id, path, hash, asset_type } => AssetFsEvent::Create {
                asset_id: *asset_id,
                path: path.clone(),
                hash: hash.clone(),
                asset_type: *asset_type,
            },
            AssetFsEvent::Delete { asset_id } => AssetFsEvent::Delete { asset_id: *asset_id },
            AssetFsEvent::Modify { asset_id, new_hash } => AssetFsEvent::Modify {
                asset_id: *asset_id,
                new_hash: new_hash.clone(),
            },
            AssetFsEvent::Rename { asset_id, new_path } => AssetFsEvent::Rename {
                asset_id: *asset_id,
                new_path: new_path.clone(),
            },
        }
    }
}

} // verus!
