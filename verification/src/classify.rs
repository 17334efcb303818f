//! Classification of file paths into asset categories by extension.
//!
//! The extension is the part of the final path component after its last
//! dot, taken literally (case-sensitive). A component that starts with its
//! only dot has no extension. Extensions are matched against fixed
//! category sets in a fixed priority order.

use vstd::prelude::*;

verus! {

use vstd::string::StrSliceExecFns;
use crate::text::str_eq;

/// Semantic category of an asset, derived from its file extension.
#[derive(Clone, Copy, Debug, PartialEq, Eq, Hash, Structural)]
pub enum AssetType {
    Mesh,
    MeshSupplementary,
    Script,
    Sound,
    Texture,
    Material,
}

/// Index of the last occurrence of `c` in `s`, or -1 when `c` is absent.
pub open spec fn last_index_of_char(s: Seq<char>, c: char) -> int
    decreases s.len(),
{
    if s.len() == 0 {
        -1
    } else if s[s.len() - 1] == c {
        s.len() - 1
    } else {
        last_index_of_char(s.drop_last(), c)
    }
}

pub proof fn lemma_last_index_of_char(s: Seq<char>, c: char)
    ensures
        -1 <= last_index_of_char(s, c) < s.len(),
        last_index_of_char(s, c) >= 0 ==> s[last_index_of_char(s, c)] == c,
        forall|j: int| last_index_of_char(s, c) < j < s.len() ==> s[j] != c,
    decreases s.len(),
{
    if s.len() > 0 && s[s.len() - 1] != c {
        lemma_last_index_of_char(s.drop_last(), c);
        assert(forall|j: int| 0 <= j < s.len() - 1 ==> s.drop_last()[j] == s[j]);
    }
}

pub proof fn lemma_last_index_of_char_at(s: Seq<char>, c: char, m: int)
    requires
        0 <= m < s.len(),
        s[m] == c,
        forall|j: int| m < j < s.len() ==> s[j] != c,
    ensures
        last_index_of_char(s, c) == m,
    decreases s.len(),
{
    if m < s.len() - 1 {
        assert(forall|j: int| 0 <= j < s.len() - 1 ==> s.drop_last()[j] == s[j]);
        lemma_last_index_of_char_at(s.drop_last(), c, m);
    }
}

pub proof fn lemma_last_index_of_char_absent(s: Seq<char>, c: char)
    requires
        forall|j: int| 0 <= j < s.len() ==> s[j] != c,
    ensures
        last_index_of_char(s, c) == -1,
{
    lemma_last_index_of_char(s, c);
    if last_index_of_char(s, c) >= 0 {
        assert(s[last_index_of_char(s, c)] == c);
    }
}

/// The final component of a forward-slash path: everything after the last
/// separator, or the whole path when it has none.
pub open spec fn file_name_of(p: Seq<char>) -> Seq<char> {
    p.skip(last_index_of_char(p, '/') + 1)
}

/// The extension of a path: the part of the final component after its last
/// dot. A component without a dot, or whose only dot is its first
/// character, has none.
pub open spec fn extension_of(p: Seq<char>) -> Option<Seq<char>> {
    let name = file_name_of(p);
    let d = last_index_of_char(name, '.');
    if d <= 0 {
        None
    } else {
        Some(name.skip(d + 1))
    }
}

pub open spec fn is_mesh_extension(e: Seq<char>) -> bool {
    e == "obj"@ || e == "fbx"@ || e == "gltf"@ || e == "glb"@ || e == "stl"@
}

pub open spec fn is_mesh_supplementary_extension(e: Seq<char>) -> bool {
    e == "mtl"@
}

pub open spec fn is_script_extension(e: Seq<char>) -> bool {
    e == "ts"@ || e == "js"@
}

pub open spec fn is_sound_extension(e: Seq<char>) -> bool {
    e == "mp3"@ || e == "ogg"@ || e == "wav"@
}

pub open spec fn is_texture_extension(e: Seq<char>) -> bool {
    e == "png"@ || e == "jpg"@ || e == "jpeg"@ || e == "bmp"@ || e == "basis"@ || e == "dds"@
}

pub open spec fn is_material_extension(e: Seq<char>) -> bool {
    e == "pzmat"@
}

/// The category that an extension belongs to, checked in priority order.
pub open spec fn category_of_extension(e: Seq<char>) -> Option<AssetType> {
    if is_mesh_extension(e) {
        Some(AssetType::Mesh)
    } else if is_mesh_supplementary_extension(e) {
        Some(AssetType::MeshSupplementary)
    } else if is_script_extension(e) {
        Some(AssetType::Script)
    } else if is_sound_extension(e) {
        Some(AssetType::Sound)
    } else if is_texture_extension(e) {
        Some(AssetType::Texture)
    } else if is_material_extension(e) {
        Some(AssetType::Material)
    } else {
        None
    }
}

/// The category of a path, or `None` when the path has no extension or an
/// unsupported one.
pub open spec fn asset_type_of_path(p: Seq<char>) -> Option<AssetType> {
    match extension_of(p) {
        Some(e) => category_of_extension(e),
        None => None,
    }
}

/// Extract the extension of `path`, as `extension_of` describes it.
pub fn get_extension<'a>(path: &'a str) -> (r: Option<&'a str>)
    ensures
        match r {
            Some(e) => extension_of(path@) == Some(e@),
            None => extension_of(path@) is None,
        },
{
    let n = path.unicode_len();

    // Find the start of the final component: one past the last '/'.
    let mut j: usize = n;
    let mut name_start: usize = 0;
    let mut found_sep = false;
    while j > 0 && !found_sep
        invariant
            j <= n,
            n == path@.len(),
            !found_sep ==> name_start == 0 && forall|k: int| j <= k < n ==> path@[k] != '/',
            found_sep ==> name_start == j && 1 <= j && path@[j - 1] == '/' && forall|k: int|
                j <= k < n ==> path@[k] != '/',
        decreases (if found_sep { 0int } else { 1int }), j,
    {
        if path.get_char(j - 1) == '/' {
            name_start = j;
            found_sep = true;
        } else {
            j = j - 1;
        }
    }
    proof {
        if found_sep {
            lemma_last_index_of_char_at(path@, '/', name_start - 1);
        } else {
            lemma_last_index_of_char_absent(path@, '/');
        }
        assert(last_index_of_char(path@, '/') + 1 == name_start);
    }

    // Find the last '.' within the final component.
    let ghost name = path@.skip(name_start as int);
    proof {
        assert(name == file_name_of(path@));
        assert(forall|k: int| 0 <= k < name.len() ==> name[k] == path@[name_start + k]);
    }
    let mut d: usize = n;
    let mut dot_at: usize = 0;
    let mut found_dot = false;
    while d > name_start && !found_dot
        invariant
            name_start <= d <= n,
            n == path@.len(),
            name == path@.skip(name_start as int),
            forall|k: int| 0 <= k < name.len() ==> name[k] == path@[name_start + k],
            !found_dot ==> forall|k: int| d <= k < n ==> path@[k] != '.',
            found_dot ==> dot_at == d && name_start + 1 <= d && path@[d - 1] == '.' && forall|
                k: int
            | d <= k < n ==> path@[k] != '.',
        decreases (if found_dot { 0int } else { 1int }), d,
    {
        if path.get_char(d - 1) == '.' {
            dot_at = d;
            found_dot = true;
        } else {
            d = d - 1;
        }
    }

    if !found_dot {
        proof {
            assert(forall|k: int| 0 <= k < name.len() ==> name[k] != '.');
            lemma_last_index_of_char_absent(name, '.');
        }
        return None;
    }

    // `dot_at - 1` is the index of the last '.' in the whole path, and it
    // lies within the final component.
    proof {
        let dn = dot_at - 1 - name_start;
        assert(name[dn] == path@[dot_at - 1]);
        assert(forall|k: int| dn < k < name.len() ==> name[k] == path@[name_start + k]);
        lemma_last_index_of_char_at(name, '.', dn);
    }

    if dot_at == name_start + 1 {
        // The component's only remaining dot is its first character.
        return None;
    }

    let ext = path.substring_char(dot_at, n);
    proof {
        let dn = dot_at - 1 - name_start;
        assert(ext@ =~= name.skip(dn + 1));
    }
    Some(ext)
}

/// Map a path to its asset category via its extension, or `None` when the
/// extension is missing or unsupported.
pub fn get_asset_type(path: &str) -> (r: Option<AssetType>)
    ensures
        r == asset_type_of_path(path@),
{
    match get_extension(path) {
        None => None,
        Some(e) => {
            if str_eq(e, "obj") || str_eq(e, "fbx") || str_eq(e, "gltf") || str_eq(e, "glb")
                || str_eq(e, "stl") {
                Some(AssetType::Mesh)
            } else if str_eq(e, "mtl") {
                Some(AssetType::MeshSupplementary)
            } else if str_eq(e, "ts") || str_eq(e, "js") {
                Some(AssetType::Script)
            } else if str_eq(e, "mp3") || str_eq(e, "ogg") || str_eq(e, "wav") {
                Some(AssetType::Sound)
            } else if str_eq(e, "png") || str_eq(e, "jpg") || str_eq(e, "jpeg") || str_eq(e, "bmp")
                || str_eq(e, "basis") || str_eq(e, "dds") {
                Some(AssetType::Texture)
            } else if str_eq(e, "pzmat") {
                Some(AssetType::Material)
            } else {
                None
            }
        },
    }
}

/// Test whether a path has a supported asset file extension.
pub fn is_supported_asset_type(path: &str) -> (r: bool)
    ensures
        r == (asset_type_of_path(path@) is Some),
{
    get_asset_type(path).is_some()
}

} // verus!
