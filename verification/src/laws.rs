//! Properties of one reconciliation pass, stated and proved over the
//! reconciler's spec model.
//!
//! The public proof functions at the end of this file state the laws:
//! a stable state yields no events; a path match with a changed hash
//! yields exactly one `Modify`; a missing path whose hash reappears
//! elsewhere yields exactly one `Rename` and consumes that candidate; a
//! missing path whose hash is gone yields exactly one `Delete`; and an
//! unmatched, unconsumed candidate with a supported extension yields
//! exactly one `Create`. The identifiers of `Create` events are freshly
//! generated at random and are not modeled, so the laws speak of the
//! events before the `Create` block and of the created files' paths,
//! hashes and categories.

use vstd::prelude::*;

verus! {

use crate::classify::asset_type_of_path;
use crate::events::AssetDefinitionModel;
use crate::events::AssetFileModel;
use crate::events::AssetFsEventModel;
use crate::reconcile::first_index_with_hash;
use crate::reconcile::first_index_with_path;
use crate::reconcile::lemma_first_index_with_hash;
use crate::reconcile::lemma_first_index_with_hash_at;
use crate::reconcile::lemma_first_index_with_path;
use crate::reconcile::lemma_first_index_with_path_at;
use crate::reconcile::phase_one;
use crate::reconcile::phase_two;
use crate::reconcile::creatable;
use crate::reconcile::reconcile_creates;
use crate::reconcile::reconcile_prefix;

/// No two known assets share a path.
pub open spec fn known_paths_distinct(u: Seq<AssetDefinitionModel>) -> bool {
    forall|a: int, b: int| 0 <= a < b < u.len() ==> u[a].path != u[b].path
}

/// No two known assets share an identifier.
pub open spec fn known_ids_distinct(u: Seq<AssetDefinitionModel>) -> bool {
    forall|a: int, b: int| 0 <= a < b < u.len() ==> u[a].id != u[b].id
}

/// No two scanned files share a path.
pub open spec fn file_paths_distinct(s: Seq<AssetFileModel>) -> bool {
    forall|a: int, b: int| 0 <= a < b < s.len() ==> s[a].path != s[b].path
}

/// Index of the first file in `s` whose path is `p`, or -1.
pub open spec fn first_file_with_path(s: Seq<AssetFileModel>, p: Seq<char>) -> int
    decreases s.len(),
{
    if s.len() == 0 {
        -1
    } else if s[0].path == p {
        0
    } else if first_file_with_path(s.drop_first(), p) == -1 {
        -1
    } else {
        first_file_with_path(s.drop_first(), p) + 1
    }
}

pub proof fn lemma_first_file_with_path(s: Seq<AssetFileModel>, p: Seq<char>)
    ensures
        -1 <= first_file_with_path(s, p) < s.len(),
        first_file_with_path(s, p) >= 0 ==> s[first_file_with_path(s, p)].path == p,
        forall|j: int| 0 <= j < first_file_with_path(s, p) ==> s[j].path != p,
        first_file_with_path(s, p) == -1 ==> forall|j: int|
            0 <= j < s.len() ==> s[j].path != p,
    decreases s.len(),
{
    if s.len() > 0 && s[0].path != p {
        lemma_first_file_with_path(s.drop_first(), p);
        let r = first_file_with_path(s, p);
        if r >= 0 {
            assert forall|j: int| 0 <= j < r implies s[j].path != p by {
                if j > 0 {
                    assert(s.drop_first()[j - 1] == s[j]);
                }
            }
        } else {
            assert forall|j: int| 0 <= j < s.len() implies s[j].path != p by {
                if j > 0 {
                    assert(s.drop_first()[j - 1] == s[j]);
                }
            }
        }
    }
}

/// Some scanned file has path `p`.
pub open spec fn has_file_at_path(s: Seq<AssetFileModel>, p: Seq<char>) -> bool {
    first_file_with_path(s, p) >= 0
}

/// The first scanned file with path `p`.
pub open spec fn file_at(s: Seq<AssetFileModel>, p: Seq<char>) -> AssetFileModel {
    s[first_file_with_path(s, p)]
}

/// Some known asset has path `p`.
pub open spec fn has_known_at_path(u: Seq<AssetDefinitionModel>, p: Seq<char>) -> bool {
    first_index_with_path(u, p) >= 0
}

/// The first known asset with path `p`.
pub open spec fn known_at(u: Seq<AssetDefinitionModel>, p: Seq<char>) -> AssetDefinitionModel {
    u[first_index_with_path(u, p)]
}

/// The event mentions the asset identifier `id`.
pub open spec fn references_id(e: AssetFsEventModel, id: u128) -> bool {
    match e {
        AssetFsEventModel::Create { asset_id, .. } => asset_id == id,
        AssetFsEventModel::Delete { asset_id } => asset_id == id,
        AssetFsEventModel::Modify { asset_id, .. } => asset_id == id,
        AssetFsEventModel::Rename { asset_id, .. } => asset_id == id,
    }
}

/// The known assets whose paths no scanned file has, in inventory order:
/// the deletion candidates of phase 2.
pub open spec fn unmatched_known(
    u: Seq<AssetDefinitionModel>,
    s: Seq<AssetFileModel>,
) -> Seq<AssetDefinitionModel>
    decreases u.len(),
{
    if u.len() == 0 {
        Seq::empty()
    } else {
        let rest = unmatched_known(u.drop_first(), s);
        if has_file_at_path(s, u[0].path) {
            rest
        } else {
            seq![u[0]] + rest
        }
    }
}

/// The scanned files whose paths no known asset has, in scan order: the
/// new-file candidate pool of phase 2.
pub open spec fn new_candidates(
    s: Seq<AssetFileModel>,
    u: Seq<AssetDefinitionModel>,
) -> Seq<AssetFileModel>
    decreases s.len(),
{
    if s.len() == 0 {
        Seq::empty()
    } else {
        let rest = new_candidates(s.drop_first(), u);
        if has_known_at_path(u, s[0].path) {
            rest
        } else {
            seq![s[0]] + rest
        }
    }
}

/// The `Modify` events of phase 1 in scan order: one for each scanned
/// file whose path a known asset has with a different hash.
pub open spec fn modify_events(
    u: Seq<AssetDefinitionModel>,
    s: Seq<AssetFileModel>,
) -> Seq<AssetFsEventModel>
    decreases s.len(),
{
    if s.len() == 0 {
        Seq::empty()
    } else {
        let rest = modify_events(u, s.drop_first());
        if has_known_at_path(u, s[0].path) && known_at(u, s[0].path).hash != s[0].hash {
            seq![
                AssetFsEventModel::Modify {
                    asset_id: known_at(u, s[0].path).id,
                    new_hash: s[0].hash,
                },
            ] + rest
        } else {
            rest
        }
    }
}

/// Removing one element keeps the others, their order, and their
/// distinctness.
pub proof fn lemma_remove_known(u: Seq<AssetDefinitionModel>, j: int)
    requires
        0 <= j < u.len(),
    ensures
        u.remove(j).len() == u.len() - 1,
        forall|a: int| 0 <= a < j ==> u.remove(j)[a] == u[a],
        forall|a: int| j <= a < u.len() - 1 ==> u.remove(j)[a] == u[a + 1],
        known_paths_distinct(u) ==> known_paths_distinct(u.remove(j)),
        known_ids_distinct(u) ==> known_ids_distinct(u.remove(j)),
{
    if known_paths_distinct(u) {
        assert forall|a: int, b: int| 0 <= a < b < u.remove(j).len() implies u.remove(j)[a].path
            != u.remove(j)[b].path by {
            let a2 = if a < j { a } else { a + 1 };
            let b2 = if b < j { b } else { b + 1 };
            assert(u.remove(j)[a] == u[a2]);
            assert(u.remove(j)[b] == u[b2]);
        }
    }
    if known_ids_distinct(u) {
        assert forall|a: int, b: int| 0 <= a < b < u.remove(j).len() implies u.remove(j)[a].id
            != u.remove(j)[b].id by {
            let a2 = if a < j { a } else { a + 1 };
            let b2 = if b < j { b } else { b + 1 };
            assert(u.remove(j)[a] == u[a2]);
            assert(u.remove(j)[b] == u[b2]);
        }
    }
}

/// Removing one file keeps the others, their order, and the
/// distinctness of their paths.
pub proof fn lemma_remove_file(s: Seq<AssetFileModel>, j: int)
    requires
        0 <= j < s.len(),
    ensures
        s.remove(j).len() == s.len() - 1,
        forall|a: int| 0 <= a < j ==> s.remove(j)[a] == s[a],
        forall|a: int| j <= a < s.len() - 1 ==> s.remove(j)[a] == s[a + 1],
        file_paths_distinct(s) ==> file_paths_distinct(s.remove(j)),
{
    if file_paths_distinct(s) {
        assert forall|a: int, b: int| 0 <= a < b < s.remove(j).len() implies s.remove(j)[a].path
            != s.remove(j)[b].path by {
            let a2 = if a < j { a } else { a + 1 };
            let b2 = if b < j { b } else { b + 1 };
            assert(s.remove(j)[a] == s[a2]);
            assert(s.remove(j)[b] == s[b2]);
        }
    }
}

/// Looking up a path other than the removed asset's gives the same
/// result before and after the removal.
pub proof fn lemma_known_lookup_remove(u: Seq<AssetDefinitionModel>, j: int, p: Seq<char>)
    requires
        0 <= j < u.len(),
        p != u[j].path,
    ensures
        has_known_at_path(u.remove(j), p) == has_known_at_path(u, p),
        has_known_at_path(u, p) ==> known_at(u.remove(j), p) == known_at(u, p),
{
    lemma_remove_known(u, j);
    lemma_first_index_with_path(u, p);
    let f = first_index_with_path(u, p);
    if f == -1 {
        lemma_first_index_with_path(u.remove(j), p);
        let g = first_index_with_path(u.remove(j), p);
        if g >= 0 {
            let g2 = if g < j { g } else { g + 1 };
            assert(u[g2].path == p);
        }
    } else {
        let f2 = if f < j { f } else { f - 1 };
        assert(u.remove(j)[f2] == u[f]);
        assert forall|a: int| 0 <= a < f2 implies u.remove(j)[a].path != p by {
            let a2 = if a < j { a } else { a + 1 };
            assert(u.remove(j)[a] == u[a2]);
        }
        lemma_first_index_with_path_at(u.remove(j), p, f2);
    }
}

/// A scan without a given path classifies known assets the same with or
/// without its first file, once that file's path is out of the picture.
pub proof fn lemma_unmatched_drop_scan_head(
    u: Seq<AssetDefinitionModel>,
    s: Seq<AssetFileModel>,
)
    requires
        s.len() > 0,
        forall|i: int| 0 <= i < u.len() ==> u[i].path != s[0].path,
    ensures
        unmatched_known(u, s) == unmatched_known(u, s.drop_first()),
    decreases u.len(),
{
    if u.len() > 0 {
        assert(forall|i: int|
            0 <= i < u.drop_first().len() ==> u.drop_first()[i] == u[i + 1]);
        lemma_unmatched_drop_scan_head(u.drop_first(), s);
        assert(has_file_at_path(s, u[0].path) == has_file_at_path(s.drop_first(), u[0].path));
    }
}

/// After phase 1 removes the asset matched by the scan's first file, the
/// deletion candidates are unchanged.
pub proof fn lemma_unmatched_remove_matched(
    u: Seq<AssetDefinitionModel>,
    s: Seq<AssetFileModel>,
    j: int,
)
    requires
        s.len() > 0,
        0 <= j < u.len(),
        known_paths_distinct(u),
        u[j].path == s[0].path,
        forall|a: int| 0 <= a < j ==> u[a].path != s[0].path,
    ensures
        unmatched_known(u, s) == unmatched_known(u.remove(j), s.drop_first()),
    decreases u.len(),
{
    lemma_remove_known(u, j);
    if j == 0 {
        assert(u.remove(0) =~= u.drop_first());
        assert(has_file_at_path(s, u[0].path));
        assert(forall|i: int|
            0 <= i < u.drop_first().len() ==> u.drop_first()[i] == u[i + 1]);
        lemma_unmatched_drop_scan_head(u.drop_first(), s);
    } else {
        assert(forall|i: int|
            0 <= i < u.drop_first().len() ==> u.drop_first()[i] == u[i + 1]);
        lemma_remove_known(u.drop_first(), j - 1);
        assert(u.remove(j).drop_first() =~= u.drop_first().remove(j - 1));
        lemma_unmatched_remove_matched(u.drop_first(), s, j - 1);
        assert(u[0].path != s[0].path);
        assert(has_file_at_path(s, u[0].path) == has_file_at_path(s.drop_first(), u[0].path));
        assert(u.remove(j)[0] == u[0]);
    }
}

/// Candidate selection and modification events ignore a known asset
/// whose path no remaining scanned file has.
pub proof fn lemma_scan_ignores_removed_known(
    s: Seq<AssetFileModel>,
    u: Seq<AssetDefinitionModel>,
    j: int,
)
    requires
        0 <= j < u.len(),
        known_paths_distinct(u),
        forall|i: int| 0 <= i < s.len() ==> s[i].path != u[j].path,
    ensures
        new_candidates(s, u.remove(j)) == new_candidates(s, u),
        modify_events(u.remove(j), s) == modify_events(u, s),
    decreases s.len(),
{
    if s.len() > 0 {
        assert(forall|i: int|
            0 <= i < s.drop_first().len() ==> s.drop_first()[i] == s[i + 1]);
        lemma_scan_ignores_removed_known(s.drop_first(), u, j);
        lemma_known_lookup_remove(u, j, s[0].path);
    }
}

/// Phase 1 computes exactly the `Modify` events, the deletion
/// candidates, and the new-file candidate pool.
pub proof fn lemma_phase_one_form(u: Seq<AssetDefinitionModel>, s: Seq<AssetFileModel>)
    requires
        known_paths_distinct(u),
        file_paths_distinct(s),
    ensures
        phase_one(u, s).0 == modify_events(u, s),
        phase_one(u, s).1 == unmatched_known(u, s),
        phase_one(u, s).2 == new_candidates(s, u),
    decreases s.len(),
{
    if s.len() == 0 {
        assert(unmatched_known(u, s) =~= u) by {
            lemma_unmatched_empty_scan(u, s);
        }
    } else {
        let f = s[0];
        let j = first_index_with_path(u, f.path);
        lemma_first_index_with_path(u, f.path);
        assert(forall|i: int|
            0 <= i < s.drop_first().len() ==> s.drop_first()[i] == s[i + 1]);
        if j >= 0 {
            lemma_remove_known(u, j);
            lemma_phase_one_form(u.remove(j), s.drop_first());
            lemma_unmatched_remove_matched(u, s, j);
            assert(forall|i: int|
                0 <= i < s.drop_first().len() ==> s.drop_first()[i].path != u[j].path);
            lemma_scan_ignores_removed_known(s.drop_first(), u, j);
            // The probe's result matches the model lookup.
            assert(has_known_at_path(u, f.path));
            assert(known_at(u, f.path) == u[j]);
            let rest = phase_one(u.remove(j), s.drop_first());
            if u[j].hash != f.hash {
                assert(phase_one(u, s).0 =~= seq![
                    AssetFsEventModel::Modify { asset_id: u[j].id, new_hash: f.hash },
                ] + rest.0);
                assert(modify_events(u, s) == seq![
                    AssetFsEventModel::Modify { asset_id: u[j].id, new_hash: f.hash },
                ] + modify_events(u, s.drop_first()));
            }
        } else {
            lemma_phase_one_form(u, s.drop_first());
            assert(forall|i: int| 0 <= i < u.len() ==> u[i].path != s[0].path);
            lemma_unmatched_drop_scan_head(u, s);
            assert(!has_known_at_path(u, f.path));
        }
    }
}

/// With nothing scanned, every known asset is a deletion candidate.
pub proof fn lemma_unmatched_empty_scan(u: Seq<AssetDefinitionModel>, s: Seq<AssetFileModel>)
    requires
        s.len() == 0,
    ensures
        unmatched_known(u, s) == u,
    decreases u.len(),
{
    if u.len() > 0 {
        lemma_unmatched_empty_scan(u.drop_first(), s);
        assert(unmatched_known(u, s) =~= u);
    }
}

/// Phase 2 yields exactly one event per deletion candidate, in order,
/// each a `Rename` or `Delete` carrying that candidate's identifier.
pub proof fn lemma_phase_two_shape(d: Seq<AssetDefinitionModel>, p: Seq<AssetFileModel>)
    ensures
        phase_two(d, p).0.len() == d.len(),
        forall|j: int|
            0 <= j < d.len() ==> references_id(#[trigger] phase_two(d, p).0[j], d[j].id),
        forall|j: int|
            0 <= j < d.len() ==> (#[trigger] phase_two(d, p).0[j] is Rename || phase_two(
                d,
                p,
            ).0[j] is Delete),
    decreases d.len(),
{
    if d.len() > 0 {
        let j = first_index_with_hash(p, d[0].hash);
        lemma_first_index_with_hash(p, d[0].hash);
        let q = if j >= 0 { p.remove(j) } else { p };
        lemma_phase_two_shape(d.drop_first(), q);
        let rest = phase_two(d.drop_first(), q);
        assert forall|j2: int| 0 <= j2 < d.len() implies references_id(
            #[trigger] phase_two(d, p).0[j2],
            d[j2].id,
        ) && (phase_two(d, p).0[j2] is Rename || phase_two(d, p).0[j2] is Delete) by {
            if j2 > 0 {
                assert(phase_two(d, p).0[j2] == rest.0[j2 - 1]);
                assert(d.drop_first()[j2 - 1] == d[j2]);
            }
        }
    }
}

/// Every file left in the pool after phase 2 was in the pool before.
pub proof fn lemma_phase_two_pool_elements(d: Seq<AssetDefinitionModel>, p: Seq<AssetFileModel>)
    ensures
        forall|i: int|
            0 <= i < phase_two(d, p).1.len() ==> p.contains(#[trigger] phase_two(d, p).1[i]),
    decreases d.len(),
{
    if d.len() == 0 {
        assert forall|i: int| 0 <= i < phase_two(d, p).1.len() implies p.contains(
            #[trigger] phase_two(d, p).1[i],
        ) by {
            assert(phase_two(d, p).1[i] == p[i]);
        }
    } else {
        let j = first_index_with_hash(p, d[0].hash);
        lemma_first_index_with_hash(p, d[0].hash);
        let q = if j >= 0 { p.remove(j) } else { p };
        lemma_phase_two_pool_elements(d.drop_first(), q);
        if j >= 0 {
            lemma_remove_file(p, j);
        }
        assert forall|i: int| 0 <= i < phase_two(d, p).1.len() implies p.contains(
            #[trigger] phase_two(d, p).1[i],
        ) by {
            assert(phase_two(d, p).1[i] == phase_two(d.drop_first(), q).1[i]);
            assert(q.contains(phase_two(d.drop_first(), q).1[i]));
            let m = choose|m: int|
                0 <= m < q.len() && q[m] == phase_two(d.drop_first(), q).1[i];
            if j >= 0 {
                let m2 = if m < j { m } else { m + 1 };
                assert(p[m2] == q[m]);
            }
        }
    }
}

/// Phase 2 never puts two files with one path into the leftover pool.
pub proof fn lemma_phase_two_pool_distinct(d: Seq<AssetDefinitionModel>, p: Seq<AssetFileModel>)
    requires
        file_paths_distinct(p),
    ensures
        file_paths_distinct(phase_two(d, p).1),
    decreases d.len(),
{
    if d.len() > 0 {
        let j = first_index_with_hash(p, d[0].hash);
        lemma_first_index_with_hash(p, d[0].hash);
        if j >= 0 {
            lemma_remove_file(p, j);
            lemma_phase_two_pool_distinct(d.drop_first(), p.remove(j));
        } else {
            lemma_phase_two_pool_distinct(d.drop_first(), p);
        }
    }
}

/// A deletion candidate whose hash no pool file has comes out as a
/// `Delete`.
pub proof fn lemma_phase_two_delete(
    d: Seq<AssetDefinitionModel>,
    p: Seq<AssetFileModel>,
    di: int,
)
    requires
        0 <= di < d.len(),
        forall|i: int| 0 <= i < p.len() ==> (#[trigger] p[i].hash) != d[di].hash,
    ensures
        phase_two(d, p).0[di] == (AssetFsEventModel::Delete { asset_id: d[di].id }),
    decreases d.len(),
{
    let j = first_index_with_hash(p, d[0].hash);
    lemma_first_index_with_hash(p, d[0].hash);
    if di == 0 {
        assert(j == -1);
    } else {
        assert(d.drop_first()[di - 1] == d[di]);
        if j >= 0 {
            lemma_remove_file(p, j);
            assert forall|i: int| 0 <= i < p.remove(j).len() implies (#[trigger] p.remove(
                j,
            )[i].hash) != d[di].hash by {
                let i2 = if i < j { i } else { i + 1 };
                assert(p.remove(j)[i] == p[i2]);
            }
            lemma_phase_two_delete(d.drop_first(), p.remove(j), di - 1);
            lemma_phase_two_shape(d.drop_first(), p.remove(j));
            assert(phase_two(d, p).0[di] == phase_two(d.drop_first(), p.remove(j)).0[di - 1]);
        } else {
            lemma_phase_two_delete(d.drop_first(), p, di - 1);
            lemma_phase_two_shape(d.drop_first(), p);
            assert(phase_two(d, p).0[di] == phase_two(d.drop_first(), p).0[di - 1]);
        }
    }
}

/// A deletion candidate whose hash no other candidate shares, and which
/// some pool file carries, comes out as a `Rename` to the first such
/// file, and that file leaves the pool for good.
pub proof fn lemma_phase_two_rename(
    d: Seq<AssetDefinitionModel>,
    p: Seq<AssetFileModel>,
    di: int,
)
    requires
        0 <= di < d.len(),
        file_paths_distinct(p),
        forall|m: int| 0 <= m < d.len() && m != di ==> (#[trigger] d[m].hash) != d[di].hash,
        first_index_with_hash(p, d[di].hash) >= 0,
    ensures
        phase_two(d, p).0[di] == (AssetFsEventModel::Rename {
            asset_id: d[di].id,
            new_path: p[first_index_with_hash(p, d[di].hash)].path,
        }),
        forall|i: int|
            0 <= i < phase_two(d, p).1.len() ==> (#[trigger] phase_two(d, p).1[i].path) != p[
                first_index_with_hash(p, d[di].hash)
            ].path,
    decreases d.len(),
{
    let h = d[di].hash;
    let jh = first_index_with_hash(p, h);
    lemma_first_index_with_hash(p, h);
    let j = first_index_with_hash(p, d[0].hash);
    if di == 0 {
        assert(j == jh);
        let q = p.remove(jh);
        lemma_remove_file(p, jh);
        lemma_phase_two_pool_elements(d.drop_first(), q);
        assert(phase_two(d, p).0[0] == (AssetFsEventModel::Rename {
            asset_id: d[0].id,
            new_path: p[jh].path,
        }));
        assert forall|i: int| 0 <= i < phase_two(d, p).1.len() implies (#[trigger] phase_two(
            d,
            p,
        ).1[i].path) != p[jh].path by {
            assert(phase_two(d, p).1[i] == phase_two(d.drop_first(), q).1[i]);
            assert(q.contains(phase_two(d.drop_first(), q).1[i]));
            let m = choose|m: int|
                0 <= m < q.len() && q[m] == phase_two(d.drop_first(), q).1[i];
            let m2 = if m < jh { m } else { m + 1 };
            assert(q[m] == p[m2]);
            assert(m2 != jh);
        }
    } else {
        assert(d[0].hash != h);
        assert(forall|m: int|
            0 <= m < d.drop_first().len() ==> d.drop_first()[m] == d[m + 1]);
        if j >= 0 {
            lemma_first_index_with_hash(p, d[0].hash);
            assert(p[j].hash == d[0].hash);
            assert(j != jh);
            let q = p.remove(j);
            lemma_remove_file(p, j);
            let jh2 = if jh < j { jh } else { jh - 1 };
            assert(q[jh2] == p[jh]);
            assert forall|a: int| 0 <= a < jh2 implies q[a].hash != h by {
                let a2 = if a < j { a } else { a + 1 };
                assert(q[a] == p[a2]);
                assert(a2 < jh);
            }
            lemma_first_index_with_hash_at(q, h, jh2);
            lemma_phase_two_rename(d.drop_first(), q, di - 1);
            lemma_phase_two_shape(d.drop_first(), q);
            assert(phase_two(d, p).0[di] == phase_two(d.drop_first(), q).0[di - 1]);
            assert(phase_two(d, p).1 == phase_two(d.drop_first(), q).1);
            assert(q[first_index_with_hash(q, h)].path == p[jh].path);
        } else {
            lemma_phase_two_rename(d.drop_first(), p, di - 1);
            lemma_phase_two_shape(d.drop_first(), p);
            assert(phase_two(d, p).0[di] == phase_two(d.drop_first(), p).0[di - 1]);
        }
    }
}

/// Every deletion candidate is a known asset whose path the scan lacks.
pub proof fn lemma_unmatched_elements(u: Seq<AssetDefinitionModel>, s: Seq<AssetFileModel>)
    ensures
        forall|i: int|
            0 <= i < unmatched_known(u, s).len() ==> u.contains(
                #[trigger] unmatched_known(u, s)[i],
            ) && !has_file_at_path(s, unmatched_known(u, s)[i].path),
    decreases u.len(),
{
    if u.len() > 0 {
        lemma_unmatched_elements(u.drop_first(), s);
        let rest = unmatched_known(u.drop_first(), s);
        assert forall|i: int| 0 <= i < unmatched_known(u, s).len() implies u.contains(
            #[trigger] unmatched_known(u, s)[i],
        ) && !has_file_at_path(s, unmatched_known(u, s)[i].path) by {
            let r = unmatched_known(u, s);
            if !has_file_at_path(s, u[0].path) && i == 0 {
                assert(r[0] == u[0]);
                assert(u[0int] == u[0]);
                assert(u.contains(u[0]));
            } else {
                let i2 = if has_file_at_path(s, u[0].path) { i } else { i - 1 };
                assert(r[i] == rest[i2]);
                assert(u.drop_first().contains(rest[i2]));
                let m = choose|m: int|
                    0 <= m < u.drop_first().len() && u.drop_first()[m] == rest[i2];
                assert(u[m + 1] == rest[i2]);
                assert(u.contains(r[i]));
            }
        }
    }
}

/// A known asset whose path the scan lacks is a deletion candidate;
/// returns its position among them.
pub proof fn lemma_unmatched_index(
    u: Seq<AssetDefinitionModel>,
    s: Seq<AssetFileModel>,
    ki: int,
) -> (di: int)
    requires
        0 <= ki < u.len(),
        !has_file_at_path(s, u[ki].path),
    ensures
        0 <= di < unmatched_known(u, s).len(),
        unmatched_known(u, s)[di] == u[ki],
    decreases u.len(),
{
    let r = unmatched_known(u, s);
    let rest = unmatched_known(u.drop_first(), s);
    if ki == 0 {
        assert(r[0] == u[0]);
        0
    } else {
        assert(u.drop_first()[ki - 1] == u[ki]);
        let di = lemma_unmatched_index(u.drop_first(), s, ki - 1);
        if has_file_at_path(s, u[0].path) {
            assert(r[di] == rest[di]);
            di
        } else {
            assert(r[di + 1] == rest[di]);
            di + 1
        }
    }
}

/// Deletion candidates keep the inventory's distinct paths and
/// identifiers.
pub proof fn lemma_unmatched_distinct(u: Seq<AssetDefinitionModel>, s: Seq<AssetFileModel>)
    ensures
        known_paths_distinct(u) ==> known_paths_distinct(unmatched_known(u, s)),
        known_ids_distinct(u) ==> known_ids_distinct(unmatched_known(u, s)),
    decreases u.len(),
{
    if u.len() > 0 {
        assert(forall|i: int|
            0 <= i < u.drop_first().len() ==> u.drop_first()[i] == u[i + 1]);
        lemma_unmatched_distinct(u.drop_first(), s);
        lemma_unmatched_elements(u.drop_first(), s);
        let rest = unmatched_known(u.drop_first(), s);
        let r = unmatched_known(u, s);
        if !has_file_at_path(s, u[0].path) {
            if known_paths_distinct(u) {
                assert forall|a: int, b: int| 0 <= a < b < r.len() implies r[a].path
                    != r[b].path by {
                    if a == 0 {
                        assert(r[0] == u[0]);
                        assert(r[b] == rest[b - 1]);
                        let m = choose|m: int|
                            0 <= m < u.drop_first().len() && u.drop_first()[m] == rest[b - 1];
                        assert(u[m + 1] == rest[b - 1]);
                    } else {
                        assert(r[a] == rest[a - 1]);
                        assert(r[b] == rest[b - 1]);
                    }
                }
            }
            if known_ids_distinct(u) {
                assert forall|a: int, b: int| 0 <= a < b < r.len() implies r[a].id
                    != r[b].id by {
                    if a == 0 {
                        assert(r[0] == u[0]);
                        assert(r[b] == rest[b - 1]);
                        let m = choose|m: int|
                            0 <= m < u.drop_first().len() && u.drop_first()[m] == rest[b - 1];
                        assert(u[m + 1] == rest[b - 1]);
                    } else {
                        assert(r[a] == rest[a - 1]);
                        assert(r[b] == rest[b - 1]);
                    }
                }
            }
        }
    }
}

/// Every candidate is a scanned file whose path the inventory lacks.
pub proof fn lemma_candidates_elements(s: Seq<AssetFileModel>, u: Seq<AssetDefinitionModel>)
    ensures
        forall|i: int|
            0 <= i < new_candidates(s, u).len() ==> s.contains(
                #[trigger] new_candidates(s, u)[i],
            ) && !has_known_at_path(u, new_candidates(s, u)[i].path),
    decreases s.len(),
{
    if s.len() > 0 {
        lemma_candidates_elements(s.drop_first(), u);
        let rest = new_candidates(s.drop_first(), u);
        assert forall|i: int| 0 <= i < new_candidates(s, u).len() implies s.contains(
            #[trigger] new_candidates(s, u)[i],
        ) && !has_known_at_path(u, new_candidates(s, u)[i].path) by {
            let r = new_candidates(s, u);
            if !has_known_at_path(u, s[0].path) && i == 0 {
                assert(r[0] == s[0]);
                assert(s[0int] == s[0]);
                assert(s.contains(s[0]));
            } else {
                let i2 = if has_known_at_path(u, s[0].path) { i } else { i - 1 };
                assert(r[i] == rest[i2]);
                assert(s.drop_first().contains(rest[i2]));
                let m = choose|m: int|
                    0 <= m < s.drop_first().len() && s.drop_first()[m] == rest[i2];
                assert(s[m + 1] == rest[i2]);
                assert(s.contains(r[i]));
            }
        }
    }
}

/// A scanned file whose path the inventory lacks is a candidate;
/// returns its position in the pool.
pub proof fn lemma_candidates_index(
    s: Seq<AssetFileModel>,
    u: Seq<AssetDefinitionModel>,
    fi: int,
) -> (ci: int)
    requires
        0 <= fi < s.len(),
        !has_known_at_path(u, s[fi].path),
    ensures
        0 <= ci < new_candidates(s, u).len(),
        new_candidates(s, u)[ci] == s[fi],
    decreases s.len(),
{
    let r = new_candidates(s, u);
    let rest = new_candidates(s.drop_first(), u);
    if fi == 0 {
        assert(r[0] == s[0]);
        0
    } else {
        assert(s.drop_first()[fi - 1] == s[fi]);
        let ci = lemma_candidates_index(s.drop_first(), u, fi - 1);
        if has_known_at_path(u, s[0].path) {
            assert(r[ci] == rest[ci]);
            ci
        } else {
            assert(r[ci + 1] == rest[ci]);
            ci + 1
        }
    }
}

/// Candidates keep the scan's distinct paths.
pub proof fn lemma_candidates_distinct(s: Seq<AssetFileModel>, u: Seq<AssetDefinitionModel>)
    requires
        file_paths_distinct(s),
    ensures
        file_paths_distinct(new_candidates(s, u)),
    decreases s.len(),
{
    if s.len() > 0 {
        assert(forall|i: int|
            0 <= i < s.drop_first().len() ==> s.drop_first()[i] == s[i + 1]);
        lemma_candidates_distinct(s.drop_first(), u);
        lemma_candidates_elements(s.drop_first(), u);
        let rest = new_candidates(s.drop_first(), u);
        let r = new_candidates(s, u);
        if !has_known_at_path(u, s[0].path) {
            assert forall|a: int, b: int| 0 <= a < b < r.len() implies r[a].path
                != r[b].path by {
                if a == 0 {
                    assert(r[0] == s[0]);
                    assert(r[b] == rest[b - 1]);
                    let m = choose|m: int|
                        0 <= m < s.drop_first().len() && s.drop_first()[m] == rest[b - 1];
                    assert(s[m + 1] == rest[b - 1]);
                } else {
                    assert(r[a] == rest[a - 1]);
                    assert(r[b] == rest[b - 1]);
                }
            }
        }
    }
}

/// Every created file is a leftover pool file with a supported
/// extension.
pub proof fn lemma_creatable_elements(p: Seq<AssetFileModel>)
    ensures
        forall|i: int|
            0 <= i < creatable(p).len() ==> p.contains(#[trigger] creatable(p)[i])
                && asset_type_of_path(creatable(p)[i].path) is Some,
    decreases p.len(),
{
    if p.len() > 0 {
        lemma_creatable_elements(p.drop_first());
        let rest = creatable(p.drop_first());
        assert forall|i: int| 0 <= i < creatable(p).len() implies p.contains(
            #[trigger] creatable(p)[i],
        ) && asset_type_of_path(creatable(p)[i].path) is Some by {
            let r = creatable(p);
            if asset_type_of_path(p[0].path) is Some && i == 0 {
                assert(r[0] == p[0]);
                assert(p[0int] == p[0]);
                assert(p.contains(p[0]));
            } else {
                let i2 = if asset_type_of_path(p[0].path) is Some { i - 1 } else { i };
                assert(r[i] == rest[i2]);
                assert(p.drop_first().contains(rest[i2]));
                let m = choose|m: int|
                    0 <= m < p.drop_first().len() && p.drop_first()[m] == rest[i2];
                assert(p[m + 1] == rest[i2]);
                assert(p.contains(r[i]));
            }
        }
    }
}

/// A leftover pool file with a supported extension is created; returns
/// its position among the created files.
pub proof fn lemma_creatable_index(p: Seq<AssetFileModel>, pi: int) -> (ci: int)
    requires
        0 <= pi < p.len(),
        asset_type_of_path(p[pi].path) is Some,
    ensures
        0 <= ci < creatable(p).len(),
        creatable(p)[ci] == p[pi],
    decreases p.len(),
{
    let r = creatable(p);
    let rest = creatable(p.drop_first());
    if pi == 0 {
        assert(r[0] == p[0]);
        0
    } else {
        assert(p.drop_first()[pi - 1] == p[pi]);
        let ci = lemma_creatable_index(p.drop_first(), pi - 1);
        if asset_type_of_path(p[0].path) is Some {
            assert(r[ci + 1] == rest[ci]);
            ci + 1
        } else {
            assert(r[ci] == rest[ci]);
            ci
        }
    }
}

/// The created files keep the pool's distinct paths.
pub proof fn lemma_creatable_distinct(p: Seq<AssetFileModel>)
    requires
        file_paths_distinct(p),
    ensures
        file_paths_distinct(creatable(p)),
    decreases p.len(),
{
    if p.len() > 0 {
        assert(forall|i: int|
            0 <= i < p.drop_first().len() ==> p.drop_first()[i] == p[i + 1]);
        lemma_creatable_distinct(p.drop_first());
        lemma_creatable_elements(p.drop_first());
        let rest = creatable(p.drop_first());
        let r = creatable(p);
        if asset_type_of_path(p[0].path) is Some {
            assert forall|a: int, b: int| 0 <= a < b < r.len() implies r[a].path
                != r[b].path by {
                if a == 0 {
                    assert(r[0] == p[0]);
                    assert(r[b] == rest[b - 1]);
                    let m = choose|m: int|
                        0 <= m < p.drop_first().len() && p.drop_first()[m] == rest[b - 1];
                    assert(p[m + 1] == rest[b - 1]);
                } else {
                    assert(r[a] == rest[a - 1]);
                    assert(r[b] == rest[b - 1]);
                }
            }
        }
    }
}


/// Identify the first known asset with a given path under distinct
/// paths.
pub proof fn lemma_known_at_unique(u: Seq<AssetDefinitionModel>, m: int)
    requires
        known_paths_distinct(u),
        0 <= m < u.len(),
    ensures
        has_known_at_path(u, u[m].path),
        first_index_with_path(u, u[m].path) == m,
        known_at(u, u[m].path) == u[m],
{
    lemma_first_index_with_path(u, u[m].path);
    let f = first_index_with_path(u, u[m].path);
    if f == -1 {
        assert(u[m].path == u[m].path);
    } else if f < m {
        assert(u[f].path != u[m].path);
    } else if m < f {
        assert(u[m].path != u[f].path);
    }
}

/// Identify the first scanned file with a given path under distinct
/// paths.
pub proof fn lemma_file_at_unique(s: Seq<AssetFileModel>, i: int)
    requires
        file_paths_distinct(s),
        0 <= i < s.len(),
    ensures
        has_file_at_path(s, s[i].path),
        first_file_with_path(s, s[i].path) == i,
        file_at(s, s[i].path) == s[i],
{
    lemma_first_file_with_path(s, s[i].path);
    let f = first_file_with_path(s, s[i].path);
    if f == -1 {
        assert(s[i].path == s[i].path);
    } else if f < i {
        assert(s[f].path != s[i].path);
    } else if i < f {
        assert(s[i].path != s[f].path);
    }
}

/// No `Modify` event carries `id` when no scanned file sits at the path
/// of the known asset with that identifier.
pub proof fn lemma_modify_no_id(u: Seq<AssetDefinitionModel>, s: Seq<AssetFileModel>, id: u128)
    requires
        forall|i: int|
            0 <= i < s.len() ==> !(has_known_at_path(u, #[trigger] s[i].path) && known_at(
                u,
                s[i].path,
            ).id == id),
    ensures
        forall|j: int|
            0 <= j < modify_events(u, s).len() ==> !references_id(
                #[trigger] modify_events(u, s)[j],
                id,
            ),
    decreases s.len(),
{
    if s.len() > 0 {
        assert(forall|i: int|
            0 <= i < s.drop_first().len() ==> s.drop_first()[i] == s[i + 1]);
        lemma_modify_no_id(u, s.drop_first(), id);
        let rest = modify_events(u, s.drop_first());
        assert forall|j: int| 0 <= j < modify_events(u, s).len() implies !references_id(
            #[trigger] modify_events(u, s)[j],
            id,
        ) by {
            if has_known_at_path(u, s[0].path) && known_at(u, s[0].path).hash != s[0].hash {
                if j == 0 {
                    assert(s[0int] == s[0]);
                } else {
                    assert(modify_events(u, s)[j] == rest[j - 1]);
                }
            } else {
                assert(modify_events(u, s)[j] == rest[j]);
            }
        }
    }
}

/// A scanned file at a known asset's path with a different hash yields
/// exactly one `Modify` among the modification events, carrying that
/// asset's identifier and the scanned hash; returns its position.
pub proof fn lemma_modify_one(
    u: Seq<AssetDefinitionModel>,
    s: Seq<AssetFileModel>,
    ki: int,
    si: int,
) -> (ei: int)
    requires
        known_paths_distinct(u),
        known_ids_distinct(u),
        file_paths_distinct(s),
        0 <= ki < u.len(),
        0 <= si < s.len(),
        s[si].path == u[ki].path,
        s[si].hash != u[ki].hash,
    ensures
        0 <= ei < modify_events(u, s).len(),
        modify_events(u, s)[ei] == (AssetFsEventModel::Modify {
            asset_id: u[ki].id,
            new_hash: s[si].hash,
        }),
        forall|j: int|
            0 <= j < modify_events(u, s).len() && j != ei ==> !references_id(
                #[trigger] modify_events(u, s)[j],
                u[ki].id,
            ),
    decreases s.len(),
{
    let me = modify_events(u, s);
    lemma_known_at_unique(u, ki);
    if si == 0 {
        assert(has_known_at_path(u, s[0].path));
        assert(known_at(u, s[0].path) == u[ki]);
        let rest = modify_events(u, s.drop_first());
        assert(me[0] == (AssetFsEventModel::Modify {
            asset_id: u[ki].id,
            new_hash: s[0].hash,
        }));
        assert forall|i: int| 0 <= i < s.drop_first().len() implies !(has_known_at_path(
            u,
            #[trigger] s.drop_first()[i].path,
        ) && known_at(u, s.drop_first()[i].path).id == u[ki].id) by {
            assert(s.drop_first()[i] == s[i + 1]);
            if has_known_at_path(u, s[i + 1].path) {
                lemma_first_index_with_path(u, s[i + 1].path);
                let m = first_index_with_path(u, s[i + 1].path);
                if u[m].id == u[ki].id {
                    if m < ki {
                        assert(u[m].id != u[ki].id);
                    } else if ki < m {
                        assert(u[ki].id != u[m].id);
                    }
                    assert(m == ki);
                    assert(s[i + 1].path == s[0].path);
                    assert(false);
                }
            }
        }
        lemma_modify_no_id(u, s.drop_first(), u[ki].id);
        assert forall|j: int| 0 <= j < me.len() && j != 0 implies !references_id(
            #[trigger] me[j],
            u[ki].id,
        ) by {
            assert(me[j] == rest[j - 1]);
        }
        0
    } else {
        assert(forall|i: int|
            0 <= i < s.drop_first().len() ==> s.drop_first()[i] == s[i + 1]);
        assert(file_paths_distinct(s.drop_first())) by {
            assert forall|a: int, b: int|
                0 <= a < b < s.drop_first().len() implies s.drop_first()[a].path
                != s.drop_first()[b].path by {
                assert(s.drop_first()[a] == s[a + 1]);
                assert(s.drop_first()[b] == s[b + 1]);
            }
        }
        let ei0 = lemma_modify_one(u, s.drop_first(), ki, si - 1);
        let rest = modify_events(u, s.drop_first());
        if has_known_at_path(u, s[0].path) && known_at(u, s[0].path).hash != s[0].hash {
            lemma_first_index_with_path(u, s[0].path);
            let m0 = first_index_with_path(u, s[0].path);
            if u[m0].id == u[ki].id {
                if m0 < ki {
                    assert(u[m0].id != u[ki].id);
                } else if ki < m0 {
                    assert(u[ki].id != u[m0].id);
                }
                assert(m0 == ki);
                assert(s[0].path == s[si].path);
                assert(false);
            }
            assert(me[ei0 + 1] == rest[ei0]);
            assert forall|j: int| 0 <= j < me.len() && j != ei0 + 1 implies !references_id(
                #[trigger] me[j],
                u[ki].id,
            ) by {
                if j > 0 {
                    assert(me[j] == rest[j - 1]);
                } else {
                    assert(me[0] == (AssetFsEventModel::Modify {
                        asset_id: u[m0].id,
                        new_hash: s[0].hash,
                    }));
                }
            }
            ei0 + 1
        } else {
            assert(me == rest);
            ei0
        }
    }
}

/// When every scanned file still carries its recorded hash, phase 1
/// emits no `Modify` events.
pub proof fn lemma_modify_empty(u: Seq<AssetDefinitionModel>, s: Seq<AssetFileModel>)
    requires
        forall|i: int|
            0 <= i < s.len() ==> has_known_at_path(u, #[trigger] s[i].path) && known_at(
                u,
                s[i].path,
            ).hash == s[i].hash,
    ensures
        modify_events(u, s) == Seq::<AssetFsEventModel>::empty(),
    decreases s.len(),
{
    if s.len() > 0 {
        assert(forall|i: int|
            0 <= i < s.drop_first().len() ==> s.drop_first()[i] == s[i + 1]);
        assert(s[0int] == s[0]);
        lemma_modify_empty(u, s.drop_first());
    }
}

/// When every known asset's path is on disk, nothing is a deletion
/// candidate.
pub proof fn lemma_unmatched_all_matched(u: Seq<AssetDefinitionModel>, s: Seq<AssetFileModel>)
    requires
        forall|i: int| 0 <= i < u.len() ==> has_file_at_path(s, #[trigger] u[i].path),
    ensures
        unmatched_known(u, s) == Seq::<AssetDefinitionModel>::empty(),
    decreases u.len(),
{
    if u.len() > 0 {
        assert(forall|i: int|
            0 <= i < u.drop_first().len() ==> u.drop_first()[i] == u[i + 1]);
        assert(u[0int] == u[0]);
        lemma_unmatched_all_matched(u.drop_first(), s);
    }
}

/// When every scanned file's path is in the inventory, nothing is a
/// new-file candidate.
pub proof fn lemma_candidates_all_known(s: Seq<AssetFileModel>, u: Seq<AssetDefinitionModel>)
    requires
        forall|i: int| 0 <= i < s.len() ==> has_known_at_path(u, #[trigger] s[i].path),
    ensures
        new_candidates(s, u) == Seq::<AssetFileModel>::empty(),
    decreases s.len(),
{
    if s.len() > 0 {
        assert(forall|i: int|
            0 <= i < s.drop_first().len() ==> s.drop_first()[i] == s[i + 1]);
        assert(s[0int] == s[0]);
        lemma_candidates_all_known(s.drop_first(), u);
    }
}

/// A stable state produces no events: when every known asset's path is
/// on disk with its recorded hash and every scanned file's path is in
/// the inventory, one reconciliation pass emits nothing.
pub proof fn law_stable_state_no_events(u: Seq<AssetDefinitionModel>, s: Seq<AssetFileModel>)
    requires
        known_paths_distinct(u),
        file_paths_distinct(s),
        forall|i: int|
            0 <= i < u.len() ==> has_file_at_path(s, #[trigger] u[i].path) && file_at(
                s,
                u[i].path,
            ).hash == u[i].hash,
        forall|i: int| 0 <= i < s.len() ==> has_known_at_path(u, #[trigger] s[i].path),
    ensures
        reconcile_prefix(u, s) == Seq::<AssetFsEventModel>::empty(),
        reconcile_creates(u, s) == Seq::<AssetFileModel>::empty(),
{
    lemma_phase_one_form(u, s);
    assert forall|i: int| 0 <= i < s.len() implies has_known_at_path(u, #[trigger] s[i].path)
        && known_at(u, s[i].path).hash == s[i].hash by {
        lemma_first_index_with_path(u, s[i].path);
        let m = first_index_with_path(u, s[i].path);
        assert(has_file_at_path(s, u[m].path) && file_at(s, u[m].path).hash == u[m].hash);
        lemma_file_at_unique(s, i);
    }
    lemma_modify_empty(u, s);
    lemma_unmatched_all_matched(u, s);
    lemma_candidates_all_known(s, u);
    assert(reconcile_prefix(u, s) =~= Seq::<AssetFsEventModel>::empty());
    assert(reconcile_creates(u, s) =~= Seq::<AssetFileModel>::empty());
}

/// A known asset whose path is on disk with a different hash yields
/// exactly one event carrying its identifier: a `Modify` with the
/// scanned hash. Returns that event's position. (`Create` identifiers
/// are freshly generated and carry no inventory identifier.)
pub proof fn law_changed_hash_one_modify(
    u: Seq<AssetDefinitionModel>,
    s: Seq<AssetFileModel>,
    ki: int,
    si: int,
) -> (ei: int)
    requires
        known_paths_distinct(u),
        known_ids_distinct(u),
        file_paths_distinct(s),
        0 <= ki < u.len(),
        0 <= si < s.len(),
        s[si].path == u[ki].path,
        s[si].hash != u[ki].hash,
    ensures
        0 <= ei < reconcile_prefix(u, s).len(),
        reconcile_prefix(u, s)[ei] == (AssetFsEventModel::Modify {
            asset_id: u[ki].id,
            new_hash: s[si].hash,
        }),
        forall|j: int|
            0 <= j < reconcile_prefix(u, s).len() && j != ei ==> !references_id(
                #[trigger] reconcile_prefix(u, s)[j],
                u[ki].id,
            ),
{
    lemma_phase_one_form(u, s);
    let me = modify_events(u, s);
    let d = unmatched_known(u, s);
    let c = new_candidates(s, u);
    let pre = reconcile_prefix(u, s);
    let ei = lemma_modify_one(u, s, ki, si);
    lemma_phase_two_shape(d, c);
    lemma_unmatched_elements(u, s);
    lemma_file_at_unique(s, si);
    assert forall|j: int| 0 <= j < d.len() implies !references_id(
        #[trigger] phase_two(d, c).0[j],
        u[ki].id,
    ) by {
        if references_id(phase_two(d, c).0[j], u[ki].id) {
            assert(d[j].id == u[ki].id);
            assert(u.contains(d[j]));
            let m = choose|m: int| 0 <= m < u.len() && u[m] == d[j];
            if m < ki {
                assert(u[m].id != u[ki].id);
            } else if ki < m {
                assert(u[ki].id != u[m].id);
            }
            assert(m == ki);
            assert(!has_file_at_path(s, u[ki].path));
            assert(false);
        }
    }
    assert(pre == me + phase_two(d, c).0);
    assert(pre[ei] == me[ei]);
    assert forall|j: int| 0 <= j < pre.len() && j != ei implies !references_id(
        #[trigger] pre[j],
        u[ki].id,
    ) by {
        if j < me.len() {
            assert(pre[j] == me[j]);
        } else {
            assert(pre[j] == phase_two(d, c).0[j - me.len()]);
        }
    }
    ei
}

/// A known asset whose path is gone from disk and whose hash no scanned
/// file carries yields exactly one event carrying its identifier: a
/// `Delete`. Returns that event's position.
pub proof fn law_vanished_asset_one_delete(
    u: Seq<AssetDefinitionModel>,
    s: Seq<AssetFileModel>,
    ki: int,
) -> (ei: int)
    requires
        known_paths_distinct(u),
        known_ids_distinct(u),
        file_paths_distinct(s),
        0 <= ki < u.len(),
        !has_file_at_path(s, u[ki].path),
        forall|i: int| 0 <= i < s.len() ==> (#[trigger] s[i].hash) != u[ki].hash,
    ensures
        0 <= ei < reconcile_prefix(u, s).len(),
        reconcile_prefix(u, s)[ei] == (AssetFsEventModel::Delete { asset_id: u[ki].id }),
        forall|j: int|
            0 <= j < reconcile_prefix(u, s).len() && j != ei ==> !references_id(
                #[trigger] reconcile_prefix(u, s)[j],
                u[ki].id,
            ),
{
    lemma_phase_one_form(u, s);
    let me = modify_events(u, s);
    let d = unmatched_known(u, s);
    let c = new_candidates(s, u);
    let pre = reconcile_prefix(u, s);
    assert forall|i: int| 0 <= i < s.len() implies !(has_known_at_path(
        u,
        #[trigger] s[i].path,
    ) && known_at(u, s[i].path).id == u[ki].id) by {
        if has_known_at_path(u, s[i].path) {
            lemma_first_index_with_path(u, s[i].path);
            let m = first_index_with_path(u, s[i].path);
            if u[m].id == u[ki].id {
                if m < ki {
                    assert(u[m].id != u[ki].id);
                } else if ki < m {
                    assert(u[ki].id != u[m].id);
                }
                assert(m == ki);
                lemma_file_at_unique(s, i);
                assert(false);
            }
        }
    }
    lemma_modify_no_id(u, s, u[ki].id);
    let di = lemma_unmatched_index(u, s, ki);
    lemma_candidates_elements(s, u);
    assert forall|i: int| 0 <= i < c.len() implies (#[trigger] c[i].hash) != u[ki].hash by {
        assert(s.contains(c[i]));
        let m = choose|m: int| 0 <= m < s.len() && s[m] == c[i];
        assert(s[m].hash != u[ki].hash);
    }
    lemma_phase_two_delete(d, c, di);
    lemma_phase_two_shape(d, c);
    lemma_unmatched_distinct(u, s);
    lemma_unmatched_elements(u, s);
    assert forall|j: int| 0 <= j < d.len() && j != di implies !references_id(
        #[trigger] phase_two(d, c).0[j],
        u[ki].id,
    ) by {
        if references_id(phase_two(d, c).0[j], u[ki].id) {
            assert(d[j].id == u[ki].id);
            assert(d[di] == u[ki]);
            if j < di {
                assert(d[j].id != d[di].id);
            } else if di < j {
                assert(d[di].id != d[j].id);
            }
            assert(false);
        }
    }
    let ei = me.len() + di;
    assert(pre == me + phase_two(d, c).0);
    assert(pre[ei] == phase_two(d, c).0[di]);
    assert forall|j: int| 0 <= j < pre.len() && j != ei implies !references_id(
        #[trigger] pre[j],
        u[ki].id,
    ) by {
        if j < me.len() {
            assert(pre[j] == me[j]);
        } else {
            assert(pre[j] == phase_two(d, c).0[j - me.len()]);
        }
    }
    ei
}

/// A known asset whose path is gone but whose hash some unclaimed
/// scanned file carries — no other known asset sharing that hash —
/// yields exactly one event carrying its identifier: a `Rename` to the
/// first such candidate, which is consumed and never also created.
/// Returns the event's position.
pub proof fn law_moved_asset_one_rename(
    u: Seq<AssetDefinitionModel>,
    s: Seq<AssetFileModel>,
    ki: int,
    fi: int,
) -> (ei: int)
    requires
        known_paths_distinct(u),
        known_ids_distinct(u),
        file_paths_distinct(s),
        0 <= ki < u.len(),
        0 <= fi < s.len(),
        !has_file_at_path(s, u[ki].path),
        s[fi].hash == u[ki].hash,
        !has_known_at_path(u, s[fi].path),
        forall|m: int| 0 <= m < u.len() && m != ki ==> (#[trigger] u[m].hash) != u[ki].hash,
    ensures
        ({
            let pre = reconcile_prefix(u, s);
            let c = new_candidates(s, u);
            let jh = first_index_with_hash(c, u[ki].hash);
            &&& 0 <= ei < pre.len()
            &&& 0 <= jh < c.len()
            &&& pre[ei] == (AssetFsEventModel::Rename {
                asset_id: u[ki].id,
                new_path: c[jh].path,
            })
            &&& forall|j: int|
                0 <= j < pre.len() && j != ei ==> !references_id(
                    #[trigger] pre[j],
                    u[ki].id,
                )
            &&& forall|j: int|
                0 <= j < reconcile_creates(u, s).len() ==> (#[trigger] reconcile_creates(
                    u,
                    s,
                )[j].path) != c[jh].path
        }),
{
    lemma_phase_one_form(u, s);
    let me = modify_events(u, s);
    let d = unmatched_known(u, s);
    let c = new_candidates(s, u);
    let pre = reconcile_prefix(u, s);
    let h = u[ki].hash;
    assert forall|i: int| 0 <= i < s.len() implies !(has_known_at_path(
        u,
        #[trigger] s[i].path,
    ) && known_at(u, s[i].path).id == u[ki].id) by {
        if has_known_at_path(u, s[i].path) {
            lemma_first_index_with_path(u, s[i].path);
            let m = first_index_with_path(u, s[i].path);
            if u[m].id == u[ki].id {
                if m < ki {
                    assert(u[m].id != u[ki].id);
                } else if ki < m {
                    assert(u[ki].id != u[m].id);
                }
                assert(m == ki);
                lemma_file_at_unique(s, i);
                assert(false);
            }
        }
    }
    lemma_modify_no_id(u, s, u[ki].id);
    let di = lemma_unmatched_index(u, s, ki);
    let ci = lemma_candidates_index(s, u, fi);
    lemma_first_index_with_hash(c, h);
    let jh = first_index_with_hash(c, h);
    assert(c[ci].hash == h);
    assert(jh >= 0);
    lemma_unmatched_distinct(u, s);
    lemma_unmatched_elements(u, s);
    assert(d[di] == u[ki]);
    assert forall|m: int| 0 <= m < d.len() && m != di implies (#[trigger] d[m].hash)
        != h by {
        if d[m].hash == h {
            assert(u.contains(d[m]));
            let m2 = choose|m2: int| 0 <= m2 < u.len() && u[m2] == d[m];
            if m2 != ki {
                assert(u[m2].hash != u[ki].hash);
            }
            assert(m2 == ki);
            assert(d[m] == d[di]);
            if m < di {
                assert(d[m].id != d[di].id);
            } else if di < m {
                assert(d[di].id != d[m].id);
            }
            assert(false);
        }
    }
    lemma_candidates_distinct(s, u);
    lemma_phase_two_rename(d, c, di);
    lemma_phase_two_shape(d, c);
    assert forall|j: int| 0 <= j < d.len() && j != di implies !references_id(
        #[trigger] phase_two(d, c).0[j],
        u[ki].id,
    ) by {
        if references_id(phase_two(d, c).0[j], u[ki].id) {
            assert(d[j].id == u[ki].id);
            if j < di {
                assert(d[j].id != d[di].id);
            } else if di < j {
                assert(d[di].id != d[j].id);
            }
            assert(false);
        }
    }
    let ei = me.len() + di;
    assert(pre == me + phase_two(d, c).0);
    assert(pre[ei] == phase_two(d, c).0[di]);
    assert forall|j: int| 0 <= j < pre.len() && j != ei implies !references_id(
        #[trigger] pre[j],
        u[ki].id,
    ) by {
        if j < me.len() {
            assert(pre[j] == me[j]);
        } else {
            assert(pre[j] == phase_two(d, c).0[j - me.len()]);
        }
    }
    let fp = phase_two(d, c).1;
    lemma_creatable_elements(fp);
    assert forall|j: int| 0 <= j < reconcile_creates(u, s).len() implies (
    #[trigger] reconcile_creates(u, s)[j].path) != c[jh].path by {
        assert(reconcile_creates(u, s)[j] == creatable(fp)[j]);
        assert(fp.contains(creatable(fp)[j]));
        let m = choose|m: int| 0 <= m < fp.len() && fp[m] == creatable(fp)[j];
        assert(fp[m].path != c[jh].path);
    }
    ei
}

/// A scanned file at a path the inventory lacks, not consumed as a
/// rename target, with a supported extension, is created exactly once.
/// Returns its position among the created files.
pub proof fn law_new_file_one_create(
    u: Seq<AssetDefinitionModel>,
    s: Seq<AssetFileModel>,
    fi: int,
) -> (ci: int)
    requires
        known_paths_distinct(u),
        file_paths_distinct(s),
        0 <= fi < s.len(),
        !has_known_at_path(u, s[fi].path),
        asset_type_of_path(s[fi].path) is Some,
        phase_two(unmatched_known(u, s), new_candidates(s, u)).1.contains(s[fi]),
    ensures
        0 <= ci < reconcile_creates(u, s).len(),
        reconcile_creates(u, s)[ci] == s[fi],
        forall|j: int|
            0 <= j < reconcile_creates(u, s).len() && j != ci ==> (
            #[trigger] reconcile_creates(u, s)[j].path) != s[fi].path,
    decreases s.len(),
{
    lemma_phase_one_form(u, s);
    let d = unmatched_known(u, s);
    let c = new_candidates(s, u);
    let fp = phase_two(d, c).1;
    let pi = choose|pi: int| 0 <= pi < fp.len() && fp[pi] == s[fi];
    let ci = lemma_creatable_index(fp, pi);
    lemma_candidates_distinct(s, u);
    lemma_phase_two_pool_distinct(d, c);
    lemma_creatable_distinct(fp);
    assert forall|j: int| 0 <= j < reconcile_creates(u, s).len() && j != ci implies (
    #[trigger] reconcile_creates(u, s)[j].path) != s[fi].path by {
        assert(reconcile_creates(u, s)[j] == creatable(fp)[j]);
        if j < ci {
            assert(creatable(fp)[j].path != creatable(fp)[ci].path);
        } else {
            assert(creatable(fp)[ci].path != creatable(fp)[j].path);
        }
    }
    assert(reconcile_creates(u, s)[ci] == creatable(fp)[ci]);
    ci
}

} // verus!
