//! The reconciler: diffing the known-asset inventory against a fresh scan.
//!
//! `perform_asset_reconciliation` computes the ordered list of change
//! events in three phases:
//! 1. probe each scanned file by path against a removable index of the
//!    known assets — a path match with a differing hash is a `Modify`, a
//!    matching hash is an unchanged file, and an unmatched file becomes a
//!    new-file candidate;
//! 2. each known asset left unmatched is either renamed to the first
//!    candidate that shares its hash (consuming that candidate) or, when
//!    no candidate shares it, deleted;
//! 3. each candidate left over becomes a `Create`, with its category from
//!    its extension; a candidate with an unsupported extension is skipped.
//!
//! The spec functions `phase_one`, `phase_two` and `creatable` state the
//! same three phases over sequences, and the function's contract pins the
//! output to them, except for the identifiers of `Create` events, which
//! are freshly generated.

use vstd::prelude::*;

verus! {

use crate::classify::asset_type_of_path;
use crate::classify::get_asset_type;
use crate::events::AssetDefinition;
use crate::events::AssetDefinitionModel;
use crate::events::AssetFile;
use crate::events::AssetFileModel;
use crate::events::AssetFsEvent;
use crate::events::AssetFsEventModel;

/// Index of the first asset in `assets` whose path is `p`, or -1 when
/// none has it.
pub open spec fn first_index_with_path(assets: Seq<AssetDefinitionModel>, p: Seq<char>) -> int
    decreases assets.len(),
{
    if assets.len() == 0 {
        -1
    } else if assets[0].path == p {
        0
    } else if first_index_with_path(assets.drop_first(), p) == -1 {
        -1
    } else {
        first_index_with_path(assets.drop_first(), p) + 1
    }
}

pub proof fn lemma_first_index_with_path(assets: Seq<AssetDefinitionModel>, p: Seq<char>)
    ensures
        -1 <= first_index_with_path(assets, p) < assets.len(),
        first_index_with_path(assets, p) >= 0 ==> assets[first_index_with_path(assets, p)].path
            == p,
        forall|j: int|
            0 <= j < first_index_with_path(assets, p) ==> assets[j].path != p,
        first_index_with_path(assets, p) == -1 ==> forall|j: int|
            0 <= j < assets.len() ==> assets[j].path != p,
    decreases assets.len(),
{
    if assets.len() > 0 && assets[0].path != p {
        lemma_first_index_with_path(assets.drop_first(), p);
        let r = first_index_with_path(assets, p);
        if r >= 0 {
            assert forall|j: int| 0 <= j < r implies assets[j].path != p by {
                if j > 0 {
                    assert(assets.drop_first()[j - 1] == assets[j]);
                }
            }
        } else {
            assert forall|j: int| 0 <= j < assets.len() implies assets[j].path != p by {
                if j > 0 {
                    assert(assets.drop_first()[j - 1] == assets[j]);
                }
            }
        }
    }
}

pub proof fn lemma_first_index_with_path_at(
    assets: Seq<AssetDefinitionModel>,
    p: Seq<char>,
    i: int,
)
    requires
        0 <= i < assets.len(),
        assets[i].path == p,
        forall|j: int| 0 <= j < i ==> assets[j].path != p,
    ensures
        first_index_with_path(assets, p) == i,
    decreases assets.len(),
{
    if i > 0 {
        assert(forall|j: int|
            0 <= j < assets.drop_first().len() ==> assets.drop_first()[j] == assets[j + 1]);
        lemma_first_index_with_path_at(assets.drop_first(), p, i - 1);
    }
}

/// Index of the first file in `pool` whose hash is `h`, or -1 when none
/// has it.
pub open spec fn first_index_with_hash(pool: Seq<AssetFileModel>, h: Seq<char>) -> int
    decreases pool.len(),
{
    if pool.len() == 0 {
        -1
    } else if pool[0].hash == h {
        0
    } else if first_index_with_hash(pool.drop_first(), h) == -1 {
        -1
    } else {
        first_index_with_hash(pool.drop_first(), h) + 1
    }
}

pub proof fn lemma_first_index_with_hash(pool: Seq<AssetFileModel>, h: Seq<char>)
    ensures
        -1 <= first_index_with_hash(pool, h) < pool.len(),
        first_index_with_hash(pool, h) >= 0 ==> pool[first_index_with_hash(pool, h)].hash == h,
        forall|j: int| 0 <= j < first_index_with_hash(pool, h) ==> pool[j].hash != h,
        first_index_with_hash(pool, h) == -1 ==> forall|j: int|
            0 <= j < pool.len() ==> pool[j].hash != h,
    decreases pool.len(),
{
    if pool.len() > 0 && pool[0].hash != h {
        lemma_first_index_with_hash(pool.drop_first(), h);
        let r = first_index_with_hash(pool, h);
        if r >= 0 {
            assert forall|j: int| 0 <= j < r implies pool[j].hash != h by {
                if j > 0 {
                    assert(pool.drop_first()[j - 1] == pool[j]);
                }
            }
        } else {
            assert forall|j: int| 0 <= j < pool.len() implies pool[j].hash != h by {
                if j > 0 {
                    assert(pool.drop_first()[j - 1] == pool[j]);
                }
            }
        }
    }
}

pub proof fn lemma_first_index_with_hash_at(pool: Seq<AssetFileModel>, h: Seq<char>, i: int)
    requires
        0 <= i < pool.len(),
        pool[i].hash == h,
        forall|j: int| 0 <= j < i ==> pool[j].hash != h,
    ensures
        first_index_with_hash(pool, h) == i,
    decreases pool.len(),
{
    if i > 0 {
        assert(forall|j: int|
            0 <= j < pool.drop_first().len() ==> pool.drop_first()[j] == pool[j + 1]);
        lemma_first_index_with_hash_at(pool.drop_first(), h, i - 1);
    }
}

/// Phase 1: probe each scanned file by path against the removable index
/// `unchecked`. Returns the `Modify` events in scan order, the known
/// assets never matched by path, and the new-file candidates in scan
/// order.
pub open spec fn phase_one(unchecked: Seq<AssetDefinitionModel>, scanned: Seq<AssetFileModel>) -> (
    Seq<AssetFsEventModel>,
    Seq<AssetDefinitionModel>,
    Seq<AssetFileModel>,
)
    decreases scanned.len(),
{
    if scanned.len() == 0 {
        (Seq::empty(), unchecked, Seq::empty())
    } else {
        let f = scanned[0];
        let j = first_index_with_path(unchecked, f.path);
        if j >= 0 {
            let k = unchecked[j];
            let rest = phase_one(unchecked.remove(j), scanned.drop_first());
            if k.hash != f.hash {
                (
                    seq![AssetFsEventModel::Modify { asset_id: k.id, new_hash: f.hash }] + rest.0,
                    rest.1,
                    rest.2,
                )
            } else {
                rest
            }
        } else {
            let rest = phase_one(unchecked, scanned.drop_first());
            (rest.0, rest.1, seq![f] + rest.2)
        }
    }
}

/// Phase 2: each asset in `deleted` is renamed to the first candidate in
/// the pool that shares its hash, consuming it, or deleted when none
/// does. Returns the `Rename`/`Delete` events in `deleted` order and the
/// candidates left in the pool.
pub open spec fn phase_two(deleted: Seq<AssetDefinitionModel>, pool: Seq<AssetFileModel>) -> (
    Seq<AssetFsEventModel>,
    Seq<AssetFileModel>,
)
    decreases deleted.len(),
{
    if deleted.len() == 0 {
        (Seq::empty(), pool)
    } else {
        let d = deleted[0];
        let j = first_index_with_hash(pool, d.hash);
        if j >= 0 {
            let rest = phase_two(deleted.drop_first(), pool.remove(j));
            (
                seq![AssetFsEventModel::Rename { asset_id: d.id, new_path: pool[j].path }]
                    + rest.0,
                rest.1,
            )
        } else {
            let rest = phase_two(deleted.drop_first(), pool);
            (seq![AssetFsEventModel::Delete { asset_id: d.id }] + rest.0, rest.1)
        }
    }
}

/// The candidates of `pool` that carry a supported extension, in order:
/// exactly those that become `Create` events.
pub open spec fn creatable(pool: Seq<AssetFileModel>) -> Seq<AssetFileModel>
    decreases pool.len(),
{
    if pool.len() == 0 {
        Seq::empty()
    } else if asset_type_of_path(pool[0].path) is Some {
        seq![pool[0]] + creatable(pool.drop_first())
    } else {
        creatable(pool.drop_first())
    }
}

/// All events of one reconciliation pass except the `Create`s: the
/// `Modify` events in scan order, then one `Rename` or `Delete` per
/// unmatched known asset, in inventory order.
pub open spec fn reconcile_prefix(
    known: Seq<AssetDefinitionModel>,
    scanned: Seq<AssetFileModel>,
) -> Seq<AssetFsEventModel> {
    let p1 = phase_one(known, scanned);
    p1.0 + phase_two(p1.1, p1.2).0
}

/// The files that one reconciliation pass emits `Create` events for, in
/// order: the candidates not consumed by a rename whose extension is
/// supported.
pub open spec fn reconcile_creates(
    known: Seq<AssetDefinitionModel>,
    scanned: Seq<AssetFileModel>,
) -> Seq<AssetFileModel> {
    let p1 = phase_one(known, scanned);
    creatable(phase_two(p1.1, p1.2).1)
}

/// `e` is a `Create` event for the file `f`: same path and hash, and the
/// category that `f`'s extension classifies to.
pub open spec fn is_create_for(e: AssetFsEventModel, f: AssetFileModel) -> bool {
    match e {
        AssetFsEventModel::Create { asset_id, path, hash, asset_type } => {
            path == f.path && hash == f.hash && asset_type_of_path(f.path) == Some(asset_type)
        },
        _ => false,
    }
}

/// Relies on uuid::Uuid::new_v4 for a freshly generated random
/// identifier; nothing is assumed of the value.
#[verifier::external_body]
fn new_asset_id() -> u128 {
    uuid::Uuid::new_v4().as_u128()
}

/// Find the first asset in `assets` whose path equals `path`.
fn find_index_with_path(assets: &Vec<AssetDefinition>, path: &String) -> (r: Option<usize>)
    ensures
        match r {
            Some(i) => 0 <= i < assets@.len() && first_index_with_path(assets.deep_view(), path@)
                == i as int,
            None => first_index_with_path(assets.deep_view(), path@) == -1,
        },
{
    let ghost dv = assets.deep_view();
    let mut i: usize = 0;
    while i < assets.len()
        invariant
            i <= assets@.len(),
            dv == assets.deep_view(),
            dv.len() == assets@.len(),
            forall|j: int| 0 <= j < i ==> dv[j].path != path@,
        decreases assets@.len() - i,
    {
        if assets[i].path == *path {
            proof {
                assert(dv[i as int].path == path@);
                lemma_first_index_with_path_at(dv, path@, i as int);
            }
            return Some(i);
        }
        proof {
            assert(dv[i as int].path == assets@[i as int]@.path);
        }
        i = i + 1;
    }
    proof {
        lemma_first_index_with_path(dv, path@);
        if first_index_with_path(dv, path@) >= 0 {
            assert(dv[first_index_with_path(dv, path@)].path == path@);
        }
    }
    None
}

/// Find the first file in `pool` whose hash equals `hash`.
fn find_index_with_hash(pool: &Vec<AssetFile>, hash: &String) -> (r: Option<usize>)
    ensures
        match r {
            Some(i) => 0 <= i < pool@.len() && first_index_with_hash(pool.deep_view(), hash@)
                == i as int,
            None => first_index_with_hash(pool.deep_view(), hash@) == -1,
        },
{
    let ghost dv = pool.deep_view();
    let mut i: usize = 0;
    while i < pool.len()
        invariant
            i <= pool@.len(),
            dv == pool.deep_view(),
            dv.len() == pool@.len(),
            forall|j: int| 0 <= j < i ==> dv[j].hash != hash@,
        decreases pool@.len() - i,
    {
        if pool[i].hash == *hash {
            proof {
                assert(dv[i as int].hash == hash@);
                lemma_first_index_with_hash_at(dv, hash@, i as int);
            }
            return Some(i);
        }
        proof {
            assert(dv[i as int].hash == pool@[i as int]@.hash);
        }
        i = i + 1;
    }
    proof {
        lemma_first_index_with_hash(dv, hash@);
        if first_index_with_hash(dv, hash@) >= 0 {
            assert(dv[first_index_with_hash(dv, hash@)].hash == hash@);
        }
    }
    None
}

/// One reconciliation pass: diff the known-asset inventory against the
/// scanned files and return the change events, `Modify` first, then
/// `Rename`/`Delete`, then `Create`.
///
/// The contract pins every event except the identifiers of the `Create`
/// events, which are freshly generated.
pub fn perform_asset_reconciliation(
    known: &Vec<AssetDefinition>,
    scanned: &Vec<AssetFile>,
) -> (events: Vec<AssetFsEvent>)
    ensures
        ({
            let pre = reconcile_prefix(known.deep_view(), scanned.deep_view());
            let cr = reconcile_creates(known.deep_view(), scanned.deep_view());
            &&& events.deep_view().len() == pre.len() + cr.len()
            &&& events.deep_view().take(pre.len() as int) == pre
            &&& forall|i: int|
                0 <= i < cr.len() ==> is_create_for(
                    events.deep_view()[pre.len() + i],
                    cr[i],
                )
        }),
{
    let ghost kdv = known.deep_view();
    let ghost sdv = scanned.deep_view();

    let mut events: Vec<AssetFsEvent> = Vec::new();

    // The removable index of known assets, probed and pruned by path.
    let mut unchecked: Vec<AssetDefinition> = Vec::new();
    let mut ci: usize = 0;
    while ci < known.len()
        invariant
            ci <= known@.len(),
            unchecked@ == known@.take(ci as int),
        decreases known@.len() - ci,
    {
        let a = known[ci].clone();
        unchecked.push(a);
        proof {
            assert(unchecked@ =~= known@.take(ci as int + 1));
        }
        ci = ci + 1;
    }
    proof {
        assert(known@.take(known@.len() as int) =~= known@);
        assert(unchecked.deep_view() =~= kdv);
    }

    let mut new_files: Vec<AssetFile> = Vec::new();

    let ghost full1 = phase_one(kdv, sdv);

    proof {
        assert(sdv.skip(0) =~= sdv);
        assert(events.deep_view() =~= Seq::<AssetFsEventModel>::empty());
        assert(new_files.deep_view() =~= Seq::<AssetFileModel>::empty());
        assert(Seq::<AssetFsEventModel>::empty() + full1.0 =~= full1.0);
        assert(Seq::<AssetFileModel>::empty() + full1.2 =~= full1.2);
    }

    // Phase 1: find modifications and new-file candidates.
    let mut t: usize = 0;
    while t < scanned.len()
        invariant
            t <= sdv.len(),
            sdv == scanned.deep_view(),
            sdv.len() == scanned@.len(),
            full1 == phase_one(kdv, sdv),
            ({
                let sub = phase_one(unchecked.deep_view(), sdv.skip(t as int));
                &&& full1.0 == events.deep_view() + sub.0
                &&& full1.1 == sub.1
                &&& full1.2 == new_files.deep_view() + sub.2
            }),
        decreases scanned@.len() - t,
    {
        let ghost u_old = unchecked.deep_view();
        let ghost e_old = events.deep_view();
        let ghost n_old = new_files.deep_view();
        let ghost sk = sdv.skip(t as int);
        proof {
            assert(sk.len() > 0);
            assert(sk[0] == sdv[t as int]);
            assert(sk.drop_first() =~= sdv.skip(t as int + 1));
            assert(sdv[t as int] == scanned@[t as int]@);
        }
        match find_index_with_path(&unchecked, &scanned[t].path) {
            Some(j) => {
                let same_hash = unchecked[j].hash == scanned[t].hash;
                if !same_hash {
                    let ev = AssetFsEvent::Modify {
                        asset_id: unchecked[j].id,
                        new_hash: scanned[t].hash.clone(),
                    };
                    events.push(ev);
                }
                unchecked.remove(j);
                proof {
                    assert(unchecked.deep_view() =~= u_old.remove(j as int));
                    let rest = phase_one(u_old.remove(j as int), sk.drop_first());
                    if !same_hash {
                        let m = AssetFsEventModel::Modify {
                            asset_id: u_old[j as int].id,
                            new_hash: sk[0].hash,
                        };
                        assert(events.deep_view() =~= e_old + seq![m]);
                        assert(phase_one(u_old, sk).0 =~= seq![m] + rest.0);
                        assert(e_old + (seq![m] + rest.0) =~= (e_old + seq![m]) + rest.0);
                    }
                }
            },
            None => {
                let f = scanned[t].clone();
                new_files.push(f);
                proof {
                    let rest = phase_one(u_old, sk.drop_first());
                    assert(new_files.deep_view() =~= n_old + seq![sk[0]]);
                    assert(phase_one(u_old, sk).2 =~= seq![sk[0]] + rest.2);
                    assert(n_old + (seq![sk[0]] + rest.2) =~= (n_old + seq![sk[0]]) + rest.2);
                }
            },
        }
        t = t + 1;
    }
    proof {
        let sub = phase_one(unchecked.deep_view(), sdv.skip(sdv.len() as int));
        assert(sdv.skip(sdv.len() as int).len() == 0);
        assert(full1.0 =~= events.deep_view());
        assert(full1.2 =~= new_files.deep_view());
    }

    // Phase 2: resolve the unmatched known assets into renames and
    // deletions.
    let ghost del = unchecked.deep_view();
    let ghost pool1 = new_files.deep_view();
    let ghost e1 = events.deep_view();
    let ghost full2 = phase_two(del, pool1);

    proof {
        assert(del.skip(0) =~= del);
        assert(events.deep_view().skip(e1.len() as int) =~= Seq::<AssetFsEventModel>::empty());
        assert(Seq::<AssetFsEventModel>::empty() + full2.0 =~= full2.0);
        assert(events.deep_view().take(e1.len() as int) =~= e1);
    }

    let mut t2: usize = 0;
    while t2 < unchecked.len()
        invariant
            t2 <= del.len(),
            del == unchecked.deep_view(),
            del.len() == unchecked@.len(),
            full2 == phase_two(del, pool1),
            e1.len() <= events.deep_view().len(),
            events.deep_view().take(e1.len() as int) == e1,
            ({
                let sub = phase_two(del.skip(t2 as int), new_files.deep_view());
                &&& full2.0 == events.deep_view().skip(e1.len() as int) + sub.0
                &&& full2.1 == sub.1
            }),
        decreases unchecked@.len() - t2,
    {
        let ghost p_old = new_files.deep_view();
        let ghost e_old = events.deep_view();
        let ghost dk = del.skip(t2 as int);
        proof {
            assert(dk.len() > 0);
            assert(dk[0] == del[t2 as int]);
            assert(dk.drop_first() =~= del.skip(t2 as int + 1));
            assert(del[t2 as int] == unchecked@[t2 as int]@);
        }
        match find_index_with_hash(&new_files, &unchecked[t2].hash) {
            Some(j) => {
                let ev = AssetFsEvent::Rename {
                    asset_id: unchecked[t2].id,
                    new_path: new_files[j].path.clone(),
                };
                events.push(ev);
                new_files.remove(j);
                proof {
                    let m = AssetFsEventModel::Rename {
                        asset_id: dk[0].id,
                        new_path: p_old[j as int].path,
                    };
                    let rest = phase_two(dk.drop_first(), p_old.remove(j as int));
                    assert(new_files.deep_view() =~= p_old.remove(j as int));
                    assert(events.deep_view() =~= e_old + seq![m]);
                    assert(phase_two(dk, p_old).0 =~= seq![m] + rest.0);
                    assert(events.deep_view().take(e1.len() as int) =~= e1);
                    assert(events.deep_view().skip(e1.len() as int) =~= e_old.skip(
                        e1.len() as int,
                    ) + seq![m]);
                    assert(e_old.skip(e1.len() as int) + (seq![m] + rest.0) =~= (e_old.skip(
                        e1.len() as int,
                    ) + seq![m]) + rest.0);
                }
            },
            None => {
                let ev = AssetFsEvent::Delete { asset_id: unchecked[t2].id };
                events.push(ev);
                proof {
                    let m = AssetFsEventModel::Delete { asset_id: dk[0].id };
                    let rest = phase_two(dk.drop_first(), p_old);
                    assert(events.deep_view() =~= e_old + seq![m]);
                    assert(phase_two(dk, p_old).0 =~= seq![m] + rest.0);
                    assert(events.deep_view().take(e1.len() as int) =~= e1);
                    assert(events.deep_view().skip(e1.len() as int) =~= e_old.skip(
                        e1.len() as int,
                    ) + seq![m]);
                    assert(e_old.skip(e1.len() as int) + (seq![m] + rest.0) =~= (e_old.skip(
                        e1.len() as int,
                    ) + seq![m]) + rest.0);
                }
            },
        }
        t2 = t2 + 1;
    }
    proof {
        assert(del.skip(del.len() as int).len() == 0);
        assert(full2.0 =~= events.deep_view().skip(e1.len() as int));
        assert(full2.1 =~= new_files.deep_view());
        assert(events.deep_view() =~= e1 + full2.0);
    }

    // Phase 3: the candidates that survived become creations.
    let ghost pool2 = new_files.deep_view();
    let ghost e2 = events.deep_view();
    let ghost crs = creatable(pool2);
    let ghost mut done: Seq<AssetFileModel> = Seq::empty();
    let ghost mut create_evs: Seq<AssetFsEventModel> = Seq::empty();

    proof {
        assert(pool2.skip(0) =~= pool2);
        assert(done + creatable(pool2) =~= creatable(pool2));
        assert(e2 + create_evs =~= e2);
    }

    let mut t3: usize = 0;
    while t3 < new_files.len()
        invariant
            t3 <= pool2.len(),
            pool2 == new_files.deep_view(),
            pool2.len() == new_files@.len(),
            crs == creatable(pool2),
            crs == done + creatable(pool2.skip(t3 as int)),
            events.deep_view() == e2 + create_evs,
            create_evs.len() == done.len(),
            forall|i: int| 0 <= i < done.len() ==> is_create_for(create_evs[i], done[i]),
        decreases new_files@.len() - t3,
    {
        let ghost pk = pool2.skip(t3 as int);
        proof {
            assert(pk.len() > 0);
            assert(pk[0] == pool2[t3 as int]);
            assert(pk.drop_first() =~= pool2.skip(t3 as int + 1));
            assert(pool2[t3 as int] == new_files@[t3 as int]@);
        }
        match get_asset_type(new_files[t3].path.as_str()) {
            Some(ty) => {
                let ev = AssetFsEvent::Create {
                    asset_id: new_asset_id(),
                    path: new_files[t3].path.clone(),
                    hash: new_files[t3].hash.clone(),
                    asset_type: ty,
                };
                let ghost e_old = events.deep_view();
                events.push(ev);
                proof {
                    let evm = ev@;
                    assert(events.deep_view() =~= e_old + seq![evm]);
                    assert(creatable(pk) =~= seq![pk[0]] + creatable(pk.drop_first()));
                    assert(is_create_for(evm, pk[0]));
                    done = done.push(pk[0]);
                    create_evs = create_evs.push(evm);
                    assert(events.deep_view() =~= e2 + create_evs);
                    assert(done + creatable(pool2.skip(t3 as int + 1)) =~= crs);
                }
            },
            None => {
                proof {
                    assert(creatable(pk) =~= creatable(pk.drop_first()));
                }
            },
        }
        t3 = t3 + 1;
    }
    proof {
        assert(pool2.skip(pool2.len() as int).len() == 0);
        assert(creatable(pool2.skip(pool2.len() as int)) =~= Seq::<AssetFileModel>::empty());
        assert(done =~= crs);
        let pre = reconcile_prefix(kdv, sdv);
        let cr = reconcile_creates(kdv, sdv);
        assert(pre =~= e2);
        assert(cr == crs);
        assert(events.deep_view().take(pre.len() as int) =~= pre);
        assert(forall|i: int|
            0 <= i < cr.len() ==> events.deep_view()[pre.len() + i] == create_evs[i]);
    }
    events
}

} // verus!
