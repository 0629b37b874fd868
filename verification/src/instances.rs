//! Per-mesh grouping of render instances. Every collider is drawn as a
//! scaled copy of one unit mesh; instances are batched per mesh so that each
//! mesh is drawn with a single instanced call.

use vstd::prelude::*;

use crate::mesh::{drawable_meshes, MeshId, MESH_COUNT};

verus! {

/// The payloads of `items` that are drawn with mesh `m`, in order.
pub open spec fn bucket<T>(items: Seq<(MeshId, T)>, m: MeshId) -> Seq<T>
    decreases items.len(),
{
    if items.len() == 0 {
        Seq::empty()
    } else {
        let rest = bucket(items.drop_last(), m);
        if items.last().0 == m {
            rest.push(items.last().1)
        } else {
            rest
        }
    }
}

/// For each mesh of `ids`, in order, the mesh and its bucket, leaving out
/// meshes whose bucket is empty.
pub open spec fn grouped<T>(items: Seq<(MeshId, T)>, ids: Seq<MeshId>) -> Seq<(MeshId, Seq<T>)>
    decreases ids.len(),
{
    if ids.len() == 0 {
        Seq::empty()
    } else {
        let before = grouped(items, ids.drop_last());
        let b = bucket(items, ids.last());
        if b.len() > 0 {
            before.push((ids.last(), b))
        } else {
            before
        }
    }
}

/// The groups of a model frame, with each group's instances seen as a
/// sequence.
pub open spec fn frame_view<T>(frame: Seq<(MeshId, Vec<T>)>) -> Seq<(MeshId, Seq<T>)> {
    frame.map_values(|g: (MeshId, Vec<T>)| (g.0, g.1@))
}

proof fn lemma_bucket_step<T>(items: Seq<(MeshId, T)>, t: int, m: MeshId)
    requires
        0 <= t < items.len(),
    ensures
        bucket(items.take(t + 1), m) == if items[t].0 == m {
            bucket(items.take(t), m).push(items[t].1)
        } else {
            bucket(items.take(t), m)
        },
{
    assert(items.take(t + 1).drop_last() =~= items.take(t));
}

fn collect_bucket<T: Copy>(items: &Vec<(MeshId, T)>, m: MeshId) -> (b: Vec<T>)
    ensures
        b@ == bucket(items@, m),
{
    let mut b: Vec<T> = Vec::new();
    let mut t: usize = 0;
    while t < items.len()
        invariant
            t <= items@.len(),
            b@ == bucket(items@.take(t as int), m),
        decreases items@.len() - t,
    {
        proof {
            lemma_bucket_step(items@, t as int, m);
        }
        if items[t].0 == m {
            b.push(items[t].1);
        }
        t = t + 1;
    }
    assert(items@.take(items@.len() as int) =~= items@);
    b
}

/// Batches instances by the mesh they are drawn with: one group per mesh
/// that has at least one instance, groups in mesh order, and within a group
/// the instances in their original order.
pub fn group_instances_by_mesh<T: Copy>(items: &Vec<(MeshId, T)>) -> (groups: Vec<(MeshId, Vec<T>)>)
    requires
        forall|k: int| 0 <= k < items@.len() ==> (#[trigger] items@[k]).0.is_drawable(),
    ensures
        frame_view(groups@) == grouped(items@, drawable_meshes()),
        forall|g: int|
            0 <= g < groups@.len() ==> (#[trigger] groups@[g]).1@ == bucket(items@, groups@[g].0),
        forall|k: int|
            0 <= k < items@.len() ==> exists|g: int|
                0 <= g < groups@.len() && (#[trigger] groups@[g]).0 == (#[trigger] items@[k]).0,
{
    let ids = MeshId::all_mesh_ids();
    let mut groups: Vec<(MeshId, Vec<T>)> = Vec::new();
    let mut k: usize = 0;
    while k < ids.len()
        invariant
            k <= ids@.len(),
            ids@ == drawable_meshes(),
            frame_view(groups@) == grouped(items@, ids@.take(k as int)),
        decreases ids@.len() - k,
    {
        let m = ids[k];
        let b = collect_bucket(items, m);
        let ghost before = groups@;
        assert(ids@.take(k + 1).drop_last() =~= ids@.take(k as int));
        if b.len() > 0 {
            groups.push((m, b));
            assert(frame_view(groups@) =~= frame_view(before).push((m, b@)));
        }
        k = k + 1;
    }
    assert(ids@.take(ids@.len() as int) =~= ids@);
    proof {
        let gs = grouped(items@, drawable_meshes());
        lemma_grouped_entries(items@, drawable_meshes());
        lemma_groups_hold_their_mesh(items@);
        assert forall|g: int| 0 <= g < groups@.len() implies (#[trigger] groups@[g]).1@ == bucket(
            items@,
            groups@[g].0,
        ) by {
            assert(frame_view(groups@)[g] == gs[g]);
        }
        assert forall|k: int| 0 <= k < items@.len() implies exists|g: int|
            0 <= g < groups@.len() && (#[trigger] groups@[g]).0 == (#[trigger] items@[k]).0 by {
            let g = choose|g: int| 0 <= g < gs.len() && (#[trigger] gs[g]).0 == items@[k].0;
            assert(frame_view(groups@)[g] == gs[g]);
        }
    }
    groups
}


proof fn lemma_bucket_nonempty<T>(items: Seq<(MeshId, T)>, m: MeshId)
    ensures
        bucket(items, m).len() > 0 <==> exists|k: int| 0 <= k < items.len() && (#[trigger] items[k]).0 == m,
    decreases items.len(),
{
    if items.len() > 0 {
        let rest = items.drop_last();
        lemma_bucket_nonempty(rest, m);
        if exists|k: int| 0 <= k < rest.len() && (#[trigger] rest[k]).0 == m {
            let k = choose|k: int| 0 <= k < rest.len() && (#[trigger] rest[k]).0 == m;
            assert(items[k] == rest[k]);
        }
        if exists|k: int| 0 <= k < items.len() && (#[trigger] items[k]).0 == m {
            let k = choose|k: int| 0 <= k < items.len() && (#[trigger] items[k]).0 == m;
            if k < rest.len() {
                assert(rest[k] == items[k]);
            } else {
                assert(items.last() == items[k]);
            }
        }
    }
}

/// A mesh's bucket is the sequence of payloads of the items drawn with it,
/// in their order: the items filtered by mesh, then stripped of the mesh.
pub proof fn lemma_bucket_is_filtered_items<T>(items: Seq<(MeshId, T)>, m: MeshId)
    ensures
        bucket(items, m) == items.filter(|p: (MeshId, T)| p.0 == m).map_values(
            |p: (MeshId, T)| p.1,
        ),
    decreases items.len(),
{
    reveal(Seq::filter);
    if items.len() > 0 {
        lemma_bucket_is_filtered_items(items.drop_last(), m);
        let rest = items.drop_last().filter(|p: (MeshId, T)| p.0 == m);
        assert(items.filter(|p: (MeshId, T)| p.0 == m) == if items.last().0 == m {
            rest.push(items.last())
        } else {
            rest
        });
        if items.last().0 == m {
            assert(rest.push(items.last()).map_values(|p: (MeshId, T)| p.1) =~= rest.map_values(
                |p: (MeshId, T)| p.1,
            ).push(items.last().1));
        }
    } else {
        assert(items.filter(|p: (MeshId, T)| p.0 == m).map_values(|p: (MeshId, T)| p.1)
            =~= Seq::<T>::empty());
    }
}

proof fn lemma_grouped_entries<T>(items: Seq<(MeshId, T)>, ids: Seq<MeshId>)
    ensures
        forall|g: int|
            0 <= g < grouped(items, ids).len() ==> (#[trigger] grouped(items, ids)[g]).1 == bucket(
                items,
                grouped(items, ids)[g].0,
            ),
        forall|i: int|
            0 <= i < ids.len() && bucket(items, #[trigger] ids[i]).len() > 0 ==> exists|g: int|
                0 <= g < grouped(items, ids).len() && (#[trigger] grouped(items, ids)[g]).0 == ids[i],
    decreases ids.len(),
{
    if ids.len() > 0 {
        let rest = ids.drop_last();
        lemma_grouped_entries(items, rest);
        let before = grouped(items, rest);
        let now = grouped(items, ids);
        let b = bucket(items, ids.last());
        assert forall|g: int| 0 <= g < now.len() implies (#[trigger] now[g]).1 == bucket(
            items,
            now[g].0,
        ) by {
            if g < before.len() {
                assert(now[g] == before[g]);
            }
        }
        assert forall|i: int| 0 <= i < ids.len() && bucket(items, #[trigger] ids[i]).len() > 0 implies exists|g: int|
            0 <= g < now.len() && (#[trigger] now[g]).0 == ids[i] by {
            if i < rest.len() {
                assert(rest[i] == ids[i]);
                let g = choose|g: int| 0 <= g < before.len() && (#[trigger] before[g]).0 == rest[i];
                assert(now[g] == before[g]);
            } else {
                assert(now[now.len() - 1].0 == ids[i]);
            }
        }
    }
}

/// What each group holds: the group of mesh `m` holds exactly the payloads
/// of the items drawn with `m`, in their order, and every mesh that some
/// item is drawn with has a group.
pub proof fn lemma_groups_hold_their_mesh<T>(items: Seq<(MeshId, T)>)
    requires
        forall|k: int| 0 <= k < items.len() ==> (#[trigger] items[k]).0.is_drawable(),
    ensures
        forall|g: int|
            0 <= g < grouped(items, drawable_meshes()).len() ==> (#[trigger] grouped(
                items,
                drawable_meshes(),
            )[g]).1 == items.filter(|p: (MeshId, T)| p.0 == grouped(items, drawable_meshes())[g].0).map_values(
                |p: (MeshId, T)| p.1,
            ),
        forall|k: int|
            0 <= k < items.len() ==> exists|g: int|
                0 <= g < grouped(items, drawable_meshes()).len() && (#[trigger] grouped(
                    items,
                    drawable_meshes(),
                )[g]).0 == (#[trigger] items[k]).0,
{
    let ids = drawable_meshes();
    let gs = grouped(items, ids);
    lemma_grouped_entries(items, ids);
    assert forall|g: int| 0 <= g < gs.len() implies (#[trigger] gs[g]).1 == items.filter(
        |p: (MeshId, T)| p.0 == gs[g].0,
    ).map_values(|p: (MeshId, T)| p.1) by {
        let m = gs[g].0;
        lemma_bucket_is_filtered_items(items, m);
        assert((|p: (MeshId, T)| p.0 == m) =~= (|p: (MeshId, T)| p.0 == gs[g].0));
        assert(gs[g].1 == bucket(items, m));
    }
    assert forall|k: int| 0 <= k < items.len() implies exists|g: int|
        0 <= g < gs.len() && (#[trigger] gs[g]).0 == (#[trigger] items[k]).0 by {
        let m = items[k].0;
        lemma_bucket_nonempty(items, m);
        assert(ids[0] == MeshId::Cube && ids[1] == MeshId::Sphere && ids[2] == MeshId::Cylinder);
        let i: int = if m == MeshId::Cube { 0 } else if m == MeshId::Sphere { 1 } else { 2 };
        assert(ids[i] == m);
        assert(bucket(items, ids[i]).len() > 0);
    }
}

/// Total number of instances of a model frame.
pub open spec fn frame_size<T>(frame: Seq<(MeshId, Seq<T>)>) -> nat
    decreases frame.len(),
{
    if frame.len() == 0 {
        0
    } else {
        frame_size(frame.drop_last()) + frame.last().1.len()
    }
}

proof fn lemma_buckets_partition<T>(items: Seq<(MeshId, T)>)
    requires
        forall|k: int| 0 <= k < items.len() ==> (#[trigger] items[k]).0.is_drawable(),
    ensures
        bucket(items, MeshId::Cube).len() + bucket(items, MeshId::Sphere).len() + bucket(
            items,
            MeshId::Cylinder,
        ).len() == items.len(),
    decreases items.len(),
{
    if items.len() > 0 {
        assert(items.last() == items[items.len() - 1]);
        assert forall|k: int| 0 <= k < items.drop_last().len() implies (#[trigger] items.drop_last()[k]).0.is_drawable() by {
            assert(items.drop_last()[k] == items[k]);
        }
        lemma_buckets_partition(items.drop_last());
    }
}

/// Grouping loses and duplicates no instance: the groups hold as many
/// instances as there were items, every group is non-empty, and the groups
/// are in mesh order with no mesh twice.
pub proof fn lemma_grouping_keeps_every_instance<T>(items: Seq<(MeshId, T)>)
    requires
        forall|k: int| 0 <= k < items.len() ==> (#[trigger] items[k]).0.is_drawable(),
    ensures
        frame_size(grouped(items, drawable_meshes())) == items.len(),
        forall|g: int|
            0 <= g < grouped(items, drawable_meshes()).len() ==> (#[trigger] grouped(
                items,
                drawable_meshes(),
            )[g]).1.len() > 0,
        forall|g: int, h: int|
            0 <= g < h < grouped(items, drawable_meshes()).len() ==> (#[trigger] grouped(
                items,
                drawable_meshes(),
            )[g]).0.slot() < (#[trigger] grouped(items, drawable_meshes())[h]).0.slot(),
{
    lemma_buckets_partition(items);
    let ids = drawable_meshes();
    let i1 = ids.drop_last().drop_last();
    let i2 = ids.drop_last();
    assert(i1.drop_last() =~= Seq::<MeshId>::empty());
    assert(i1.last() == MeshId::Cube);
    assert(i2.last() == MeshId::Sphere);
    assert(ids.last() == MeshId::Cylinder);
    let g0 = grouped(items, i1.drop_last());
    let g1 = grouped(items, i1);
    let g2 = grouped(items, i2);
    let g3 = grouped(items, ids);
    assert(g0.len() == 0);
    assert(frame_size(g0) == 0);
    assert(frame_size(g1) == bucket(items, MeshId::Cube).len()) by {
        if bucket(items, MeshId::Cube).len() > 0 {
            assert(g1.drop_last() =~= g0);
        }
    }
    assert(frame_size(g2) == frame_size(g1) + bucket(items, MeshId::Sphere).len()) by {
        if bucket(items, MeshId::Sphere).len() > 0 {
            assert(g2.drop_last() =~= g1);
        }
    }
    assert(frame_size(g3) == frame_size(g2) + bucket(items, MeshId::Cylinder).len()) by {
        if bucket(items, MeshId::Cylinder).len() > 0 {
            assert(g3.drop_last() =~= g2);
        }
    }
    assert forall|g: int| 0 <= g < g3.len() implies (#[trigger] g3[g]).1.len() > 0 && (g3[g].0
        == MeshId::Cube || g3[g].0 == MeshId::Sphere || g3[g].0 == MeshId::Cylinder) && (g3[g].0
        == MeshId::Cube ==> g == 0) && (g3[g].0 == MeshId::Sphere ==> g <= 1) && (g3[g].0
        == MeshId::Cylinder ==> g == g3.len() - 1) by {
        if g < g2.len() {
            assert(g3[g] == g2[g]);
            if g < g1.len() {
                assert(g2[g] == g1[g]);
                assert(g == 0);
            } else {
                assert(g == g1.len());
            }
        }
    }
}

/// Per-mesh instance lists after appending the groups of `frame`, in order,
/// to `holders`.
pub open spec fn merged<T>(holders: Seq<Seq<T>>, frame: Seq<(MeshId, Seq<T>)>) -> Seq<Seq<T>>
    decreases frame.len(),
{
    if frame.len() == 0 {
        holders
    } else {
        let before = merged(holders, frame.drop_last());
        let slot: int = frame.last().0.slot() as int;
        before.update(slot, before[slot] + frame.last().1)
    }
}

/// How many groups of `frame` found their mesh's list still empty when
/// they were appended.
pub open spec fn opened<T>(holders: Seq<Seq<T>>, frame: Seq<(MeshId, Seq<T>)>) -> nat
    decreases frame.len(),
{
    if frame.len() == 0 {
        0
    } else {
        let before = merged(holders, frame.drop_last());
        opened(holders, frame.drop_last()) + if before[frame.last().0.slot() as int].len() == 0 {
            1nat
        } else {
            0nat
        }
    }
}

proof fn lemma_merged_len<T>(holders: Seq<Seq<T>>, frame: Seq<(MeshId, Seq<T>)>)
    requires
        holders.len() == MESH_COUNT,
        forall|k: int| 0 <= k < frame.len() ==> (#[trigger] frame[k]).0.is_drawable(),
    ensures
        merged(holders, frame).len() == MESH_COUNT,
        opened(holders, frame) <= frame.len(),
    decreases frame.len(),
{
    if frame.len() > 0 {
        lemma_merged_len(holders, frame.drop_last());
    }
}

/// Merging a frame appends to each mesh's list exactly the instances of the
/// frame's groups of that mesh, group after group in frame order; lists of
/// meshes the frame does not mention are left as they were.
pub proof fn lemma_merge_appends_groups_of_each_mesh<T>(
    holders: Seq<Seq<T>>,
    frame: Seq<(MeshId, Seq<T>)>,
    k: int,
)
    requires
        holders.len() == MESH_COUNT,
        0 <= k < MESH_COUNT,
        forall|g: int| 0 <= g < frame.len() ==> (#[trigger] frame[g]).0.is_drawable(),
    ensures
        merged(holders, frame)[k] == holders[k] + frame.filter(
            |g: (MeshId, Seq<T>)| g.0.slot() == k,
        ).map_values(|g: (MeshId, Seq<T>)| g.1).flatten(),
    decreases frame.len(),
{
    if frame.len() == 0 {
        reveal(Seq::filter);
        assert(frame.filter(|g: (MeshId, Seq<T>)| g.0.slot() == k).map_values(
            |g: (MeshId, Seq<T>)| g.1,
        ) =~= Seq::<Seq<T>>::empty());
        assert(holders[k] + Seq::<T>::empty() =~= holders[k]);
    } else {
        let rest = frame.drop_last();
        let last = frame.last();
        assert forall|g: int| 0 <= g < rest.len() implies (#[trigger] rest[g]).0.is_drawable() by {
            assert(rest[g] == frame[g]);
        }
        assert(last == frame[frame.len() - 1]);
        lemma_merge_appends_groups_of_each_mesh(holders, rest, k);
        lemma_merged_len(holders, rest);
        assert(frame =~= rest.push(last));
        let pred = |g: (MeshId, Seq<T>)| g.0.slot() == k;
        let strip = |g: (MeshId, Seq<T>)| g.1;
        rest.lemma_filter_push(last, pred);
        let fr = rest.filter(pred);
        if last.0.slot() == k {
            assert(frame.filter(pred) == fr.push(last));
            assert(fr.push(last).map_values(strip) =~= fr.map_values(strip).push(last.1));
            fr.map_values(strip).lemma_flatten_push(last.1);
            assert(merged(holders, frame)[k] == merged(holders, rest)[k] + last.1);
        } else {
            assert(frame.filter(pred) == fr);
            assert(merged(holders, frame)[k] == merged(holders, rest)[k]);
        }
    }
}

/// How many of the per-mesh lists that are empty in `before` are not empty
/// in `after`.
pub open spec fn lists_started<T>(before: Seq<Seq<T>>, after: Seq<Seq<T>>) -> nat {
    (if before[0].len() == 0 && after[0].len() > 0 { 1nat } else { 0nat }) + (if before[1].len()
        == 0 && after[1].len() > 0 {
        1nat
    } else {
        0nat
    }) + (if before[2].len() == 0 && after[2].len() > 0 {
        1nat
    } else {
        0nat
    })
}

proof fn lemma_merged_grows<T>(holders: Seq<Seq<T>>, frame: Seq<(MeshId, Seq<T>)>)
    requires
        holders.len() == MESH_COUNT,
        forall|g: int| 0 <= g < frame.len() ==> (#[trigger] frame[g]).0.is_drawable(),
    ensures
        forall|k: int|
            0 <= k < MESH_COUNT ==> holders[k].len() <= (#[trigger] merged(holders, frame)[k]).len(),
    decreases frame.len(),
{
    if frame.len() > 0 {
        let rest = frame.drop_last();
        assert forall|g: int| 0 <= g < rest.len() implies (#[trigger] rest[g]).0.is_drawable() by {
            assert(rest[g] == frame[g]);
        }
        lemma_merged_grows(holders, rest);
        lemma_merged_len(holders, rest);
        assert(frame.last() == frame[frame.len() - 1]);
        let before = merged(holders, rest);
        assert forall|k: int| 0 <= k < MESH_COUNT implies holders[k].len() <= (#[trigger] merged(
            holders,
            frame,
        )[k]).len() by {
            assert(before[k].len() <= merged(holders, frame)[k].len());
        }
    }
}

/// When every group of a frame holds at least one instance, merging it
/// counts exactly the meshes whose list was empty and now is not.
pub proof fn lemma_merge_counts_started_lists<T>(holders: Seq<Seq<T>>, frame: Seq<(MeshId, Seq<T>)>)
    requires
        holders.len() == MESH_COUNT,
        forall|g: int|
            0 <= g < frame.len() ==> (#[trigger] frame[g]).0.is_drawable() && frame[g].1.len() > 0,
    ensures
        opened(holders, frame) == lists_started(holders, merged(holders, frame)),
    decreases frame.len(),
{
    if frame.len() > 0 {
        let rest = frame.drop_last();
        assert forall|g: int| 0 <= g < rest.len() implies (#[trigger] rest[g]).0.is_drawable()
            && rest[g].1.len() > 0 by {
            assert(rest[g] == frame[g]);
        }
        lemma_merge_counts_started_lists(holders, rest);
        lemma_merged_len(holders, rest);
        lemma_merged_grows(holders, rest);
        assert(frame.last() == frame[frame.len() - 1]);
        let before = merged(holders, rest);
        let after = merged(holders, frame);
        let slot: int = frame.last().0.slot() as int;
        assert(after == before.update(slot, before[slot] + frame.last().1));
        assert(holders[0].len() <= before[0].len());
        assert(holders[1].len() <= before[1].len());
        assert(holders[2].len() <= before[2].len());
    }
}

/// A new empty instance list for every drawable mesh.
pub fn empty_instance_holders<T>() -> (holders: Vec<Vec<T>>)
    ensures
        holders@.len() == MESH_COUNT,
        forall|k: int| 0 <= k < MESH_COUNT ==> (#[trigger] holders@[k])@.len() == 0,
{
    let mut holders: Vec<Vec<T>> = Vec::new();
    let mut k: usize = 0;
    while k < MESH_COUNT
        invariant
            k <= MESH_COUNT,
            holders@.len() == k,
            forall|j: int| 0 <= j < k ==> (#[trigger] holders@[j])@.len() == 0,
        decreases MESH_COUNT - k,
    {
        holders.push(Vec::new());
        k = k + 1;
    }
    holders
}

/// Appends every group of a model frame to the instance list of its mesh,
/// and counts in `mesh_type_count` each group whose mesh had no instance
/// yet when it was appended.
pub fn add_mesh_raw_instances_to_instance_holders<T: Copy>(
    mesh_instance_pairs: &Vec<(MeshId, Vec<T>)>,
    instance_holders: &mut Vec<Vec<T>>,
    mesh_type_count: &mut usize,
)
    requires
        old(instance_holders)@.len() == MESH_COUNT,
        forall|k: int|
            0 <= k < mesh_instance_pairs@.len() ==> (#[trigger] mesh_instance_pairs@[k]).0.is_drawable(),
        *old(mesh_type_count) + mesh_instance_pairs@.len() <= usize::MAX,
    ensures
        final(instance_holders)@.len() == MESH_COUNT,
        forall|k: int|
            0 <= k < MESH_COUNT ==> (#[trigger] final(instance_holders)@[k])@ == merged(
                old(instance_holders)@.map_values(|h: Vec<T>| h@),
                frame_view(mesh_instance_pairs@),
            )[k],
        *final(mesh_type_count) == *old(mesh_type_count) + opened(
            old(instance_holders)@.map_values(|h: Vec<T>| h@),
            frame_view(mesh_instance_pairs@),
        ),
{
    let ghost start = old(instance_holders)@.map_values(|h: Vec<T>| h@);
    let ghost frame = frame_view(mesh_instance_pairs@);
    let ghost count0 = *old(mesh_type_count);
    let mut p: usize = 0;
    while p < mesh_instance_pairs.len()
        invariant
            p <= mesh_instance_pairs@.len(),
            start.len() == MESH_COUNT,
            frame == frame_view(mesh_instance_pairs@),
            forall|k: int|
                0 <= k < mesh_instance_pairs@.len() ==> (#[trigger] mesh_instance_pairs@[k]).0.is_drawable(),
            count0 + mesh_instance_pairs@.len() <= usize::MAX,
            instance_holders@.len() == MESH_COUNT,
            forall|k: int|
                0 <= k < MESH_COUNT ==> (#[trigger] instance_holders@[k])@ == merged(
                    start,
                    frame.take(p as int),
                )[k],
            *mesh_type_count == count0 + opened(start, frame.take(p as int)),
        decreases mesh_instance_pairs@.len() - p,
    {
        proof {
            assert(frame.take(p + 1).drop_last() =~= frame.take(p as int));
            lemma_merged_len(start, frame.take(p as int));
            assert forall|k: int| 0 <= k < frame.take(p as int).len() implies (#[trigger] frame.take(p as int)[k]).0.is_drawable() by {
                assert(frame.take(p as int)[k].0 == mesh_instance_pairs@[k].0);
            }
        }
        let mesh_id = mesh_instance_pairs[p].0;
        let slot: usize = mesh_id.index();
        if instance_holders[slot].len() == 0 {
            *mesh_type_count = *mesh_type_count + 1;
        }
        let instances = &mesh_instance_pairs[p].1;
        let ghost prior = instance_holders@[slot as int]@;
        let ghost others = instance_holders@;
        let mut q: usize = 0;
        while q < instances.len()
            invariant
                q <= instances@.len(),
                slot < MESH_COUNT,
                instance_holders@.len() == MESH_COUNT,
                instance_holders@[slot as int]@ == prior + instances@.take(q as int),
                forall|k: int| 0 <= k < MESH_COUNT && k != slot ==> #[trigger] instance_holders@[k] == others[k],
            decreases instances@.len() - q,
        {
            instance_holders[slot].push(instances[q]);
            assert(instances@.take(q + 1) =~= instances@.take(q as int).push(instances@[q as int]));
            q = q + 1;
        }
        proof {
            assert(instances@.take(instances@.len() as int) =~= instances@);
            assert(frame[p as int] == (mesh_id, instances@));
        }
        p = p + 1;
    }
    assert(frame.take(mesh_instance_pairs@.len() as int) =~= frame);
}

} // verus!
