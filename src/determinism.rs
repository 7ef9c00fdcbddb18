//! An image depends on its tree only through what each node records, so two
//! trees with the same views give the same image.
use vstd::prelude::*;
use crate::fat::{child_slots, children_entries, chains, clusters_before, data_runs, node_clusters, node_run,
    start_cluster, entry_of, dir_bytes, node_bytes, parent_cluster, entry_count};
use crate::image::{image_spec, layout_of, esp_spec};
use crate::manifest::ManifestEntry;
use crate::tree::{Node, tree_wf, node_wf, views};

verus! {

/// Two trees that agree on every field the image is made of.
pub open spec fn same_shape(t1: Seq<Node>, t2: Seq<Node>) -> bool {
    &&& t1.len() == t2.len()
    &&& forall|k: int| 0 <= k < t1.len() ==> (#[trigger] t1[k]).parent == t2[k].parent
        && t1[k].is_dir == t2[k].is_dir && t1[k].entry == t2[k].entry
    &&& forall|k: int| 0 < k < t1.len() ==> (#[trigger] t1[k]).short@ == t2[k].short@
    &&& forall|k: int| 0 <= k < t1.len() ==> (#[trigger] t1[k]).path@ == t2[k].path@ && t1[k].name_lo == t2[k].name_lo
}

pub proof fn lemma_same_shape(t1: Seq<Node>, t2: Seq<Node>)
    requires
        tree_wf(t1),
        tree_wf(t2),
        views(t1) == views(t2),
    ensures
        same_shape(t1, t2),
{
    assert(t1.len() == views(t1).len());
    assert forall|k: int| 0 <= k < t1.len() implies (#[trigger] t1[k]).parent == t2[k].parent
        && t1[k].is_dir == t2[k].is_dir && t1[k].entry == t2[k].entry by {
        assert(views(t1)[k] == views(t2)[k]);
    }
    assert forall|k: int| 0 <= k < t1.len() implies (#[trigger] t1[k]).path@ == t2[k].path@
        && t1[k].name_lo == t2[k].name_lo by {
        assert(views(t1)[k] == views(t2)[k]);
    }
    assert forall|k: int| 0 < k < t1.len() implies (#[trigger] t1[k]).short@ == t2[k].short@ by {
        assert(views(t1)[k] == views(t2)[k]);
        assert(node_wf(t1, k));
        assert(node_wf(t2, k));
    }
}

proof fn lemma_child_slots(t1: Seq<Node>, t2: Seq<Node>, d: int, upto: int)
    requires
        same_shape(t1, t2),
        upto <= t1.len(),
    ensures
        child_slots(t1, d, upto) == child_slots(t2, d, upto),
    decreases upto,
{
    if upto > 1 {
        lemma_child_slots(t1, t2, d, upto - 1);
        assert(t1[upto - 1].parent == t2[upto - 1].parent);
        assert(t1[upto - 1].path@ == t2[upto - 1].path@ && t1[upto - 1].name_lo == t2[upto - 1].name_lo);
    }
}

proof fn lemma_node_clusters(t1: Seq<Node>, t2: Seq<Node>, m: Seq<ManifestEntry>)
    requires
        same_shape(t1, t2),
    ensures
        forall|k: int| 0 <= k < t1.len() ==> #[trigger] node_clusters(t1, m, k) == node_clusters(t2, m, k),
{
    assert forall|k: int| 0 <= k < t1.len() implies #[trigger] node_clusters(t1, m, k) == node_clusters(t2, m, k) by {
        lemma_child_slots(t1, t2, k, t1.len() as int);
        assert(t1[k].is_dir == t2[k].is_dir && t1[k].entry == t2[k].entry);
        assert(entry_count(t1, k) == entry_count(t2, k));
    }
}

pub proof fn lemma_clusters_before(t1: Seq<Node>, t2: Seq<Node>, m: Seq<ManifestEntry>, k: int)
    requires
        same_shape(t1, t2),
        k <= t1.len(),
    ensures
        clusters_before(t1, m, k) == clusters_before(t2, m, k),
    decreases k,
{
    if k > 0 {
        lemma_clusters_before(t1, t2, m, k - 1);
        lemma_node_clusters(t1, t2, m);
    }
}

proof fn lemma_chains(t1: Seq<Node>, t2: Seq<Node>, m: Seq<ManifestEntry>, k: int)
    requires
        same_shape(t1, t2),
        k <= t1.len(),
    ensures
        chains(t1, m, k) == chains(t2, m, k),
    decreases k,
{
    if k > 0 {
        lemma_chains(t1, t2, m, k - 1);
        lemma_clusters_before(t1, t2, m, k - 1);
        lemma_node_clusters(t1, t2, m);
    }
}

proof fn lemma_start_cluster(t1: Seq<Node>, t2: Seq<Node>, m: Seq<ManifestEntry>)
    requires
        same_shape(t1, t2),
    ensures
        forall|k: int| 0 <= k < t1.len() ==> #[trigger] start_cluster(t1, m, k) == start_cluster(t2, m, k),
{
    lemma_node_clusters(t1, t2, m);
    assert forall|k: int| 0 <= k < t1.len() implies #[trigger] start_cluster(t1, m, k) == start_cluster(t2, m, k) by {
        lemma_clusters_before(t1, t2, m, k);
    }
}

proof fn lemma_children_entries(t1: Seq<Node>, t2: Seq<Node>, m: Seq<ManifestEntry>, d: int, upto: int)
    requires
        same_shape(t1, t2),
        upto <= t1.len(),
    ensures
        children_entries(t1, m, d, upto) == children_entries(t2, m, d, upto),
    decreases upto,
{
    if upto > 1 {
        lemma_children_entries(t1, t2, m, d, upto - 1);
        lemma_start_cluster(t1, t2, m);
        let c = upto - 1;
        assert(t1[c].parent == t2[c].parent && t1[c].short@ == t2[c].short@);
        assert(t1[c].path@ == t2[c].path@ && t1[c].name_lo == t2[c].name_lo);
        assert(crate::fat::short_entry(t1, m, c) == crate::fat::short_entry(t2, m, c));
        assert(start_cluster(t1, m, c) == start_cluster(t2, m, c));
        assert(entry_of(t1, m, c) == entry_of(t2, m, c));
    }
}

proof fn lemma_data_runs(t1: Seq<Node>, t2: Seq<Node>, m: Seq<ManifestEntry>, k: int)
    requires
        tree_wf(t1),
        same_shape(t1, t2),
        k <= t1.len(),
    ensures
        data_runs(t1, m, k) == data_runs(t2, m, k),
    decreases k,
{
    if k > 0 {
        let j = k - 1;
        lemma_data_runs(t1, t2, m, j);
        lemma_node_clusters(t1, t2, m);
        lemma_start_cluster(t1, t2, m);
        lemma_children_entries(t1, t2, m, j, t1.len() as int);
        assert(t1[j].parent == t2[j].parent && t1[j].is_dir == t2[j].is_dir);
        if j > 0 {
            let q = t1[j].parent as int;
            assert(node_wf(t1, j));
            assert(start_cluster(t1, m, q) == start_cluster(t2, m, q));
            assert(parent_cluster(t1, m, j) == parent_cluster(t2, m, j));
        }
        assert(dir_bytes(t1, m, j) == dir_bytes(t2, m, j));
        assert(node_bytes(t1, m, j) == node_bytes(t2, m, j));
        assert(node_run(t1, m, j) == node_run(t2, m, j));
    }
}

/// Trees with the same views give the same image.
pub proof fn lemma_image_congruence(t1: Seq<Node>, t2: Seq<Node>, m: Seq<ManifestEntry>, disk_guid: Seq<u8>, part_guid: Seq<u8>, volume_id: u32)
    requires
        tree_wf(t1),
        tree_wf(t2),
        views(t1) == views(t2),
    ensures
        image_spec(t1, m, disk_guid, part_guid, volume_id) == image_spec(t2, m, disk_guid, part_guid, volume_id),
{
    lemma_same_shape(t1, t2);
    let n = t1.len() as int;
    lemma_clusters_before(t1, t2, m, n);
    lemma_chains(t1, t2, m, n);
    lemma_data_runs(t1, t2, m, n);
    assert(layout_of(t1, m) == layout_of(t2, m));
    assert(esp_spec(t1, m, volume_id) == esp_spec(t2, m, volume_id));
}

} // verus!
