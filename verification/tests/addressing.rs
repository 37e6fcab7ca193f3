use treegen::num_nodes_in_ntree;
use treegen::text::u64_string;
use treegen::package;
use treegen::ID;

#[test]
fn node_count_is_geometric_sum() {
    // 1 + k + k^2 + ... + k^d, written out for a few shapes
    assert_eq!(num_nodes_in_ntree(2, 0), 1);
    assert_eq!(num_nodes_in_ntree(2, 1), 3);
    assert_eq!(num_nodes_in_ntree(2, 2), 7);
    assert_eq!(num_nodes_in_ntree(3, 2), 13);
    assert_eq!(num_nodes_in_ntree(10, 3), 1111);
    assert_eq!(num_nodes_in_ntree(2, 62), 9223372036854775807);
}

#[test]
fn root_address() {
    let root = ID::new(0, 2, 3);
    assert_eq!(root.id, 0);
    assert_eq!(root.parents.len(), 0);
    assert_eq!(root.package_relative_index, 0);
    assert_eq!(root.package_path(), "");
    assert_eq!(root.lib_path(), "lib_0");
    assert_eq!(root.lib_name(), "_Lib0");
}

#[test]
fn nearest_parent_is_index_division() {
    for k in 2..6u64 {
        for id in 1..100u64 {
            let node = ID::new(id, k, 10);
            assert_eq!(node.parents[0].id, (id - 1) / k);
        }
    }
}

#[test]
fn two_node_scenario() {
    // k = 2, depth cap 1: three nodes in total
    assert_eq!(num_nodes_in_ntree(2, 1), 3);
    let one = ID::new(1, 2, 1);
    assert_eq!(one.package_path(), "pkg_1");
    assert_eq!(one.package_relative_index, 1);
    let two = ID::new(2, 2, 1);
    assert_eq!(two.package_relative_index, 2);
}

#[test]
fn children_of_inner_node() {
    let node = ID::new(1, 2, 2);
    let kids = node.children();
    assert_eq!(kids.len(), 2);
    for (i, kid) in kids.iter().enumerate() {
        assert_eq!(kid.id, node.id * 2 + i as u64 + 1);
        assert_eq!((kid.id - 1) / 2, node.id);
        assert_eq!(
            kid.package_relative_index,
            2 * (node.package_relative_index - 1) + i as u64 + 1
        );
        assert_eq!(kid.parents.len(), node.parents.len() + 1);
        // nearest parent first: the node itself, then the node's own chain
        assert_eq!(kid.parents[0].id, node.id);
        assert_eq!(kid.parents[1].id, node.parents[0].id);
    }
}

#[test]
fn leaf_has_no_children() {
    // k = 3, depth cap 2: indices 4..=12 are the leaves
    for id in 4..13u64 {
        let leaf = ID::new(id, 3, 2);
        assert_eq!(leaf.parents.len(), 2);
        assert_eq!(leaf.children().len(), 0);
    }
    // a node at the cap has no children even when the cap is 0 levels away
    let root_capped = ID::new(0, 2, 0);
    assert_eq!(root_capped.children().len(), 0);
}

#[test]
fn reconstruction_is_deterministic() {
    for id in 0..40u64 {
        let a = ID::new(id, 3, 5);
        let b = ID::new(id, 3, 5);
        assert_eq!(a.package_path(), b.package_path());
        assert_eq!(a.lib_path(), b.lib_path());
        assert_eq!(a.lib_name(), b.lib_name());
    }
}

#[test]
fn paths_and_names_by_depth_and_rank() {
    let node = ID::new(3, 2, 4);
    assert_eq!(node.parents.len(), 2);
    assert_eq!(node.package_relative_index, 1);
    assert_eq!(node.package_path(), "pkg_1/pkg_2");
    assert_eq!(node.lib_path(), "pkg_1/pkg_2/lib_1");
    assert_eq!(node.lib_name(), "Pkg1_Pkg2_Lib1");
    assert_eq!(node.build_file(), "pkg_1/pkg_2/lib_1/BUILD.bazel");
}

#[test]
fn ranks_reach_two_digits() {
    let node = ID::new(10, 10, 1);
    assert_eq!(node.parents.len(), 1);
    assert_eq!(node.package_relative_index, 10);
    assert_eq!(node.lib_path(), "pkg_1/lib_10");
    assert_eq!(node.lib_name(), "Pkg1_Lib10");
}

#[test]
fn package_reads_only_the_length() {
    let chain: Vec<u64> = vec![10, 20, 30];
    assert_eq!(package(&chain), "pkg_1/pkg_2/pkg_3");
    let empty: Vec<u64> = vec![];
    assert_eq!(package(&empty), "");
}

#[test]
fn siblings_share_their_package_directory() {
    let node = ID::new(2, 3, 3);
    let kids = node.children();
    assert_eq!(kids.len(), 3);
    let first = kids[0].package_path();
    for kid in kids.iter() {
        assert_eq!(kid.package_path(), first);
    }
}

#[test]
fn decimal_rendering() {
    assert_eq!(u64_string(0), "0");
    assert_eq!(u64_string(9), "9");
    assert_eq!(u64_string(10), "10");
    assert_eq!(u64_string(1203), "1203");
    assert_eq!(u64_string(u64::MAX), "18446744073709551615");
}
