use treegen::emit::root_build_file_content;
use treegen::ID;

#[test]
fn root_build_description_lists_depth_one_libraries() {
    let expected = "load(\"@build_bazel_rules_ios//rules:app.bzl\", \"ios_application\")\nios_application(\n    name = \"root\",\n    bundle_id = \"com.bazel.benchmark\",\n    families = [\n        \"iphone\",\n        \"ipad\",\n    ],\n    srcs = [\"main.m\"],\n    minimum_os_version = \"15.0\",\n    deps = [\"//pkg_1/lib_1\", \"//pkg_1/lib_2\"],\n)\n";
    assert_eq!(root_build_file_content(2), expected);
}

#[test]
fn inner_node_build_description() {
    // k = 2, depth cap 2: node 1 has children ranked 1 and 2 one level down
    let node = ID::new(1, 2, 2);
    let expected = "load(\"@build_bazel_rules_ios//rules:framework.bzl\", \"apple_framework\")\napple_framework(name = \"lib_1\",\n    module_name = \"Pkg1_Lib1\",\n    srcs = [\n        \"Pkg1_Lib1_Hdr1.h\", \"Pkg1_Lib1_Src1.m\"\n    ],\n    deps = [\n\"//pkg_1/pkg_2/lib_1\", \"//pkg_1/pkg_2/lib_2\"\n    ],\n    visibility = [\"//visibility:public\"])\n";
    assert_eq!(node.build_file_content(1), expected);
}

#[test]
fn leaf_node_lists_stub_pairs_and_no_dependencies() {
    // k = 3, depth cap 2, two stub pairs per target: node 5 is a leaf of
    // rank 2, so its sources hold exactly two pairs and its deps are empty
    let leaf = ID::new(5, 3, 2);
    assert_eq!(leaf.parents.len(), 2);
    assert_eq!(leaf.package_relative_index, 2);
    let expected = "load(\"@build_bazel_rules_ios//rules:framework.bzl\", \"apple_framework\")\napple_framework(name = \"lib_2\",\n    module_name = \"Pkg1_Pkg2_Lib2\",\n    srcs = [\n        \"Pkg1_Pkg2_Lib2_Hdr1.h\", \"Pkg1_Pkg2_Lib2_Src1.m\", \"Pkg1_Pkg2_Lib2_Hdr2.h\", \"Pkg1_Pkg2_Lib2_Src2.m\"\n    ],\n    deps = [\n\n    ],\n    visibility = [\"//visibility:public\"])\n";
    let content = leaf.build_file_content(2);
    assert_eq!(content, expected);
    assert_eq!(content.matches("_Hdr").count(), 2);
    assert_eq!(content.matches("_Src").count(), 2);
    assert_eq!(content.matches("//pkg_").count(), 0);
}

#[test]
fn stub_header_imports_each_child_library() {
    let node = ID::new(1, 2, 2);
    let expected = "@import Foundation;\n@import Pkg1_Pkg2_Lib1;\n@import Pkg1_Pkg2_Lib2;\n@interface Pkg1_Lib1_Hdr1_Class : NSObject\n@end\n";
    assert_eq!(node.header_file_content(1), expected);
}

#[test]
fn leaf_stub_header_imports_nothing_beyond_foundation() {
    let leaf = ID::new(5, 3, 2);
    let expected = "@import Foundation;\n@interface Pkg1_Pkg2_Lib2_Hdr2_Class : NSObject\n@end\n";
    assert_eq!(leaf.header_file_content(2), expected);
}

#[test]
fn stub_implementation_includes_its_header() {
    let node = ID::new(1, 2, 2);
    let expected =
        "#include \"Pkg1_Lib1/Pkg1_Lib1_Hdr1.h\"\n@implementation Pkg1_Lib1_Hdr1_Class\n@end\n";
    assert_eq!(node.source_file_content(1), expected);
}

#[test]
fn stub_file_names_pair_up() {
    let node = ID::new(3, 2, 4);
    assert_eq!(node.header_file_name(7), "Pkg1_Pkg2_Lib1_Hdr7.h");
    assert_eq!(node.source_file_name(7), "Pkg1_Pkg2_Lib1_Src7.m");
}

#[test]
fn declared_dependencies_resolve_to_real_library_paths() {
    // every path in a node's dependency list is the library path of the node
    // that its child index addresses
    for k in 2..5u64 {
        let node = ID::new(2, k, 3);
        let kids = node.children();
        for kid in kids.iter() {
            let resolved = ID::new(kid.id, k, 3);
            assert_eq!(resolved.lib_path(), kid.lib_path());
            assert_eq!(resolved.lib_name(), kid.lib_name());
        }
    }
}
