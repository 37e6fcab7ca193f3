//! The exact text of every generated file.
//!
//! Each function returns the full content of one file as a string whose
//! contract pins every character: the build description of the root, the
//! build description of an inner node (whose dependency list is exactly the
//! node's children), and the stub header/implementation pairs whose imports
//! encode the same dependency edges a second time.

use crate::arith::geom;
use crate::paths::lib_name_chars;
use crate::paths::lib_path_chars;
use crate::text::decimal_chars;
use crate::text::u64_string;
use crate::tree::addr_wf;
use crate::tree::depth_of;
use crate::tree::lemma_declared_slot_resolves;
use crate::tree::lemma_pos_bounds;
use crate::tree::pos_of;
use crate::tree::ID;
use vstd::prelude::*;
use vstd::string::StringExecFns;

verus! {

/// One quoted dependency of the root on a depth-1 library: `"//pkg_1/lib_<i>"`.
pub open spec fn root_dep_chars(i: nat) -> Seq<char> {
    "\"//pkg_1/lib_"@ + decimal_chars(i) + "\""@
}

/// The root's dependency list: one entry per depth-1 node, comma-separated.
pub open spec fn root_deps_chars(n: nat) -> Seq<char>
    decreases n,
{
    if n == 0 {
        Seq::empty()
    } else if n == 1 {
        root_dep_chars(1)
    } else {
        root_deps_chars((n - 1) as nat) + ", "@ + root_dep_chars(n)
    }
}

/// The root's build description: an application target that depends on every
/// depth-1 library.
pub open spec fn root_build_file_chars(k: nat) -> Seq<char> {
    "load(\"@build_bazel_rules_ios//rules:app.bzl\", \"ios_application\")\nios_application(\n    name = \"root\",\n    bundle_id = \"com.bazel.benchmark\",\n    families = [\n        \"iphone\",\n        \"ipad\",\n    ],\n    srcs = [\"main.m\"],\n    minimum_os_version = \"15.0\",\n    deps = ["@
        + root_deps_chars(k) + "],\n)\n"@
}

/// One quoted stub pair of a node's source list:
/// `"<name>_Hdr<i>.h", "<name>_Src<i>.m"`.
pub open spec fn src_pair_chars(name: Seq<char>, i: nat) -> Seq<char> {
    "\""@ + name + "_Hdr"@ + decimal_chars(i) + ".h\", \""@ + name + "_Src"@ + decimal_chars(i)
        + ".m\""@
}

/// A node's source list: `f` stub pairs, comma-separated.
pub open spec fn srcs_list_chars(name: Seq<char>, f: nat) -> Seq<char>
    decreases f,
{
    if f == 0 {
        Seq::empty()
    } else if f == 1 {
        src_pair_chars(name, 1)
    } else {
        srcs_list_chars(name, (f - 1) as nat) + ", "@ + src_pair_chars(name, f)
    }
}

/// The quoted dependency a node of depth `d` and rank `r` declares in slot
/// `i`: the library path of its `i`-th child.
pub open spec fn dep_item_chars(d: nat, r: nat, k: nat, i: nat) -> Seq<char> {
    "\"//"@ + lib_path_chars(d + 1, (k * (r - 1) + i + 1) as nat) + "\""@
}

/// A node's dependency list: one entry per child, comma-separated.
pub open spec fn deps_list_chars(d: nat, r: nat, k: nat, n: nat) -> Seq<char>
    decreases n,
{
    if n == 0 {
        Seq::empty()
    } else if n == 1 {
        dep_item_chars(d, r, k, 0)
    } else {
        deps_list_chars(d, r, k, (n - 1) as nat) + ", "@ + dep_item_chars(d, r, k, (n - 1) as nat)
    }
}

/// The build description of a non-root node: a library target named by the
/// node's rank, with its stub sources and one dependency per child.
pub open spec fn node_build_file_chars(d: nat, r: nat, k: nat, fpt: nat, nchild: nat) -> Seq<
    char,
> {
    "load(\"@build_bazel_rules_ios//rules:framework.bzl\", \"apple_framework\")\n"@
        + "apple_framework(name = \"lib_"@ + decimal_chars(r) + "\",\n    module_name = \""@
        + lib_name_chars(d, r) + "\",\n    srcs = [\n        "@ + srcs_list_chars(
        lib_name_chars(d, r),
        fpt,
    ) + "\n    ],\n    deps = [\n"@ + deps_list_chars(d, r, k, nchild)
        + "\n    ],\n    visibility = [\"//visibility:public\"])\n"@
}

/// The import lines of a stub header: one `@import` per child library.
pub open spec fn import_lines_chars(d: nat, r: nat, k: nat, n: nat) -> Seq<char>
    decreases n,
{
    if n == 0 {
        Seq::empty()
    } else {
        import_lines_chars(d, r, k, (n - 1) as nat) + "@import "@ + lib_name_chars(
            d + 1,
            (k * (r - 1) + n) as nat,
        ) + ";\n"@
    }
}

/// The `i`-th stub header of a node: the foundational import, one import per
/// child, and an empty interface.
pub open spec fn header_file_chars(d: nat, r: nat, k: nat, i: nat, nchild: nat) -> Seq<char> {
    "@import Foundation;\n"@ + import_lines_chars(d, r, k, nchild) + "@interface "@
        + lib_name_chars(d, r) + "_Hdr"@ + decimal_chars(i)
        + "_Class : NSObject\n@end\n"@
}

/// The `i`-th stub implementation of a node: it includes its paired header
/// and provides the matching empty definition.
pub open spec fn source_file_chars(d: nat, r: nat, i: nat) -> Seq<char> {
    "#include \""@ + lib_name_chars(d, r) + "/"@ + lib_name_chars(d, r) + "_Hdr"@ + decimal_chars(
        i,
    ) + ".h\"\n@implementation "@ + lib_name_chars(d, r) + "_Hdr"@ + decimal_chars(i)
        + "_Class\n@end\n"@
}

/// File name of the `i`-th stub header of a node.
pub open spec fn header_name_chars(d: nat, r: nat, i: nat) -> Seq<char> {
    lib_name_chars(d, r) + "_Hdr"@ + decimal_chars(i) + ".h"@
}

/// File name of the `i`-th stub implementation of a node.
pub open spec fn source_name_chars(d: nat, r: nat, i: nat) -> Seq<char> {
    lib_name_chars(d, r) + "_Src"@ + decimal_chars(i) + ".m"@
}

/// The build description of the synthetic root, depending on all
/// `targets_per_level` depth-1 libraries.
pub fn root_build_file_content(targets_per_level: u64) -> (s: String)
    ensures
        s@ == root_build_file_chars(targets_per_level as nat),
{
    let mut s = String::from_str(
        "load(\"@build_bazel_rules_ios//rules:app.bzl\", \"ios_application\")\nios_application(\n    name = \"root\",\n    bundle_id = \"com.bazel.benchmark\",\n    families = [\n        \"iphone\",\n        \"ipad\",\n    ],\n    srcs = [\"main.m\"],\n    minimum_os_version = \"15.0\",\n    deps = [",
    );
    let ghost head = s@;
    let mut i: u64 = 0;
    while i < targets_per_level
        invariant
            i <= targets_per_level,
            s@ == head + root_deps_chars(i as nat),
        decreases targets_per_level - i,
    {
        if i > 0 {
            s.append(", ");
        }
        s.append("\"//pkg_1/lib_");
        let num = u64_string(i + 1);
        s.append(num.as_str());
        s.append("\"");
        proof {
            assert(s@ =~= head + root_deps_chars(i as nat + 1));
        }
        i = i + 1;
    }
    s.append("],\n)\n");
    proof {
        assert(s@ =~= root_build_file_chars(targets_per_level as nat));
    }
    s
}

impl ID {
    /// The full text of this node's build description file.
    pub fn build_file_content(&self, files_per_target: u64) -> (s: String)
        requires
            self.parents@.len() < self.max_depth ==> addr_wf(self@),
            self.parents@.len() < self.max_depth ==> self.id >= 1,
            self.parents@.len() < self.max_depth ==> geom(
                self.targets_per_level as nat,
                self.max_depth as nat,
            ) <= u64::MAX as nat + 1,
        ensures
            s@ == node_build_file_chars(
                self.parents@.len() as nat,
                self.package_relative_index as nat,
                self.targets_per_level as nat,
                files_per_target as nat,
                if self.parents@.len() < self.max_depth {
                    self.targets_per_level as nat
                } else {
                    0
                },
            ),
    {
        let ghost d: nat = self.parents@.len() as nat;
        let ghost r: nat = self.package_relative_index as nat;
        let ghost k: nat = self.targets_per_level as nat;
        let name = self.lib_name();
        let mut s = String::from_str(
            "load(\"@build_bazel_rules_ios//rules:framework.bzl\", \"apple_framework\")\n",
        );
        s.append("apple_framework(name = \"lib_");
        let num = u64_string(self.package_relative_index);
        s.append(num.as_str());
        s.append("\",\n    module_name = \"");
        s.append(name.as_str());
        s.append("\",\n    srcs = [\n        ");
        let ghost before_srcs = s@;
        let mut f: u64 = 0;
        while f < files_per_target
            invariant
                f <= files_per_target,
                name@ == lib_name_chars(d, r),
                s@ == before_srcs + srcs_list_chars(name@, f as nat),
            decreases files_per_target - f,
        {
            if f > 0 {
                s.append(", ");
            }
            s.append("\"");
            s.append(name.as_str());
            s.append("_Hdr");
            let fnum = u64_string(f + 1);
            s.append(fnum.as_str());
            s.append(".h\", \"");
            s.append(name.as_str());
            s.append("_Src");
            s.append(fnum.as_str());
            s.append(".m\"");
            proof {
                assert(s@ =~= before_srcs + srcs_list_chars(name@, f as nat + 1));
            }
            f = f + 1;
        }
        s.append("\n    ],\n    deps = [\n");
        let ghost before_deps = s@;
        let kids = self.children();
        let mut c: usize = 0;
        while c < kids.len()
            invariant
                c <= kids@.len(),
                d == self.parents@.len() as nat,
                r == self.package_relative_index as nat,
                k == self.targets_per_level as nat,
                s@ == before_deps + deps_list_chars(d, r, k, c as nat),
                forall|t: int|
                    #![trigger kids@[t]]
                    0 <= t < kids@.len() ==> {
                        &&& kids@[t].parents@.len() == d + 1
                        &&& kids@[t].package_relative_index as int == k as int * (r as int - 1) + t
                            + 1
                    },
            decreases kids@.len() - c,
        {
            if c > 0 {
                s.append(", ");
            }
            s.append("\"//");
            let path = kids[c].lib_path();
            s.append(path.as_str());
            s.append("\"");
            proof {
                assert(path@ == lib_path_chars(d + 1, (k * (r - 1) + c + 1) as nat));
                assert(s@ =~= before_deps + deps_list_chars(d, r, k, c as nat + 1));
            }
            c = c + 1;
        }
        s.append("\n    ],\n    visibility = [\"//visibility:public\"])\n");
        proof {
            assert(s@ =~= node_build_file_chars(
                d,
                r,
                k,
                files_per_target as nat,
                kids@.len() as nat,
            ));
        }
        s
    }

    /// The full text of this node's `i`-th stub header.
    pub fn header_file_content(&self, i: u64) -> (s: String)
        requires
            self.parents@.len() < self.max_depth ==> addr_wf(self@),
            self.parents@.len() < self.max_depth ==> self.id >= 1,
            self.parents@.len() < self.max_depth ==> geom(
                self.targets_per_level as nat,
                self.max_depth as nat,
            ) <= u64::MAX as nat + 1,
        ensures
            s@ == header_file_chars(
                self.parents@.len() as nat,
                self.package_relative_index as nat,
                self.targets_per_level as nat,
                i as nat,
                if self.parents@.len() < self.max_depth {
                    self.targets_per_level as nat
                } else {
                    0
                },
            ),
    {
        let ghost d: nat = self.parents@.len() as nat;
        let ghost r: nat = self.package_relative_index as nat;
        let ghost k: nat = self.targets_per_level as nat;
        let mut s = String::from_str("@import Foundation;\n");
        let kids = self.children();
        let mut c: usize = 0;
        while c < kids.len()
            invariant
                c <= kids@.len(),
                d == self.parents@.len() as nat,
                r == self.package_relative_index as nat,
                k == self.targets_per_level as nat,
                s@ == "@import Foundation;\n"@ + import_lines_chars(d, r, k, c as nat),
                forall|t: int|
                    #![trigger kids@[t]]
                    0 <= t < kids@.len() ==> {
                        &&& kids@[t].parents@.len() == d + 1
                        &&& kids@[t].package_relative_index as int == k as int * (r as int - 1) + t
                            + 1
                    },
            decreases kids@.len() - c,
        {
            s.append("@import ");
            let child_name = kids[c].lib_name();
            s.append(child_name.as_str());
            s.append(";\n");
            proof {
                assert(child_name@ == lib_name_chars(d + 1, (k * (r - 1) + c + 1) as nat));
                assert(s@ =~= "@import Foundation;\n"@ + import_lines_chars(
                    d,
                    r,
                    k,
                    c as nat + 1,
                ));
            }
            c = c + 1;
        }
        s.append("@interface ");
        let name = self.lib_name();
        s.append(name.as_str());
        s.append("_Hdr");
        let num = u64_string(i);
        s.append(num.as_str());
        s.append("_Class : NSObject\n@end\n");
        proof {
            assert(s@ =~= header_file_chars(d, r, k, i as nat, kids@.len() as nat));
        }
        s
    }

    /// The full text of this node's `i`-th stub implementation.
    pub fn source_file_content(&self, i: u64) -> (s: String)
        ensures
            s@ == source_file_chars(
                self.parents@.len() as nat,
                self.package_relative_index as nat,
                i as nat,
            ),
    {
        let name = self.lib_name();
        let num = u64_string(i);
        let mut s = String::from_str("#include \"");
        s.append(name.as_str());
        s.append("/");
        s.append(name.as_str());
        s.append("_Hdr");
        s.append(num.as_str());
        s.append(".h\"\n@implementation ");
        s.append(name.as_str());
        s.append("_Hdr");
        s.append(num.as_str());
        s.append("_Class\n@end\n");
        proof {
            assert(s@ =~= source_file_chars(
                self.parents@.len() as nat,
                self.package_relative_index as nat,
                i as nat,
            ));
        }
        s
    }

    /// File name of this node's `i`-th stub header.
    pub fn header_file_name(&self, i: u64) -> (s: String)
        ensures
            s@ == header_name_chars(
                self.parents@.len() as nat,
                self.package_relative_index as nat,
                i as nat,
            ),
    {
        let mut s = self.lib_name();
        s.append("_Hdr");
        let num = u64_string(i);
        s.append(num.as_str());
        s.append(".h");
        proof {
            assert(s@ =~= header_name_chars(
                self.parents@.len() as nat,
                self.package_relative_index as nat,
                i as nat,
            ));
        }
        s
    }

    /// File name of this node's `i`-th stub implementation.
    pub fn source_file_name(&self, i: u64) -> (s: String)
        ensures
            s@ == source_name_chars(
                self.parents@.len() as nat,
                self.package_relative_index as nat,
                i as nat,
            ),
    {
        let mut s = self.lib_name();
        s.append("_Src");
        let num = u64_string(i);
        s.append(num.as_str());
        s.append(".m");
        proof {
            assert(s@ =~= source_name_chars(
                self.parents@.len() as nat,
                self.package_relative_index as nat,
                i as nat,
            ));
        }
        s
    }
}

/// Declaration consistency, at the level of the emitted text: the dependency
/// a node of depth `d` and rank `r` declares in slot `i` is exactly the
/// quoted library path of the node at the child's own index `id * k + i + 1`.
pub proof fn lemma_dep_item_resolves(id: nat, k: nat, d: nat, r: nat, i: nat)
    requires
        k >= 2,
        id >= 1,
        i < k,
        d == depth_of(id, k),
        r == pos_of(id, k),
    ensures
        dep_item_chars(d, r, k, i) == "\"//"@ + lib_path_chars(
            depth_of(id * k + i + 1, k),
            pos_of(id * k + i + 1, k),
        ) + "\""@,
{
    lemma_declared_slot_resolves(id, k, i);
    lemma_pos_bounds(id, k);
}

} // verus!
