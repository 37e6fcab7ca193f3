//! The on-disk paths and fully-qualified names derived from an address.
//!
//! Package directories encode only depth (`pkg_1/pkg_2/...`): which sibling a
//! node is appears solely in its final `lib_<rank>` segment and in its
//! library name, so all nodes of one depth chain share a package.

use crate::text::decimal_chars;
use crate::text::u64_string;
use crate::tree::addr_wf;
use crate::tree::lemma_address_deterministic;
use crate::tree::ID;
use vstd::prelude::*;
use vstd::string::StringExecFns;

verus! {

/// One positional package segment: `pkg_<i>`.
pub open spec fn pkg_segment_chars(i: nat) -> Seq<char> {
    "pkg_"@ + decimal_chars(i)
}

/// The `/`-joined package path of a node at depth `d`: one positional
/// segment per ancestor level, empty for the root.
pub open spec fn package_path_chars(d: nat) -> Seq<char>
    decreases d,
{
    if d == 0 {
        Seq::empty()
    } else if d == 1 {
        pkg_segment_chars(1)
    } else {
        package_path_chars((d - 1) as nat) + "/"@ + pkg_segment_chars(d)
    }
}

/// The library directory of a node of rank `r` at depth `d`: its package
/// path plus its own `lib_<r>` segment.
pub open spec fn lib_path_chars(d: nat, r: nat) -> Seq<char> {
    if d == 0 {
        "lib_"@ + decimal_chars(r)
    } else {
        package_path_chars(d) + "/"@ + "lib_"@ + decimal_chars(r)
    }
}

/// The depth part of a library name: `Pkg1_Pkg2_..._Pkg<d>`.
pub open spec fn name_prefix_chars(d: nat) -> Seq<char>
    decreases d,
{
    if d == 0 {
        Seq::empty()
    } else if d == 1 {
        "Pkg"@ + decimal_chars(1)
    } else {
        name_prefix_chars((d - 1) as nat) + "_"@ + "Pkg"@ + decimal_chars(d)
    }
}

/// The fully-qualified library name of a node of rank `r` at depth `d`.
pub open spec fn lib_name_chars(d: nat, r: nat) -> Seq<char> {
    name_prefix_chars(d) + "_Lib"@ + decimal_chars(r)
}

/// Where a node's build description lives: inside its library directory.
pub open spec fn build_file_chars(d: nat, r: nat) -> Seq<char> {
    lib_path_chars(d, r) + "/BUILD.bazel"@
}

/// `pkg_1/.../pkg_<d>` for a chain of `d` levels.
fn numbered_segments(d: usize, sep: &str, stem: &str) -> (s: String)
    ensures
        s@ == numbered_segments_chars(d as nat, sep@, stem@),
{
    let mut s = String::new();
    let mut i: usize = 0;
    while i < d
        invariant
            i <= d,
            s@ == numbered_segments_chars(i as nat, sep@, stem@),
        decreases d - i,
    {
        if i > 0 {
            s.append(sep);
        }
        s.append(stem);
        let num = u64_string((i as u64) + 1);
        s.append(num.as_str());
        proof {
            assert(s@ =~= numbered_segments_chars(i as nat + 1, sep@, stem@));
        }
        i = i + 1;
    }
    s
}

/// `stem<1>`, `stem<2>`, ..., `stem<d>`, joined by `sep`.
pub open spec fn numbered_segments_chars(d: nat, sep: Seq<char>, stem: Seq<char>) -> Seq<char>
    decreases d,
{
    if d == 0 {
        Seq::empty()
    } else if d == 1 {
        stem + decimal_chars(1)
    } else {
        numbered_segments_chars((d - 1) as nat, sep, stem) + sep + stem + decimal_chars(d)
    }
}

/// The two spellings of a depth chain are the generic join with the fitting
/// separator and stem.
pub proof fn lemma_package_path_is_join(d: nat)
    ensures
        package_path_chars(d) == numbered_segments_chars(d, "/"@, "pkg_"@),
        name_prefix_chars(d) == numbered_segments_chars(d, "_"@, "Pkg"@),
    decreases d,
{
    if d > 1 {
        lemma_package_path_is_join((d - 1) as nat);
    }
}

/// The package path of a chain with one entry per level: how deep the chain
/// is is all that matters.
pub fn package(v: &Vec<u64>) -> (s: String)
    ensures
        s@ == package_path_chars(v@.len() as nat),
{
    let s = numbered_segments(v.len(), "/", "pkg_");
    proof {
        lemma_package_path_is_join(v@.len() as nat);
    }
    s
}

impl ID {
    /// The node's package directory, `pkg_1/.../pkg_<depth>`.
    pub fn package_path(&self) -> (s: String)
        ensures
            s@ == package_path_chars(self.parents@.len() as nat),
    {
        let s = numbered_segments(self.parents.len(), "/", "pkg_");
        proof {
            lemma_package_path_is_join(self.parents@.len() as nat);
        }
        s
    }

    /// The node's library directory, `pkg_1/.../pkg_<depth>/lib_<rank>`.
    pub fn lib_path(&self) -> (s: String)
        ensures
            s@ == lib_path_chars(self.parents@.len() as nat, self.package_relative_index as nat),
    {
        let mut s = self.package_path();
        if self.parents.len() > 0 {
            s.append("/");
        }
        s.append("lib_");
        let num = u64_string(self.package_relative_index);
        s.append(num.as_str());
        proof {
            assert(s@ =~= lib_path_chars(
                self.parents@.len() as nat,
                self.package_relative_index as nat,
            ));
        }
        s
    }

    /// The node's fully-qualified library name, `Pkg1_..._Pkg<depth>_Lib<rank>`.
    pub fn lib_name(&self) -> (s: String)
        ensures
            s@ == lib_name_chars(self.parents@.len() as nat, self.package_relative_index as nat),
    {
        let mut s = numbered_segments(self.parents.len(), "_", "Pkg");
        s.append("_Lib");
        let num = u64_string(self.package_relative_index);
        s.append(num.as_str());
        proof {
            lemma_package_path_is_join(self.parents@.len() as nat);
            assert(s@ =~= lib_name_chars(
                self.parents@.len() as nat,
                self.package_relative_index as nat,
            ));
        }
        s
    }

    /// Where this node's build description file lives.
    pub fn build_file(&self) -> (s: String)
        ensures
            s@ == build_file_chars(self.parents@.len() as nat, self.package_relative_index as nat),
    {
        let mut s = self.lib_path();
        s.append("/BUILD.bazel");
        s
    }
}

/// Round trip: a node rebuilt purely from its index, branching factor and
/// depth cap has the same package path, library path, and library name every
/// time — the derivation has no hidden state.
pub proof fn lemma_round_trip(a: ID, b: ID)
    requires
        addr_wf(a@),
        addr_wf(b@),
        a.id == b.id,
        a.targets_per_level == b.targets_per_level,
        a.max_depth == b.max_depth,
    ensures
        package_path_chars(a.parents@.len() as nat) == package_path_chars(
            b.parents@.len() as nat,
        ),
        lib_path_chars(a.parents@.len() as nat, a.package_relative_index as nat) == lib_path_chars(
            b.parents@.len() as nat,
            b.package_relative_index as nat,
        ),
        lib_name_chars(a.parents@.len() as nat, a.package_relative_index as nat) == lib_name_chars(
            b.parents@.len() as nat,
            b.package_relative_index as nat,
        ),
{
    lemma_address_deterministic(a@, b@);
}

/// Sibling nodes share their package directory: the package path reads only
/// the depth, and two children of one node are equally deep.
pub proof fn lemma_siblings_share_package(a: ID, b: ID)
    requires
        a.parents@.len() == b.parents@.len(),
    ensures
        package_path_chars(a.parents@.len() as nat) == package_path_chars(
            b.parents@.len() as nat,
        ),
{
}

/// Every library directory of a depth-`d` node lies inside the one depth-`d`
/// package directory: its path starts with the package path, whatever the
/// node's rank.
pub proof fn lemma_lib_path_in_package(d: nat, r: nat)
    requires
        d >= 1,
    ensures
        lib_path_chars(d, r).take(package_path_chars(d).len() as int) == package_path_chars(d),
{
    assert(lib_path_chars(d, r).take(package_path_chars(d).len() as int) =~= package_path_chars(
        d,
    ));
}

} // verus!
