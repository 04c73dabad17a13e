//! The include/library-path/library triple a C/C++ compiler driver needs,
//! and its construction from a materialized on-disk layout.

use vstd::prelude::*;

use crate::scan::{scan_entries, spec_scan_libs, spec_scan_paths};
use crate::text::{join_with, spec_join};

verus! {

/// Every element of `items` with `prefix` prepended, in order.
pub open spec fn spec_prefix_all(prefix: Seq<char>, items: Seq<Seq<char>>) -> Seq<Seq<char>> {
    items.map_values(|p: Seq<char>| prefix + p)
}

/// Info needed for C++ compilation, produced by scanning a directory layout
/// of extracted artifacts.
#[derive(Debug, Clone, PartialEq, Eq)]
pub struct CppInfo {
    /// Root directories containing headers, in artifact order.
    pub include_dirs: Vec<String>,
    /// Directories containing library objects, in artifact order and, per
    /// artifact, walk order.
    pub library_search_paths: Vec<String>,
    /// Bare library names, in artifact order and, per artifact, walk order;
    /// duplicates kept.
    pub libraries: Vec<String>,
}

/// The mathematical value of a [`CppInfo`].
pub struct CppInfoView {
    pub include_dirs: Seq<Seq<char>>,
    pub library_search_paths: Seq<Seq<char>>,
    pub libraries: Seq<Seq<char>>,
}

impl DeepView for CppInfo {
    type V = CppInfoView;

    open spec fn deep_view(&self) -> CppInfoView {
        CppInfoView {
            include_dirs: self.include_dirs.deep_view(),
            library_search_paths: self.library_search_paths.deep_view(),
            libraries: self.libraries.deep_view(),
        }
    }
}

/// One artifact's materialized directory: the directory itself and the
/// walked entries beneath its library subtree, in walk order.
#[derive(Debug, Clone, PartialEq, Eq)]
pub struct ArtifactTree {
    /// The artifact's directory under the output root.
    pub artifact_dir: String,
    /// Every walked path under the artifact's library subtree, in walk
    /// order.
    pub entries: Vec<String>,
}

/// The mathematical value of an [`ArtifactTree`].
pub struct ArtifactTreeView {
    pub artifact_dir: Seq<char>,
    pub entries: Seq<Seq<char>>,
}

impl DeepView for ArtifactTree {
    type V = ArtifactTreeView;

    open spec fn deep_view(&self) -> ArtifactTreeView {
        ArtifactTreeView { artifact_dir: self.artifact_dir@, entries: self.entries.deep_view() }
    }
}

/// The search paths of a sequence of artifact walks, artifact by artifact.
pub open spec fn spec_trees_paths(trees: Seq<ArtifactTreeView>) -> Seq<Seq<char>>
    decreases trees.len(),
{
    if trees.len() == 0 {
        Seq::empty()
    } else {
        spec_trees_paths(trees.drop_last()) + spec_scan_paths(trees.last().entries)
    }
}

/// The library names of a sequence of artifact walks, artifact by artifact.
pub open spec fn spec_trees_libs(trees: Seq<ArtifactTreeView>) -> Seq<Seq<char>>
    decreases trees.len(),
{
    if trees.len() == 0 {
        Seq::empty()
    } else {
        spec_trees_libs(trees.drop_last()) + spec_scan_libs(trees.last().entries)
    }
}

/// Ordering preservation: one more artifact appends exactly its own walk's
/// search paths and library names after everything the earlier artifacts
/// contributed, in order.
pub proof fn lemma_trees_order(trees: Seq<ArtifactTreeView>, t: ArtifactTreeView)
    ensures
        spec_trees_paths(trees.push(t)) == spec_trees_paths(trees) + spec_scan_paths(t.entries),
        spec_trees_libs(trees.push(t)) == spec_trees_libs(trees) + spec_scan_libs(t.entries),
{
    assert(trees.push(t).drop_last() =~= trees);
    assert(trees.push(t).last() == t);
}

impl CppInfo {
    /// A `CppInfo` with no include directories, search paths or libraries.
    pub fn new_empty() -> (r: CppInfo)
        ensures
            r.include_dirs.deep_view() == Seq::<Seq<char>>::empty(),
            r.library_search_paths.deep_view() == Seq::<Seq<char>>::empty(),
            r.libraries.deep_view() == Seq::<Seq<char>>::empty(),
    {
        let r = CppInfo { include_dirs: Vec::new(), library_search_paths: Vec::new(), libraries: Vec::new() };
        proof {
            assert(r.include_dirs.deep_view() =~= Seq::<Seq<char>>::empty());
            assert(r.library_search_paths.deep_view() =~= Seq::<Seq<char>>::empty());
            assert(r.libraries.deep_view() =~= Seq::<Seq<char>>::empty());
        }
        r
    }

    /// Scan the layout produced for C++ dependencies: each artifact
    /// directory contributes `<dir>/include` as an include directory
    /// (whether or not it exists), and its walked entries contribute search
    /// paths and library names.
    pub fn from_trees(trees: &Vec<ArtifactTree>) -> (r: CppInfo)
        ensures
            r.include_dirs.deep_view() == trees.deep_view().map_values(
                |t: ArtifactTreeView| t.artifact_dir + "/include"@,
            ),
            r.library_search_paths.deep_view() == spec_trees_paths(trees.deep_view()),
            r.libraries.deep_view() == spec_trees_libs(trees.deep_view()),
    {
        let mut r = CppInfo::new_empty();
        let n = trees.len();
        let mut i: usize = 0;
        while i < n
            invariant
                i <= n,
                n == trees@.len(),
                r.include_dirs.deep_view() =~= trees.deep_view().subrange(0, i as int).map_values(
                    |t: ArtifactTreeView| t.artifact_dir + "/include"@,
                ),
                r.library_search_paths.deep_view() == spec_trees_paths(
                    trees.deep_view().subrange(0, i as int),
                ),
                r.libraries.deep_view() == spec_trees_libs(trees.deep_view().subrange(0, i as int)),
            decreases n - i,
        {
            proof {
                assert(trees.deep_view().subrange(0, i + 1).drop_last() =~= trees.deep_view()
                    .subrange(0, i as int));
                assert(trees.deep_view().subrange(0, i + 1).last() == trees.deep_view()[i as int]);
            }
            let mut header_dir = trees[i].artifact_dir.clone();
            header_dir.append("/include");
            let ghost inc_prev = r.include_dirs.deep_view();
            let ghost hv = header_dir@;
            r.include_dirs.push(header_dir);
            proof {
                assert(r.include_dirs.deep_view() =~= inc_prev.push(hv));
            }
            let (paths, libs) = scan_entries(&trees[i].entries);
            r.append_strings_to_paths(paths);
            r.append_strings_to_libs(libs);
            proof {
                assert(inc_prev.push(hv) =~= trees.deep_view().subrange(0, i + 1).map_values(
                    |t: ArtifactTreeView| t.artifact_dir + "/include"@,
                ));
            }
            i = i + 1;
        }
        proof {
            assert(trees.deep_view().subrange(0, n as int) =~= trees.deep_view());
        }
        r
    }

    /// Scan the layout produced for JNI dependencies: no include
    /// directories; each artifact's walked entries contribute search paths
    /// and library names.
    pub fn from_walks(walks: &Vec<ArtifactTree>) -> (r: CppInfo)
        ensures
            r.include_dirs.deep_view() == Seq::<Seq<char>>::empty(),
            r.library_search_paths.deep_view() == spec_trees_paths(walks.deep_view()),
            r.libraries.deep_view() == spec_trees_libs(walks.deep_view()),
    {
        let mut r = CppInfo::new_empty();
        let n = walks.len();
        let mut i: usize = 0;
        while i < n
            invariant
                i <= n,
                n == walks@.len(),
                r.include_dirs.deep_view() == Seq::<Seq<char>>::empty(),
                r.library_search_paths.deep_view() == spec_trees_paths(
                    walks.deep_view().subrange(0, i as int),
                ),
                r.libraries.deep_view() == spec_trees_libs(walks.deep_view().subrange(0, i as int)),
            decreases n - i,
        {
            proof {
                assert(walks.deep_view().subrange(0, i + 1).drop_last() =~= walks.deep_view()
                    .subrange(0, i as int));
                assert(walks.deep_view().subrange(0, i + 1).last() == walks.deep_view()[i as int]);
            }
            let (paths, libs) = scan_entries(&walks[i].entries);
            r.append_strings_to_paths(paths);
            r.append_strings_to_libs(libs);
            i = i + 1;
        }
        proof {
            assert(walks.deep_view().subrange(0, n as int) =~= walks.deep_view());
        }
        r
    }

    /// Append the elements of `more` to the search paths, keeping order.
    fn append_strings_to_paths(&mut self, more: Vec<String>)
        ensures
            final(self).include_dirs == old(self).include_dirs,
            final(self).libraries == old(self).libraries,
            final(self).library_search_paths.deep_view() == old(self).library_search_paths
                .deep_view() + more.deep_view(),
    {
        append_strings(&mut self.library_search_paths, more);
    }

    /// Append the elements of `more` to the library names, keeping order.
    fn append_strings_to_libs(&mut self, more: Vec<String>)
        ensures
            final(self).include_dirs == old(self).include_dirs,
            final(self).library_search_paths == old(self).library_search_paths,
            final(self).libraries.deep_view() == old(self).libraries.deep_view()
                + more.deep_view(),
    {
        append_strings(&mut self.libraries, more);
    }

    /// Combine another `CppInfo` into this one: each of the three sequences
    /// is concatenated in order, without de-duplication.
    pub fn extend(&mut self, other: CppInfo)
        ensures
            final(self).include_dirs.deep_view() == old(self).include_dirs.deep_view()
                + other.include_dirs.deep_view(),
            final(self).library_search_paths.deep_view() == old(self).library_search_paths
                .deep_view() + other.library_search_paths.deep_view(),
            final(self).libraries.deep_view() == old(self).libraries.deep_view()
                + other.libraries.deep_view(),
    {
        append_strings(&mut self.include_dirs, other.include_dirs);
        append_strings(&mut self.library_search_paths, other.library_search_paths);
        append_strings(&mut self.libraries, other.libraries);
    }

    /// The `LD_LIBRARY_PATH` value for runtime linking: the search paths
    /// joined with `:`.
    pub fn ld_library_path(&self) -> (r: String)
        ensures
            r@ == spec_join(self.library_search_paths.deep_view(), ":"@),
    {
        join_with(&self.library_search_paths, ":")
    }

    /// The `gcc`/`clang` arguments for the include directories: `-I<dir>`
    /// per directory, in order.
    pub fn gcc_clang_include_dir_args(&self) -> (r: Vec<String>)
        ensures
            r.deep_view() == spec_prefix_all("-I"@, self.include_dirs.deep_view()),
    {
        prefix_all("-I", &self.include_dirs)
    }

    /// The `gcc`/`clang` arguments for the library search paths: `-L<dir>`
    /// per directory, in order.
    pub fn gcc_clang_library_search_path_args(&self) -> (r: Vec<String>)
        ensures
            r.deep_view() == spec_prefix_all("-L"@, self.library_search_paths.deep_view()),
    {
        prefix_all("-L", &self.library_search_paths)
    }

    /// The `gcc`/`clang` arguments for the libraries: `-l<name>` per
    /// library, in order.
    pub fn gcc_clang_library_args(&self) -> (r: Vec<String>)
        ensures
            r.deep_view() == spec_prefix_all("-l"@, self.libraries.deep_view()),
    {
        prefix_all("-l", &self.libraries)
    }

    /// All `gcc`/`clang` arguments: include flags, then search-path flags,
    /// then library flags.
    pub fn gcc_clang_args(&self) -> (r: Vec<String>)
        ensures
            r.deep_view() == spec_prefix_all("-I"@, self.include_dirs.deep_view())
                + spec_prefix_all("-L"@, self.library_search_paths.deep_view())
                + spec_prefix_all("-l"@, self.libraries.deep_view()),
    {
        let mut r = self.gcc_clang_include_dir_args();
        let mut search = self.gcc_clang_library_search_path_args();
        let mut libs = self.gcc_clang_library_args();
        append_strings(&mut r, search);
        append_strings(&mut r, libs);
        r
    }
}

/// Append every element of `more` to `v`, in order.
fn append_strings(v: &mut Vec<String>, more: Vec<String>)
    ensures
        final(v).deep_view() == old(v).deep_view() + more.deep_view(),
{
    let n = more.len();
    let mut i: usize = 0;
    while i < n
        invariant
            i <= n,
            n == more@.len(),
            v.deep_view() =~= old(v).deep_view() + more.deep_view().subrange(0, i as int),
        decreases n - i,
    {
        let ghost prev = v.deep_view();
        v.push(more[i].clone());
        proof {
            assert(v.deep_view() =~= prev.push(more.deep_view()[i as int]));
            assert(prev.push(more.deep_view()[i as int]) =~= old(v).deep_view()
                + more.deep_view().subrange(0, i + 1));
        }
        i = i + 1;
    }
    proof {
        assert(more.deep_view().subrange(0, n as int) =~= more.deep_view());
        assert(final(v).deep_view() =~= old(v).deep_view() + more.deep_view());
    }
}

/// Every element of `items` with `prefix` prepended, in order.
fn prefix_all(prefix: &str, items: &Vec<String>) -> (r: Vec<String>)
    ensures
        r.deep_view() == spec_prefix_all(prefix@, items.deep_view()),
{
    let mut r: Vec<String> = Vec::new();
    let n = items.len();
    let mut i: usize = 0;
    while i < n
        invariant
            i <= n,
            n == items@.len(),
            r.deep_view() =~= spec_prefix_all(prefix@, items.deep_view().subrange(0, i as int)),
        decreases n - i,
    {
        let mut s = String::from_str(prefix);
        s.append(items[i].as_str());
        let ghost prev = r.deep_view();
        let ghost sv = s@;
        r.push(s);
        proof {
            assert(r.deep_view() =~= prev.push(sv));
            assert(prev.push(sv) =~= spec_prefix_all(
                prefix@,
                items.deep_view().subrange(0, i + 1),
            ));
        }
        i = i + 1;
    }
    proof {
        assert(items.deep_view().subrange(0, n as int) =~= items.deep_view());
    }
    r
}

} // verus!
