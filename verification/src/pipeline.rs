//! The download pipeline, as pure planning: which files a run of the Java,
//! JNI or C++ pipeline writes under its output root, given what each mirror
//! attempt would hand back.
//!
//! The caller performs the fetches and the writes; it reports each mirror
//! attempt as the body fetched from that mirror's URL, or nothing when the
//! attempt failed. Attempts are consumed in mirror order and the first
//! attempt that succeeds — for archive flavors, whose bytes also extract
//! safely — commits the artifact; every earlier failure is swallowed. A
//! dependency whose attempts are exhausted is skipped when
//! `skip_failed_packages` is set, and otherwise aborts the run with the
//! not-found error naming its coordinate.

use vstd::prelude::*;

use crate::archive::{plan_zip_extraction, spec_extract_plan, PlannedFile, PlannedFileView};
use crate::error::{Error, ErrorView};
use crate::model::{CppDependencyView, JavaDependencyView, JniDependencyView, VendorDep};
use crate::urls::{coordinate_string, spec_coordinate, spec_java_file_name};

verus! {

/// The body committed by a sequence of mirror attempts for a plain file:
/// the first attempt that fetched at all.
pub open spec fn spec_first_fetch(attempts: Seq<Option<Seq<u8>>>) -> Option<Seq<u8>>
    decreases attempts.len(),
{
    if attempts.len() == 0 {
        None
    } else {
        match attempts[0] {
            Some(b) => Some(b),
            None => spec_first_fetch(attempts.drop_first()),
        }
    }
}

/// The extraction committed by a sequence of mirror attempts for an
/// archive: the files planned from the first attempt that fetched bytes
/// which extract safely. An attempt whose bytes fail to open, read back or
/// pass the path check is swallowed like a failed fetch, and the next
/// mirror is tried.
pub open spec fn spec_first_extraction(attempts: Seq<Option<Seq<u8>>>) -> Option<
    Seq<PlannedFileView>,
>
    decreases attempts.len(),
{
    if attempts.len() == 0 {
        None
    } else {
        match attempts[0] {
            Some(b) => match spec_extract_plan(b) {
                Ok(files) => Some(files),
                Err(_) => spec_first_extraction(attempts.drop_first()),
            },
            None => spec_first_extraction(attempts.drop_first()),
        }
    }
}

/// Every planned file moved under a directory prefix.
pub open spec fn spec_prefix_files(prefix: Seq<char>, files: Seq<PlannedFileView>) -> Seq<
    PlannedFileView,
> {
    files.map_values(|f: PlannedFileView| PlannedFileView { path: prefix + f.path, data: f.data })
}

/// The files a Java pipeline run writes: for each dependency in manifest
/// order, its jar under its jar file name, from the first mirror that
/// fetched it.
pub open spec fn spec_plan_java(
    deps: Seq<JavaDependencyView>,
    outcomes: Seq<Seq<Option<Seq<u8>>>>,
    skip_failed_packages: bool,
) -> Result<Seq<PlannedFileView>, ErrorView>
    decreases deps.len(),
{
    if deps.len() == 0 {
        Ok(Seq::empty())
    } else {
        match spec_plan_java(deps.drop_last(), outcomes.drop_last(), skip_failed_packages) {
            Err(e) => Err(e),
            Ok(files) => {
                let dep = deps.last();
                match spec_first_fetch(outcomes.last()) {
                    Some(b) => Ok(
                        files.push(
                            PlannedFileView {
                                path: spec_java_file_name(dep.artifact_id, dep.version),
                                data: b,
                            },
                        ),
                    ),
                    None => if skip_failed_packages {
                        Ok(files)
                    } else {
                        Err(
                            ErrorView::NotFound(
                                spec_coordinate(dep.group_id, dep.artifact_id, dep.version),
                            ),
                        )
                    },
                }
            },
        }
    }
}

/// The files a JNI pipeline run writes: for each dependency in manifest
/// order, its platform bundle extracted under `<artifact_id>/`, from the
/// first mirror whose bytes extract safely.
pub open spec fn spec_plan_jni(
    deps: Seq<JniDependencyView>,
    outcomes: Seq<Seq<Option<Seq<u8>>>>,
    skip_failed_packages: bool,
) -> Result<Seq<PlannedFileView>, ErrorView>
    decreases deps.len(),
{
    if deps.len() == 0 {
        Ok(Seq::empty())
    } else {
        match spec_plan_jni(deps.drop_last(), outcomes.drop_last(), skip_failed_packages) {
            Err(e) => Err(e),
            Ok(files) => {
                let dep = deps.last();
                match spec_first_extraction(outcomes.last()) {
                    Some(extracted) => Ok(
                        files + spec_prefix_files(dep.artifact_id + "/"@, extracted),
                    ),
                    None => if skip_failed_packages {
                        Ok(files)
                    } else {
                        Err(
                            ErrorView::NotFound(
                                spec_coordinate(dep.group_id, dep.artifact_id, dep.version),
                            ),
                        )
                    },
                }
            },
        }
    }
}

/// The outcomes of one C++ dependency's two downloads: the mirror attempts
/// for its headers bundle and for its platform binaries, each in mirror
/// order.
pub struct CppDepOutcomes {
    /// One entry per mirror attempt for the headers bundle.
    pub headers: Vec<Option<Vec<u8>>>,
    /// One entry per mirror attempt for the platform binaries.
    pub libs: Vec<Option<Vec<u8>>>,
}

/// The mathematical value of a [`CppDepOutcomes`].
pub struct CppDepOutcomesView {
    pub headers: Seq<Option<Seq<u8>>>,
    pub libs: Seq<Option<Seq<u8>>>,
}

impl DeepView for CppDepOutcomes {
    type V = CppDepOutcomesView;

    open spec fn deep_view(&self) -> CppDepOutcomesView {
        CppDepOutcomesView { headers: self.headers.deep_view(), libs: self.libs.deep_view() }
    }
}

/// The files a C++ pipeline run writes: for each dependency in manifest
/// order, its headers bundle extracted under `<artifact_id>/include/` and
/// its platform binaries under `<artifact_id>/libs/`, each committed by its
/// own mirror failover. When the headers are exhausted the whole dependency
/// is skipped; when only the binaries are exhausted its headers still
/// stand.
pub open spec fn spec_plan_cpp(
    deps: Seq<CppDependencyView>,
    outcomes: Seq<CppDepOutcomesView>,
    skip_failed_packages: bool,
) -> Result<Seq<PlannedFileView>, ErrorView>
    decreases deps.len(),
{
    if deps.len() == 0 {
        Ok(Seq::empty())
    } else {
        match spec_plan_cpp(deps.drop_last(), outcomes.drop_last(), skip_failed_packages) {
            Err(e) => Err(e),
            Ok(files) => {
                let dep = deps.last();
                let rounds = outcomes.last();
                let coordinate = ErrorView::NotFound(
                    spec_coordinate(dep.group_id, dep.artifact_id, dep.version),
                );
                match spec_first_extraction(rounds.headers) {
                    None => if skip_failed_packages {
                        Ok(files)
                    } else {
                        Err(coordinate)
                    },
                    Some(headers) => {
                        let with_headers = files + spec_prefix_files(
                            dep.artifact_id + "/include/"@,
                            headers,
                        );
                        match spec_first_extraction(rounds.libs) {
                            None => if skip_failed_packages {
                                Ok(with_headers)
                            } else {
                                Err(coordinate)
                            },
                            Some(libs) => Ok(
                                with_headers + spec_prefix_files(
                                    dep.artifact_id + "/libs/"@,
                                    libs,
                                ),
                            ),
                        }
                    },
                }
            },
        }
    }
}

/// Clone a byte buffer.
fn clone_bytes(v: &Vec<u8>) -> (r: Vec<u8>)
    ensures
        r@ == v@,
{
    let r = v.clone();
    proof {
        assert(r@ =~= v@);
    }
    r
}

/// The body committed by a dependency's mirror attempts, if any.
#[verifier::loop_isolation(false)]
fn select_fetched(attempts: &Vec<Option<Vec<u8>>>) -> (r: Option<Vec<u8>>)
    ensures
        r.deep_view() == spec_first_fetch(attempts.deep_view()),
{
    let n = attempts.len();
    let mut i: usize = 0;
    proof {
        assert(attempts.deep_view().skip(0) =~= attempts.deep_view());
    }
    while i < n
        invariant
            i <= n,
            spec_first_fetch(attempts.deep_view()) == spec_first_fetch(
                attempts.deep_view().skip(i as int),
            ),
        decreases n - i,
    {
        let ghost suffix = attempts.deep_view().skip(i as int);
        proof {
            assert(suffix[0] == attempts.deep_view()[i as int]);
            assert(suffix.drop_first() =~= attempts.deep_view().skip(i + 1));
        }
        match &attempts[i] {
            Some(b) => {
                let c = clone_bytes(b);
                proof {
                    assert(c.deep_view() =~= c@);
                }
                return Some(c);
            },
            None => {},
        }
        i = i + 1;
    }
    proof {
        assert(attempts.deep_view().skip(n as int) =~= Seq::<Option<Seq<u8>>>::empty());
    }
    None
}

/// The extraction committed by a dependency's mirror attempts, if any.
#[verifier::loop_isolation(false)]
fn select_extraction(attempts: &Vec<Option<Vec<u8>>>) -> (r: Option<Vec<PlannedFile>>)
    ensures
        match r {
            Some(files) => spec_first_extraction(attempts.deep_view()) == Some(files.deep_view()),
            None => spec_first_extraction(attempts.deep_view()) is None,
        },
{
    let n = attempts.len();
    let mut i: usize = 0;
    proof {
        assert(attempts.deep_view().skip(0) =~= attempts.deep_view());
    }
    while i < n
        invariant
            i <= n,
            spec_first_extraction(attempts.deep_view()) == spec_first_extraction(
                attempts.deep_view().skip(i as int),
            ),
        decreases n - i,
    {
        let ghost suffix = attempts.deep_view().skip(i as int);
        proof {
            assert(suffix[0] == attempts.deep_view()[i as int]);
            assert(suffix.drop_first() =~= attempts.deep_view().skip(i + 1));
        }
        match &attempts[i] {
            Some(b) => {
                proof {
                    assert(b.deep_view() =~= b@);
                }
                match plan_zip_extraction(clone_bytes(b)) {
                    Ok(files) => {
                        return Some(files);
                    },
                    Err(_) => {},
                }
            },
            None => {},
        }
        i = i + 1;
    }
    proof {
        assert(attempts.deep_view().skip(n as int) =~= Seq::<Option<Seq<u8>>>::empty());
    }
    None
}

/// Every planned file moved under a directory prefix.
#[verifier::loop_isolation(false)]
fn prefix_files(prefix: &str, files: &Vec<PlannedFile>) -> (r: Vec<PlannedFile>)
    ensures
        r.deep_view() == spec_prefix_files(prefix@, files.deep_view()),
{
    let mut r: Vec<PlannedFile> = Vec::new();
    let n = files.len();
    let mut i: usize = 0;
    proof {
        assert(r.deep_view() =~= spec_prefix_files(prefix@, files.deep_view().subrange(0, 0)));
    }
    while i < n
        invariant
            i <= n,
            r.deep_view() == spec_prefix_files(prefix@, files.deep_view().subrange(0, i as int)),
        decreases n - i,
    {
        let mut path = String::from_str(prefix);
        path.append(files[i].path.as_str());
        let data = clone_bytes(&files[i].data);
        let ghost prev = r.deep_view();
        let ghost fv = PlannedFileView { path: path@, data: data@ };
        r.push(PlannedFile { path, data });
        proof {
            assert(r.deep_view() =~= prev.push(fv));
            assert(prev.push(fv) =~= spec_prefix_files(
                prefix@,
                files.deep_view().subrange(0, i + 1),
            ));
        }
        i = i + 1;
    }
    proof {
        assert(files.deep_view().subrange(0, n as int) =~= files.deep_view());
    }
    r
}

/// Append `more` to `files`.
#[verifier::loop_isolation(false)]
fn append_files(files: &mut Vec<PlannedFile>, more: Vec<PlannedFile>)
    ensures
        final(files).deep_view() == old(files).deep_view() + more.deep_view(),
{
    let n = more.len();
    let mut i: usize = 0;
    proof {
        assert(files.deep_view() =~= old(files).deep_view() + more.deep_view().subrange(0, 0));
    }
    while i < n
        invariant
            i <= n,
            files.deep_view() == old(files).deep_view() + more.deep_view().subrange(0, i as int),
        decreases n - i,
    {
        let ghost prev = files.deep_view();
        let f = PlannedFile {
            path: more[i].path.clone(),
            data: clone_bytes(&more[i].data),
        };
        let ghost fv = f.deep_view();
        files.push(f);
        proof {
            assert(fv == more.deep_view()[i as int]);
            assert(files.deep_view() =~= prev.push(fv));
            assert(prev.push(fv) =~= old(files).deep_view() + more.deep_view().subrange(
                0,
                i + 1,
            ));
        }
        i = i + 1;
    }
    proof {
        assert(more.deep_view().subrange(0, n as int) =~= more.deep_view());
    }
}

impl VendorDep {
    /// Plan a Java pipeline run over this manifest: `outcomes[d]` reports,
    /// in mirror order, what fetching dependency `d`'s jar from each mirror
    /// handed back. The plan lists the jars to write, flat under the output
    /// root, in manifest order.
    #[verifier::loop_isolation(false)]
    pub fn plan_java_downloads(
        &self,
        outcomes: &Vec<Vec<Option<Vec<u8>>>>,
        skip_failed_packages: bool,
    ) -> (r: Result<Vec<PlannedFile>, Error>)
        requires
            outcomes@.len() == self.java_dependencies@.len(),
        ensures
            match r {
                Ok(files) => spec_plan_java(
                    self.deep_view().java_dependencies,
                    outcomes.deep_view(),
                    skip_failed_packages,
                ) == Ok::<Seq<PlannedFileView>, ErrorView>(files.deep_view()),
                Err(e) => spec_plan_java(
                    self.deep_view().java_dependencies,
                    outcomes.deep_view(),
                    skip_failed_packages,
                ) == Err::<Seq<PlannedFileView>, ErrorView>(e.deep_view()),
            },
    {
        let ghost deps = self.deep_view().java_dependencies;
        let ghost outs = outcomes.deep_view();
        let n = self.java_dependencies.len();
        let mut files: Vec<PlannedFile> = Vec::new();
        let mut i: usize = 0;
        proof {
            assert(deps.subrange(0, 0) =~= Seq::<JavaDependencyView>::empty());
            assert(files.deep_view() =~= Seq::<PlannedFileView>::empty());
        }
        while i < n
            invariant
                i <= n,
                spec_plan_java(
                    deps.subrange(0, i as int),
                    outs.subrange(0, i as int),
                    skip_failed_packages,
                ) == Ok::<Seq<PlannedFileView>, ErrorView>(files.deep_view()),
            decreases n - i,
        {
            proof {
                assert(deps.subrange(0, i + 1).drop_last() =~= deps.subrange(0, i as int));
                assert(outs.subrange(0, i + 1).drop_last() =~= outs.subrange(0, i as int));
                assert(outs.subrange(0, i + 1).last() == outs[i as int]);
            }
            let dep = &self.java_dependencies[i];
            match select_fetched(&outcomes[i]) {
                Some(bytes) => {
                    let ghost prev = files.deep_view();
                    let name = dep.file_name();
                    let ghost fv = PlannedFileView { path: name@, data: bytes@ };
                    proof {
                        assert(bytes.deep_view() =~= bytes@);
                    }
                    files.push(PlannedFile { path: name, data: bytes });
                    proof {
                        assert(files.deep_view() =~= prev.push(fv));
                    }
                },
                None => {
                    if !skip_failed_packages {
                        let coordinate = coordinate_string(
                            dep.group_id.as_str(),
                            dep.artifact_id.as_str(),
                            dep.version.as_str(),
                        );
                        proof {
                            assert(spec_plan_java(
                                deps.subrange(0, i + 1),
                                outs.subrange(0, i + 1),
                                skip_failed_packages,
                            ) == Err::<Seq<PlannedFileView>, ErrorView>(ErrorView::NotFound(
                                spec_coordinate(
                                    deps[i as int].group_id,
                                    deps[i as int].artifact_id,
                                    deps[i as int].version,
                                ),
                            )));
                            lemma_java_plan_error_persists(
                                deps,
                                outs,
                                skip_failed_packages,
                                i + 1,
                            );
                        }
                        return Err(Error::NotFound(coordinate));
                    }
                },
            }
            proof {
                assert(spec_plan_java(
                    deps.subrange(0, i + 1),
                    outs.subrange(0, i + 1),
                    skip_failed_packages,
                ) == Ok::<Seq<PlannedFileView>, ErrorView>(files.deep_view()));
            }
            i = i + 1;
        }
        proof {
            assert(deps.subrange(0, n as int) =~= deps);
            assert(outs.subrange(0, n as int) =~= outs);
        }
        Ok(files)
    }

    /// Plan a JNI pipeline run over this manifest: `outcomes[d]` reports,
    /// in mirror order, what fetching dependency `d`'s platform bundle from
    /// each mirror handed back. The plan lists the extracted files to
    /// write, each under `<artifact_id>/`, in manifest order.
    #[verifier::loop_isolation(false)]
    pub fn plan_jni_downloads(
        &self,
        outcomes: &Vec<Vec<Option<Vec<u8>>>>,
        skip_failed_packages: bool,
    ) -> (r: Result<Vec<PlannedFile>, Error>)
        requires
            outcomes@.len() == self.jni_dependencies@.len(),
        ensures
            match r {
                Ok(files) => spec_plan_jni(
                    self.deep_view().jni_dependencies,
                    outcomes.deep_view(),
                    skip_failed_packages,
                ) == Ok::<Seq<PlannedFileView>, ErrorView>(files.deep_view()),
                Err(e) => spec_plan_jni(
                    self.deep_view().jni_dependencies,
                    outcomes.deep_view(),
                    skip_failed_packages,
                ) == Err::<Seq<PlannedFileView>, ErrorView>(e.deep_view()),
            },
    {
        let ghost deps = self.deep_view().jni_dependencies;
        let ghost outs = outcomes.deep_view();
        let n = self.jni_dependencies.len();
        let mut files: Vec<PlannedFile> = Vec::new();
        let mut i: usize = 0;
        proof {
            assert(deps.subrange(0, 0) =~= Seq::<JniDependencyView>::empty());
            assert(files.deep_view() =~= Seq::<PlannedFileView>::empty());
        }
        while i < n
            invariant
                i <= n,
                spec_plan_jni(
                    deps.subrange(0, i as int),
                    outs.subrange(0, i as int),
                    skip_failed_packages,
                ) == Ok::<Seq<PlannedFileView>, ErrorView>(files.deep_view()),
            decreases n - i,
        {
            proof {
                assert(deps.subrange(0, i + 1).drop_last() =~= deps.subrange(0, i as int));
                assert(outs.subrange(0, i + 1).drop_last() =~= outs.subrange(0, i as int));
                assert(outs.subrange(0, i + 1).last() == outs[i as int]);
            }
            let dep = &self.jni_dependencies[i];
            match select_extraction(&outcomes[i]) {
                Some(extracted) => {
                    let mut prefix = dep.artifact_id.clone();
                    prefix.append("/");
                    let moved = prefix_files(prefix.as_str(), &extracted);
                    append_files(&mut files, moved);
                },
                None => {
                    if !skip_failed_packages {
                        let coordinate = coordinate_string(
                            dep.group_id.as_str(),
                            dep.artifact_id.as_str(),
                            dep.version.as_str(),
                        );
                        proof {
                            lemma_jni_plan_error_persists(
                                deps,
                                outs,
                                skip_failed_packages,
                                i + 1,
                            );
                        }
                        return Err(Error::NotFound(coordinate));
                    }
                },
            }
            proof {
                assert(spec_plan_jni(
                    deps.subrange(0, i + 1),
                    outs.subrange(0, i + 1),
                    skip_failed_packages,
                ) == Ok::<Seq<PlannedFileView>, ErrorView>(files.deep_view()));
            }
            i = i + 1;
        }
        proof {
            assert(deps.subrange(0, n as int) =~= deps);
            assert(outs.subrange(0, n as int) =~= outs);
        }
        Ok(files)
    }

    /// Plan a C++ pipeline run over this manifest: `outcomes[d]` reports
    /// the mirror attempts for dependency `d`'s headers bundle and platform
    /// binaries. The plan lists the extracted files to write, headers under
    /// `<artifact_id>/include/` and binaries under `<artifact_id>/libs/`,
    /// in manifest order.
    #[verifier::loop_isolation(false)]
    pub fn plan_cpp_downloads(
        &self,
        outcomes: &Vec<CppDepOutcomes>,
        skip_failed_packages: bool,
    ) -> (r: Result<Vec<PlannedFile>, Error>)
        requires
            outcomes@.len() == self.cpp_dependencies@.len(),
        ensures
            match r {
                Ok(files) => spec_plan_cpp(
                    self.deep_view().cpp_dependencies,
                    outcomes.deep_view(),
                    skip_failed_packages,
                ) == Ok::<Seq<PlannedFileView>, ErrorView>(files.deep_view()),
                Err(e) => spec_plan_cpp(
                    self.deep_view().cpp_dependencies,
                    outcomes.deep_view(),
                    skip_failed_packages,
                ) == Err::<Seq<PlannedFileView>, ErrorView>(e.deep_view()),
            },
    {
        let ghost deps = self.deep_view().cpp_dependencies;
        let ghost outs = outcomes.deep_view();
        let n = self.cpp_dependencies.len();
        let mut files: Vec<PlannedFile> = Vec::new();
        let mut i: usize = 0;
        proof {
            assert(deps.subrange(0, 0) =~= Seq::<CppDependencyView>::empty());
            assert(files.deep_view() =~= Seq::<PlannedFileView>::empty());
        }
        while i < n
            invariant
                i <= n,
                spec_plan_cpp(
                    deps.subrange(0, i as int),
                    outs.subrange(0, i as int),
                    skip_failed_packages,
                ) == Ok::<Seq<PlannedFileView>, ErrorView>(files.deep_view()),
            decreases n - i,
        {
            proof {
                assert(deps.subrange(0, i + 1).drop_last() =~= deps.subrange(0, i as int));
                assert(outs.subrange(0, i + 1).drop_last() =~= outs.subrange(0, i as int));
                assert(outs.subrange(0, i + 1).last() == outs[i as int]);
            }
            let dep = &self.cpp_dependencies[i];
            let exhausted: bool;
            match select_extraction(&outcomes[i].headers) {
                Some(headers) => {
                    let mut header_prefix = dep.artifact_id.clone();
                    header_prefix.append("/include/");
                    let moved = prefix_files(header_prefix.as_str(), &headers);
                    append_files(&mut files, moved);
                    match select_extraction(&outcomes[i].libs) {
                        Some(libs) => {
                            let mut lib_prefix = dep.artifact_id.clone();
                            lib_prefix.append("/libs/");
                            let moved = prefix_files(lib_prefix.as_str(), &libs);
                            append_files(&mut files, moved);
                            exhausted = false;
                        },
                        None => {
                            exhausted = true;
                        },
                    }
                },
                None => {
                    exhausted = true;
                },
            }
            if exhausted && !skip_failed_packages {
                let coordinate = coordinate_string(
                    dep.group_id.as_str(),
                    dep.artifact_id.as_str(),
                    dep.version.as_str(),
                );
                proof {
                    lemma_cpp_plan_error_persists(deps, outs, skip_failed_packages, i + 1);
                }
                return Err(Error::NotFound(coordinate));
            }
            proof {
                assert(spec_plan_cpp(
                    deps.subrange(0, i + 1),
                    outs.subrange(0, i + 1),
                    skip_failed_packages,
                ) == Ok::<Seq<PlannedFileView>, ErrorView>(files.deep_view()));
            }
            i = i + 1;
        }
        proof {
            assert(deps.subrange(0, n as int) =~= deps);
            assert(outs.subrange(0, n as int) =~= outs);
        }
        Ok(files)
    }
}

/// A round whose first `k-1` attempts failed and whose `k`-th fetched
/// commits the `k`-th body.
proof fn lemma_first_fetch_commits_kth(attempts: Seq<Option<Seq<u8>>>, k: int)
    requires
        1 <= k <= attempts.len(),
        forall|i: int| 0 <= i < k - 1 ==> #[trigger] attempts[i] is None,
        attempts[k - 1] is Some,
    ensures
        spec_first_fetch(attempts) == attempts[k - 1],
    decreases k,
{
    if k > 1 {
        assert(forall|i: int|
            0 <= i < attempts.len() - 1 ==> #[trigger] attempts.drop_first()[i] == attempts[i
                + 1]);
        lemma_first_fetch_commits_kth(attempts.drop_first(), k - 1);
    }
}

/// A round whose first `k-1` attempts failed and whose `k`-th fetched
/// bytes that extract commits the `k`-th extraction.
proof fn lemma_first_extraction_commits_kth(attempts: Seq<Option<Seq<u8>>>, k: int)
    requires
        1 <= k <= attempts.len(),
        forall|i: int| 0 <= i < k - 1 ==> #[trigger] attempts[i] is None,
        attempts[k - 1] is Some,
        spec_extract_plan(attempts[k - 1]->Some_0) is Ok,
    ensures
        spec_first_extraction(attempts) == Some(
            spec_extract_plan(attempts[k - 1]->Some_0)->Ok_0,
        ),
    decreases k,
{
    if k > 1 {
        assert(forall|i: int|
            0 <= i < attempts.len() - 1 ==> #[trigger] attempts.drop_first()[i] == attempts[i
                + 1]);
        lemma_first_extraction_commits_kth(attempts.drop_first(), k - 1);
    }
}

/// A round all of whose attempts failed commits nothing.
proof fn lemma_first_fetch_exhausted(attempts: Seq<Option<Seq<u8>>>)
    requires
        forall|i: int| 0 <= i < attempts.len() ==> #[trigger] attempts[i] is None,
    ensures
        spec_first_fetch(attempts) is None,
    decreases attempts.len(),
{
    if attempts.len() > 0 {
        assert(forall|i: int|
            0 <= i < attempts.len() - 1 ==> #[trigger] attempts.drop_first()[i] == attempts[i
                + 1]);
        lemma_first_fetch_exhausted(attempts.drop_first());
    }
}

/// A round all of whose attempts failed extracts nothing.
proof fn lemma_first_extraction_exhausted(attempts: Seq<Option<Seq<u8>>>)
    requires
        forall|i: int| 0 <= i < attempts.len() ==> #[trigger] attempts[i] is None,
    ensures
        spec_first_extraction(attempts) is None,
    decreases attempts.len(),
{
    if attempts.len() > 0 {
        assert(forall|i: int|
            0 <= i < attempts.len() - 1 ==> #[trigger] attempts.drop_first()[i] == attempts[i
                + 1]);
        lemma_first_extraction_exhausted(attempts.drop_first());
    }
}

/// Mirror failover equivalence for the Java pipeline: when, for every
/// dependency, the first `k-1` mirrors fail and the `k`-th fetches the
/// jar, the planned on-disk state equals that of a single-mirror manifest
/// holding only the `k`-th mirror's outcomes.
pub proof fn lemma_java_failover_equivalence(
    deps: Seq<JavaDependencyView>,
    outcomes: Seq<Seq<Option<Seq<u8>>>>,
    k: int,
    skip_failed_packages: bool,
)
    requires
        outcomes.len() == deps.len(),
        k >= 1,
        forall|d: int| 0 <= d < deps.len() ==> #[trigger] outcomes[d].len() >= k,
        forall|d: int, i: int|
            0 <= d < deps.len() && 0 <= i < k - 1 ==> #[trigger] outcomes[d][i] is None,
        forall|d: int| 0 <= d < deps.len() ==> #[trigger] outcomes[d][k - 1] is Some,
    ensures
        spec_plan_java(deps, outcomes, skip_failed_packages) == spec_plan_java(
            deps,
            outcomes.map_values(|o: Seq<Option<Seq<u8>>>| seq![o[k - 1]]),
            skip_failed_packages,
        ),
    decreases deps.len(),
{
    let single = outcomes.map_values(|o: Seq<Option<Seq<u8>>>| seq![o[k - 1]]);
    if deps.len() > 0 {
        lemma_java_failover_equivalence(
            deps.drop_last(),
            outcomes.drop_last(),
            k,
            skip_failed_packages,
        );
        assert(outcomes.drop_last().map_values(|o: Seq<Option<Seq<u8>>>| seq![o[k - 1]])
            =~= single.drop_last());
        lemma_first_fetch_commits_kth(outcomes.last(), k);
        assert(single.last() == seq![outcomes.last()[k - 1]]);
        lemma_first_fetch_commits_kth(single.last(), 1);
    }
}

/// Mirror failover equivalence for the JNI pipeline: when, for every
/// dependency, the first `k-1` mirrors fail and the `k`-th fetches a
/// bundle that extracts safely, the planned on-disk state equals that of a
/// single-mirror manifest holding only the `k`-th mirror's outcomes.
pub proof fn lemma_jni_failover_equivalence(
    deps: Seq<JniDependencyView>,
    outcomes: Seq<Seq<Option<Seq<u8>>>>,
    k: int,
    skip_failed_packages: bool,
)
    requires
        outcomes.len() == deps.len(),
        k >= 1,
        forall|d: int| 0 <= d < deps.len() ==> #[trigger] outcomes[d].len() >= k,
        forall|d: int, i: int|
            0 <= d < deps.len() && 0 <= i < k - 1 ==> #[trigger] outcomes[d][i] is None,
        forall|d: int| 0 <= d < deps.len() ==> #[trigger] outcomes[d][k - 1] is Some,
        forall|d: int|
            0 <= d < deps.len() ==> spec_extract_plan(#[trigger] outcomes[d][k - 1]->Some_0)
                is Ok,
    ensures
        spec_plan_jni(deps, outcomes, skip_failed_packages) == spec_plan_jni(
            deps,
            outcomes.map_values(|o: Seq<Option<Seq<u8>>>| seq![o[k - 1]]),
            skip_failed_packages,
        ),
    decreases deps.len(),
{
    let single = outcomes.map_values(|o: Seq<Option<Seq<u8>>>| seq![o[k - 1]]);
    if deps.len() > 0 {
        lemma_jni_failover_equivalence(
            deps.drop_last(),
            outcomes.drop_last(),
            k,
            skip_failed_packages,
        );
        assert(outcomes.drop_last().map_values(|o: Seq<Option<Seq<u8>>>| seq![o[k - 1]])
            =~= single.drop_last());
        lemma_first_extraction_commits_kth(outcomes.last(), k);
        assert(single.last() == seq![outcomes.last()[k - 1]]);
        lemma_first_extraction_commits_kth(single.last(), 1);
    }
}

/// Mirror failover equivalence for the C++ pipeline: when, for every
/// dependency and for both of its downloads, the first `k-1` mirrors fail
/// and the `k`-th fetches a bundle that extracts safely, the planned
/// on-disk state equals that of a single-mirror manifest holding only the
/// `k`-th mirror's outcomes.
pub proof fn lemma_cpp_failover_equivalence(
    deps: Seq<CppDependencyView>,
    outcomes: Seq<CppDepOutcomesView>,
    k: int,
    skip_failed_packages: bool,
)
    requires
        outcomes.len() == deps.len(),
        k >= 1,
        forall|d: int| 0 <= d < deps.len() ==> #[trigger] outcomes[d].headers.len() >= k,
        forall|d: int| 0 <= d < deps.len() ==> #[trigger] outcomes[d].libs.len() >= k,
        forall|d: int, i: int|
            0 <= d < deps.len() && 0 <= i < k - 1 ==> #[trigger] outcomes[d].headers[i] is None,
        forall|d: int, i: int|
            0 <= d < deps.len() && 0 <= i < k - 1 ==> #[trigger] outcomes[d].libs[i] is None,
        forall|d: int| 0 <= d < deps.len() ==> #[trigger] outcomes[d].headers[k - 1] is Some,
        forall|d: int| 0 <= d < deps.len() ==> #[trigger] outcomes[d].libs[k - 1] is Some,
        forall|d: int|
            0 <= d < deps.len() ==> spec_extract_plan(
                #[trigger] outcomes[d].headers[k - 1]->Some_0,
            ) is Ok,
        forall|d: int|
            0 <= d < deps.len() ==> spec_extract_plan(#[trigger] outcomes[d].libs[k - 1]->Some_0)
                is Ok,
    ensures
        spec_plan_cpp(deps, outcomes, skip_failed_packages) == spec_plan_cpp(
            deps,
            outcomes.map_values(
                |o: CppDepOutcomesView| CppDepOutcomesView {
                    headers: seq![o.headers[k - 1]],
                    libs: seq![o.libs[k - 1]],
                },
            ),
            skip_failed_packages,
        ),
    decreases deps.len(),
{
    let single = outcomes.map_values(
        |o: CppDepOutcomesView| CppDepOutcomesView {
            headers: seq![o.headers[k - 1]],
            libs: seq![o.libs[k - 1]],
        },
    );
    if deps.len() > 0 {
        lemma_cpp_failover_equivalence(
            deps.drop_last(),
            outcomes.drop_last(),
            k,
            skip_failed_packages,
        );
        assert(outcomes.drop_last().map_values(
            |o: CppDepOutcomesView| CppDepOutcomesView {
                headers: seq![o.headers[k - 1]],
                libs: seq![o.libs[k - 1]],
            },
        ) =~= single.drop_last());
        lemma_first_extraction_commits_kth(outcomes.last().headers, k);
        lemma_first_extraction_commits_kth(outcomes.last().libs, k);
        assert(single.last().headers == seq![outcomes.last().headers[k - 1]]);
        assert(single.last().libs == seq![outcomes.last().libs[k - 1]]);
        lemma_first_extraction_commits_kth(single.last().headers, 1);
        lemma_first_extraction_commits_kth(single.last().libs, 1);
    }
}

/// Skip semantics for the Java pipeline: with `skip_failed_packages` set,
/// a manifest whose first dependency's mirrors all fail plans exactly what
/// the manifest without that dependency plans.
pub proof fn lemma_java_skip_failed_first(
    deps: Seq<JavaDependencyView>,
    outcomes: Seq<Seq<Option<Seq<u8>>>>,
)
    requires
        deps.len() > 0,
        outcomes.len() == deps.len(),
        forall|i: int| 0 <= i < outcomes[0].len() ==> #[trigger] outcomes[0][i] is None,
    ensures
        spec_plan_java(deps, outcomes, true) == spec_plan_java(
            deps.drop_first(),
            outcomes.drop_first(),
            true,
        ),
    decreases deps.len(),
{
    if deps.len() == 1 {
        lemma_first_fetch_exhausted(outcomes.last());
        assert(deps.drop_last() =~= Seq::<JavaDependencyView>::empty());
        assert(outcomes.drop_last() =~= Seq::<Seq<Option<Seq<u8>>>>::empty());
        assert(deps.drop_first() =~= Seq::<JavaDependencyView>::empty());
        assert(outcomes.drop_first() =~= Seq::<Seq<Option<Seq<u8>>>>::empty());
    } else {
        lemma_java_skip_failed_first(deps.drop_last(), outcomes.drop_last());
        assert(deps.drop_last().drop_first() =~= deps.drop_first().drop_last());
        assert(outcomes.drop_last().drop_first() =~= outcomes.drop_first().drop_last());
        assert(deps.drop_first().last() == deps.last());
        assert(outcomes.drop_first().last() == outcomes.last());
    }
}

/// Skip semantics for the JNI pipeline: with `skip_failed_packages` set, a
/// manifest whose first dependency's mirrors all fail plans exactly what
/// the manifest without that dependency plans.
pub proof fn lemma_jni_skip_failed_first(
    deps: Seq<JniDependencyView>,
    outcomes: Seq<Seq<Option<Seq<u8>>>>,
)
    requires
        deps.len() > 0,
        outcomes.len() == deps.len(),
        forall|i: int| 0 <= i < outcomes[0].len() ==> #[trigger] outcomes[0][i] is None,
    ensures
        spec_plan_jni(deps, outcomes, true) == spec_plan_jni(
            deps.drop_first(),
            outcomes.drop_first(),
            true,
        ),
    decreases deps.len(),
{
    if deps.len() == 1 {
        lemma_first_extraction_exhausted(outcomes.last());
        assert(deps.drop_last() =~= Seq::<JniDependencyView>::empty());
        assert(outcomes.drop_last() =~= Seq::<Seq<Option<Seq<u8>>>>::empty());
        assert(deps.drop_first() =~= Seq::<JniDependencyView>::empty());
        assert(outcomes.drop_first() =~= Seq::<Seq<Option<Seq<u8>>>>::empty());
    } else {
        lemma_jni_skip_failed_first(deps.drop_last(), outcomes.drop_last());
        assert(deps.drop_last().drop_first() =~= deps.drop_first().drop_last());
        assert(outcomes.drop_last().drop_first() =~= outcomes.drop_first().drop_last());
        assert(deps.drop_first().last() == deps.last());
        assert(outcomes.drop_first().last() == outcomes.last());
    }
}

/// Skip semantics for the C++ pipeline: with `skip_failed_packages` set, a
/// manifest whose first dependency's header mirrors all fail plans exactly
/// what the manifest without that dependency plans.
pub proof fn lemma_cpp_skip_failed_first(
    deps: Seq<CppDependencyView>,
    outcomes: Seq<CppDepOutcomesView>,
)
    requires
        deps.len() > 0,
        outcomes.len() == deps.len(),
        forall|i: int|
            0 <= i < outcomes[0].headers.len() ==> #[trigger] outcomes[0].headers[i] is None,
    ensures
        spec_plan_cpp(deps, outcomes, true) == spec_plan_cpp(
            deps.drop_first(),
            outcomes.drop_first(),
            true,
        ),
    decreases deps.len(),
{
    if deps.len() == 1 {
        lemma_first_extraction_exhausted(outcomes.last().headers);
        assert(deps.drop_last() =~= Seq::<CppDependencyView>::empty());
        assert(outcomes.drop_last() =~= Seq::<CppDepOutcomesView>::empty());
        assert(deps.drop_first() =~= Seq::<CppDependencyView>::empty());
        assert(outcomes.drop_first() =~= Seq::<CppDepOutcomesView>::empty());
    } else {
        lemma_cpp_skip_failed_first(deps.drop_last(), outcomes.drop_last());
        assert(deps.drop_last().drop_first() =~= deps.drop_first().drop_last());
        assert(outcomes.drop_last().drop_first() =~= outcomes.drop_first().drop_last());
        assert(deps.drop_first().last() == deps.last());
        assert(outcomes.drop_first().last() == outcomes.last());
    }
}

/// An error while planning the first dependencies decides the whole plan.
proof fn lemma_java_plan_error_persists(
    deps: Seq<JavaDependencyView>,
    outcomes: Seq<Seq<Option<Seq<u8>>>>,
    skip_failed_packages: bool,
    j: int,
)
    requires
        0 <= j <= deps.len(),
        deps.len() == outcomes.len(),
        spec_plan_java(deps.subrange(0, j), outcomes.subrange(0, j), skip_failed_packages) is Err,
    ensures
        spec_plan_java(deps, outcomes, skip_failed_packages) == spec_plan_java(
            deps.subrange(0, j),
            outcomes.subrange(0, j),
            skip_failed_packages,
        ),
    decreases deps.len() - j,
{
    if j == deps.len() {
        assert(deps.subrange(0, j) =~= deps);
        assert(outcomes.subrange(0, j) =~= outcomes);
    } else {
        assert(deps.subrange(0, j + 1).drop_last() =~= deps.subrange(0, j));
        assert(outcomes.subrange(0, j + 1).drop_last() =~= outcomes.subrange(0, j));
        lemma_java_plan_error_persists(deps, outcomes, skip_failed_packages, j + 1);
    }
}

/// An error while planning the first dependencies decides the whole plan.
proof fn lemma_jni_plan_error_persists(
    deps: Seq<JniDependencyView>,
    outcomes: Seq<Seq<Option<Seq<u8>>>>,
    skip_failed_packages: bool,
    j: int,
)
    requires
        0 <= j <= deps.len(),
        deps.len() == outcomes.len(),
        spec_plan_jni(deps.subrange(0, j), outcomes.subrange(0, j), skip_failed_packages) is Err,
    ensures
        spec_plan_jni(deps, outcomes, skip_failed_packages) == spec_plan_jni(
            deps.subrange(0, j),
            outcomes.subrange(0, j),
            skip_failed_packages,
        ),
    decreases deps.len() - j,
{
    if j == deps.len() {
        assert(deps.subrange(0, j) =~= deps);
        assert(outcomes.subrange(0, j) =~= outcomes);
    } else {
        assert(deps.subrange(0, j + 1).drop_last() =~= deps.subrange(0, j));
        assert(outcomes.subrange(0, j + 1).drop_last() =~= outcomes.subrange(0, j));
        lemma_jni_plan_error_persists(deps, outcomes, skip_failed_packages, j + 1);
    }
}

/// An error while planning the first dependencies decides the whole plan.
proof fn lemma_cpp_plan_error_persists(
    deps: Seq<CppDependencyView>,
    outcomes: Seq<CppDepOutcomesView>,
    skip_failed_packages: bool,
    j: int,
)
    requires
        0 <= j <= deps.len(),
        deps.len() == outcomes.len(),
        spec_plan_cpp(deps.subrange(0, j), outcomes.subrange(0, j), skip_failed_packages) is Err,
    ensures
        spec_plan_cpp(deps, outcomes, skip_failed_packages) == spec_plan_cpp(
            deps.subrange(0, j),
            outcomes.subrange(0, j),
            skip_failed_packages,
        ),
    decreases deps.len() - j,
{
    if j == deps.len() {
        assert(deps.subrange(0, j) =~= deps);
        assert(outcomes.subrange(0, j) =~= outcomes);
    } else {
        assert(deps.subrange(0, j + 1).drop_last() =~= deps.subrange(0, j));
        assert(outcomes.subrange(0, j + 1).drop_last() =~= outcomes.subrange(0, j));
        lemma_cpp_plan_error_persists(deps, outcomes, skip_failed_packages, j + 1);
    }
}

} // verus!
