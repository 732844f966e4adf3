//! Batch import decisions.
//!
//! An `Importer` runs the decision side of one import call: it knows the
//! project root, the managed import directory below it, and which
//! destination paths are taken.  For each source it validates the path,
//! resolves a free destination, commits it as taken (so later sources in
//! the same batch cannot land on it), and records the root-relative
//! report.  The caller performs the actual byte copies; any failure
//! aborts the batch, and already-committed copies stay on disk while no
//! partial report list is handed out.

use vstd::prelude::*;
use vstd::string::StringExecFns;
use crate::errors::ImportError;
use crate::names::NameSet;
use crate::paths::{
    candidate,
    dir_of,
    file_name_of,
    file_name_ok,
    file_name_string,
    join_path,
    join_strings,
    lemma_file_name_slash_free,
    lemma_split_point_join,
    name_ok,
    report_of,
    report_string,
    under_root,
};
use crate::resolve::{resolve_unique, resolves};

verus! {

/// The fixed path of the managed import directory below the project
/// root: `/static/imports`.
pub open spec fn managed_subdir() -> Seq<char> {
    seq!['/', 's', 't', 'a', 't', 'i', 'c', '/', 'i', 'm', 'p', 'o', 'r', 't', 's']
}

/// The managed import directory for a project root.
pub fn managed_dir(root: &String) -> (r: String)
    ensures
        r@ == root@ + managed_subdir(),
{
    let mut r = root.clone();
    let sub = "/static/imports";
    proof {
        reveal_strlit("/static/imports");
        assert(sub@ =~= managed_subdir());
    }
    r.append(sub);
    proof {
        assert(r@ =~= root@ + managed_subdir());
    }
    r
}

/// An import batch touches the filesystem only when it has sources.
pub fn batch_has_work(sources: &Vec<String>) -> (r: bool)
    ensures
        r == (sources@.len() > 0),
{
    sources.len() > 0
}

/// One planned copy: the caller copies the bytes of `source` to `dest`.
#[derive(Debug)]
pub struct CopyJob {
    pub source: String,
    pub dest: String,
}

/// Every destination a session commits lies below the project root.
proof fn lemma_dest_under_root(root: Seq<char>, desired: Seq<char>, name: Seq<char>, dest: Seq<char>)
    requires
        desired == join_path(root + managed_subdir(), name),
        forall|i: int| 0 <= i < name.len() ==> name[i] != '/',
        dest == desired || (exists|n: nat| 1 <= n && dest == candidate(desired, n)),
    ensures
        under_root(root, dest),
{
    let dd = root + managed_subdir();
    assert(managed_subdir()[0] == '/');
    lemma_split_point_join(dd, name);
    if dest == desired {
        assert forall|i: int| 0 <= i < root.len() implies dest[i] == root[i] by {
            assert(dest[i] == (dd + seq!['/'])[i]);
            assert((dd + seq!['/'])[i] == dd[i]);
            assert(dd[i] == root[i]);
        }
        assert(dest.take(root.len() as int) =~= root);
        assert(dest[root.len() as int] == dd[root.len() as int]);
        assert(dd[root.len() as int] == managed_subdir()[0]);
    } else {
        let n = choose|n: nat| 1 <= n && dest == candidate(desired, n);
        let head = dir_of(desired);
        assert(head == dd + seq!['/']);
        let tail = crate::paths::stem_of(file_name_of(desired)) + seq!['-']
            + crate::digits::dec_rep(n) + crate::paths::ext_of(file_name_of(desired));
        assert(dest =~= head + tail) by {
            assert(dest == ((((head + crate::paths::stem_of(file_name_of(desired)))
                + seq!['-']) + crate::digits::dec_rep(n))
                + crate::paths::ext_of(file_name_of(desired))));
        }
        assert forall|i: int| 0 <= i < root.len() implies dest[i] == root[i] by {
            assert(dest[i] == head[i]);
            assert(head[i] == dd[i]);
            assert(dd[i] == root[i]);
        }
        assert(dest.take(root.len() as int) =~= root);
        assert(dest[root.len() as int] == head[root.len() as int]);
        assert(head[root.len() as int] == dd[root.len() as int]);
        assert(dd[root.len() as int] == managed_subdir()[0]);
    }
}

/// The decision state of one import batch.
pub struct Importer {
    root: String,
    dest_dir: String,
    existing: NameSet,
    reported: Vec<String>,
    chosen: Ghost<Seq<Seq<char>>>,
}

impl Importer {
    /// The project root the session reports against.
    pub closed spec fn root_view(&self) -> Seq<char> {
        self.root@
    }

    /// The managed import directory of the session.
    pub closed spec fn dest_dir_view(&self) -> Seq<char> {
        self.dest_dir@
    }

    /// The destination paths the session considers taken: the initial
    /// listing plus every destination it has committed.
    pub closed spec fn occupied(&self) -> Set<Seq<char>> {
        self.existing@
    }

    /// The root-relative reports committed so far, in input order.
    pub closed spec fn reports(&self) -> Seq<Seq<char>> {
        self.reported@.map_values(|s: String| s@)
    }

    /// The destinations committed so far, in input order.
    pub closed spec fn dests(&self) -> Seq<Seq<char>> {
        self.chosen@
    }

    /// The session invariant: the managed directory sits below the
    /// root; every committed destination is taken, distinct from all
    /// others, below the root, and reported relative to the root.
    pub closed spec fn wf(&self) -> bool {
        &&& self.dest_dir@ == self.root@ + managed_subdir()
        &&& self.reported@.len() == self.chosen@.len()
        &&& (forall|i: int|
            0 <= i < self.chosen@.len() ==> self.existing@.contains(#[trigger] self.chosen@[i]))
        &&& (forall|i: int, j: int|
            0 <= i < j < self.chosen@.len() ==> self.chosen@[i] != self.chosen@[j])
        &&& (forall|i: int|
            0 <= i < self.chosen@.len() ==> under_root(self.root@, #[trigger] self.chosen@[i]))
        &&& (forall|i: int|
            0 <= i < self.chosen@.len() ==> #[trigger] self.reported@[i]@ == report_of(
                self.root@,
                self.chosen@[i],
            ))
    }

    /// Starts a batch for `root`, with `listing` the file names already
    /// inside the managed import directory.
    pub fn new(root: String, listing: Vec<String>) -> (imp: Importer)
        ensures
            imp.wf(),
            imp.root_view() == root@,
            imp.dest_dir_view() == root@ + managed_subdir(),
            imp.reports() == Seq::<Seq<char>>::empty(),
            imp.dests() == Seq::<Seq<char>>::empty(),
            forall|p: Seq<char>|
                imp.occupied().contains(p) <==> (exists|i: int|
                    0 <= i < listing@.len() && p == join_path(
                        root@ + managed_subdir(),
                        #[trigger] listing@[i]@,
                    )),
    {
        let dest_dir = managed_dir(&root);
        let mut existing = NameSet::new();
        let n = listing.len();
        let mut i: usize = 0;
        while i < n
            invariant
                0 <= i <= n,
                n == listing@.len(),
                dest_dir@ == root@ + managed_subdir(),
                forall|p: Seq<char>|
                    existing@.contains(p) <==> (exists|j: int|
                        0 <= j < i && p == join_path(dest_dir@, #[trigger] listing@[j]@)),
            decreases n - i,
        {
            let full = join_strings(&dest_dir, &listing[i]);
            let ghost before = existing@;
            existing.insert(full);
            proof {
                assert forall|p: Seq<char>|
                    existing@.contains(p) <==> (exists|j: int|
                        0 <= j < i + 1 && p == join_path(dest_dir@, #[trigger] listing@[j]@)) by {
                    if existing@.contains(p) {
                        if p == full@ {
                            assert(p == join_path(dest_dir@, listing@[i as int]@));
                        } else {
                            assert(before.contains(p));
                        }
                    }
                    if exists|j: int|
                        0 <= j < i + 1 && p == join_path(dest_dir@, #[trigger] listing@[j]@) {
                        let j = choose|j: int|
                            0 <= j < i + 1 && p == join_path(dest_dir@, #[trigger] listing@[j]@);
                        if j < i {
                            assert(before.contains(p));
                        } else {
                            assert(p == full@);
                        }
                    }
                }
            }
            i = i + 1;
        }
        let imp = Importer {
            root,
            dest_dir,
            existing,
            reported: Vec::new(),
            chosen: Ghost(Seq::empty()),
        };
        proof {
            assert(imp.reports() =~= Seq::<Seq<char>>::empty());
        }
        imp
    }

    /// The managed import directory, for the caller to create and list.
    pub fn dest_dir(&self) -> (r: &String)
        ensures
            r@ == self.dest_dir_view(),
    {
        &self.dest_dir
    }

    /// Decides one source, in input order.  `source_present` is whether
    /// the source exists.  On success the returned job carries the
    /// committed destination: free before this call, taken afterwards,
    /// and reported relative to the root.  On failure the session is
    /// unchanged and the error names the offending path.
    pub fn import_one(&mut self, source: &String, source_present: bool) -> (r: Result<
        CopyJob,
        ImportError,
    >)
        requires
            old(self).wf(),
        ensures
            final(self).wf(),
            final(self).root_view() == old(self).root_view(),
            final(self).dest_dir_view() == old(self).dest_dir_view(),
            match r {
                Result::Err(e) => {
                    &&& !(source_present && file_name_ok(file_name_of(source@)))
                    &&& *final(self) == *old(self)
                    &&& (!source_present ==> (e matches ImportError::SourceNotFound {
                        source: s,
                    } && s@ == source@))
                    &&& (source_present ==> (e matches ImportError::InvalidPath {
                        source: s,
                    } && s@ == source@))
                },
                Result::Ok(job) => {
                    &&& source_present
                    &&& file_name_ok(file_name_of(source@))
                    &&& job.source@ == source@
                    &&& resolves(
                        old(self).occupied(),
                        join_path(old(self).dest_dir_view(), file_name_of(source@)),
                        job.dest@,
                    )
                    &&& !old(self).occupied().contains(job.dest@)
                    &&& under_root(old(self).root_view(), job.dest@)
                    &&& final(self).occupied() == old(self).occupied().insert(job.dest@)
                    &&& final(self).dests() == old(self).dests().push(job.dest@)
                    &&& final(self).reports() == old(self).reports().push(
                        report_of(old(self).root_view(), job.dest@),
                    )
                },
            },
    {
        if !source_present {
            return Result::Err(ImportError::SourceNotFound { source: source.clone() });
        }
        let name = file_name_string(source);
        if !name_ok(&name) {
            return Result::Err(ImportError::InvalidPath { source: source.clone() });
        }
        let desired = join_strings(&self.dest_dir, &name);
        let dest = resolve_unique(&self.existing, &desired);
        proof {
            lemma_file_name_slash_free(source@);
            if old(self).occupied().contains(desired@) {
                assert(exists|n: nat| 1 <= n && dest@ == candidate(desired@, n));
            }
            lemma_dest_under_root(self.root@, desired@, name@, dest@);
        }
        self.existing.insert(dest.clone());
        let report = report_string(&self.root, &dest);
        self.reported.push(report);
        proof {
            self.chosen@ = old(self).chosen@.push(dest@);
        }
        let job = CopyJob { source: source.clone(), dest };
        proof {
            assert(self.reports() =~= old(self).reports().push(
                report_of(old(self).root_view(), job.dest@),
            ));
        }
        Result::Ok(job)
    }

    /// Hands out the reports of a completed batch, one per imported
    /// source, in input order.
    pub fn into_reports(self) -> (r: Vec<String>)
        ensures
            r@.map_values(|s: String| s@) == self.reports(),
    {
        self.reported
    }
}

/// No overwrite within a batch: any two destinations a session has
/// committed are distinct, and so are their reported paths.
pub proof fn lemma_no_overwrite(imp: &Importer, i: int, j: int)
    requires
        imp.wf(),
        0 <= i < j < imp.dests().len(),
    ensures
        imp.dests()[i] != imp.dests()[j],
        imp.reports()[i] != imp.reports()[j],
{
    lemma_reports_in_order(imp, i);
    lemma_reports_in_order(imp, j);
    let root = imp.root_view();
    let k = root.len() as int + 1;
    let di = imp.dests()[i];
    let dj = imp.dests()[j];
    if imp.reports()[i] == imp.reports()[j] {
        assert(di.skip(k) == dj.skip(k));
        assert(di.len() == dj.len());
        assert forall|m: int| 0 <= m < di.len() implies di[m] == dj[m] by {
            if m < root.len() {
                assert(di.take(root.len() as int)[m] == di[m]);
                assert(dj.take(root.len() as int)[m] == dj[m]);
            } else if m == root.len() {
                assert(di[m] == '/' && dj[m] == '/');
            } else {
                assert(di.skip(k)[m - k] == di[m]);
                assert(dj.skip(k)[m - k] == dj[m]);
            }
        }
        assert(di =~= dj);
    }
}

/// Order and relativity of reporting: a session's reports correspond
/// one to one, in order, to its committed destinations, each the
/// destination made relative to the project root it lies below.
pub proof fn lemma_reports_in_order(imp: &Importer, i: int)
    requires
        imp.wf(),
        0 <= i < imp.dests().len(),
    ensures
        imp.reports().len() == imp.dests().len(),
        under_root(imp.root_view(), imp.dests()[i]),
        imp.reports()[i] == report_of(imp.root_view(), imp.dests()[i]),
        imp.reports()[i] == imp.dests()[i].skip(imp.root_view().len() as int + 1),
{
}

} // verus!
