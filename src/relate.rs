//! Grouping files by content: fingerprinting a file's bytes, collecting the
//! fingerprinted files into groups, the progress of a run, and the split of a
//! run among workers.

use itertools::Itertools;
use vstd::prelude::*;

use crate::fingerprint::{fingerprint, fingerprint_of};
use crate::inventory::{descs, wrong_size, Error, ErrorType, FileDesc, FileInfo};

verus! {

/// A file together with the fingerprint of its contents.
#[derive(Debug)]
pub struct HashedFile {
    pub hash: String,
    pub info: FileInfo,
}

/// The key a file is grouped by: its fingerprint and its size.
pub type GroupKey = (Seq<char>, u64);

impl HashedFile {
    pub open spec fn key(&self) -> GroupKey {
        (self.hash@, self.info.size)
    }
}

/// Fingerprints the contents read from the file that `info` describes.
///
/// The contents must be as long as the walk recorded; otherwise the file
/// changed since the walk and a size mismatch is reported for its path.
pub fn hash_contents(info: &FileInfo, contents: &[u8]) -> (r: Result<HashedFile, Error>)
    ensures
        contents@.len() != info.size <==> r is Err,
        r is Err ==> r->Err_0.path@ == info.name@ && r->Err_0.error_type == ErrorType::WrongSize(
            info.size,
            contents@.len() as u64,
        ),
        r is Ok ==> r->Ok_0.hash@ == fingerprint_of(contents@) && r->Ok_0.info@ == info@,
{
    let n = contents.len() as u64;
    if info.size != n {
        return Err(wrong_size(&info.name, info.size, n));
    }
    Ok(HashedFile { hash: fingerprint(contents), info: info.clone() })
}

/// Whether two fingerprinted files have the same length and fingerprint,
/// whatever their paths.
pub fn file_content_equal(file_a: &HashedFile, file_b: &HashedFile) -> (r: bool)
    ensures
        r == (file_a.key() == file_b.key()),
{
    file_a.info.size == file_b.info.size && file_a.hash == file_b.hash
}

/// The files that share one fingerprint and one size.
#[derive(Debug)]
pub struct Group {
    pub hash: String,
    pub size: u64,
    pub files: Vec<FileInfo>,
}

impl Group {
    pub open spec fn key(&self) -> GroupKey {
        (self.hash@, self.size)
    }

    pub open spec fn members(&self) -> Set<FileDesc> {
        descs(self.files@).to_set()
    }

    /// Not empty, no descriptor twice, every member of the group's size.
    pub open spec fn wf(&self) -> bool {
        &&& self.files@.len() > 0
        &&& descs(self.files@).no_duplicates()
        &&& forall|j: int| 0 <= j < self.files@.len() ==> (#[trigger] self.files@[j]).size == self.size
    }

    /// A group of one file.
    fn single(file: HashedFile) -> (r: Group)
        ensures
            r.wf(),
            r.key() == file.key(),
            r.members() == set![file.info@],
    {
        let HashedFile { hash, info } = file;
        let size = info.size;
        let ghost d = info@;
        let mut files = Vec::new();
        files.push(info);
        assert(descs(files@) =~= seq![d]);
        assert(seq![d].to_set() =~= set![d]) by {
            assert(seq![d][0] == d);
        }
        Group { hash, size, files }
    }

    /// Adds a file of the group's size, unless its descriptor is there already.
    fn insert(&mut self, info: FileInfo)
        requires
            old(self).wf(),
            info.size == old(self).size,
        ensures
            final(self).wf(),
            final(self).key() == old(self).key(),
            final(self).members() == old(self).members().insert(info@),
    {
        let mut i: usize = 0;
        while i < self.files.len()
            invariant
                self.wf(),
                i <= self.files@.len(),
                forall|j: int| 0 <= j < i ==> self.files@[j]@ != info@,
            decreases self.files@.len() - i,
        {
            if self.files[i] == info {
                assert(descs(self.files@)[i as int] == info@);
                assert(self.members().insert(info@) =~= self.members());
                return;
            }
            i += 1;
        }
        assert(!descs(self.files@).contains(info@));
        let ghost before = self.files@;
        let ghost d = info@;
        self.files.push(info);
        assert(descs(self.files@) =~= descs(before).push(d));
        assert(descs(self.files@).to_set() =~= descs(before).to_set().insert(d)) by {
            assert forall|x: FileDesc| descs(self.files@).contains(x) <==> descs(before).contains(x)
                || x == d by {
                if descs(self.files@).contains(x) {
                    let k = choose|k: int|
                        0 <= k < descs(self.files@).len() && descs(self.files@)[k] == x;
                    if k < before.len() {
                        assert(descs(before)[k] == x);
                    }
                }
                if descs(before).contains(x) {
                    let k = choose|k: int| 0 <= k < descs(before).len() && descs(before)[k] == x;
                    assert(descs(self.files@)[k] == x);
                }
                if x == d {
                    assert(descs(self.files@)[before.len() as int] == x);
                }
            }
        }
    }
}

/// `groups` with `d` added to the group of key `k`, which is created if
/// missing.
pub open spec fn add_member(groups: Map<GroupKey, Set<FileDesc>>, k: GroupKey, d: FileDesc) -> Map<
    GroupKey,
    Set<FileDesc>,
> {
    groups.insert(
        k,
        if groups.contains_key(k) {
            groups[k].insert(d)
        } else {
            set![d]
        },
    )
}

/// The grouping of a sequence of keyed descriptors: each descriptor in the
/// group of its key.
pub open spec fn partition_of(keyed: Seq<(GroupKey, FileDesc)>) -> Map<GroupKey, Set<FileDesc>>
    decreases keyed.len(),
{
    if keyed.len() == 0 {
        Map::empty()
    } else {
        add_member(partition_of(keyed.drop_last()), keyed.last().0, keyed.last().1)
    }
}

/// Grouping by key is a partition of what was grouped: there is a group for
/// exactly the keys that occur, and a group holds exactly the descriptors that
/// came with its key. So descriptors land in the same group if and only if
/// their keys are equal, and each lands in exactly one group.
pub proof fn lemma_partition(keyed: Seq<(GroupKey, FileDesc)>)
    ensures
        forall|k: GroupKey|
            partition_of(keyed).contains_key(k) <==> exists|i: int|
                0 <= i < keyed.len() && (#[trigger] keyed[i]).0 == k,
        forall|k: GroupKey, d: FileDesc|
            partition_of(keyed).contains_key(k) ==> (#[trigger] partition_of(keyed)[k].contains(d)
                <==> exists|i: int| 0 <= i < keyed.len() && (#[trigger] keyed[i]) == (k, d)),
    decreases keyed.len(),
{
    if keyed.len() > 0 {
        let prefix = keyed.drop_last();
        lemma_partition(prefix);
        let (lk, ld) = keyed.last();
        assert forall|k: GroupKey|
            partition_of(keyed).contains_key(k) <==> exists|i: int|
                0 <= i < keyed.len() && (#[trigger] keyed[i]).0 == k by {
            if partition_of(prefix).contains_key(k) {
                let i = choose|i: int| 0 <= i < prefix.len() && (#[trigger] prefix[i]).0 == k;
                assert(keyed[i] == prefix[i]);
            }
            if exists|i: int| 0 <= i < keyed.len() && (#[trigger] keyed[i]).0 == k {
                let i = choose|i: int| 0 <= i < keyed.len() && (#[trigger] keyed[i]).0 == k;
                if i < prefix.len() {
                    assert(prefix[i] == keyed[i]);
                }
            }
        }
        assert forall|k: GroupKey, d: FileDesc|
            partition_of(keyed).contains_key(k) implies (#[trigger] partition_of(keyed)[k].contains(d)
                <==> exists|i: int| 0 <= i < keyed.len() && (#[trigger] keyed[i]) == (k, d)) by {
            if exists|i: int| 0 <= i < keyed.len() && (#[trigger] keyed[i]) == (k, d) {
                let i = choose|i: int| 0 <= i < keyed.len() && (#[trigger] keyed[i]) == (k, d);
                if i < prefix.len() {
                    assert(prefix[i] == keyed[i]);
                }
            }
            if partition_of(prefix).contains_key(k) && partition_of(prefix)[k].contains(d) {
                let i = choose|i: int| 0 <= i < prefix.len() && (#[trigger] prefix[i]) == (k, d);
                assert(keyed[i] == prefix[i]);
            }
        }
    }
}

/// The outcome of a run: groups of files with equal contents, and the files
/// that could not be fingerprinted.
#[derive(Debug)]
pub struct RelatedFiles {
    pub files: Vec<Group>,
    pub errors: Vec<Error>,
}

impl RelatedFiles {
    /// Every group well formed, and no two groups with one key.
    pub open spec fn wf(&self) -> bool {
        &&& forall|i: int| 0 <= i < self.files@.len() ==> (#[trigger] self.files@[i]).wf()
        &&& forall|i: int, j: int|
            0 <= i < self.files@.len() && 0 <= j < self.files@.len() && i != j
                ==> (#[trigger] self.files@[i]).key() != (#[trigger] self.files@[j]).key()
    }

    /// Whether some group has key `k`.
    pub open spec fn has_key(&self, k: GroupKey) -> bool {
        exists|i: int| 0 <= i < self.files@.len() && (#[trigger] self.files@[i]).key() == k
    }

    /// The groups as a map from key to members.
    pub open spec fn groups(&self) -> Map<GroupKey, Set<FileDesc>> {
        Map::new(
            |k: GroupKey| self.has_key(k),
            |k: GroupKey|
                self.files@[choose|i: int|
                    0 <= i < self.files@.len() && (#[trigger] self.files@[i]).key() == k].members(),
        )
    }

    /// The group at index `i` is the map's entry for its key.
    pub proof fn lemma_group_at(&self, i: int)
        requires
            self.wf(),
            0 <= i < self.files@.len(),
        ensures
            self.groups().contains_key(self.files@[i].key()),
            self.groups()[self.files@[i].key()] == self.files@[i].members(),
    {
        let k = self.files@[i].key();
        assert(self.has_key(k));
        let c = choose|c: int| 0 <= c < self.files@.len() && (#[trigger] self.files@[c]).key() == k;
        assert(c == i);
    }

    /// A group holds only files of the size in its key, so two files of
    /// different sizes are never in one group.
    pub proof fn lemma_sizes_agree(&self)
        requires
            self.wf(),
        ensures
            forall|k: GroupKey, d: FileDesc|
                self.groups().contains_key(k) && #[trigger] self.groups()[k].contains(d) ==> d.size
                    == k.1,
            forall|k: GroupKey, a: FileDesc, b: FileDesc|
                self.groups().contains_key(k) && #[trigger] self.groups()[k].contains(a)
                    && #[trigger] self.groups()[k].contains(b) ==> a.size == b.size,
    {
        assert forall|k: GroupKey, d: FileDesc|
            self.groups().contains_key(k) && #[trigger] self.groups()[k].contains(d) implies d.size
                == k.1 by {
            let i = choose|i: int| 0 <= i < self.files@.len() && (#[trigger] self.files@[i]).key() == k;
            self.lemma_group_at(i);
            let g = self.files@[i];
            let j = choose|j: int| 0 <= j < descs(g.files@).len() && descs(g.files@)[j] == d;
            assert(g.files@[j].size == g.size);
        }
    }

    /// No groups and no errors.
    pub fn new() -> (r: Self)
        ensures
            r.wf(),
            r.files@.len() == 0,
            r.errors@.len() == 0,
            r.groups() == Map::<GroupKey, Set<FileDesc>>::empty(),
    {
        let r = RelatedFiles { files: Vec::new(), errors: Vec::new() };
        assert(r.groups() =~= Map::<GroupKey, Set<FileDesc>>::empty());
        r
    }

    /// The index of the group with the key of `file`, if there is one.
    fn find_group(&self, file: &HashedFile) -> (r: Option<usize>)
        ensures
            r is Some ==> r->Some_0 < self.files@.len() && self.files@[r->Some_0 as int].key()
                == file.key(),
            r is None ==> !self.has_key(file.key()),
    {
        let mut i: usize = 0;
        while i < self.files.len()
            invariant
                i <= self.files@.len(),
                forall|j: int| 0 <= j < i ==> (#[trigger] self.files@[j]).key() != file.key(),
            decreases self.files@.len() - i,
        {
            if self.files[i].size == file.info.size && self.files[i].hash == file.hash {
                return Some(i);
            }
            i += 1;
        }
        None
    }

    /// Takes in the outcome for one file. An error is appended to the errors;
    /// a fingerprinted file joins the group of its key, which is created if
    /// there is none yet. Every other group is left as it was.
    pub fn record(&mut self, result: Result<HashedFile, Error>)
        requires
            old(self).wf(),
        ensures
            final(self).wf(),
            result is Err ==> final(self).groups() == old(self).groups() && final(self).errors@
                == old(self).errors@.push(result->Err_0),
            result is Ok ==> final(self).errors@ == old(self).errors@ && final(self).groups()
                == add_member(old(self).groups(), result->Ok_0.key(), result->Ok_0.info@),
    {
        match result {
            Err(e) => {
                self.errors.push(e);
            },
            Ok(file) => {
                let ghost before = *self;
                let ghost k = file.key();
                let ghost d = file.info@;
                let ghost expected = add_member(before.groups(), k, d);
                match self.find_group(&file) {
                    Some(i) => {
                        self.files[i].insert(file.info);
                        assert(self.files@.len() == before.files@.len());
                        assert forall|j: int| 0 <= j < self.files@.len() && j != i implies
                            self.files@[j] == before.files@[j] by {}
                        assert(self.wf());
                        proof {
                            before.lemma_group_at(i as int);
                        }
                        assert forall|kk: GroupKey|
                            self.has_key(kk) <==> before.has_key(kk) by {
                            if self.has_key(kk) {
                                let j = choose|j: int|
                                    0 <= j < self.files@.len() && (#[trigger] self.files@[j]).key() == kk;
                                assert(before.files@[j].key() == kk);
                            }
                            if before.has_key(kk) {
                                let j = choose|j: int|
                                    0 <= j < before.files@.len() && (#[trigger] before.files@[j]).key() == kk;
                                assert(self.files@[j].key() == kk);
                            }
                        }
                        assert forall|kk: GroupKey| #[trigger] self.groups().contains_key(kk) implies
                            self.groups()[kk] == expected[kk] by {
                            let j = choose|j: int|
                                0 <= j < self.files@.len() && (#[trigger] self.files@[j]).key() == kk;
                            self.lemma_group_at(j);
                            before.lemma_group_at(j);
                        }
                        assert(self.groups() =~= expected);
                    },
                    None => {
                        let n = self.files.len();
                        self.files.push(Group::single(file));
                        assert forall|j: int| 0 <= j < n implies self.files@[j] == before.files@[j] by {}
                        assert(self.wf());
                        assert forall|kk: GroupKey|
                            self.has_key(kk) <==> (before.has_key(kk) || kk == k) by {
                            if self.has_key(kk) {
                                let j = choose|j: int|
                                    0 <= j < self.files@.len() && (#[trigger] self.files@[j]).key() == kk;
                                if j < n {
                                    assert(before.files@[j].key() == kk);
                                }
                            }
                            if before.has_key(kk) {
                                let j = choose|j: int|
                                    0 <= j < before.files@.len() && (#[trigger] before.files@[j]).key() == kk;
                                assert(self.files@[j].key() == kk);
                            }
                            if kk == k {
                                assert(self.files@[n as int].key() == kk);
                            }
                        }
                        assert forall|kk: GroupKey| #[trigger] self.groups().contains_key(kk) implies
                            self.groups()[kk] == expected[kk] by {
                            let j = choose|j: int|
                                0 <= j < self.files@.len() && (#[trigger] self.files@[j]).key() == kk;
                            self.lemma_group_at(j);
                            if j < n {
                                before.lemma_group_at(j);
                            }
                        }
                        assert(self.groups() =~= expected);
                    },
                }
            },
        }
    }
}

/// How far a run has come: `done` of `total` steps, as the fraction
/// `done / total`.
#[derive(Debug, Clone, Copy, PartialEq, Eq, Structural)]
pub struct Progress {
    pub done: u64,
    pub total: u64,
}

impl Progress {
    /// A fraction in the unit interval.
    pub open spec fn wf(self) -> bool {
        0 < self.total && self.done <= self.total
    }

    /// The fraction is no larger than that of `other`.
    pub open spec fn at_most(self, other: Progress) -> bool {
        self.done * other.total <= other.done * self.total
    }

    /// All of `total` steps done.
    pub open spec fn full(total: u64) -> Progress {
        Progress { done: total, total }
    }

    /// The fraction is exactly one.
    pub open spec fn is_complete(self) -> bool {
        self.done == self.total
    }
}

/// The number of progress steps of a run over `n` files: one per file, and
/// at least one, so that the fraction never divides by zero.
pub open spec fn steps_of(n: int) -> int {
    if n == 0 {
        1
    } else {
        n
    }
}

/// Within one run the fractions reported never decrease, and none exceeds
/// the final one, which is exactly one.
pub proof fn lemma_progress_monotone(earlier: Progress, later: Progress)
    requires
        earlier.wf(),
        later.wf(),
        earlier.total == later.total,
        earlier.done <= later.done,
    ensures
        earlier.at_most(later),
        later.at_most(Progress::full(later.total)),
        Progress::full(later.total).is_complete(),
{
    assert(earlier.done * later.total <= later.done * earlier.total) by (nonlinear_arith)
        requires
            earlier.total == later.total,
            earlier.done <= later.done,
    ;
    assert(later.done * later.total <= later.total * later.total) by (nonlinear_arith)
        requires
            later.done <= later.total,
    ;
}

/// The coordinator's state in a run: the outcome so far, and how many files
/// of the run have been taken in.
pub struct Relating {
    pub related: RelatedFiles,
    pub done: u64,
    pub total: u64,
    /// The key and descriptor of each fingerprinted file taken in, in order.
    pub hashed: Ghost<Seq<(GroupKey, FileDesc)>>,
}

impl Relating {
    /// The groups are the partition of the files fingerprinted so far, and no
    /// more files were taken in than the run has.
    pub open spec fn wf(&self) -> bool {
        &&& self.related.wf()
        &&& self.related.groups() == partition_of(self.hashed@)
        &&& self.done <= self.total
    }

    /// The progress so far.
    pub open spec fn progress_spec(&self) -> Progress {
        Progress { done: self.done, total: steps_of(self.total as int) as u64 }
    }

    /// A run over `n_files` files.
    pub fn new(n_files: u64) -> (r: Self)
        ensures
            r.wf(),
            r.done == 0,
            r.total == n_files,
            r.hashed@ == Seq::<(GroupKey, FileDesc)>::empty(),
            r.related.files@.len() == 0,
            r.related.errors@.len() == 0,
    {
        let related = RelatedFiles::new();
        assert(partition_of(Seq::<(GroupKey, FileDesc)>::empty()) =~= Map::empty());
        Relating { related, done: 0, total: n_files, hashed: Ghost(Seq::empty()) }
    }

    /// In a run, there is a group for exactly the keys of the files
    /// fingerprinted so far, and each group holds exactly the files that came
    /// with its key.
    pub proof fn lemma_run_partition(&self)
        requires
            self.wf(),
        ensures
            forall|k: GroupKey|
                self.related.groups().contains_key(k) <==> exists|i: int|
                    0 <= i < self.hashed@.len() && (#[trigger] self.hashed@[i]).0 == k,
            forall|k: GroupKey, d: FileDesc|
                self.related.groups().contains_key(k) ==> (
                #[trigger] self.related.groups()[k].contains(d) <==> exists|i: int|
                    0 <= i < self.hashed@.len() && (#[trigger] self.hashed@[i]) == (k, d)),
    {
        lemma_partition(self.hashed@);
    }

    /// The progress so far.
    pub fn progress(&self) -> (r: Progress)
        requires
            self.wf(),
        ensures
            r == self.progress_spec(),
            r.wf(),
    {
        Progress { done: self.done, total: if self.total == 0 { 1 } else { self.total } }
    }

    /// Takes in the outcome for one more file of the run and returns the
    /// progress to report: one step further than before.
    pub fn record(&mut self, result: Result<HashedFile, Error>) -> (r: Progress)
        requires
            old(self).wf(),
            old(self).done < old(self).total,
        ensures
            final(self).wf(),
            final(self).total == old(self).total,
            final(self).done == old(self).done + 1,
            r == final(self).progress_spec(),
            r.wf(),
            old(self).progress_spec().at_most(r),
            result is Err ==> final(self).hashed@ == old(self).hashed@
                && final(self).related.errors@ == old(self).related.errors@.push(result->Err_0),
            result is Ok ==> final(self).hashed@ == old(self).hashed@.push(
                (result->Ok_0.key(), result->Ok_0.info@),
            ) && final(self).related.errors@ == old(self).related.errors@,
    {
        let ghost entry = if result is Ok {
            Some((result->Ok_0.key(), result->Ok_0.info@))
        } else {
            None
        };
        self.related.record(result);
        proof {
            if let Some(e) = entry {
                let hashed = self.hashed@.push(e);
                assert(hashed.drop_last() =~= self.hashed@);
                self.hashed = Ghost(hashed);
            }
        }
        let before = self.progress();
        self.done = self.done + 1;
        let r = self.progress();
        proof {
            lemma_progress_monotone(before, r);
        }
        r
    }

    /// Ends the run: the outcome, and the final progress, which is complete.
    pub fn finish(self) -> (r: (RelatedFiles, Progress))
        requires
            self.wf(),
        ensures
            r.0 == self.related,
            r.1.wf(),
            r.1.is_complete(),
            r.1.total == steps_of(self.total as int),
            self.progress_spec().at_most(r.1),
    {
        let p = self.progress();
        let last = Progress { done: p.total, total: p.total };
        proof {
            lemma_progress_monotone(p, last);
        }
        (self.related, last)
    }
}

/// Settings of a run, fixed for its duration.
pub struct RelateConf {
    /// At most this many workers; `0` counts as 1.
    pub max_threads: u16,
    /// A run over more files than this is spread over workers.
    pub file_threshold: usize,
    /// A run over more bytes than this is spread over workers.
    pub size_threshold: usize,
}

/// The number of files given to each worker when `n` files are spread over
/// at most `workers` of them: `n / workers` rounded up, and at least one.
pub open spec fn chunk_size_of(n: int, workers: int) -> int {
    if n == 0 {
        1
    } else {
        (n + workers - 1) / workers
    }
}

/// The `i`-th chunk when the indices below `n` are cut into chunks of `size`.
pub open spec fn chunk_of(n: int, size: int, i: int) -> Seq<usize> {
    Seq::new(
        (if n - i * size < size {
            n - i * size
        } else {
            size
        }) as nat,
        |j: int| (i * size + j) as usize,
    )
}

/// Index `k` sits in chunk `k / size`, at place `k % size`.
pub open spec fn holds_index(chunks: Seq<Vec<usize>>, size: int, k: int) -> bool {
    &&& k / size < chunks.len()
    &&& k % size < chunks[k / size]@.len()
    &&& chunks[k / size]@[k % size] == k
}

/// Relies on itertools' `Itertools::chunks`: the items in order, cut into
/// chunks of `size`, the last one shorter where the items run out. It panics
/// on a size of zero.
#[verifier::external_body]
fn chunk_indices(n: usize, size: usize) -> (r: Vec<Vec<usize>>)
    requires
        size > 0,
    ensures
        r@.len() == (n + size - 1) / size as int,
        forall|i: int| 0 <= i < r@.len() ==> (#[trigger] r@[i])@ == chunk_of(n as int, size as int, i),
{
    let chunks = (0..n).chunks(size);
    let r: Vec<Vec<usize>> = chunks.into_iter().map(|c| c.collect()).collect();
    r
}

impl RelateConf {
    /// The number of workers, with `0` counted as 1.
    pub open spec fn workers_spec(&self) -> int {
        if self.max_threads == 0 {
            1
        } else {
            self.max_threads as int
        }
    }

    /// Whether a run over `n_files` files of `total_size` bytes in all is
    /// spread over workers: when either threshold is exceeded.
    pub open spec fn parallel_spec(&self, total_size: int, n_files: int) -> bool {
        total_size > self.size_threshold || n_files > self.file_threshold
    }

    /// The number of workers, with `0` counted as 1.
    pub fn workers(&self) -> (r: u16)
        ensures
            r == self.workers_spec(),
    {
        if self.max_threads == 0 {
            1
        } else {
            self.max_threads
        }
    }

    /// Whether a run over `n_files` files of `total_size` bytes in all is
    /// spread over workers.
    pub fn use_parallel(&self, total_size: u64, n_files: usize) -> (r: bool)
        ensures
            r == self.parallel_spec(total_size as int, n_files as int),
    {
        total_size as u128 > self.size_threshold as u128 || n_files > self.file_threshold
    }

    /// The number of files given to each worker in a run over `n_files`.
    pub fn chunk_size(&self, n_files: usize) -> (r: usize)
        ensures
            r == chunk_size_of(n_files as int, self.workers_spec()),
            r >= 1,
    {
        let w = self.workers() as usize;
        if n_files == 0 {
            return 1;
        }
        let q = n_files / w;
        assert(n_files % w != 0 ==> q < n_files) by (nonlinear_arith)
            requires
                w >= 1,
                n_files >= 1,
                q == n_files / w,
        ;
        let r = if n_files % w == 0 { q } else { q + 1 };
        assert(r == (n_files + w - 1) / w as int) by (nonlinear_arith)
            requires
                w >= 1,
                q == n_files / w,
                n_files % w == 0 ==> r == q,
                n_files % w != 0 ==> r == q + 1,
        ;
        assert(r >= 1) by (nonlinear_arith)
            requires
                w >= 1,
                n_files >= 1,
                r == (n_files + w - 1) / w as int,
        ;
        r
    }

    /// The split of a run over `n_files` files among the workers: chunks of
    /// file indices, each worker taking one chunk. The chunks cover the
    /// indices below `n_files` in order, each index once, and there are no
    /// more chunks than workers.
    pub fn chunks(&self, n_files: usize) -> (r: Vec<Vec<usize>>)
        ensures
            r@.len() <= self.workers_spec(),
            forall|i: int|
                0 <= i < r@.len() ==> (#[trigger] r@[i])@ == chunk_of(
                    n_files as int,
                    chunk_size_of(n_files as int, self.workers_spec()),
                    i,
                ),
            forall|k: int|
                0 <= k < n_files ==> #[trigger] holds_index(
                    r@,
                    chunk_size_of(n_files as int, self.workers_spec()),
                    k,
                ),
            n_files == 0 ==> r@.len() == 0,
    {
        let size = self.chunk_size(n_files);
        let r = chunk_indices(n_files, size);
        let ghost w = self.workers_spec();
        let ghost sz = size as int;
        assert(r@.len() <= w) by (nonlinear_arith)
            requires
                w >= 1,
                size >= 1,
                n_files == 0 ==> size == 1,
                n_files > 0 ==> size == (n_files + w - 1) / w,
                r@.len() == (n_files + size - 1) / size as int,
        ;
        assert forall|k: int| 0 <= k < n_files implies #[trigger] holds_index(r@, sz, k) by {
            let c = k / sz;
            let j = k % sz;
            assert(c * sz + j == k && 0 <= j < sz && 0 <= c) by (nonlinear_arith)
                requires
                    sz >= 1,
                    k >= 0,
                    c == k / sz,
                    j == k % sz,
            ;
            assert(c < (n_files + sz - 1) / sz as int) by (nonlinear_arith)
                requires
                    sz >= 1,
                    0 <= k < n_files,
                    c == k / sz,
            ;
            assert(j < n_files - c * sz);
        }
        r
    }
}

} // verus!
