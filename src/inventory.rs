//! The inventory of a directory walk: the files seen, their total size, and
//! the entries that could not be read.

use vstd::prelude::*;

verus! {

/// One file as the walk saw it.
#[derive(Debug)]
pub struct FileInfo {
    /// The file's path.
    pub name: String,
    /// The file's length in bytes, as its metadata gave it.
    pub size: u64,
    /// Creation time in nanoseconds since the Unix epoch, negative before it.
    pub created: i128,
}

/// What a `FileInfo` stands for.
pub struct FileDesc {
    pub name: Seq<char>,
    pub size: u64,
    pub created: i128,
}

impl View for FileInfo {
    type V = FileDesc;

    open spec fn view(&self) -> FileDesc {
        FileDesc { name: self.name@, size: self.size, created: self.created }
    }
}

impl Clone for FileInfo {
    fn clone(&self) -> (r: Self)
        ensures
            r@ == self@,
    {
        FileInfo { name: self.name.clone(), size: self.size, created: self.created }
    }
}

impl PartialEq for FileInfo {
    fn eq(&self, o: &FileInfo) -> (r: bool) {
        self.name == o.name && self.size == o.size && self.created == o.created
    }
}

impl vstd::std_specs::cmp::PartialEqSpecImpl for FileInfo {
    open spec fn obeys_eq_spec() -> bool {
        true
    }

    open spec fn eq_spec(&self, o: &FileInfo) -> bool {
        self@ == o@
    }
}

/// Why an entry or a file was left out.
#[derive(Debug)]
pub enum ErrorType {
    /// The file could not be opened or read; the cause as text.
    IO(String),
    /// The traversal could not read the entry; the cause as text.
    WalkDir(String),
    /// The number of bytes read (second) differs from the size the walk
    /// recorded (first).
    WrongSize(u64, u64),
    /// The platform gave no creation time; the cause as text.
    NoCreatedTime(String),
}

/// A failure tied to a path.
#[derive(Debug)]
pub struct Error {
    pub path: String,
    pub error_type: ErrorType,
}

/// A read failure at `path`.
pub fn io_error(path: &String, cause: String) -> (r: Error)
    ensures
        r.path@ == path@,
        r.error_type == ErrorType::IO(cause),
{
    Error { path: path.clone(), error_type: ErrorType::IO(cause) }
}

/// A traversal failure at `path`.
pub fn walkdir_error(path: &String, cause: String) -> (r: Error)
    ensures
        r.path@ == path@,
        r.error_type == ErrorType::WalkDir(cause),
{
    Error { path: path.clone(), error_type: ErrorType::WalkDir(cause) }
}

/// A file at `path` whose length changed from `expected` to `actual`.
pub fn wrong_size(path: &String, expected: u64, actual: u64) -> (r: Error)
    ensures
        r.path@ == path@,
        r.error_type == ErrorType::WrongSize(expected, actual),
{
    Error { path: path.clone(), error_type: ErrorType::WrongSize(expected, actual) }
}

/// A file at `path` without a creation time.
pub fn no_created(path: &String, cause: String) -> (r: Error)
    ensures
        r.path@ == path@,
        r.error_type == ErrorType::NoCreatedTime(cause),
{
    Error { path: path.clone(), error_type: ErrorType::NoCreatedTime(cause) }
}

/// The descriptors of a sequence of files.
pub open spec fn descs(files: Seq<FileInfo>) -> Seq<FileDesc> {
    files.map_values(|f: FileInfo| f@)
}

/// The sum of the sizes of `s`.
pub open spec fn total_of(s: Seq<FileDesc>) -> int
    decreases s.len(),
{
    if s.len() == 0 {
        0
    } else {
        total_of(s.drop_last()) + s.last().size
    }
}

/// The result of walking a directory tree.
pub struct WalkInfo {
    /// The sum of the sizes of `files`.
    pub total_size: u64,
    /// The files found, each descriptor once.
    pub files: Vec<FileInfo>,
    /// The entries that could not be read, in the order met.
    pub errors: Vec<Error>,
}

impl WalkInfo {
    /// No descriptor twice, and the total is the sum of the sizes.
    pub open spec fn wf(&self) -> bool {
        &&& descs(self.files@).no_duplicates()
        &&& self.total_size == total_of(descs(self.files@))
    }

    /// The set of descriptors found.
    pub open spec fn inventory(&self) -> Set<FileDesc> {
        descs(self.files@).to_set()
    }

    /// An empty inventory.
    pub fn new() -> (r: Self)
        ensures
            r.wf(),
            r.total_size == 0,
            r.files@.len() == 0,
            r.errors@.len() == 0,
    {
        let r = WalkInfo { total_size: 0, files: Vec::new(), errors: Vec::new() };
        assert(descs(r.files@) =~= Seq::<FileDesc>::empty());
        r
    }

    /// Records an entry that could not be read; the files stay as they are.
    pub fn insert_error(self, error: Error) -> (r: Self)
        ensures
            r.total_size == self.total_size,
            r.files@ == self.files@,
            r.errors@ == self.errors@.push(error),
    {
        let WalkInfo { total_size, files, mut errors } = self;
        errors.push(error);
        WalkInfo { total_size, files, errors }
    }

    /// Whether a file with the same descriptor has been found.
    pub fn contains(&self, info: &FileInfo) -> (r: bool)
        ensures
            r == self.inventory().contains(info@),
    {
        let mut i: usize = 0;
        while i < self.files.len()
            invariant
                i <= self.files@.len(),
                forall|j: int| 0 <= j < i ==> self.files@[j]@ != info@,
            decreases self.files@.len() - i,
        {
            if self.files[i] == *info {
                assert(descs(self.files@)[i as int] == info@);
                return true;
            }
            i += 1;
        }
        assert(!descs(self.files@).contains(info@));
        false
    }

    /// Adds a file found by the walk. A descriptor already present is not
    /// added again, and its size is not counted twice.
    pub fn insert_entry(self, info: FileInfo) -> (r: Self)
        requires
            self.wf(),
            self.total_size + info.size <= u64::MAX,
        ensures
            r.wf(),
            r.inventory() == self.inventory().insert(info@),
            r.total_size == if self.inventory().contains(info@) {
                self.total_size as int
            } else {
                self.total_size + info.size
            },
            r.errors@ == self.errors@,
    {
        if self.contains(&info) {
            assert(self.inventory().insert(info@) =~= self.inventory());
            return self;
        }
        let WalkInfo { total_size, mut files, errors } = self;
        let ghost before = files@;
        let ghost d = info@;
        files.push(info);
        assert(descs(files@) =~= descs(before).push(d));
        assert(descs(files@).drop_last() =~= descs(before));
        assert(descs(files@).to_set() =~= descs(before).to_set().insert(d)) by {
            assert forall|x: FileDesc| descs(files@).contains(x) <==> descs(before).contains(x)
                || x == d by {
                if descs(files@).contains(x) {
                    let k = choose|k: int| 0 <= k < descs(files@).len() && descs(files@)[k] == x;
                    if k < before.len() {
                        assert(descs(before)[k] == x);
                    }
                }
                if descs(before).contains(x) {
                    let k = choose|k: int| 0 <= k < descs(before).len() && descs(before)[k] == x;
                    assert(descs(files@)[k] == x);
                }
                if x == d {
                    assert(descs(files@)[before.len() as int] == x);
                }
            }
        }
        WalkInfo { total_size: total_size + files[files.len() - 1].size, files, errors }
    }
}

} // verus!
