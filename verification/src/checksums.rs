//! The manifest data model: entries of `(path, size, digest)` under one
//! algorithm tag, with a running byte total, first-match lookup by path,
//! and rebuilding from saved parts with the total recomputed.

use vstd::prelude::*;
use crate::ChecksumError;
use crate::hasher::{hash_bytes, hex_upper_of, sha1_of};

verus! {

/// The mathematical content of one manifest entry.
#[verifier::ext_equal]
pub ghost struct EntryModel {
    /// Path relative to the base directory, rendered as text.
    pub path: Seq<char>,
    /// Byte size from the filesystem metadata at discovery time.
    pub size: u64,
    /// Uppercase hex digest, or empty while not yet computed.
    pub hash: Seq<char>,
}

/// The mathematical content of a manifest.
#[verifier::ext_equal]
pub ghost struct ChecksumsModel {
    /// Name of the digest algorithm all entries share.
    pub algorithm: Seq<char>,
    /// The entries, in discovery order.
    pub entries: Seq<EntryModel>,
    /// Running total of the entry sizes.
    pub total_size: u64,
}

/// Sum of the entry sizes, as an unbounded integer.
pub open spec fn sum_sizes(entries: Seq<EntryModel>) -> int
    decreases entries.len(),
{
    if entries.len() == 0 {
        0
    } else {
        sum_sizes(entries.drop_last()) + entries.last().size
    }
}

pub proof fn lemma_sum_sizes_nonneg(entries: Seq<EntryModel>)
    ensures
        sum_sizes(entries) >= 0,
    decreases entries.len(),
{
    if entries.len() > 0 {
        lemma_sum_sizes_nonneg(entries.drop_last());
    }
}

pub proof fn lemma_sum_sizes_push(entries: Seq<EntryModel>, e: EntryModel)
    ensures
        sum_sizes(entries.push(e)) == sum_sizes(entries) + e.size,
{
    assert(entries.push(e).drop_last() =~= entries);
    assert(entries.push(e).last() == e);
}

pub proof fn lemma_sum_sizes_take_succ(entries: Seq<EntryModel>, i: int)
    requires
        0 <= i < entries.len(),
    ensures
        sum_sizes(entries.take(i + 1)) == sum_sizes(entries.take(i)) + entries[i].size,
{
    assert(entries.take(i + 1).drop_last() =~= entries.take(i));
    assert(entries.take(i + 1).last() == entries[i]);
}

/// The sum over a prefix never exceeds the sum over the whole sequence.
pub proof fn lemma_sum_sizes_prefix(entries: Seq<EntryModel>, i: int)
    requires
        0 <= i <= entries.len(),
    ensures
        sum_sizes(entries.take(i)) <= sum_sizes(entries),
    decreases entries.len() - i,
{
    if i == entries.len() {
        assert(entries.take(i) =~= entries);
    } else {
        lemma_sum_sizes_take_succ(entries, i);
        lemma_sum_sizes_prefix(entries, i + 1);
    }
}

/// Replacing an entry by one of the same size leaves the sum unchanged.
pub proof fn lemma_sum_sizes_update(entries: Seq<EntryModel>, i: int, e: EntryModel)
    requires
        0 <= i < entries.len(),
        e.size == entries[i].size,
    ensures
        sum_sizes(entries.update(i, e)) == sum_sizes(entries),
    decreases entries.len(),
{
    if i == entries.len() - 1 {
        assert(entries.update(i, e).drop_last() =~= entries.drop_last());
        assert(entries.update(i, e).last() == e);
    } else {
        assert(entries.update(i, e).drop_last() =~= entries.drop_last().update(i, e));
        assert(entries.update(i, e).last() == entries.last());
        lemma_sum_sizes_update(entries.drop_last(), i, e);
    }
}

/// First entry whose path equals `path`, if any.
pub open spec fn spec_find(entries: Seq<EntryModel>, path: Seq<char>) -> Option<EntryModel>
    decreases entries.len(),
{
    if entries.len() == 0 {
        None
    } else if entries.first().path == path {
        Some(entries.first())
    } else {
        spec_find(entries.drop_first(), path)
    }
}

/// Some entry carries this path.
pub open spec fn has_path(entries: Seq<EntryModel>, path: Seq<char>) -> bool {
    exists|i: int| 0 <= i < entries.len() && (#[trigger] entries[i].path) == path
}

/// The entries' paths, in order.
pub open spec fn paths_of(entries: Seq<EntryModel>) -> Seq<Seq<char>> {
    entries.map_values(|e: EntryModel| e.path)
}

/// No two entries share a path.
pub open spec fn unique_paths(entries: Seq<EntryModel>) -> bool {
    forall|i: int, j: int|
        0 <= i < j < entries.len() ==> (#[trigger] entries[i].path) != (#[trigger] entries[j].path)
}

/// Lookup succeeds exactly when some entry carries the path.
pub proof fn lemma_spec_find_has_path(entries: Seq<EntryModel>, path: Seq<char>)
    ensures
        (spec_find(entries, path) is Some) == has_path(entries, path),
    decreases entries.len(),
{
    if entries.len() == 0 {
    } else if entries.first().path == path {
        assert(entries[0].path == path);
    } else {
        lemma_spec_find_has_path(entries.drop_first(), path);
        if has_path(entries.drop_first(), path) {
            let i = choose|i: int|
                0 <= i < entries.drop_first().len() && (#[trigger] entries.drop_first()[i].path)
                    == path;
            assert(entries[i + 1].path == path);
        } else if has_path(entries, path) {
            let i = choose|i: int| 0 <= i < entries.len() && (#[trigger] entries[i].path) == path;
            assert(i != 0);
            assert(entries.drop_first()[i - 1].path == path);
        }
    }
}

/// Under unique paths, lookup by the path of entry `i` yields entry `i`.
pub proof fn lemma_spec_find_unique(entries: Seq<EntryModel>, i: int)
    requires
        unique_paths(entries),
        0 <= i < entries.len(),
    ensures
        spec_find(entries, entries[i].path) == Some(entries[i]),
    decreases entries.len(),
{
    if i == 0 {
    } else {
        assert(entries.first().path != entries[i].path);
        assert(forall|k: int, l: int|
            0 <= k < l < entries.drop_first().len() ==> (#[trigger] entries.drop_first()[k].path)
                != (#[trigger] entries.drop_first()[l].path)) by {
            assert(forall|k: int, l: int|
                0 <= k < l < entries.drop_first().len() ==> entries.drop_first()[k]
                    == entries[k + 1] && entries.drop_first()[l] == entries[l + 1]);
        }
        lemma_spec_find_unique(entries.drop_first(), i - 1);
        assert(entries.drop_first()[i - 1] == entries[i]);
    }
}

/// One row of a manifest.
#[derive(Debug, Clone)]
pub struct ChecksumsEntry {
    path: String,
    size: u64,
    hash: String,
}

impl View for ChecksumsEntry {
    type V = EntryModel;

    closed spec fn view(&self) -> EntryModel {
        EntryModel { path: self.path@, size: self.size, hash: self.hash@ }
    }
}

impl DeepView for ChecksumsEntry {
    type V = EntryModel;

    open spec fn deep_view(&self) -> EntryModel {
        self.view()
    }
}

impl ChecksumsEntry {
    /// A new entry with the given relative path, size and digest text.
    pub fn new(path: &str, size: u64, hash: &str) -> (e: Self)
        ensures
            e@ == (EntryModel { path: path@, size, hash: hash@ }),
    {
        ChecksumsEntry { path: path.to_owned(), size, hash: hash.to_owned() }
    }

    /// Replace the digest text, leaving path and size alone.
    pub fn set_hash(&mut self, hash: &str)
        ensures
            final(self)@ == (EntryModel {
                path: old(self)@.path,
                size: old(self)@.size,
                hash: hash@,
            }),
    {
        self.hash = hash.to_owned();
    }

    /// Digest the given file contents with the named algorithm, feeding
    /// them in `block_size`-byte blocks (0 for one block), and store the
    /// uppercase hex result.
    pub fn calculate_hash(&mut self, data: &Vec<u8>, algorithm: &str, block_size: usize) -> (r:
        Result<(), ChecksumError>)
        ensures
            match r {
                Ok(_) => algorithm@ == "sha1"@ && final(self)@ == (EntryModel {
                    path: old(self)@.path,
                    size: old(self)@.size,
                    hash: hex_upper_of(sha1_of(data@)),
                }),
                Err(e) => e == ChecksumError::UnknownAlgorithm && algorithm@ != "sha1"@
                    && *final(self) == *old(self),
            },
    {
        match hash_bytes(algorithm, data, block_size) {
            Ok(h) => {
                self.hash = h;
                Ok(())
            },
            Err(e) => Err(e),
        }
    }

    /// The entry's relative path.
    pub fn path(&self) -> (r: &String)
        ensures
            r@ == self@.path,
    {
        &self.path
    }

    /// The entry's byte size.
    pub fn size(&self) -> (r: u64)
        ensures
            r == self@.size,
    {
        self.size
    }

    /// The entry's digest text.
    pub fn hash(&self) -> (r: &String)
        ensures
            r@ == self@.hash,
    {
        &self.hash
    }
}

/// A manifest: entries under one algorithm tag, with a running size total.
#[derive(Debug, Clone)]
pub struct Checksums {
    algorithm: String,
    entries: Vec<ChecksumsEntry>,
    total_size: u64,
}

impl View for Checksums {
    type V = ChecksumsModel;

    closed spec fn view(&self) -> ChecksumsModel {
        ChecksumsModel {
            algorithm: self.algorithm@,
            entries: self.entries.deep_view(),
            total_size: self.total_size,
        }
    }
}

impl Checksums {
    /// The manifest invariant: the stored total is the sum of the sizes.
    pub open spec fn wf(&self) -> bool {
        self@.total_size == sum_sizes(self@.entries)
    }

    /// An empty manifest under the given algorithm tag.
    pub fn new(algorithm: &str) -> (r: Self)
        ensures
            r@.algorithm == algorithm@,
            r@.entries == Seq::<EntryModel>::empty(),
            r@.total_size == 0,
            r.wf(),
    {
        let r = Checksums { algorithm: algorithm.to_owned(), entries: Vec::new(), total_size: 0 };
        proof {
            assert(r@.entries =~= Seq::<EntryModel>::empty());
        }
        r
    }

    /// Append an entry, growing the size total by the entry's size.
    /// Duplicate paths are not checked here: the walker hands in unique
    /// paths by construction.
    pub fn add(&mut self, entry: ChecksumsEntry)
        requires
            old(self)@.total_size + entry@.size <= u64::MAX,
        ensures
            final(self)@.algorithm == old(self)@.algorithm,
            final(self)@.entries == old(self)@.entries.push(entry@),
            final(self)@.total_size == old(self)@.total_size + entry@.size,
            old(self).wf() ==> final(self).wf(),
    {
        proof {
            lemma_sum_sizes_push(old(self)@.entries, entry@);
        }
        self.total_size = self.total_size + entry.size;
        self.entries.push(entry);
        proof {
            assert(self@.entries =~= old(self)@.entries.push(entry@));
        }
    }

    /// First entry whose path equals `filename`, by byte-exact comparison.
    pub fn find(&self, filename: &String) -> (r: Option<&ChecksumsEntry>)
        ensures
            match r {
                Some(e) => spec_find(self@.entries, filename@) == Some(e@),
                None => spec_find(self@.entries, filename@) is None,
            },
    {
        let n = self.entries.len();
        let mut i: usize = 0;
        proof {
            assert(self@.entries.skip(0) =~= self@.entries);
        }
        while i < n
            invariant
                n == self@.entries.len(),
                i <= n,
                spec_find(self@.entries, filename@) == spec_find(
                    self@.entries.skip(i as int),
                    filename@,
                ),
            decreases n - i,
        {
            let e = &self.entries[i];
            proof {
                assert(self@.entries.skip(i as int).first() == self@.entries[i as int]);
            }
            if e.path == *filename {
                return Some(e);
            }
            proof {
                assert(self@.entries.skip(i as int).drop_first() =~= self@.entries.skip(i + 1));
            }
            i = i + 1;
        }
        proof {
            assert(self@.entries.skip(n as int) =~= Seq::<EntryModel>::empty());
        }
        None
    }

    /// Index of the first entry whose path equals `filename`, if any.
    pub fn find_index(&self, filename: &String) -> (r: Option<usize>)
        ensures
            match r {
                Some(i) => i < self@.entries.len() && self@.entries[i as int].path == filename@
                    && (forall|j: int|
                    0 <= j < i ==> (#[trigger] self@.entries[j].path) != filename@),
                None => !has_path(self@.entries, filename@),
            },
    {
        let n = self.entries.len();
        let mut i: usize = 0;
        while i < n
            invariant
                n == self@.entries.len(),
                i <= n,
                forall|j: int| 0 <= j < i ==> (#[trigger] self@.entries[j].path) != filename@,
            decreases n - i,
        {
            let e = &self.entries[i];
            if e.path == *filename {
                return Some(i);
            }
            i = i + 1;
        }
        None
    }

    /// Replace the digest text of the entry at `i`, leaving everything
    /// else — including the size total — unchanged.
    pub fn set_hash_at(&mut self, i: usize, hash: &str)
        requires
            i < old(self)@.entries.len(),
        ensures
            final(self)@.algorithm == old(self)@.algorithm,
            final(self)@.total_size == old(self)@.total_size,
            final(self)@.entries == old(self)@.entries.update(
                i as int,
                (EntryModel {
                    path: old(self)@.entries[i as int].path,
                    size: old(self)@.entries[i as int].size,
                    hash: hash@,
                }),
            ),
            old(self).wf() ==> final(self).wf(),
    {
        let e = &mut self.entries[i];
        e.set_hash(hash);
        proof {
            assert(self@.entries =~= old(self)@.entries.update(
                i as int,
                (EntryModel {
                    path: old(self)@.entries[i as int].path,
                    size: old(self)@.entries[i as int].size,
                    hash: hash@,
                }),
            ));
            if old(self).wf() {
                lemma_sum_sizes_update(
                    old(self)@.entries,
                    i as int,
                    self@.entries[i as int],
                );
            }
        }
    }

    /// Digest the given contents with this manifest's own algorithm and
    /// store the result in the entry at `i`.
    pub fn calculate_hash_at(&mut self, i: usize, data: &Vec<u8>, block_size: usize) -> (r: Result<
        (),
        ChecksumError,
    >)
        requires
            i < old(self)@.entries.len(),
        ensures
            match r {
                Ok(_) => old(self)@.algorithm == "sha1"@ && final(self)@.algorithm == old(self)@.algorithm
                    && final(self)@.total_size == old(self)@.total_size
                    && final(self)@.entries == old(self)@.entries.update(
                    i as int,
                    (EntryModel {
                        path: old(self)@.entries[i as int].path,
                        size: old(self)@.entries[i as int].size,
                        hash: hex_upper_of(sha1_of(data@)),
                    }),
                ) && (old(self).wf() ==> final(self).wf()),
                Err(e) => e == ChecksumError::UnknownAlgorithm && old(self)@.algorithm != "sha1"@
                    && *final(self) == *old(self),
            },
    {
        let alg = self.algorithm.clone();
        match hash_bytes(alg.as_str(), data, block_size) {
            Ok(h) => {
                self.set_hash_at(i, h.as_str());
                Ok(())
            },
            Err(e) => Err(e),
        }
    }

    /// The algorithm tag.
    pub fn algorithm(&self) -> (r: &String)
        ensures
            r@ == self@.algorithm,
    {
        &self.algorithm
    }

    /// Number of entries.
    pub fn len(&self) -> (r: usize)
        ensures
            r == self@.entries.len(),
    {
        self.entries.len()
    }

    /// The stored size total.
    pub fn total_size(&self) -> (r: u64)
        ensures
            r == self@.total_size,
    {
        self.total_size
    }

    /// Read-only access to the entries, in order.
    pub fn entries(&self) -> (r: &Vec<ChecksumsEntry>)
        ensures
            r.deep_view() == self@.entries,
    {
        &self.entries
    }

    /// The entry at index `i`.
    pub fn entry_at(&self, i: usize) -> (r: &ChecksumsEntry)
        requires
            i < self@.entries.len(),
        ensures
            r@ == self@.entries[i as int],
    {
        &self.entries[i]
    }
}

/// What loading a saved manifest yields: the saved algorithm and entries,
/// with the size total recomputed — never trusted from the file.
pub open spec fn spec_rebuild(algorithm: Seq<char>, entries: Seq<EntryModel>) -> Option<
    ChecksumsModel,
> {
    if sum_sizes(entries) <= u64::MAX {
        Some(
            ChecksumsModel {
                algorithm,
                entries,
                total_size: sum_sizes(entries) as u64,
            },
        )
    } else {
        None
    }
}

/// Rebuild a manifest from its saved parts, recomputing the size total.
/// Fails only when the recomputed total does not fit 64 bits.
pub fn from_parts(algorithm: String, entries: Vec<ChecksumsEntry>) -> (r: Result<
    Checksums,
    ChecksumError,
>)
    ensures
        match r {
            Ok(m) => Some(m@) == spec_rebuild(algorithm@, entries.deep_view()) && m.wf(),
            Err(e) => e == ChecksumError::SizeOverflow && spec_rebuild(
                algorithm@,
                entries.deep_view(),
            ) is None,
        },
{
    let ghost ges = entries.deep_view();
    let n = entries.len();
    let mut total: u64 = 0;
    let mut i: usize = 0;
    while i < n
        invariant
            n == ges.len(),
            ges == entries.deep_view(),
            i <= n,
            total == sum_sizes(ges.take(i as int)),
        decreases n - i,
    {
        let sz = entries[i].size;
        proof {
            lemma_sum_sizes_take_succ(ges, i as int);
            assert(ges[i as int].size == sz);
        }
        if sz > u64::MAX - total {
            proof {
                lemma_sum_sizes_prefix(ges, i + 1);
            }
            return Err(ChecksumError::SizeOverflow);
        }
        total = total + sz;
        i = i + 1;
    }
    proof {
        assert(ges.take(n as int) =~= ges);
    }
    let m = Checksums { algorithm, entries, total_size: total };
    proof {
        assert(Some(m@) =~= spec_rebuild(m@.algorithm, ges));
    }
    Ok(m)
}

/// Sum of the walked files' sizes, as an unbounded integer.
pub open spec fn sum_file_sizes(files: Seq<(String, u64)>) -> int
    decreases files.len(),
{
    if files.len() == 0 {
        0
    } else {
        sum_file_sizes(files.drop_last()) + files.last().1
    }
}

pub proof fn lemma_sum_file_sizes_take_succ(files: Seq<(String, u64)>, i: int)
    requires
        0 <= i < files.len(),
    ensures
        sum_file_sizes(files.take(i + 1)) == sum_file_sizes(files.take(i)) + files[i].1,
{
    assert(files.take(i + 1).drop_last() =~= files.take(i));
    assert(files.take(i + 1).last() == files[i]);
}

/// The sum over a prefix never exceeds the sum over all files.
pub proof fn lemma_sum_file_sizes_prefix(files: Seq<(String, u64)>, i: int)
    requires
        0 <= i <= files.len(),
    ensures
        sum_file_sizes(files.take(i)) <= sum_file_sizes(files),
    decreases files.len() - i,
{
    if i == files.len() {
        assert(files.take(i) =~= files);
    } else {
        lemma_sum_file_sizes_take_succ(files, i);
        lemma_sum_file_sizes_prefix(files, i + 1);
    }
}

/// Build a manifest from walked files: one entry per `(path, size)` pair,
/// in order, each with an empty digest. The length is the number of files
/// and the total is the sum of their sizes; it fails exactly when that sum
/// does not fit 64 bits.
pub fn build_manifest(algorithm: &str, files: &Vec<(String, u64)>) -> (r: Result<
    Checksums,
    ChecksumError,
>)
    ensures
        match r {
            Ok(m) => sum_file_sizes(files@) <= u64::MAX && m@.algorithm == algorithm@
                && m@.entries.len() == files@.len() && (forall|i: int|
                0 <= i < files@.len() ==> (#[trigger] m@.entries[i]) == (EntryModel {
                    path: files@[i].0@,
                    size: files@[i].1,
                    hash: Seq::<char>::empty(),
                })) && m@.total_size == sum_file_sizes(files@) && m.wf(),
            Err(e) => e == ChecksumError::SizeOverflow && sum_file_sizes(files@) > u64::MAX,
        },
{
    let mut m = Checksums::new(algorithm);
    let n = files.len();
    let mut i: usize = 0;
    proof {
        assert(files@.take(0) =~= Seq::<(String, u64)>::empty());
    }
    while i < n
        invariant
            n == files@.len(),
            i <= n,
            m@.algorithm == algorithm@,
            m@.entries.len() == i,
            forall|j: int|
                0 <= j < i ==> (#[trigger] m@.entries[j]) == (EntryModel {
                    path: files@[j].0@,
                    size: files@[j].1,
                    hash: Seq::<char>::empty(),
                }),
            m@.total_size == sum_file_sizes(files@.take(i as int)),
            m@.total_size == sum_sizes(m@.entries),
        decreases n - i,
    {
        let f = &files[i];
        let e = ChecksumsEntry::new(f.0.as_str(), f.1, "");
        proof {
            reveal_strlit("");
            assert(""@ =~= Seq::<char>::empty());
            lemma_sum_file_sizes_take_succ(files@, i as int);
        }
        if e.size() > u64::MAX - m.total_size() {
            proof {
                lemma_sum_file_sizes_prefix(files@, i + 1);
            }
            return Err(ChecksumError::SizeOverflow);
        }
        m.add(e);
        i = i + 1;
    }
    proof {
        assert(files@.take(n as int) =~= files@);
    }
    Ok(m)
}

/// Round trip: saving writes the algorithm and the entry list; loading
/// rebuilds from those parts alone. For a well-formed manifest the result
/// is the manifest itself, its recomputed total matching the stored one.
pub proof fn lemma_save_load_round_trip(m: ChecksumsModel)
    requires
        m.total_size == sum_sizes(m.entries),
    ensures
        spec_rebuild(m.algorithm, m.entries) == Some(m),
{
    lemma_sum_sizes_nonneg(m.entries);
    assert(spec_rebuild(m.algorithm, m.entries)->Some_0 =~= m);
}

} // verus!
