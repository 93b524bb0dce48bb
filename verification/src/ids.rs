//! Identifiers of cached data and where it lies on disk.

use crate::modes::LiquidCacheMode;
use crate::text::decimal;
use crate::text::decimal_is_injective;
use crate::text::labelled;
use crate::text::lemma_decimal_digits;
use std::ops::Deref;
use vstd::prelude::*;
use vstd::std_specs::convert::FromSpecImpl;

verus! {

/// A path on disk, as the names of its components from the cache root downwards.
///
/// The first component is the cache root itself, however many directories deep it lies.
pub struct CachePath {
    /// The components.
    pub components: Vec<String>,
}

impl View for CachePath {
    type V = Seq<Seq<char>>;

    open spec fn view(&self) -> Seq<Seq<char>> {
        self.components@.map_values(|s: String| s@)
    }
}

impl CachePath {
    /// The path of a cache root.
    pub fn new(root: String) -> (path: Self)
        ensures
            path@ == seq![root@],
    {
        let mut components: Vec<String> = Vec::new();
        components.push(root);
        let path = CachePath { components };
        assert(path@ =~= seq![root@]);
        path
    }

    /// The path one level down.
    pub fn join(&self, name: String) -> (path: Self)
        ensures
            path@ == self@.push(name@),
    {
        let mut components: Vec<String> = Vec::new();
        let n: usize = self.components.len();
        let mut i: usize = 0;
        while i < n
            invariant
                n == self.components.len(),
                i <= n,
                components@ == self.components@.take(i as int),
            decreases n - i,
        {
            components.push(self.components[i].clone());
            i += 1;
            assert(components@ =~= self.components@.take(i as int));
        }
        assert(components@ =~= self.components@);
        components.push(name);
        let path = CachePath { components };
        assert(path@ =~= self@.push(name@));
        path
    }

    /// The directory that holds the path; nothing above the cache root.
    pub fn parent(&self) -> (path: Option<Self>)
        ensures
            path is Some <==> self@.len() > 1,
            path is Some ==> path->0@ == self@.drop_last(),
    {
        let n: usize = self.components.len();
        if n <= 1 {
            return None;
        }
        let mut components: Vec<String> = Vec::new();
        let mut i: usize = 0;
        while i < n - 1
            invariant
                n == self.components.len(),
                n > 1,
                i < n,
                components@ == self.components@.take(i as int),
            decreases n - i,
        {
            components.push(self.components[i].clone());
            i += 1;
            assert(components@ =~= self.components@.take(i as int));
        }
        let path = CachePath { components };
        assert(path@ =~= self@.drop_last());
        Some(path)
    }
}

/// The number of a batch of rows within its row group: the row number divided by the batch size.
#[derive(Clone, Copy, Debug, PartialEq, Eq, PartialOrd, Ord, Hash, Structural)]
pub struct BatchID {
    /// The number.
    pub v: u16,
}

impl BatchID {
    /// The batch that a row lies in. Only the low sixteen bits of the quotient are kept.
    pub fn from_row_id(row_id: usize, batch_size: usize) -> (id: Self)
        requires
            batch_size > 0,
        ensures
            id.v as int == (row_id as int / batch_size as int) % 65536,
    {
        let quotient: usize = row_id / batch_size;
        #[verifier::truncate]
        let v: u16 = quotient as u16;
        assert(v == quotient % 65536) by (bit_vector)
            requires
                v == quotient as u16,
        ;
        BatchID { v }
    }

    /// The batch with the given number.
    pub fn from_raw(v: u16) -> (id: Self)
        ensures
            id.v == v,
    {
        BatchID { v }
    }

    /// Moves on to the next batch. There is none after the last.
    pub fn inc(&mut self)
        requires
            old(self).v < u16::MAX,
        ensures
            final(self).v == old(self).v + 1,
    {
        self.v += 1;
    }
}

impl Deref for BatchID {
    type Target = u16;

    fn deref(&self) -> (v: &u16)
        ensures
            *v == self.v,
    {
        &self.v
    }
}

/// The components below the cache root of the directory of a column.
pub open spec fn column_components(file_id: u16, rg_id: u16, col_id: u16) -> Seq<Seq<char>> {
    seq![
        "file_"@ + decimal(file_id as nat),
        "rg_"@ + decimal(rg_id as nat),
        "col_"@ + decimal(col_id as nat),
    ]
}

/// The path of a column's directory.
fn column_dir(file_id: u16, rg_id: u16, col_id: u16, cache_root_dir: &CachePath) -> (path:
    CachePath)
    ensures
        path@ == cache_root_dir@ + column_components(file_id, rg_id, col_id),
{
    let path = cache_root_dir.join(labelled("file_", file_id as u64)).join(
        labelled("rg_", rg_id as u64),
    ).join(labelled("col_", col_id as u64));
    assert(path@ =~= cache_root_dir@ + column_components(file_id, rg_id, col_id));
    path
}

/// One column of one row group of one file.
#[derive(Clone, Copy, Debug, PartialEq, Eq, PartialOrd, Ord, Hash, Structural)]
pub struct ColumnAccessPath {
    /// The file.
    pub file_id: u16,
    /// The row group.
    pub rg_id: u16,
    /// The column.
    pub col_id: u16,
}

impl ColumnAccessPath {
    /// A column, by the numbers of its file, row group and column.
    pub fn new(file_id: u64, row_group_id: u64, column_id: u64) -> (path: Self)
        requires
            file_id <= u16::MAX,
            row_group_id <= u16::MAX,
            column_id <= u16::MAX,
        ensures
            path.file_id == file_id,
            path.rg_id == row_group_id,
            path.col_id == column_id,
    {
        ColumnAccessPath {
            file_id: file_id as u16,
            rg_id: row_group_id as u16,
            col_id: column_id as u16,
        }
    }

    /// The directory below the cache root that holds the column's batches.
    pub fn directory(&self, cache_root_dir: &CachePath) -> (path: CachePath)
        ensures
            path@ == cache_root_dir@ + column_components(self.file_id, self.rg_id, self.col_id),
    {
        column_dir(self.file_id, self.rg_id, self.col_id, cache_root_dir)
    }

    /// The number of the file.
    pub fn file_id_inner(&self) -> (id: u64)
        ensures
            id == self.file_id,
    {
        self.file_id as u64
    }

    /// The number of the row group.
    pub fn row_group_id_inner(&self) -> (id: u64)
        ensures
            id == self.rg_id,
    {
        self.rg_id as u64
    }

    /// The number of the column.
    pub fn column_id_inner(&self) -> (id: u64)
        ensures
            id == self.col_id,
    {
        self.col_id as u64
    }

    /// The entry of one of the column's batches.
    pub open spec fn entry(self, batch_id: BatchID) -> CacheEntryID {
        CacheEntryID {
            file_id: self.file_id,
            rg_id: self.rg_id,
            row_id: self.col_id,
            batch_id,
        }
    }

    /// The entry of one of the column's batches.
    pub fn entry_id(&self, batch_id: BatchID) -> (id: CacheEntryID)
        ensures
            id == self.entry(batch_id),
            id.file_id == self.file_id,
            id.rg_id == self.rg_id,
            id.row_id == self.col_id,
            id.batch_id == batch_id,
    {
        CacheEntryID::new(
            self.file_id_inner(),
            self.row_group_id_inner(),
            self.column_id_inner(),
            batch_id,
        )
    }
}

impl From<CacheEntryID> for ColumnAccessPath {
    fn from(value: CacheEntryID) -> (path: Self) {
        ColumnAccessPath { file_id: value.file_id, rg_id: value.rg_id, col_id: value.row_id }
    }
}

impl FromSpecImpl<CacheEntryID> for ColumnAccessPath {
    open spec fn obeys_from_spec() -> bool {
        true
    }

    open spec fn from_spec(value: CacheEntryID) -> ColumnAccessPath {
        ColumnAccessPath { file_id: value.file_id, rg_id: value.rg_id, col_id: value.row_id }
    }
}

/// How the cache is set up.
pub struct CacheConfig {
    batch_size: usize,
    max_cache_bytes: usize,
    cache_root_dir: CachePath,
    cache_mode: LiquidCacheMode,
}

impl CacheConfig {
    /// The number of rows in a batch.
    pub closed spec fn spec_batch_size(&self) -> usize {
        self.batch_size
    }

    /// The memory that the cache may use.
    pub closed spec fn spec_max_cache_bytes(&self) -> usize {
        self.max_cache_bytes
    }

    /// The components of the cache root.
    pub closed spec fn spec_cache_root_dir(&self) -> Seq<Seq<char>> {
        self.cache_root_dir@
    }

    /// How arrays are held.
    pub closed spec fn spec_cache_mode(&self) -> LiquidCacheMode {
        self.cache_mode
    }

    /// A configuration.
    pub fn new(
        batch_size: usize,
        max_cache_bytes: usize,
        cache_root_dir: CachePath,
        cache_mode: LiquidCacheMode,
    ) -> (config: Self)
        ensures
            config.spec_batch_size() == batch_size,
            config.spec_max_cache_bytes() == max_cache_bytes,
            config.spec_cache_root_dir() == cache_root_dir@,
            config.spec_cache_mode() == cache_mode,
    {
        CacheConfig { batch_size, max_cache_bytes, cache_root_dir, cache_mode }
    }

    /// The number of rows in a batch.
    pub fn batch_size(&self) -> (n: usize)
        ensures
            n == self.spec_batch_size(),
    {
        self.batch_size
    }

    /// The memory that the cache may use.
    pub fn max_cache_bytes(&self) -> (n: usize)
        ensures
            n == self.spec_max_cache_bytes(),
    {
        self.max_cache_bytes
    }

    /// The cache root.
    pub fn cache_root_dir(&self) -> (dir: &CachePath)
        ensures
            dir@ == self.spec_cache_root_dir(),
    {
        &self.cache_root_dir
    }

    /// How arrays are held.
    pub fn cache_mode(&self) -> (mode: &LiquidCacheMode)
        ensures
            *mode == self.spec_cache_mode(),
    {
        &self.cache_mode
    }
}

/// What a cache policy advises when the cache is full.
#[derive(Clone, Copy, Debug, PartialEq, Eq, Structural)]
pub enum CacheAdvice {
    /// Evict the entry.
    Evict(CacheEntryID),
    /// Transcode the entry to disk.
    TranscodeToDisk(CacheEntryID),
    /// Transcode the entry to liquid memory.
    Transcode(CacheEntryID),
    /// Write the entry to disk in the format it has.
    ToDisk(CacheEntryID),
    /// Do not cache the entry.
    Discard,
}

/// One batch of one column of one row group of one file.
#[derive(Clone, Copy, Debug, PartialEq, Eq, PartialOrd, Ord, Hash, Structural)]
pub struct CacheEntryID {
    /// The file.
    pub file_id: u16,
    /// The row group.
    pub rg_id: u16,
    /// The column.
    pub row_id: u16,
    /// The batch.
    pub batch_id: BatchID,
}

impl CacheEntryID {
    /// The four numbers side by side, sixteen bits each, the file on top.
    pub open spec fn packed(self) -> u64 {
        (self.file_id as u64) << 48 | (self.rg_id as u64) << 32 | (self.row_id as u64) << 16
            | (self.batch_id.v as u64)
    }

    /// The entry whose four numbers stand side by side in `bits`.
    pub open spec fn unpacked(bits: u64) -> CacheEntryID {
        CacheEntryID {
            file_id: (bits >> 48) as u16,
            rg_id: ((bits >> 32) & 0xFFFF) as u16,
            row_id: ((bits >> 16) & 0xFFFF) as u16,
            batch_id: BatchID { v: (bits & 0xFFFF) as u16 },
        }
    }

    /// The four numbers in one word.
    pub fn to_bits(&self) -> (bits: u64)
        ensures
            bits == self.packed(),
    {
        (self.file_id as u64) << 48 | (self.rg_id as u64) << 32 | (self.row_id as u64) << 16
            | (self.batch_id.v as u64)
    }

    /// The entry that a word stands for.
    pub fn from_bits(bits: u64) -> (id: Self)
        ensures
            id == CacheEntryID::unpacked(bits),
    {
        let file_id: u64 = bits >> 48;
        assert(file_id <= 0xFFFF) by (bit_vector)
            requires
                file_id == bits >> 48,
        ;
        let rg_id: u64 = (bits >> 32) & 0xFFFF;
        assert(rg_id <= 0xFFFF) by (bit_vector)
            requires
                rg_id == (bits >> 32) & 0xFFFF,
        ;
        let row_id: u64 = (bits >> 16) & 0xFFFF;
        assert(row_id <= 0xFFFF) by (bit_vector)
            requires
                row_id == (bits >> 16) & 0xFFFF,
        ;
        let batch_id: u64 = bits & 0xFFFF;
        assert(batch_id <= 0xFFFF) by (bit_vector)
            requires
                batch_id == bits & 0xFFFF,
        ;
        CacheEntryID {
            file_id: file_id as u16,
            rg_id: rg_id as u16,
            row_id: row_id as u16,
            batch_id: BatchID::from_raw(batch_id as u16),
        }
    }

    /// The number of the row group.
    pub fn row_group_id(&self) -> (id: u16)
        ensures
            id == self.rg_id,
    {
        self.rg_id
    }

    /// An entry, by the numbers of its file, row group, column and batch.
    pub fn new(file_id: u64, row_group_id: u64, column_id: u64, batch_id: BatchID) -> (id: Self)
        requires
            file_id <= u16::MAX,
            row_group_id <= u16::MAX,
            column_id <= u16::MAX,
        ensures
            id.file_id == file_id,
            id.rg_id == row_group_id,
            id.row_id == column_id,
            id.batch_id == batch_id,
    {
        CacheEntryID {
            file_id: file_id as u16,
            rg_id: row_group_id as u16,
            row_id: column_id as u16,
            batch_id,
        }
    }

    /// The number of the batch.
    pub fn batch_id_inner(&self) -> (id: u64)
        ensures
            id == self.batch_id.v,
    {
        self.batch_id.v as u64
    }

    /// The number of the file.
    pub fn file_id_inner(&self) -> (id: u64)
        ensures
            id == self.file_id,
    {
        self.file_id as u64
    }

    /// The number of the row group.
    pub fn row_group_id_inner(&self) -> (id: u64)
        ensures
            id == self.rg_id,
    {
        self.rg_id as u64
    }

    /// The number of the column.
    pub fn column_id_inner(&self) -> (id: u64)
        ensures
            id == self.row_id,
    {
        self.row_id as u64
    }

    /// The components below the cache root of the file that holds the entry.
    pub open spec fn disk_components(self, extension: Seq<char>) -> Seq<Seq<char>> {
        column_components(self.file_id, self.rg_id, self.row_id).push(
            "batch_"@ + decimal(self.batch_id.v as nat) + extension,
        )
    }

    fn path_with_extension(&self, cache_root_dir: &CachePath, extension: &str) -> (path: CachePath)
        ensures
            path@ == cache_root_dir@ + self.disk_components(extension@),
    {
        let mut name = labelled("batch_", self.batch_id_inner());
        name.append(extension);
        let path = column_dir(self.file_id, self.rg_id, self.row_id, cache_root_dir).join(name);
        assert(path@ =~= cache_root_dir@ + self.disk_components(extension@));
        path
    }

    /// The file that holds the entry in liquid format.
    pub fn on_disk_path(&self, cache_root_dir: &CachePath) -> (path: CachePath)
        ensures
            path@ == cache_root_dir@ + self.disk_components(".liquid"@),
    {
        self.path_with_extension(cache_root_dir, ".liquid")
    }

    /// The file that holds the entry in Arrow format.
    pub fn on_disk_arrow_path(&self, cache_root_dir: &CachePath) -> (path: CachePath)
        ensures
            path@ == cache_root_dir@ + self.disk_components(".arrow"@),
    {
        self.path_with_extension(cache_root_dir, ".arrow")
    }
}

impl From<CacheEntryID> for usize {
    fn from(id: CacheEntryID) -> (bits: usize) {
        #[verifier::truncate]
        let bits: usize = id.to_bits() as usize;
        bits
    }
}

impl FromSpecImpl<CacheEntryID> for usize {
    open spec fn obeys_from_spec() -> bool {
        true
    }

    open spec fn from_spec(id: CacheEntryID) -> usize {
        id.packed() as usize
    }
}

impl From<usize> for CacheEntryID {
    fn from(value: usize) -> (id: Self) {
        CacheEntryID::from_bits(value as u64)
    }
}

impl FromSpecImpl<usize> for CacheEntryID {
    open spec fn obeys_from_spec() -> bool {
        true
    }

    open spec fn from_spec(value: usize) -> CacheEntryID {
        CacheEntryID::unpacked(value as u64)
    }
}

/// An entry comes back from its word.
pub proof fn entry_survives_packing(id: CacheEntryID)
    ensures
        CacheEntryID::unpacked(id.packed()) == id,
{
    let f = id.file_id;
    let g = id.rg_id;
    let c = id.row_id;
    let b = id.batch_id.v;
    let p = id.packed();
    assert((p >> 48) as u16 == f && ((p >> 32) & 0xFFFF) as u16 == g && ((p >> 16) & 0xFFFF) as u16
        == c && (p & 0xFFFF) as u16 == b) by (bit_vector)
        requires
            p == (f as u64) << 48 | (g as u64) << 32 | (c as u64) << 16 | (b as u64),
    ;
}

/// A word comes back from the entry that it stands for.
pub proof fn word_survives_unpacking(bits: u64)
    ensures
        CacheEntryID::unpacked(bits).packed() == bits,
{
    let f = (bits >> 48) as u16;
    let g = ((bits >> 32) & 0xFFFF) as u16;
    let c = ((bits >> 16) & 0xFFFF) as u16;
    let b = (bits & 0xFFFF) as u16;
    assert((f as u64) << 48 | (g as u64) << 32 | (c as u64) << 16 | (b as u64) == bits)
        by (bit_vector)
        requires
            f == (bits >> 48) as u16,
            g == ((bits >> 32) & 0xFFFF) as u16,
            c == ((bits >> 16) & 0xFFFF) as u16,
            b == (bits & 0xFFFF) as u16,
    ;
}

/// Different entries have different words.
pub proof fn packing_is_injective(a: CacheEntryID, b: CacheEntryID)
    requires
        a.packed() == b.packed(),
    ensures
        a == b,
{
    entry_survives_packing(a);
    entry_survives_packing(b);
}

/// On a machine with 64-bit words an entry comes back from the `usize` it converts to,
/// and a `usize` from the entry it converts to.
pub proof fn usize_conversions_are_inverse(id: CacheEntryID, value: usize)
    requires
        usize::BITS == 64,
    ensures
        <CacheEntryID as vstd::std_specs::convert::FromSpec<usize>>::from_spec(
            <usize as vstd::std_specs::convert::FromSpec<CacheEntryID>>::from_spec(id),
        ) == id,
        <usize as vstd::std_specs::convert::FromSpec<CacheEntryID>>::from_spec(
            <CacheEntryID as vstd::std_specs::convert::FromSpec<usize>>::from_spec(value),
        ) == value,
{
    entry_survives_packing(id);
    word_survives_unpacking(value as u64);
}

/// A column and a batch give the entry whose column is that column.
pub proof fn entry_belongs_to_its_column(path: ColumnAccessPath, batch_id: BatchID)
    ensures
        <ColumnAccessPath as vstd::std_specs::convert::FromSpec<CacheEntryID>>::from_spec(
            path.entry(batch_id),
        ) == path,
        path.entry(batch_id).batch_id == batch_id,
{
}

/// Different columns, and different batches of one column, have different entries.
pub proof fn entries_are_distinct(
    a: ColumnAccessPath,
    x: BatchID,
    b: ColumnAccessPath,
    y: BatchID,
)
    requires
        a.entry(x) == b.entry(y),
    ensures
        a == b,
        x == y,
{
}

/// The file of an entry lies directly in the directory of the entry's column.
pub proof fn column_directory_hosts_entry(
    root: Seq<Seq<char>>,
    path: ColumnAccessPath,
    batch_id: BatchID,
    extension: Seq<char>,
)
    ensures
        (root + path.entry(batch_id).disk_components(extension)).drop_last() == root
            + column_components(path.file_id, path.rg_id, path.col_id),
{
    assert((root + path.entry(batch_id).disk_components(extension)).drop_last() =~= root
        + column_components(path.file_id, path.rg_id, path.col_id));
}

proof fn lemma_labelled_injective(label: Seq<char>, a: nat, b: nat)
    requires
        label + decimal(a) == label + decimal(b),
    ensures
        a == b,
{
    let n = label.len() as int;
    assert((label + decimal(a)).skip(n) =~= decimal(a));
    assert((label + decimal(b)).skip(n) =~= decimal(b));
    decimal_is_injective(a, b);
}

/// A number followed by a text that starts with a dot ends where the first dot stands.
proof fn lemma_number_before_dot(a: nat, x: Seq<char>, b: nat, y: Seq<char>)
    requires
        x.len() > 0,
        y.len() > 0,
        x[0] == '.',
        y[0] == '.',
        decimal(a) + x == decimal(b) + y,
    ensures
        a == b,
        x == y,
{
    let l = decimal(a) + x;
    let r = decimal(b) + y;
    let m = decimal(a).len() as int;
    let n = decimal(b).len() as int;
    if m < n {
        lemma_decimal_digits(b, m);
        assert(l[m] == '.');
        assert(r[m] == decimal(b)[m]);
    }
    if n < m {
        lemma_decimal_digits(a, n);
        assert(r[n] == '.');
        assert(l[n] == decimal(a)[n]);
    }
    assert(l.take(m) =~= decimal(a));
    assert(r.take(n) =~= decimal(b));
    assert(l.skip(m) =~= x);
    assert(r.skip(n) =~= y);
    decimal_is_injective(a, b);
}

/// No two entries share a file, whatever the formats.
pub proof fn disk_paths_are_distinct(
    root: Seq<Seq<char>>,
    a: CacheEntryID,
    x: Seq<char>,
    b: CacheEntryID,
    y: Seq<char>,
)
    requires
        x == ".liquid"@ || x == ".arrow"@,
        y == ".liquid"@ || y == ".arrow"@,
        root + a.disk_components(x) == root + b.disk_components(y),
    ensures
        a == b,
        x == y,
{
    reveal_strlit(".liquid");
    reveal_strlit(".arrow");
    let n = root.len() as int;
    let p = a.disk_components(x);
    let q = b.disk_components(y);
    assert((root + p).skip(n) =~= p);
    assert((root + q).skip(n) =~= q);
    assert(p[0] == q[0] && p[1] == q[1] && p[2] == q[2] && p[3] == q[3]);
    lemma_labelled_injective("file_"@, a.file_id as nat, b.file_id as nat);
    lemma_labelled_injective("rg_"@, a.rg_id as nat, b.rg_id as nat);
    lemma_labelled_injective("col_"@, a.row_id as nat, b.row_id as nat);
    let l = "batch_"@.len() as int;
    let da = decimal(a.batch_id.v as nat);
    let db = decimal(b.batch_id.v as nat);
    assert(p[3] == "batch_"@ + da + x);
    assert(q[3] == "batch_"@ + db + y);
    assert(p[3].skip(l) =~= da + x);
    assert(q[3].skip(l) =~= db + y);
    lemma_number_before_dot(a.batch_id.v as nat, x, b.batch_id.v as nat, y);
}

/// No two columns share a directory.
pub proof fn column_directories_are_distinct(
    root: Seq<Seq<char>>,
    a: ColumnAccessPath,
    b: ColumnAccessPath,
)
    requires
        root + column_components(a.file_id, a.rg_id, a.col_id) == root + column_components(
            b.file_id,
            b.rg_id,
            b.col_id,
        ),
    ensures
        a == b,
{
    let n = root.len() as int;
    let p = column_components(a.file_id, a.rg_id, a.col_id);
    let q = column_components(b.file_id, b.rg_id, b.col_id);
    assert((root + p).skip(n) =~= p);
    assert((root + q).skip(n) =~= q);
    assert(p[0] == q[0] && p[1] == q[1] && p[2] == q[2]);
    lemma_labelled_injective("file_"@, a.file_id as nat, b.file_id as nat);
    lemma_labelled_injective("rg_"@, a.rg_id as nat, b.rg_id as nat);
    lemma_labelled_injective("col_"@, a.col_id as nat, b.col_id as nat);
}

/// The word of an entry is its four numbers as digits to the base of sixteen bits, the file first.
pub proof fn word_is_four_digits(id: CacheEntryID)
    ensures
        id.packed() == id.file_id * 0x1_0000_0000_0000 + id.rg_id * 0x1_0000_0000 + id.row_id
            * 0x1_0000 + id.batch_id.v,
{
    let f = id.file_id as u64;
    let g = id.rg_id as u64;
    let c = id.row_id as u64;
    let b = id.batch_id.v as u64;
    let p = id.packed();
    assert(p == f << 48 | g << 32 | c << 16 | b);
    assert(p == (f * 0x1_0000_0000_0000 + g * 0x1_0000_0000 + c * 0x1_0000 + b) as u64)
        by (bit_vector)
        requires
            f <= 0xFFFF,
            g <= 0xFFFF,
            c <= 0xFFFF,
            b <= 0xFFFF,
            p == f << 48 | g << 32 | c << 16 | b,
    ;
}

/// Words are in the order of files, then of row groups, then of columns, then of batches.
pub proof fn words_are_in_order(a: CacheEntryID, b: CacheEntryID)
    ensures
        a.file_id < b.file_id ==> a.packed() < b.packed(),
        a.file_id == b.file_id && a.rg_id < b.rg_id ==> a.packed() < b.packed(),
        a.file_id == b.file_id && a.rg_id == b.rg_id && a.row_id < b.row_id ==> a.packed()
            < b.packed(),
        a.file_id == b.file_id && a.rg_id == b.rg_id && a.row_id == b.row_id && a.batch_id.v
            < b.batch_id.v ==> a.packed() < b.packed(),
{
    word_is_four_digits(a);
    word_is_four_digits(b);
}

/// The entry of a column's batch has the numbers of the column and of the batch.
pub proof fn entry_has_the_numbers_of_its_column(path: ColumnAccessPath, batch_id: BatchID)
    ensures
        path.entry(batch_id).file_id == path.file_id,
        path.entry(batch_id).rg_id == path.rg_id,
        path.entry(batch_id).row_id == path.col_id,
        path.entry(batch_id).batch_id == batch_id,
{
}

/// Below the cache root lie the directories of files, in them those of row groups, in them those of
/// columns, and in them the files of batches, each named after its number; the name of the file of a
/// batch ends with its format.
pub proof fn files_are_named_after_numbers(id: CacheEntryID, extension: Seq<char>)
    ensures
        column_components(id.file_id, id.rg_id, id.row_id).len() == 3,
        id.disk_components(extension).len() == 4,
        id.disk_components(extension).take(3) == column_components(
            id.file_id,
            id.rg_id,
            id.row_id,
        ),
        id.disk_components(extension)[0] == "file_"@ + decimal(id.file_id as nat),
        id.disk_components(extension)[1] == "rg_"@ + decimal(id.rg_id as nat),
        id.disk_components(extension)[2] == "col_"@ + decimal(id.row_id as nat),
        id.disk_components(extension)[3] == "batch_"@ + decimal(id.batch_id.v as nat) + extension,
{
    assert(id.disk_components(extension).take(3) =~= column_components(
        id.file_id,
        id.rg_id,
        id.row_id,
    ));
}

/// The components of a path are its names, from the cache root downwards.
pub proof fn paths_are_lists_of_names(path: CachePath, i: int)
    requires
        0 <= i < path.components@.len(),
    ensures
        path@.len() == path.components@.len(),
        path@[i] == path.components@[i]@,
{
}

/// Entries convert to their column and to their word, and words to entries, as stated.
pub proof fn conversions_are_as_stated(id: CacheEntryID, value: usize)
    ensures
        <ColumnAccessPath as vstd::std_specs::convert::FromSpec<CacheEntryID>>::obeys_from_spec(),
        <usize as vstd::std_specs::convert::FromSpec<CacheEntryID>>::obeys_from_spec(),
        <CacheEntryID as vstd::std_specs::convert::FromSpec<usize>>::obeys_from_spec(),
        <ColumnAccessPath as vstd::std_specs::convert::FromSpec<CacheEntryID>>::from_spec(id)
            == (ColumnAccessPath { file_id: id.file_id, rg_id: id.rg_id, col_id: id.row_id }),
        usize::BITS == 64 ==> <usize as vstd::std_specs::convert::FromSpec<
            CacheEntryID,
        >>::from_spec(id) == id.packed(),
        <CacheEntryID as vstd::std_specs::convert::FromSpec<usize>>::from_spec(value).packed()
            == value,
{
    word_survives_unpacking(value as u64);
}

} // verus!
