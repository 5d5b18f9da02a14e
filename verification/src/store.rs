//! The relational store: releases, files, datasets, gene-dependency
//! summaries, cell lines and the freshness marker, held as rows with
//! insert-or-replace semantics.
//!
//! Releases and datasets are keyed by id, files by filename (their
//! de-facto merge key), the metadata rows by key; gene-dependency rows
//! are append-only.  Surrogate integer row ids are an artifact of a SQL
//! backend and are not assigned here.

use vstd::prelude::*;
use vstd::multiset::Multiset;
use vstd::pervasive::VecAdditionalExecFns;
use vstd::string::StringSliceAdditionalSpecFns;
use crate::classify::is_core_data_type;
use crate::classify::is_core_label;
use crate::classify::str_eq;
use crate::error::DepMapError;
use crate::models::CacheStats;
use crate::models::CellLine;
use crate::models::Dataset;
use crate::models::DatasetFileLink;
use crate::models::DatasetRow;
use crate::models::DownloadFile;
use crate::models::GeneDependency;
use crate::models::MetaRow;
use crate::models::Release;
use crate::models::ReleaseRow;
use crate::text::all_digits;
use crate::text::contains_bytes_ci;
use crate::text::digits_value;
use crate::text::eq_bytes_ci;
use crate::text::lemma_lex_antisym;
use crate::text::lemma_lex_refl;
use crate::text::lemma_lex_total;
use crate::text::lemma_lex_trans;
use crate::text::lex_leq;
use crate::text::starts_with_ci;
use crate::text::utf8_bytes;

verus! {

// ---------------------------------------------------------------------
// Keyed sequences: upserts and their map view
// ---------------------------------------------------------------------
/// No two elements share a key.
pub open spec fn unique_by<T>(s: Seq<T>, key: spec_fn(T) -> Seq<char>) -> bool {
    forall|i: int, j: int|
        0 <= i < j < s.len() ==> #[trigger] key(s[i]) != #[trigger] key(s[j])
}

/// Some element has key `k`.
pub open spec fn has_key<T>(s: Seq<T>, key: spec_fn(T) -> Seq<char>, k: Seq<char>) -> bool {
    exists|i: int| 0 <= i < s.len() && #[trigger] key(s[i]) == k
}

/// Insert-or-replace: the element with `x`'s key is replaced in place,
/// or `x` is appended.
pub open spec fn upsert_seq<T>(s: Seq<T>, x: T, key: spec_fn(T) -> Seq<char>) -> Seq<T> {
    if has_key(s, key, key(x)) {
        s.update(choose|i: int| 0 <= i < s.len() && #[trigger] key(s[i]) == key(x), x)
    } else {
        s.push(x)
    }
}

/// One upsert per element of `batch`, in order.
pub open spec fn upsert_all<T>(s: Seq<T>, batch: Seq<T>, key: spec_fn(T) -> Seq<char>) -> Seq<T>
    decreases batch.len(),
{
    if batch.len() == 0 {
        s
    } else {
        upsert_seq(upsert_all(s, batch.drop_last(), key), batch.last(), key)
    }
}

/// The rows as a map from key to row; on duplicate keys the later row
/// wins.
pub open spec fn seq_key_map<T>(s: Seq<T>, key: spec_fn(T) -> Seq<char>) -> Map<Seq<char>, T>
    decreases s.len(),
{
    if s.len() == 0 {
        Map::empty()
    } else {
        seq_key_map(s.drop_last(), key).insert(key(s.last()), s.last())
    }
}

pub proof fn lemma_seq_key_map_domain<T>(s: Seq<T>, key: spec_fn(T) -> Seq<char>, k: Seq<char>)
    ensures
        seq_key_map(s, key).dom().contains(k) <==> has_key(s, key, k),
    decreases s.len(),
{
    if s.len() > 0 {
        lemma_seq_key_map_domain(s.drop_last(), key, k);
        if has_key(s.drop_last(), key, k) {
            let i = choose|i: int|
                0 <= i < s.drop_last().len() && #[trigger] key(s.drop_last()[i]) == k;
            assert(key(s[i]) == k);
        }
        if has_key(s, key, k) && key(s.last()) != k {
            let i = choose|i: int| 0 <= i < s.len() && #[trigger] key(s[i]) == k;
            assert(key(s.drop_last()[i]) == k);
        }
    }
}

proof fn lemma_update_map<T>(s: Seq<T>, i: int, x: T, key: spec_fn(T) -> Seq<char>)
    requires
        unique_by(s, key),
        0 <= i < s.len(),
        key(s[i]) == key(x),
    ensures
        seq_key_map(s.update(i, x), key) == seq_key_map(s, key).insert(key(x), x),
    decreases s.len(),
{
    let s2 = s.update(i, x);
    if i == s.len() - 1 {
        assert(s2.drop_last() =~= s.drop_last());
        assert(s2.last() == x);
        assert(seq_key_map(s2, key) =~= seq_key_map(s, key).insert(key(x), x));
    } else {
        assert(s2.drop_last() =~= s.drop_last().update(i, x));
        assert(s2.last() == s.last());
        assert(s.drop_last()[i] == s[i]);
        assert(unique_by(s.drop_last(), key)) by {
            assert(forall|p: int, q: int|
                0 <= p < q < s.drop_last().len() ==> s.drop_last()[p] == s[p] && s.drop_last()[q]
                    == s[q]);
        }
        lemma_update_map(s.drop_last(), i, x, key);
        // the key being replaced differs from the last row's key
        assert(key(s[i]) != key(s.last()));
        assert(seq_key_map(s2, key) =~= seq_key_map(s, key).insert(key(x), x));
    }
}

pub proof fn lemma_upsert_map<T>(s: Seq<T>, x: T, key: spec_fn(T) -> Seq<char>)
    requires
        unique_by(s, key),
    ensures
        unique_by(upsert_seq(s, x, key), key),
        seq_key_map(upsert_seq(s, x, key), key) == seq_key_map(s, key).insert(key(x), x),
{
    let s2 = upsert_seq(s, x, key);
    if has_key(s, key, key(x)) {
        let i = choose|i: int| 0 <= i < s.len() && #[trigger] key(s[i]) == key(x);
        assert(s2 == s.update(i, x));
        assert forall|p: int, q: int| 0 <= p < q < s2.len() implies #[trigger] key(s2[p])
            != #[trigger] key(s2[q]) by {
            assert(key(s2[p]) == if p == i {
                key(x)
            } else {
                key(s[p])
            });
            assert(key(s2[q]) == if q == i {
                key(x)
            } else {
                key(s[q])
            });
        }
        lemma_update_map(s, i, x, key);
    } else {
        assert(s2 == s.push(x));
        assert(s2.drop_last() =~= s);
        assert(s2.last() == x);
        assert forall|p: int, q: int| 0 <= p < q < s2.len() implies #[trigger] key(s2[p])
            != #[trigger] key(s2[q]) by {
            if q == s2.len() - 1 {
                assert(key(s2[p]) == key(s[p]));
                assert(!(key(s[p]) == key(x)));
            }
        }
        assert(seq_key_map(s2, key) =~= seq_key_map(s, key).insert(key(x), x));
    }
}

pub proof fn lemma_upsert_all_map<T>(s: Seq<T>, batch: Seq<T>, key: spec_fn(T) -> Seq<char>)
    requires
        unique_by(s, key),
    ensures
        unique_by(upsert_all(s, batch, key), key),
        seq_key_map(upsert_all(s, batch, key), key) == seq_key_map(s, key).union_prefer_right(
            seq_key_map(batch, key),
        ),
    decreases batch.len(),
{
    if batch.len() == 0 {
        assert(seq_key_map(batch, key) =~= Map::<Seq<char>, T>::empty());
        assert(seq_key_map(s, key).union_prefer_right(Map::empty()) =~= seq_key_map(s, key));
    } else {
        lemma_upsert_all_map(s, batch.drop_last(), key);
        let s1 = upsert_all(s, batch.drop_last(), key);
        lemma_upsert_map(s1, batch.last(), key);
        assert(seq_key_map(upsert_all(s, batch, key), key) =~= seq_key_map(s, key)
            .union_prefer_right(seq_key_map(batch, key)));
    }
}

/// Batches equal key for key build maps with the same domain.
pub proof fn lemma_seq_key_map_domain_equal<T>(b1: Seq<T>, b2: Seq<T>, key: spec_fn(T) -> Seq<char>)
    requires
        b1.len() == b2.len(),
        forall|i: int| 0 <= i < b1.len() ==> #[trigger] key(b1[i]) == key(b2[i]),
    ensures
        seq_key_map(b1, key).dom() == seq_key_map(b2, key).dom(),
{
    assert forall|k: Seq<char>| #[trigger] seq_key_map(b1, key).dom().contains(k) implies seq_key_map(
        b2,
        key,
    ).dom().contains(k) by {
        lemma_seq_key_map_domain(b1, key, k);
        lemma_seq_key_map_domain(b2, key, k);
        let i = choose|i: int| 0 <= i < b1.len() && #[trigger] key(b1[i]) == k;
        assert(key(b2[i]) == k);
    }
    assert forall|k: Seq<char>| #[trigger] seq_key_map(b2, key).dom().contains(k) implies seq_key_map(
        b1,
        key,
    ).dom().contains(k) by {
        lemma_seq_key_map_domain(b1, key, k);
        lemma_seq_key_map_domain(b2, key, k);
        let i = choose|i: int| 0 <= i < b2.len() && #[trigger] key(b2[i]) == k;
        assert(key(b1[i]) == k);
    }
    assert(seq_key_map(b1, key).dom() =~= seq_key_map(b2, key).dom());
}

/// Upserting one batch after another is upserting their concatenation.
pub proof fn lemma_upsert_all_concat<T>(
    s: Seq<T>,
    a: Seq<T>,
    b: Seq<T>,
    key: spec_fn(T) -> Seq<char>,
)
    ensures
        upsert_all(upsert_all(s, a, key), b, key) == upsert_all(s, a + b, key),
    decreases b.len(),
{
    if b.len() == 0 {
        assert(a + b =~= a);
    } else {
        lemma_upsert_all_concat(s, a, b.drop_last(), key);
        assert((a + b).drop_last() =~= a + b.drop_last());
        assert((a + b).last() == b.last());
    }
}

/// Applying the same batch of upserts twice leaves the same rows as
/// applying it once, seen as a key-to-row map.
pub proof fn lemma_upsert_all_idempotent<T>(s: Seq<T>, batch: Seq<T>, key: spec_fn(T) -> Seq<char>)
    requires
        unique_by(s, key),
    ensures
        seq_key_map(upsert_all(upsert_all(s, batch, key), batch, key), key) == seq_key_map(
            upsert_all(s, batch, key),
            key,
        ),
{
    lemma_upsert_all_map(s, batch, key);
    lemma_upsert_all_map(upsert_all(s, batch, key), batch, key);
    assert(seq_key_map(upsert_all(upsert_all(s, batch, key), batch, key), key) =~= seq_key_map(
        upsert_all(s, batch, key),
        key,
    ));
}

// ---------------------------------------------------------------------
// The store itself
// ---------------------------------------------------------------------
/// The key of a release row.
pub open spec fn rel_key() -> spec_fn(ReleaseRow) -> Seq<char> {
    |r: ReleaseRow| r.id@
}

/// The key of a file row: its filename.
pub open spec fn file_key() -> spec_fn(DownloadFile) -> Seq<char> {
    |f: DownloadFile| f.filename@
}

/// The key of a dataset row.
pub open spec fn ds_key() -> spec_fn(DatasetRow) -> Seq<char> {
    |d: DatasetRow| d.id@
}

/// The key of a metadata row.
pub open spec fn meta_key() -> spec_fn(MetaRow) -> Seq<char> {
    |m: MetaRow| m.key@
}

/// The local mirror of the remote catalog.
pub struct CacheManager {
    releases: Vec<ReleaseRow>,
    files: Vec<DownloadFile>,
    datasets: Vec<DatasetRow>,
    dataset_files: Vec<DatasetFileLink>,
    gene_deps: Vec<GeneDependency>,
    cell_lines_count: usize,
    metadata: Vec<MetaRow>,
}

impl CacheManager {
    pub closed spec fn spec_releases(self) -> Seq<ReleaseRow> {
        self.releases@
    }

    pub closed spec fn spec_files(self) -> Seq<DownloadFile> {
        self.files@
    }

    pub closed spec fn spec_datasets(self) -> Seq<DatasetRow> {
        self.datasets@
    }

    pub closed spec fn spec_gene_deps(self) -> Seq<GeneDependency> {
        self.gene_deps@
    }

    pub closed spec fn spec_dataset_links(self) -> Seq<DatasetFileLink> {
        self.dataset_files@
    }

    pub closed spec fn spec_metadata(self) -> Seq<MetaRow> {
        self.metadata@
    }

    pub closed spec fn spec_cell_lines_count(self) -> nat {
        self.cell_lines_count as nat
    }

    /// The store's invariant: each keyed table holds one row per key.
    pub open spec fn wf(self) -> bool {
        &&& unique_by(self.spec_releases(), rel_key())
        &&& unique_by(self.spec_files(), file_key())
        &&& unique_by(self.spec_datasets(), ds_key())
        &&& unique_by(self.spec_metadata(), meta_key())
    }

    /// A fresh, empty store.
    pub fn new() -> (r: CacheManager)
        ensures
            r.wf(),
            r.spec_releases().len() == 0,
            r.spec_files().len() == 0,
            r.spec_datasets().len() == 0,
            r.spec_dataset_links().len() == 0,
            r.spec_gene_deps().len() == 0,
            r.spec_metadata().len() == 0,
            r.spec_cell_lines_count() == 0,
    {
        CacheManager {
            releases: Vec::new(),
            files: Vec::new(),
            datasets: Vec::new(),
            dataset_files: Vec::new(),
            gene_deps: Vec::new(),
            cell_lines_count: 0,
            metadata: Vec::new(),
        }
    }

    /// Index of the release row with this id, if any.
    fn find_release_idx(&self, id: &str) -> (r: Option<usize>)
        ensures
            r matches Some(i) ==> i < self.spec_releases().len() && rel_key()(
                self.spec_releases()[i as int],
            ) == id@,
            r is None ==> !has_key(self.spec_releases(), rel_key(), id@),
    {
        let mut i: usize = 0;
        while i < self.releases.len()
            invariant
                i <= self.releases@.len(),
                forall|j: int| 0 <= j < i ==> #[trigger] rel_key()(self.releases@[j]) != id@,
            decreases self.releases@.len() - i,
        {
            if str_eq(self.releases[i].id.as_str(), id) {
                return Some(i);
            }
            i = i + 1;
        }
        None
    }

    fn find_file_idx(&self, filename: &str) -> (r: Option<usize>)
        ensures
            r matches Some(i) ==> i < self.spec_files().len() && file_key()(
                self.spec_files()[i as int],
            ) == filename@,
            r is None ==> !has_key(self.spec_files(), file_key(), filename@),
    {
        let mut i: usize = 0;
        while i < self.files.len()
            invariant
                i <= self.files@.len(),
                forall|j: int| 0 <= j < i ==> #[trigger] file_key()(self.files@[j]) != filename@,
            decreases self.files@.len() - i,
        {
            if str_eq(self.files[i].filename.as_str(), filename) {
                return Some(i);
            }
            i = i + 1;
        }
        None
    }

    fn find_dataset_idx(&self, id: &str) -> (r: Option<usize>)
        ensures
            r matches Some(i) ==> i < self.spec_datasets().len() && ds_key()(
                self.spec_datasets()[i as int],
            ) == id@,
            r is None ==> !has_key(self.spec_datasets(), ds_key(), id@),
    {
        let mut i: usize = 0;
        while i < self.datasets.len()
            invariant
                i <= self.datasets@.len(),
                forall|j: int| 0 <= j < i ==> #[trigger] ds_key()(self.datasets@[j]) != id@,
            decreases self.datasets@.len() - i,
        {
            if str_eq(self.datasets[i].id.as_str(), id) {
                return Some(i);
            }
            i = i + 1;
        }
        None
    }

    /// Inserts or replaces one file row, keyed by filename.
    pub fn store_file(&mut self, file: &DownloadFile)
        requires
            old(self).wf(),
        ensures
            final(self).wf(),
            final(self).spec_files() == upsert_seq(old(self).spec_files(), *file, file_key()),
            final(self).spec_releases() == old(self).spec_releases(),
            final(self).spec_datasets() == old(self).spec_datasets(),
            final(self).spec_gene_deps() == old(self).spec_gene_deps(),
            final(self).spec_metadata() == old(self).spec_metadata(),
            final(self).spec_cell_lines_count() == old(self).spec_cell_lines_count(),
            final(self).spec_dataset_links() == old(self).spec_dataset_links(),
    {
        proof {
            lemma_upsert_map(self.files@, *file, file_key());
        }
        match self.find_file_idx(file.filename.as_str()) {
            Some(i) => {
                proof {
                    let c = choose|c: int|
                        0 <= c < self.files@.len() && #[trigger] file_key()(self.files@[c])
                            == file_key()(*file);
                    assert(c == i as int);
                }
                self.files.set(i, file.clone());
            },
            None => {
                self.files.push(file.clone());
            },
        }
    }

    /// Inserts or replaces one release row, keyed by id.
    pub fn store_release_row(&mut self, row: &ReleaseRow)
        requires
            old(self).wf(),
        ensures
            final(self).wf(),
            final(self).spec_releases() == upsert_seq(old(self).spec_releases(), *row, rel_key()),
            final(self).spec_files() == old(self).spec_files(),
            final(self).spec_datasets() == old(self).spec_datasets(),
            final(self).spec_gene_deps() == old(self).spec_gene_deps(),
            final(self).spec_metadata() == old(self).spec_metadata(),
            final(self).spec_cell_lines_count() == old(self).spec_cell_lines_count(),
            final(self).spec_dataset_links() == old(self).spec_dataset_links(),
    {
        proof {
            lemma_upsert_map(self.releases@, *row, rel_key());
        }
        match self.find_release_idx(row.id.as_str()) {
            Some(i) => {
                proof {
                    let c = choose|c: int|
                        0 <= c < self.releases@.len() && #[trigger] rel_key()(self.releases@[c])
                            == rel_key()(*row);
                    assert(c == i as int);
                }
                self.releases.set(i, row.clone());
            },
            None => {
                self.releases.push(row.clone());
            },
        }
    }

    /// Inserts or replaces one dataset row, keyed by id.
    pub fn store_dataset(&mut self, row: &DatasetRow)
        requires
            old(self).wf(),
        ensures
            final(self).wf(),
            final(self).spec_datasets() == upsert_seq(old(self).spec_datasets(), *row, ds_key()),
            final(self).spec_releases() == old(self).spec_releases(),
            final(self).spec_files() == old(self).spec_files(),
            final(self).spec_gene_deps() == old(self).spec_gene_deps(),
            final(self).spec_metadata() == old(self).spec_metadata(),
            final(self).spec_cell_lines_count() == old(self).spec_cell_lines_count(),
            final(self).spec_dataset_links() == old(self).spec_dataset_links(),
    {
        proof {
            lemma_upsert_map(self.datasets@, *row, ds_key());
        }
        match self.find_dataset_idx(row.id.as_str()) {
            Some(i) => {
                proof {
                    let c = choose|c: int|
                        0 <= c < self.datasets@.len() && #[trigger] ds_key()(self.datasets@[c])
                            == ds_key()(*row);
                    assert(c == i as int);
                }
                self.datasets.set(i, row.clone());
            },
            None => {
                self.datasets.push(row.clone());
            },
        }
    }

    /// The view of a release with its files: the release's row fields.
    pub open spec fn spec_release_row_of(release: Release) -> ReleaseRow {
        ReleaseRow {
            id: release.id,
            name: release.name,
            release_date: release.release_date,
            is_current: release.is_current,
            created_at: release.created_at,
        }
    }

    /// Stores a release and each of its files: the release row is
    /// replaced wholesale, the files are merged by filename.
    pub fn store_release(&mut self, release: &Release)
        requires
            old(self).wf(),
        ensures
            final(self).wf(),
            final(self).spec_releases() == upsert_seq(
                old(self).spec_releases(),
                Self::spec_release_row_of(*release),
                rel_key(),
            ),
            final(self).spec_files() == upsert_all(
                old(self).spec_files(),
                release.files@,
                file_key(),
            ),
            final(self).spec_datasets() == old(self).spec_datasets(),
            final(self).spec_gene_deps() == old(self).spec_gene_deps(),
            final(self).spec_metadata() == old(self).spec_metadata(),
            final(self).spec_cell_lines_count() == old(self).spec_cell_lines_count(),
            final(self).spec_dataset_links() == old(self).spec_dataset_links(),
    {
        let row = ReleaseRow {
            id: release.id.clone(),
            name: release.name.clone(),
            release_date: release.release_date,
            is_current: release.is_current,
            created_at: release.created_at,
        };
        self.store_release_row(&row);
        let mut i: usize = 0;
        while i < release.files.len()
            invariant
                i <= release.files@.len(),
                self.wf(),
                self.spec_files() == upsert_all(
                    old(self).spec_files(),
                    release.files@.take(i as int),
                    file_key(),
                ),
                self.spec_releases() == upsert_seq(
                    old(self).spec_releases(),
                    Self::spec_release_row_of(*release),
                    rel_key(),
                ),
                self.spec_datasets() == old(self).spec_datasets(),
                self.spec_gene_deps() == old(self).spec_gene_deps(),
                self.spec_metadata() == old(self).spec_metadata(),
                self.spec_cell_lines_count() == old(self).spec_cell_lines_count(),
                self.spec_dataset_links() == old(self).spec_dataset_links(),
            decreases release.files@.len() - i,
        {
            self.store_file(&release.files[i]);
            proof {
                assert(release.files@.take(i + 1).drop_last() =~= release.files@.take(i as int));
                assert(release.files@.take(i + 1).last() == release.files@[i as int]);
            }
            i = i + 1;
        }
        proof {
            assert(release.files@.take(release.files@.len() as int) =~= release.files@);
        }
    }

    /// Appends a batch of gene-dependency records; they are never merged.
    pub fn store_gene_dependencies_batch(&mut self, batch: &Vec<GeneDependency>)
        requires
            old(self).wf(),
        ensures
            final(self).wf(),
            final(self).spec_gene_deps() == old(self).spec_gene_deps() + batch@,
            final(self).spec_releases() == old(self).spec_releases(),
            final(self).spec_files() == old(self).spec_files(),
            final(self).spec_datasets() == old(self).spec_datasets(),
            final(self).spec_metadata() == old(self).spec_metadata(),
            final(self).spec_cell_lines_count() == old(self).spec_cell_lines_count(),
            final(self).spec_dataset_links() == old(self).spec_dataset_links(),
    {
        let mut i: usize = 0;
        while i < batch.len()
            invariant
                i <= batch@.len(),
                self.wf(),
                self.spec_gene_deps() == old(self).spec_gene_deps() + batch@.take(i as int),
                self.spec_releases() == old(self).spec_releases(),
                self.spec_files() == old(self).spec_files(),
                self.spec_datasets() == old(self).spec_datasets(),
                self.spec_metadata() == old(self).spec_metadata(),
                self.spec_cell_lines_count() == old(self).spec_cell_lines_count(),
                self.spec_dataset_links() == old(self).spec_dataset_links(),
            decreases batch@.len() - i,
        {
            self.gene_deps.push(batch[i].clone());
            proof {
                assert(old(self).spec_gene_deps() + batch@.take(i + 1) =~= (old(
                    self,
                ).spec_gene_deps() + batch@.take(i as int)).push(batch@[i as int]));
            }
            i = i + 1;
        }
        proof {
            assert(batch@.take(batch@.len() as int) =~= batch@);
        }
    }

    /// The metadata row with this key, if any.
    pub open spec fn spec_meta_lookup(s: Seq<MetaRow>, k: Seq<char>) -> Option<MetaRow> {
        if has_key(s, meta_key(), k) {
            Some(s[choose|i: int| 0 <= i < s.len() && #[trigger] meta_key()(s[i]) == k])
        } else {
            None
        }
    }

    fn find_meta_idx(&self, k: &str) -> (r: Option<usize>)
        ensures
            r matches Some(i) ==> i < self.spec_metadata().len() && meta_key()(
                self.spec_metadata()[i as int],
            ) == k@,
            r is None ==> !has_key(self.spec_metadata(), meta_key(), k@),
    {
        let mut i: usize = 0;
        while i < self.metadata.len()
            invariant
                i <= self.metadata@.len(),
                forall|j: int| 0 <= j < i ==> #[trigger] meta_key()(self.metadata@[j]) != k@,
            decreases self.metadata@.len() - i,
        {
            if str_eq(self.metadata[i].key.as_str(), k) {
                return Some(i);
            }
            i = i + 1;
        }
        None
    }

    /// Whether the mirror is stale: true when no full update was ever
    /// recorded, or when the recorded instant lies more than 24 hours
    /// before `now_s`.
    pub open spec fn spec_cache_expired(self, now_s: i64) -> bool {
        match Self::spec_meta_lookup(self.spec_metadata(), "last_full_update"@) {
            None => true,
            Some(row) => now_s - row.updated_at > 86400,
        }
    }

    pub fn is_cache_expired(&self, now_s: i64) -> (r: bool)
        requires
            self.wf(),
        ensures
            r == self.spec_cache_expired(now_s),
    {
        match self.find_meta_idx("last_full_update") {
            None => true,
            Some(i) => {
                proof {
                    let c = choose|c: int|
                        0 <= c < self.metadata@.len() && #[trigger] meta_key()(self.metadata@[c])
                            == "last_full_update"@;
                    assert(c == i as int);
                }
                let row_ts = self.metadata[i].updated_at;
                (now_s as i128) - (row_ts as i128) > 86400
            },
        }
    }

    /// Records that a full update finished at `now_s`.
    pub fn update_timestamps(&mut self, now_s: i64)
        requires
            old(self).wf(),
        ensures
            final(self).wf(),
            Self::spec_meta_lookup(final(self).spec_metadata(), "last_full_update"@) matches Some(
                row,
            ) && row.key@ == "last_full_update"@ && row.value@ == "completed"@ && row.updated_at
                == now_s,
            forall|k: Seq<char>|
                k != "last_full_update"@ ==> #[trigger] Self::spec_meta_lookup(
                    final(self).spec_metadata(),
                    k,
                ) == Self::spec_meta_lookup(old(self).spec_metadata(), k),
            final(self).spec_releases() == old(self).spec_releases(),
            final(self).spec_files() == old(self).spec_files(),
            final(self).spec_datasets() == old(self).spec_datasets(),
            final(self).spec_gene_deps() == old(self).spec_gene_deps(),
            final(self).spec_cell_lines_count() == old(self).spec_cell_lines_count(),
            final(self).spec_dataset_links() == old(self).spec_dataset_links(),
    {
        let row = MetaRow {
            key: "last_full_update".to_owned(),
            value: "completed".to_owned(),
            updated_at: now_s,
        };
        proof {
            lemma_upsert_map(self.metadata@, row, meta_key());
        }
        let ghost oldmeta = self.metadata@;
        match self.find_meta_idx("last_full_update") {
            Some(i) => {
                proof {
                    let c = choose|c: int|
                        0 <= c < self.metadata@.len() && #[trigger] meta_key()(self.metadata@[c])
                            == meta_key()(row);
                    assert(c == i as int);
                }
                self.metadata.set(i, row);
            },
            None => {
                self.metadata.push(row);
            },
        }
        proof {
            Self::lemma_meta_lookup_after_upsert(oldmeta, row);
        }
    }

    proof fn lemma_meta_lookup_after_upsert(s: Seq<MetaRow>, row: MetaRow)
        requires
            unique_by(s, meta_key()),
        ensures
            Self::spec_meta_lookup(upsert_seq(s, row, meta_key()), row.key@) == Some(row),
            forall|k: Seq<char>|
                k != row.key@ ==> #[trigger] Self::spec_meta_lookup(
                    upsert_seq(s, row, meta_key()),
                    k,
                ) == Self::spec_meta_lookup(s, k),
    {
        let s2 = upsert_seq(s, row, meta_key());
        lemma_upsert_map(s, row, meta_key());
        if has_key(s, meta_key(), row.key@) {
            let i = choose|i: int| 0 <= i < s.len() && #[trigger] meta_key()(s[i]) == row.key@;
            assert(s2 == s.update(i, row));
            assert(meta_key()(s2[i]) == row.key@);
            let c = choose|c: int| 0 <= c < s2.len() && #[trigger] meta_key()(s2[c]) == row.key@;
            assert(s2[c] == row);
        } else {
            assert(s2 == s.push(row));
            assert(meta_key()(s2[s.len() as int]) == row.key@);
            let c = choose|c: int| 0 <= c < s2.len() && #[trigger] meta_key()(s2[c]) == row.key@;
            assert(s2[c] == row);
        }
        assert forall|k: Seq<char>| k != row.key@ implies #[trigger] Self::spec_meta_lookup(s2, k)
            == Self::spec_meta_lookup(s, k) by {
            if has_key(s2, meta_key(), k) {
                let i = choose|i: int| 0 <= i < s2.len() && #[trigger] meta_key()(s2[i]) == k;
                assert(meta_key()(s[i]) == k);
                let j = choose|j: int| 0 <= j < s.len() && #[trigger] meta_key()(s[j]) == k;
                assert(i == j);
                assert(s2[i] == s[j]);
            } else {
                if has_key(s, meta_key(), k) {
                    let i = choose|i: int| 0 <= i < s.len() && #[trigger] meta_key()(s[i]) == k;
                    if has_key(s, meta_key(), row.key@) {
                        let u = choose|u: int|
                            0 <= u < s.len() && #[trigger] meta_key()(s[u]) == row.key@;
                        assert(i != u);
                        assert(meta_key()(s2[i]) == k);
                    } else {
                        assert(meta_key()(s2[i]) == k);
                    }
                }
            }
        }
    }
}

// ---------------------------------------------------------------------
// Query predicates
// ---------------------------------------------------------------------
/// The file belongs to the release with this id.
pub open spec fn file_in_release(f: DownloadFile, id: Seq<char>) -> bool {
    f.release_id matches Some(r) && r@ == id
}

/// The release's name contains the pattern, ignoring ASCII case.
pub open spec fn rel_name_matches(r: ReleaseRow, pat: Seq<u8>) -> bool {
    contains_bytes_ci(utf8_bytes(r.name@), pat)
}

/// The file carries a core data-type label.
pub open spec fn file_is_core(f: DownloadFile) -> bool {
    f.data_type matches Some(d) && is_core_label(d@)
}

/// The file's data-type label contains the pattern, ignoring ASCII case.
pub open spec fn file_dt_matches(f: DownloadFile, pat: Seq<u8>) -> bool {
    f.data_type matches Some(d) && contains_bytes_ci(utf8_bytes(d@), pat)
}

/// The dataset's data-type label contains the pattern, ignoring ASCII case.
pub open spec fn ds_dt_matches(d: DatasetRow, pat: Seq<u8>) -> bool {
    contains_bytes_ci(utf8_bytes(d.data_type@), pat)
}

/// The files of one release, in table order.
pub open spec fn spec_release_files(files: Seq<DownloadFile>, id: Seq<char>) -> Seq<DownloadFile> {
    files.filter(|f: DownloadFile| file_in_release(f, id))
}

/// `rel` is the release row `row` fleshed out with its files.
pub open spec fn release_of_row(rel: Release, row: ReleaseRow, files: Seq<DownloadFile>) -> bool {
    &&& rel.id == row.id
    &&& rel.name == row.name
    &&& rel.release_date == row.release_date
    &&& rel.is_current == row.is_current
    &&& rel.created_at == row.created_at
    &&& rel.files@ == spec_release_files(files, row.id@)
}

/// `ds` is the dataset row `row`, with no files attached.
pub open spec fn dataset_of_row(ds: Dataset, row: DatasetRow) -> bool {
    &&& ds.id == row.id
    &&& ds.display_name == row.display_name
    &&& ds.data_type == row.data_type
    &&& ds.download_entry_url == row.download_entry_url
    &&& ds.created_at == row.created_at
    &&& ds.associated_files@.len() == 0
}

pub open spec fn opt_str_bytes(o: Option<&str>) -> Option<Seq<u8>> {
    match o {
        None => None,
        Some(s) => Some(s.spec_bytes()),
    }
}

/// The release rows selected by an optional name filter.
pub open spec fn spec_matching_releases(s: Seq<ReleaseRow>, filter: Option<Seq<u8>>) -> Seq<
    ReleaseRow,
> {
    match filter {
        None => s,
        Some(p) => s.filter(|row: ReleaseRow| rel_name_matches(row, p)),
    }
}

/// The files of a list of releases, concatenated in release order.
pub open spec fn spec_files_of_rows(rows: Seq<ReleaseRow>, files: Seq<DownloadFile>) -> Seq<
    DownloadFile,
>
    decreases rows.len(),
{
    if rows.len() == 0 {
        Seq::empty()
    } else {
        spec_files_of_rows(rows.drop_last(), files) + spec_release_files(
            files,
            rows.last().id@,
        )
    }
}

/// A file passes an optional data-type filter.
pub open spec fn dt_selected(f: DownloadFile, o: Option<Seq<u8>>) -> bool {
    match o {
        None => true,
        Some(p) => file_dt_matches(f, p),
    }
}

/// The association table links this dataset to this file.
pub open spec fn file_linked(links: Seq<DatasetFileLink>, ds: Seq<char>, f: DownloadFile) -> bool {
    exists|i: int|
        #![trigger links[i]]
        0 <= i < links.len() && links[i].dataset_id@ == ds && links[i].filename@ == f.filename@
}

/// The heuristic fallback: the filename mentions the dataset's display
/// name, or the data-type labels agree (both ignoring ASCII case).
pub open spec fn ds_heuristic(f: DownloadFile, ds: DatasetRow) -> bool {
    ||| contains_bytes_ci(utf8_bytes(f.filename@), utf8_bytes(ds.display_name@))
    ||| (f.data_type matches Some(d) && eq_bytes_ci(utf8_bytes(d@), utf8_bytes(ds.data_type@)))
}

/// The dataset row at `i` is the first whose id or display name equals `q`.
pub open spec fn is_first_ds_match(s: Seq<DatasetRow>, q: Seq<char>, i: int) -> bool {
    &&& 0 <= i < s.len()
    &&& (s[i].id@ == q || s[i].display_name@ == q)
    &&& forall|j: int| #![trigger s[j]] 0 <= j < i ==> !(s[j].id@ == q || s[j].display_name@ == q)
}

/// The release row at `i` is the first flagged current.
pub open spec fn is_first_current(s: Seq<ReleaseRow>, i: int) -> bool {
    &&& 0 <= i < s.len()
    &&& s[i].is_current
    &&& forall|j: int| #![trigger s[j]] 0 <= j < i ==> !s[j].is_current
}

/// The ordering key of a release: its date, with the epoch for undated
/// rows.
pub open spec fn rel_date_key(r: ReleaseRow) -> int {
    match r.release_date {
        Some(d) => d as int,
        None => 0,
    }
}

/// The release row at `i` is the latest: no later date anywhere, and no
/// equal date after it.
pub open spec fn is_latest_release(s: Seq<ReleaseRow>, i: int) -> bool {
    &&& 0 <= i < s.len()
    &&& forall|j: int| #![trigger s[j]] 0 <= j < s.len() ==> rel_date_key(s[j]) <= rel_date_key(s[i])
    &&& forall|j: int| #![trigger s[j]] i < j < s.len() ==> rel_date_key(s[j]) < rel_date_key(s[i])
}

pub open spec fn spec_has_current(s: Seq<ReleaseRow>) -> bool {
    exists|i: int| #![trigger s[i]] 0 <= i < s.len() && s[i].is_current
}

/// The row that current-release resolution selects: the first flagged
/// row, or failing that the latest-dated row.
pub open spec fn is_selected_current(s: Seq<ReleaseRow>, row: ReleaseRow) -> bool {
    if spec_has_current(s) {
        exists|i: int| #![trigger s[i]] is_first_current(s, i) && row == s[i]
    } else {
        exists|i: int| #![trigger s[i]] is_latest_release(s, i) && row == s[i]
    }
}

/// A gene record matches a search query: the gene symbol contains the
/// query (ignoring ASCII case), or the query is the record's numeric
/// entrez id.
pub open spec fn gene_match(g: GeneDependency, qb: Seq<u8>, qe: Option<u32>) -> bool {
    ||| contains_bytes_ci(utf8_bytes(g.gene@), qb)
    ||| (qe matches Some(v) && g.entrez_id == v)
}

/// The top relevance tier: an exact symbol or entrez match.
pub open spec fn gene_exact(g: GeneDependency, qb: Seq<u8>, qe: Option<u32>) -> bool {
    ||| eq_bytes_ci(utf8_bytes(g.gene@), qb)
    ||| (qe matches Some(v) && g.entrez_id == v)
}

/// The middle relevance tier: the symbol starts with the query.
pub open spec fn gene_prefix(g: GeneDependency, qb: Seq<u8>) -> bool {
    starts_with_ci(utf8_bytes(g.gene@), qb)
}

/// The query read as an entrez id: a non-empty digit string within u32.
pub open spec fn spec_query_entrez(q: Seq<u8>) -> Option<u32> {
    if q.len() > 0 && all_digits(q) && digits_value(q) <= u32::MAX {
        Some(digits_value(q) as u32)
    } else {
        None
    }
}

/// The top search tier of a gene table: exact matches, in table order.
pub open spec fn spec_gene_t0(deps: Seq<GeneDependency>, qb: Seq<u8>) -> Seq<GeneDependency> {
    deps.filter(
        |g: GeneDependency|
            gene_match(g, qb, spec_query_entrez(qb)) && gene_exact(g, qb, spec_query_entrez(qb)),
    )
}

/// The middle search tier: prefix matches that are not exact.
pub open spec fn spec_gene_t1(deps: Seq<GeneDependency>, qb: Seq<u8>) -> Seq<GeneDependency> {
    deps.filter(
        |g: GeneDependency|
            gene_match(g, qb, spec_query_entrez(qb)) && !gene_exact(g, qb, spec_query_entrez(qb))
                && gene_prefix(g, qb),
    )
}

/// The last search tier: the remaining matches.
pub open spec fn spec_gene_t2(deps: Seq<GeneDependency>, qb: Seq<u8>) -> Seq<GeneDependency> {
    deps.filter(
        |g: GeneDependency|
            gene_match(g, qb, spec_query_entrez(qb)) && !gene_exact(g, qb, spec_query_entrez(qb))
                && !gene_prefix(g, qb),
    )
}

/// Search results: matches in three relevance tiers (exact, prefix,
/// other), each tier in table order, cut to `limit`.
pub open spec fn spec_search_genes(
    deps: Seq<GeneDependency>,
    qb: Seq<u8>,
    limit: int,
) -> Seq<GeneDependency> {
    let all = spec_gene_t0(deps, qb) + spec_gene_t1(deps, qb) + spec_gene_t2(deps, qb);
    if limit < all.len() {
        all.take(limit)
    } else {
        all
    }
}

/// The download paths of the files already fetched to disk.
pub open spec fn spec_download_paths(files: Seq<DownloadFile>) -> Seq<Seq<char>> {
    files.filter(|f: DownloadFile| f.is_downloaded && f.download_path is Some).map_values(
        |f: DownloadFile|
            match f.download_path {
                Some(p) => p@,
                None => Seq::empty(),
            },
    )
}

/// As [`spec_download_paths`], restricted to one data-type pattern.
pub open spec fn spec_paths_for_type(files: Seq<DownloadFile>, pat: Seq<u8>) -> Seq<Seq<char>> {
    files.filter(
        |f: DownloadFile| file_dt_matches(f, pat) && f.is_downloaded && f.download_path is Some,
    ).map_values(
        |f: DownloadFile|
            match f.download_path {
                Some(p) => p@,
                None => Seq::empty(),
            },
    )
}

/// Sum of the known file sizes.
pub open spec fn sum_sizes(files: Seq<DownloadFile>) -> int
    decreases files.len(),
{
    if files.len() == 0 {
        0
    } else {
        sum_sizes(files.drop_last()) + (match files.last().size {
            Some(s) => s as int,
            None => 0,
        })
    }
}

// ---------------------------------------------------------------------
// Filter lemmas
// ---------------------------------------------------------------------
/// Extending the input by one element extends its filtered image by that
/// element exactly when the predicate holds of it.
pub proof fn lemma_filter_take_step<T>(s: Seq<T>, i: int, p: spec_fn(T) -> bool)
    requires
        0 <= i < s.len(),
    ensures
        s.take(i + 1).filter(p) == if p(s[i]) {
            s.take(i).filter(p).push(s[i])
        } else {
            s.take(i).filter(p)
        },
{
    reveal(Seq::filter);
    assert(s.take(i + 1).drop_last() =~= s.take(i));
    assert(s.take(i + 1).last() == s[i]);
    assert(s.take(i + 1).len() == i + 1);
}

/// Two pointwise-equal predicates filter alike.
pub proof fn lemma_filter_congruent<T>(s: Seq<T>, p1: spec_fn(T) -> bool, p2: spec_fn(T) -> bool)
    requires
        forall|x: T| #[trigger] p1(x) == p2(x),
    ensures
        s.filter(p1) == s.filter(p2),
    decreases s.len(),
{
    reveal(Seq::filter);
    if s.len() > 0 {
        lemma_filter_congruent(s.drop_last(), p1, p2);
    }
}

/// Filtering keeps keys unique, and introduces no new keys.
pub proof fn lemma_filter_unique<T>(s: Seq<T>, key: spec_fn(T) -> Seq<char>, p: spec_fn(T) -> bool)
    requires
        unique_by(s, key),
    ensures
        unique_by(s.filter(p), key),
        forall|k: Seq<char>| has_key(s.filter(p), key, k) ==> has_key(s, key, k),
    decreases s.len(),
{
    reveal(Seq::filter);
    if s.len() > 0 {
        let d = s.drop_last();
        assert(unique_by(d, key)) by {
            assert(forall|i: int| 0 <= i < d.len() ==> d[i] == #[trigger] s[i]);
        }
        lemma_filter_unique(d, key, p);
        if p(s.last()) {
            assert(s.filter(p) == d.filter(p).push(s.last()));
        } else {
            assert(s.filter(p) == d.filter(p));
        }
        assert forall|k: Seq<char>| has_key(s.filter(p), key, k) implies has_key(s, key, k) by {
            let i = choose|i: int|
                0 <= i < s.filter(p).len() && #[trigger] key(s.filter(p)[i]) == k;
            if p(s.last()) && i == s.filter(p).len() - 1 {
                assert(s.filter(p)[i] == s.last());
                assert(key(s[s.len() - 1]) == k);
            } else {
                assert(s.filter(p)[i] == d.filter(p)[i]);
                assert(has_key(d.filter(p), key, k));
                assert(has_key(d, key, k));
                let j = choose|j: int| 0 <= j < d.len() && #[trigger] key(d[j]) == k;
                assert(d[j] == s[j]);
                assert(key(s[j]) == k);
            }
        }
        if p(s.last()) {
            assert(!has_key(d, key, key(s.last()))) by {
                if has_key(d, key, key(s.last())) {
                    let i = choose|i: int|
                        0 <= i < d.len() && #[trigger] key(d[i]) == key(s.last());
                    assert(d[i] == s[i]);
                    assert(key(s[i]) == key(s[s.len() - 1]));
                }
            }
            assert forall|a: int, b: int| 0 <= a < b < s.filter(p).len() implies #[trigger] key(
                s.filter(p)[a],
            ) != #[trigger] key(s.filter(p)[b]) by {
                if b == s.filter(p).len() - 1 {
                    assert(s.filter(p)[a] == d.filter(p)[a]);
                    assert(s.filter(p)[b] == s.last());
                    assert(has_key(d.filter(p), key, key(d.filter(p)[a])));
                    if key(s.filter(p)[a]) == key(s.last()) {
                        assert(has_key(d, key, key(s.last())));
                    }
                } else {
                    assert(s.filter(p)[a] == d.filter(p)[a]);
                    assert(s.filter(p)[b] == d.filter(p)[b]);
                }
            }
        }
    }
}

proof fn lemma_files_of_rows_push(rows: Seq<ReleaseRow>, x: ReleaseRow, files: Seq<DownloadFile>)
    ensures
        spec_files_of_rows(rows.push(x), files) == spec_files_of_rows(rows, files)
            + spec_release_files(files, x.id@),
{
    assert(rows.push(x).drop_last() =~= rows);
    assert(rows.push(x).last() == x);
}

// ---------------------------------------------------------------------
// Listing orders
// ---------------------------------------------------------------------
/// Release listings come newest first; rows without a date count as the
/// epoch.
pub open spec fn rel_sorted_desc(rows: Seq<ReleaseRow>) -> bool {
    forall|i: int, j: int|
        0 <= i < j < rows.len() ==> rel_date_key(#[trigger] rows[j]) <= rel_date_key(
            #[trigger] rows[i],
        )
}

/// The order dataset listings come in: by display name, or by data type
/// and then display name, both byte-lexicographic — the order a binary
/// text collation gives.
pub open spec fn ds_listing_leq(a: DatasetRow, b: DatasetRow, by_type_first: bool) -> bool {
    if by_type_first {
        lex_leq(utf8_bytes(a.data_type@), utf8_bytes(b.data_type@)) && (utf8_bytes(a.data_type@)
            != utf8_bytes(b.data_type@) || lex_leq(
            utf8_bytes(a.display_name@),
            utf8_bytes(b.display_name@),
        ))
    } else {
        lex_leq(utf8_bytes(a.display_name@), utf8_bytes(b.display_name@))
    }
}

pub open spec fn ds_sorted(rows: Seq<DatasetRow>, by_type_first: bool) -> bool {
    forall|i: int, j: int|
        0 <= i < j < rows.len() ==> ds_listing_leq(
            #[trigger] rows[i],
            #[trigger] rows[j],
            by_type_first,
        )
}

proof fn lemma_ds_leq_refl(a: DatasetRow, by_type_first: bool)
    ensures
        ds_listing_leq(a, a, by_type_first),
{
    lemma_lex_refl(utf8_bytes(a.data_type@));
    lemma_lex_refl(utf8_bytes(a.display_name@));
}

proof fn lemma_ds_leq_total(a: DatasetRow, b: DatasetRow, by_type_first: bool)
    ensures
        ds_listing_leq(a, b, by_type_first) || ds_listing_leq(b, a, by_type_first),
{
    lemma_lex_total(utf8_bytes(a.data_type@), utf8_bytes(b.data_type@));
    lemma_lex_total(utf8_bytes(a.display_name@), utf8_bytes(b.display_name@));
    lemma_lex_refl(utf8_bytes(a.data_type@));
}

proof fn lemma_ds_leq_trans(a: DatasetRow, b: DatasetRow, c: DatasetRow, by_type_first: bool)
    requires
        ds_listing_leq(a, b, by_type_first),
        ds_listing_leq(b, c, by_type_first),
    ensures
        ds_listing_leq(a, c, by_type_first),
{
    let ta = utf8_bytes(a.data_type@);
    let tb = utf8_bytes(b.data_type@);
    let tc = utf8_bytes(c.data_type@);
    let na = utf8_bytes(a.display_name@);
    let nb = utf8_bytes(b.display_name@);
    let nc = utf8_bytes(c.display_name@);
    if by_type_first {
        lemma_lex_trans(ta, tb, tc);
        if ta == tc {
            // the three types coincide, so the names decide all along
            lemma_lex_antisym(tb, ta);
            lemma_lex_trans(na, nb, nc);
        }
    } else {
        lemma_lex_trans(na, nb, nc);
    }
}

/// Whether `a` comes before `b` in a dataset listing.
fn ds_leq_exec(a: &DatasetRow, b: &DatasetRow, by_type_first: bool) -> (r: bool)
    ensures
        r == ds_listing_leq(*a, *b, by_type_first),
{
    if by_type_first {
        let ta = a.data_type.as_str().as_bytes();
        let tb = b.data_type.as_str().as_bytes();
        if !crate::text::lex_le(ta, tb) {
            return false;
        }
        if !crate::text::eq_bytes(ta, tb) {
            return true;
        }
        crate::text::lex_le(a.display_name.as_str().as_bytes(), b.display_name.as_str().as_bytes())
    } else {
        crate::text::lex_le(a.display_name.as_str().as_bytes(), b.display_name.as_str().as_bytes())
    }
}

/// Selection sort, newest date first; equal dates keep their table
/// order against each other only by accident — the order among ties is
/// not part of any contract.
fn sort_release_rows_desc(rows: Vec<ReleaseRow>) -> (r: Vec<ReleaseRow>)
    ensures
        r@.to_multiset() == rows@.to_multiset(),
        rel_sorted_desc(r@),
{
    let ghost orig = rows@.to_multiset();
    let mut pending = rows;
    let mut out: Vec<ReleaseRow> = Vec::new();
    proof {
        broadcast use vstd::seq_lib::group_to_multiset_ensures;

        assert(out@.to_multiset() =~= Multiset::<ReleaseRow>::empty());
        assert(out@.to_multiset().add(pending@.to_multiset()) =~= pending@.to_multiset());
    }
    while pending.len() > 0
        invariant
            out@.to_multiset().add(pending@.to_multiset()) == orig,
            rel_sorted_desc(out@),
            forall|i: int, j: int|
                0 <= i < out@.len() && 0 <= j < pending@.len() ==> rel_date_key(
                    #[trigger] pending@[j],
                ) <= rel_date_key(#[trigger] out@[i]),
        decreases pending@.len(),
    {
        let mut best: usize = 0;
        let mut k: usize = 1;
        while k < pending.len()
            invariant
                0 < pending@.len(),
                best < k <= pending@.len(),
                forall|j: int|
                    0 <= j < k ==> rel_date_key(#[trigger] pending@[j]) <= rel_date_key(
                        pending@[best as int],
                    ),
            decreases pending@.len() - k,
        {
            let kj: i64 = match pending[k].release_date {
                Some(d) => d,
                None => 0,
            };
            let kb: i64 = match pending[best].release_date {
                Some(d) => d,
                None => 0,
            };
            if kj > kb {
                best = k;
            }
            k = k + 1;
        }
        let ghost pen0 = pending@;
        let ghost out0 = out@;
        let row = pending.remove(best);
        out.push(row);
        proof {
            broadcast use vstd::seq_lib::group_to_multiset_ensures;

            assert(pen0.contains(pen0[best as int]));
            assert(pen0.to_multiset() =~= pending@.to_multiset().insert(row)) by {
                vstd::seq_lib::to_multiset_remove(pen0, best as int);
            }
            assert(out@.to_multiset().add(pending@.to_multiset()) =~= orig);
            assert(forall|j: int|
                0 <= j < pending@.len() ==> #[trigger] pending@[j] == (if j < best {
                    pen0[j]
                } else {
                    pen0[j + 1]
                }));
            assert forall|i: int, j: int|
                0 <= i < out@.len() && 0 <= j < pending@.len() implies rel_date_key(
                #[trigger] pending@[j],
            ) <= rel_date_key(#[trigger] out@[i]) by {
                let j0: int = if j < best {
                    j
                } else {
                    j + 1
                };
                assert(pending@[j] == pen0[j0]);
                assert(rel_date_key(pen0[j0]) <= rel_date_key(row));
            }
            assert forall|i: int, j: int| 0 <= i < j < out@.len() implies rel_date_key(
                #[trigger] out@[j],
            ) <= rel_date_key(#[trigger] out@[i]) by {
                if j == out@.len() - 1 {
                    assert(out@[j] == row);
                    assert(rel_date_key(pen0[best as int]) <= rel_date_key(out0[i]));
                } else {
                    assert(out@[i] == out0[i] && out@[j] == out0[j]);
                }
            }
        }
    }
    proof {
        broadcast use vstd::seq_lib::group_to_multiset_ensures;

        assert(pending@.to_multiset() =~= Multiset::<ReleaseRow>::empty());
        assert(out@.to_multiset() =~= orig);
    }
    out
}

/// Selection sort for dataset listings, smallest first under
/// [`ds_listing_leq`].
fn sort_dataset_rows(rows: Vec<DatasetRow>, by_type_first: bool) -> (r: Vec<DatasetRow>)
    ensures
        r@.to_multiset() == rows@.to_multiset(),
        ds_sorted(r@, by_type_first),
{
    let ghost orig = rows@.to_multiset();
    let mut pending = rows;
    let mut out: Vec<DatasetRow> = Vec::new();
    proof {
        broadcast use vstd::seq_lib::group_to_multiset_ensures;

        assert(out@.to_multiset() =~= Multiset::<DatasetRow>::empty());
        assert(out@.to_multiset().add(pending@.to_multiset()) =~= pending@.to_multiset());
    }
    while pending.len() > 0
        invariant
            out@.to_multiset().add(pending@.to_multiset()) == orig,
            ds_sorted(out@, by_type_first),
            forall|i: int, j: int|
                0 <= i < out@.len() && 0 <= j < pending@.len() ==> ds_listing_leq(
                    #[trigger] out@[i],
                    #[trigger] pending@[j],
                    by_type_first,
                ),
        decreases pending@.len(),
    {
        let mut best: usize = 0;
        let mut k: usize = 1;
        proof {
            lemma_ds_leq_refl(pending@[0], by_type_first);
        }
        while k < pending.len()
            invariant
                0 < pending@.len(),
                best < k <= pending@.len(),
                forall|j: int|
                    0 <= j < k ==> ds_listing_leq(
                        pending@[best as int],
                        #[trigger] pending@[j],
                        by_type_first,
                    ),
            decreases pending@.len() - k,
        {
            if !ds_leq_exec(&pending[best], &pending[k], by_type_first) {
                proof {
                    lemma_ds_leq_total(pending@[best as int], pending@[k as int], by_type_first);
                    assert forall|j: int| 0 <= j < k + 1 implies ds_listing_leq(
                        pending@[k as int],
                        #[trigger] pending@[j],
                        by_type_first,
                    ) by {
                        if j == k {
                            lemma_ds_leq_refl(pending@[k as int], by_type_first);
                        } else {
                            lemma_ds_leq_trans(
                                pending@[k as int],
                                pending@[best as int],
                                pending@[j],
                                by_type_first,
                            );
                        }
                    }
                }
                best = k;
            } else {
                proof {
                    lemma_ds_leq_trans(
                        pending@[best as int],
                        pending@[best as int],
                        pending@[k as int],
                        by_type_first,
                    );
                }
            }
            k = k + 1;
        }
        let ghost pen0 = pending@;
        let ghost out0 = out@;
        let row = pending.remove(best);
        out.push(row);
        proof {
            broadcast use vstd::seq_lib::group_to_multiset_ensures;

            assert(pen0.contains(pen0[best as int]));
            assert(pen0.to_multiset() =~= pending@.to_multiset().insert(row)) by {
                vstd::seq_lib::to_multiset_remove(pen0, best as int);
            }
            assert(out@.to_multiset().add(pending@.to_multiset()) =~= orig);
            assert(forall|j: int|
                0 <= j < pending@.len() ==> #[trigger] pending@[j] == (if j < best {
                    pen0[j]
                } else {
                    pen0[j + 1]
                }));
            assert forall|i: int, j: int|
                0 <= i < out@.len() && 0 <= j < pending@.len() implies ds_listing_leq(
                #[trigger] out@[i],
                #[trigger] pending@[j],
                by_type_first,
            ) by {
                let j0: int = if j < best {
                    j
                } else {
                    j + 1
                };
                assert(pending@[j] == pen0[j0]);
                if i == out@.len() - 1 {
                    assert(out@[i] == row);
                    assert(ds_listing_leq(pen0[best as int], pen0[j0], by_type_first));
                } else {
                    assert(out@[i] == out0[i]);
                }
            }
            assert forall|i: int, j: int| 0 <= i < j < out@.len() implies ds_listing_leq(
                #[trigger] out@[i],
                #[trigger] out@[j],
                by_type_first,
            ) by {
                if j == out@.len() - 1 {
                    assert(out@[j] == row);
                    assert(ds_listing_leq(out0[i], pen0[best as int], by_type_first));
                } else {
                    assert(out@[i] == out0[i] && out@[j] == out0[j]);
                }
            }
        }
    }
    proof {
        broadcast use vstd::seq_lib::group_to_multiset_ensures;

        assert(pending@.to_multiset() =~= Multiset::<DatasetRow>::empty());
        assert(out@.to_multiset() =~= orig);
    }
    out
}

impl CacheManager {
    /// The files stored for one release id, in table order.
    fn get_files_by_release_id(&self, release_id: &str) -> (r: Vec<DownloadFile>)
        ensures
            r@ == spec_release_files(self.spec_files(), release_id@),
    {
        let mut out: Vec<DownloadFile> = Vec::new();
        let mut i: usize = 0;
        while i < self.files.len()
            invariant
                i <= self.files@.len(),
                out@ == self.spec_files().take(i as int).filter(
                    |f: DownloadFile| file_in_release(f, release_id@),
                ),
            decreases self.files@.len() - i,
        {
            proof {
                lemma_filter_take_step(
                    self.spec_files(),
                    i as int,
                    |f: DownloadFile| file_in_release(f, release_id@),
                );
            }
            let selected = match &self.files[i].release_id {
                Some(rid) => str_eq(rid.as_str(), release_id),
                None => false,
            };
            if selected {
                out.push(self.files[i].clone());
            }
            i = i + 1;
        }
        proof {
            assert(self.spec_files().take(self.spec_files().len() as int) =~= self.spec_files());
        }
        out
    }

    /// The stored releases, each with its files, optionally restricted
    /// to names containing `filter` (ignoring ASCII case), listed
    /// newest release date first (undated rows count as the epoch; the
    /// order among equal dates is not fixed).
    pub fn get_releases(&self, filter: Option<&str>) -> (r: Result<Vec<Release>, DepMapError>)
        ensures
            r is Ok,
            r matches Ok(v) ==> exists|rows: Seq<ReleaseRow>|
                {
                    &&& #[trigger] rows.to_multiset() == spec_matching_releases(
                        self.spec_releases(),
                        opt_str_bytes(filter),
                    ).to_multiset()
                    &&& rel_sorted_desc(rows)
                    &&& v@.len() == rows.len()
                    &&& forall|i: int|
                        0 <= i < rows.len() ==> release_of_row(
                            #[trigger] v@[i],
                            rows[i],
                            self.spec_files(),
                        )
                },
    {
        let mut selected: Vec<ReleaseRow> = Vec::new();
        let mut i: usize = 0;
        while i < self.releases.len()
            invariant
                i <= self.releases@.len(),
                selected@ == spec_matching_releases(
                    self.spec_releases().take(i as int),
                    opt_str_bytes(filter),
                ),
            decreases self.releases@.len() - i,
        {
            let row = &self.releases[i];
            let keep = match filter {
                Some(f) => crate::text::contains_sub_ci(row.name.as_str().as_bytes(), f.as_bytes()),
                None => true,
            };
            proof {
                match filter {
                    Some(f) => {
                        lemma_filter_take_step(
                            self.spec_releases(),
                            i as int,
                            |rr: ReleaseRow| rel_name_matches(rr, f.spec_bytes()),
                        );
                    },
                    None => {
                        assert(self.spec_releases().take(i + 1) =~= self.spec_releases().take(
                            i as int,
                        ).push(self.spec_releases()[i as int]));
                    },
                }
            }
            if keep {
                selected.push(row.clone());
            }
            i = i + 1;
        }
        proof {
            assert(self.spec_releases().take(self.spec_releases().len() as int)
                =~= self.spec_releases());
        }
        let sorted = sort_release_rows_desc(selected);
        let mut out: Vec<Release> = Vec::new();
        let mut g: usize = 0;
        while g < sorted.len()
            invariant
                g <= sorted@.len(),
                out@.len() == g,
                forall|j: int|
                    0 <= j < g ==> release_of_row(#[trigger] out@[j], sorted@[j], self.spec_files()),
            decreases sorted@.len() - g,
        {
            let row = &sorted[g];
            let files = self.get_files_by_release_id(row.id.as_str());
            out.push(
                Release {
                    id: row.id.clone(),
                    name: row.name.clone(),
                    release_date: row.release_date,
                    files,
                    is_current: row.is_current,
                    created_at: row.created_at,
                },
            );
            g = g + 1;
        }
        Ok(out)
    }

    /// The stored datasets, optionally those of exactly this data type,
    /// listed by display name — by data type and then display name when
    /// unfiltered — in byte order.
    pub fn get_datasets(&self, data_type: Option<&str>) -> (r: Result<Vec<Dataset>, DepMapError>)
        ensures
            r is Ok,
            r matches Ok(v) ==> exists|rows: Seq<DatasetRow>|
                {
                    &&& #[trigger] rows.to_multiset() == (match data_type {
                        None => self.spec_datasets(),
                        Some(d) => self.spec_datasets().filter(
                            |row: DatasetRow| row.data_type@ == d@,
                        ),
                    }).to_multiset()
                    &&& ds_sorted(rows, data_type is None)
                    &&& v@.len() == rows.len()
                    &&& forall|i: int|
                        0 <= i < rows.len() ==> dataset_of_row(#[trigger] v@[i], rows[i])
                },
    {
        let mut selected: Vec<DatasetRow> = Vec::new();
        let mut i: usize = 0;
        while i < self.datasets.len()
            invariant
                i <= self.datasets@.len(),
                selected@ == (match data_type {
                    None => self.spec_datasets().take(i as int),
                    Some(d) => self.spec_datasets().take(i as int).filter(
                        |row: DatasetRow| row.data_type@ == d@,
                    ),
                }),
            decreases self.datasets@.len() - i,
        {
            let row = &self.datasets[i];
            let keep = match data_type {
                Some(d) => str_eq(row.data_type.as_str(), d),
                None => true,
            };
            proof {
                match data_type {
                    Some(d) => {
                        lemma_filter_take_step(
                            self.spec_datasets(),
                            i as int,
                            |rr: DatasetRow| rr.data_type@ == d@,
                        );
                    },
                    None => {
                        assert(self.spec_datasets().take(i + 1) =~= self.spec_datasets().take(
                            i as int,
                        ).push(self.spec_datasets()[i as int]));
                    },
                }
            }
            if keep {
                selected.push(row.clone());
            }
            i = i + 1;
        }
        proof {
            assert(self.spec_datasets().take(self.spec_datasets().len() as int)
                =~= self.spec_datasets());
        }
        let sorted = sort_dataset_rows(selected, data_type.is_none());
        let mut out: Vec<Dataset> = Vec::new();
        let mut g: usize = 0;
        while g < sorted.len()
            invariant
                g <= sorted@.len(),
                out@.len() == g,
                forall|j: int| 0 <= j < g ==> dataset_of_row(#[trigger] out@[j], sorted@[j]),
            decreases sorted@.len() - g,
        {
            let row = &sorted[g];
            out.push(
                Dataset {
                    id: row.id.clone(),
                    display_name: row.display_name.clone(),
                    data_type: row.data_type.clone(),
                    download_entry_url: crate::models::clone_opt_string(&row.download_entry_url),
                    associated_files: Vec::new(),
                    created_at: row.created_at,
                },
            );
            g = g + 1;
        }
        Ok(out)
    }

    /// The stored file with exactly this filename; an error names the
    /// file when there is none.
    pub fn get_file_by_name(&self, filename: &str) -> (r: Result<DownloadFile, DepMapError>)
        ensures
            r is Ok <==> has_key(self.spec_files(), file_key(), filename@),
            r matches Ok(f) ==> exists|i: int|
                #![trigger self.spec_files()[i]]
                0 <= i < self.spec_files().len() && self.spec_files()[i].filename@ == filename@
                    && f == self.spec_files()[i],
            r matches Err(e) ==> e matches DepMapError::FileNotFound(n) && n@ == filename@,
    {
        match self.find_file_idx(filename) {
            Some(i) => Ok(self.files[i].clone()),
            None => Err(DepMapError::FileNotFound(filename.to_owned())),
        }
    }

    /// Resolves the current release: the first row flagged current, or,
    /// when none is flagged, the latest-dated row (undated rows count as
    /// the epoch; among equal dates the last row wins).  This is the one
    /// place that decides what "current" means.
    pub fn current_release(&self) -> (r: Option<ReleaseRow>)
        ensures
            r is Some <==> self.spec_releases().len() > 0,
            r matches Some(row) ==> is_selected_current(self.spec_releases(), row),
    {
        let ghost s = self.spec_releases();
        let mut i: usize = 0;
        while i < self.releases.len()
            invariant
                i <= s.len(),
                s == self.spec_releases(),
                forall|j: int| #![trigger s[j]] 0 <= j < i ==> !s[j].is_current,
            decreases s.len() - i,
        {
            if self.releases[i].is_current {
                proof {
                    assert(is_first_current(s, i as int));
                }
                return Some(self.releases[i].clone());
            }
            i = i + 1;
        }
        if self.releases.len() == 0 {
            return None;
        }
        let mut best: usize = 0;
        let mut j: usize = 1;
        while j < self.releases.len()
            invariant
                1 <= j <= s.len(),
                s == self.spec_releases(),
                best < j,
                forall|k: int| #![trigger s[k]] 0 <= k < j ==> rel_date_key(s[k]) <= rel_date_key(
                    s[best as int],
                ),
                forall|k: int| #![trigger s[k]] best < k < j ==> rel_date_key(s[k]) < rel_date_key(
                    s[best as int],
                ),
            decreases s.len() - j,
        {
            let kj = match self.releases[j].release_date {
                Some(d) => d,
                None => 0,
            };
            let kb = match self.releases[best].release_date {
                Some(d) => d,
                None => 0,
            };
            if kj >= kb {
                best = j;
            }
            j = j + 1;
        }
        proof {
            assert(is_latest_release(s, best as int));
            assert(!spec_has_current(s));
        }
        Some(self.releases[best].clone())
    }

    /// The core-data files of the current release: an error when no
    /// release is stored at all.
    pub fn get_current_release_core_files(&self) -> (r: Result<Vec<DownloadFile>, DepMapError>)
        ensures
            r is Ok <==> self.spec_releases().len() > 0,
            r matches Ok(v) ==> exists|row: ReleaseRow|
                #![trigger is_selected_current(self.spec_releases(), row)]
                is_selected_current(self.spec_releases(), row) && v@ == self.spec_files().filter(
                    |f: DownloadFile| file_in_release(f, row.id@) && file_is_core(f),
                ),
            r matches Err(e) ==> e matches DepMapError::NotFound(m) && m@
                == "No current release found"@,
    {
        match self.current_release() {
            None => Err(DepMapError::NotFound("No current release found".to_owned())),
            Some(row) => {
                let mut out: Vec<DownloadFile> = Vec::new();
                let mut i: usize = 0;
                while i < self.files.len()
                    invariant
                        i <= self.files@.len(),
                        out@ == self.spec_files().take(i as int).filter(
                            |f: DownloadFile| file_in_release(f, row.id@) && file_is_core(f),
                        ),
                    decreases self.files@.len() - i,
                {
                    proof {
                        lemma_filter_take_step(
                            self.spec_files(),
                            i as int,
                            |f: DownloadFile| file_in_release(f, row.id@) && file_is_core(f),
                        );
                    }
                    let f = &self.files[i];
                    let in_rel = match &f.release_id {
                        Some(rid) => str_eq(rid.as_str(), row.id.as_str()),
                        None => false,
                    };
                    let core = match &f.data_type {
                        Some(d) => is_core_data_type(d.as_str()),
                        None => false,
                    };
                    if in_rel && core {
                        out.push(self.files[i].clone());
                    }
                    i = i + 1;
                }
                proof {
                    assert(self.spec_files().take(self.spec_files().len() as int)
                        =~= self.spec_files());
                }
                Ok(out)
            },
        }
    }

    /// All files of every release whose name contains `release_name`
    /// (ignoring ASCII case); an error when no release matches.
    pub fn get_releases_files(&self, release_name: &str) -> (r: Result<
        Vec<DownloadFile>,
        DepMapError,
    >)
        ensures
            ({
                let matching = self.spec_releases().filter(
                    |row: ReleaseRow| rel_name_matches(row, release_name.spec_bytes()),
                );
                &&& (r is Ok <==> matching.len() > 0)
                &&& (r matches Ok(v) ==> v@ == spec_files_of_rows(matching, self.spec_files()))
                &&& (r matches Err(e) ==> e matches DepMapError::NotFound(m) && m@ == "Release '"@
                    + release_name@ + "' not found"@)
            }),
    {
        let ghost pred = |row: ReleaseRow| rel_name_matches(row, release_name.spec_bytes());
        let mut out: Vec<DownloadFile> = Vec::new();
        let mut found = false;
        let mut i: usize = 0;
        while i < self.releases.len()
            invariant
                i <= self.releases@.len(),
                pred == (|row: ReleaseRow| rel_name_matches(row, release_name.spec_bytes())),
                out@ == spec_files_of_rows(
                    self.spec_releases().take(i as int).filter(pred),
                    self.spec_files(),
                ),
                found == (self.spec_releases().take(i as int).filter(pred).len() > 0),
            decreases self.releases@.len() - i,
        {
            proof {
                lemma_filter_take_step(self.spec_releases(), i as int, pred);
            }
            let row = &self.releases[i];
            if crate::text::contains_sub_ci(row.name.as_str().as_bytes(), release_name.as_bytes()) {
                proof {
                    lemma_files_of_rows_push(
                        self.spec_releases().take(i as int).filter(pred),
                        self.spec_releases()[i as int],
                        self.spec_files(),
                    );
                }
                let mut fs = self.get_files_by_release_id(row.id.as_str());
                out.append(&mut fs);
                found = true;
            }
            i = i + 1;
        }
        proof {
            assert(self.spec_releases().take(self.spec_releases().len() as int)
                =~= self.spec_releases());
        }
        if !found {
            let m = ("Release '".to_owned().concat(release_name)).concat("' not found");
            proof {
                assert(m@ =~= "Release '"@ + release_name@ + "' not found"@);
            }
            return Err(DepMapError::NotFound(m));
        }
        Ok(out)
    }

    /// As [`Self::get_releases_files`], with an optional data-type
    /// filter applied to each file's label.
    pub fn get_release_files(&self, release_name: &str, data_type_filter: Option<&str>) -> (r:
        Result<Vec<DownloadFile>, DepMapError>)
        ensures
            ({
                let matching = self.spec_releases().filter(
                    |row: ReleaseRow| rel_name_matches(row, release_name.spec_bytes()),
                );
                &&& (r is Ok <==> matching.len() > 0)
                &&& (r matches Ok(v) ==> v@ == spec_files_of_rows(
                    matching,
                    self.spec_files(),
                ).filter(|f: DownloadFile| dt_selected(f, opt_str_bytes(data_type_filter))))
                &&& (r matches Err(e) ==> e matches DepMapError::NotFound(m) && m@ == "Release '"@
                    + release_name@ + "' not found"@)
            }),
    {
        let base = match self.get_releases_files(release_name) {
            Err(e) => {
                return Err(e);
            },
            Ok(v) => v,
        };
        let ghost pred = |f: DownloadFile| dt_selected(f, opt_str_bytes(data_type_filter));
        let mut out: Vec<DownloadFile> = Vec::new();
        let mut i: usize = 0;
        while i < base.len()
            invariant
                i <= base@.len(),
                pred == (|f: DownloadFile| dt_selected(f, opt_str_bytes(data_type_filter))),
                out@ == base@.take(i as int).filter(pred),
            decreases base@.len() - i,
        {
            proof {
                lemma_filter_take_step(base@, i as int, pred);
            }
            let f = &base[i];
            let selected = match data_type_filter {
                None => true,
                Some(p) => match &f.data_type {
                    Some(d) => crate::text::contains_sub_ci(d.as_str().as_bytes(), p.as_bytes()),
                    None => false,
                },
            };
            if selected {
                out.push(base[i].clone());
            }
            i = i + 1;
        }
        proof {
            assert(base@.take(base@.len() as int) =~= base@);
        }
        Ok(out)
    }
}

impl CacheManager {
    /// Searches the gene-dependency table: a record matches when its
    /// symbol contains the query (ignoring ASCII case) or the query is
    /// its entrez id; exact matches come first, then prefix matches,
    /// then the rest, cut to `limit`.  Within a tier, records keep
    /// table order: the feed's cell-line counts are carried as decimal
    /// text, which the model does not order by.
    pub fn search_genes(&self, query: &str, limit: usize) -> (r: Result<
        Vec<GeneDependency>,
        DepMapError,
    >)
        ensures
            r is Ok,
            r matches Ok(v) ==> v@ == spec_search_genes(
                self.spec_gene_deps(),
                query.spec_bytes(),
                limit as int,
            ),
    {
        let qb = query.as_bytes();
        let qe = crate::text::parse_u32_digits(qb);
        let ghost qbs = query.spec_bytes();
        proof {
            assert(qe == spec_query_entrez(qbs));
        }
        let ghost deps = self.spec_gene_deps();
        let mut t0: Vec<GeneDependency> = Vec::new();
        let mut t1: Vec<GeneDependency> = Vec::new();
        let mut t2: Vec<GeneDependency> = Vec::new();
        let mut i: usize = 0;
        while i < self.gene_deps.len()
            invariant
                i <= deps.len(),
                deps == self.spec_gene_deps(),
                qbs == query.spec_bytes(),
                qb@ == qbs,
                qe == spec_query_entrez(qbs),
                t0@ == spec_gene_t0(deps.take(i as int), qbs),
                t1@ == spec_gene_t1(deps.take(i as int), qbs),
                t2@ == spec_gene_t2(deps.take(i as int), qbs),
            decreases deps.len() - i,
        {
            proof {
                lemma_filter_take_step(
                    deps,
                    i as int,
                    |g: GeneDependency|
                        gene_match(g, qbs, spec_query_entrez(qbs)) && gene_exact(
                            g,
                            qbs,
                            spec_query_entrez(qbs),
                        ),
                );
                lemma_filter_take_step(
                    deps,
                    i as int,
                    |g: GeneDependency|
                        gene_match(g, qbs, spec_query_entrez(qbs)) && !gene_exact(
                            g,
                            qbs,
                            spec_query_entrez(qbs),
                        ) && gene_prefix(g, qbs),
                );
                lemma_filter_take_step(
                    deps,
                    i as int,
                    |g: GeneDependency|
                        gene_match(g, qbs, spec_query_entrez(qbs)) && !gene_exact(
                            g,
                            qbs,
                            spec_query_entrez(qbs),
                        ) && !gene_prefix(g, qbs),
                );
            }
        let g = &self.gene_deps[i];
            let entrez_hit = match qe {
                Some(v) => g.entrez_id == v,
                None => false,
            };
            let m = crate::text::contains_sub_ci(g.gene.as_str().as_bytes(), qb) || entrez_hit;
            let ex = crate::text::eq_sub_ci(g.gene.as_str().as_bytes(), qb) || entrez_hit;
            let pf = crate::text::starts_with_sub_ci(g.gene.as_str().as_bytes(), qb);
            if m && ex {
                t0.push(self.gene_deps[i].clone());
            } else if m && pf {
                t1.push(self.gene_deps[i].clone());
            } else if m {
                t2.push(self.gene_deps[i].clone());
            }
            i = i + 1;
        }
        proof {
            assert(deps.take(deps.len() as int) =~= deps);
        }
        let mut out = t0;
        out.append(&mut t1);
        out.append(&mut t2);
        proof {
            assert(out@ == spec_gene_t0(deps, qbs) + spec_gene_t1(deps, qbs) + spec_gene_t2(
                deps,
                qbs,
            ));
        }
        if out.len() > limit {
            out.truncate(limit);
            proof {
                assert(out@ =~= (spec_gene_t0(deps, qbs) + spec_gene_t1(deps, qbs) + spec_gene_t2(
                    deps,
                    qbs,
                )).take(limit as int));
            }
        }
        Ok(out)
    }

    /// Every stored gene-dependency record, in insertion order.  The
    /// append-only table has no key to query one record by, so this is
    /// how a caller walks or exports it whole.
    pub fn all_gene_dependencies(&self) -> (r: Vec<GeneDependency>)
        ensures
            r@ == self.spec_gene_deps(),
    {
        let mut out: Vec<GeneDependency> = Vec::new();
        let mut i: usize = 0;
        while i < self.gene_deps.len()
            invariant
                i <= self.gene_deps@.len(),
                out@.len() == i,
                forall|j: int| 0 <= j < i ==> out@[j] == self.spec_gene_deps()[j],
            decreases self.gene_deps@.len() - i,
        {
            out.push(self.gene_deps[i].clone());
            i = i + 1;
        }
        proof {
            assert(out@ =~= self.spec_gene_deps());
        }
        out
    }

    /// Cell-line search is not populated by any feed; it finds nothing.
    pub fn search_cell_lines(&self, _query: &str) -> (r: Result<Vec<CellLine>, DepMapError>)
        ensures
            r matches Ok(v) && v@.len() == 0,
    {
        Ok(Vec::new())
    }

    /// Dataset search is served by [`Self::get_datasets`]; this finds
    /// nothing.
    pub fn search_datasets(&self, _query: &str) -> (r: Result<Vec<Dataset>, DepMapError>)
        ensures
            r matches Ok(v) && v@.len() == 0,
    {
        Ok(Vec::new())
    }

    /// Per-gene detail lookup is not populated by any feed; it finds
    /// nothing.
    pub fn get_gene_dependencies(&self, _gene: &str) -> (r: Result<Vec<GeneDependency>, DepMapError>)
        ensures
            r matches Ok(v) && v@.len() == 0,
    {
        Ok(Vec::new())
    }

    /// Row counts, the total known file size in whole mebibytes, and the
    /// last full-update instant.
    pub fn get_cache_stats(&self) -> (r: CacheStats)
        requires
            self.wf(),
        ensures
            r.release_count == self.spec_releases().len(),
            r.file_count == self.spec_files().len(),
            r.dataset_count == self.spec_datasets().len(),
            r.cell_line_count == self.spec_cell_lines_count(),
            r.gene_dependency_count == self.spec_gene_deps().len(),
            r.total_size_mb as int == ({
                let mb = sum_sizes(self.spec_files()) / 0x100000;
                if mb > u64::MAX as int {
                    u64::MAX as int
                } else {
                    mb
                }
            }),
            r.last_updated == (match Self::spec_meta_lookup(
                self.spec_metadata(),
                "last_full_update"@,
            ) {
                Some(row) => Some(row.updated_at),
                None => None,
            }),
    {
        let mut acc: u128 = 0;
        let mut i: usize = 0;
        while i < self.files.len()
            invariant
                i <= self.files@.len(),
                acc == sum_sizes(self.spec_files().take(i as int)),
                acc <= (i as int) * (u64::MAX as int),
            decreases self.files@.len() - i,
        {
            proof {
                assert(self.spec_files().take(i + 1).drop_last() =~= self.spec_files().take(
                    i as int,
                ));
                assert(self.spec_files().take(i + 1).last() == self.spec_files()[i as int]);
            }
            match self.files[i].size {
                Some(sz) => {
                    acc = acc + sz as u128;
                },
                None => {},
            }
            i = i + 1;
        }
        proof {
            assert(self.spec_files().take(self.spec_files().len() as int) =~= self.spec_files());
        }
        let mb128: u128 = acc / 1048576;
        let total_size_mb: u64 = if mb128 > u64::MAX as u128 {
            u64::MAX
        } else {
            mb128 as u64
        };
        let last_updated = match self.find_meta_idx("last_full_update") {
            None => None,
            Some(i) => {
                proof {
                    let c = choose|c: int|
                        0 <= c < self.metadata@.len() && #[trigger] meta_key()(self.metadata@[c])
                            == "last_full_update"@;
                    assert(c == i as int);
                }
                Some(self.metadata[i].updated_at)
            },
        };
        CacheStats {
            dataset_count: self.datasets.len(),
            file_count: self.files.len(),
            release_count: self.releases.len(),
            cell_line_count: self.cell_lines_count,
            gene_dependency_count: self.gene_deps.len(),
            total_size_mb,
            last_updated,
        }
    }

    /// Empties every table and returns the download paths of the files
    /// that had been fetched to disk, for the caller to remove.
    pub fn clear_all_cache(&mut self) -> (r: Vec<String>)
        requires
            old(self).wf(),
        ensures
            final(self).wf(),
            r@.map_values(|s: String| s@) == spec_download_paths(old(self).spec_files()),
            final(self).spec_releases().len() == 0,
            final(self).spec_files().len() == 0,
            final(self).spec_datasets().len() == 0,
            final(self).spec_dataset_links().len() == 0,
            final(self).spec_gene_deps().len() == 0,
            final(self).spec_metadata().len() == 0,
            final(self).spec_cell_lines_count() == 0,
    {
        let mut paths: Vec<String> = Vec::new();
        let mut i: usize = 0;
        while i < self.files.len()
            invariant
                i <= self.files@.len(),
                paths@.map_values(|s: String| s@) == spec_download_paths(
                    self.spec_files().take(i as int),
                ),
            decreases self.files@.len() - i,
        {
            proof {
                lemma_filter_take_step(
                    self.spec_files(),
                    i as int,
                    |f: DownloadFile| f.is_downloaded && f.download_path is Some,
                );
            }
            let ghost pre = paths@;
            let f = &self.files[i];
            let mut pushed = false;
            if f.is_downloaded {
                match &f.download_path {
                    Some(p) => {
                        paths.push(p.clone());
                        pushed = true;
                    },
                    None => {},
                }
            }
            proof {
                if pushed {
                    assert(paths@.map_values(|s: String| s@) =~= pre.map_values(|s: String| s@)
                        .push(paths@.last()@));
                    assert(spec_download_paths(self.spec_files().take(i + 1))
                        =~= spec_download_paths(self.spec_files().take(i as int)).push(
                        match self.spec_files()[i as int].download_path {
                            Some(p) => p@,
                            None => Seq::empty(),
                        },
                    ));
                } else {
                    assert(spec_download_paths(self.spec_files().take(i + 1))
                        =~= spec_download_paths(self.spec_files().take(i as int)));
                }
            }
            i = i + 1;
        }
        proof {
            assert(self.spec_files().take(self.spec_files().len() as int) =~= self.spec_files());
        }
        self.releases = Vec::new();
        self.files = Vec::new();
        self.datasets = Vec::new();
        self.dataset_files = Vec::new();
        self.gene_deps = Vec::new();
        self.metadata = Vec::new();
        self.cell_lines_count = 0;
        paths
    }

    /// The download paths of the fetched files whose data-type label
    /// contains `data_type` (ignoring ASCII case), for the caller to
    /// remove before [`Self::clear_cache_by_data_type`].
    pub fn downloaded_paths_by_data_type(&self, data_type: &str) -> (r: Vec<String>)
        ensures
            r@.map_values(|s: String| s@) == spec_paths_for_type(
                self.spec_files(),
                data_type.spec_bytes(),
            ),
    {
        let mut paths: Vec<String> = Vec::new();
        let mut i: usize = 0;
        while i < self.files.len()
            invariant
                i <= self.files@.len(),
                paths@.map_values(|s: String| s@) == spec_paths_for_type(
                    self.spec_files().take(i as int),
                    data_type.spec_bytes(),
                ),
            decreases self.files@.len() - i,
        {
            proof {
                lemma_filter_take_step(
                    self.spec_files(),
                    i as int,
                    |f: DownloadFile|
                        file_dt_matches(f, data_type.spec_bytes()) && f.is_downloaded
                            && f.download_path is Some,
                );
            }
            let ghost pre = paths@;
            let f = &self.files[i];
            let dt_hit = match &f.data_type {
                Some(d) => crate::text::contains_sub_ci(d.as_str().as_bytes(), data_type.as_bytes()),
                None => false,
            };
            let mut pushed = false;
            if dt_hit && f.is_downloaded {
                match &f.download_path {
                    Some(p) => {
                        paths.push(p.clone());
                        pushed = true;
                    },
                    None => {},
                }
            }
            proof {
                if pushed {
                    assert(paths@.map_values(|s: String| s@) =~= pre.map_values(|s: String| s@)
                        .push(paths@.last()@));
                    assert(spec_paths_for_type(
                        self.spec_files().take(i + 1),
                        data_type.spec_bytes(),
                    ) =~= spec_paths_for_type(
                        self.spec_files().take(i as int),
                        data_type.spec_bytes(),
                    ).push(
                        match self.spec_files()[i as int].download_path {
                            Some(p) => p@,
                            None => Seq::empty(),
                        },
                    ));
                } else {
                    assert(spec_paths_for_type(
                        self.spec_files().take(i + 1),
                        data_type.spec_bytes(),
                    ) =~= spec_paths_for_type(
                        self.spec_files().take(i as int),
                        data_type.spec_bytes(),
                    ));
                }
            }
            i = i + 1;
        }
        proof {
            assert(self.spec_files().take(self.spec_files().len() as int) =~= self.spec_files());
        }
        paths
    }

    /// Removes the files whose data-type label contains `data_type`
    /// (ignoring ASCII case) and the datasets matching likewise, and
    /// returns how many file rows were removed.
    pub fn clear_cache_by_data_type(&mut self, data_type: &str) -> (r: usize)
        requires
            old(self).wf(),
        ensures
            final(self).wf(),
            r == old(self).spec_files().filter(
                |f: DownloadFile| file_dt_matches(f, data_type.spec_bytes()),
            ).len(),
            final(self).spec_files() == old(self).spec_files().filter(
                |f: DownloadFile| !file_dt_matches(f, data_type.spec_bytes()),
            ),
            final(self).spec_datasets() == old(self).spec_datasets().filter(
                |d: DatasetRow| !ds_dt_matches(d, data_type.spec_bytes()),
            ),
            final(self).spec_releases() == old(self).spec_releases(),
            final(self).spec_gene_deps() == old(self).spec_gene_deps(),
            final(self).spec_metadata() == old(self).spec_metadata(),
            final(self).spec_dataset_links() == old(self).spec_dataset_links(),
            final(self).spec_cell_lines_count() == old(self).spec_cell_lines_count(),
    {
        let mut kept: Vec<DownloadFile> = Vec::new();
        let mut removed: usize = 0;
        let mut i: usize = 0;
        while i < self.files.len()
            invariant
                i <= self.files@.len(),
                kept@ == self.spec_files().take(i as int).filter(
                    |f: DownloadFile| !file_dt_matches(f, data_type.spec_bytes()),
                ),
                removed == self.spec_files().take(i as int).filter(
                    |f: DownloadFile| file_dt_matches(f, data_type.spec_bytes()),
                ).len(),
                removed <= i,
            decreases self.files@.len() - i,
        {
            proof {
                lemma_filter_take_step(
                    self.spec_files(),
                    i as int,
                    |f: DownloadFile| !file_dt_matches(f, data_type.spec_bytes()),
                );
                lemma_filter_take_step(
                    self.spec_files(),
                    i as int,
                    |f: DownloadFile| file_dt_matches(f, data_type.spec_bytes()),
                );
            }
            let f = &self.files[i];
            let dt_hit = match &f.data_type {
                Some(d) => crate::text::contains_sub_ci(d.as_str().as_bytes(), data_type.as_bytes()),
                None => false,
            };
            if dt_hit {
                removed = removed + 1;
            } else {
                kept.push(self.files[i].clone());
            }
            i = i + 1;
        }
        let mut kept_ds: Vec<DatasetRow> = Vec::new();
        let mut j: usize = 0;
        while j < self.datasets.len()
            invariant
                j <= self.datasets@.len(),
                kept_ds@ == self.spec_datasets().take(j as int).filter(
                    |d: DatasetRow| !ds_dt_matches(d, data_type.spec_bytes()),
                ),
            decreases self.datasets@.len() - j,
        {
            proof {
                lemma_filter_take_step(
                    self.spec_datasets(),
                    j as int,
                    |d: DatasetRow| !ds_dt_matches(d, data_type.spec_bytes()),
                );
            }
            let d = &self.datasets[j];
            if !crate::text::contains_sub_ci(d.data_type.as_str().as_bytes(), data_type.as_bytes())
            {
                kept_ds.push(self.datasets[j].clone());
            }
            j = j + 1;
        }
        proof {
            assert(self.spec_files().take(self.spec_files().len() as int) =~= self.spec_files());
            assert(self.spec_datasets().take(self.spec_datasets().len() as int)
                =~= self.spec_datasets());
            lemma_filter_unique(
                self.spec_files(),
                file_key(),
                |f: DownloadFile| !file_dt_matches(f, data_type.spec_bytes()),
            );
            lemma_filter_unique(
                self.spec_datasets(),
                ds_key(),
                |d: DatasetRow| !ds_dt_matches(d, data_type.spec_bytes()),
            );
        }
        self.files = kept;
        self.datasets = kept_ds;
        removed
    }
}


impl CacheManager {
    /// Whether the association table links this dataset id to this file.
    fn is_linked(&self, dataset_id: &str, f: &DownloadFile) -> (r: bool)
        ensures
            r == file_linked(self.spec_dataset_links(), dataset_id@, *f),
    {
        let mut i: usize = 0;
        while i < self.dataset_files.len()
            invariant
                i <= self.dataset_files@.len(),
                forall|j: int|
                    #![trigger self.spec_dataset_links()[j]]
                    0 <= j < i ==> !(self.spec_dataset_links()[j].dataset_id@ == dataset_id@
                        && self.spec_dataset_links()[j].filename@ == f.filename@),
            decreases self.dataset_files@.len() - i,
        {
            let link = &self.dataset_files[i];
            if str_eq(link.dataset_id.as_str(), dataset_id) && str_eq(
                link.filename.as_str(),
                f.filename.as_str(),
            ) {
                return true;
            }
            i = i + 1;
        }
        false
    }

    /// The files of one dataset: those the association table links to it
    /// when it has any, else — after finding the dataset by id or display
    /// name — the files matching it heuristically (filename mentions the
    /// display name, or the data-type labels agree, ignoring ASCII case).
    /// An error names the dataset when the fallback finds no dataset row.
    pub fn get_dataset_files(&self, dataset_id: &str) -> (r: Result<Vec<DownloadFile>, DepMapError>)
        ensures
            ({
                let linked = self.spec_files().filter(
                    |f: DownloadFile| file_linked(self.spec_dataset_links(), dataset_id@, f),
                );
                &&& (linked.len() > 0 ==> (r matches Ok(v) && v@ == linked))
                &&& ((linked.len() == 0 && (exists|i: int|
                    #![trigger self.spec_datasets()[i]]
                    is_first_ds_match(self.spec_datasets(), dataset_id@, i))) ==> (r matches Ok(v)
                    && (exists|i: int|
                    #![trigger self.spec_datasets()[i]]
                    (is_first_ds_match(self.spec_datasets(), dataset_id@, i) && v@
                        == self.spec_files().filter(
                        |f: DownloadFile| ds_heuristic(f, self.spec_datasets()[i]),
                    )))))
                &&& ((linked.len() == 0 && !(exists|i: int|
                    #![trigger self.spec_datasets()[i]]
                    0 <= i < self.spec_datasets().len() && (self.spec_datasets()[i].id@
                        == dataset_id@ || self.spec_datasets()[i].display_name@ == dataset_id@)))
                    ==> (r matches Err(e) && e matches DepMapError::NotFound(m) && m@
                    == "Dataset '"@ + dataset_id@ + "' not found"@))
            }),
    {
        let mut linked: Vec<DownloadFile> = Vec::new();
        let mut i: usize = 0;
        while i < self.files.len()
            invariant
                i <= self.files@.len(),
                linked@ == self.spec_files().take(i as int).filter(
                    |f: DownloadFile| file_linked(self.spec_dataset_links(), dataset_id@, f),
                ),
            decreases self.files@.len() - i,
        {
            proof {
                lemma_filter_take_step(
                    self.spec_files(),
                    i as int,
                    |f: DownloadFile| file_linked(self.spec_dataset_links(), dataset_id@, f),
                );
            }
            if self.is_linked(dataset_id, &self.files[i]) {
                linked.push(self.files[i].clone());
            }
            i = i + 1;
        }
        proof {
            assert(self.spec_files().take(self.spec_files().len() as int) =~= self.spec_files());
        }
        if linked.len() > 0 {
            return Ok(linked);
        }
        // the table is empty for this dataset: fall back to matching by name
        proof {
            assert(self.spec_files().filter(
                |f: DownloadFile| file_linked(self.spec_dataset_links(), dataset_id@, f),
            ).len() == 0);
        }
        let mut d: usize = 0;
        while d < self.datasets.len()
            invariant
                d <= self.datasets@.len(),
                self.spec_files().filter(
                    |f: DownloadFile| file_linked(self.spec_dataset_links(), dataset_id@, f),
                ).len() == 0,
                forall|j: int|
                    #![trigger self.spec_datasets()[j]]
                    0 <= j < d ==> !(self.spec_datasets()[j].id@ == dataset_id@
                        || self.spec_datasets()[j].display_name@ == dataset_id@),
            decreases self.datasets@.len() - d,
        {
            let row = &self.datasets[d];
            if str_eq(row.id.as_str(), dataset_id) || str_eq(row.display_name.as_str(), dataset_id)
            {
                proof {
                    assert(is_first_ds_match(self.spec_datasets(), dataset_id@, d as int));
                }
                let mut out: Vec<DownloadFile> = Vec::new();
                let mut k: usize = 0;
                while k < self.files.len()
                    invariant
                        k <= self.files@.len(),
                        d < self.spec_datasets().len(),
                        out@ == self.spec_files().take(k as int).filter(
                            |f: DownloadFile| ds_heuristic(f, self.spec_datasets()[d as int]),
                        ),
                    decreases self.files@.len() - k,
                {
                    proof {
                        lemma_filter_take_step(
                            self.spec_files(),
                            k as int,
                            |f: DownloadFile| ds_heuristic(f, self.spec_datasets()[d as int]),
                        );
                    }
                    let f = &self.files[k];
                    let name_hit = crate::text::contains_sub_ci(
                        f.filename.as_str().as_bytes(),
                        self.datasets[d].display_name.as_str().as_bytes(),
                    );
                    let dt_hit = match &f.data_type {
                        Some(t) => crate::text::eq_sub_ci(
                            t.as_str().as_bytes(),
                            self.datasets[d].data_type.as_str().as_bytes(),
                        ),
                        None => false,
                    };
                    if name_hit || dt_hit {
                        out.push(self.files[k].clone());
                    }
                    k = k + 1;
                }
                proof {
                    assert(self.spec_files().take(self.spec_files().len() as int)
                        =~= self.spec_files());
                    assert(is_first_ds_match(self.spec_datasets(), dataset_id@, d as int) && out@
                        == self.spec_files().filter(
                        |f: DownloadFile| ds_heuristic(f, self.spec_datasets()[d as int]),
                    ));
                    assert(exists|i: int|
                        #![trigger self.spec_datasets()[i]]
                        (is_first_ds_match(self.spec_datasets(), dataset_id@, i) && out@
                            == self.spec_files().filter(
                            |f: DownloadFile| ds_heuristic(f, self.spec_datasets()[i]),
                        )));
                }
                return Ok(out);
            }
            d = d + 1;
        }
        let m = ("Dataset '".to_owned().concat(dataset_id)).concat("' not found");
        proof {
            assert(m@ =~= "Dataset '"@ + dataset_id@ + "' not found"@);
        }
        Err(DepMapError::NotFound(m))
    }
}

} // verus!
