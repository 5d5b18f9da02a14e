//! The catalog's data model.
//!
//! Instants and dates are carried as non-leap seconds since the Unix
//! epoch (`i64`), which is what the freshness policy and the
//! current-release resolution compute with.  The two cell-line counts of
//! a gene-dependency record are carried as the feed's decimal text,
//! validated on ingestion; the library never computes with them.

use vstd::prelude::*;
use crate::classify::str_eq;

verus! {

/// A dated, named snapshot of the remote catalog, owning a set of files.
#[derive(Debug)]
pub struct Release {
    pub id: String,
    pub name: String,
    pub release_date: Option<i64>,
    pub files: Vec<DownloadFile>,
    pub is_current: bool,
    pub created_at: Option<i64>,
}

/// One stored release row, without its files.
#[derive(Debug)]
pub struct ReleaseRow {
    pub id: String,
    pub name: String,
    pub release_date: Option<i64>,
    pub is_current: bool,
    pub created_at: Option<i64>,
}

/// A download unit.  Surrogate row ids belong to the persistent backend;
/// the verified model identifies a file by its filename, the de-facto
/// merge key, and keeps `id` only for compatibility with stored rows.
#[derive(Debug)]
pub struct DownloadFile {
    pub id: Option<i64>,
    pub filename: String,
    pub url: String,
    pub md5_hash: Option<String>,
    pub size: Option<u64>,
    pub data_type: Option<String>,
    pub release_id: Option<String>,
    pub is_downloaded: bool,
    pub download_path: Option<String>,
    pub created_at: Option<i64>,
}

/// A named logical grouping of a given data type.
#[derive(Debug)]
pub struct Dataset {
    pub id: String,
    pub display_name: String,
    pub data_type: String,
    pub download_entry_url: Option<String>,
    pub associated_files: Vec<DownloadFile>,
    pub created_at: Option<i64>,
}

/// One stored dataset row, without the files association that queries
/// resolve on demand.
#[derive(Debug)]
pub struct DatasetRow {
    pub id: String,
    pub display_name: String,
    pub data_type: String,
    pub download_entry_url: Option<String>,
    pub created_at: Option<i64>,
}

#[derive(Debug)]
pub struct CellLine {
    pub id: String,
    pub name: String,
    pub lineage: Option<String>,
    pub tissue: Option<String>,
    pub datasets_available: Vec<String>,
    pub created_at: Option<i64>,
}

/// One per-gene summary record.  The two counts hold the feed's decimal
/// text unchanged.
#[derive(Debug)]
pub struct GeneDependency {
    pub id: Option<i64>,
    pub entrez_id: u32,
    pub gene: String,
    pub dataset: String,
    pub dependent_cell_lines: String,
    pub cell_lines_with_data: String,
    pub strongly_selective: bool,
    pub common_essential: bool,
    pub created_at: Option<i64>,
}

#[derive(Debug)]
pub struct CacheStats {
    pub dataset_count: usize,
    pub file_count: usize,
    pub release_count: usize,
    pub cell_line_count: usize,
    pub gene_dependency_count: usize,
    pub total_size_mb: u64,
    pub last_updated: Option<i64>,
}

/// One row of the datasets feed.
#[derive(Debug)]
pub struct DatasetApiResponse {
    pub id: String,
    pub display_name: String,
    pub data_type: String,
    pub download_entry_url: Option<String>,
}

/// One row of the files/releases feed.
#[derive(Debug)]
pub struct DownloadCsvRow {
    pub release: String,
    pub release_date: String,
    pub filename: String,
    pub url: String,
    pub md5_hash: String,
}

/// One row of the gene-dependency feed, fields still as text.
#[derive(Debug)]
pub struct GeneDependencyCsvRow {
    pub entrez_id: u32,
    pub gene: String,
    pub dataset: String,
    pub dependent_cell_lines: String,
    pub cell_lines_with_data: String,
    pub strongly_selective: String,
    pub common_essential: String,
}

/// One row of the dataset-to-file association table.  The schema keeps
/// the table, though no feed currently fills it, so dataset-to-file
/// resolution falls back to heuristic matching when it is empty.
#[derive(Debug)]
pub struct DatasetFileLink {
    pub dataset_id: String,
    pub filename: String,
}

/// A generic key/value row with its update instant, used to track the
/// freshness marker.
#[derive(Debug)]
pub struct MetaRow {
    pub key: String,
    pub value: String,
    pub updated_at: i64,
}

pub fn clone_opt_string(o: &Option<String>) -> (r: Option<String>)
    ensures
        r == *o,
{
    match o {
        None => None,
        Some(s) => Some(s.clone()),
    }
}

impl Clone for DownloadFile {
    fn clone(&self) -> (res: Self)
        ensures
            res == *self,
    {
        DownloadFile {
            id: self.id,
            filename: self.filename.clone(),
            url: self.url.clone(),
            md5_hash: clone_opt_string(&self.md5_hash),
            size: self.size,
            data_type: clone_opt_string(&self.data_type),
            release_id: clone_opt_string(&self.release_id),
            is_downloaded: self.is_downloaded,
            download_path: clone_opt_string(&self.download_path),
            created_at: self.created_at,
        }
    }
}

impl Clone for ReleaseRow {
    fn clone(&self) -> (res: Self)
        ensures
            res == *self,
    {
        ReleaseRow {
            id: self.id.clone(),
            name: self.name.clone(),
            release_date: self.release_date,
            is_current: self.is_current,
            created_at: self.created_at,
        }
    }
}

pub fn clone_files(files: &Vec<DownloadFile>) -> (r: Vec<DownloadFile>)
    ensures
        r@ == files@,
{
    let mut out: Vec<DownloadFile> = Vec::new();
    let mut i: usize = 0;
    while i < files.len()
        invariant
            i <= files@.len(),
            out@.len() == i,
            forall|j: int| 0 <= j < i ==> out@[j] == files@[j],
        decreases files@.len() - i,
    {
        out.push(files[i].clone());
        i = i + 1;
    }
    proof {
        assert(out@ =~= files@);
    }
    out
}

impl Clone for DatasetRow {
    fn clone(&self) -> (res: Self)
        ensures
            res == *self,
    {
        DatasetRow {
            id: self.id.clone(),
            display_name: self.display_name.clone(),
            data_type: self.data_type.clone(),
            download_entry_url: clone_opt_string(&self.download_entry_url),
            created_at: self.created_at,
        }
    }
}

impl Clone for MetaRow {
    fn clone(&self) -> (res: Self)
        ensures
            res == *self,
    {
        MetaRow { key: self.key.clone(), value: self.value.clone(), updated_at: self.updated_at }
    }
}

impl Clone for GeneDependency {
    fn clone(&self) -> (res: Self)
        ensures
            res == *self,
    {
        GeneDependency {
            id: self.id,
            entrez_id: self.entrez_id,
            gene: self.gene.clone(),
            dataset: self.dataset.clone(),
            dependent_cell_lines: self.dependent_cell_lines.clone(),
            cell_lines_with_data: self.cell_lines_with_data.clone(),
            strongly_selective: self.strongly_selective,
            common_essential: self.common_essential,
            created_at: self.created_at,
        }
    }
}

impl GeneDependency {
    /// Builds a summary record from a parsed feed row.  The boolean flags
    /// are the literal string `"True"`; any other text, `"False"`
    /// included, reads as false.
    pub fn from_row(row: GeneDependencyCsvRow, now_s: i64) -> (r: GeneDependency)
        ensures
            r.id is None,
            r.entrez_id == row.entrez_id,
            r.gene == row.gene,
            r.dataset == row.dataset,
            r.dependent_cell_lines == row.dependent_cell_lines,
            r.cell_lines_with_data == row.cell_lines_with_data,
            r.strongly_selective == (row.strongly_selective@ == "True"@),
            r.common_essential == (row.common_essential@ == "True"@),
            r.created_at == Some(now_s),
    {
        let strongly_selective = str_eq(row.strongly_selective.as_str(), "True");
        let common_essential = str_eq(row.common_essential.as_str(), "True");
        GeneDependency {
            id: None,
            entrez_id: row.entrez_id,
            gene: row.gene,
            dataset: row.dataset,
            dependent_cell_lines: row.dependent_cell_lines,
            cell_lines_with_data: row.cell_lines_with_data,
            strongly_selective,
            common_essential,
            created_at: Some(now_s),
        }
    }
}

} // verus!
