//! The command model: what the command line can ask for, as plain data,
//! and the decisions taken on it.  Parsing argument text into these
//! values is the embedding program's work.

use vstd::prelude::*;
use crate::error::DepMapError;

verus! {

/// One invocation: a command plus the global settings.
pub struct Cli {
    pub command: Commands,
    pub database: String,
    pub api_url: String,
    pub verbose: bool,
}

pub enum Commands {
    /// Refresh the local mirror from the remote feeds.
    Update { force: bool, data_type: Option<Vec<String>> },
    /// List releases, datasets, or files.
    List { command: Option<ListCommands> },
    /// Download datasets or files.
    Download {
        command: Option<DownloadCommands>,
        dataset: Option<String>,
        file: Option<String>,
        output: String,
        workers: usize,
        skip_existing: bool,
        verify_checksum: bool,
    },
    /// Search cell lines, genes, or datasets.
    Search { query: String, cell_line: bool, gene: bool, dataset: bool, limit: Option<usize> },
    /// Show cache statistics.
    Stats { detailed: bool },
    /// Clear cached data.
    Clear { all: bool, data_type: Option<String> },
}

pub enum ListCommands {
    Releases { detailed: bool },
    Datasets { data_type: Option<String>, detailed: bool },
    Files { release: String, detailed: bool },
}

pub enum DownloadCommands {
    Release { name: String, data_type: Option<String> },
    Dataset { id: String },
}

/// What a download invocation asks for, once the selectors are
/// reconciled.
pub enum DownloadSelector {
    /// All files of the releases matching this name, optionally by data
    /// type.
    Release { name: String, data_type: Option<String> },
    /// The files of one dataset.
    Dataset { id: String },
    /// One file by name.
    SingleFile { filename: String },
    /// The current release's core files.
    CoreFiles,
}

/// Reconciles a download command with the older selector flags: the
/// subcommand wins when given; otherwise one of the two flags selects a
/// dataset or a file, neither selects the current release's core files,
/// and both together are an argument conflict.
pub fn select_download_request(
    command: Option<DownloadCommands>,
    dataset: Option<String>,
    file: Option<String>,
) -> (r: Result<DownloadSelector, DepMapError>)
    ensures
        command matches Some(DownloadCommands::Release { name, data_type }) ==> (
        r matches Ok(DownloadSelector::Release { name: n, data_type: d }) && n == name && d
            == data_type),
        command matches Some(DownloadCommands::Dataset { id }) ==> (r matches Ok(
            DownloadSelector::Dataset { id: i },
        ) && i == id),
        command is None && dataset is Some && file is None ==> (r matches Ok(
            DownloadSelector::Dataset { id },
        ) && Some(id) == dataset),
        command is None && dataset is None && file is Some ==> (r matches Ok(
            DownloadSelector::SingleFile { filename },
        ) && Some(filename) == file),
        command is None && dataset is None && file is None ==> r matches Ok(
            DownloadSelector::CoreFiles,
        ),
        command is None && dataset is Some && file is Some ==> (r matches Err(e) && e
            is InvalidArguments),
{
    match command {
        Some(DownloadCommands::Release { name, data_type }) => Ok(
            DownloadSelector::Release { name, data_type },
        ),
        Some(DownloadCommands::Dataset { id }) => Ok(DownloadSelector::Dataset { id }),
        None => match (dataset, file) {
            (Some(id), None) => Ok(DownloadSelector::Dataset { id }),
            (None, Some(filename)) => Ok(DownloadSelector::SingleFile { filename }),
            (None, None) => Ok(DownloadSelector::CoreFiles),
            (Some(_), Some(_)) => Err(DepMapError::InvalidArguments),
        },
    }
}

/// Which collections a search runs over: the ones asked for, or all
/// three when none is named.
pub fn search_targets(cell_line: bool, gene: bool, dataset: bool) -> (r: (bool, bool, bool))
    ensures
        r.0 == (gene || (!cell_line && !gene && !dataset)),
        r.1 == (cell_line || (!cell_line && !gene && !dataset)),
        r.2 == (dataset || (!cell_line && !gene && !dataset)),
{
    let all = !cell_line && !gene && !dataset;
    (gene || all, cell_line || all, dataset || all)
}

/// The result cap a search runs with when none was asked for.
pub fn effective_limit(limit: Option<usize>) -> (r: usize)
    ensures
        r == (match limit {
            Some(l) => l,
            None => 50,
        }),
{
    match limit {
        Some(l) => l,
        None => 50,
    }
}

} // verus!
