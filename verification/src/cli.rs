//! The command line, as plain values: which download to run and where to
//! put the charts.

use vstd::prelude::*;
use crate::path::BmsPath;

verus! {

/// A parsed command line.
pub struct Cli {
    pub command: Commands,
    /// The directory charts are installed into (the current one by default).
    pub output_dir: BmsPath,
}

/// The download to run.
pub enum Commands {
    /// Download the chart with this MD5.
    Md5 { md5: String },
    /// Download every chart of the difficulty table at this URL.
    Table { url: String },
    /// Download every entry of the event page at this URL.
    Event { url: String },
}

} // verus!
