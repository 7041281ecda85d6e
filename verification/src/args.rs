//! The resolved command-line options and their validation.

use vstd::prelude::*;
use vstd::string::StringExecFns;

verus! {

/// Largest accepted per-file limit, in MiB.
pub const MAX_FILE_MB_CEILING: u64 = 1024;

/// Largest accepted total budget, in MiB.
pub const MAX_TOTAL_MB_CEILING: u64 = 10240;

/// Walk depths must stay below this bound.
pub const DEPTH_CEILING: usize = 1000;

/// The options of one run, as plain values.
#[derive(Debug, Clone)]
pub struct Args {
    /// Root directory to scan.
    pub root: String,
    /// Generate the snapshot.
    pub run: bool,
    /// Explicit output file path.
    pub output: Option<String>,
    /// Overwrite the output file if it exists.
    pub force: bool,
    /// Print the snapshot instead of writing a file.
    pub dry_run: bool,
    /// Per-file size limit in MiB.
    pub max_file_mb: Option<u64>,
    /// Total size budget in MiB.
    pub max_total_mb: Option<u64>,
    /// Do not honour VCS ignore files.
    pub no_gitignore: bool,
    /// Keep dependency lock files.
    pub include_lockfiles: bool,
    /// Additional extensions to exclude.
    pub exclude_ext: Vec<String>,
    /// Additional directories to exclude.
    pub exclude_dir: Vec<String>,
    /// Additional file names to exclude.
    pub exclude_file: Vec<String>,
    /// Strip comments from supported file types.
    pub remove_comments: bool,
    /// Maximum walk depth.
    pub depth: Option<usize>,
    /// Write a local configuration file and stop.
    pub init: bool,
}

/// Why a set of options was rejected.
#[derive(Debug, Clone, Copy, PartialEq, Eq, Structural)]
pub enum ArgsError {
    /// The per-file limit is zero.
    MaxFileMbNotPositive,
    /// The per-file limit is above 1 GiB.
    MaxFileMbTooLarge,
    /// The total budget is zero.
    MaxTotalMbNotPositive,
    /// The total budget is above 10 GiB.
    MaxTotalMbTooLarge,
    /// The depth is outside 1..=999.
    DepthOutOfRange,
    /// The root path does not exist.
    RootMissing,
}

impl ArgsError {
    /// The text shown for this error.
    pub open spec fn spec_message(self) -> Seq<char> {
        match self {
            ArgsError::MaxFileMbNotPositive => "max_file_mb must be positive"@,
            ArgsError::MaxFileMbTooLarge => "max_file_mb cannot exceed 1GB"@,
            ArgsError::MaxTotalMbNotPositive => "max_total_mb must be positive"@,
            ArgsError::MaxTotalMbTooLarge => "max_total_mb cannot exceed 10GB"@,
            ArgsError::DepthOutOfRange => "depth must be between 1 and 999"@,
            ArgsError::RootMissing => "Root path does not exist"@,
        }
    }

    /// The text shown for this error.
    pub fn message(&self) -> (text: String)
        ensures
            text@ == self.spec_message(),
    {
        match self {
            ArgsError::MaxFileMbNotPositive => String::from_str("max_file_mb must be positive"),
            ArgsError::MaxFileMbTooLarge => String::from_str("max_file_mb cannot exceed 1GB"),
            ArgsError::MaxTotalMbNotPositive => String::from_str("max_total_mb must be positive"),
            ArgsError::MaxTotalMbTooLarge => String::from_str("max_total_mb cannot exceed 10GB"),
            ArgsError::DepthOutOfRange => String::from_str("depth must be between 1 and 999"),
            ArgsError::RootMissing => String::from_str("Root path does not exist"),
        }
    }
}

impl Args {
    /// The first rule that the options break, if any. The rules are tried in
    /// a fixed order: per-file limit, total budget, depth, root.
    pub open spec fn first_violation(self, root_exists: bool) -> Option<ArgsError> {
        if self.max_file_mb == Some(0u64) {
            Some(ArgsError::MaxFileMbNotPositive)
        } else if self.max_file_mb is Some && self.max_file_mb->0 > MAX_FILE_MB_CEILING {
            Some(ArgsError::MaxFileMbTooLarge)
        } else if self.max_total_mb == Some(0u64) {
            Some(ArgsError::MaxTotalMbNotPositive)
        } else if self.max_total_mb is Some && self.max_total_mb->0 > MAX_TOTAL_MB_CEILING {
            Some(ArgsError::MaxTotalMbTooLarge)
        } else if self.depth is Some && !(0 < self.depth->0 < DEPTH_CEILING) {
            Some(ArgsError::DepthOutOfRange)
        } else if !root_exists {
            Some(ArgsError::RootMissing)
        } else {
            None
        }
    }

    /// Checks the options. `root_exists` says whether the root path was found
    /// on disk.
    pub fn validate(&self, root_exists: bool) -> (res: Result<(), ArgsError>)
        ensures
            match self.first_violation(root_exists) {
                Some(e) => res == Err::<(), ArgsError>(e),
                None => res is Ok,
            },
    {
        if let Some(m) = self.max_file_mb {
            if m == 0 {
                return Err(ArgsError::MaxFileMbNotPositive);
            }
            if m > MAX_FILE_MB_CEILING {
                return Err(ArgsError::MaxFileMbTooLarge);
            }
        }
        if let Some(m) = self.max_total_mb {
            if m == 0 {
                return Err(ArgsError::MaxTotalMbNotPositive);
            }
            if m > MAX_TOTAL_MB_CEILING {
                return Err(ArgsError::MaxTotalMbTooLarge);
            }
        }
        if let Some(d) = self.depth {
            if !(d > 0 && d < DEPTH_CEILING) {
                return Err(ArgsError::DepthOutOfRange);
            }
        }
        if !root_exists {
            return Err(ArgsError::RootMissing);
        }
        Ok(())
    }
}

} // verus!
