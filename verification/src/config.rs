//! The resolved configuration of a run: exclusion lists, limits and toggles.

use crate::args::Args;
use crate::text::{extend_strings, slice_views, strings_of, views};
use vstd::prelude::*;
use vstd::string::StringExecFns;

verus! {

/// Name of the configuration file, both beside the executable and in a
/// project root.
pub open spec fn config_file_name() -> Seq<char> {
    "ctxsnap.toml"@
}

/// The configuration that the core reads. It is never re-validated: the
/// values are used as they are.
#[derive(Debug, Clone)]
pub struct AppConfig {
    /// Extensions whose files are skipped (compared case-insensitively).
    pub exclude_ext: Vec<String>,
    /// Directory names that are not descended into.
    pub exclude_dir: Vec<String>,
    /// File names that are skipped.
    pub exclude_file: Vec<String>,
    /// Per-file size limit in MiB.
    pub max_file_mb: u64,
    /// Total budget of included bytes, in MiB.
    pub max_total_mb: u64,
    /// Honour VCS ignore files during the walk.
    pub use_gitignore: bool,
    /// Keep dependency lock files.
    pub include_lockfiles: bool,
    /// Strip comments from supported file types.
    pub remove_comments: bool,
    /// Maximum walk depth.
    pub depth: usize,
}

/// Extensions excluded by default.
pub open spec fn default_exclude_ext() -> Seq<Seq<char>> {
    seq![
        "exe"@,
        "dll"@,
        "so"@,
        "dylib"@,
        "jpg"@,
        "jpeg"@,
        "png"@,
        "gif"@,
        "svg"@,
        "webp"@,
        "ico"@,
        "zip"@,
        "tar"@,
        "gz"@,
        "7z"@,
        "rar"@,
        "pdf"@,
        "db"@,
        "sqlite"@,
        "sqlite3"@,
        "pyc"@,
        "pem"@,
        "key"@,
    ]
}

/// Directories excluded by default.
pub open spec fn default_exclude_dir() -> Seq<Seq<char>> {
    seq![
        ".git"@,
        "node_modules"@,
        "target"@,
        "dist"@,
        "build"@,
        ".venv"@,
        "venv"@,
        ".idea"@,
        ".vscode"@,
    ]
}

/// File names excluded by default.
pub open spec fn default_exclude_file() -> Seq<Seq<char>> {
    seq![".DS_Store"@, "Thumbs.db"@, ".gitignore"@, ".gitattributes"@]
}

impl AppConfig {
    /// Whether `self` is the built-in configuration.
    pub open spec fn is_default(self) -> bool {
        &&& views(self.exclude_ext@) == default_exclude_ext()
        &&& views(self.exclude_dir@) == default_exclude_dir()
        &&& views(self.exclude_file@) == default_exclude_file()
        &&& self.max_file_mb == 10
        &&& self.max_total_mb == 200
        &&& self.use_gitignore
        &&& !self.include_lockfiles
        &&& !self.remove_comments
        &&& self.depth == 50
    }
}

/// What reading a configuration file gave.
#[derive(Debug, Clone)]
pub enum ConfigRead {
    /// No file at the expected place.
    Missing,
    /// The file is there but could not be read; holds the cause.
    Unreadable(String),
    /// The file was read but is no valid configuration; holds the cause.
    Corrupted(String),
    /// The file held this configuration.
    Parsed(AppConfig),
}

/// Why a project's own configuration was refused.
#[derive(Debug, Clone)]
pub enum ConfigError {
    /// The file could not be read; holds the cause.
    Unreadable(String),
    /// The file is no valid configuration; holds the cause.
    Corrupted(String),
}

impl ConfigError {
    /// The text shown for this error: what failed, then the cause.
    pub open spec fn spec_message(self) -> Seq<char> {
        match self {
            ConfigError::Unreadable(cause) => "Failed to read local config: "@ + cause@,
            ConfigError::Corrupted(cause) => "Local config is corrupted: "@ + cause@,
        }
    }

    /// The text shown for this error.
    pub fn message(&self) -> (text: String)
        ensures
            text@ == self.spec_message(),
    {
        match self {
            ConfigError::Unreadable(cause) => String::from_str(
                "Failed to read local config: ",
            ).concat(cause.as_str()),
            ConfigError::Corrupted(cause) => String::from_str("Local config is corrupted: ").concat(
                cause.as_str(),
            ),
        }
    }
}

/// The configuration taken from beside the executable, with what the caller
/// still has to do about it.
#[derive(Debug, Clone)]
pub struct GlobalConfig {
    /// The configuration to go on with.
    pub config: AppConfig,
    /// A warning to show, where the file was there but unusable.
    pub warning: Option<String>,
    /// Whether the defaults should be written out, because no file was there.
    pub write_defaults: bool,
}

impl AppConfig {
    /// Settles the configuration found beside the executable. An unusable
    /// file never stops the run: the defaults take its place, with a warning.
    /// A missing file gives the defaults and asks for them to be written.
    pub fn load_global(read: ConfigRead) -> (res: GlobalConfig)
        ensures
            match read {
                ConfigRead::Parsed(config) => res.config == config && res.warning is None
                    && !res.write_defaults,
                ConfigRead::Missing => res.config.is_default() && res.warning is None
                    && res.write_defaults,
                ConfigRead::Unreadable(cause) => res.config.is_default() && res.warning is Some
                    && res.warning->0@ == "Warning: Could not read global config: "@ + cause@
                    && !res.write_defaults,
                ConfigRead::Corrupted(cause) => res.config.is_default() && res.warning is Some
                    && res.warning->0@ == "Warning: Global config corrupted (race condition?): "@
                    + cause@ && !res.write_defaults,
            },
    {
        match read {
            ConfigRead::Parsed(config) => GlobalConfig {
                config,
                warning: None,
                write_defaults: false,
            },
            ConfigRead::Missing => GlobalConfig {
                config: AppConfig::default(),
                warning: None,
                write_defaults: true,
            },
            ConfigRead::Unreadable(cause) => GlobalConfig {
                config: AppConfig::default(),
                warning: Some(
                    String::from_str("Warning: Could not read global config: ").concat(
                        cause.as_str(),
                    ),
                ),
                write_defaults: false,
            },
            ConfigRead::Corrupted(cause) => GlobalConfig {
                config: AppConfig::default(),
                warning: Some(
                    String::from_str("Warning: Global config corrupted (race condition?): ").concat(
                        cause.as_str(),
                    ),
                ),
                write_defaults: false,
            },
        }
    }

    /// Settles the configuration found in the project root. A missing file
    /// is no error; an unusable one stops the run.
    pub fn load_local(read: ConfigRead) -> (res: Result<Option<AppConfig>, ConfigError>)
        ensures
            match read {
                ConfigRead::Parsed(config) => res == Ok::<Option<AppConfig>, ConfigError>(
                    Some(config),
                ),
                ConfigRead::Missing => res == Ok::<Option<AppConfig>, ConfigError>(None),
                ConfigRead::Unreadable(cause) => res == Err::<Option<AppConfig>, ConfigError>(
                    ConfigError::Unreadable(cause),
                ),
                ConfigRead::Corrupted(cause) => res == Err::<Option<AppConfig>, ConfigError>(
                    ConfigError::Corrupted(cause),
                ),
            },
    {
        match read {
            ConfigRead::Parsed(config) => Ok(Some(config)),
            ConfigRead::Missing => Ok(None),
            ConfigRead::Unreadable(cause) => Err(ConfigError::Unreadable(cause)),
            ConfigRead::Corrupted(cause) => Err(ConfigError::Corrupted(cause)),
        }
    }

    /// Layers the command-line options over this configuration: a given
    /// limit replaces the configured one, a set toggle wins, and the
    /// exclusion lists grow by the listed names.
    pub fn with_overrides(self, args: &Args) -> (out: AppConfig)
        ensures
            out.max_file_mb == (if args.max_file_mb is Some {
                args.max_file_mb->0
            } else {
                self.max_file_mb
            }),
            out.max_total_mb == (if args.max_total_mb is Some {
                args.max_total_mb->0
            } else {
                self.max_total_mb
            }),
            out.depth == (if args.depth is Some {
                args.depth->0
            } else {
                self.depth
            }),
            out.remove_comments == (self.remove_comments || args.remove_comments),
            out.include_lockfiles == (self.include_lockfiles || args.include_lockfiles),
            out.use_gitignore == (self.use_gitignore && !args.no_gitignore),
            views(out.exclude_ext@) == views(self.exclude_ext@) + views(args.exclude_ext@),
            views(out.exclude_dir@) == views(self.exclude_dir@) + views(args.exclude_dir@),
            views(out.exclude_file@) == views(self.exclude_file@) + views(args.exclude_file@),
    {
        let mut out = self;
        if let Some(v) = args.max_file_mb {
            out.max_file_mb = v;
        }
        if let Some(v) = args.max_total_mb {
            out.max_total_mb = v;
        }
        if let Some(v) = args.depth {
            out.depth = v;
        }
        if args.remove_comments {
            out.remove_comments = true;
        }
        if args.include_lockfiles {
            out.include_lockfiles = true;
        }
        if args.no_gitignore {
            out.use_gitignore = false;
        }
        extend_strings(&mut out.exclude_ext, &args.exclude_ext);
        extend_strings(&mut out.exclude_dir, &args.exclude_dir);
        extend_strings(&mut out.exclude_file, &args.exclude_file);
        out
    }

    /// The configuration of a run: the project's own file replaces the
    /// global one whole, and the command-line options are layered on top.
    pub fn resolve(global: AppConfig, local: Option<AppConfig>, args: &Args) -> (out: AppConfig)
        ensures
            out.max_file_mb == (if args.max_file_mb is Some {
                args.max_file_mb->0
            } else {
                Self::base_of(global, local).max_file_mb
            }),
            out.max_total_mb == (if args.max_total_mb is Some {
                args.max_total_mb->0
            } else {
                Self::base_of(global, local).max_total_mb
            }),
            out.depth == (if args.depth is Some {
                args.depth->0
            } else {
                Self::base_of(global, local).depth
            }),
            out.remove_comments == (Self::base_of(global, local).remove_comments
                || args.remove_comments),
            out.include_lockfiles == (Self::base_of(global, local).include_lockfiles
                || args.include_lockfiles),
            out.use_gitignore == (Self::base_of(global, local).use_gitignore
                && !args.no_gitignore),
            views(out.exclude_ext@) == views(Self::base_of(global, local).exclude_ext@) + views(
                args.exclude_ext@,
            ),
            views(out.exclude_dir@) == views(Self::base_of(global, local).exclude_dir@) + views(
                args.exclude_dir@,
            ),
            views(out.exclude_file@) == views(Self::base_of(global, local).exclude_file@) + views(
                args.exclude_file@,
            ),
    {
        let base = match local {
            Some(config) => config,
            None => global,
        };
        base.with_overrides(args)
    }

    /// The configuration that the options are layered over.
    pub open spec fn base_of(global: AppConfig, local: Option<AppConfig>) -> AppConfig {
        match local {
            Some(config) => config,
            None => global,
        }
    }
}

impl Default for AppConfig {
    fn default() -> (config: Self)
        ensures
            config.is_default(),
    {
        let ext = vec![
            "exe",
            "dll",
            "so",
            "dylib",
            "jpg",
            "jpeg",
            "png",
            "gif",
            "svg",
            "webp",
            "ico",
            "zip",
            "tar",
            "gz",
            "7z",
            "rar",
            "pdf",
            "db",
            "sqlite",
            "sqlite3",
            "pyc",
            "pem",
            "key",
        ];
        let dir = vec![
            ".git",
            "node_modules",
            "target",
            "dist",
            "build",
            ".venv",
            "venv",
            ".idea",
            ".vscode",
        ];
        let file = vec![".DS_Store", "Thumbs.db", ".gitignore", ".gitattributes"];
        assert(slice_views(ext@) =~= default_exclude_ext());
        assert(slice_views(dir@) =~= default_exclude_dir());
        assert(slice_views(file@) =~= default_exclude_file());
        AppConfig {
            exclude_ext: strings_of(ext),
            exclude_dir: strings_of(dir),
            exclude_file: strings_of(file),
            max_file_mb: 10,
            max_total_mb: 200,
            use_gitignore: true,
            include_lockfiles: false,
            remove_comments: false,
            depth: 50,
        }
    }
}

} // verus!
