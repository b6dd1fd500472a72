//! The options of one run, and how those given on the command line combine
//! with those read from a configuration file.

use crate::sort::SortOptions;
use vstd::prelude::*;
use vstd::string::*;

verus! {

/// The attribute to order by, as the command line names it.
#[derive(Debug, Clone, Copy, PartialEq, Eq, Structural)]
pub enum SortType {
    Name,
    Size,
    Accessed,
    Created,
    Modified,
    Extension,
}

impl Default for SortType {
    fn default() -> (kind: Self)
        ensures
            kind == SortType::Name,
    {
        SortType::Name
    }
}

impl From<SortType> for crate::sort::SortType {
    fn from(sort_type: SortType) -> (kind: Self) {
        match sort_type {
            SortType::Name => crate::sort::SortType::Name,
            SortType::Size => crate::sort::SortType::Size,
            SortType::Accessed => crate::sort::SortType::Accessed,
            SortType::Created => crate::sort::SortType::Created,
            SortType::Modified => crate::sort::SortType::Modified,
            SortType::Extension => crate::sort::SortType::Extension,
        }
    }
}

impl vstd::std_specs::convert::FromSpecImpl<SortType> for crate::sort::SortType {
    open spec fn obeys_from_spec() -> bool {
        true
    }

    open spec fn from_spec(sort_type: SortType) -> Self {
        match sort_type {
            SortType::Name => crate::sort::SortType::Name,
            SortType::Size => crate::sort::SortType::Size,
            SortType::Accessed => crate::sort::SortType::Accessed,
            SortType::Created => crate::sort::SortType::Created,
            SortType::Modified => crate::sort::SortType::Modified,
            SortType::Extension => crate::sort::SortType::Extension,
        }
    }
}

/// Which side of an instant a file's modification time must lie on.
#[derive(Debug, Clone, Copy, PartialEq, Eq, Structural)]
pub enum TimeMode {
    After,
    Before,
}

/// Keeps only files modified after, or before, an instant given in
/// nanoseconds since the Unix epoch.
#[derive(Debug, Clone, Copy, PartialEq, Eq, Structural)]
pub struct TimeFilter {
    pub mode: TimeMode,
    pub instant: i128,
}

/// The options of one run.
#[derive(Debug)]
pub struct Args {
    /// Start the interactive explorer.
    pub interactive: bool,
    /// Path of a configuration file.
    pub config: Option<String>,
    /// Export format.
    pub out: Option<String>,
    /// The directory to explore.
    pub path: String,
    /// Show directories only.
    pub dirs_only: bool,
    /// Show sizes and counts of directories.
    pub info: bool,
    /// Show the totals of the scan.
    pub stats: bool,
    /// Show hyperlinks.
    pub hyperlinks: bool,
    /// Show hidden files too.
    pub all: bool,
    /// Respect ignore files.
    pub gitignore: bool,
    /// Show an icon per entry.
    pub icons: bool,
    /// Show the size of files.
    pub size: bool,
    /// Show permissions.
    pub permissions: bool,
    /// Depth down to which the interactive tree starts expanded.
    pub expand_level: Option<usize>,
    /// Maximum depth of the scan.
    pub level: Option<usize>,
    /// Maximum number of files listed per directory.
    pub files: Option<usize>,
    /// List files only.
    pub files_only: bool,
    /// The attribute to order by.
    pub sort: SortType,
    /// Directories before files.
    pub dirs_first: bool,
    /// Compare names case-sensitively.
    pub case_sensitive: bool,
    /// Compare runs of digits by number.
    pub natural_sort: bool,
    /// Reverse the order.
    pub reverse: bool,
    /// Hidden entries first.
    pub dotfiles_first: bool,
    /// Extensions whose files are left out.
    pub exclude_extensions: Vec<String>,
    /// Modification-time window for files.
    pub time_filter: Option<TimeFilter>,
}

/// The sort options that a set of options stands for.
pub open spec fn sort_options_of(args: Args) -> SortOptions {
    SortOptions {
        sort_type: match args.sort {
            SortType::Name => crate::sort::SortType::Name,
            SortType::Size => crate::sort::SortType::Size,
            SortType::Accessed => crate::sort::SortType::Accessed,
            SortType::Created => crate::sort::SortType::Created,
            SortType::Modified => crate::sort::SortType::Modified,
            SortType::Extension => crate::sort::SortType::Extension,
        },
        directories_first: args.dirs_first,
        case_sensitive: args.case_sensitive,
        natural_sort: args.natural_sort,
        reverse: args.reverse,
        dotfiles_first: args.dotfiles_first,
    }
}

/// Options from a file overridden by those of the command line: an optional
/// value of the command line wins where it is given, the path where it is
/// not `.`, a switch where it is on, and the sort attribute always. The
/// filters come from the command line where it names any, else from the file.
pub open spec fn merged(file: Args, cli: Args) -> Args {
    Args {
        interactive: file.interactive || cli.interactive,
        config: if cli.config is Some {
            cli.config
        } else {
            file.config
        },
        out: if cli.out is Some {
            cli.out
        } else {
            file.out
        },
        path: if cli.path@ != seq!['.'] {
            cli.path
        } else {
            file.path
        },
        dirs_only: file.dirs_only || cli.dirs_only,
        info: file.info || cli.info,
        stats: file.stats || cli.stats,
        hyperlinks: file.hyperlinks || cli.hyperlinks,
        all: file.all || cli.all,
        gitignore: file.gitignore || cli.gitignore,
        icons: file.icons || cli.icons,
        size: file.size || cli.size,
        permissions: file.permissions || cli.permissions,
        expand_level: if cli.expand_level is Some {
            cli.expand_level
        } else {
            file.expand_level
        },
        level: if cli.level is Some {
            cli.level
        } else {
            file.level
        },
        files: if cli.files is Some {
            cli.files
        } else {
            file.files
        },
        files_only: file.files_only || cli.files_only,
        sort: cli.sort,
        dirs_first: file.dirs_first || cli.dirs_first,
        case_sensitive: file.case_sensitive || cli.case_sensitive,
        natural_sort: file.natural_sort || cli.natural_sort,
        reverse: file.reverse || cli.reverse,
        dotfiles_first: file.dotfiles_first || cli.dotfiles_first,
        exclude_extensions: if cli.exclude_extensions@.len() > 0 {
            cli.exclude_extensions
        } else {
            file.exclude_extensions
        },
        time_filter: if cli.time_filter is Some {
            cli.time_filter
        } else {
            file.time_filter
        },
    }
}

/// The options in force: those of the command line merged over the
/// configuration file named there, if it could be read, else over the one
/// found in the explored directory, if any, else those of the command line alone.
pub open spec fn loaded(cli: Args, named_file: Option<Args>, local_file: Option<Args>) -> Args {
    match named_file {
        Some(file) => merged(file, cli),
        None => match local_file {
            Some(file) => merged(file, cli),
            None => cli,
        },
    }
}

fn is_current_dir(path: &str) -> (current: bool)
    ensures
        current == (path@ == seq!['.']),
{
    proof {
        reveal_strlit(".");
    }
    if path.is_empty() {
        false
    } else if path.get_char(0) != '.' {
        false
    } else {
        let one = path.unicode_len() == 1;
        proof {
            if one {
                assert(path@ =~= seq!['.']);
            }
        }
        one
    }
}

impl Args {
    /// Merges the options of the command line over those of a file.
    pub fn merge(file: Args, cli: Args) -> (args: Args)
        ensures
            args == merged(file, cli),
    {
        let keep_cli_path = !is_current_dir(cli.path.as_str());
        Args {
            interactive: file.interactive || cli.interactive,
            config: if cli.config.is_some() {
                cli.config
            } else {
                file.config
            },
            out: if cli.out.is_some() {
                cli.out
            } else {
                file.out
            },
            path: if keep_cli_path {
                cli.path
            } else {
                file.path
            },
            dirs_only: file.dirs_only || cli.dirs_only,
            info: file.info || cli.info,
            stats: file.stats || cli.stats,
            hyperlinks: file.hyperlinks || cli.hyperlinks,
            all: file.all || cli.all,
            gitignore: file.gitignore || cli.gitignore,
            icons: file.icons || cli.icons,
            size: file.size || cli.size,
            permissions: file.permissions || cli.permissions,
            expand_level: if cli.expand_level.is_some() {
                cli.expand_level
            } else {
                file.expand_level
            },
            level: if cli.level.is_some() {
                cli.level
            } else {
                file.level
            },
            files: if cli.files.is_some() {
                cli.files
            } else {
                file.files
            },
            files_only: file.files_only || cli.files_only,
            sort: cli.sort,
            dirs_first: file.dirs_first || cli.dirs_first,
            case_sensitive: file.case_sensitive || cli.case_sensitive,
            natural_sort: file.natural_sort || cli.natural_sort,
            reverse: file.reverse || cli.reverse,
            dotfiles_first: file.dotfiles_first || cli.dotfiles_first,
            exclude_extensions: if cli.exclude_extensions.len() > 0 {
                cli.exclude_extensions
            } else {
                file.exclude_extensions
            },
            time_filter: if cli.time_filter.is_some() {
                cli.time_filter
            } else {
                file.time_filter
            },
        }
    }

    /// Settles the options in force from those of the command line and
    /// the configuration files that were read.
    pub fn load(cli: Args, named_file: Option<Args>, local_file: Option<Args>) -> (args: Args)
        ensures
            args == loaded(cli, named_file, local_file),
    {
        match named_file {
            Some(file) => Args::merge(file, cli),
            None => match local_file {
                Some(file) => Args::merge(file, cli),
                None => cli,
            },
        }
    }

    /// The sort options that these options stand for.
    pub fn to_sort_options(&self) -> (options: SortOptions)
        ensures
            options == sort_options_of(*self),
    {
        SortOptions {
            sort_type: crate::sort::SortType::from(self.sort),
            directories_first: self.dirs_first,
            case_sensitive: self.case_sensitive,
            natural_sort: self.natural_sort,
            reverse: self.reverse,
            dotfiles_first: self.dotfiles_first,
        }
    }
}

} // verus!
