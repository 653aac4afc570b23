//! The command-line surface as plain data: one variant per subcommand, with
//! the values each one carries.

use vstd::prelude::*;

verus! {

/// A parsed invocation: the chosen subcommand.
#[derive(Clone, Debug)]
pub struct Cli {
    pub command: Commands,
}

/// The subcommands and their arguments.
#[derive(Clone, Debug)]
pub enum Commands {
    /// Log time for a task on one or more days.
    Log {
        task: Option<String>,
        day: Option<String>,
        time: String,
        comment: Option<String>,
        yes: bool,
        option_day: Option<String>,
        option_time: String,
        option_comment: Option<String>,
    },
    /// Show the month grid.
    Month { cache: bool, month: Option<u32> },
    /// Show the week grid.
    Week { cache: bool, prev: bool },
    /// Show or change the configuration.
    Config {
        url: Option<String>,
        token: Option<String>,
        nager_url: Option<Option<String>>,
        nager_country_code: Option<Option<String>>,
        show_weekends: Option<bool>,
    },
    /// Update the tool to the latest release.
    Update,
}

} // verus!
