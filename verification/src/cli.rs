//! The command line as plain values: what can be asked for, the check of a
//! map-file path, and the choice of the command to run.

use vstd::prelude::*;
use crate::text::same_text;

verus! {

/// What symbols are sorted by.
#[derive(Debug, Clone, Copy, PartialEq, Eq, Structural)]
pub enum SortKey {
    Size,
    Name,
    Path,
}

/// The direction of a sort.
#[derive(Debug, Clone, Copy, PartialEq, Eq, Structural)]
pub enum SortOrder {
    Asc,
    Desc,
}

/// The format of an export.
#[derive(Debug, Clone, Copy, PartialEq, Eq, Structural)]
pub enum ExportFormat {
    Json,
    Csv,
}

/// The arguments of the interactive browser.
#[derive(Debug, PartialEq, Eq)]
pub struct VizArgs {
    pub mapfile: String,
    pub filter: Option<String>,
    pub sort: SortKey,
    pub order: SortOrder,
}

/// The arguments of an export.
#[derive(Debug, PartialEq, Eq)]
pub struct ExportArgs {
    pub mapfile: String,
    pub format: ExportFormat,
    pub filter: Option<String>,
    pub out: Option<String>,
    pub sort: SortKey,
    pub order: SortOrder,
}

/// The commands.
#[derive(Debug, PartialEq, Eq)]
pub enum Commands {
    Viz(VizArgs),
    Export(ExportArgs),
}

/// A command line: a map file alone, or a command with its arguments.
#[derive(Debug, PartialEq, Eq)]
pub struct Cli {
    pub mapfile: Option<String>,
    pub command: Option<Commands>,
}

/// The command that a command line asks for. A map file without a command
/// asks for the browser on that file, sorted by size, largest first; a
/// command is taken as it is; neither asks for nothing.
pub open spec fn chosen_command(cli: Cli) -> Option<Commands> {
    match (cli.mapfile, cli.command) {
        (Some(mapfile), None) => Some(
            Commands::Viz(
                VizArgs { mapfile, filter: None, sort: SortKey::Size, order: SortOrder::Desc },
            ),
        ),
        (_, command) => command,
    }
}

/// Chooses the command to run for a command line.
pub fn run_with(cli: Cli) -> (command: Option<Commands>)
    ensures
        command == chosen_command(cli),
{
    let Cli { mapfile, command } = cli;
    match command {
        Some(c) => Some(c),
        None => match mapfile {
            Some(mapfile) => Some(
                Commands::Viz(
                    VizArgs { mapfile, filter: None, sort: SortKey::Size, order: SortOrder::Desc },
                ),
            ),
            None => None,
        },
    }
}

/// The message for a path that is no map file.
pub open spec fn not_a_map_path() -> Seq<char> {
    "expected path ending with .map"@
}

/// `std::path::Path::extension` of `path`, as text. What counts as the
/// extension depends on the platform's path syntax, so nothing is claimed
/// of the result.
#[verifier::external_body]
fn path_extension(path: &str) -> Option<String> {
    match std::path::Path::new(path).extension() {
        Some(extension) => Some(extension.to_string_lossy().into_owned()),
        None => None,
    }
}

/// Accepts `path` where its extension is `map`.
pub fn accept_extension(path: &str, extension: Option<String>) -> (r: Result<String, String>)
    ensures
        match extension {
            Some(e) if e@ == "map"@ => r.is_ok() && r.unwrap()@ == path@,
            _ => r.is_err() && r.unwrap_err()@ == not_a_map_path(),
        },
{
    let accepted = match extension {
        Some(e) => same_text(e.as_str(), "map"),
        None => false,
    };
    if accepted {
        Ok(path.to_owned())
    } else {
        Err("expected path ending with .map".to_owned())
    }
}

/// Checks that `s` names a map file: a path whose extension is `map`. The
/// path is handed back unchanged.
pub fn validate_map_path(s: &str) -> (r: Result<String, String>)
    ensures
        r.is_ok() ==> r.unwrap()@ == s@,
        r.is_err() ==> r.unwrap_err()@ == not_a_map_path(),
{
    accept_extension(s, path_extension(s))
}

} // verus!
