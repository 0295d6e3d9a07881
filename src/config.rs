//! The run's configuration, built once and read by every traversal step.
use vstd::prelude::*;

use crate::paths::{with_md, with_md_extension};

verus! {

/// Everything one run needs to know.
#[derive(Clone, Debug)]
pub struct AppConfig {
    /// The paths to walk, in the order given.
    pub paths: Vec<String>,
    /// Whether hidden files and directories are walked too.
    pub include_hidden: bool,
    /// Glob patterns; a path that matches one of them is skipped.
    pub ignore: Vec<String>,
    /// Whether each file is rendered as a fenced code block.
    pub markdown: bool,
    /// Where the output goes.
    pub output: String,
    /// When present and not empty, the only extensions whose files are rendered.
    pub extension: Option<Vec<String>>,
    /// Whether each line of a file is prefixed with its number.
    pub line_numbers: bool,
    /// Directories deeper than this are not expanded; the paths given are at depth 0.
    pub depth: u64,
}

/// Why a configuration was refused.
#[derive(Clone, Copy, Debug, PartialEq, Eq, Structural)]
pub enum ConfigError {
    /// No path to walk was given.
    NoPaths,
}

/// Builds the configuration of a run from its settings; refused when no path
/// is given.
pub fn get_config(
    paths: Vec<String>,
    include_hidden: bool,
    ignore: Vec<String>,
    markdown: bool,
    output: String,
    extension: Option<Vec<String>>,
    line_numbers: bool,
    depth: u64,
) -> (r: Result<AppConfig, ConfigError>)
    ensures
        paths@.len() == 0 <==> r == Err::<AppConfig, ConfigError>(ConfigError::NoPaths),
        r matches Ok(c) ==> c.paths == paths && c.include_hidden == include_hidden && c.ignore
            == ignore && c.markdown == markdown && c.output == output && c.extension == extension
            && c.line_numbers == line_numbers && c.depth == depth,
{
    if paths.len() == 0 {
        return Err(ConfigError::NoPaths);
    }
    Ok(AppConfig { paths, include_hidden, ignore, markdown, output, extension, line_numbers, depth })
}

/// The name the output is written under: the configured one, with its
/// extension set to `md` in markdown mode.
pub open spec fn output_name(config: AppConfig) -> Seq<char> {
    if config.markdown {
        with_md_extension(config.output@)
    } else {
        config.output@
    }
}

/// The name the output is written under.
pub fn mk_extension(app_config: &AppConfig) -> (r: String)
    ensures
        r@ == output_name(*app_config),
{
    if app_config.markdown {
        with_md(app_config.output.as_str())
    } else {
        String::from_str(app_config.output.as_str())
    }
}

} // verus!
