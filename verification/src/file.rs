//! The file target's configuration and the path computation its writer
//! needs; the writing itself lives with the caller.

use crate::strutil::split_spec;
use crate::{split_delim, Error};
use vstd::prelude::*;

verus! {

/// Configuration of a file target: the line format and the file path
/// pattern.
pub struct FileConfig {
    /// The format of each written line.
    pub format: String,
    /// The path of the log file; placeholders are substituted before it
    /// is opened.
    pub file: String,
}

impl Default for FileConfig {
    /// The stock file target: a `module level: message` line appended to
    /// `log.log`.
    fn default() -> (r: FileConfig)
        ensures
            r.format@ == "%module% %level%: %message%"@,
            r.file@ == "log.log"@,
    {
        FileConfig {
            format: "%module% %level%: %message%".to_owned(),
            file: "log.log".to_owned(),
        }
    }
}

/// A file-backed log target: holds its configuration; the caller performs
/// the writes.
pub struct FileLogger {
    /// The target's configuration.
    pub config: FileConfig,
}

impl FileLogger {
    /// Wraps a configuration into a file target; never fails.
    pub fn init(config: FileConfig) -> (r: Result<FileLogger, Error>)
        ensures
            r matches Ok(l) && l.config == config,
    {
        let logger = FileLogger { config };
        Ok(logger)
    }

    /// The registry name of this target kind.
    pub fn name(&self) -> (r: String)
        ensures
            r@ == "file-logger"@,
    {
        "file-logger".to_owned()
    }

    /// The format this target declares for its lines.
    pub fn format(&self) -> (r: String)
        ensures
            r@ == self.config.format@,
    {
        self.config.format.clone()
    }
}

impl Default for FileLogger {
    /// A file target with the stock configuration.
    fn default() -> (r: FileLogger)
        ensures
            r.config.format@ == "%module% %level%: %message%"@,
            r.config.file@ == "log.log"@,
    {
        match FileLogger::init(FileConfig::default()) {
            Ok(l) => l,
            Err(_) => {
                assert(false);
                FileLogger { config: FileConfig::default() }
            },
        }
    }
}

/// The components of a file path pattern, split on `/`: every part but
/// the last names a directory to create, the last names the file.
pub fn file_path_components(path: &str) -> (r: Vec<String>)
    ensures
        r@.map_values(|t: String| t@) == split_spec(path@, seq!['/']),
        r@.len() >= 1,
{
    proof {
        reveal_strlit("/");
        assert("/"@ =~= seq!['/']);
        crate::strutil::lemma_split_len(path@, seq!['/'], Seq::empty());
    }
    split_delim(path, "/")
}

} // verus!
