//! The configuration of one run, built from the program's arguments.

use vstd::prelude::*;

verus! {

/// What one run searches for, where, and how.
#[derive(Debug)]
pub struct Config {
    /// The text to look for.
    pub query: String,
    /// The path of the file to search.
    pub file_path: String,
    /// Whether lines and query are lower-cased before they are compared.
    pub ignore_case: bool,
}

/// The model of a configuration.
pub struct ConfigView {
    pub query: Seq<char>,
    pub file_path: Seq<char>,
    pub ignore_case: bool,
}

impl View for Config {
    type V = ConfigView;

    open spec fn view(&self) -> ConfigView {
        ConfigView {
            query: self.query@,
            file_path: self.file_path@,
            ignore_case: self.ignore_case,
        }
    }
}

/// Why the arguments give no configuration.
#[derive(Debug, Clone, Copy, PartialEq, Eq, Structural)]
pub enum ConfigError {
    /// No argument follows the program's name.
    MissingQuery,
    /// No argument follows the query.
    MissingFilePath,
}

impl ConfigError {
    /// The words of the message for this error.
    pub open spec fn message_spec(self) -> Seq<char> {
        match self {
            ConfigError::MissingQuery => "Query not found"@,
            ConfigError::MissingFilePath => "File path not found"@,
        }
    }

    /// The message to show for this error.
    pub fn message(&self) -> (text: &'static str)
        ensures
            text@ == self.message_spec(),
    {
        match self {
            ConfigError::MissingQuery => "Query not found",
            ConfigError::MissingFilePath => "File path not found",
        }
    }
}

/// What `Config::from` returns for the arguments `args`, the program's name
/// first, and the case switch `ignore_case`.
pub open spec fn config_of(args: Seq<Seq<char>>, ignore_case: bool) -> Result<
    ConfigView,
    ConfigError,
> {
    if args.len() < 2 {
        Err(ConfigError::MissingQuery)
    } else if args.len() < 3 {
        Err(ConfigError::MissingFilePath)
    } else {
        Ok(ConfigView { query: args[1], file_path: args[2], ignore_case })
    }
}

/// The characters of each argument.
pub open spec fn args_view(args: Seq<String>) -> Seq<Seq<char>> {
    Seq::new(args.len(), |i: int| args[i]@)
}

impl Config {
    /// Reads a configuration from the full argument list of the program.
    ///
    /// The first argument, the program's name, is passed over. The second is
    /// the query, the third the file's path; where one of them is absent the
    /// error says which. Further arguments are ignored, and neither the query
    /// nor the path is examined. `ignore_case` is stored as given.
    pub fn from(args: Vec<String>, ignore_case: bool) -> (made: Result<Config, ConfigError>)
        ensures
            match made {
                Ok(config) => config_of(args_view(args@), ignore_case) == Ok::<
                    ConfigView,
                    ConfigError,
                >(config@),
                Err(error) => config_of(args_view(args@), ignore_case) == Err::<
                    ConfigView,
                    ConfigError,
                >(error),
            },
    {
        if args.len() < 2 {
            return Err(ConfigError::MissingQuery);
        }
        if args.len() < 3 {
            return Err(ConfigError::MissingFilePath);
        }
        let query = args[1].clone();
        let file_path = args[2].clone();
        Ok(Config { query, file_path, ignore_case })
    }
}

} // verus!
