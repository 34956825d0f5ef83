//! The configuration of one search: what to look for, where, and whether
//! letter case counts.

use vstd::prelude::*;
use vstd::string::*;

verus! {

/// The name of the environment variable that switches case sensitivity
/// off: set to any value, the empty one too, it makes the search ignore
/// letter case.
pub const CASE_INSENSITIVE: &'static str = "CASE_INSENSITIVE";

/// Why an argument list gives no configuration.
#[derive(Debug, Clone, Copy, PartialEq, Eq, Structural)]
pub enum ArgumentError {
    /// The list holds no query.
    MissingQuery,
    /// The list holds a query but no file name.
    MissingFilename,
}

/// The text that tells a user of `error`.
pub open spec fn message_of(error: ArgumentError) -> Seq<char> {
    match error {
        ArgumentError::MissingQuery => "Didn't get query string."@,
        ArgumentError::MissingFilename => "Filename missing!"@,
    }
}

impl ArgumentError {
    /// The text that tells a user of this error.
    pub fn message(&self) -> (text: &'static str)
        ensures
            text@ == message_of(*self),
    {
        match self {
            ArgumentError::MissingQuery => "Didn't get query string.",
            ArgumentError::MissingFilename => "Filename missing!",
        }
    }
}

/// What to search for, in which file, and whether letter case counts.
#[derive(Debug, PartialEq, Eq)]
pub struct Config {
    pub query: String,
    pub filename: String,
    pub case_sensitive: bool,
}

/// A configuration as plain values.
pub struct ConfigView {
    pub query: Seq<char>,
    pub filename: Seq<char>,
    pub case_sensitive: bool,
}

impl View for Config {
    type V = ConfigView;

    open spec fn view(&self) -> ConfigView {
        ConfigView {
            query: self.query@,
            filename: self.filename@,
            case_sensitive: self.case_sensitive,
        }
    }
}

/// The configuration that an argument list and the state of the
/// case-insensitivity switch give. The list starts with the program's
/// name; the query and the file name follow it, and what stands after
/// them is not looked at. The switch is `None` where it is not set, and
/// set to whatever value, the empty one too, it turns case sensitivity
/// off.
pub open spec fn configured(args: Seq<Seq<char>>, switch: Option<Seq<char>>) -> Result<
    ConfigView,
    ArgumentError,
> {
    if args.len() < 2 {
        Err(ArgumentError::MissingQuery)
    } else if args.len() < 3 {
        Err(ArgumentError::MissingFilename)
    } else {
        Ok(ConfigView { query: args[1], filename: args[2], case_sensitive: switch is None })
    }
}

/// The outcome of building a configuration, as plain values.
pub open spec fn outcome(made: Result<Config, ArgumentError>) -> Result<ConfigView, ArgumentError> {
    match made {
        Ok(config) => Ok(config@),
        Err(error) => Err(error),
    }
}

impl Config {
    /// Builds the configuration from the program's argument list, which
    /// starts with the program's name, and from the state of the
    /// case-insensitivity switch: `None` where it is not set, else its
    /// value. Fails where the query or the file name is missing; further
    /// arguments are ignored.
    pub fn new(args: &[String], switch: Option<&str>) -> (made: Result<Config, ArgumentError>)
        ensures
            outcome(made) == configured(args.deep_view(), switch.deep_view()),
            args@.len() < 2 <==> made matches Err(ArgumentError::MissingQuery),
            args@.len() == 2 <==> made matches Err(ArgumentError::MissingFilename),
            made matches Ok(config) ==> {
                &&& config.query@ == args@[1]@
                &&& config.filename@ == args@[2]@
                &&& config.case_sensitive == (switch is None)
            },
    {
        if args.len() < 2 {
            return Err(ArgumentError::MissingQuery);
        }
        if args.len() < 3 {
            return Err(ArgumentError::MissingFilename);
        }
        let query = args[1].clone();
        let filename = args[2].clone();
        let case_sensitive = switch.is_none();
        Ok(Config { query, filename, case_sensitive })
    }
}

} // verus!
