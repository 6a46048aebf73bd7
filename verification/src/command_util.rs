//! The description of a pipeline of commands before it is spawned: the
//! commands, the environment variables they get, and where their logs go.
use vstd::prelude::*;

verus! {

/// The environment variable that enables the logs of child processes
/// whose logging is left to the default.
pub const DEBUG_CHILD_PROCESS_ENV: &'static str = "MIRAKC_DEBUG_CHILD_PROCESS";

/// The environment variable that sets the log filter of the commands.
pub const LOG_FILTER_ENV: &'static str = "MIRAKC_ARIB_LOG";

/// The environment variable that turns the timestamps of the logs of the
/// commands on ("0") or off.
pub const LOG_NO_TIMESTAMP_ENV: &'static str = "MIRAKC_ARIB_LOG_NO_TIMESTAMP";

/// Whether the logs of the child processes are shown.
#[derive(Clone, Copy, Debug, PartialEq, Eq, Structural)]
pub enum CommandLogging {
    /// Shown when the debug environment variable is set.
    Default,
    Enabled,
    Disabled,
}

impl CommandLogging {
    /// Whether the logs are shown, given whether the debug environment
    /// variable is set.
    pub fn is_enabled(&self, debug_env_set: bool) -> (r: bool)
        ensures
            r == match *self {
                CommandLogging::Default => debug_env_set,
                CommandLogging::Enabled => true,
                CommandLogging::Disabled => false,
            },
    {
        match self {
            CommandLogging::Default => debug_env_set,
            CommandLogging::Enabled => true,
            CommandLogging::Disabled => false,
        }
    }
}

/// A process of a pipeline.
#[derive(Debug)]
pub struct CommandPipelineProcessModel {
    pub command: String,
    pub pid: Option<u32>,
}

/// A pipeline of commands to spawn.
pub struct CommandPipelineBuilder<T> {
    pub commands: Vec<String>,
    pub envs: Vec<(&'static str, String)>,
    pub id: T,
    pub label: &'static str,
    pub log_file: Option<String>,
    pub logging: CommandLogging,
}

impl<T> CommandPipelineBuilder<T> {
    /// A pipeline of the commands, with no extra environment variables, the
    /// logs on the console and the default logging.
    pub fn new(commands: Vec<String>, id: T, label: &'static str) -> (r: Self)
        ensures
            r.commands == commands,
            r.envs@.len() == 0,
            r.id == id,
            r.label == label,
            r.log_file is None,
            r.logging == CommandLogging::Default,
    {
        CommandPipelineBuilder {
            commands,
            envs: Vec::new(),
            id,
            label,
            log_file: None,
            logging: CommandLogging::Default,
        }
    }

    /// Shows or hides the logs of the processes.
    pub fn set_logging(&mut self, logging: bool)
        ensures
            final(self).logging == if logging {
                CommandLogging::Enabled
            } else {
                CommandLogging::Disabled
            },
            final(self).commands == old(self).commands,
            final(self).envs == old(self).envs,
            final(self).id == old(self).id,
            final(self).label == old(self).label,
            final(self).log_file == old(self).log_file,
    {
        self.logging = if logging {
            CommandLogging::Enabled
        } else {
            CommandLogging::Disabled
        };
    }

    /// Passes a log filter to the commands.
    pub fn set_log_filter(&mut self, log_filter: &str)
        ensures
            final(self).envs@.len() == old(self).envs@.len() + 1,
            final(self).envs@.take(old(self).envs@.len() as int) == old(self).envs@,
            final(self).envs@.last().0@ == LOG_FILTER_ENV@,
            final(self).envs@.last().1@ == log_filter@,
            final(self).commands == old(self).commands,
            final(self).id == old(self).id,
            final(self).label == old(self).label,
            final(self).log_file == old(self).log_file,
            final(self).logging == old(self).logging,
    {
        self.envs.push((LOG_FILTER_ENV, String::from_str(log_filter)));
        assert(self.envs@.take(old(self).envs@.len() as int) =~= old(self).envs@);
    }

    /// Writes the logs, with timestamps, to a file.
    pub fn set_log_file(&mut self, log_file: &str)
        ensures
            final(self).envs@.len() == old(self).envs@.len() + 1,
            final(self).envs@.take(old(self).envs@.len() as int) == old(self).envs@,
            final(self).envs@.last().0@ == LOG_NO_TIMESTAMP_ENV@,
            final(self).envs@.last().1@ == "0"@,
            final(self).log_file matches Some(f) && f@ == log_file@,
            final(self).commands == old(self).commands,
            final(self).id == old(self).id,
            final(self).label == old(self).label,
            final(self).logging == old(self).logging,
    {
        self.envs.push((LOG_NO_TIMESTAMP_ENV, String::from_str("0")));
        self.log_file = Some(String::from_str(log_file));
        assert(self.envs@.take(old(self).envs@.len() as int) =~= old(self).envs@);
    }
}


/// An error of a command: its line could not be split into words.
#[derive(Debug)]
pub enum Error {
    UnableToParse(String),
}

/// The words of a command line as `shell_words::split` splits it (quotes,
/// escapes and comments as a POSIX shell reads them), or `None` where it
/// fails (an unclosed quote).
pub uninterp spec fn shell_words_of(command: Seq<char>) -> Option<Seq<Seq<char>>>;

/// The texts of a list of strings.
pub open spec fn texts(v: Seq<String>) -> Seq<Seq<char>> {
    v.map_values(|s: String| s@)
}

/// The words of a command line.
///
/// Trusted: calls `shell_words::split`; its words are what the name
/// `shell_words_of` gives.
#[verifier::external_body]
fn shell_split(command: &str) -> (r: Option<Vec<String>>)
    ensures
        match (r, shell_words_of(command@)) {
            (Some(w), Some(x)) => texts(w@) == x,
            (None, None) => true,
            _ => false,
        },
{
    shell_words::split(command).ok()
}

/// The words of a command line, or the error of one that cannot be split.
pub fn split_command(command: &str) -> (r: Result<Vec<String>, Error>)
    ensures
        match shell_words_of(command@) {
            Some(x) => r matches Ok(w) && texts(w@) == x,
            None => r matches Err(Error::UnableToParse(c)) && c@ == command@,
        },
{
    match shell_split(command) {
        Some(words) => Ok(words),
        None => Err(Error::UnableToParse(String::from_str(command))),
    }
}

/// The program and the arguments of the words of a command line.
pub fn program_and_args(words: &[String]) -> (r: (String, Vec<String>))
    requires
        words@.len() > 0,
    ensures
        r.0@ == words@[0]@,
        texts(r.1@) == texts(words@.drop_first()),
{
    let program = words[0].clone();
    let mut args: Vec<String> = Vec::new();
    let mut i: usize = 1;
    while i < words.len()
        invariant
            1 <= i <= words@.len(),
            texts(args@) == texts(words@.subrange(1, i as int)),
        decreases words@.len() - i,
    {
        let ghost before = args@;
        args.push(words[i].clone());
        proof {
            assert(texts(args@) =~= texts(before).push(words@[i as int]@));
            assert(texts(words@.subrange(1, i as int + 1)) =~= texts(words@.subrange(1, i as int)).push(
                words@[i as int]@,
            ));
        }
        i = i + 1;
    }
    assert(words@.subrange(1, words@.len() as int) =~= words@.drop_first());
    (program, args)
}

} // verus!
