//! Setting the GNOME desktop background with `gsettings`: which commands to
//! run, in which order, and what their outcomes mean. Running them is left to
//! the caller.

use vstd::prelude::*;
use vstd::string::StringExecFns;
use crate::text::texts_of;

verus! {

/// The settings schema of the desktop background.
pub const BACKGROUND_SCHEMA: &'static str = "org.gnome.desktop.background";

/// The key of the picture shown in light mode.
pub const LIGHT_KEY: &'static str = "picture-uri";

/// The key of the picture shown in dark mode.
pub const DARK_KEY: &'static str = "picture-uri-dark";

/// How running one `gsettings` command ended.
#[derive(Clone, Debug, PartialEq, Eq)]
pub enum CommandOutcome {
    /// The command ran and reported success.
    Succeeded,
    /// The command ran and reported failure; `stderr` is what it printed.
    Failed { stderr: String },
    /// The command could not be started; `cause` says why.
    NotStarted { cause: String },
}

/// Why the wallpaper was not set.
#[derive(Clone, Debug, PartialEq, Eq)]
pub enum WallpaperError {
    /// `gsettings` could not be started.
    NotStarted { cause: String },
    /// `gsettings` failed for the key.
    Rejected { key: String, stderr: String },
}

impl WallpaperError {
    /// The message for the user.
    pub open spec fn spec_message(self) -> Seq<char> {
        match self {
            WallpaperError::NotStarted { cause } => "Failed to run gsettings: "@ + cause@,
            WallpaperError::Rejected { key, stderr } => "gsettings failed for "@ + key@ + ": "@
                + stderr@,
        }
    }

    /// Writes the message for the user.
    pub fn message(&self) -> (text: String)
        ensures
            text@ == self.spec_message(),
    {
        match self {
            WallpaperError::NotStarted { cause } => {
                let mut text = String::from_str("Failed to run gsettings: ");
                text.append(cause.as_str());
                text
            },
            WallpaperError::Rejected { key, stderr } => {
                let mut text = String::from_str("gsettings failed for ");
                text.append(key.as_str());
                text.append(": ");
                text.append(stderr.as_str());
                text
            },
        }
    }
}

/// What to do next when setting the wallpaper.
#[derive(Clone, Debug, PartialEq, Eq)]
pub enum WallpaperStep {
    /// Run `gsettings` with these arguments and report how it ended.
    Run { arguments: Vec<String> },
    /// The work ended with an error; nothing more is to be run.
    Failed { error: WallpaperError },
    /// The wallpaper is set for both modes.
    Finished,
}

/// The URI of a file by its resolved absolute path.
pub open spec fn file_uri(resolved_path: Seq<char>) -> Seq<char> {
    "file://"@ + resolved_path
}

/// The arguments that make `gsettings` set a key of the background schema.
pub open spec fn gsettings_arguments(key: Seq<char>, value: Seq<char>) -> Seq<Seq<char>> {
    seq!["set"@, BACKGROUND_SCHEMA@, key, value]
}

/// The error that a command's outcome stands for, if it stands for one.
pub open spec fn outcome_error(key: Seq<char>, outcome: CommandOutcome) -> Option<Seq<char>> {
    match outcome {
        CommandOutcome::Succeeded => None,
        CommandOutcome::Failed { stderr } => Some("gsettings failed for "@ + key + ": "@ + stderr@),
        CommandOutcome::NotStarted { cause } => Some("Failed to run gsettings: "@ + cause@),
    }
}

/// Builds the arguments for one `gsettings` call that sets `key` to `value`
/// in the background schema.
pub fn run_gsettings(key: &str, value: &str) -> (arguments: Vec<String>)
    ensures
        texts_of(arguments@) == gsettings_arguments(key@, value@),
{
    let mut arguments: Vec<String> = Vec::new();
    arguments.push(String::from_str("set"));
    arguments.push(String::from_str(BACKGROUND_SCHEMA));
    arguments.push(String::from_str(key));
    arguments.push(String::from_str(value));
    assert(texts_of(arguments@) =~= gsettings_arguments(key@, value@));
    arguments
}

/// Judges the outcome of the `gsettings` call for `key`.
pub fn check_outcome(key: &str, outcome: &CommandOutcome) -> (result: Result<(), WallpaperError>)
    ensures
        match outcome_error(key@, *outcome) {
            None => result is Ok,
            Some(message) => result is Err && result->Err_0.spec_message() == message,
        },
{
    match outcome {
        CommandOutcome::Succeeded => Ok(()),
        CommandOutcome::Failed { stderr } => Err(
            WallpaperError::Rejected { key: String::from_str(key), stderr: stderr.clone() },
        ),
        CommandOutcome::NotStarted { cause } => Err(
            WallpaperError::NotStarted { cause: cause.clone() },
        ),
    }
}

/// The mathematical model of a step.
pub enum StepModel {
    /// Run `gsettings` with these arguments.
    Run { arguments: Seq<Seq<char>> },
    /// The work ended with this error message.
    Failed { message: Seq<char> },
    /// The wallpaper is set.
    Finished,
}

impl View for WallpaperStep {
    type V = StepModel;

    open spec fn view(&self) -> StepModel {
        match *self {
            WallpaperStep::Run { arguments } => StepModel::Run { arguments: texts_of(arguments@) },
            WallpaperStep::Failed { error } => StepModel::Failed { message: error.spec_message() },
            WallpaperStep::Finished => StepModel::Finished,
        }
    }
}

/// The step that follows the outcomes so far: light mode first, then dark
/// mode, both set to the file's URI; the first outcome that is an error ends
/// the work.
pub open spec fn wallpaper_step(resolved_path: Seq<char>, outcomes: Seq<CommandOutcome>) -> StepModel {
    let uri = file_uri(resolved_path);
    if outcomes.len() == 0 {
        StepModel::Run { arguments: gsettings_arguments(LIGHT_KEY@, uri) }
    } else if outcome_error(LIGHT_KEY@, outcomes[0]) is Some {
        StepModel::Failed { message: outcome_error(LIGHT_KEY@, outcomes[0])->0 }
    } else if outcomes.len() == 1 {
        StepModel::Run { arguments: gsettings_arguments(DARK_KEY@, uri) }
    } else if outcome_error(DARK_KEY@, outcomes[1]) is Some {
        StepModel::Failed { message: outcome_error(DARK_KEY@, outcomes[1])->0 }
    } else {
        StepModel::Finished
    }
}

/// Says how setting the wallpaper goes on, given the resolved path of the
/// image and the outcomes of the commands run so far.
///
/// The picture is set for light mode first, then for dark mode, each to the
/// file's URI. The first command that does not succeed ends the work with its
/// error, and the remaining command is not run.
pub fn set_gnome_wallpaper(resolved_path: &str, outcomes: &Vec<CommandOutcome>) -> (step:
    WallpaperStep)
    ensures
        step@ == wallpaper_step(resolved_path@, outcomes@),
{
    let mut uri = String::from_str("file://");
    uri.append(resolved_path);
    if outcomes.len() == 0 {
        return WallpaperStep::Run { arguments: run_gsettings(LIGHT_KEY, uri.as_str()) };
    }
    match check_outcome(LIGHT_KEY, &outcomes[0]) {
        Err(error) => {
            return WallpaperStep::Failed { error };
        },
        Ok(_) => {},
    }
    if outcomes.len() == 1 {
        return WallpaperStep::Run { arguments: run_gsettings(DARK_KEY, uri.as_str()) };
    }
    match check_outcome(DARK_KEY, &outcomes[1]) {
        Err(error) => WallpaperStep::Failed { error },
        Ok(_) => WallpaperStep::Finished,
    }
}

} // verus!
