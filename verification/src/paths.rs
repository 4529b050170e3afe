//! Where the state of the supervisor is kept.

use vstd::prelude::*;
use vstd::string::*;

use crate::error::AppError;
use crate::fspath::{absolute, is_absolute, join_path, joined_path};
use crate::promotion::optional_text;

verus! {

pub open spec fn optional_str(text: Option<&str>) -> Option<Seq<char>> {
    match text {
        Some(t) => Some(t@),
        None => None,
    }
}

/// The system on which the supervisor runs, as far as the place of its state
/// depends on it.
#[derive(Debug, Clone, Copy, PartialEq, Eq, Structural)]
pub enum Platform {
    MacOs,
    Other,
}

/// Where a home directory holds the state of programs.
pub open spec fn platform_state_dir(platform: Platform) -> Seq<char> {
    match platform {
        Platform::MacOs => "Library/Application Support"@,
        Platform::Other => ".local/state"@,
    }
}

/// The directory for state that a user has set.
pub open spec fn state_home_of(
    xdg_state_home: Option<Seq<char>>,
    home: Option<Seq<char>>,
    platform: Platform,
) -> Option<Seq<char>> {
    match xdg_state_home {
        Some(path) if is_absolute(path) => Some(path),
        _ => match home {
            Some(path) if path.len() > 0 => Some(joined_path(path, platform_state_dir(platform))),
            _ => None,
        },
    }
}

/// The file that holds the state. A directory that was set explicitly wins over
/// the user's directory for state, and that over the user's home; one that is
/// not absolute counts as not set.
pub open spec fn state_file_of(
    explicit: Option<Seq<char>>,
    xdg_state_home: Option<Seq<char>>,
    home: Option<Seq<char>>,
    platform: Platform,
) -> Option<Seq<char>> {
    match explicit {
        Some(path) if is_absolute(path) => Some(joined_path(path, "state.sqlite3"@)),
        _ => match state_home_of(xdg_state_home, home, platform) {
            Some(path) => Some(
                joined_path(joined_path(path, "pueue-agent"@), "state.sqlite3"@),
            ),
            None => None,
        },
    }
}

pub open spec fn is_state_file(found: Result<String, AppError>, path: Option<Seq<char>>) -> bool {
    match found {
        Ok(file) => path == Some(file@),
        Err(error) => path is None && (error matches AppError::Configuration { field } && field@
            == "PUEUE_AGENT_STATE_DIR, XDG_STATE_HOME, or HOME"@),
    }
}

pub fn state_db_path_with(
    xdg_state_home: Option<&str>,
    home: Option<&str>,
    platform: Platform,
) -> (path: Result<String, AppError>)
    ensures
        is_state_file(
            path,
            state_file_of(None, optional_str(xdg_state_home), optional_str(home), platform),
        ),
{
    state_db_path_with_override(None, xdg_state_home, home, platform)
}

pub fn state_db_path_with_override(
    explicit_state_dir: Option<&str>,
    xdg_state_home: Option<&str>,
    home: Option<&str>,
    platform: Platform,
) -> (path: Result<String, AppError>)
    ensures
        is_state_file(
            path,
            state_file_of(
                optional_str(explicit_state_dir),
                optional_str(xdg_state_home),
                optional_str(home),
                platform,
            ),
        ),
{
    if let Some(directory) = explicit_state_dir {
        if absolute(directory) {
            return Ok(join_path(directory, "state.sqlite3"));
        }
    }
    let state_home = match state_home(xdg_state_home, home, platform) {
        Some(path) => path,
        None => {
            return Err(
                AppError::Configuration {
                    field: "PUEUE_AGENT_STATE_DIR, XDG_STATE_HOME, or HOME",
                },
            );
        },
    };
    let directory = join_path(state_home.as_str(), "pueue-agent");
    Ok(join_path(directory.as_str(), "state.sqlite3"))
}

fn state_home(xdg_state_home: Option<&str>, home: Option<&str>, platform: Platform) -> (path: Option<
    String,
>)
    ensures
        optional_text(path) == state_home_of(
            optional_str(xdg_state_home),
            optional_str(home),
            platform,
        ),
{
    if let Some(directory) = xdg_state_home {
        if absolute(directory) {
            return Some(directory.to_owned());
        }
    }
    match home {
        Some(directory) => {
            if directory.unicode_len() > 0 {
                match platform {
                    Platform::MacOs => Some(join_path(directory, "Library/Application Support")),
                    Platform::Other => Some(join_path(directory, ".local/state")),
                }
            } else {
                None
            }
        },
        None => None,
    }
}

/// The file that holds the state has an absolute path, unless it lies in a home
/// directory whose path is not absolute.
pub proof fn lemma_state_file_is_absolute(
    explicit: Option<Seq<char>>,
    xdg_state_home: Option<Seq<char>>,
    home: Option<Seq<char>>,
    platform: Platform,
)
    requires
        home matches Some(path) ==> path.len() == 0 || is_absolute(path),
    ensures
        state_file_of(explicit, xdg_state_home, home, platform) matches Some(path) ==> is_absolute(path),
{
    reveal_strlit("state.sqlite3");
    reveal_strlit("pueue-agent");
    reveal_strlit(".local/state");
    reveal_strlit("Library/Application Support");
    assert("state.sqlite3"@[0] == 's');
    assert("pueue-agent"@[0] == 'p');
    assert(".local/state"@[0] == '.');
    assert("Library/Application Support"@[0] == 'L');
}

/// Where the state is kept: in the directory that was named for it, else in the
/// supervisor's own under the directory for state, else under the home; a name
/// that is not absolute is passed over.
pub proof fn lemma_where_the_state_is_kept(
    explicit: Option<Seq<char>>,
    xdg: Option<Seq<char>>,
    home: Option<Seq<char>>,
    platform: Platform,
)
    ensures
        ({
            let found = state_file_of(explicit, xdg, home, platform);
            let named = explicit is Some && is_absolute(explicit->0);
            let shared = xdg is Some && is_absolute(xdg->0);
            &&& named ==> found == Some(joined_path(explicit->0, "state.sqlite3"@))
            &&& !named && shared ==> found == Some(
                joined_path(joined_path(xdg->0, "pueue-agent"@), "state.sqlite3"@),
            )
            &&& !named && !shared && home is Some && home->0.len() > 0 ==> found == Some(
                joined_path(
                    joined_path(
                        joined_path(
                            home->0,
                            if platform is MacOs {
                                "Library/Application Support"@
                            } else {
                                ".local/state"@
                            },
                        ),
                        "pueue-agent"@,
                    ),
                    "state.sqlite3"@,
                ),
            )
            &&& !named && !shared && (home is None || home->0.len() == 0) ==> found is None
        }),
{
}

/// Where no directory for the state can be found, the variables that would give
/// one are named.
pub proof fn lemma_state_file_or_refusal(found: Result<String, AppError>, path: Option<Seq<char>>)
    requires
        is_state_file(found, path),
    ensures
        found is Ok <==> path is Some,
        found matches Ok(file) ==> path == Some(file@),
        found matches Err(error) ==> (error matches AppError::Configuration { field } && field@
            == "PUEUE_AGENT_STATE_DIR, XDG_STATE_HOME, or HOME"@),
{
}

} // verus!
