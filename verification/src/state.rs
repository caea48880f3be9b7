//! The state that the application keeps for the length of a run, and the
//! places of its files.

use vstd::prelude::*;
use vstd::string::StringExecFns;
use std::collections::HashMap;

verus! {

/// What the application knows of its surroundings.
#[derive(Debug, Clone)]
pub struct GlobalState {
    /// Track names by track code.
    pub tracks: HashMap<String, String>,
    pub current_directory: String,
    pub downloads_directory: String,
    pub racecards_directory: String,
}

impl Default for GlobalState {
    fn default() -> (state: GlobalState)
        ensures
            state.tracks@ == Map::<String, String>::empty(),
            state.current_directory@ == Seq::<char>::empty(),
            state.downloads_directory@ == Seq::<char>::empty(),
            state.racecards_directory@ == Seq::<char>::empty(),
    {
        GlobalState {
            tracks: HashMap::new(),
            current_directory: String::new(),
            downloads_directory: String::new(),
            racecards_directory: String::new(),
        }
    }
}

/// The state that a run starts with: no track, and no directory known.
pub fn global_state() -> (state: GlobalState)
    ensures
        state.tracks@ == Map::<String, String>::empty(),
        state.current_directory@ == Seq::<char>::empty(),
        state.downloads_directory@ == Seq::<char>::empty(),
        state.racecards_directory@ == Seq::<char>::empty(),
{
    GlobalState::default()
}

/// What is answered where a file's place is asked for before the current
/// directory is known.
pub open spec fn not_initialized() -> Seq<char> {
    "Current directory not initialized"@
}

/// The place of a file below the current directory: the directory followed
/// by `tail`; an error while the directory is not known.
pub open spec fn path_below_spec(current_directory: Seq<char>, tail: Seq<char>) -> Result<
    Seq<char>,
    Seq<char>,
> {
    if current_directory.len() == 0 {
        Err(not_initialized())
    } else {
        Ok(current_directory + tail)
    }
}

/// The views of a path or of the error in its place.
pub open spec fn path_view(r: Result<String, String>) -> Result<Seq<char>, Seq<char>> {
    match r {
        Ok(p) => Ok(p@),
        Err(e) => Err(e@),
    }
}

fn path_below(current_directory: &String, tail: &str) -> (r: Result<String, String>)
    ensures
        path_view(r) == path_below_spec(current_directory@, tail@),
{
    if current_directory.as_str().unicode_len() == 0 {
        Err(String::from_str("Current directory not initialized"))
    } else {
        Ok(current_directory.clone().concat(tail))
    }
}

/// The place of the configuration file: `config.json` in the current
/// directory.
pub fn get_config_file_path(state: &GlobalState) -> (r: Result<String, String>)
    ensures
        path_view(r) == path_below_spec(state.current_directory@, "/config.json"@),
{
    path_below(&state.current_directory, "/config.json")
}

/// The place of the database: `railbreaker.db` in the directory `Racecards`
/// of the current directory.
pub fn get_database_file_path(state: &GlobalState) -> (r: Result<String, String>)
    ensures
        path_view(r) == path_below_spec(state.current_directory@, "/Racecards/railbreaker.db"@),
{
    path_below(&state.current_directory, "/Racecards/railbreaker.db")
}

} // verus!
