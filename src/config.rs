use vstd::prelude::*;

verus! {

/// Where the starting position comes from.
pub struct AppConfig {
    /// Read the position from `board_path` instead of using the standard
    /// starting position.
    pub board_from_file: bool,
    pub board_path: String,
}

/// A configuration is usable when it names a board file.
pub fn validate_config(config: &AppConfig) -> (r: bool)
    ensures
        r == (config.board_path@.len() > 0),
{
    !config.board_path.as_str().is_empty()
}

/// The configuration used when none is usable: the standard starting
/// position, and no file.
pub fn get_fallback_config() -> (r: AppConfig)
    ensures
        !r.board_from_file,
        r.board_path@.len() == 0,
{
    AppConfig { board_from_file: false, board_path: String::new() }
}

/// `config` where it is usable, the fallback otherwise.
pub fn config_or_fallback(config: AppConfig) -> (r: AppConfig)
    ensures
        config.board_path@.len() > 0 ==> r == config,
        config.board_path@.len() == 0 ==> !r.board_from_file && r.board_path@.len() == 0,
{
    if validate_config(&config) {
        config
    } else {
        get_fallback_config()
    }
}

} // verus!
