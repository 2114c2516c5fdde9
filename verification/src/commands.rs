//! The decisions behind the operations that a user interface calls.

use vstd::prelude::*;
use vstd::string::StringExecFns;
use crate::config::{is_mode_word, Config, OrganizationMode};
use crate::text::same_text;
use crate::watcher::{without_path, FileWatcher, Outcome, OutcomeView, Resolution};

verus! {

/// The organisation mode of a configuration, as it words it.
pub fn get_organization_mode(config: &Config) -> (mode: Result<String, String>)
    ensures
        mode matches Ok(word) && word@ == config.organization_mode@,
{
    Ok(config.organization_mode.clone())
}

/// Sets the organisation mode of a configuration. Only the three mode words
/// are taken; any other text is refused and leaves the configuration as it
/// was.
pub fn set_organization_mode(config: &mut Config, mode: String) -> (done: Result<(), String>)
    ensures
        match done {
            Ok(_) => is_mode_word(mode@) && *final(config) == (Config {
                organization_mode: mode,
                ..*old(config)
            }),
            Err(message) => !is_mode_word(mode@) && *final(config) == *old(config) && message@
                == "Invalid organization mode. Must be 'auto', 'ask', or 'both'"@,
        },
{
    match OrganizationMode::parse(mode.as_str()) {
        Some(_) => {
            config.organization_mode = mode;
            Ok(())
        },
        None => Err(
            String::from_str("Invalid organization mode. Must be 'auto', 'ask', or 'both'"),
        ),
    }
}

/// Acts on the answer to a notification about a pending file. The only
/// answer is `skip`, which resolves the file without a destination: a file
/// that still exists is skipped and the outcome is given; one that is gone
/// fails. Either way its entry leaves the queue. Any other answer is refused
/// and changes nothing.
pub fn process_file_from_notification(
    watcher: &mut FileWatcher,
    file_path: &str,
    exists: bool,
    action: &str,
) -> (done: Result<Outcome, String>)
    ensures
        final(watcher).config() == old(watcher).config(),
        match done {
            Ok(outcome) => action@ == "skip"@ && exists && outcome@ == (OutcomeView::Skipped {
                path: file_path@,
            }) && final(watcher).pending() == without_path(old(watcher).pending(), file_path@),
            Err(message) => if action@ == "skip"@ {
                !exists && message@ == "File no longer exists"@ && final(watcher).pending()
                    == without_path(old(watcher).pending(), file_path@)
            } else {
                message@ == "Unknown action"@ && final(watcher).pending() == old(watcher).pending()
            },
        },
{
    if same_text(action, "skip") {
        match watcher.process_pending_file(file_path, exists, None, None) {
            Resolution::Missing { error } => Err(error),
            Resolution::Skipped { outcome } => Ok(outcome),
            Resolution::Move { .. } => Err(String::from_str("Unknown action")),
        }
    } else {
        Err(String::from_str("Unknown action"))
    }
}

} // verus!
