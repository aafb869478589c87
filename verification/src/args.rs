//! Configuration consumed by the core: connection parameters, the bot's
//! own nickname (used for self-exclusion) and exactly one way of expressing
//! the promotion cooldown.

use vstd::prelude::*;

verus! {

/// The process configuration. Exactly one of the three `promote_after_*`
/// durations must be set; they are alternative units for the same cooldown.
pub struct Args {
    /// How much logging output to produce.
    pub verbose: u8,
    /// The chat server to connect to.
    pub server: String,
    /// The bot's own nickname; it must never receive a promotion command.
    pub nickname: String,
    /// Password for the nickname, if the server wants one.
    pub password: Option<String>,
    /// The channel to moderate.
    pub channel: String,
    /// Cooldown before promoting a member, in seconds.
    pub promote_after_seconds: Option<u64>,
    /// Cooldown before promoting a member, in minutes.
    pub promote_after_minutes: Option<u64>,
    /// Cooldown before promoting a member, in hours.
    pub promote_after_hours: Option<u64>,
}

/// Missing cooldown configuration: none of the three duration options was
/// given. This is a startup-time error.
#[derive(Debug, PartialEq, Eq, Structural, Clone, Copy)]
pub enum ConfigError {
    MissingPromoteAfter,
}

impl Args {
    /// The configured cooldown converted to seconds, preferring seconds over
    /// minutes over hours (the options are mutually exclusive at the command
    /// line, so at most one is ever set). When none is set, configuration
    /// is incomplete and an error is returned.
    pub fn cooldown_seconds(&self) -> (r: Result<u64, ConfigError>)
        requires
            self.promote_after_seconds is None && self.promote_after_minutes is Some
                ==> self.promote_after_minutes->0 * 60 <= u64::MAX,
            self.promote_after_seconds is None && self.promote_after_minutes is None
                && self.promote_after_hours is Some ==> self.promote_after_hours->0 * 3600
                <= u64::MAX,
        ensures
            match r {
                Ok(secs) => {
                    ||| self.promote_after_seconds == Some(secs)
                    ||| (self.promote_after_seconds is None && self.promote_after_minutes is Some
                        && secs == self.promote_after_minutes->0 * 60)
                    ||| (self.promote_after_seconds is None && self.promote_after_minutes is None
                        && self.promote_after_hours is Some && secs == self.promote_after_hours->0
                        * 3600)
                },
                Err(e) => self.promote_after_seconds is None && self.promote_after_minutes is None
                    && self.promote_after_hours is None && e == ConfigError::MissingPromoteAfter,
            },
    {
        if let Some(secs) = self.promote_after_seconds {
            Ok(secs)
        } else if let Some(mins) = self.promote_after_minutes {
            Ok(mins * 60)
        } else if let Some(hours) = self.promote_after_hours {
            Ok(hours * 3600)
        } else {
            Err(ConfigError::MissingPromoteAfter)
        }
    }
}

} // verus!
