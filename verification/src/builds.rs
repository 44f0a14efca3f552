//! Building a game, and rebuilding it whenever its code changes: the
//! decisions between reading the code and publishing the build.
//!
//! Reading the code, the clock, and the channels that builds are published
//! on are left to the caller: it hands each build's result and the current
//! time to [`BuildLoop::on_build`], and performs the action it gets back.

use vstd::prelude::*;

verus! {

/// # An error while building a game: its code could not be read
#[derive(Clone, Debug)]
pub struct BuildGameOnceError {
    /// What went wrong while reading the code
    pub source: String,
    /// Whether the code was not found
    ///
    /// Depending on the editor, this can happen while the file is being
    /// saved.
    pub not_found: bool,
    /// The path of the code
    pub path: String,
}

/// # The version of a build: nanoseconds since the Unix epoch
///
/// Each new build gets a later timestamp than the one before, so builds can
/// be told apart by it.
#[derive(Clone, Copy, Debug, PartialEq, Eq, Structural)]
pub struct Timestamp(pub u64);

/// The timestamp after an update at the time `now`
pub open spec fn next_timestamp(previous: u64, now: u64) -> u64 {
    if now > previous {
        now
    } else {
        (previous + 1) as u64
    }
}

impl Timestamp {
    /// # Update the timestamp to the current time
    ///
    /// The clock is not necessarily later than the previous timestamp. The
    /// timestamp still needs to increase, so then it is the previous one plus
    /// one.
    pub fn update(&mut self, now: u64)
        requires
            now > old(self).0 || old(self).0 < u64::MAX,
        ensures
            final(self).0 == next_timestamp(old(self).0, now),
            final(self).0 > old(self).0,
            final(self).0 >= now,
    {
        let timestamp = if now > self.0 {
            now
        } else {
            self.0 + 1
        };
        self.0 = timestamp;
    }
}

/// # What to do after a build
#[derive(Debug)]
pub enum BuildAction {
    /// Publish the build, with this timestamp
    Publish { timestamp: u64 },
    /// Build again right away
    ///
    /// The code was not found, and that was ignored, because a false positive
    /// was suspected.
    Retry,
    /// Stop building and watching, because of this error
    Abort {
        error: BuildGameOnceError,
        /// An error that was ignored right before, because a false positive
        /// was suspected
        previously_ignored: Option<BuildGameOnceError>,
    },
}

/// # The state of building and watching a game
pub struct BuildLoop {
    timestamp: Timestamp,
    ignored_error: Option<BuildGameOnceError>,
}

impl BuildLoop {
    /// The timestamp of the last published build, or `0` before the first
    pub closed spec fn last_timestamp(&self) -> u64 {
        self.timestamp.0
    }

    /// The error that was ignored after the last build, if any
    pub closed spec fn ignored(&self) -> Option<BuildGameOnceError> {
        self.ignored_error
    }

    /// # Start building and watching
    pub fn new() -> (result: Self)
        ensures
            result.last_timestamp() == 0,
            result.ignored() is None,
    {
        BuildLoop { timestamp: Timestamp(0), ignored_error: None }
    }

    /// # The timestamp of the last published build
    pub fn timestamp(&self) -> (result: u64)
        ensures
            result == self.last_timestamp(),
    {
        self.timestamp.0
    }

    /// # Decide what to do with the result of a build
    ///
    /// A build that succeeds is published with a new timestamp, later than
    /// any before. Where the code was not found, that is ignored once, and
    /// the game is built again; where it was not found twice in a row, or
    /// reading it failed otherwise, building stops.
    pub fn on_build(&mut self, result: Result<(), BuildGameOnceError>, now: u64) -> (action:
        BuildAction)
        requires
            result is Ok ==> now > old(self).last_timestamp() || old(self).last_timestamp()
                < u64::MAX,
        ensures
            match result {
                Ok(()) => {
                    &&& action == BuildAction::Publish {
                        timestamp: next_timestamp(old(self).last_timestamp(), now),
                    }
                    &&& final(self).last_timestamp() == next_timestamp(
                        old(self).last_timestamp(),
                        now,
                    )
                    &&& final(self).last_timestamp() > old(self).last_timestamp()
                    &&& final(self).ignored() is None
                },
                Err(error) => if error.not_found && old(self).ignored() is None {
                    &&& action == BuildAction::Retry
                    &&& final(self).last_timestamp() == old(self).last_timestamp()
                    &&& final(self).ignored() == Some(error)
                } else {
                    &&& action == BuildAction::Abort {
                        error,
                        previously_ignored: if error.not_found {
                            old(self).ignored()
                        } else {
                            None
                        },
                    }
                    &&& final(self).last_timestamp() == old(self).last_timestamp()
                    &&& final(self).ignored() is None
                },
            },
    {
        match result {
            Ok(()) => {
                self.ignored_error = None;
                self.timestamp.update(now);
                BuildAction::Publish { timestamp: self.timestamp.0 }
            },
            Err(error) => {
                if error.not_found {
                    match self.ignored_error.take() {
                        Some(previous) => BuildAction::Abort {
                            error,
                            previously_ignored: Some(previous),
                        },
                        None => {
                            self.ignored_error = Some(error);
                            BuildAction::Retry
                        },
                    }
                } else {
                    self.ignored_error = None;
                    BuildAction::Abort { error, previously_ignored: None }
                }
            },
        }
    }
}

} // verus!
