//! Service configuration: the pure decisions behind the recognised
//! settings. Reading the process environment, and any Unicode lowercasing
//! of raw values, stays in the embedding program; the defaulting and
//! validation rules live here.

use vstd::prelude::*;

verus! {

/// Default grace window before a pending moderation is auto-approved:
/// seven days, in seconds.
pub const DEFAULT_MODERATION_LENGTH_IN_S: u64 = 604_800;

/// Default auto-approval cutoff for the suspicion score, in millionths.
pub const DEFAULT_MODERATION_THRESHOLD_MILLIONTHS: u64 = 250_000;

/// The deployment environment, used for tagging only.
#[derive(Clone, Copy, Debug, PartialEq, Eq, Structural)]
pub enum Environment {
    Development,
    Staging,
    Production,
}

/// Reads an environment from its lowercase name; anything unrecognised
/// falls back to production.
pub fn environment_from_name(name: &str) -> (r: Environment)
    ensures
        r == (if name@ == "development"@ {
            Environment::Development
        } else if name@ == "staging"@ {
            Environment::Staging
        } else {
            Environment::Production
        }),
{
    let dev: &str = "development";
    let stg: &str = "staging";
    if crate::env_config::str_equal(name, dev) {
        Environment::Development
    } else if crate::env_config::str_equal(name, stg) {
        Environment::Staging
    } else {
        Environment::Production
    }
}

/// Whether two text slices spell the same characters.
pub fn str_equal(a: &str, b: &str) -> (r: bool)
    ensures
        r == (a@ == b@),
{
    let sa: String = a.to_owned();
    let sb: String = b.to_owned();
    sa.eq(&sb)
}

/// The resolved service settings.
#[derive(Clone, Debug)]
pub struct EnvVars {
    pub mongodb_uri: String,
    pub sentry_dsn: Option<String>,
    /// Grace window for pending moderations, in seconds.
    pub moderation_length_in_s: u64,
    /// Auto-approval cutoff for the suspicion score, in millionths.
    pub moderation_threshold_millionths: u64,
    pub environment: Environment,
    /// Wall-clock ceiling on the pipeline, in seconds, when positive.
    pub timeout_secs: Option<u64>,
}

impl EnvVars {
    /// Resolves the settings from parsed raw values: absent values take
    /// their defaults, and a timeout is honoured only when positive.
    pub fn from_settings(
        mongodb_uri: String,
        sentry_dsn: Option<String>,
        moderation_length_in_s: Option<u64>,
        moderation_threshold_millionths: Option<u64>,
        environment: Environment,
        timeout_secs: Option<u64>,
    ) -> (r: EnvVars)
        requires
            mongodb_uri@.len() > 0,
        ensures
            r.mongodb_uri == mongodb_uri,
            r.sentry_dsn == sentry_dsn,
            r.moderation_length_in_s == (match moderation_length_in_s {
                Some(v) => v,
                None => DEFAULT_MODERATION_LENGTH_IN_S,
            }),
            r.moderation_threshold_millionths == (match moderation_threshold_millionths {
                Some(v) => v,
                None => DEFAULT_MODERATION_THRESHOLD_MILLIONTHS,
            }),
            r.environment == environment,
            r.timeout_secs == (match timeout_secs {
                Some(v) => if v > 0 {
                    Some(v)
                } else {
                    None::<u64>
                },
                None => None::<u64>,
            }),
    {
        EnvVars {
            mongodb_uri,
            sentry_dsn,
            moderation_length_in_s: match moderation_length_in_s {
                Some(v) => v,
                None => DEFAULT_MODERATION_LENGTH_IN_S,
            },
            moderation_threshold_millionths: match moderation_threshold_millionths {
                Some(v) => v,
                None => DEFAULT_MODERATION_THRESHOLD_MILLIONTHS,
            },
            environment,
            timeout_secs: match timeout_secs {
                Some(v) => if v > 0 {
                    Some(v)
                } else {
                    None
                },
                None => None,
            },
        }
    }
}

} // verus!
