//! Process configuration of the auto-rescue controller, from environment values.
use vstd::prelude::*;
use std::time::Duration;
use crate::config::{EnvError, required_env, required_outcome, env_error_view, opt_view};
use crate::text::{to_chars, trim, trim_chars, parse_unsigned, parse_unsigned_chars};

verus! {

/// The dummy images (same variables as the webhook) and the registry re-check interval.
#[derive(Debug)]
pub struct ControllerConfig {
    pub backend_image: String,
    pub frontend_image: String,
    pub check_interval: Duration,
}

/// What `Duration::from_secs` gives for `secs`.
pub uninterp spec fn duration_from_secs(secs: u64) -> Duration;

/// `Duration::from_secs`.
#[verifier::external_body]
fn from_secs(secs: u64) -> (d: Duration)
    ensures
        d == duration_from_secs(secs),
{
    Duration::from_secs(secs)
}

/// The interval in whole seconds: the trimmed value if it parses as a `u64`,
/// else 60.
pub open spec fn interval_secs(raw: Option<Seq<char>>) -> u64 {
    match raw {
        Some(s) => match parse_unsigned(trim(s), u64::MAX as nat) {
            Some(n) => n as u64,
            None => 60,
        },
        None => 60,
    }
}

/// Parses a whole-seconds interval; absent or malformed input gives 60 seconds.
pub fn parse_interval_secs(raw: Option<&str>) -> (d: Duration)
    ensures
        d == duration_from_secs(interval_secs(match raw {
            Some(s) => Some(s@),
            None => None,
        })),
{
    let secs: u64 = match raw {
        Some(s) => {
            let t = trim_chars(to_chars(s).as_slice());
            match parse_unsigned_chars(t.as_slice(), u64::MAX) {
                Some(n) => n,
                None => 60,
            }
        },
        None => 60,
    };
    from_secs(secs)
}

impl ControllerConfig {
    /// Builds the configuration from the values of `STUBBY_IMAGE_BACKEND`,
    /// `STUBBY_IMAGE_FRONTEND` (required, trimmed, non-blank; checked in that
    /// order) and `STUBBY_CHECK_INTERVAL_SECS` (`None` when unset).
    pub fn from_env(backend: Option<String>, frontend: Option<String>, interval: Option<String>) -> (r: Result<ControllerConfig, EnvError>)
        ensures
            match (
                required_outcome("STUBBY_IMAGE_BACKEND"@, opt_view(backend)),
                required_outcome("STUBBY_IMAGE_FRONTEND"@, opt_view(frontend)),
            ) {
                (Err(e), _) => r matches Err(x) && env_error_view(x) == e,
                (Ok(_), Err(e)) => r matches Err(x) && env_error_view(x) == e,
                (Ok(b), Ok(f)) => r matches Ok(c) && c.backend_image@ == b && c.frontend_image@ == f
                    && c.check_interval == duration_from_secs(interval_secs(opt_view(interval))),
            },
    {
        let b = match required_env("STUBBY_IMAGE_BACKEND", backend) {
            Ok(v) => v,
            Err(e) => return Err(e),
        };
        let f = match required_env("STUBBY_IMAGE_FRONTEND", frontend) {
            Ok(v) => v,
            Err(e) => return Err(e),
        };
        let check_interval = match &interval {
            Some(s) => parse_interval_secs(Some(s.as_str())),
            None => parse_interval_secs(None),
        };
        Ok(ControllerConfig { backend_image: b, frontend_image: f, check_interval })
    }
}

} // verus!
