//! Process configuration of the webhook, from environment values.
use vstd::prelude::*;
use crate::text::{trim, trim_str};

verus! {

/// Fully qualified dummy image references, from `STUBBY_IMAGE_BACKEND` and
/// `STUBBY_IMAGE_FRONTEND`.
#[derive(Debug, Clone, PartialEq, Eq)]
pub struct ImageRefs {
    pub backend: String,
    pub frontend: String,
}

/// Why a required environment variable was refused.
#[derive(Debug, Clone, PartialEq, Eq)]
pub enum EnvError {
    /// The variable is not set (or not Unicode).
    Missing(String),
    /// The variable holds only white space.
    Blank(String),
}

/// The outcome for one required variable: its trimmed value, or an error
/// naming the variable.
pub open spec fn required_outcome(key: Seq<char>, raw: Option<Seq<char>>) -> Result<Seq<char>, (bool, Seq<char>)> {
    match raw {
        None => Err((true, key)),
        Some(v) => if trim(v).len() == 0 {
            Err((false, key))
        } else {
            Ok(trim(v))
        },
    }
}

pub open spec fn env_error_view(e: EnvError) -> (bool, Seq<char>) {
    match e {
        EnvError::Missing(k) => (true, k@),
        EnvError::Blank(k) => (false, k@),
    }
}

pub open spec fn result_view(r: Result<String, EnvError>) -> Result<Seq<char>, (bool, Seq<char>)> {
    match r {
        Ok(s) => Ok(s@),
        Err(e) => Err(env_error_view(e)),
    }
}

/// Checks one required variable: set, and not blank once trimmed.
pub fn required_env(key: &str, raw: Option<String>) -> (r: Result<String, EnvError>)
    ensures
        result_view(r) == required_outcome(key@, match raw {
            Some(s) => Some(s@),
            None => None,
        }),
{
    match raw {
        None => Err(EnvError::Missing(crate::text::from_chars(crate::text::to_chars(key).as_slice()))),
        Some(v) => {
            let t = trim_str(v.as_str());
            if t.unicode_len() == 0 {
                Err(EnvError::Blank(crate::text::from_chars(crate::text::to_chars(key).as_slice())))
            } else {
                Ok(t)
            }
        },
    }
}

impl ImageRefs {
    /// Builds the image references from the values of `STUBBY_IMAGE_BACKEND`
    /// and `STUBBY_IMAGE_FRONTEND` (`None` when unset). Both are required and
    /// must be non-blank; each is trimmed. The backend is checked first.
    pub fn from_env(backend: Option<String>, frontend: Option<String>) -> (r: Result<ImageRefs, EnvError>)
        ensures
            match (
                required_outcome("STUBBY_IMAGE_BACKEND"@, opt_view(backend)),
                required_outcome("STUBBY_IMAGE_FRONTEND"@, opt_view(frontend)),
            ) {
                (Err(e), _) => r matches Err(x) && env_error_view(x) == e,
                (Ok(_), Err(e)) => r matches Err(x) && env_error_view(x) == e,
                (Ok(b), Ok(f)) => r matches Ok(refs) && refs.backend@ == b && refs.frontend@ == f,
            },
    {
        let b = required_env("STUBBY_IMAGE_BACKEND", backend);
        let b = match b {
            Ok(v) => v,
            Err(e) => return Err(e),
        };
        let f = required_env("STUBBY_IMAGE_FRONTEND", frontend);
        let f = match f {
            Ok(v) => v,
            Err(e) => return Err(e),
        };
        Ok(ImageRefs { backend: b, frontend: f })
    }
}

pub open spec fn opt_view(o: Option<String>) -> Option<Seq<char>> {
    match o {
        Some(s) => Some(s@),
        None => None,
    }
}

} // verus!
