//! Configuration resolution: command-line values override environment
//! values, which override the defaults, and the two limits are clamped to
//! their hard ceilings.

use vstd::prelude::*;
use crate::store::Limits;

verus! {

/// Hard ceiling (and default) for `max_body_bytes`.
pub const MAX_BODY_BYTES_CEILING: usize = 1024 * 1024;

/// Hard ceiling (and default) for `max_queue_depth`.
pub const MAX_QUEUE_DEPTH_CEILING: usize = 256;

/// Default listen port.
pub const DEFAULT_PORT: u16 = 8080;

/// The values the caller decoded from the command line; `None` where a flag
/// was not given.
pub struct Cli {
    pub bind: Option<String>,
    pub port: Option<u16>,
    pub max_body_bytes: Option<usize>,
    pub max_queue_depth: Option<usize>,
}

/// The values the caller decoded from the environment; `None` where a
/// variable was unset or unparsable.
pub struct EnvVals {
    pub port: Option<u16>,
    pub max_body_bytes: Option<usize>,
    pub max_queue_depth: Option<usize>,
}

/// The resolved configuration.
pub struct Config {
    pub bind: String,
    pub port: u16,
    pub limits: Limits,
}

/// The first value present: the command-line one, else the environment one,
/// else the default.
pub open spec fn pick_usize(cli: Option<usize>, env: Option<usize>, dflt: usize) -> usize {
    match cli {
        Some(v) => v,
        None => match env {
            Some(v) => v,
            None => dflt,
        },
    }
}

/// The first value present: the command-line one, else the environment one,
/// else the default.
pub open spec fn pick_u16(cli: Option<u16>, env: Option<u16>, dflt: u16) -> u16 {
    match cli {
        Some(v) => v,
        None => match env {
            Some(v) => v,
            None => dflt,
        },
    }
}

/// `v` clamped from above to `ceiling`.
pub open spec fn clamped(v: usize, ceiling: usize) -> usize {
    if v <= ceiling {
        v
    } else {
        ceiling
    }
}

/// Resolves the configuration: for each value the command line wins over the
/// environment, which wins over the default; both limits are clamped to
/// their ceilings (whose values double as the defaults).
pub fn resolve_config(cli: Cli, env: EnvVals) -> (c: Config)
    ensures
        c.bind@ == (match cli.bind {
            Some(b) => b@,
            None => "0.0.0.0"@,
        }),
        c.port == pick_u16(cli.port, env.port, DEFAULT_PORT),
        c.limits.max_body_bytes == clamped(
            pick_usize(cli.max_body_bytes, env.max_body_bytes, MAX_BODY_BYTES_CEILING),
            MAX_BODY_BYTES_CEILING,
        ),
        c.limits.max_queue_depth == clamped(
            pick_usize(cli.max_queue_depth, env.max_queue_depth, MAX_QUEUE_DEPTH_CEILING),
            MAX_QUEUE_DEPTH_CEILING,
        ),
{
    let bind: String = match cli.bind {
        Some(b) => b,
        None => "0.0.0.0".to_owned(),
    };
    let port: u16 = match cli.port {
        Some(p) => p,
        None => match env.port {
            Some(p) => p,
            None => DEFAULT_PORT,
        },
    };
    let raw_body: usize = match cli.max_body_bytes {
        Some(v) => v,
        None => match env.max_body_bytes {
            Some(v) => v,
            None => MAX_BODY_BYTES_CEILING,
        },
    };
    let raw_depth: usize = match cli.max_queue_depth {
        Some(v) => v,
        None => match env.max_queue_depth {
            Some(v) => v,
            None => MAX_QUEUE_DEPTH_CEILING,
        },
    };
    let max_body_bytes: usize = if raw_body <= MAX_BODY_BYTES_CEILING {
        raw_body
    } else {
        MAX_BODY_BYTES_CEILING
    };
    let max_queue_depth: usize = if raw_depth <= MAX_QUEUE_DEPTH_CEILING {
        raw_depth
    } else {
        MAX_QUEUE_DEPTH_CEILING
    };
    Config { bind, port, limits: Limits { max_body_bytes, max_queue_depth } }
}

impl Limits {
    /// The limits with each absent value replaced by its default
    /// (the same values as the ceilings).
    pub fn with_defaults(max_body_bytes: Option<usize>, max_queue_depth: Option<usize>) -> (l:
        Limits)
        ensures
            l.max_body_bytes == pick_usize(max_body_bytes, None, MAX_BODY_BYTES_CEILING),
            l.max_queue_depth == pick_usize(max_queue_depth, None, MAX_QUEUE_DEPTH_CEILING),
    {
        let max_body_bytes: usize = match max_body_bytes {
            Some(v) => v,
            None => MAX_BODY_BYTES_CEILING,
        };
        let max_queue_depth: usize = match max_queue_depth {
            Some(v) => v,
            None => MAX_QUEUE_DEPTH_CEILING,
        };
        Limits { max_body_bytes, max_queue_depth }
    }
}

} // verus!
