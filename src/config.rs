//! Configuration values the library owns: estimate scaling, the names of the
//! dataplane's table functions, the socket path and the log level.
use std::num::ParseIntError;

use vstd::prelude::*;

use crate::report::{digits_value, is_usize_text, parse_usize, unsigned_digits};

verus! {

/// Factors by which rule and tbl8 estimates may be scaled; both positive.
#[derive(Debug, Clone, Copy, PartialEq, Eq)]
pub struct EstimateConfig {
    pub rules_scaling_factor: usize,
    pub tbl8s_scaling_factor: usize,
}

/// The names of a family's dataplane functions: the one that builds an LPM
/// table and the one that reports its capacity.
#[derive(Debug)]
pub struct LuaFunctions {
    pub lpm_table_constructor: String,
    pub lpm_get_params_function: String,
}

/// Why a scaling factor was refused.
#[derive(Debug)]
pub enum ScalingFactorError {
    /// The factor is zero.
    NotPositive,
    /// The text is not an unsigned number that fits a `usize`.
    Invalid(ParseIntError),
}

/// Severity threshold of the log.
#[derive(Debug, Clone, Copy, PartialEq, Eq, Structural)]
pub enum LogLevel {
    Error,
    Warn,
    Info,
    Debug,
    Trace,
}

/// The socket the dataplane listens on unless configured otherwise.
pub fn default_socket_path() -> (r: String)
    ensures
        r@ == "/var/run/gatekeeper/dyn_cfg.socket"@,
{
    String::from_str("/var/run/gatekeeper/dyn_cfg.socket")
}

/// The log level unless configured otherwise.
pub fn default_log_level() -> (r: LogLevel)
    ensures
        r == LogLevel::Info,
{
    LogLevel::Info
}

/// The scaling factor unless configured otherwise.
pub fn default_scaling_factor() -> (r: usize)
    ensures
        r == 1,
{
    1
}

/// Estimates left unscaled.
pub fn default_estimate_config() -> (r: EstimateConfig)
    ensures
        r.rules_scaling_factor == 1,
        r.tbl8s_scaling_factor == 1,
{
    EstimateConfig {
        rules_scaling_factor: default_scaling_factor(),
        tbl8s_scaling_factor: default_scaling_factor(),
    }
}

/// Reads a scaling factor: an unsigned number, which must be positive.
pub fn parse_scaling_factor(s: &str) -> (r: Result<usize, ScalingFactorError>)
    ensures
        r is Ok <==> is_usize_text(s@) && digits_value(unsigned_digits(s@)) > 0,
        r matches Ok(n) ==> n == digits_value(unsigned_digits(s@)),
        r matches Err(ScalingFactorError::NotPositive) ==> is_usize_text(s@) && digits_value(
            unsigned_digits(s@),
        ) == 0,
        r matches Err(ScalingFactorError::Invalid(_)) ==> !is_usize_text(s@),
{
    match parse_usize(s) {
        Ok(0) => Err(ScalingFactorError::NotPositive),
        Ok(n) => Ok(n),
        Err(e) => Err(ScalingFactorError::Invalid(e)),
    }
}

/// The ASCII lower case of a character; others are kept.
pub open spec fn ascii_lower(c: char) -> char {
    if 'A' <= c && c <= 'Z' {
        ((c as u32) + 32) as char
    } else {
        c
    }
}

/// Whether two texts are equal when ASCII letters are compared without case.
pub open spec fn eq_ignore_ascii_case(a: Seq<char>, b: Seq<char>) -> bool {
    a.len() == b.len() && forall|i: int| 0 <= i < a.len() ==> ascii_lower(#[trigger] a[i])
        == ascii_lower(b[i])
}

/// The name of a log level, in capitals.
pub open spec fn level_name(l: LogLevel) -> Seq<char> {
    match l {
        LogLevel::Error => seq!['E', 'R', 'R', 'O', 'R'],
        LogLevel::Warn => seq!['W', 'A', 'R', 'N'],
        LogLevel::Info => seq!['I', 'N', 'F', 'O'],
        LogLevel::Debug => seq!['D', 'E', 'B', 'U', 'G'],
        LogLevel::Trace => seq!['T', 'R', 'A', 'C', 'E'],
    }
}

/// Relies on `log::Level`'s `FromStr`: the level whose name equals the text
/// up to ASCII case, if any.
#[verifier::external_body]
fn level_from_str(s: &str) -> (r: Option<LogLevel>)
    ensures
        r matches Some(l) ==> eq_ignore_ascii_case(s@, level_name(l)),
        r is None ==> forall|l: LogLevel| !eq_ignore_ascii_case(s@, #[trigger] level_name(l)),
{
    match s.parse::<log::Level>() {
        Ok(log::Level::Error) => Some(LogLevel::Error),
        Ok(log::Level::Warn) => Some(LogLevel::Warn),
        Ok(log::Level::Info) => Some(LogLevel::Info),
        Ok(log::Level::Debug) => Some(LogLevel::Debug),
        Ok(log::Level::Trace) => Some(LogLevel::Trace),
        Err(_) => None,
    }
}

/// Reads a log level by name, without regard to ASCII case.
pub fn parse_log_level(s: &str) -> (r: Option<LogLevel>)
    ensures
        r matches Some(l) ==> eq_ignore_ascii_case(s@, level_name(l)),
        r is None ==> forall|l: LogLevel| !eq_ignore_ascii_case(s@, #[trigger] level_name(l)),
{
    level_from_str(s)
}

} // verus!
