use vstd::prelude::*;

use crate::iso::digit_char;
use crate::iso::push_digit;
use vstd::string::StringExecFns;

verus! {

/// The decimal rendering of `v`, without leading zeros.
pub open spec fn dec_chars(v: nat) -> Seq<char>
    decreases v,
{
    if v < 10 {
        seq![digit_char(v as int)]
    } else {
        dec_chars(v / 10) + seq![digit_char(v as int % 10)]
    }
}

/// Appends the decimal rendering of `v`, without leading zeros.
fn append_decimal(out: &mut String, v: u64)
    ensures
        final(out)@ == old(out)@ + dec_chars(v as nat),
    decreases v,
{
    if v < 10 {
        push_digit(out, v);
    } else {
        append_decimal(out, v / 10);
        proof {
            vstd::arithmetic::div_mod::lemma_fundamental_div_mod(v as int, 10);
        }
        push_digit(out, v % 10);
        proof {
            assert(final(out)@ =~= old(out)@ + dec_chars(v as nat));
        }
    }
}

/// The closed set of failures that identifier operations can report.
///
/// Every fallible operation of this crate returns one of these values;
/// no operation panics on malformed input.
#[derive(Debug, Clone, Copy, PartialEq, Eq)]
pub enum MicroShardError {
    /// A shard id outside the representable range. Unreachable with a native
    /// 32-bit shard id; kept for symmetry with narrower future shard spaces.
    InvalidShardId(u32),
    /// A requested or derived microsecond timestamp above the 54-bit limit.
    TimeOverflow,
    /// A textual timestamp that fails the structural or calendar checks.
    InvalidIsoFormat,
    /// The wall clock reported a time before the Unix epoch.
    SystemTimeError,
    /// An imported raw value whose version field is not 8; carries the
    /// observed version.
    InvalidVersion(u8),
    /// An imported raw value whose variant field is not 2; carries the
    /// observed variant.
    InvalidVariant(u8),
}

impl MicroShardError {
    /// A human-readable description of the failure.
    pub fn message(&self) -> (r: String)
        ensures
            ({
                match *self {
                    MicroShardError::InvalidShardId(id) => r@ == "Shard ID must be between 0 and "@
                        + dec_chars(id as nat),
                    MicroShardError::TimeOverflow => r@ == "Time overflow (Year > 2541)"@,
                    MicroShardError::InvalidIsoFormat => r@ == "Invalid ISO 8601 timestamp format"@,
                    MicroShardError::SystemTimeError => r@ == "System time went backwards"@,
                    MicroShardError::InvalidVersion(v) => r@ == "Invalid UUID Version: "@
                        + dec_chars(v as nat) + ", expected 8"@,
                    MicroShardError::InvalidVariant(v) => r@ == "Invalid UUID Variant: "@
                        + dec_chars(v as nat) + ", expected 2"@,
                }
            }),
    {
        match self {
            MicroShardError::InvalidShardId(id) => {
                let mut s = String::from_str("Shard ID must be between 0 and ");
                append_decimal(&mut s, *id as u64);
                s
            },
            MicroShardError::TimeOverflow => String::from_str("Time overflow (Year > 2541)"),
            MicroShardError::InvalidIsoFormat => String::from_str(
                "Invalid ISO 8601 timestamp format",
            ),
            MicroShardError::SystemTimeError => String::from_str("System time went backwards"),
            MicroShardError::InvalidVersion(v) => {
                let mut s = String::from_str("Invalid UUID Version: ");
                append_decimal(&mut s, *v as u64);
                s.append(", expected 8");
                s
            },
            MicroShardError::InvalidVariant(v) => {
                let mut s = String::from_str("Invalid UUID Variant: ");
                append_decimal(&mut s, *v as u64);
                s.append(", expected 2");
                s
            },
        }
    }
}

} // verus!
