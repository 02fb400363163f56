//! The command line: a subtitle file and a signed number of seconds.
use crate::cue::sub_chars;
use crate::text::{all_digits, chars_of, digits_value, parse_u64, u64_of, unsigned_digits};
use vstd::prelude::*;

verus! {

/// Why a command line is refused.
#[derive(Clone, Copy, Debug, PartialEq, Eq, Structural)]
pub enum CliError {
    /// Not exactly a file and an offset were given.
    InvalidArgumentCount,
    /// The offset is not a signed decimal integer.
    InvalidOffsetFormat,
}

/// The `i64` that `s` spells in decimal, as `i64::from_str` reads it: an
/// optional `+` or `-`, then one or more digits, with a value that fits.
pub open spec fn i64_of(s: Seq<char>) -> Option<i64> {
    if s.len() > 0 && s[0] == '-' {
        let d = s.drop_first();
        if d.len() > 0 && all_digits(d) && digits_value(d) <= 0x8000_0000_0000_0000 {
            Some((-(digits_value(d) as int)) as i64)
        } else {
            None
        }
    } else if u64_of(s) is Some && u64_of(s)->0 <= i64::MAX {
        Some(u64_of(s)->0 as i64)
    } else {
        None
    }
}

/// Reads a signed number of seconds.
pub fn parse_offset(text: &str) -> (r: Option<i64>)
    ensures
        r == i64_of(text@),
{
    let s = chars_of(text);
    if s.len() > 0 && s[0] == '-' {
        let rest = sub_chars(&s, 1, s.len());
        assert(rest@ =~= s@.drop_first());
        if rest.len() > 0 && rest[0] == '+' {
            return None;
        }
        assert(unsigned_digits(rest@) == rest@);
        match parse_u64(&rest) {
            Some(v) => {
                if v < 0x8000_0000_0000_0000 {
                    Some(-(v as i64))
                } else if v == 0x8000_0000_0000_0000 {
                    Some(i64::MIN)
                } else {
                    None
                }
            },
            None => None,
        }
    } else {
        match parse_u64(&s) {
            Some(v) => {
                if v <= i64::MAX as u64 {
                    Some(v as i64)
                } else {
                    None
                }
            },
            None => None,
        }
    }
}

/// Reads the command line that follows the program's name: the path of a
/// subtitle file and a signed offset in seconds.
pub fn parse_arguments(args: &Vec<String>) -> (r: Result<(String, i64), CliError>)
    ensures
        args@.len() != 2 <==> r == Err::<(String, i64), CliError>(CliError::InvalidArgumentCount),
        (args@.len() == 2 && i64_of(args@[1]@) is None) <==> r == Err::<(String, i64), CliError>(
            CliError::InvalidOffsetFormat,
        ),
        r matches Ok((path, secs)) ==> path@ == args@[0]@ && i64_of(args@[1]@) == Some(secs),
{
    if args.len() != 2 {
        return Err(CliError::InvalidArgumentCount);
    }
    match parse_offset(args[1].as_str()) {
        Some(secs) => Ok((args[0].clone(), secs)),
        None => Err(CliError::InvalidOffsetFormat),
    }
}

} // verus!
