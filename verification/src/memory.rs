//! Memory-size arguments: `"2048"`, `"512m"`, `"2g"`, case-insensitive.

use vstd::prelude::*;
use vstd::string::*;

use crate::text::{all_digits, chars_of, digits_val, lower_char, parse_u32};

verus! {

/// The default amount of memory, in MiB, handed to an instance when the
/// caller gives none.
pub fn memory_value_coerced(memory: Option<u32>) -> (r: u32)
    ensures
        r == match memory {
            Some(m) => m,
            None => 2048u32,
        },
{
    match memory {
        Some(m) => m,
        None => 2048,
    }
}

/// What a memory string denotes in MiB: a bare number of MiB, a number with
/// an `m` suffix, or a number of GiB with a `g` suffix, the suffix read
/// case-insensitively. `None` where the digits are missing or malformed, or
/// the value does not fit in a `u32`.
pub open spec fn spec_parse_mem(s: Seq<char>) -> Option<int> {
    if s.len() > 0 && lower_char(s.last()) == 'g' {
        let d = s.drop_last();
        if d.len() > 0 && all_digits(d) && digits_val(d) * 1024 <= u32::MAX {
            Some(digits_val(d) * 1024)
        } else {
            None
        }
    } else if s.len() > 0 && lower_char(s.last()) == 'm' {
        let d = s.drop_last();
        if d.len() > 0 && all_digits(d) && digits_val(d) <= u32::MAX {
            Some(digits_val(d))
        } else {
            None
        }
    } else {
        if s.len() > 0 && all_digits(s) && digits_val(s) <= u32::MAX {
            Some(digits_val(s))
        } else {
            None
        }
    }
}

/// Parses a memory-size string into MiB.
pub fn parse_mem(s: &str) -> (r: Result<u32, String>)
    ensures
        match r {
            Ok(v) => spec_parse_mem(s@) == Some(v as int),
            Err(_) => spec_parse_mem(s@) is None,
        },
{
    let cs = chars_of(s);
    if cs.len() == 0 {
        return Err(String::from_str("empty memory value"));
    }
    let last = cs[cs.len() - 1];
    let low = if last >= 'A' && last <= 'Z' {
        (((last as u32) + 32) as u8) as char
    } else {
        last
    };
    proof {
        assert(low == lower_char(s@.last()));
    }
    if low == 'g' || low == 'm' {
        let mut digits = cs;
        let keep = digits.len() - 1;
        digits.truncate(keep);
        proof {
            assert(digits@ =~= s@.drop_last());
        }
        match parse_u32(&digits) {
            Some(v) => {
                if low == 'g' {
                    if v <= u32::MAX / 1024 {
                        Ok(v * 1024)
                    } else {
                        Err(String::from_str("memory value too large"))
                    }
                } else {
                    Ok(v)
                }
            },
            None => Err(String::from_str("invalid memory value")),
        }
    } else {
        match parse_u32(&cs) {
            Some(v) => Ok(v),
            None => Err(String::from_str("invalid memory value")),
        }
    }
}

} // verus!
