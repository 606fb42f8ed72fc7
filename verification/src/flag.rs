//! The publish mode flag: `live`, `record` or `append`, parsed without
//! regard to ASCII case and always lowercase on the wire.

use vstd::prelude::*;
use vstd::string::StrSliceExecFns;

verus! {

/// The publish mode sent with a publish command.
#[derive(Clone, Copy, Debug, PartialEq)]
pub enum RecordFlag {
    Live,
    Record,
    Append,
}

/// An error parsing a publish mode flag.
#[derive(Clone, PartialEq, Debug)]
pub enum Error {
    RecordFlagParse,
}

/// The scalar value of a character with an ASCII uppercase letter folded to
/// its lowercase form.
pub open spec fn lower_scalar(u: u32) -> u32 {
    if 65 <= u <= 90 {
        (u + 32) as u32
    } else {
        u
    }
}

/// The characters match the (lowercase) literal up to ASCII case.
pub open spec fn flag_matches(s: Seq<char>, lit: Seq<char>) -> bool {
    s.len() == lit.len() && (forall|i: int|
        0 <= i < s.len() ==> lower_scalar(#[trigger] (s[i] as u32)) == lit[i] as u32)
}

/// The flag a string denotes: `live`, `record` or `append` up to ASCII
/// case, anything else refused.
pub open spec fn spec_parse_flag(s: Seq<char>) -> Result<RecordFlag, Error> {
    if flag_matches(s, "live"@) {
        Result::Ok(RecordFlag::Live)
    } else if flag_matches(s, "record"@) {
        Result::Ok(RecordFlag::Record)
    } else if flag_matches(s, "append"@) {
        Result::Ok(RecordFlag::Append)
    } else {
        Result::Err(Error::RecordFlagParse)
    }
}

/// The wire spelling of a flag.
pub open spec fn spec_flag_str(f: RecordFlag) -> Seq<char> {
    match f {
        RecordFlag::Live => "live"@,
        RecordFlag::Record => "record"@,
        RecordFlag::Append => "append"@,
    }
}

/// Whether the string matches the lowercase literal up to ASCII case.
#[verifier::loop_isolation(false)]
fn matches_flag_literal(s: &str, lit: &str) -> (r: bool)
    ensures
        r <==> flag_matches(s@, lit@),
{
    let n = s.unicode_len();
    let m = lit.unicode_len();
    if n != m {
        return false;
    }
    let mut i: usize = 0;
    while i < n
        invariant
            i <= n,
            n == s@.len(),
            n == lit@.len(),
            forall|j: int| 0 <= j < i ==> lower_scalar(#[trigger] (s@[j] as u32)) == lit@[j] as u32,
        decreases n - i,
    {
        let c = s.get_char(i) as u32;
        let folded = if c >= 65 && c <= 90 {
            c + 32
        } else {
            c
        };
        if folded != lit.get_char(i) as u32 {
            return false;
        }
        i = i + 1;
    }
    true
}

/// Parses a publish mode flag, ignoring ASCII case.
pub fn parse_record_flag(s: &str) -> (r: Result<RecordFlag, Error>)
    ensures
        r == spec_parse_flag(s@),
{
    if matches_flag_literal(s, "live") {
        Ok(RecordFlag::Live)
    } else if matches_flag_literal(s, "record") {
        Ok(RecordFlag::Record)
    } else if matches_flag_literal(s, "append") {
        Ok(RecordFlag::Append)
    } else {
        Err(Error::RecordFlagParse)
    }
}

impl core::str::FromStr for RecordFlag {
    type Err = Error;

    fn from_str(s: &str) -> Result<RecordFlag, Error> {
        parse_record_flag(s)
    }
}

impl RecordFlag {
    /// The wire spelling of this flag.
    pub fn as_str(&self) -> (r: &'static str)
        ensures
            r@ == spec_flag_str(*self),
    {
        match self {
            RecordFlag::Live => "live",
            RecordFlag::Record => "record",
            RecordFlag::Append => "append",
        }
    }
}

} // verus!
