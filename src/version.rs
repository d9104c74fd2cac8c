//! Splitting a version of the shape `major.minor` into its two parts.
use vstd::prelude::*;
use vstd::string::*;

use crate::error::LicenseError;

verus! {

#[verifier::external_type_specification]
#[verifier::external_body]
pub struct ExRegex(regex::Regex);

#[verifier::external_type_specification]
#[verifier::external_body]
pub struct ExRegexError(regex::Error);

/// The shape that a version must have: digits, one dot, digits.
pub const VERSION_PATTERN: &'static str = "^\\d+\\.\\d+$";

/// A compiled regular expression together with the text it was compiled from.
pub struct Pattern {
    source: String,
    regex: regex::Regex,
}

impl Pattern {
    /// The text the pattern was compiled from.
    pub closed spec fn source(&self) -> Seq<char> {
        self.source@
    }
}

/// Whether the regular expression written `pattern` matches somewhere in `haystack`.
pub uninterp spec fn regex_is_match(pattern: Seq<char>, haystack: Seq<char>) -> bool;

/// Whether the regular expression written `pattern` compiles with the default settings.
pub uninterp spec fn regex_compiles(pattern: Seq<char>) -> bool;

/// Relies on `regex::Regex::new`: compiles `source` with the default settings,
/// or returns the error that says why it cannot; which of the two happens
/// depends on the text of `source` alone.
#[verifier::external_body]
fn compile_pattern(source: String) -> (r: Result<Pattern, regex::Error>)
    ensures
        r is Ok <==> regex_compiles(source@),
        r matches Ok(p) ==> p.source() == source@,
{
    match regex::Regex::new(&source) {
        Ok(regex) => Ok(Pattern { source, regex }),
        Err(e) => Err(e),
    }
}

/// Relies on `regex::Regex::is_match`: whether the regex compiled from
/// `p.source()` matches somewhere in `haystack`, which depends on those two
/// texts alone (a `Pattern` is only ever built by `compile_pattern`).
#[verifier::external_body]
fn pattern_is_match(p: &Pattern, haystack: &str) -> (r: bool)
    ensures
        r == regex_is_match(p.source(), haystack@),
{
    p.regex.is_match(haystack)
}

/// `major` and `minor` are the parts of `version` before and after its first dot.
pub open spec fn splits_at_first_dot(version: Seq<char>, major: Seq<char>, minor: Seq<char>) -> bool {
    version == major + seq!['.'] + minor && !major.contains('.')
}

/// What splitting `version` returns, where `well_formed` tells whether it has
/// the required shape.
pub open spec fn split_outcome(
    version: Seq<char>,
    well_formed: bool,
    r: Result<(&str, &str), LicenseError>,
) -> bool {
    match r {
        Ok((major, minor)) => well_formed && splits_at_first_dot(version, major@, minor@),
        Err(e) => e == LicenseError::InvalidFormat && !(well_formed && version.contains('.')),
    }
}

/// Splits `version` at its first dot, where `well_formed` says that it has the
/// shape `major.minor`; otherwise reports `InvalidFormat`.
pub fn split_version(version: &str, well_formed: bool) -> (r: Result<(&str, &str), LicenseError>)
    ensures
        split_outcome(version@, well_formed, r),
{
    if !well_formed {
        return Err(LicenseError::InvalidFormat);
    }
    let n = version.unicode_len();
    let mut i: usize = 0;
    while i < n
        invariant
            well_formed,
            i <= n,
            n == version@.len(),
            !version@.take(i as int).contains('.'),
        decreases n - i,
    {
        if version.get_char(i) == '.' {
            let major = version.substring_char(0, i);
            let minor = version.substring_char(i + 1, n);
            assert(major@ =~= version@.take(i as int));
            assert(version@ =~= major@ + seq!['.'] + minor@);
            return Ok((major, minor));
        }
        i = i + 1;
        assert forall|j: int| 0 <= j < i implies version@.take(i as int)[j] != '.' by {
            if j < i - 1 {
                assert(version@.take(i as int)[j] == version@.take((i - 1) as int)[j]);
            }
        }
    }
    assert(version@ =~= version@.take(n as int));
    Err(LicenseError::InvalidFormat)
}

/// Splits a version of the shape `major.minor` into its two parts.
pub fn parse_version(version: &str) -> (r: Result<(&str, &str), LicenseError>)
    ensures
        !regex_compiles(VERSION_PATTERN@) ==> r == Err::<(&str, &str), LicenseError>(
            LicenseError::PatternRejected,
        ),
        regex_compiles(VERSION_PATTERN@) ==> split_outcome(
            version@,
            regex_is_match(VERSION_PATTERN@, version@),
            r,
        ),
{
    let pattern = match compile_pattern(String::from_str(VERSION_PATTERN)) {
        Ok(p) => p,
        Err(_) => {
            return Err(LicenseError::PatternRejected);
        },
    };
    let well_formed = pattern_is_match(&pattern, version);
    split_version(version, well_formed)
}

} // verus!
