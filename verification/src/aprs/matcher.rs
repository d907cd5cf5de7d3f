//! The shape of a telemetry line, matched by the `regex` crate.

use vstd::prelude::*;
use crate::text::text_view;

verus! {

/// The pattern of a telemetry line. It asks for a latitude that ends in `N` or
/// `S`, a longitude that ends in `E` or `W`, and a sender of the form `id`,
/// two hexadecimal digits of flags, and an identifier of letters and
/// digits. Between latitude and longitude stand an optional `/` or `\`
/// and one more character, which belongs to neither. Course, speed and
/// altitude are optional as one group; climb rate and turn rate are optional
/// each by itself. Its capture groups are, by index: 1 latitude, 2 longitude,
/// 3 course, 4 speed, 5 altitude, 6 flags, 7 identifier, 8 climb rate,
/// 9 turn rate.
pub const LINE_PATTERN: &'static str =
    r"h(?<latitude>[0-9.]+[NS])[/\\]?.(?<longitude>[0-9.]+[WE]).(?:(?<course>\d{3})/(?<speed>\d{3})/A=(?<altitude>\d+))?.*?id(?<type>[A-Fa-f0-9]{2})(?<id>[A-Za-z0-9]+)(?: (?<verticalSpeed>[-+0-9]+)fpm)?(?: (?<turnRate>[-+.0-9]+)rot)?";

/// `regex::Regex`, a compiled regular expression.
#[verifier::external_type_specification]
#[verifier::external_body]
pub struct ExRegex(regex::Regex);

/// `regex::Error`, why a pattern could not be compiled.
#[verifier::external_type_specification]
#[verifier::external_body]
pub struct ExRegexError(regex::Error);

/// The pattern text that a regex compiled by `regex::Regex::new` was made
/// from, which `regex::Regex::as_str` returns.
pub uninterp spec fn pattern_of(regex: regex::Regex) -> Seq<char>;

/// Whether `regex::Regex::new` compiles `pattern`: it is a pattern of valid
/// syntax whose compiled form stays within the size limit of the crate's
/// default configuration.
pub uninterp spec fn compiles(pattern: Seq<char>) -> bool;

/// What the leftmost match of `pattern` in `haystack` captures: `None` where
/// nothing matches, else the text of each capture group by index, index 0
/// being the whole match, with `None` for a group that took no part in the
/// match.
pub uninterp spec fn captured_groups(pattern: Seq<char>, haystack: Seq<char>) -> Option<
    Seq<Option<Seq<char>>>,
>;

/// The views of the texts of capture groups.
pub open spec fn groups_view(groups: Seq<Option<String>>) -> Seq<Option<Seq<char>>> {
    groups.map_values(|capture: Option<String>| text_view(capture))
}

/// The view of what a search found.
pub open spec fn found_view(found: Option<Vec<Option<String>>>) -> Option<Seq<Option<Seq<char>>>> {
    match found {
        Some(groups) => Some(groups_view(groups@)),
        None => None,
    }
}

/// `regex::Regex::new`: compiles `pattern`. It succeeds exactly on the
/// patterns that compile, and the regex is then one made from that pattern
/// text.
#[verifier::external_body]
fn compile(pattern: &str) -> (compiled: Result<regex::Regex, regex::Error>)
    ensures
        compiled is Ok <==> compiles(pattern@),
        compiled matches Ok(regex) ==> pattern_of(regex) == pattern@,
{
    regex::Regex::new(pattern)
}

/// `regex::Regex::captures`: searches `haystack` for the leftmost match and
/// hands out the text of each capture group, copied out of the haystack.
#[verifier::external_body]
fn search(regex: &regex::Regex, haystack: &str) -> (found: Option<Vec<Option<String>>>)
    ensures
        found_view(found) == captured_groups(pattern_of(*regex), haystack@),
{
    let captures = regex.captures(haystack)?;
    Some(captures.iter().map(|group| group.map(|m| m.as_str().to_string())).collect())
}

/// The line pattern could not be compiled.
#[derive(Clone, Copy, Debug, PartialEq, Eq, Structural)]
pub struct InvalidPattern;

/// The compiled line pattern. It is made once and shared by reference.
pub struct LineMatcher {
    regex: regex::Regex,
}

impl LineMatcher {
    #[verifier::type_invariant]
    spec fn made_from_line_pattern(&self) -> bool {
        pattern_of(self.regex) == LINE_PATTERN@
    }

    /// The pattern text that the matcher was compiled from.
    pub closed spec fn pattern(&self) -> Seq<char> {
        pattern_of(self.regex)
    }

    /// Compiles the line pattern. It succeeds exactly where the `regex` crate
    /// compiles `LINE_PATTERN`, and the matcher is then one compiled from it.
    pub fn create() -> (made: Result<LineMatcher, InvalidPattern>)
        ensures
            made is Ok <==> compiles(LINE_PATTERN@),
            made matches Ok(matcher) ==> matcher.pattern() == LINE_PATTERN@,
    {
        match compile(LINE_PATTERN) {
            Ok(regex) => Ok(LineMatcher { regex }),
            Err(_) => Err(InvalidPattern),
        }
    }

    /// The capture groups of the leftmost match of the line pattern in `line`,
    /// or `None` where the line does not hold a match.
    pub fn captures(&self, line: &str) -> (found: Option<Vec<Option<String>>>)
        ensures
            found_view(found) == captured_groups(LINE_PATTERN@, line@),
    {
        proof {
            use_type_invariant(self);
        }
        search(&self.regex, line)
    }
}

} // verus!
