//! Reading a yes/no reply. The accepted phrasings are regular expressions
//! handed in by the caller; the defaults are Spanish and English.
use vstd::prelude::*;

verus! {

/// The phrasings of "yes": tried first, anywhere in the reply.
pub const YES_PATTERN: &'static str = "si|SI|Si|Sí|S|s|y|yes|YES";

/// The phrasings of "no": tried when no "yes" phrasing matched.
pub const NO_PATTERN: &'static str = "no|NO|No|n";

#[verifier::external_type_specification]
#[verifier::external_body]
pub struct ExRegexError(regex::Error);

/// Whether the regular expression matches somewhere in the text.
pub uninterp spec fn regex_finds(pattern: Seq<char>, text: Seq<char>) -> bool;

/// Relies on regex::Regex::new, which compiles the pattern or reports that it
/// cannot (an invalid pattern, or one over a size limit that depends on the
/// machine), and on regex::Regex::is_match,
/// which tells whether the compiled pattern matches anywhere in the text.
#[verifier::external_body]
fn pattern_matches(pattern: &str, text: &str) -> (r: Result<bool, regex::Error>)
    ensures
        r matches Ok(found) ==> found == regex_finds(pattern@, text@),
{
    match regex::Regex::new(pattern) {
        Ok(re) => Ok(re.is_match(text)),
        Err(e) => Err(e),
    }
}

/// How a reply reads.
#[derive(Debug, Clone, Copy, PartialEq, Eq, Structural)]
pub enum Answer {
    Yes,
    No,
    Unrecognized,
}

/// A pattern that is not a valid regular expression.
#[derive(Debug, Clone, Copy, PartialEq, Eq, Structural)]
pub enum AnswerError {
    InvalidPattern,
}

/// The reading of a reply from whether each phrasing matched it: "yes" wins
/// over "no", and a reply that neither matches asks for another try.
pub open spec fn answer_of(yes: bool, no: bool) -> Answer {
    if yes {
        Answer::Yes
    } else if no {
        Answer::No
    } else {
        Answer::Unrecognized
    }
}

/// Reads a reply from whether each phrasing matched it.
pub fn answer_from_matches(yes: bool, no: bool) -> (r: Answer)
    ensures
        r == answer_of(yes, no),
{
    if yes {
        Answer::Yes
    } else if no {
        Answer::No
    } else {
        Answer::Unrecognized
    }
}

/// Reads a reply with the given phrasings of "yes" and "no". The "no"
/// phrasing is consulted only when "yes" does not match. A phrasing that the
/// regex crate cannot compile gives an error.
pub fn classify_answer(raw: &str, yes_pattern: &str, no_pattern: &str) -> (r: Result<
    Answer,
    AnswerError,
>)
    ensures
        r matches Ok(a) ==> a == answer_of(
            regex_finds(yes_pattern@, raw@),
            regex_finds(no_pattern@, raw@),
        ),
        r matches Ok(a) ==> (a == Answer::Yes <==> regex_finds(yes_pattern@, raw@)),
{
    let yes = match pattern_matches(yes_pattern, raw) {
        Ok(found) => found,
        Err(_) => {
            return Err(AnswerError::InvalidPattern);
        },
    };
    if yes {
        return Ok(answer_from_matches(true, false));
    }
    let no = match pattern_matches(no_pattern, raw) {
        Ok(found) => found,
        Err(_) => {
            return Err(AnswerError::InvalidPattern);
        },
    };
    Ok(answer_from_matches(yes, no))
}

} // verus!
