//! The texts a report shows for statuses and group headers, styled through
//! the `colored` crate.
//!
//! Whether `colored` adds escape codes depends on the terminal and on the
//! environment, so the trusted contracts state only what holds of every
//! outcome: the styled text embeds the given text, unchanged, between some
//! (possibly empty) prefix and suffix.

use vstd::prelude::*;
use vstd::string::*;
use colored::Colorize;
use crate::status::Status;

verus! {

/// `outer` is `inner` between some (possibly empty) prefix and suffix.
pub open spec fn wraps(inner: Seq<char>, outer: Seq<char>) -> bool {
    exists|pre: Seq<char>, post: Seq<char>| outer == pre + inner + post
}

/// The text holds no escape character; `colored` then passes it through
/// unchanged between its own codes.
pub open spec fn no_escape(s: Seq<char>) -> bool {
    forall|i: int| 0 <= i < s.len() ==> s[i] != '\u{1b}'
}

/// Relies on colored::Colorize::green and ColoredString's Display: a text
/// without inner escape codes is written either plain or between a style
/// prefix and a reset suffix.
#[verifier::external_body]
fn green_text(s: &str) -> (r: String)
    requires
        no_escape(s@),
    ensures
        wraps(s@, r@),
{
    s.green().to_string()
}

/// Relies on colored::Colorize::red, as `green_text` does on green.
#[verifier::external_body]
fn red_text(s: &str) -> (r: String)
    requires
        no_escape(s@),
    ensures
        wraps(s@, r@),
{
    s.red().to_string()
}

/// Relies on colored::Colorize::yellow, as `green_text` does on green.
#[verifier::external_body]
fn yellow_text(s: &str) -> (r: String)
    requires
        no_escape(s@),
    ensures
        wraps(s@, r@),
{
    s.yellow().to_string()
}

/// Relies on colored::Colorize::bold, as `green_text` does on green.
#[verifier::external_body]
fn bold_text(s: &str) -> (r: String)
    requires
        no_escape(s@),
    ensures
        wraps(s@, r@),
{
    s.bold().to_string()
}

/// The texts a report shows: one per status value (and one for an absent
/// status), and one header per group.
pub struct RenderTexts {
    pub pass: String,
    pub fail: String,
    pub skip: String,
    pub unknown: String,
    pub skip_header: String,
    pub pass_header: String,
    pub fail_header: String,
}

/// Which text of the set stands for a given, possibly absent, status.
pub open spec fn text_for(t: RenderTexts, status: Option<Status>) -> Seq<char> {
    match status {
        Option::Some(Status::PASS) => t.pass@,
        Option::Some(Status::FAIL) => t.fail@,
        Option::Some(Status::SKIP) => t.skip@,
        Option::None => t.unknown@,
    }
}

/// The text of the set that stands for the given status.
pub fn text_ref(t: &RenderTexts, status: Option<Status>) -> (r: &String)
    ensures
        r@ == text_for(*t, status),
{
    match status {
        Option::Some(Status::PASS) => &t.pass,
        Option::Some(Status::FAIL) => &t.fail,
        Option::Some(Status::SKIP) => &t.skip,
        Option::None => &t.unknown,
    }
}

/// The default texts: each status word styled in its color, each group
/// header in bold, an absent status shown as a plain word.
pub open spec fn styled(t: RenderTexts) -> bool {
    &&& wraps("PASS"@, t.pass@)
    &&& wraps("FAIL"@, t.fail@)
    &&& wraps("SKIP"@, t.skip@)
    &&& t.unknown@ == "unknown"@
    &&& wraps("SKIP rules"@, t.skip_header@)
    &&& wraps("PASS rules"@, t.pass_header@)
    &&& wraps("FAILED rules"@, t.fail_header@)
}

/// Builds the default texts through `colored`.
pub fn styled_texts() -> (t: RenderTexts)
    ensures
        styled(t),
{
    proof {
        reveal_strlit("PASS");
        reveal_strlit("FAIL");
        reveal_strlit("SKIP");
        reveal_strlit("SKIP rules");
        reveal_strlit("PASS rules");
        reveal_strlit("FAILED rules");
    }
    RenderTexts {
        pass: green_text("PASS"),
        fail: red_text("FAIL"),
        skip: yellow_text("SKIP"),
        unknown: String::from_str("unknown"),
        skip_header: bold_text("SKIP rules"),
        pass_header: bold_text("PASS rules"),
        fail_header: bold_text("FAILED rules"),
    }
}

} // verus!
