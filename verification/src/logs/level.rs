//! The level classifier.

use vstd::prelude::*;
use crate::logs::entry::is_level_name;
use crate::text::{chars_of, mentions, mentions_word};

verus! {

/// The level that a severity text stands for. The keywords are looked for
/// anywhere in the text, without regard to ASCII case, in a fixed order of
/// priority: the first rule that matches decides.
pub open spec fn level_of(text: Seq<char>) -> Seq<char> {
    if mentions(text, "error"@) || mentions(text, "fault"@) {
        "error"@
    } else if mentions(text, "warn"@) {
        "warning"@
    } else if mentions(text, "info"@) || mentions(text, "notice"@) {
        "info"@
    } else if mentions(text, "debug"@) {
        "debug"@
    } else {
        "default"@
    }
}

/// Classifies the characters of a severity text.
pub fn classify_level(text: &Vec<char>) -> (r: &'static str)
    ensures
        r@ == level_of(text@),
        is_level_name(r@),
{
    if mentions_word(text, "error") || mentions_word(text, "fault") {
        "error"
    } else if mentions_word(text, "warn") {
        "warning"
    } else if mentions_word(text, "info") || mentions_word(text, "notice") {
        "info"
    } else if mentions_word(text, "debug") {
        "debug"
    } else {
        "default"
    }
}

/// Classifies a severity text as one of the five levels.
pub fn parse_log_level(level: &str) -> (r: &'static str)
    ensures
        r@ == level_of(level@),
        is_level_name(r@),
{
    let text = chars_of(level);
    classify_level(&text)
}

/// Every text is classified as one of the five levels.
pub proof fn lemma_level_is_one_of_five(text: Seq<char>)
    ensures
        is_level_name(level_of(text)),
{
}

/// The word `default` holds `fault`, so as a severity text it reads as `error`.
pub proof fn lemma_default_reads_as_error()
    ensures
        level_of("default"@) == "error"@,
{
    reveal_strlit("default");
    reveal_strlit("fault");
    let s = "default"@;
    let w = "fault"@;
    assert(s[2] == 'f' && s[3] == 'a' && s[4] == 'u' && s[5] == 'l' && s[6] == 't');
    assert(crate::text::occurs_at(s, 2, w));
}

} // verus!
