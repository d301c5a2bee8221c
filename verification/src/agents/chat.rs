//! What a chat message tells about the preferences of its author.

use crate::text::{chars_of, contains, contains_str, lowercase};
use vstd::prelude::*;

verus! {

/// The phrases by which a message states a preference, in the order in
/// which they are looked for.
pub open spec fn preference_phrases() -> Seq<Seq<char>> {
    seq!["prefer"@, "always use"@, "i like"@, "don't like"@, "never use"@, "my style"@]
}

/// Position of the first phrase, from `from` on, that a lowercase message
/// holds.
pub open spec fn first_phrase_from(low: Seq<char>, from: int) -> Option<int>
    decreases preference_phrases().len() - from,
{
    if from < 0 || from >= preference_phrases().len() {
        None
    } else if contains(low, preference_phrases()[from]) {
        Some(from)
    } else {
        first_phrase_from(low, from + 1)
    }
}

/// The phrase by which a message states a preference: the first that the
/// message holds, case not regarded.
pub open spec fn stated_preference(message: Seq<char>) -> Option<int> {
    first_phrase_from(lowercase(message), 0)
}

/// The phrases by which a message states a preference.
pub fn preference_keywords() -> (r: Vec<&'static str>)
    ensures
        r@.len() == 6,
        r@.map_values(|s: &'static str| s@) == preference_phrases(),
{
    let r: Vec<&'static str> = vec![
        "prefer",
        "always use",
        "i like",
        "don't like",
        "never use",
        "my style",
    ];
    assert(r@.map_values(|s: &'static str| s@) =~= preference_phrases());
    r
}

/// Finds the phrase by which a lowercase message states a preference.
pub fn find_preference(lowercase_message: &str) -> (r: Option<usize>)
    ensures
        match r {
            Some(i) => first_phrase_from(lowercase_message@, 0) == Some(i as int) && i < 6,
            None => first_phrase_from(lowercase_message@, 0) is None,
        },
{
    let low = chars_of(lowercase_message);
    let phrases = preference_keywords();
    let mut i: usize = 0;
    while i < phrases.len()
        invariant
            i <= phrases.len() == 6,
            low@ == lowercase_message@,
            phrases@.map_values(|s: &'static str| s@) == preference_phrases(),
            first_phrase_from(low@, 0) == first_phrase_from(low@, i as int),
        decreases phrases.len() - i,
    {
        assert(phrases@.map_values(|s: &'static str| s@)[i as int] == phrases@[i as int]@);
        if contains_str(&low, phrases[i]) {
            return Some(i);
        }
        i += 1;
    }
    None
}

/// Finds the phrase by which a message states a preference, if it states
/// one.
pub fn detect_preference(message: &str) -> (r: Option<usize>)
    ensures
        match r {
            Some(i) => stated_preference(message@) == Some(i as int) && i < 6,
            None => stated_preference(message@) is None,
        },
{
    let low = message.to_lowercase();
    find_preference(low.as_str())
}

} // verus!
