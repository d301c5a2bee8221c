//! Kinds of memory.

use crate::text::{chars_of, is_text};
use vstd::prelude::*;

verus! {

/// The kind of a memory.
#[derive(Debug, Clone, Copy, PartialEq, Eq, Structural)]
pub enum MemoryType {
    Conversation,
    CodePattern,
    Decision,
    Preference,
    Fact,
}

impl MemoryType {
    /// The name under which a kind is stored.
    pub open spec fn name(self) -> Seq<char> {
        match self {
            MemoryType::Conversation => "conversation"@,
            MemoryType::CodePattern => "code_pattern"@,
            MemoryType::Decision => "decision"@,
            MemoryType::Preference => "preference"@,
            MemoryType::Fact => "fact"@,
        }
    }

    /// The kind that a stored name stands for; an unknown name stands for a fact.
    pub open spec fn named(s: Seq<char>) -> MemoryType {
        if s == "conversation"@ {
            MemoryType::Conversation
        } else if s == "code_pattern"@ {
            MemoryType::CodePattern
        } else if s == "decision"@ {
            MemoryType::Decision
        } else if s == "preference"@ {
            MemoryType::Preference
        } else {
            MemoryType::Fact
        }
    }

    pub fn as_str(&self) -> (r: &str)
        ensures
            r@ == self.name(),
    {
        match self {
            MemoryType::Conversation => "conversation",
            MemoryType::CodePattern => "code_pattern",
            MemoryType::Decision => "decision",
            MemoryType::Preference => "preference",
            MemoryType::Fact => "fact",
        }
    }

    pub fn from_str(s: &str) -> (r: Self)
        ensures
            r == Self::named(s@),
    {
        let v = chars_of(s);
        if is_text(&v, "conversation") {
            MemoryType::Conversation
        } else if is_text(&v, "code_pattern") {
            MemoryType::CodePattern
        } else if is_text(&v, "decision") {
            MemoryType::Decision
        } else if is_text(&v, "preference") {
            MemoryType::Preference
        } else {
            MemoryType::Fact
        }
    }

    /// A kind is read back from its own name.
    pub proof fn lemma_name_round_trip(self)
        ensures
            Self::named(self.name()) == self,
    {
        reveal_strlit("conversation");
        reveal_strlit("code_pattern");
        reveal_strlit("decision");
        reveal_strlit("preference");
        reveal_strlit("fact");
        match self {
            MemoryType::Conversation => {},
            MemoryType::CodePattern => {
                assert("code_pattern"@[2] != "conversation"@[2]);
            },
            MemoryType::Decision => {
                assert("decision"@.len() != "conversation"@.len());
                assert("decision"@.len() != "code_pattern"@.len());
            },
            MemoryType::Preference => {
                assert("preference"@.len() != "conversation"@.len());
                assert("preference"@.len() != "code_pattern"@.len());
                assert("preference"@.len() != "decision"@.len());
            },
            MemoryType::Fact => {
                assert("fact"@.len() != "conversation"@.len());
                assert("fact"@.len() != "code_pattern"@.len());
                assert("fact"@.len() != "decision"@.len());
                assert("fact"@.len() != "preference"@.len());
            },
        }
    }
}

} // verus!
