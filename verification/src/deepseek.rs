//! The models of the remote backend.

use crate::text::{chars_of, is_text, lowercase};
use vstd::prelude::*;

verus! {

/// A model of the remote backend.
#[derive(Debug, Clone, Copy, PartialEq, Eq, Structural)]
pub enum DeepSeekModel {
    /// General-purpose chat.
    DeepSeekChat,
    /// Code generation and understanding.
    DeepSeekCoder,
}

/// One message of a conversation.
#[derive(Debug, Clone)]
pub struct ChatMessage {
    pub role: String,
    pub content: String,
}

impl DeepSeekModel {
    /// The backend's name of a model.
    pub open spec fn name(self) -> Seq<char> {
        match self {
            DeepSeekModel::DeepSeekChat => "deepseek-chat"@,
            DeepSeekModel::DeepSeekCoder => "deepseek-coder"@,
        }
    }

    /// The model that a name stands for, whatever its case.
    pub open spec fn named(s: Seq<char>) -> Option<DeepSeekModel> {
        Self::named_in_lowercase(lowercase(s))
    }

    /// The model that a lowercase name stands for: the backend's name, or
    /// `chat` or `coder` for short.
    pub open spec fn named_in_lowercase(low: Seq<char>) -> Option<DeepSeekModel> {
        if low == "deepseek-chat"@ || low == "chat"@ {
            Some(DeepSeekModel::DeepSeekChat)
        } else if low == "deepseek-coder"@ || low == "coder"@ {
            Some(DeepSeekModel::DeepSeekCoder)
        } else {
            None
        }
    }

    pub fn as_str(&self) -> (r: &'static str)
        ensures
            r@ == self.name(),
    {
        match self {
            DeepSeekModel::DeepSeekChat => "deepseek-chat",
            DeepSeekModel::DeepSeekCoder => "deepseek-coder",
        }
    }

    pub fn from_str(s: &str) -> (r: Option<Self>)
        ensures
            r == Self::named(s@),
    {
        let low = s.to_lowercase();
        Self::from_lowercase(low.as_str())
    }

    /// The model that a lowercase name stands for.
    pub fn from_lowercase(name: &str) -> (r: Option<Self>)
        ensures
            r == Self::named_in_lowercase(name@),
    {
        let low = chars_of(name);
        if is_text(&low, "deepseek-chat") || is_text(&low, "chat") {
            Some(DeepSeekModel::DeepSeekChat)
        } else if is_text(&low, "deepseek-coder") || is_text(&low, "coder") {
            Some(DeepSeekModel::DeepSeekCoder)
        } else {
            None
        }
    }
}

impl Default for DeepSeekModel {
    fn default() -> (r: Self)
        ensures
            r == DeepSeekModel::DeepSeekChat,
    {
        DeepSeekModel::DeepSeekChat
    }
}

/// The names of the models, chat first.
pub fn list_models() -> (r: Vec<String>)
    ensures
        r@.len() == 2,
        r@[0]@ == DeepSeekModel::DeepSeekChat.name(),
        r@[1]@ == DeepSeekModel::DeepSeekCoder.name(),
{
    let mut out: Vec<String> = Vec::new();
    out.push(String::from_str(DeepSeekModel::DeepSeekChat.as_str()));
    out.push(String::from_str(DeepSeekModel::DeepSeekCoder.as_str()));
    out
}

} // verus!
