use sovereign::deepseek::{list_models, DeepSeekModel};
use sovereign::llm::{base64_encode, is_vision_model, ImageInput};
use sovereign::storage::crdt_memory::CrdtMemoryType;
use sovereign::storage::memory::MemoryType;

#[test]
fn test_model_from_str() {
    assert_eq!(DeepSeekModel::from_str("deepseek-chat"), Some(DeepSeekModel::DeepSeekChat));
    assert_eq!(DeepSeekModel::from_str("chat"), Some(DeepSeekModel::DeepSeekChat));
    assert_eq!(DeepSeekModel::from_str("deepseek-coder"), Some(DeepSeekModel::DeepSeekCoder));
    assert_eq!(DeepSeekModel::from_str("coder"), Some(DeepSeekModel::DeepSeekCoder));
    assert_eq!(DeepSeekModel::from_str("unknown"), None);
}

#[test]
fn test_model_as_str() {
    assert_eq!(DeepSeekModel::DeepSeekChat.as_str(), "deepseek-chat");
    assert_eq!(DeepSeekModel::DeepSeekCoder.as_str(), "deepseek-coder");
}

#[test]
fn test_list_models() {
    let models = list_models();
    assert!(models.contains(&"deepseek-chat".to_string()));
    assert!(models.contains(&"deepseek-coder".to_string()));
}

#[test]
fn model_names_in_any_case() {
    assert_eq!(DeepSeekModel::from_str("DeepSeek-Coder"), Some(DeepSeekModel::DeepSeekCoder));
    assert_eq!(DeepSeekModel::from_str("CHAT"), Some(DeepSeekModel::DeepSeekChat));
    assert_eq!(DeepSeekModel::from_str(""), None);
    assert_eq!(DeepSeekModel::from_str(" chat"), None);
    assert_eq!(DeepSeekModel::default(), DeepSeekModel::DeepSeekChat);
    assert_eq!(DeepSeekModel::from_lowercase("coder"), Some(DeepSeekModel::DeepSeekCoder));
    assert_eq!(DeepSeekModel::from_lowercase("Coder"), None);
    assert_eq!(list_models(), vec!["deepseek-chat", "deepseek-coder"]);
}

#[test]
fn base64_of_known_texts() {
    assert_eq!(base64_encode(b""), "");
    assert_eq!(base64_encode(b"f"), "Zg==");
    assert_eq!(base64_encode(b"fo"), "Zm8=");
    assert_eq!(base64_encode(b"foo"), "Zm9v");
    assert_eq!(base64_encode(b"foob"), "Zm9vYg==");
    assert_eq!(base64_encode(b"fooba"), "Zm9vYmE=");
    assert_eq!(base64_encode(b"foobar"), "Zm9vYmFy");
    assert_eq!(base64_encode(&[0xff, 0xfe, 0xfd]), "//79");
    assert_eq!(base64_encode(&[0xfb, 0xef]), "++8=");
}

#[test]
fn images_hold_base64() {
    assert_eq!(ImageInput::from_bytes(&[1, 2, 3, 4]).data, "AQIDBA==");
    assert_eq!(ImageInput::from_base64("AQID".to_string()).data, "AQID");
}

#[test]
fn vision_models_by_prefix() {
    assert!(is_vision_model("llava"));
    assert!(is_vision_model("llava:13b"));
    assert!(is_vision_model("bakllava-7b"));
    assert!(is_vision_model("moondream2"));
    assert!(is_vision_model("minicpm-v"));
    assert!(!is_vision_model("llama3"));
    assert!(!is_vision_model("my-llava"));
    assert!(!is_vision_model(""));
}

#[test]
fn memory_kinds_by_name() {
    assert_eq!(MemoryType::Conversation.as_str(), "conversation");
    assert_eq!(MemoryType::CodePattern.as_str(), "code_pattern");
    assert_eq!(MemoryType::Decision.as_str(), "decision");
    assert_eq!(MemoryType::Preference.as_str(), "preference");
    assert_eq!(MemoryType::Fact.as_str(), "fact");
    assert_eq!(MemoryType::from_str("conversation"), MemoryType::Conversation);
    assert_eq!(MemoryType::from_str("code_pattern"), MemoryType::CodePattern);
    assert_eq!(MemoryType::from_str("decision"), MemoryType::Decision);
    assert_eq!(MemoryType::from_str("preference"), MemoryType::Preference);
    assert_eq!(MemoryType::from_str("fact"), MemoryType::Fact);
    assert_eq!(MemoryType::from_str("Decision"), MemoryType::Fact);
    assert_eq!(MemoryType::from_str(""), MemoryType::Fact);
}

#[test]
fn replicated_memory_kinds_by_name() {
    let kinds = [
        CrdtMemoryType::Conversation,
        CrdtMemoryType::CodePattern,
        CrdtMemoryType::Decision,
        CrdtMemoryType::Preference,
        CrdtMemoryType::Fact,
    ];
    for kind in kinds {
        assert_eq!(CrdtMemoryType::from_str(kind.as_str()), kind);
    }
    assert_eq!(CrdtMemoryType::CodePattern.as_str(), "code_pattern");
    assert_eq!(CrdtMemoryType::from_str("nothing"), CrdtMemoryType::Fact);
}
