use sovereign::storage::codebase::{
    compute_hash, decode_symbols, detect_language, embedding_from_bytes, embedding_to_bytes,
    encode_symbols, extract_symbols, index_file, index_row, language_for_extension,
    language_for_lowercase, IndexError,
};

#[test]
fn languages_by_extension() {
    let table = [
        ("rs", "rust"), ("py", "python"), ("js", "javascript"), ("jsx", "javascript"),
        ("ts", "typescript"), ("tsx", "typescript"), ("go", "go"), ("java", "java"),
        ("kt", "kotlin"), ("c", "c"), ("h", "c"), ("cpp", "cpp"), ("cc", "cpp"), ("hpp", "cpp"),
        ("cs", "csharp"), ("rb", "ruby"), ("php", "php"), ("swift", "swift"),
        ("scala", "scala"), ("sh", "shell"), ("bash", "shell"), ("sql", "sql"),
        ("html", "html"), ("css", "css"), ("json", "json"), ("yaml", "yaml"), ("yml", "yaml"),
        ("toml", "toml"), ("md", "markdown"),
    ];
    for (ext, language) in table {
        assert_eq!(language_for_extension(ext), Some(language.to_string()));
        assert_eq!(language_for_extension(&ext.to_uppercase()), Some(language.to_string()));
    }
    assert_eq!(language_for_extension("txt"), None);
    assert_eq!(language_for_extension(""), None);
    assert_eq!(language_for_extension("rs "), None);
}

#[test]
fn languages_of_paths() {
    assert_eq!(detect_language("a.rs"), Some("rust".to_string()));
    assert_eq!(detect_language("dir/b.PY"), Some("python".to_string()));
    assert_eq!(detect_language("c.txt"), None);
    assert_eq!(detect_language("Makefile"), None);
    assert_eq!(detect_language(".gitignore"), None);
    assert_eq!(detect_language("dir.rs/file"), None);
}

#[test]
fn hashes_are_sha256_in_hex() {
    assert_eq!(
        compute_hash(""),
        "e3b0c44298fc1c149afbf4c8996fb92427ae41e4649b934ca495991b7852b855"
    );
    assert_eq!(
        compute_hash("abc"),
        "ba7816bf8f01cfea414140de5dae2223b00361a396177a9cb410ff61f20015ad"
    );
    for content in ["", "abc", "pub fn foo(){}", "\u{e9}\u{4e16}\u{1f600}"] {
        let hash = compute_hash(content);
        assert_eq!(hash.len(), 64);
        assert!(hash.chars().all(|c| matches!(c, '0'..='9' | 'a'..='f')));
    }
    assert_eq!(compute_hash("pub fn foo(){}"), compute_hash("pub fn foo(){}"));
    assert_ne!(compute_hash("pub fn foo(){}"), compute_hash("pub fn foo(){} "));
}

#[test]
fn symbols_of_a_small_directory() {
    assert_eq!(extract_symbols("pub fn foo(){}", "rust"), vec!["fn:foo"]);
    assert_eq!(extract_symbols("def bar():\n    pass", "python"), vec!["def:bar"]);
    assert!(extract_symbols("hello", "text").is_empty());
    assert_eq!(
        extract_symbols("pub fn foo(){} pub fn baz(){}", "rust"),
        vec!["fn:foo"]
    );
}

#[test]
fn symbols_of_rust() {
    let content = "use std::fmt;\n\npub struct  Point {\n    x: i32,\n}\n\nenum Kind { A }\n  pub enum Other {}\nimpl Point {\n    pub fn new() -> Self { todo() }\n    fn  spaced() {}\n    fn (weird) {}\n}\nimpl<T> Trait for Wide<T> {}\nasync fn later() {}\nstruct\nimpl  Display for Point {}\n";
    assert_eq!(
        extract_symbols(content, "rust"),
        vec!["struct:Point", "enum:Kind", "enum:Other", "impl:Point", "fn:new", "impl:Display"]
    );
}

#[test]
fn symbols_of_other_languages() {
    assert_eq!(
        extract_symbols("class A(Base):\n    def run(self):\n        pass\ndef  x(): pass\n", "python"),
        vec!["class:A", "def:run"]
    );
    assert_eq!(
        extract_symbols(
            "function go() {}\nclass View {}\nexport const LIMIT = 3;\nconst  = 1\nlet other = 2;\nconst noequals;\n",
            "javascript"
        ),
        vec!["function:go", "class:View", "const:LIMIT"]
    );
    assert_eq!(extract_symbols("const answer = 42", "typescript"), vec!["const:answer"]);
    assert_eq!(
        extract_symbols("package main\nfunc Run() {}\ntype Server struct {\n}\ntype Alias int\nfunc (s *Server) Do() {}\n", "go"),
        vec!["func:Run", "struct:Server"]
    );
    assert_eq!(
        extract_symbols(
            "public class Main {\n// class Hidden\n  interface Shape {}\n  private final class  Inner {}\n  class \n}",
            "java"
        ),
        vec!["class:Main", "class:Shape", "class:Inner"]
    );
    assert_eq!(extract_symbols("data class User(val n: Int)", "kotlin"), vec!["class:User"]);
    assert!(extract_symbols("fn main() {}", "markdown").is_empty());
}

#[test]
fn symbols_as_json() {
    let symbols = vec!["fn:foo".to_string(), "struct:\"Q\"".to_string()];
    let json = encode_symbols(&symbols).unwrap();
    assert_eq!(json, "[\"fn:foo\",\"struct:\\\"Q\\\"\"]");
    assert_eq!(decode_symbols(&json), symbols);
    assert_eq!(encode_symbols(&Vec::new()), Some("[]".to_string()));
    assert!(decode_symbols("[]").is_empty());
    assert!(decode_symbols("not json").is_empty());
    assert!(decode_symbols("{\"a\":1}").is_empty());
    assert!(decode_symbols("[1,2]").is_empty());
}

#[test]
fn a_new_file_gets_a_row() {
    let plan = index_file("/p/a.rs", "a.rs", "rust", "pub fn foo(){}\n// é", None, "2024-05-01T10:00:00+00:00").unwrap();
    assert_eq!(plan.file.path, "/p/a.rs");
    assert_eq!(plan.file.relative_path, "a.rs");
    assert_eq!(plan.file.language, "rust");
    assert_eq!(plan.file.size, 20);
    assert_eq!(plan.file.hash, compute_hash("pub fn foo(){}\n// é"));
    assert_eq!(plan.file.summary, None);
    assert_eq!(plan.file.symbols, vec!["fn:foo"]);
    assert_eq!(plan.file.indexed_at, "2024-05-01T10:00:00+00:00");
    assert_eq!(plan.content, "pub fn foo(){}\n// é");
    assert_eq!(plan.symbols_json, "[\"fn:foo\"]");
}

#[test]
fn an_unchanged_file_is_left_alone() {
    let content = "def bar():\n    pass";
    let first = index_file("/p/b.py", "b.py", "python", content, None, "t1").unwrap();
    let again = index_file("/p/b.py", "b.py", "python", content, Some(&first.file.hash), "t2");
    assert_eq!(again.err(), Some(IndexError::Unchanged));
    let stale = index_file("/p/b.py", "b.py", "python", content, Some("0000"), "t2").unwrap();
    assert_eq!(stale.file.hash, first.file.hash);
    let changed = index_file("/p/b.py", "b.py", "python", "def baz(): pass", Some(&first.file.hash), "t3").unwrap();
    assert_eq!(changed.file.symbols, vec!["def:baz"]);
}

#[test]
fn a_row_needs_its_symbols_encoded() {
    let content = "fn a() {}";
    let hash = compute_hash(content);
    assert_eq!(
        index_row("/a.rs", "a.rs", "rust", content, None, "t", None).err(),
        Some(IndexError::Encoding)
    );
    assert_eq!(
        index_row("/a.rs", "a.rs", "rust", content, Some(&hash), "t", None).err(),
        Some(IndexError::Unchanged)
    );
    let plan = index_row("/a.rs", "a.rs", "rust", content, None, "t", Some("[\"fn:a\"]".to_string())).unwrap();
    assert_eq!(plan.symbols_json, "[\"fn:a\"]");
}

#[test]
fn languages_by_lowercase_extension() {
    assert_eq!(language_for_lowercase("rs"), Some("rust".to_string()));
    assert_eq!(language_for_lowercase("yml"), Some("yaml".to_string()));
    assert_eq!(language_for_lowercase("RS"), None);
    assert_eq!(language_for_lowercase(""), None);
}

#[test]
fn embeddings_as_little_endian_bytes() {
    let values: Vec<f32> = vec![0.0, 1.0, -2.5, 3.0e-9, f32::MAX, f32::MIN_POSITIVE];
    let bits: Vec<u32> = values.iter().map(|v| v.to_bits()).collect();
    let expected: Vec<u8> = values.iter().flat_map(|v| v.to_le_bytes()).collect();
    let bytes = embedding_to_bytes(&bits);
    assert_eq!(bytes, expected);
    assert_eq!(embedding_from_bytes(&bytes), bits);
    assert_eq!(embedding_to_bytes(&vec![0x0403_0201]), vec![1, 2, 3, 4]);
    assert_eq!(embedding_from_bytes(&[1, 2, 3, 4, 9, 9]), vec![0x0403_0201, 0]);
    assert_eq!(embedding_from_bytes(&[7]), vec![0]);
    assert!(embedding_from_bytes(&[]).is_empty());
    assert!(embedding_to_bytes(&Vec::new()).is_empty());
}

#[test]
fn names_are_ascii_letters_digits_and_underscores() {
    assert_eq!(extract_symbols("fn h\u{e9}llo() {}", "rust"), vec!["fn:h"]);
    assert!(extract_symbols("fn \u{e9}t\u{e9}() {}", "rust").is_empty());
    assert_eq!(extract_symbols("def snake_case_2(x):", "python"), vec!["def:snake_case_2"]);
    assert_eq!(extract_symbols("class \u{4e16}", "python"), Vec::<String>::new());
    assert_eq!(extract_symbols("func Run\u{b2}()", "go"), vec!["func:Run"]);
    assert_eq!(extract_symbols("struct \u{a0}Wide", "rust"), vec!["struct:Wide"]);
}

#[test]
fn every_symbol_is_a_kind_a_colon_and_a_name() {
    let kinds = ["fn", "struct", "enum", "impl", "def", "class", "function", "const", "func"];
    let contents = [
        ("rust", "pub fn a1() {}\nstruct B_2;\nenum C {}\nimpl D {}\nfn () {}\nimpl<T> X for Y<T> {}"),
        ("python", "def f(x):\nclass K:\n  def g(self):\ndef (x):"),
        ("javascript", "function go() {}\nclass View {}\nconst limit = 3;\nconst = 4;"),
        ("typescript", "export const Name = 1;\nfunction f<T>() {}"),
        ("go", "func main() {}\ntype Shape struct {\nfunc (s Shape) Area() {}"),
        ("java", "public class Main {\n// class Hidden\ninterface Thing {}"),
        ("kotlin", "data class Point(val x: Int)\nclass\ninterface  Named"),
    ];
    for (language, content) in contents {
        let symbols = extract_symbols(content, language);
        assert!(!symbols.is_empty());
        for symbol in symbols {
            let (kind, name) = symbol.split_once(':').unwrap();
            assert!(kinds.contains(&kind));
            assert!(!name.is_empty());
            assert!(name.chars().all(|c| c.is_ascii_alphanumeric() || c == '_'));
        }
    }
}

#[test]
fn a_changed_file_always_gets_its_row() {
    for content in ["", "fn a() {}", "\"quoted\" \\ \u{1} \u{1f600}"] {
        let plan = index_file("/p/a.rs", "a.rs", "rust", content, None, "t").unwrap();
        assert_eq!(plan.file.hash, compute_hash(content));
        assert_eq!(plan.content, content);
        assert_eq!(
            index_file("/p/a.rs", "a.rs", "rust", content, Some(&plan.file.hash), "t").err(),
            Some(IndexError::Unchanged)
        );
        assert!(index_file("/p/a.rs", "a.rs", "rust", content, Some("other"), "t").is_ok());
    }
}
