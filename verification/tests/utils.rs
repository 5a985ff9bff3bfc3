use code_sherpa::embedding::{openai_context_length, openai_embed_length};
use code_sherpa::scanner::is_wanted_directory;
use code_sherpa::utils::parsers::SupportedParsers;
use code_sherpa::utils::{collection_name_from, path_to_collection_name};

#[test]
fn collection_is_named_after_the_last_component() {
    assert_eq!(path_to_collection_name("/home/me/project"), "project");
    assert_eq!(path_to_collection_name("/home/me/project/"), "project");
    assert_eq!(path_to_collection_name("project"), "project");
    assert_eq!(path_to_collection_name("a/b/."), "b");
}

#[test]
fn collection_of_a_path_without_a_name_has_the_default_name() {
    assert_eq!(path_to_collection_name("/"), "code-sherpa");
    assert_eq!(path_to_collection_name(""), "code-sherpa");
    assert_eq!(path_to_collection_name("a/.."), "code-sherpa");
}

#[test]
fn collection_name_is_the_component_or_the_default() {
    assert_eq!(collection_name_from(Some("repo".to_string())), "repo");
    assert_eq!(collection_name_from(Some(String::new())), "");
    assert_eq!(collection_name_from(None), "code-sherpa");
}

#[test]
fn languages_are_known_by_their_extensions() {
    assert_eq!(SupportedParsers::from_extension("rs"), Some(SupportedParsers::Rust));
    assert_eq!(SupportedParsers::from_extension("go"), Some(SupportedParsers::Go));
    assert_eq!(SupportedParsers::from_extension("py"), Some(SupportedParsers::Python));
    assert_eq!(SupportedParsers::from_extension("js"), Some(SupportedParsers::JavaScript));
    assert_eq!(SupportedParsers::from_extension("ts"), Some(SupportedParsers::TypeScript));
    assert_eq!(SupportedParsers::from_extension("tsx"), Some(SupportedParsers::TSX));
}

#[test]
fn other_extensions_have_no_language() {
    for extension in ["", "r", "rss", "RS", "Rust", "jsx", ".rs", "txt", "t"] {
        assert_eq!(SupportedParsers::from_extension(extension), None);
    }
}

#[test]
fn languages_are_named_after_their_variants() {
    assert_eq!(SupportedParsers::Rust.to_string(), "Rust");
    assert_eq!(SupportedParsers::Go.to_string(), "Go");
    assert_eq!(SupportedParsers::Python.to_string(), "Python");
    assert_eq!(SupportedParsers::JavaScript.to_string(), "JavaScript");
    assert_eq!(SupportedParsers::TypeScript.to_string(), "TypeScript");
    assert_eq!(SupportedParsers::TSX.to_string(), "TSX");
}

#[test]
fn files_are_always_wanted() {
    assert!(is_wanted_directory(false, Some("target")));
    assert!(is_wanted_directory(false, Some("main.rs")));
    assert!(is_wanted_directory(false, None));
}

#[test]
fn build_and_vendor_directories_are_not_wanted() {
    assert!(!is_wanted_directory(true, Some("target")));
    assert!(!is_wanted_directory(true, Some(".git")));
    assert!(!is_wanted_directory(true, Some("node_modules")));
    assert!(!is_wanted_directory(true, None));
}

#[test]
fn other_directories_are_wanted() {
    assert!(is_wanted_directory(true, Some("src")));
    assert!(is_wanted_directory(true, Some("targets")));
    assert!(is_wanted_directory(true, Some(".github")));
    assert!(is_wanted_directory(true, Some("")));
}

#[test]
fn known_models_have_known_sizes() {
    assert_eq!(openai_context_length("text-embedding-ada-002"), 8191);
    assert_eq!(openai_context_length("text-embedding-3-small"), 8191);
    assert_eq!(openai_context_length("text-embedding-3-large"), 8191);
    assert_eq!(openai_embed_length("text-embedding-ada-002"), Some(1536));
    assert_eq!(openai_embed_length("text-embedding-3-small"), Some(1536));
    assert_eq!(openai_embed_length("text-embedding-3-large"), Some(3072));
}

#[test]
fn other_models_have_to_be_asked() {
    for model in ["", "gpt-4o", "text-embedding-3", "text-embedding-3-large "] {
        assert_eq!(openai_context_length(model), 2048);
        assert_eq!(openai_embed_length(model), None);
    }
}

#[test]
fn collection_name_is_never_empty() {
    for path in ["", "/", "//", ".", "..", "./", "a//", "a/b//c///", "///x", " ", "a/ "] {
        assert!(!path_to_collection_name(path).is_empty());
    }
    assert_eq!(path_to_collection_name("a//"), "a");
    assert_eq!(path_to_collection_name("a/b//c///"), "c");
    assert_eq!(path_to_collection_name("a/ "), " ");
}
