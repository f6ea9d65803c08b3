use linetally::lang::{classify_extension, get_language, Language};
use linetally::walk::classify_file;

#[test]
fn known_extensions_map_to_their_language() {
    assert_eq!(get_language("rs"), Some(Language::Rust));
    assert_eq!(get_language("py"), Some(Language::Python));
    assert_eq!(get_language("go"), Some(Language::Go));
    assert_eq!(get_language("cpp"), Some(Language::Cpp));
    assert_eq!(get_language("adb"), Some(Language::Ada));
    assert_eq!(get_language("ads"), Some(Language::Ada));
    assert_eq!(get_language("yaml"), Some(Language::Yaml));
    assert_eq!(get_language("yml"), Some(Language::Yaml));
}

#[test]
fn unknown_extensions_map_to_nothing() {
    assert_eq!(get_language("xyz123"), None);
    assert_eq!(get_language(""), None);
    assert_eq!(get_language("rs "), None);
}

#[test]
fn classification_ignores_ascii_case() {
    assert_eq!(classify_extension("RS"), Some(Language::Rust));
    assert_eq!(classify_extension("Rs"), Some(Language::Rust));
    assert_eq!(classify_extension("PY"), Some(Language::Python));
    assert_eq!(classify_file("Main.RS"), classify_file("main.rs"));
    assert_eq!(classify_file("Main.RS"), Some(Language::Rust));
}

#[test]
fn file_names_without_usable_extension_classify_as_nothing() {
    assert_eq!(classify_file("noext"), None);
    assert_eq!(classify_file(".gitignore"), None);
    assert_eq!(classify_file("archive.xyz123"), None);
    assert_eq!(classify_file("trailing."), None);
    assert_eq!(classify_file("a.tar.gz"), None);
    assert_eq!(classify_file(".hidden.rs"), Some(Language::Rust));
}

#[test]
fn language_names_render_as_expected() {
    assert_eq!(Language::Rust.as_str(), "Rust");
    assert_eq!(Language::Cpp.as_str(), "C++");
    assert_eq!(Language::CSharp.as_str(), "C#");
    assert_eq!(Language::Cobol.as_str(), "COBOL");
    assert_eq!(Language::ObjectiveC.as_str(), "Objective-C");
}
