use freya::gallery;
use freya::languages::LanguageId;

#[test]
fn extensions_name_languages() {
    assert_eq!(LanguageId::parse("rs"), LanguageId::Rust);
    assert_eq!(LanguageId::parse("py"), LanguageId::Python);
    assert_eq!(LanguageId::parse("js"), LanguageId::JavaScript);
    assert_eq!(LanguageId::parse("ts"), LanguageId::TypeScript);
    assert_eq!(LanguageId::parse("md"), LanguageId::Markdown);
    assert_eq!(LanguageId::parse("toml"), LanguageId::Toml);
    assert_eq!(LanguageId::parse("json"), LanguageId::Json);
    assert_eq!(LanguageId::parse("RS"), LanguageId::Unknown);
    assert_eq!(LanguageId::parse(""), LanguageId::Unknown);
    assert_eq!(LanguageId::default(), LanguageId::Unknown);
}

#[test]
fn languages_have_display_names() {
    assert_eq!(LanguageId::Toml.name(), "TOML");
    assert_eq!(LanguageId::Json.name(), "JSON");
    assert_eq!(LanguageId::JavaScript.name(), "JavaScript");
    assert_eq!(LanguageId::Unknown.name(), "Unknown");
}

#[test]
fn gallery_runs() {
    gallery();
}
