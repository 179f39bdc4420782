use crabipie::theme::{BuiltinTheme, Color, CustomJsonTheme, JsonThemeWrapper};
use crabipie::tokenizer::JsonToken;

#[test]
fn solarized_dark_overrides_the_shared_palette() {
    let t = JsonThemeWrapper::Builtin(BuiltinTheme::SolarizedDark);
    assert_eq!(t.key_color(), Color::from_rgb(51, 58, 0));
    assert_eq!(t.string_color(), Color::from_rgb(16, 63, 60));
    assert_eq!(t.number_color(), Color::from_rgb(80, 29, 9));
    assert_eq!(t.boolean_color(), Color::from_rgb(83, 21, 51));
    assert_eq!(t.null_color(), Color::from_rgb(83, 21, 51));
    assert_eq!(t.punctuation_color(), Color::from_rgb(58, 63, 63));
    assert_eq!(t.text_color(), Color::from_rgb(58, 63, 63));
}

#[test]
fn other_builtin_themes_share_a_palette() {
    let t = JsonThemeWrapper::Builtin(BuiltinTheme::Base16Ocean);
    assert_eq!(t.key_color(), Color::from_rgb(40, 76, 94));
    assert_eq!(t.text_color(), Color::white());
    assert_eq!(
        JsonThemeWrapper::builtin_palette(BuiltinTheme::InspiredGitHub),
        CustomJsonTheme::default_dark()
    );
}

#[test]
fn custom_theme_colours_are_its_fields() {
    let light = JsonThemeWrapper::Custom(CustomJsonTheme::default_light());
    assert_eq!(light.token_color(JsonToken::Key), Color::from_rgb(0, 33, 80));
    assert_eq!(light.token_color(JsonToken::String), Color::from_rgb(13, 54, 13));
    assert_eq!(light.token_color(JsonToken::Whitespace), Color::black());
    let vs = JsonThemeWrapper::Custom(CustomJsonTheme::vscode_dark());
    assert_eq!(vs.token_color(JsonToken::Boolean), Color::from_rgb(34, 63, 83));
}

#[test]
fn theme_names() {
    let names: Vec<String> = JsonThemeWrapper::all().iter().map(|t| t.name()).collect();
    assert_eq!(
        names,
        vec![
            "Eighties",
            "Mocha",
            "Ocean",
            "Solarized Dark",
            "Inspired GitHub",
            "Custom Dark",
            "Custom Light",
            "VS Code Dark",
        ]
    );
}

#[test]
fn unknown_palette_is_plain_custom() {
    let mut p = CustomJsonTheme::default_dark();
    p.key = Color::from_rgb(1, 2, 3);
    assert_eq!(p.name(), "Custom");
    assert_eq!(JsonThemeWrapper::Custom(p).name(), "Custom");
}
