use vstd::prelude::*;
use crate::tokenizer::JsonToken;

verus! {

/// An RGB colour whose channels are given in hundredths of full intensity.
#[derive(Debug, Clone, Copy, PartialEq, Eq, Structural)]
pub struct Color {
    pub r: u8,
    pub g: u8,
    pub b: u8,
}

impl Color {
    /// Every channel lies in `0..=100`.
    pub open spec fn wf(self) -> bool {
        self.r <= 100 && self.g <= 100 && self.b <= 100
    }

    pub fn from_rgb(r: u8, g: u8, b: u8) -> (c: Color)
        requires
            r <= 100,
            g <= 100,
            b <= 100,
        ensures
            c == rgb(r, g, b),
            c.wf(),
    {
        Color { r, g, b }
    }

    pub fn white() -> (c: Color)
        ensures
            c == rgb(100, 100, 100),
    {
        Color { r: 100, g: 100, b: 100 }
    }

    pub fn black() -> (c: Color)
        ensures
            c == rgb(0, 0, 0),
    {
        Color { r: 0, g: 0, b: 0 }
    }
}

/// The syntax-highlighting themes that come with the highlighter crate.
#[derive(Debug, Clone, Copy, PartialEq, Eq, Structural)]
pub enum BuiltinTheme {
    SolarizedDark,
    Base16Mocha,
    Base16Ocean,
    Base16Eighties,
    InspiredGitHub,
}

/// A palette of seven colours, one for each token classification.
#[derive(Debug, Clone, Copy, PartialEq, Eq, Structural)]
pub struct CustomJsonTheme {
    pub key: Color,
    pub string: Color,
    pub number: Color,
    pub boolean: Color,
    pub null: Color,
    pub punctuation: Color,
    pub text: Color,
}

pub open spec fn rgb(r: u8, g: u8, b: u8) -> Color {
    Color { r, g, b }
}

pub open spec fn default_dark_palette() -> CustomJsonTheme {
    CustomJsonTheme {
        key: rgb(40, 76, 94),
        string: rgb(73, 87, 53),
        number: rgb(88, 73, 53),
        boolean: rgb(86, 47, 65),
        null: rgb(86, 47, 65),
        punctuation: rgb(80, 80, 80),
        text: rgb(100, 100, 100),
    }
}

pub open spec fn default_light_palette() -> CustomJsonTheme {
    CustomJsonTheme {
        key: rgb(0, 33, 80),
        string: rgb(13, 54, 13),
        number: rgb(80, 40, 0),
        boolean: rgb(60, 0, 60),
        null: rgb(60, 0, 60),
        punctuation: rgb(30, 30, 30),
        text: rgb(0, 0, 0),
    }
}

pub open spec fn vscode_dark_palette() -> CustomJsonTheme {
    CustomJsonTheme {
        key: rgb(61, 82, 96),
        string: rgb(81, 71, 58),
        number: rgb(71, 86, 65),
        boolean: rgb(34, 63, 83),
        null: rgb(34, 63, 83),
        punctuation: rgb(85, 85, 85),
        text: rgb(85, 85, 85),
    }
}

/// The palette shared by the built-in themes that have no override.
pub open spec fn builtin_base_palette() -> CustomJsonTheme {
    default_dark_palette()
}

/// The palette of Solarized Dark, the one built-in theme with overrides.
pub open spec fn solarized_palette() -> CustomJsonTheme {
    CustomJsonTheme {
        key: rgb(51, 58, 0),
        string: rgb(16, 63, 60),
        number: rgb(80, 29, 9),
        boolean: rgb(83, 21, 51),
        null: rgb(83, 21, 51),
        punctuation: rgb(58, 63, 63),
        text: rgb(58, 63, 63),
    }
}

/// The colours of each built-in theme: an override table, falling back to a
/// shared palette.
pub open spec fn spec_builtin_palette(theme: BuiltinTheme) -> CustomJsonTheme {
    match theme {
        BuiltinTheme::SolarizedDark => solarized_palette(),
        _ => builtin_base_palette(),
    }
}

/// The colour that a palette gives to a token classification.
pub open spec fn palette_color(p: CustomJsonTheme, token: JsonToken) -> Color {
    match token {
        JsonToken::Key => p.key,
        JsonToken::String => p.string,
        JsonToken::Number => p.number,
        JsonToken::Boolean => p.boolean,
        JsonToken::Null => p.null,
        JsonToken::Punctuation => p.punctuation,
        JsonToken::Whitespace => p.text,
    }
}

/// The label under which the highlighter crate shows a built-in theme.
pub open spec fn builtin_label(theme: BuiltinTheme) -> Seq<char> {
    match theme {
        BuiltinTheme::SolarizedDark => "Solarized Dark"@,
        BuiltinTheme::Base16Mocha => "Mocha"@,
        BuiltinTheme::Base16Ocean => "Ocean"@,
        BuiltinTheme::Base16Eighties => "Eighties"@,
        BuiltinTheme::InspiredGitHub => "Inspired GitHub"@,
    }
}

/// The label of a custom palette: a known palette by its name, any other one
/// as plain "Custom".
pub open spec fn custom_label(p: CustomJsonTheme) -> Seq<char> {
    if p == default_dark_palette() {
        "Custom Dark"@
    } else if p == default_light_palette() {
        "Custom Light"@
    } else if p == vscode_dark_palette() {
        "VS Code Dark"@
    } else {
        "Custom"@
    }
}

impl CustomJsonTheme {
    /// All seven colours are well formed.
    pub open spec fn wf(self) -> bool {
        self.key.wf() && self.string.wf() && self.number.wf() && self.boolean.wf()
            && self.null.wf() && self.punctuation.wf() && self.text.wf()
    }

    pub fn default_dark() -> (t: CustomJsonTheme)
        ensures
            t == default_dark_palette(),
            t.wf(),
    {
        CustomJsonTheme {
            key: Color::from_rgb(40, 76, 94),
            string: Color::from_rgb(73, 87, 53),
            number: Color::from_rgb(88, 73, 53),
            boolean: Color::from_rgb(86, 47, 65),
            null: Color::from_rgb(86, 47, 65),
            punctuation: Color::from_rgb(80, 80, 80),
            text: Color::white(),
        }
    }

    pub fn default_light() -> (t: CustomJsonTheme)
        ensures
            t == default_light_palette(),
            t.wf(),
    {
        CustomJsonTheme {
            key: Color::from_rgb(0, 33, 80),
            string: Color::from_rgb(13, 54, 13),
            number: Color::from_rgb(80, 40, 0),
            boolean: Color::from_rgb(60, 0, 60),
            null: Color::from_rgb(60, 0, 60),
            punctuation: Color::from_rgb(30, 30, 30),
            text: Color::black(),
        }
    }

    pub fn vscode_dark() -> (t: CustomJsonTheme)
        ensures
            t == vscode_dark_palette(),
            t.wf(),
    {
        CustomJsonTheme {
            key: Color::from_rgb(61, 82, 96),
            string: Color::from_rgb(81, 71, 58),
            number: Color::from_rgb(71, 86, 65),
            boolean: Color::from_rgb(34, 63, 83),
            null: Color::from_rgb(34, 63, 83),
            punctuation: Color::from_rgb(85, 85, 85),
            text: Color::from_rgb(85, 85, 85),
        }
    }

    /// The display name of this palette.
    pub fn name(&self) -> (s: String)
        ensures
            s@ == custom_label(*self),
    {
        if *self == CustomJsonTheme::default_dark() {
            String::from_str("Custom Dark")
        } else if *self == CustomJsonTheme::default_light() {
            String::from_str("Custom Light")
        } else if *self == CustomJsonTheme::vscode_dark() {
            String::from_str("VS Code Dark")
        } else {
            String::from_str("Custom")
        }
    }
}

/// Relies on the `Display` impl of `iced_highlighter::Theme`, which writes one
/// fixed label per theme.
#[verifier::external_body]
fn builtin_theme_name(theme: BuiltinTheme) -> (s: String)
    ensures
        s@ == builtin_label(theme),
{
    let t = match theme {
        BuiltinTheme::SolarizedDark => iced_highlighter::Theme::SolarizedDark,
        BuiltinTheme::Base16Mocha => iced_highlighter::Theme::Base16Mocha,
        BuiltinTheme::Base16Ocean => iced_highlighter::Theme::Base16Ocean,
        BuiltinTheme::Base16Eighties => iced_highlighter::Theme::Base16Eighties,
        BuiltinTheme::InspiredGitHub => iced_highlighter::Theme::InspiredGitHub,
    };
    t.to_string()
}

/// A theme for JSON highlighting: a built-in one, or a custom palette.
#[derive(Debug, Clone, Copy, PartialEq, Eq, Structural)]
pub enum JsonThemeWrapper {
    Builtin(BuiltinTheme),
    Custom(CustomJsonTheme),
}

impl JsonThemeWrapper {
    /// The seven colours of this theme.
    pub open spec fn palette(self) -> CustomJsonTheme {
        match self {
            JsonThemeWrapper::Builtin(t) => spec_builtin_palette(t),
            JsonThemeWrapper::Custom(c) => c,
        }
    }

    /// The colour that this theme gives to a token classification.
    pub open spec fn spec_color(self, token: JsonToken) -> Color {
        palette_color(self.palette(), token)
    }

    /// The themes offered for selection, built-in ones first.
    pub open spec fn spec_all() -> Seq<JsonThemeWrapper> {
        seq![
            JsonThemeWrapper::Builtin(BuiltinTheme::Base16Eighties),
            JsonThemeWrapper::Builtin(BuiltinTheme::Base16Mocha),
            JsonThemeWrapper::Builtin(BuiltinTheme::Base16Ocean),
            JsonThemeWrapper::Builtin(BuiltinTheme::SolarizedDark),
            JsonThemeWrapper::Builtin(BuiltinTheme::InspiredGitHub),
            JsonThemeWrapper::Custom(default_dark_palette()),
            JsonThemeWrapper::Custom(default_light_palette()),
            JsonThemeWrapper::Custom(vscode_dark_palette()),
        ]
    }

    /// The display name of this theme.
    pub open spec fn spec_name(self) -> Seq<char> {
        match self {
            JsonThemeWrapper::Builtin(t) => builtin_label(t),
            JsonThemeWrapper::Custom(c) => custom_label(c),
        }
    }

    pub fn all() -> (v: Vec<JsonThemeWrapper>)
        ensures
            v@ == Self::spec_all(),
    {
        let v = vec![
            JsonThemeWrapper::Builtin(BuiltinTheme::Base16Eighties),
            JsonThemeWrapper::Builtin(BuiltinTheme::Base16Mocha),
            JsonThemeWrapper::Builtin(BuiltinTheme::Base16Ocean),
            JsonThemeWrapper::Builtin(BuiltinTheme::SolarizedDark),
            JsonThemeWrapper::Builtin(BuiltinTheme::InspiredGitHub),
            JsonThemeWrapper::Custom(CustomJsonTheme::default_dark()),
            JsonThemeWrapper::Custom(CustomJsonTheme::default_light()),
            JsonThemeWrapper::Custom(CustomJsonTheme::vscode_dark()),
        ];
        assert(v@ =~= Self::spec_all());
        v
    }

    pub fn name(&self) -> (s: String)
        ensures
            s@ == self.spec_name(),
    {
        match self {
            JsonThemeWrapper::Builtin(t) => builtin_theme_name(*t),
            JsonThemeWrapper::Custom(c) => c.name(),
        }
    }

    /// The palette of a built-in theme.
    pub fn builtin_palette(theme: BuiltinTheme) -> (p: CustomJsonTheme)
        ensures
            p == spec_builtin_palette(theme),
            p.wf(),
    {
        match theme {
            BuiltinTheme::SolarizedDark => CustomJsonTheme {
                key: Color::from_rgb(51, 58, 0),
                string: Color::from_rgb(16, 63, 60),
                number: Color::from_rgb(80, 29, 9),
                boolean: Color::from_rgb(83, 21, 51),
                null: Color::from_rgb(83, 21, 51),
                punctuation: Color::from_rgb(58, 63, 63),
                text: Color::from_rgb(58, 63, 63),
            },
            _ => CustomJsonTheme::default_dark(),
        }
    }

    /// The seven colours of this theme.
    pub fn colors(&self) -> (p: CustomJsonTheme)
        ensures
            p == self.palette(),
    {
        match self {
            JsonThemeWrapper::Builtin(t) => Self::builtin_palette(*t),
            JsonThemeWrapper::Custom(c) => *c,
        }
    }

    pub fn key_color(&self) -> (c: Color)
        ensures
            c == self.spec_color(JsonToken::Key),
    {
        self.colors().key
    }

    pub fn string_color(&self) -> (c: Color)
        ensures
            c == self.spec_color(JsonToken::String),
    {
        self.colors().string
    }

    pub fn number_color(&self) -> (c: Color)
        ensures
            c == self.spec_color(JsonToken::Number),
    {
        self.colors().number
    }

    pub fn boolean_color(&self) -> (c: Color)
        ensures
            c == self.spec_color(JsonToken::Boolean),
    {
        self.colors().boolean
    }

    pub fn null_color(&self) -> (c: Color)
        ensures
            c == self.spec_color(JsonToken::Null),
    {
        self.colors().null
    }

    pub fn punctuation_color(&self) -> (c: Color)
        ensures
            c == self.spec_color(JsonToken::Punctuation),
    {
        self.colors().punctuation
    }

    pub fn text_color(&self) -> (c: Color)
        ensures
            c == self.spec_color(JsonToken::Whitespace),
    {
        self.colors().text
    }

    /// The colour that this theme gives to a token classification.
    pub fn token_color(&self, token: JsonToken) -> (c: Color)
        ensures
            c == self.spec_color(token),
    {
        match token {
            JsonToken::Key => self.key_color(),
            JsonToken::String => self.string_color(),
            JsonToken::Number => self.number_color(),
            JsonToken::Boolean => self.boolean_color(),
            JsonToken::Null => self.null_color(),
            JsonToken::Punctuation => self.punctuation_color(),
            JsonToken::Whitespace => self.text_color(),
        }
    }
}

} // verus!
