//! Presentational dialects. A mode changes which glyphs you type and read,
//! never what is stored or computed. Canonical (`Normal`) is the only form
//! persisted or transported.

use vstd::prelude::*;
use crate::eval::currency::str_equal;

verus! {

#[derive(Debug, Clone, Copy, PartialEq, Eq)]
pub enum LanguageMode {
    Normal,
    Programmer,
    /// Grammatically identical to `Normal`; changes only how a plain
    /// numeric result echoes: scientific notation (`2.46912e5`), or the
    /// engineering variant via `ScientificStyle`.
    Scientific,
}

/// A mode's spelled name.
pub open spec fn mode_name(m: LanguageMode) -> Seq<char> {
    match m {
        LanguageMode::Normal => "normal"@,
        LanguageMode::Programmer => "programmer"@,
        LanguageMode::Scientific => "scientific"@,
    }
}

/// The mode spelled `name`.
pub open spec fn mode_named(name: Seq<char>) -> Option<LanguageMode> {
    if name == "normal"@ {
        Some(LanguageMode::Normal)
    } else if name == "programmer"@ {
        Some(LanguageMode::Programmer)
    } else if name == "scientific"@ {
        Some(LanguageMode::Scientific)
    } else {
        None
    }
}

impl LanguageMode {
    /// The default mode.
    pub fn default_mode() -> (r: Self)
        ensures
            r == LanguageMode::Normal,
    {
        LanguageMode::Normal
    }

    /// The mode's spelled name: `:mode` echoes and persistence.
    pub fn name(&self) -> (r: &'static str)
        ensures
            r@ == mode_name(*self),
    {
        match self {
            LanguageMode::Normal => "normal",
            LanguageMode::Programmer => "programmer",
            LanguageMode::Scientific => "scientific",
        }
    }

    /// The mode with this exact name.
    pub fn from_name(name: &str) -> (r: Option<Self>)
        ensures
            r == mode_named(name@),
    {
        if str_equal(name, "normal") {
            Some(LanguageMode::Normal)
        } else if str_equal(name, "programmer") {
            Some(LanguageMode::Programmer)
        } else if str_equal(name, "scientific") {
            Some(LanguageMode::Scientific)
        } else {
            None
        }
    }
}

/// The scientific-mode echo variant: plain SCI (`2.46912e5`) or ENG
/// (`246.912e3`, the exponent snapped to a multiple of 3).
#[derive(Debug, Clone, Copy, PartialEq, Eq)]
pub enum ScientificStyle {
    Sci,
    Eng,
}

/// A style's spelled name.
pub open spec fn style_name(s: ScientificStyle) -> Seq<char> {
    match s {
        ScientificStyle::Sci => "sci"@,
        ScientificStyle::Eng => "eng"@,
    }
}

/// The style spelled `name`.
pub open spec fn style_named(name: Seq<char>) -> Option<ScientificStyle> {
    if name == "sci"@ {
        Some(ScientificStyle::Sci)
    } else if name == "eng"@ {
        Some(ScientificStyle::Eng)
    } else {
        None
    }
}

impl ScientificStyle {
    /// The default style.
    pub fn default_style() -> (r: Self)
        ensures
            r == ScientificStyle::Sci,
    {
        ScientificStyle::Sci
    }

    /// The style's spelled name: `:mode scientific eng` and persistence.
    pub fn name(&self) -> (r: &'static str)
        ensures
            r@ == style_name(*self),
    {
        match self {
            ScientificStyle::Sci => "sci",
            ScientificStyle::Eng => "eng",
        }
    }

    /// The style with this exact name.
    pub fn from_name(name: &str) -> (r: Option<Self>)
        ensures
            r == style_named(name@),
    {
        if str_equal(name, "sci") {
            Some(ScientificStyle::Sci)
        } else if str_equal(name, "eng") {
            Some(ScientificStyle::Eng)
        } else {
            None
        }
    }
}

/// Every mode's name reads back as that mode.
pub proof fn lemma_mode_name_round_trip(m: LanguageMode)
    ensures
        mode_named(mode_name(m)) == Some(m),
{
    reveal_strlit("normal");
    reveal_strlit("programmer");
    reveal_strlit("scientific");
    assert("normal"@ != "programmer"@) by { assert("normal"@.len() != "programmer"@.len()); }
    assert("normal"@ != "scientific"@) by { assert("normal"@.len() != "scientific"@.len()); }
    assert("programmer"@ != "scientific"@) by { assert("programmer"@[0] != "scientific"@[0]); }
}

/// Every style's name reads back as that style.
pub proof fn lemma_style_name_round_trip(s: ScientificStyle)
    ensures
        style_named(style_name(s)) == Some(s),
{
    reveal_strlit("sci");
    reveal_strlit("eng");
    assert("sci"@ != "eng"@) by { assert("sci"@[0] != "eng"@[0]); }
}

} // verus!
