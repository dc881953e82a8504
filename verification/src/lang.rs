use vstd::prelude::*;
use crate::text::str_eq;

verus! {

/// Language of error messages and of printed `так`/`ні`/`нічого`.
#[derive(Debug, Clone, Copy, PartialEq, Eq, Structural)]
pub enum Lang {
    Uk,
    En,
}

impl Default for Lang {
    fn default() -> (l: Lang)
        ensures
            l == Lang::Uk,
    {
        Lang::Uk
    }
}

impl Lang {
    /// The Ukrainian or the English text.
    pub open spec fn choose_text<T>(self, uk: T, en: T) -> T {
        match self {
            Lang::Uk => uk,
            Lang::En => en,
        }
    }

    /// The Ukrainian or the English text.
    pub fn pick<'a>(self, uk: &'a str, en: &'a str) -> (r: &'a str)
        ensures
            r == self.choose_text(uk, en),
    {
        match self {
            Lang::Uk => uk,
            Lang::En => en,
        }
    }

    /// The language a code names: `uk` or `ua` is Ukrainian, `en` English.
    pub open spec fn spec_from_code(code: Seq<char>) -> Option<Lang> {
        if code == "uk"@ || code == "ua"@ {
            Some(Lang::Uk)
        } else if code == "en"@ {
            Some(Lang::En)
        } else {
            None
        }
    }

    pub fn from_code(code: &str) -> (r: Option<Lang>)
        ensures
            r == Self::spec_from_code(code@),
    {
        if str_eq(code, "uk") || str_eq(code, "ua") {
            Some(Lang::Uk)
        } else if str_eq(code, "en") {
            Some(Lang::En)
        } else {
            None
        }
    }
}

} // verus!
