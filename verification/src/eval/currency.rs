//! A currency the language knows: the tag on a `Money` value. A closed,
//! curated set (not "any Unicode currency glyph"), so an amount always names
//! a real currency and the canonical `Money(v, "USD")` form round-trips by
//! code.

use vstd::prelude::*;
use crate::text::{to_lowercase, lowercase};

verus! {

/// The closed set of currencies the language understands.
#[derive(Debug, Clone, Copy, PartialEq, Eq, Structural)]
pub enum Currency {
    Usd,
    Eur,
    Gbp,
    Jpy,
    Cny,
    Inr,
    Krw,
    Rub,
    Chf,
    Btc,
}

/// The ISO-style code of a currency.
pub open spec fn code_of(c: Currency) -> Seq<char> {
    match c {
        Currency::Usd => "USD"@,
        Currency::Eur => "EUR"@,
        Currency::Gbp => "GBP"@,
        Currency::Jpy => "JPY"@,
        Currency::Cny => "CNY"@,
        Currency::Inr => "INR"@,
        Currency::Krw => "KRW"@,
        Currency::Rub => "RUB"@,
        Currency::Chf => "CHF"@,
        Currency::Btc => "BTC"@,
    }
}

/// The display glyph of a currency.
pub open spec fn symbol_of(c: Currency) -> Seq<char> {
    match c {
        Currency::Usd => "$"@,
        Currency::Eur => "€"@,
        Currency::Gbp => "£"@,
        Currency::Jpy => "¥"@,
        Currency::Cny => "CN¥"@,
        Currency::Inr => "₹"@,
        Currency::Krw => "₩"@,
        Currency::Rub => "₽"@,
        Currency::Chf => "CHF "@,
        Currency::Btc => "₿"@,
    }
}

/// The currency a leading glyph denotes.
pub open spec fn currency_of_glyph(g: char) -> Option<Currency> {
    if g == '$' || g == '＄' {
        Some(Currency::Usd)
    } else if g == '€' {
        Some(Currency::Eur)
    } else if g == '£' || g == '￡' {
        Some(Currency::Gbp)
    } else if g == '¥' || g == '￥' {
        Some(Currency::Jpy)
    } else if g == '₹' {
        Some(Currency::Inr)
    } else if g == '₩' {
        Some(Currency::Krw)
    } else if g == '₽' {
        Some(Currency::Rub)
    } else if g == '₿' {
        Some(Currency::Btc)
    } else {
        None
    }
}

/// The currency whose lowercased code is `lowered`.
pub open spec fn currency_of_lowered_code(lowered: Seq<char>) -> Option<Currency> {
    if lowered == "usd"@ {
        Some(Currency::Usd)
    } else if lowered == "eur"@ {
        Some(Currency::Eur)
    } else if lowered == "gbp"@ {
        Some(Currency::Gbp)
    } else if lowered == "jpy"@ {
        Some(Currency::Jpy)
    } else if lowered == "cny"@ {
        Some(Currency::Cny)
    } else if lowered == "inr"@ {
        Some(Currency::Inr)
    } else if lowered == "krw"@ {
        Some(Currency::Krw)
    } else if lowered == "rub"@ {
        Some(Currency::Rub)
    } else if lowered == "chf"@ {
        Some(Currency::Chf)
    } else if lowered == "btc"@ {
        Some(Currency::Btc)
    } else {
        None
    }
}

/// `str` equality, by characters.
pub fn str_equal(a: &str, b: &str) -> (r: bool)
    ensures
        r == (a@ == b@),
{
    let x = crate::text::chars_of(a);
    let y = crate::text::chars_of(b);
    if x.len() != y.len() {
        return false;
    }
    let mut i: usize = 0;
    while i < x.len()
        invariant
            x@ == a@,
            y@ == b@,
            x@.len() == y@.len(),
            i <= x@.len(),
            forall|k: int| 0 <= k < i ==> x@[k] == y@[k],
        decreases x@.len() - i,
    {
        if x[i] != y[i] {
            return false;
        }
        i += 1;
    }
    proof {
        assert(a@ =~= b@);
    }
    true
}

impl Currency {
    /// Every currency, in declaration order.
    pub fn all() -> (r: [Currency; 10])
        ensures
            r@ == seq![Currency::Usd, Currency::Eur, Currency::Gbp, Currency::Jpy, Currency::Cny,
                Currency::Inr, Currency::Krw, Currency::Rub, Currency::Chf, Currency::Btc],
    {
        [Currency::Usd, Currency::Eur, Currency::Gbp, Currency::Jpy, Currency::Cny,
            Currency::Inr, Currency::Krw, Currency::Rub, Currency::Chf, Currency::Btc]
    }

    /// The ISO-ish code used in the canonical constructor form, uppercase,
    /// e.g. "USD".
    pub fn code(self) -> (r: &'static str)
        ensures
            r@ == code_of(self),
    {
        match self {
            Currency::Usd => "USD",
            Currency::Eur => "EUR",
            Currency::Gbp => "GBP",
            Currency::Jpy => "JPY",
            Currency::Cny => "CNY",
            Currency::Inr => "INR",
            Currency::Krw => "KRW",
            Currency::Rub => "RUB",
            Currency::Chf => "CHF",
            Currency::Btc => "BTC",
        }
    }

    /// The glyph a currency amount displays with (`$10.00`, `CHF 10.00`).
    /// CNY and CHF show a disambiguated prefix.
    pub fn symbol(self) -> (r: &'static str)
        ensures
            r@ == symbol_of(self),
    {
        match self {
            Currency::Usd => "$",
            Currency::Eur => "€",
            Currency::Gbp => "£",
            Currency::Jpy => "¥",
            Currency::Cny => "CN¥",
            Currency::Inr => "₹",
            Currency::Krw => "₩",
            Currency::Rub => "₽",
            Currency::Chf => "CHF ",
            Currency::Btc => "₿",
        }
    }

    /// The currency a leading glyph denotes, or `None`. `$` is USD and `¥`
    /// JPY; fullwidth forms normalize to their base; CNY and CHF have no
    /// glyph.
    pub fn from_glyph(glyph: char) -> (r: Option<Self>)
        ensures
            r == currency_of_glyph(glyph),
    {
        match glyph {
            '$' | '＄' => Some(Currency::Usd),
            '€' => Some(Currency::Eur),
            '£' | '￡' => Some(Currency::Gbp),
            '¥' | '￥' => Some(Currency::Jpy),
            '₹' => Some(Currency::Inr),
            '₩' => Some(Currency::Krw),
            '₽' => Some(Currency::Rub),
            '₿' => Some(Currency::Btc),
            _ => None,
        }
    }

    /// The currency for an ISO code, case-insensitively; `None` for an
    /// unknown code.
    pub fn from_code(code: &str) -> (r: Option<Self>)
        ensures
            r == currency_of_lowered_code(lowercase(code@)),
    {
        let lowered = to_lowercase(code);
        let l = lowered.as_str();
        if str_equal(l, "usd") {
            Some(Currency::Usd)
        } else if str_equal(l, "eur") {
            Some(Currency::Eur)
        } else if str_equal(l, "gbp") {
            Some(Currency::Gbp)
        } else if str_equal(l, "jpy") {
            Some(Currency::Jpy)
        } else if str_equal(l, "cny") {
            Some(Currency::Cny)
        } else if str_equal(l, "inr") {
            Some(Currency::Inr)
        } else if str_equal(l, "krw") {
            Some(Currency::Krw)
        } else if str_equal(l, "rub") {
            Some(Currency::Rub)
        } else if str_equal(l, "chf") {
            Some(Currency::Chf)
        } else if str_equal(l, "btc") {
            Some(Currency::Btc)
        } else {
            None
        }
    }
}

} // verus!
