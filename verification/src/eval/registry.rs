//! Where each built-in function appears in the reference window.

use vstd::prelude::*;

verus! {

/// Where a function appears in the reference window.
#[derive(Debug, Clone, Copy, PartialEq, Eq, Structural)]
pub enum FunctionCategory {
    Core,
    Logic,
    Trig,
    Finance,
    Dates,
    Accounting,
    Stats,
    Data,
    Programmer,
    Controls,
}

/// Every category, in reference-window order.
pub open spec fn all_categories() -> Seq<FunctionCategory> {
    seq![
        FunctionCategory::Core,
        FunctionCategory::Logic,
        FunctionCategory::Trig,
        FunctionCategory::Finance,
        FunctionCategory::Dates,
        FunctionCategory::Accounting,
        FunctionCategory::Stats,
        FunctionCategory::Data,
        FunctionCategory::Programmer,
        FunctionCategory::Controls,
    ]
}

/// A category's reference-window heading.
pub open spec fn heading_of(c: FunctionCategory) -> Seq<char> {
    match c {
        FunctionCategory::Core => "Core & Algebra"@,
        FunctionCategory::Logic => "Logic"@,
        FunctionCategory::Trig => "Trigonometry"@,
        FunctionCategory::Finance => "Finance"@,
        FunctionCategory::Dates => "Dates"@,
        FunctionCategory::Accounting => "Accounting"@,
        FunctionCategory::Stats => "Statistics"@,
        FunctionCategory::Data => "Data & Text"@,
        FunctionCategory::Programmer => "Programmer"@,
        FunctionCategory::Controls => "Controls"@,
    }
}

/// A category's single-word module name.
pub open spec fn module_name_of(c: FunctionCategory) -> Seq<char> {
    match c {
        FunctionCategory::Core => "Core"@,
        FunctionCategory::Logic => "Logic"@,
        FunctionCategory::Trig => "Trig"@,
        FunctionCategory::Finance => "Finance"@,
        FunctionCategory::Dates => "Dates"@,
        FunctionCategory::Accounting => "Accounting"@,
        FunctionCategory::Stats => "Stats"@,
        FunctionCategory::Data => "Data"@,
        FunctionCategory::Programmer => "Programmer"@,
        FunctionCategory::Controls => "Controls"@,
    }
}

impl FunctionCategory {
    /// Every category, in reference-window order.
    pub fn all() -> (r: [FunctionCategory; 10])
        ensures
            r@ == all_categories(),
    {
        [
            FunctionCategory::Core,
            FunctionCategory::Logic,
            FunctionCategory::Trig,
            FunctionCategory::Finance,
            FunctionCategory::Dates,
            FunctionCategory::Accounting,
            FunctionCategory::Stats,
            FunctionCategory::Data,
            FunctionCategory::Programmer,
            FunctionCategory::Controls,
        ]
    }

    /// The reference-window heading.
    pub fn heading(&self) -> (r: &'static str)
        ensures
            r@ == heading_of(*self),
    {
        match self {
            FunctionCategory::Core => "Core & Algebra",
            FunctionCategory::Logic => "Logic",
            FunctionCategory::Trig => "Trigonometry",
            FunctionCategory::Finance => "Finance",
            FunctionCategory::Dates => "Dates",
            FunctionCategory::Accounting => "Accounting",
            FunctionCategory::Stats => "Statistics",
            FunctionCategory::Data => "Data & Text",
            FunctionCategory::Programmer => "Programmer",
            FunctionCategory::Controls => "Controls",
        }
    }

    /// Single-word module name for `Module::builtin` qualified access (the
    /// heading isn't a valid identifier).
    pub fn module_name(&self) -> (r: &'static str)
        ensures
            r@ == module_name_of(*self),
    {
        match self {
            FunctionCategory::Core => "Core",
            FunctionCategory::Logic => "Logic",
            FunctionCategory::Trig => "Trig",
            FunctionCategory::Finance => "Finance",
            FunctionCategory::Dates => "Dates",
            FunctionCategory::Accounting => "Accounting",
            FunctionCategory::Stats => "Stats",
            FunctionCategory::Data => "Data",
            FunctionCategory::Programmer => "Programmer",
            FunctionCategory::Controls => "Controls",
        }
    }
}

} // verus!
