//! The evaluation layer's pure parts: currencies, declared data types, the
//! calendar arithmetic of the date functions, JSON text scanning, and the
//! small enumerations the reference window and the builders use.

pub mod binary_format;
pub mod binary_view;
pub mod builtins;
pub mod currency;
pub mod registry;
pub mod value;
pub mod data_type;
pub mod dates;
pub mod evaluator;
pub mod fixed_decimal;
pub mod fixed_int;
pub mod format_builder;
pub mod functions;
pub mod helpers;
pub mod json;
pub mod money;
pub mod numeric;
