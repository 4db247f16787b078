//! Validation of gettext-style translation catalogs: detects translated
//! strings (`msgstr` lines and quoted continuation lines) that omit
//! interpolation placeholders present in their source string (`msgid`).

pub mod coordinate;
pub mod matcher;
pub mod patterns;
pub mod report;
pub mod scanner;
pub mod text;
