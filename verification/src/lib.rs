//! PostgreSQL string functions, verified.
//!
//! Each SQL function has a type that declares its name and signature and applies it to
//! arguments, and behind it a function on texts: [`encoding`] holds `pg_client_encoding`
//! and `to_ascii`, [`format`] holds `format`, [`quote`] holds `quote_literal` and
//! `quote_nullable`, [`unicode`] holds `normalize`, `casefold` and `unicode_assigned`,
//! and [`unistr`] holds `unistr`. Contracts speak of the views of [`value`] and
//! [`error`]: sequences of characters, with `None` for NULL.

pub mod encoding;
pub mod error;
pub mod format;
pub mod number;
pub mod quote;
pub mod text;
pub mod unicode;
pub mod unistr;
pub mod value;
