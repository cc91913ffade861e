//! A verified core for a TOTP/HOTP authenticator: one-time code generation,
//! secret handling, `otpauth://` URI cleaning and parsing, and the account
//! store operations behind the desktop application.

pub mod text;
pub mod decimal;
pub mod hotp;
pub mod secret;
pub mod totp;
pub mod account;
pub mod uri;
