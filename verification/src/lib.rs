//! Software token compatible with the SecurID SDTID provisioning format:
//! parses an SDTID token batch, derives the token's symmetric seed, and
//! computes the time-bounded decimal passcode a hardware fob would display.

pub mod aes;
pub mod b64;
pub mod bcd;
pub mod crypto;
pub mod generate;
pub mod laws;
pub mod token;
pub mod xml;

pub use aes::encrypt;
pub use bcd::bcd2;
pub use bcd::bcd4;
pub use crypto::IV;
pub use generate::generate;
pub use generate::key_from_time;
pub use token::RSAToken;
pub use token::TokenDuration;
pub use token::TokenError;
pub use token::TokenTime;
pub use xml::read_string;
pub use xml::read_string as read_xml_string;
pub use xml::TKN;
pub use xml::TKNBatch;
pub use xml::TKNHeader;
pub use xml::TKNTrailer;
pub use crypto::extract_seed;
