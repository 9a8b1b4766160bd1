//! A WHOIS client library: reading the program's arguments, finding the server that an answer
//! refers to, and the referral engine that decides which server to ask next.
pub mod config;
pub mod engine;
pub mod referral;
pub mod text;
