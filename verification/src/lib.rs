pub mod auth;
pub mod base64url;
pub mod cbor;
pub mod crypto;
pub mod db;
pub mod error;
pub mod export;
pub mod folders;
pub mod import;
pub mod models;
pub mod ordering;
pub mod paths;
pub mod routes;
pub mod settings;
pub mod text;
pub mod webauthn;
pub mod weburl;
