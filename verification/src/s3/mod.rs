//! The S3 protocol: signatures, errors, dates, ranges and routing.

pub mod auth;
pub mod auth_laws;
pub mod errors;
pub mod dates;
pub mod response;
pub mod date_laws;
pub mod conditions;
pub mod range;
pub mod request;
pub mod request_laws;
pub mod route;
pub mod route_laws;
pub mod objects;
pub mod object_laws;
pub mod listing;
pub mod settings;
pub mod signing_laws;
