//! The web site's request handling: parsing HTTP requests and form bodies,
//! choosing what to answer, and describing the answers.

pub mod utils;
pub mod validation;
pub mod users;
pub mod request;
pub mod response;
pub mod router;
pub mod session;
pub mod register;
pub mod answer;
