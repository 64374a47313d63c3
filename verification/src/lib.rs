//! The rules of two small web servers, with proofs.
//!
//! Flax is a static file server: it serves `.html` and `.css` files from one directory and
//! nothing else. The web kernel exposes two ports, one of them under TLS. This library decides
//! what they do; a program around it performs the input and output that it asks for.
//!
//! Functions that need the outside world are asked again and again, each time with all that is
//! known, and answer with the next thing to do.
pub mod admission;
pub mod client;
pub mod config;
pub mod connection;
pub mod kernel;
pub mod listener;
pub mod log;
pub mod paths;
pub mod percent;
pub mod privileges;
pub mod request;
pub mod resolve;
pub mod response;
pub mod status;
pub mod text;
pub mod tls;
