//! The library of `pincers`, a clipboard manager modelled on Vim's registers.
//!
//! A [`register::Register`] holds data buffers by MIME type, a [`pincer::Pincer`] manages the
//! numbered and the named registers of one seat, and [`daemon`] answers requests on them.

/// Register addresses
pub mod address;
/// Client-side
pub mod client;
/// Answer requests
pub mod daemon;
/// Errors
pub mod error;
/// Listings of registers
pub mod listing;
/// MIME types
pub mod mime;
/// A [`Pincer`](pincer::Pincer) manages several registers.
pub mod pincer;
/// A [`Register`](register::Register) is a map from MIME types to data buffers
pub mod register;
/// Manage the data of several seats
pub mod seat;
/// Building texts
pub mod text;

