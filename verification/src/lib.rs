//! Discovery of author usernames in HTTP responses.
//!
//! The library models the payload of an HTTP response (status, optional
//! `Location` header, optional body text) and extracts author usernames
//! from it by three independent pattern rules — the redirect-path rule,
//! the HTML hyperlink rule, and the body-class rule — merging everything
//! that is found into one deduplicated set. It also takes every decision
//! of the probe loop around it: which statuses are redirects, what URL a
//! candidate ID maps to, and where a redirect leads.

pub mod chars;
pub mod classes;
pub mod extract;
pub mod probe;
pub mod scan;
pub mod userset;
