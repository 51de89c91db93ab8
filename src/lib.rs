//! Decoding of email addresses hidden by a CDN's email-protection scheme,
//! and a pass that writes the decoded addresses back into a document.
pub mod decode;
pub mod document;
