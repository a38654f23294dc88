//! Browser-autofill support: the message contract shared with the extension
//! and the native-messaging host, and the registrable-domain matching that
//! decides which credentials belong to a page.

pub mod contract;
pub mod matching;
pub mod requests;
