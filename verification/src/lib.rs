//! Classify an email address against a compiled map of mailbox rules.
//!
//! A configuration names mailboxes and gives each a blob of exact
//! addresses and a blob of regular-expression patterns.  `compile`
//! normalizes the entries and builds an [`AddressMap`];
//! `mailbox_name_for_address` decides which mailbox owns an address:
//! exact entries first, then the earliest declared matching pattern.

pub mod address_map;
pub mod laws;
pub mod pattern;
pub mod text;
