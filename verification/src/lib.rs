//! A newsletter service's core: a request-level idempotency guard and a
//! transactional delivery queue, with the rules that surround them.
//!
//! The guard ([`idempotency`]) makes a retried request observe one
//! execution and one response: the first caller to claim a pair of owner
//! and key processes the request and saves its response, every other
//! caller waits for it and gets that response. The queue
//! ([`delivery_queue`]) holds one row per issue and recipient; a worker
//! ([`issue_delivery_worker`]) locks a row, attempts the delivery once and
//! deletes the row, whatever the mailer answered.
//!
//! Both tables are kept here in memory, with the locking that a
//! relational store gives: a row written or selected by a transaction is
//! held by it until it commits or is rolled back, and rows that are held
//! are passed over. The worker itself is written as steps, from what its
//! owner reports to what it asks for next, so that the same decisions run
//! against these tables and against a database.

pub mod authentication;
pub mod configuration;
pub mod delivery_queue;
pub mod domain;
pub mod email_client;
pub mod idempotency;
pub mod issue_delivery_worker;
pub mod newsletter_issue;
pub mod routes;
pub mod supervision;
pub mod text;
