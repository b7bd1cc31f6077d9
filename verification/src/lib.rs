//! The decisions of a complete-set rebalancer for binary crypto markets.
//!
//! One share of each outcome of a binary market is a complete set, worth one unit
//! of collateral. The strategy looks for books on which a complete set can be
//! bought for less and merged, or split and sold for more, after fees and reserves.
//! Everything it decides is here: which markets count, what their books offer, when
//! an offer is believed, when a signal goes out, and what is recorded. What is read
//! from and sent to the outside stands in the program around the library.
//!
//! - [`decimal`], [`ints`], [`text`], [`sorting`], [`collections`], [`json`],
//!   [`identity`]: the values that the rest is stated over.
//! - [`config`], [`error`], [`cli`]: what is configured, refused and asked for.
//! - [`gamma`], [`clob`], [`shards`]: markets, books and subscriptions.
//! - [`pricing`]: what a pair of books offers.
//! - [`gate`]: when a direction and a duration have proved themselves, and which
//!   cycles may start.
//! - [`service`], [`strategy`], [`link`], [`metrics`], [`decision_store`]: the
//!   evaluation cycle, the signals it sends and the decisions it records.
//! - [`snapshots`], [`store_calibration`], [`store_replay`]: recorded decisions
//!   against recorded books.
//!
//! Prices, sizes and profits are decimals of `rust_decimal`. An operation on them
//! can leave their range: a function that may run into this has a variant that
//! begins with `try_` and says so, or says so in its own result.

pub mod cli;
pub mod clob;
pub mod collections;
pub mod config;
pub mod decimal;
pub mod decision_store;
pub mod error;
pub mod gamma;
pub mod gate;
pub mod identity;
pub mod ints;
pub mod json;
pub mod link;
pub mod metrics;
pub mod pricing;
pub mod service;
pub mod shards;
pub mod snapshots;
pub mod sorting;
pub mod store_calibration;
pub mod store_replay;
pub mod strategy;
pub mod text;
