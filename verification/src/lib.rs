//! Orders the lines of a text by one of several rules: plain text, text with
//! a leading number, dates, file paths, IP addresses and IP networks. A
//! [`sorter::Sorter`] either checks that lines are already in order, and
//! unique where that is asked for, or puts them in order.
//!
//! Every function states what it computes over sequences of characters, and
//! [`laws`] holds what follows: how the orders treat lines of different
//! kinds, that the check and the sort agree, and that sorting twice is as
//! good as sorting once.

pub mod arrange;
pub mod chars;
pub mod collation;
pub mod comparer;
pub mod datetime;
pub mod ending;
pub mod error;
pub mod ip;
pub mod ip_order;
pub mod laws;
pub mod line;
pub mod network;
pub mod numbered;
pub mod path;
pub mod run;
pub mod seen;
pub mod sorter;
pub mod text;
