//! A pager's core: a line-buffering and classification pipeline that
//! presents a large, append-only line source through a small scrollable
//! viewport, with live substring filtering and contextual display.
//!
//! Lines flow on demand through three layers: a [`line_buffer::LineBuffer`]
//! memoizes and numbers lines pulled from a forward-only
//! [`source::LineSource`]; a [`context_buffer::ContextBuffer`] classifies
//! them against a [`filtered::FilterPredicate`] into `Match`, `Context`,
//! `Gap` and `Unfiltered` lines, collapsing long non-matching spans into
//! single gap markers; and a [`window_buffer::WindowBuffer`] paginates the
//! classified stream in both directions. What the classified stream must
//! be, and the laws it obeys, are stated in [`classify`].

pub mod buffer;
pub mod classify;
pub mod context_buffer;
pub mod filtered;
pub mod line_buffer;
pub mod source;
pub mod substring;
pub mod window_buffer;
