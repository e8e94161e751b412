//! Interactive selection engine of an application launcher: fuzzy filtering
//! of a candidate list, the query buffer, the selection state machine and the
//! per-frame snapshot handed to a renderer.

mod arguments;
mod config;
mod engine;
mod frame;
mod matcher;
mod query;
mod ranking;

pub use arguments::Arguments;
pub use config::{Color, Config};
pub use engine::{
    batch_result, edited, filtered_view, first_or_query, is_cancel, is_confirm, is_terminal,
    lemma_cancel_ends_batch, lemma_empty_query_view, lemma_filtered_view, matched_by,
    outcome_model, pick, query_after, verdict, Event, Key, Outcome, Session,
};
pub use frame::{cursor_left, first_n, row_capacity, rows_for, Snapshot};
pub use matcher::{accepts, agrees, fold_ascii, has_ascii_upper, ordered_in, Matcher};
pub use query::{without_last, QueryBuffer};
pub use ranking::{
    by_length, key_is, lemma_by_length, rank_by_length, rank_key, slot, sorted_by_key, texts,
};
