//! A URL shortener's link table and request decisions, with their contracts.
//!
//! `link` holds the record type and its mathematical model, `store` the table
//! of records with its four operations, `http` the replies that the routes
//! build from what the table returned, and `laws` the properties that relate
//! several operations.

mod http;
mod laws;
mod link;
mod store;

pub use http::{
    failure_status, finish_resolve, permanent_redirect, Redirect, INTERNAL_SERVER_ERROR,
    MOVED_PERMANENTLY, NOT_FOUND,
};
pub use link::{Link, LinkModel};
pub use laws::{
    lemma_created_then_resolved, lemma_create, lemma_delete_between_read_and_increment,
    lemma_deleted_is_gone, lemma_ids_not_reused, lemma_interleaved_resolutions,
    lemma_never_created, lemma_operations_keep_valid, lemma_resolve_repeatedly, lemma_round_trip,
    resolve_times,
};
pub use store::{
    can_increment, can_insert, column_max, delete_spec, empty_view, find_spec, increment_spec,
    insert_spec, redirect_target, resolve_result, rows_form_table, valid, LinkStore, StoreError, StoreView,
};
