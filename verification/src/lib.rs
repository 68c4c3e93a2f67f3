//! A bindle store kept in a directory tree: invoices under `invoices`, the data of parcels under
//! `parcels`, each in a directory named by a digest.
//!
//! [`provider`] is where to start. Its operations do no input or output themselves: each names
//! what it wants done, is handed what came of it, and goes on from there ([`effect`]). What an
//! operation does is stated for every answer it can get. The modules named `.._laws` state what
//! follows for whole runs, on a model of the file system in which any call may fail ([`world`]).

pub mod answer_laws;
pub mod cache;
pub mod caching_laws;
pub mod create_invoice;
pub mod create_invoice_laws;
pub mod create_parcel;
pub mod create_parcel_laws;
pub mod digest;
pub mod effect;
pub mod error;
pub mod fetch_invoice;
pub mod history_laws;
pub mod invoice;
pub mod layout;
pub mod meaning_laws;
pub mod path;
pub mod provider;
pub mod read_parcel;
pub mod reading_laws;
pub mod store_laws;
pub mod warm_index;
pub mod warm_index_laws;
pub mod world;
pub mod yank_invoice;
pub mod yank_invoice_laws;
