//! Installed model packs: commands, the ledger of active packs and what changes it.

pub mod activation;
pub mod change;
pub mod command;
pub mod command_laws;
pub mod contents;
pub mod contents_laws;
pub mod deletion_laws;
pub mod doctor;
pub mod doctor_laws;
pub mod error;
pub mod health_laws;
pub mod import_laws;
pub mod inventory_laws;
pub mod laws;
pub mod ledger_laws;
pub mod listing_laws;
pub mod mutation_laws;
pub mod record_laws;
pub mod records;
pub mod refusal_laws;
pub mod removal;
pub mod removal_laws;
pub mod repair;
pub mod report;
pub mod report_laws;
pub mod scan;
pub mod state;
pub mod transaction;
pub mod transaction_laws;
pub mod validation;
pub mod validation_laws;
pub mod wording_laws;
