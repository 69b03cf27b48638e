//! Account stores: in memory, on disk, and the index of account locations.

pub mod account_index_manager;
pub mod accounts_db;
pub mod accounts_file_handler;
pub mod disk_accounts_handler;
pub mod ram_accounts_handler;
