//! Where the data lives and how its columns are laid out.
use vstd::prelude::*;

verus! {

/// The settings that every operation of the contact manager works with.
pub struct Config {
    /// Path of the data file.
    pub data_path: &'static str,
    /// Path of the scratch file that a mutation writes before it replaces
    /// the data file.
    pub temp_path: &'static str,
    /// Number of fields in every record.
    pub total_num_cols: usize,
    /// Column of the identifier.
    pub id_idx: usize,
    /// Column of the name.
    pub name_idx: usize,
    /// Column of the email address.
    pub email_idx: usize,
}

pub const DATA_PATH: &'static str = "contact-data.csv";

pub const TEMP_PATH: &'static str = "contact-data.temp";

pub const TOTAL_NUM_COLS: usize = 3;

pub const ID_IDX: usize = 0;

pub const NAME_IDX: usize = 1;

pub const EMAIL_IDX: usize = 2;

} // verus!
