//! Firmware bundles for Espressif chips: which image goes to which partition,
//! which eFuses are burned, and whether all of it fits.

use vstd::prelude::*;

pub mod add_laws;
pub mod archive;
pub mod assemble;
pub mod assembly_laws;
pub mod bundle;
pub mod chip;
pub mod create;
pub mod create_laws;
pub mod efuse;
pub mod efuse_laws;
pub mod fault;
pub mod flash_laws;
pub mod image;
pub mod laws;
pub mod loader;
pub mod merge;
pub mod name_laws;
pub mod partition;
pub mod payload;
pub mod place_laws;
pub mod pool;
pub mod row_laws;
pub mod table;
pub mod table_text;
pub mod text;
pub mod text_laws;
pub mod tools;
pub mod unpack;
pub mod view_laws;
pub mod zip_laws;

verus! {

} // verus!
