//! What holds of the driver as a whole, whatever the registers answer.

pub mod bus;
pub mod caching;
pub mod chip;
pub mod fifos;
pub mod flags;
pub mod moving;
pub mod outcomes;
pub mod polling;
pub mod reading;
pub mod receiving;
pub mod scripts;
pub mod values;
pub mod writing;
