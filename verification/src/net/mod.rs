//! Internet addresses as numbers, and their textual forms.

pub mod addr;
pub mod socket;
pub mod split;
pub mod textual;
