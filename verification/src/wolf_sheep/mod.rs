//! The wolf-sheep predation model: sheep graze a field of regrowing grass,
//! wolves hunt sheep. This part holds the model's integer rules; an
//! animal's energy is a float and is kept by the caller.

pub mod grass;
pub mod killed;
pub mod life;
pub mod moves;
pub mod pasture;
