pub mod analysis;
pub mod checker;
pub mod def_id;
pub mod driver;
pub mod text;
pub mod utils;
