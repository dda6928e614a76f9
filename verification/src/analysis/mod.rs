pub mod analysis_result;
pub mod callback;
pub mod contain_unsafe;
pub mod global_context;
pub mod memory;
pub mod mir_visitor;
pub mod option;
pub mod ownership;
