pub mod ownership_domain;
pub mod ownership_state;
pub mod path_uf;
pub mod report;
