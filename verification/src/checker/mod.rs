pub mod checker_trait;
