pub mod call_visitor;
