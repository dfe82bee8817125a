pub mod variable_collector;
pub mod rebuilder;
pub mod magic_vars_collector;
pub mod magic_vars;
pub mod flatten_access;
