pub mod guard;
pub mod movie;
pub mod paths;
pub mod scanner;
pub mod selector;
