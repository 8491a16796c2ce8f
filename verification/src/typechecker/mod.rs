pub mod spec;
pub mod typechecker;
pub mod erase;
pub mod calls;
pub mod rules;
