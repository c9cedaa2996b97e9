pub mod typesystem;
pub mod class;
pub mod instruction;
pub mod function;
pub mod binder;
pub mod verification;
