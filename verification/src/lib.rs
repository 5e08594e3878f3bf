pub mod classify;
pub mod composite;
pub mod extract;
pub mod info;
pub mod laws;
pub mod name_laws;
pub mod order_laws;
pub mod report;
pub mod source;
pub mod syntax;
pub mod text;
