pub mod box_model;
pub mod parser;
pub mod stylesheet;
