pub mod data;
pub mod deduce;
pub mod error;
pub mod json;
pub mod order;
pub mod paths;
pub mod required;
pub mod text;
pub mod tools;
pub mod validation;
