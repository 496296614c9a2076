//! Parameters of plans and resources: the values that a plan hands over,
//! the schemas that say what is accepted, and the validation of values
//! against schemas.

pub mod parse;
pub mod read;
pub mod schema;
pub mod validate;
pub mod value;
pub mod values;
