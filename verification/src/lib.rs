//! Worker records that compare by identifier and by value, with their text
//! form, and a handful of transformations and producers of number sequences.
pub mod decimal;
pub mod e_common_traits;
pub mod f_iterators;
pub mod fields;
