//! Helps shipping Android `strings.xml` texts off to be localized (as CSV
//! files) & merging localized texts back into `strings.xml` files, along with
//! a few common validations on those files.

pub mod android_string;
pub mod names;
pub mod localizable_strings;
pub mod localized_string;
pub mod localized_strings;
pub mod ops;
pub mod util;
mod external;
pub mod error;
pub mod text;
pub mod validate;
pub mod reader;
pub mod localize;
pub mod localized;
pub mod cli;
pub mod writer;
