pub mod two_pointer_comparison;
pub mod two_pointer_traversal;
pub mod xml_helper;
pub mod foreign_locale_ids_finder;
