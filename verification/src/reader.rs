pub mod xml_reader;
pub mod csv_reader;
