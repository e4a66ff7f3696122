pub mod xml_writer;
pub mod csv_writer;
