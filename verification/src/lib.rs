pub mod constants;
pub mod csv_formatter;
pub mod entries;
pub mod insertion_order_map;
pub mod map_key;
pub mod pdf_formatter;
pub mod session;
pub mod text;
