pub mod item;
pub mod inventory;
pub mod parsed_line;
pub mod log_entry;
pub mod pipeline;
pub mod laws;
