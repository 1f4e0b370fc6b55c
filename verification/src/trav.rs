pub mod trav_index;
pub mod trav_line;
