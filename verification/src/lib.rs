pub mod ascii;
pub mod config;
pub mod highlight;
pub mod lines;
pub mod matching;
pub mod search;

pub use config::Config;
pub use highlight::highlight;
pub use lines::split_lines;
pub use search::search;
pub use search::search_case_insensitive;
pub use search::search_lines;
