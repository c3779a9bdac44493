pub mod checker;
pub mod checkers;
pub mod diff;
pub mod finding;
pub mod package_ownership;
pub mod path;
pub mod survey;
pub mod text;
pub mod util;
