pub mod builder;
pub mod knots_objects;
pub mod parser;
pub mod transpiler;
mod utils;

pub use utils::escape_html;
pub use utils::escape_latex;
pub use utils::get_alpha_numeral;
pub use utils::get_roman_numeral;
