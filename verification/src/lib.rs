//! Verified cores of a family of small text utilities: range selection in the
//! manner of `cut`, and the counting, offset and choice rules of its siblings.

pub mod cat;
pub mod comm;
pub mod decimal;
pub mod extract;
pub mod find;
pub mod fortune;
pub mod grep;
pub mod head;
pub mod lines;
pub mod lossy;
pub mod mode;
pub mod pattern;
pub mod positions;
pub mod select;
pub mod tail;
pub mod text;
pub mod uniq;
pub mod wc;
