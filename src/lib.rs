//! Masking text with formats such as `XXX-XX-XXXX`: each `X` takes the next
//! character of the text and every other character stands as it is. A list of
//! formats separated by `|` is cut down to one by the text's length.
pub mod apply;
pub mod laws;
pub mod masking;
pub mod select;
pub mod text;

pub use apply::apply_format;
pub use masking::{LengthWarning, MaskReport, mask, mask_report};
pub use select::{count_placeholders, select_format};
