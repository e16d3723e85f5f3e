//! Full-width punctuation for Chinese input mode, and the validation and
//! drafting rules of the user's punctuation map.

pub mod chars;
pub mod editor;
pub mod punctuation;
