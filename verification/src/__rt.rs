//! What the generated code refers to as `::mquote::__rt`: the crates it
//! builds tokens with.
pub use proc_macro2;
pub use quote;
