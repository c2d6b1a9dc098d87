//! Presentation engine of a terminal poetry reader: the document model, text
//! layout (bidirectional and vertical scripts), scrolling, the library index
//! and the modal navigation state.
pub mod text;
pub mod model;
pub mod layout;
pub mod index;
pub mod app;
pub mod utils;
pub mod laws;
pub mod viewport;
