pub mod amount;
pub mod budget;
pub mod note;
pub mod state;
pub mod store;
pub mod task;
pub mod text;
