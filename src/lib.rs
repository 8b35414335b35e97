pub mod text;
pub mod entry;
pub mod rank;
pub mod catalog;
pub mod locate;
pub mod launch;
