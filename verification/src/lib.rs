pub mod apply;
pub mod args;
pub mod document;
pub mod machine;
pub mod updater;
