pub mod dispatch;
pub mod rules;
pub mod tree;
