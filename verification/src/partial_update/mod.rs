pub mod changes;
pub mod notifications;
pub mod object_sets;
pub mod tree;
