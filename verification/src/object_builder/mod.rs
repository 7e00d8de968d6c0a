pub mod model;
pub mod relations;
pub mod view_plan;
pub mod buffer;
pub mod buffer_stream;
pub mod row_builder;
pub mod laws;
pub mod service;
pub mod builder;
pub mod settings;
