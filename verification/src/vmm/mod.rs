//! Building page tables: entry builders and the mappers that walk and fill
//! the hierarchy.

pub mod active_mapper;
pub mod builder;
pub mod mapper;
pub mod model;
pub mod range;
pub mod walk;

pub use active_mapper::ActiveMapper;
pub use mapper::Mapper;
