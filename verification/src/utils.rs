pub mod id_generator;
pub mod path;
pub mod random;
pub mod str_map;
pub mod text;
pub mod type_ids;
pub mod factory;
pub mod vec_set;
