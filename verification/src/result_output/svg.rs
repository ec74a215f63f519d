pub mod path_group;
