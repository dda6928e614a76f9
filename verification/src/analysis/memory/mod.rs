pub mod known_names;
