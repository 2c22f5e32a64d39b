//! Game rules of a small turn-based 2D role-playing game: entities and their
//! statistics, the tile world, enemy wandering, turn-based combat, chests and
//! map files.

pub mod chance;
pub mod types;
pub mod joueur;
pub mod ennemi;
pub mod world;
pub mod entity;
pub mod combat;
pub mod map;
pub mod mapfile;
pub mod coffre;
pub mod game;
