//! Verified core of a 3D D&D dice roller: dice types, roll commands,
//! character sheets, persistent character storage and small helpers.
pub mod dice;
pub mod text;

pub mod keyed;
pub mod sheet;
pub mod character;
pub mod store;
pub mod command;
pub mod settings;
pub mod color;
pub mod contributors;
pub mod legacy;
pub mod icons;
pub mod designer;
pub mod panel;
pub mod fits;
