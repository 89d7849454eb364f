//! The dice designer's texture choices: which image files color, raise and
//! light each face of a die.
use vstd::prelude::*;

use std::collections::HashMap;
use std::path::PathBuf;

use crate::dice::{spec_max_value, DiceType};

verus! {

broadcast use vstd::std_specs::hash::group_hash_axioms;

#[verifier::external_type_specification]
#[verifier::external_body]
pub struct ExPathBuf(std::path::PathBuf);

/// The image files of one face (or of all faces): color, depth and normal
/// maps, each optional.
pub struct FaceTextureSet {
    pub color_path: Option<PathBuf>,
    pub depth_path: Option<PathBuf>,
    pub normal_path: Option<PathBuf>,
}

/// Whether no image is chosen.
pub open spec fn no_textures(t: FaceTextureSet) -> bool {
    t.color_path is None && t.depth_path is None && t.normal_path is None
}

impl FaceTextureSet {
    /// No images chosen.
    pub fn default() -> (r: FaceTextureSet)
        ensures
            no_textures(r),
    {
        FaceTextureSet { color_path: None, depth_path: None, normal_path: None }
    }
}

/// The textures of a die: per face value, and a fallback for faces without
/// their own.
pub struct DiceTextureConfig {
    pub die_type: DiceType,
    pub face_textures: HashMap<u32, FaceTextureSet>,
    pub default_textures: FaceTextureSet,
}

impl DiceTextureConfig {
    /// A die with an empty texture set for each face value `1..=faces` and
    /// an empty fallback.
    pub fn new(die_type: DiceType) -> (r: DiceTextureConfig)
        ensures
            r.die_type == die_type,
            r.face_textures@.dom() == Set::new(|v: u32| 1 <= v <= spec_max_value(die_type)),
            forall|v: u32| r.face_textures@.contains_key(v) ==> no_textures(#[trigger] r.face_textures@[v]),
            no_textures(r.default_textures),
    {
        let face_count = die_type.face_count();
        let mut face_textures: HashMap<u32, FaceTextureSet> = HashMap::new();
        let mut face_value: u32 = 1;
        while face_value <= face_count
            invariant
                face_count == spec_max_value(die_type),
                1 <= face_value <= face_count + 1,
                face_textures@.dom() == Set::new(|v: u32| 1 <= v < face_value),
                forall|v: u32| face_textures@.contains_key(v) ==> no_textures(#[trigger] face_textures@[v]),
            decreases face_count + 1 - face_value,
        {
            face_textures.insert(face_value, FaceTextureSet::default());
            assert(face_textures@.dom() =~= Set::new(|v: u32| 1 <= v < face_value + 1));
            face_value = face_value + 1;
        }
        assert(face_textures@.dom() =~= Set::new(|v: u32| 1 <= v <= spec_max_value(die_type)));
        DiceTextureConfig { die_type, face_textures, default_textures: FaceTextureSet::default() }
    }
}

/// The kinds of texture a face can have.
#[derive(Clone, Copy, Debug, PartialEq, Eq, Structural)]
pub enum TextureType {
    Color,
    Depth,
    Normal,
}

impl TextureType {
    /// The name shown for the kind.
    pub fn display_name(&self) -> (r: &'static str)
        ensures
            r@ == match *self {
                TextureType::Color => "Color Map"@,
                TextureType::Depth => "Depth Map"@,
                TextureType::Normal => "Normal Map"@,
            },
    {
        match self {
            TextureType::Color => "Color Map",
            TextureType::Depth => "Depth Map",
            TextureType::Normal => "Normal Map",
        }
    }

    /// What the kind of texture does.
    pub fn description(&self) -> (r: &'static str)
        ensures
            r@ == match *self {
                TextureType::Color => "The visible color/albedo texture (PNG)"@,
                TextureType::Depth => "Height map for parallax effect - white=surface, black=deep (PNG)"@,
                TextureType::Normal => "Normal map for surface detail lighting (PNG)"@,
            },
    {
        match self {
            TextureType::Color => "The visible color/albedo texture (PNG)",
            TextureType::Depth => "Height map for parallax effect - white=surface, black=deep (PNG)",
            TextureType::Normal => "Normal map for surface detail lighting (PNG)",
        }
    }
}

} // verus!
