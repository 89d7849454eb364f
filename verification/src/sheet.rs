//! The data of a D&D 5e character sheet, with a mathematical model of each
//! part (`deep_view`) and copies that keep the model.
use vstd::prelude::*;

use crate::keyed::KeyedMap;

verus! {

/// A copy of an optional string.
pub fn clone_opt_string(o: &Option<String>) -> (r: Option<String>)
    ensures
        r.deep_view() == o.deep_view(),
{
    match o {
        Some(s) => Some(s.clone()),
        None => None,
    }
}

/// A copy of a list of strings.
pub fn clone_strings(v: &Vec<String>) -> (r: Vec<String>)
    ensures
        r.deep_view() == v.deep_view(),
{
    let r = v.clone();
    assert(r.deep_view() =~= v.deep_view());
    r
}

// ---------------------------------------------------------------------------
// Basic information
// ---------------------------------------------------------------------------

/// Basic character information.
pub struct CharacterInfo {
    pub name: String,
    pub alter_ego: Option<String>,
    pub family_name: Option<String>,
    pub shop_name: Option<String>,
    pub class: String,
    pub subclass: Option<String>,
    pub race: String,
    pub level: i32,
    pub experience: i32,
    pub alignment: Option<String>,
    pub background: Option<String>,
    pub languages: Vec<String>,
}

pub struct CharacterInfoModel {
    pub name: Seq<char>,
    pub alter_ego: Option<Seq<char>>,
    pub family_name: Option<Seq<char>>,
    pub shop_name: Option<Seq<char>>,
    pub class: Seq<char>,
    pub subclass: Option<Seq<char>>,
    pub race: Seq<char>,
    pub level: i32,
    pub experience: i32,
    pub alignment: Option<Seq<char>>,
    pub background: Option<Seq<char>>,
    pub languages: Seq<Seq<char>>,
}

impl DeepView for CharacterInfo {
    type V = CharacterInfoModel;

    open spec fn deep_view(&self) -> CharacterInfoModel {
        CharacterInfoModel {
            name: self.name@,
            alter_ego: self.alter_ego.deep_view(),
            family_name: self.family_name.deep_view(),
            shop_name: self.shop_name.deep_view(),
            class: self.class@,
            subclass: self.subclass.deep_view(),
            race: self.race@,
            level: self.level,
            experience: self.experience,
            alignment: self.alignment.deep_view(),
            background: self.background.deep_view(),
            languages: self.languages.deep_view(),
        }
    }
}

impl Clone for CharacterInfo {
    fn clone(&self) -> (r: Self)
        ensures
            r.deep_view() == self.deep_view(),
    {
        CharacterInfo {
            name: self.name.clone(),
            alter_ego: clone_opt_string(&self.alter_ego),
            family_name: clone_opt_string(&self.family_name),
            shop_name: clone_opt_string(&self.shop_name),
            class: self.class.clone(),
            subclass: clone_opt_string(&self.subclass),
            race: self.race.clone(),
            level: self.level,
            experience: self.experience,
            alignment: clone_opt_string(&self.alignment),
            background: clone_opt_string(&self.background),
            languages: clone_strings(&self.languages),
        }
    }
}

impl CharacterInfo {
    /// Empty texts, level and experience 0, no optional entries.
    pub fn default() -> (r: Self)
        ensures
            r.name@.len() == 0,
            r.class@.len() == 0,
            r.race@.len() == 0,
            r.level == 0,
            r.experience == 0,
            r.alter_ego is None,
            r.family_name is None,
            r.shop_name is None,
            r.subclass is None,
            r.alignment is None,
            r.background is None,
            r.languages@.len() == 0,
    {
        CharacterInfo {
            name: String::new(),
            alter_ego: None,
            family_name: None,
            shop_name: None,
            class: String::new(),
            subclass: None,
            race: String::new(),
            level: 0,
            experience: 0,
            alignment: None,
            background: None,
            languages: Vec::new(),
        }
    }
}

// ---------------------------------------------------------------------------
// Ability scores and combat numbers
// ---------------------------------------------------------------------------

/// The six ability scores.
#[derive(Clone, Copy)]
pub struct Attributes {
    pub strength: i32,
    pub dexterity: i32,
    pub constitution: i32,
    pub intelligence: i32,
    pub wisdom: i32,
    pub charisma: i32,
}

impl DeepView for Attributes {
    type V = Attributes;

    open spec fn deep_view(&self) -> Attributes {
        *self
    }
}

/// The six ability modifiers.
#[derive(Clone, Copy)]
pub struct AttributeModifiers {
    pub strength: i32,
    pub dexterity: i32,
    pub constitution: i32,
    pub intelligence: i32,
    pub wisdom: i32,
    pub charisma: i32,
}

impl DeepView for AttributeModifiers {
    type V = AttributeModifiers;

    open spec fn deep_view(&self) -> AttributeModifiers {
        *self
    }
}

/// Hit points.
#[derive(Clone, Copy)]
pub struct HitPoints {
    pub current: i32,
    pub maximum: i32,
    pub temporary: i32,
}

impl DeepView for HitPoints {
    type V = HitPoints;

    open spec fn deep_view(&self) -> HitPoints {
        *self
    }
}

/// Hit dice (e.g. `1d10`) and how many are left.
pub struct HitDice {
    pub total: String,
    pub current: i32,
}

pub struct HitDiceModel {
    pub total: Seq<char>,
    pub current: i32,
}

impl DeepView for HitDice {
    type V = HitDiceModel;

    open spec fn deep_view(&self) -> HitDiceModel {
        HitDiceModel { total: self.total@, current: self.current }
    }
}

impl Clone for HitDice {
    fn clone(&self) -> (r: Self)
        ensures
            r.deep_view() == self.deep_view(),
    {
        HitDice { total: self.total.clone(), current: self.current }
    }
}

/// Death saving throws.
#[derive(Clone, Copy)]
pub struct DeathSaves {
    pub successes: i32,
    pub failures: i32,
}

impl DeepView for DeathSaves {
    type V = DeathSaves;

    open spec fn deep_view(&self) -> DeathSaves {
        *self
    }
}

/// Combat statistics.
pub struct Combat {
    pub armor_class: i32,
    pub initiative: i32,
    pub speed: i32,
    pub hit_points: Option<HitPoints>,
    pub hit_dice: Option<HitDice>,
    pub death_saves: Option<DeathSaves>,
}

pub struct CombatModel {
    pub armor_class: i32,
    pub initiative: i32,
    pub speed: i32,
    pub hit_points: Option<HitPoints>,
    pub hit_dice: Option<HitDiceModel>,
    pub death_saves: Option<DeathSaves>,
}

impl DeepView for Combat {
    type V = CombatModel;

    open spec fn deep_view(&self) -> CombatModel {
        CombatModel {
            armor_class: self.armor_class,
            initiative: self.initiative,
            speed: self.speed,
            hit_points: self.hit_points,
            hit_dice: self.hit_dice.deep_view(),
            death_saves: self.death_saves,
        }
    }
}

impl Clone for Combat {
    fn clone(&self) -> (r: Self)
        ensures
            r.deep_view() == self.deep_view(),
    {
        let hit_dice = match &self.hit_dice {
            Some(h) => Some(h.clone()),
            None => None,
        };
        Combat {
            armor_class: self.armor_class,
            initiative: self.initiative,
            speed: self.speed,
            hit_points: self.hit_points,
            hit_dice,
            death_saves: self.death_saves,
        }
    }
}

impl Combat {
    /// All numbers 0, nothing tracked.
    pub fn default() -> (r: Self)
        ensures
            r.armor_class == 0,
            r.initiative == 0,
            r.speed == 0,
            r.hit_points is None,
            r.hit_dice is None,
            r.death_saves is None,
    {
        Combat {
            armor_class: 0,
            initiative: 0,
            speed: 0,
            hit_points: None,
            hit_dice: None,
            death_saves: None,
        }
    }
}

// ---------------------------------------------------------------------------
// Saving throws, skills and custom fields
// ---------------------------------------------------------------------------

/// A saving throw: a stable id, an editable display name, a canonical slug
/// used for lookups, proficiency and the modifier.
pub struct SavingThrow {
    pub id: String,
    pub name: String,
    pub slug: String,
    pub proficient: bool,
    pub modifier: i32,
}

pub struct SavingThrowModel {
    pub id: Seq<char>,
    pub name: Seq<char>,
    pub slug: Seq<char>,
    pub proficient: bool,
    pub modifier: i32,
}

impl DeepView for SavingThrow {
    type V = SavingThrowModel;

    open spec fn deep_view(&self) -> SavingThrowModel {
        SavingThrowModel {
            id: self.id@,
            name: self.name@,
            slug: self.slug@,
            proficient: self.proficient,
            modifier: self.modifier,
        }
    }
}

impl Clone for SavingThrow {
    fn clone(&self) -> (r: Self)
        ensures
            r.deep_view() == self.deep_view(),
    {
        SavingThrow {
            id: self.id.clone(),
            name: self.name.clone(),
            slug: self.slug.clone(),
            proficient: self.proficient,
            modifier: self.modifier,
        }
    }
}

/// A skill: a stable id, an editable display name, a canonical slug used for
/// lookups, proficiency, optional expertise and the modifier.
pub struct Skill {
    pub id: String,
    pub name: String,
    pub slug: String,
    pub proficient: bool,
    pub modifier: i32,
    pub expertise: Option<bool>,
    pub proficiency_type: Option<String>,
}

pub struct SkillModel {
    pub id: Seq<char>,
    pub name: Seq<char>,
    pub slug: Seq<char>,
    pub proficient: bool,
    pub modifier: i32,
    pub expertise: Option<bool>,
    pub proficiency_type: Option<Seq<char>>,
}

impl DeepView for Skill {
    type V = SkillModel;

    open spec fn deep_view(&self) -> SkillModel {
        SkillModel {
            id: self.id@,
            name: self.name@,
            slug: self.slug@,
            proficient: self.proficient,
            modifier: self.modifier,
            expertise: self.expertise,
            proficiency_type: self.proficiency_type.deep_view(),
        }
    }
}

impl Clone for Skill {
    fn clone(&self) -> (r: Self)
        ensures
            r.deep_view() == self.deep_view(),
    {
        Skill {
            id: self.id.clone(),
            name: self.name.clone(),
            slug: self.slug.clone(),
            proficient: self.proficient,
            modifier: self.modifier,
            expertise: self.expertise,
            proficiency_type: clone_opt_string(&self.proficiency_type),
        }
    }
}

/// A user-defined text field with a stable id.
pub struct CustomStringField {
    pub id: String,
    pub name: String,
    pub value: String,
}

pub struct CustomStringFieldModel {
    pub id: Seq<char>,
    pub name: Seq<char>,
    pub value: Seq<char>,
}

impl DeepView for CustomStringField {
    type V = CustomStringFieldModel;

    open spec fn deep_view(&self) -> CustomStringFieldModel {
        CustomStringFieldModel { id: self.id@, name: self.name@, value: self.value@ }
    }
}

impl Clone for CustomStringField {
    fn clone(&self) -> (r: Self)
        ensures
            r.deep_view() == self.deep_view(),
    {
        CustomStringField {
            id: self.id.clone(),
            name: self.name.clone(),
            value: self.value.clone(),
        }
    }
}

/// A user-defined number field with a stable id.
pub struct CustomIntField {
    pub id: String,
    pub name: String,
    pub value: i32,
}

pub struct CustomIntFieldModel {
    pub id: Seq<char>,
    pub name: Seq<char>,
    pub value: i32,
}

impl DeepView for CustomIntField {
    type V = CustomIntFieldModel;

    open spec fn deep_view(&self) -> CustomIntFieldModel {
        CustomIntFieldModel { id: self.id@, name: self.name@, value: self.value }
    }
}

impl Clone for CustomIntField {
    fn clone(&self) -> (r: Self)
        ensures
            r.deep_view() == self.deep_view(),
    {
        CustomIntField { id: self.id.clone(), name: self.name.clone(), value: self.value }
    }
}

// ---------------------------------------------------------------------------
// Equipment, features and spells
// ---------------------------------------------------------------------------

/// A weapon.
pub struct Weapon {
    pub name: String,
    pub attack_bonus: i32,
    pub damage: String,
    pub damage_type: String,
    pub properties: Vec<String>,
}

pub struct WeaponModel {
    pub name: Seq<char>,
    pub attack_bonus: i32,
    pub damage: Seq<char>,
    pub damage_type: Seq<char>,
    pub properties: Seq<Seq<char>>,
}

impl DeepView for Weapon {
    type V = WeaponModel;

    open spec fn deep_view(&self) -> WeaponModel {
        WeaponModel {
            name: self.name@,
            attack_bonus: self.attack_bonus,
            damage: self.damage@,
            damage_type: self.damage_type@,
            properties: self.properties.deep_view(),
        }
    }
}

impl Clone for Weapon {
    fn clone(&self) -> (r: Self)
        ensures
            r.deep_view() == self.deep_view(),
    {
        Weapon {
            name: self.name.clone(),
            attack_bonus: self.attack_bonus,
            damage: self.damage.clone(),
            damage_type: self.damage_type.clone(),
            properties: clone_strings(&self.properties),
        }
    }
}

/// Worn armor.
pub struct Armor {
    pub name: String,
    pub armor_class: i32,
    pub armor_class_with_dex: Option<i32>,
    pub armor_type: Option<String>,
}

pub struct ArmorModel {
    pub name: Seq<char>,
    pub armor_class: i32,
    pub armor_class_with_dex: Option<i32>,
    pub armor_type: Option<Seq<char>>,
}

impl DeepView for Armor {
    type V = ArmorModel;

    open spec fn deep_view(&self) -> ArmorModel {
        ArmorModel {
            name: self.name@,
            armor_class: self.armor_class,
            armor_class_with_dex: self.armor_class_with_dex,
            armor_type: self.armor_type.deep_view(),
        }
    }
}

impl Clone for Armor {
    fn clone(&self) -> (r: Self)
        ensures
            r.deep_view() == self.deep_view(),
    {
        Armor {
            name: self.name.clone(),
            armor_class: self.armor_class,
            armor_class_with_dex: self.armor_class_with_dex,
            armor_type: clone_opt_string(&self.armor_type),
        }
    }
}

/// Coins.
#[derive(Clone, Copy)]
pub struct Currency {
    pub copper: i32,
    pub silver: i32,
    pub electrum: i32,
    pub gold: i32,
    pub platinum: i32,
}

impl DeepView for Currency {
    type V = Currency;

    open spec fn deep_view(&self) -> Currency {
        *self
    }
}

/// Weapons, armor, items and coins.
pub struct Equipment {
    pub weapons: Vec<Weapon>,
    pub armor: Option<Armor>,
    pub items: Vec<String>,
    pub currency: Currency,
}

pub struct EquipmentModel {
    pub weapons: Seq<WeaponModel>,
    pub armor: Option<ArmorModel>,
    pub items: Seq<Seq<char>>,
    pub currency: Currency,
}

impl DeepView for Equipment {
    type V = EquipmentModel;

    open spec fn deep_view(&self) -> EquipmentModel {
        EquipmentModel {
            weapons: self.weapons.deep_view(),
            armor: self.armor.deep_view(),
            items: self.items.deep_view(),
            currency: self.currency,
        }
    }
}

impl Clone for Equipment {
    fn clone(&self) -> (r: Self)
        ensures
            r.deep_view() == self.deep_view(),
    {
        let weapons = self.weapons.clone();
        assert(weapons.deep_view() =~= self.weapons.deep_view());
        let armor = match &self.armor {
            Some(a) => Some(a.clone()),
            None => None,
        };
        Equipment {
            weapons,
            armor,
            items: clone_strings(&self.items),
            currency: self.currency,
        }
    }
}

/// A feature or trait of the character.
pub struct Feature {
    pub name: String,
    pub description: String,
    pub damage: Option<String>,
}

pub struct FeatureModel {
    pub name: Seq<char>,
    pub description: Seq<char>,
    pub damage: Option<Seq<char>>,
}

impl DeepView for Feature {
    type V = FeatureModel;

    open spec fn deep_view(&self) -> FeatureModel {
        FeatureModel {
            name: self.name@,
            description: self.description@,
            damage: self.damage.deep_view(),
        }
    }
}

impl Clone for Feature {
    fn clone(&self) -> (r: Self)
        ensures
            r.deep_view() == self.deep_view(),
    {
        Feature {
            name: self.name.clone(),
            description: self.description.clone(),
            damage: clone_opt_string(&self.damage),
        }
    }
}

/// A named count (used for spell slots per level).
pub struct SlotCount {
    pub level: String,
    pub count: i32,
}

pub struct SlotCountModel {
    pub level: Seq<char>,
    pub count: i32,
}

impl DeepView for SlotCount {
    type V = SlotCountModel;

    open spec fn deep_view(&self) -> SlotCountModel {
        SlotCountModel { level: self.level@, count: self.count }
    }
}

impl Clone for SlotCount {
    fn clone(&self) -> (r: Self)
        ensures
            r.deep_view() == self.deep_view(),
    {
        SlotCount { level: self.level.clone(), count: self.count }
    }
}

/// Spellcasting information.
pub struct SpellCasting {
    pub spellcasting_ability: Option<String>,
    pub spell_save_dc: Option<i32>,
    pub spell_attack_bonus: Option<i32>,
    pub spell_slots: Vec<SlotCount>,
    pub known_spells: Vec<String>,
}

pub struct SpellCastingModel {
    pub spellcasting_ability: Option<Seq<char>>,
    pub spell_save_dc: Option<i32>,
    pub spell_attack_bonus: Option<i32>,
    pub spell_slots: Seq<SlotCountModel>,
    pub known_spells: Seq<Seq<char>>,
}

impl DeepView for SpellCasting {
    type V = SpellCastingModel;

    open spec fn deep_view(&self) -> SpellCastingModel {
        SpellCastingModel {
            spellcasting_ability: self.spellcasting_ability.deep_view(),
            spell_save_dc: self.spell_save_dc,
            spell_attack_bonus: self.spell_attack_bonus,
            spell_slots: self.spell_slots.deep_view(),
            known_spells: self.known_spells.deep_view(),
        }
    }
}

impl Clone for SpellCasting {
    fn clone(&self) -> (r: Self)
        ensures
            r.deep_view() == self.deep_view(),
    {
        let slots = self.spell_slots.clone();
        assert(slots.deep_view() =~= self.spell_slots.deep_view());
        SpellCasting {
            spellcasting_ability: clone_opt_string(&self.spellcasting_ability),
            spell_save_dc: self.spell_save_dc,
            spell_attack_bonus: self.spell_attack_bonus,
            spell_slots: slots,
            known_spells: clone_strings(&self.known_spells),
        }
    }
}

// ---------------------------------------------------------------------------
// Keyed collections
// ---------------------------------------------------------------------------

impl Clone for KeyedMap<Skill> {
    fn clone(&self) -> (r: Self)
        ensures
            r.deep_view() == self.deep_view(),
            r.wf() == self.wf(),
    {
        let mut entries: Vec<(String, Skill)> = Vec::new();
        let n = self.entries.len();
        let mut i: usize = 0;
        while i < n
            invariant
                n == self.entries@.len(),
                i <= n,
                entries@.len() == i,
                forall|k: int|
                    0 <= k < i ==> (#[trigger] entries@[k]).0@ == self.entries@[k].0@
                        && entries@[k].1.deep_view() == self.entries@[k].1.deep_view(),
            decreases n - i,
        {
            let e = (self.entries[i].0.clone(), self.entries[i].1.clone());
            entries.push(e);
            i = i + 1;
        }
        let r = KeyedMap { entries };
        assert(r.deep_view() =~= self.deep_view());
        assert(r.keys() =~= self.keys());
        proof {
            r.lemma_wf_same_keys(self);
        }
        r
    }
}

impl Clone for KeyedMap<SavingThrow> {
    fn clone(&self) -> (r: Self)
        ensures
            r.deep_view() == self.deep_view(),
            r.wf() == self.wf(),
    {
        let mut entries: Vec<(String, SavingThrow)> = Vec::new();
        let n = self.entries.len();
        let mut i: usize = 0;
        while i < n
            invariant
                n == self.entries@.len(),
                i <= n,
                entries@.len() == i,
                forall|k: int|
                    0 <= k < i ==> (#[trigger] entries@[k]).0@ == self.entries@[k].0@
                        && entries@[k].1.deep_view() == self.entries@[k].1.deep_view(),
            decreases n - i,
        {
            let e = (self.entries[i].0.clone(), self.entries[i].1.clone());
            entries.push(e);
            i = i + 1;
        }
        let r = KeyedMap { entries };
        assert(r.deep_view() =~= self.deep_view());
        assert(r.keys() =~= self.keys());
        proof {
            r.lemma_wf_same_keys(self);
        }
        r
    }
}

impl Clone for KeyedMap<CustomStringField> {
    fn clone(&self) -> (r: Self)
        ensures
            r.deep_view() == self.deep_view(),
            r.wf() == self.wf(),
    {
        let mut entries: Vec<(String, CustomStringField)> = Vec::new();
        let n = self.entries.len();
        let mut i: usize = 0;
        while i < n
            invariant
                n == self.entries@.len(),
                i <= n,
                entries@.len() == i,
                forall|k: int|
                    0 <= k < i ==> (#[trigger] entries@[k]).0@ == self.entries@[k].0@
                        && entries@[k].1.deep_view() == self.entries@[k].1.deep_view(),
            decreases n - i,
        {
            let e = (self.entries[i].0.clone(), self.entries[i].1.clone());
            entries.push(e);
            i = i + 1;
        }
        let r = KeyedMap { entries };
        assert(r.deep_view() =~= self.deep_view());
        assert(r.keys() =~= self.keys());
        proof {
            r.lemma_wf_same_keys(self);
        }
        r
    }
}

impl Clone for KeyedMap<CustomIntField> {
    fn clone(&self) -> (r: Self)
        ensures
            r.deep_view() == self.deep_view(),
            r.wf() == self.wf(),
    {
        let mut entries: Vec<(String, CustomIntField)> = Vec::new();
        let n = self.entries.len();
        let mut i: usize = 0;
        while i < n
            invariant
                n == self.entries@.len(),
                i <= n,
                entries@.len() == i,
                forall|k: int|
                    0 <= k < i ==> (#[trigger] entries@[k]).0@ == self.entries@[k].0@
                        && entries@[k].1.deep_view() == self.entries@[k].1.deep_view(),
            decreases n - i,
        {
            let e = (self.entries[i].0.clone(), self.entries[i].1.clone());
            entries.push(e);
            i = i + 1;
        }
        let r = KeyedMap { entries };
        assert(r.deep_view() =~= self.deep_view());
        assert(r.keys() =~= self.keys());
        proof {
            r.lemma_wf_same_keys(self);
        }
        r
    }
}

// ---------------------------------------------------------------------------
// The sheet
// ---------------------------------------------------------------------------

/// A complete character sheet.
pub struct CharacterSheet {
    pub character: CharacterInfo,
    pub attributes: Attributes,
    pub modifiers: AttributeModifiers,
    pub combat: Combat,
    pub proficiency_bonus: i32,
    pub saving_throws: KeyedMap<SavingThrow>,
    pub skills: KeyedMap<Skill>,
    pub equipment: Option<Equipment>,
    pub features: Vec<Feature>,
    pub spells: Option<SpellCasting>,
    pub custom_basic_info: KeyedMap<CustomStringField>,
    pub custom_attributes: KeyedMap<CustomIntField>,
    pub custom_combat: KeyedMap<CustomStringField>,
}

pub struct CharacterSheetModel {
    pub character: CharacterInfoModel,
    pub attributes: Attributes,
    pub modifiers: AttributeModifiers,
    pub combat: CombatModel,
    pub proficiency_bonus: i32,
    pub saving_throws: Seq<(Seq<char>, SavingThrowModel)>,
    pub skills: Seq<(Seq<char>, SkillModel)>,
    pub equipment: Option<EquipmentModel>,
    pub features: Seq<FeatureModel>,
    pub spells: Option<SpellCastingModel>,
    pub custom_basic_info: Seq<(Seq<char>, CustomStringFieldModel)>,
    pub custom_attributes: Seq<(Seq<char>, CustomIntFieldModel)>,
    pub custom_combat: Seq<(Seq<char>, CustomStringFieldModel)>,
}

impl DeepView for CharacterSheet {
    type V = CharacterSheetModel;

    open spec fn deep_view(&self) -> CharacterSheetModel {
        CharacterSheetModel {
            character: self.character.deep_view(),
            attributes: self.attributes,
            modifiers: self.modifiers,
            combat: self.combat.deep_view(),
            proficiency_bonus: self.proficiency_bonus,
            saving_throws: self.saving_throws.deep_view(),
            skills: self.skills.deep_view(),
            equipment: self.equipment.deep_view(),
            features: self.features.deep_view(),
            spells: self.spells.deep_view(),
            custom_basic_info: self.custom_basic_info.deep_view(),
            custom_attributes: self.custom_attributes.deep_view(),
            custom_combat: self.custom_combat.deep_view(),
        }
    }
}

impl Attributes {
    /// All scores 0.
    pub fn default() -> (r: Attributes)
        ensures
            r == (Attributes { strength: 0, dexterity: 0, constitution: 0, intelligence: 0, wisdom: 0, charisma: 0 }),
    {
        Attributes { strength: 0, dexterity: 0, constitution: 0, intelligence: 0, wisdom: 0, charisma: 0 }
    }
}

impl AttributeModifiers {
    /// All modifiers 0.
    pub fn default() -> (r: AttributeModifiers)
        ensures
            r == (AttributeModifiers { strength: 0, dexterity: 0, constitution: 0, intelligence: 0, wisdom: 0, charisma: 0 }),
    {
        AttributeModifiers { strength: 0, dexterity: 0, constitution: 0, intelligence: 0, wisdom: 0, charisma: 0 }
    }
}

/// The character information of an empty sheet: empty texts, level and
/// experience 0, no optional entries, no languages.
pub open spec fn empty_info() -> CharacterInfoModel {
    CharacterInfoModel {
        name: Seq::empty(),
        alter_ego: None,
        family_name: None,
        shop_name: None,
        class: Seq::empty(),
        subclass: None,
        race: Seq::empty(),
        level: 0,
        experience: 0,
        alignment: None,
        background: None,
        languages: Seq::empty(),
    }
}

/// The combat block of an empty sheet: all numbers 0, nothing tracked.
pub open spec fn empty_combat() -> CombatModel {
    CombatModel { armor_class: 0, initiative: 0, speed: 0, hit_points: None, hit_dice: None, death_saves: None }
}

impl CharacterSheet {
    /// An empty sheet: default character information and combat numbers,
    /// scores and modifiers 0, nothing in any list or map.
    pub fn default() -> (r: CharacterSheet)
        ensures
            r.wf(),
            r.character.deep_view() == empty_info(),
            r.combat.deep_view() == empty_combat(),
            r.attributes == (Attributes { strength: 0, dexterity: 0, constitution: 0, intelligence: 0, wisdom: 0, charisma: 0 }),
            r.modifiers == (AttributeModifiers { strength: 0, dexterity: 0, constitution: 0, intelligence: 0, wisdom: 0, charisma: 0 }),
            r.proficiency_bonus == 0,
            r.saving_throws.entries@.len() == 0,
            r.skills.entries@.len() == 0,
            r.equipment is None,
            r.features@.len() == 0,
            r.spells is None,
            r.custom_basic_info.entries@.len() == 0,
            r.custom_attributes.entries@.len() == 0,
            r.custom_combat.entries@.len() == 0,
    {
        let character = CharacterInfo::default();
        assert(character.name@ =~= Seq::<char>::empty());
        assert(character.class@ =~= Seq::<char>::empty());
        assert(character.race@ =~= Seq::<char>::empty());
        assert(character.languages.deep_view() =~= Seq::<Seq<char>>::empty());
        assert(character.deep_view() == empty_info());
        CharacterSheet {
            character,
            attributes: Attributes::default(),
            modifiers: AttributeModifiers::default(),
            combat: Combat::default(),
            proficiency_bonus: 0,
            saving_throws: KeyedMap::new(),
            skills: KeyedMap::new(),
            equipment: None,
            features: Vec::new(),
            spells: None,
            custom_basic_info: KeyedMap::new(),
            custom_attributes: KeyedMap::new(),
            custom_combat: KeyedMap::new(),
        }
    }

    /// Whether every keyed collection of the sheet has distinct keys.
    pub open spec fn wf(&self) -> bool {
        &&& self.saving_throws.wf()
        &&& self.skills.wf()
        &&& self.custom_basic_info.wf()
        &&& self.custom_attributes.wf()
        &&& self.custom_combat.wf()
    }
}

impl Clone for CharacterSheet {
    fn clone(&self) -> (r: Self)
        ensures
            r.deep_view() == self.deep_view(),
            r.wf() == self.wf(),
    {
        let equipment = match &self.equipment {
            Some(e) => Some(e.clone()),
            None => None,
        };
        let features = self.features.clone();
        assert(features.deep_view() =~= self.features.deep_view());
        let spells = match &self.spells {
            Some(s) => Some(s.clone()),
            None => None,
        };
        CharacterSheet {
            character: self.character.clone(),
            attributes: self.attributes,
            modifiers: self.modifiers,
            combat: self.combat.clone(),
            proficiency_bonus: self.proficiency_bonus,
            saving_throws: self.saving_throws.clone(),
            skills: self.skills.clone(),
            equipment,
            features,
            spells,
            custom_basic_info: self.custom_basic_info.clone(),
            custom_attributes: self.custom_attributes.clone(),
            custom_combat: self.custom_combat.clone(),
        }
    }
}

} // verus!
