//! Character sheet rules: ability modifiers, skill / saving throw / ability
//! lookups by name, new characters with rolled abilities, and the migration
//! of name-keyed sheets to id-keyed ones.
use vstd::prelude::*;
use vstd::string::*;

use crate::keyed::KeyedMap;
use crate::sheet::{
    AttributeModifiers, Attributes, CharacterInfo, CharacterSheet, CharacterSheetModel, Combat,
    CustomIntField, CustomIntFieldModel, CustomStringField, CustomStringFieldModel, HitPoints,
    SavingThrow, SavingThrowModel, Skill, SkillModel,
};
use crate::text::{alphanumeric, is_alphanumeric, lowercase, push_char, str_eq, to_lowercase};
use rand::Rng;

verus! {

// ---------------------------------------------------------------------------
// Ability modifiers
// ---------------------------------------------------------------------------

/// The D&D ability modifier of a score: `(score - 10) / 2` rounded down
/// (score 9 gives -1, score 1 gives -5).
pub open spec fn spec_modifier(score: int) -> int {
    (score - 10) / 2
}

impl Attributes {
    /// The modifier of an ability score (standard D&D formula): `(score - 10) / 2`
    /// rounded down.
    pub fn calculate_modifier(score: i32) -> (r: i32)
        requires
            score >= i32::MIN + 10,
        ensures
            r == spec_modifier(score as int),
    {
        let d: i32 = score - 10;
        let q: i32 = d / 2;
        if d < 0 && d % 2 != 0 {
            q - 1
        } else {
            q
        }
    }

    /// The six scores with their display names, in the usual order.
    pub fn as_vec(&self) -> (r: Vec<(&'static str, i32)>)
        ensures
            r@.len() == 6,
            r@[0].0@ == "Strength"@ && r@[0].1 == self.strength,
            r@[1].0@ == "Dexterity"@ && r@[1].1 == self.dexterity,
            r@[2].0@ == "Constitution"@ && r@[2].1 == self.constitution,
            r@[3].0@ == "Intelligence"@ && r@[3].1 == self.intelligence,
            r@[4].0@ == "Wisdom"@ && r@[4].1 == self.wisdom,
            r@[5].0@ == "Charisma"@ && r@[5].1 == self.charisma,
    {
        vec![
            ("Strength", self.strength),
            ("Dexterity", self.dexterity),
            ("Constitution", self.constitution),
            ("Intelligence", self.intelligence),
            ("Wisdom", self.wisdom),
            ("Charisma", self.charisma),
        ]
    }
}

/// Raising a score never lowers its modifier, and every two points of score
/// above 10 add one point of modifier.
pub proof fn modifier_is_monotone(a: int, b: int)
    requires
        a <= b,
    ensures
        spec_modifier(a) <= spec_modifier(b),
        b >= 10 ==> spec_modifier(b + 2) == spec_modifier(b) + 1,
        spec_modifier(10) == 0 && spec_modifier(11) == 0,
{
}

// ---------------------------------------------------------------------------
// Slugs
// ---------------------------------------------------------------------------

/// The characters of `s` that are alphanumeric, in order.
pub open spec fn keep_alnum(s: Seq<char>) -> Seq<char>
    decreases s.len(),
{
    if s.len() == 0 {
        s
    } else {
        let p = keep_alnum(s.drop_last());
        if alphanumeric(s.last()) {
            p.push(s.last())
        } else {
            p
        }
    }
}

/// The canonical lookup key of a name: lowercased, with every character
/// that is not alphanumeric removed (`"Sleight of Hand"` -> `"sleightofhand"`).
pub open spec fn slug(s: Seq<char>) -> Seq<char> {
    keep_alnum(lowercase(s))
}

/// The canonical lookup key of a name (see `slug`).
pub fn make_slug(name: &str) -> (r: String)
    ensures
        r@ == slug(name@),
{
    let lower = to_lowercase(name);
    let l = lower.as_str();
    let n = l.unicode_len();
    let mut out = String::new();
    let mut i: usize = 0;
    assert(l@.take(0) =~= Seq::<char>::empty());
    while i < n
        invariant
            n == l@.len(),
            i <= n,
            out@ == keep_alnum(l@.take(i as int)),
        decreases n - i,
    {
        let c = l.get_char(i);
        assert(l@.take(i + 1).drop_last() =~= l@.take(i as int));
        assert(l@.take(i + 1).last() == c);
        if is_alphanumeric(c) {
            push_char(&mut out, c);
        }
        i = i + 1;
    }
    assert(l@.take(n as int) =~= l@);
    out
}

// ---------------------------------------------------------------------------
// Skill and saving throw lookup
// ---------------------------------------------------------------------------

/// How strongly a skill is trained: expertise 2, proficiency 1, else 0.
pub open spec fn skill_weight(s: SkillModel) -> int {
    if s.expertise == Some(true) {
        2
    } else if s.proficient {
        1
    } else {
        0
    }
}

/// Whether a skill answers to the slug `q`, by its slug or by its name.
pub open spec fn skill_matches(s: SkillModel, q: Seq<char>) -> bool {
    s.slug == q || slug(s.name) == q
}

/// Whether skill `a` ranks at most as high as `b`: by training first, then by
/// modifier.
pub open spec fn skill_rank_le(a: SkillModel, b: SkillModel) -> bool {
    skill_weight(a) < skill_weight(b) || (skill_weight(a) == skill_weight(b) && a.modifier
        <= b.modifier)
}

/// Whether `r` is what looking up `query` among `skills` may give: the entry
/// whose id is exactly `query`; otherwise a best-ranked skill among those
/// whose slug or name slug equals the slug of `query`; `None` when no skill
/// answers to it.
pub open spec fn skill_lookup(
    skills: Seq<(Seq<char>, SkillModel)>,
    query: Seq<char>,
    r: Option<SkillModel>,
) -> bool {
    let q = slug(query);
    if exists|i: int| 0 <= i < skills.len() && #[trigger] skills[i].0 == query {
        r matches Some(v) && exists|i: int|
            0 <= i < skills.len() && #[trigger] skills[i].0 == query && skills[i].1 == v
    } else {
        match r {
            None => forall|i: int| 0 <= i < skills.len() ==> !skill_matches(#[trigger] skills[i].1, q),
            Some(v) => {
                &&& exists|i: int| 0 <= i < skills.len() && #[trigger] skills[i].1 == v
                &&& skill_matches(v, q)
                &&& forall|i: int|
                    0 <= i < skills.len() && skill_matches(#[trigger] skills[i].1, q)
                        ==> skill_rank_le(skills[i].1, v)
            },
        }
    }
}

/// Finds a skill by id, or else by slug / name slug, preferring expertise,
/// then proficiency, then the higher modifier.
pub fn resolve_skill<'a>(skills: &'a KeyedMap<Skill>, query: &str) -> (r: Option<&'a Skill>)
    ensures
        skill_lookup(skills.deep_view(), query@, r.deep_view()),
{
    let ghost sv = skills.deep_view();
    match skills.get(query) {
        Some(sk) => {
            proof {
                let j = choose|j: int| 0 <= j < skills.entries@.len() && #[trigger] skills.entries@[j].0@ == query@;
                skills.lemma_index_of_found(query@, j);
                let i = skills.index_of(query@);
                assert(sv[i].0 == query@ && sv[i].1 == sk.deep_view());
            }
            return Some(sk);
        },
        None => {},
    }
    proof {
        assert forall|i: int| 0 <= i < sv.len() implies #[trigger] sv[i].0 != query@ by {
            assert(sv[i].0 == skills.entries@[i].0@);
        }
    }
    let q = make_slug(query);
    let n = skills.entries.len();
    let mut best: Option<&'a Skill> = None;
    let mut i: usize = 0;
    while i < n
        invariant
            n == skills.entries@.len(),
            sv == skills.deep_view(),
            q@ == slug(query@),
            i <= n,
            best matches Some(b) ==> {
                &&& exists|k: int| 0 <= k < i && #[trigger] sv[k].1 == b.deep_view()
                &&& skill_matches(b.deep_view(), q@)
                &&& forall|k: int|
                    0 <= k < i && skill_matches(#[trigger] sv[k].1, q@) ==> skill_rank_le(
                        sv[k].1,
                        b.deep_view(),
                    )
            },
            best is None ==> forall|k: int| 0 <= k < i ==> !skill_matches(#[trigger] sv[k].1, q@),
        decreases n - i,
    {
        let s = &skills.entries[i].1;
        assert(sv[i as int].1 == s.deep_view());
        let name_slug = make_slug(s.name.as_str());
        let m = str_eq(s.slug.as_str(), q.as_str()) || str_eq(name_slug.as_str(), q.as_str());
        if m {
            let take = match best {
                None => true,
                Some(b) => {
                    let wb: u8 = if b.expertise == Some(true) {
                        2
                    } else if b.proficient {
                        1
                    } else {
                        0
                    };
                    let ws: u8 = if s.expertise == Some(true) {
                        2
                    } else if s.proficient {
                        1
                    } else {
                        0
                    };
                    wb < ws || (wb == ws && b.modifier <= s.modifier)
                },
            };
            if take {
                best = Some(s);
            }
        }
        i = i + 1;
    }
    best
}

/// Whether a saving throw answers to the slug `q`, by its slug or by its name.
pub open spec fn save_matches(s: SavingThrowModel, q: Seq<char>) -> bool {
    s.slug == q || slug(s.name) == q
}

/// Whether `r` is what looking up `query` among `saves` may give: the entry
/// whose id is exactly `query`; otherwise one whose slug or name slug equals
/// the slug of `query`; `None` when none answers to it.
pub open spec fn save_lookup(
    saves: Seq<(Seq<char>, SavingThrowModel)>,
    query: Seq<char>,
    r: Option<SavingThrowModel>,
) -> bool {
    let q = slug(query);
    if exists|i: int| 0 <= i < saves.len() && #[trigger] saves[i].0 == query {
        r matches Some(v) && exists|i: int|
            0 <= i < saves.len() && #[trigger] saves[i].0 == query && saves[i].1 == v
    } else {
        match r {
            None => forall|i: int| 0 <= i < saves.len() ==> !save_matches(#[trigger] saves[i].1, q),
            Some(v) => exists|i: int|
                0 <= i < saves.len() && #[trigger] saves[i].1 == v && save_matches(v, q),
        }
    }
}

/// Finds a saving throw by id, or else by slug / name slug.
pub fn resolve_saving_throw<'a>(saves: &'a KeyedMap<SavingThrow>, query: &str) -> (r: Option<
    &'a SavingThrow,
>)
    ensures
        save_lookup(saves.deep_view(), query@, r.deep_view()),
{
    let ghost sv = saves.deep_view();
    match saves.get(query) {
        Some(st) => {
            proof {
                let j = choose|j: int| 0 <= j < saves.entries@.len() && #[trigger] saves.entries@[j].0@ == query@;
                saves.lemma_index_of_found(query@, j);
                let i = saves.index_of(query@);
                assert(sv[i].0 == query@ && sv[i].1 == st.deep_view());
            }
            return Some(st);
        },
        None => {},
    }
    proof {
        assert forall|i: int| 0 <= i < sv.len() implies #[trigger] sv[i].0 != query@ by {
            assert(sv[i].0 == saves.entries@[i].0@);
        }
    }
    let q = make_slug(query);
    let n = saves.entries.len();
    let mut i: usize = 0;
    while i < n
        invariant
            n == saves.entries@.len(),
            sv == saves.deep_view(),
            q@ == slug(query@),
            i <= n,
            forall|k: int| 0 <= k < sv.len() ==> #[trigger] sv[k].0 != query@,
            forall|k: int| 0 <= k < i ==> !save_matches(#[trigger] sv[k].1, q@),
        decreases n - i,
    {
        let s = &saves.entries[i].1;
        assert(sv[i as int].1 == s.deep_view());
        let name_slug = make_slug(s.name.as_str());
        if str_eq(s.slug.as_str(), q.as_str()) || str_eq(name_slug.as_str(), q.as_str()) {
            assert(save_matches(s.deep_view(), q@));
            assert(sv[i as int].1 == s.deep_view() && save_matches(s.deep_view(), q@));
            return Some(s);
        }
        i = i + 1;
    }
    None
}

// ---------------------------------------------------------------------------
// Ability lookup
// ---------------------------------------------------------------------------

/// The standard ability that a lowercased key names (`str` or `strength` is
/// 0, ..., `cha` or `charisma` is 5).
pub open spec fn ability_index(k: Seq<char>) -> Option<int> {
    if k == "str"@ || k == "strength"@ {
        Some(0)
    } else if k == "dex"@ || k == "dexterity"@ {
        Some(1)
    } else if k == "con"@ || k == "constitution"@ {
        Some(2)
    } else if k == "int"@ || k == "intelligence"@ {
        Some(3)
    } else if k == "wis"@ || k == "wisdom"@ {
        Some(4)
    } else if k == "cha"@ || k == "charisma"@ {
        Some(5)
    } else {
        None
    }
}

/// The modifier of the `i`-th standard ability.
pub open spec fn modifier_at(m: AttributeModifiers, i: int) -> i32 {
    if i == 0 {
        m.strength
    } else if i == 1 {
        m.dexterity
    } else if i == 2 {
        m.constitution
    } else if i == 3 {
        m.intelligence
    } else if i == 4 {
        m.wisdom
    } else {
        m.charisma
    }
}

/// Whether a custom attribute answers to the lowercased key `k`, by the slug
/// of its name or by its lowercased name.
pub open spec fn custom_attribute_matches(f: CustomIntFieldModel, k: Seq<char>) -> bool {
    slug(f.name) == k || lowercase(f.name) == k
}

/// Whether `r` is the ability modifier a sheet gives for `ability`: the
/// stored modifier of a standard ability (named by its abbreviation or full
/// name, in any case); else the modifier computed from the score of a
/// matching custom attribute; else 0.
pub open spec fn ability_lookup(sheet: CharacterSheetModel, ability: Seq<char>, r: i32) -> bool {
    let k = lowercase(ability);
    match ability_index(k) {
        Some(i) => r == modifier_at(sheet.modifiers, i),
        None => {
            let cs = sheet.custom_attributes;
            if exists|j: int| 0 <= j < cs.len() && custom_attribute_matches(#[trigger] cs[j].1, k) {
                exists|j: int|
                    0 <= j < cs.len() && custom_attribute_matches(#[trigger] cs[j].1, k)
                        && cs[j].1.value >= i32::MIN + 10 && r == spec_modifier(
                        cs[j].1.value as int,
                    )
            } else {
                r == 0
            }
        },
    }
}

/// Whether the ability lookup of `ability` can compute its modifier without
/// overflow: when the lowercased name is no standard ability, every custom
/// attribute answering to it has a score of at least `i32::MIN + 10`.
pub open spec fn ability_lookup_fits(sheet: CharacterSheetModel, ability: Seq<char>) -> bool {
    let k = lowercase(ability);
    ability_index(k) is None ==> forall|j: int|
        0 <= j < sheet.custom_attributes.len() && custom_attribute_matches(
            (#[trigger] sheet.custom_attributes[j]).1,
            k,
        ) ==> sheet.custom_attributes[j].1.value >= i32::MIN + 10
}

/// The index of the standard ability that a lowercased key names.
pub(crate) fn ability_index_of(k: &str) -> (r: Option<usize>)
    ensures
        match ability_index(k@) {
            Some(i) => r == Some(i as usize),
            None => r is None,
        },
{
    if str_eq(k, "str") || str_eq(k, "strength") {
        Some(0)
    } else if str_eq(k, "dex") || str_eq(k, "dexterity") {
        Some(1)
    } else if str_eq(k, "con") || str_eq(k, "constitution") {
        Some(2)
    } else if str_eq(k, "int") || str_eq(k, "intelligence") {
        Some(3)
    } else if str_eq(k, "wis") || str_eq(k, "wisdom") {
        Some(4)
    } else if str_eq(k, "cha") || str_eq(k, "charisma") {
        Some(5)
    } else {
        None
    }
}

/// The ability modifier a sheet gives for `ability` (see `ability_lookup`).
pub fn sheet_ability_modifier(sheet: &CharacterSheet, ability: &str) -> (r: i32)
    requires
        ability_lookup_fits(sheet.deep_view(), ability@),
    ensures
        ability_lookup(sheet.deep_view(), ability@, r),
{
    let key = to_lowercase(ability);
    let m = &sheet.modifiers;
    match ability_index_of(key.as_str()) {
        Some(0) => m.strength,
        Some(1) => m.dexterity,
        Some(2) => m.constitution,
        Some(3) => m.intelligence,
        Some(4) => m.wisdom,
        Some(_) => m.charisma,
        None => {
            let ghost cs = sheet.custom_attributes.deep_view();
            let n = sheet.custom_attributes.entries.len();
            let mut j: usize = 0;
            while j < n
                invariant
                    n == sheet.custom_attributes.entries@.len(),
                    cs == sheet.custom_attributes.deep_view(),
                    key@ == lowercase(ability@),
                    ability_index(key@) is None,
                    ability_lookup_fits(sheet.deep_view(), ability@),
                    j <= n,
                    forall|k: int| 0 <= k < j ==> !custom_attribute_matches(#[trigger] cs[k].1, key@),
                decreases n - j,
            {
                let f = &sheet.custom_attributes.entries[j].1;
                assert(cs[j as int].1 == f.deep_view());
                let s = make_slug(f.name.as_str());
                let l = to_lowercase(f.name.as_str());
                if str_eq(s.as_str(), key.as_str()) || str_eq(l.as_str(), key.as_str()) {
                    assert(custom_attribute_matches(cs[j as int].1, key@));
                    assert(sheet.deep_view().custom_attributes[j as int].1.value >= i32::MIN + 10);
                    let r = Attributes::calculate_modifier(f.value);
                    assert(cs[j as int].1.value == f.value);
                    assert(custom_attribute_matches(cs[j as int].1, key@) && cs[j as int].1.value
                        >= i32::MIN + 10 && r == spec_modifier(cs[j as int].1.value as int));
                    return r;
                }
                j = j + 1;
            }
            0
        },
    }
}

// ---------------------------------------------------------------------------
// The loaded character
// ---------------------------------------------------------------------------

/// The character that is currently loaded, its id in the character store (if
/// it has been saved) and whether it has unsaved changes.
pub struct CharacterData {
    pub sheet: Option<CharacterSheet>,
    pub character_id: Option<i64>,
    pub is_modified: bool,
    pub needs_refresh: bool,
}

impl CharacterData {
    /// No character loaded.
    pub fn default() -> (r: CharacterData)
        ensures
            r.sheet is None,
            r.character_id is None,
            !r.is_modified,
            !r.needs_refresh,
    {
        CharacterData { sheet: None, character_id: None, is_modified: false, needs_refresh: false }
    }

    /// The modifier of a skill, looked up as `resolve_skill` does; `None`
    /// when no character is loaded or no skill answers to `skill`.
    pub fn get_skill_modifier(&self, skill: &str) -> (r: Option<i32>)
        ensures
            self.sheet is None ==> r is None,
            self.sheet matches Some(s) ==> exists|o: Option<SkillModel>|
                skill_lookup(s.skills.deep_view(), skill@, o) && r == (match o {
                    Some(v) => Some(v.modifier),
                    None => None::<i32>,
                }),
    {
        match &self.sheet {
            Some(s) => {
                let found = resolve_skill(&s.skills, skill);
                match found {
                    Some(sk) => Some(sk.modifier),
                    None => None,
                }
            },
            None => None,
        }
    }

    /// The modifier of an ability (see `ability_lookup`); `None` when no
    /// character is loaded.
    pub fn get_ability_modifier(&self, ability: &str) -> (r: Option<i32>)
        requires
            self.sheet matches Some(s) ==> ability_lookup_fits(s.deep_view(), ability@),
        ensures
            self.sheet is None ==> r is None,
            self.sheet matches Some(s) ==> r matches Some(m) && ability_lookup(
                s.deep_view(),
                ability@,
                m,
            ),
    {
        match &self.sheet {
            Some(s) => Some(sheet_ability_modifier(s, ability)),
            None => None,
        }
    }

    /// The modifier of a saving throw, looked up as `resolve_saving_throw`
    /// does; `None` when no character is loaded or none answers to `ability`.
    pub fn get_saving_throw_modifier(&self, ability: &str) -> (r: Option<i32>)
        ensures
            self.sheet is None ==> r is None,
            self.sheet matches Some(s) ==> exists|o: Option<SavingThrowModel>|
                save_lookup(s.saving_throws.deep_view(), ability@, o) && r == (match o {
                    Some(v) => Some(v.modifier),
                    None => None::<i32>,
                }),
    {
        match &self.sheet {
            Some(s) => {
                let found = resolve_saving_throw(&s.saving_throws, ability);
                match found {
                    Some(st) => Some(st.modifier),
                    None => None,
                }
            },
            None => None,
        }
    }
}

// ---------------------------------------------------------------------------
// Ids and dice for new characters
// ---------------------------------------------------------------------------

/// A fresh id for a sheet entry: a time-ordered (version 7) UUID written in
/// its 36-character hyphenated form.
///
/// Trusted: `uuid::Uuid::now_v7` and its `Display`. The contract states only
/// the length of the text; the value depends on the clock and on random
/// bits, so nothing is said of it (not even that two calls differ).
#[verifier::external_body]
fn new_id() -> (r: String)
    ensures
        r@.len() == 36,
{
    uuid::Uuid::now_v7().to_string()
}

/// A fresh id for an entry read without one: 36 characters, as `new_id`
/// gives.
pub fn fresh_entry_id() -> (r: String)
    ensures
        r@.len() == 36,
{
    new_id()
}

/// A roll of a twenty-sided die.
///
/// Trusted: `rand::Rng::random_range(1..=20)` on `rand::rng()`; the result is
/// random, the contract states only its range.
#[verifier::external_body]
fn roll_d20() -> (r: i32)
    ensures
        1 <= r <= 20,
{
    rand::rng().random_range(1..=20)
}

/// The six abilities, lowercase, in the usual order.
pub open spec fn ability_names() -> Seq<Seq<char>> {
    seq![
        "strength"@,
        "dexterity"@,
        "constitution"@,
        "intelligence"@,
        "wisdom"@,
        "charisma"@,
    ]
}

/// The eighteen standard skills, in camel case.
pub open spec fn skill_names() -> Seq<Seq<char>> {
    seq![
        "acrobatics"@,
        "animalHandling"@,
        "arcana"@,
        "athletics"@,
        "deception"@,
        "history"@,
        "insight"@,
        "intimidation"@,
        "investigation"@,
        "medicine"@,
        "nature"@,
        "perception"@,
        "performance"@,
        "persuasion"@,
        "religion"@,
        "sleightOfHand"@,
        "stealth"@,
        "survival"@,
    ]
}

/// Whether the texts of `ids` are pairwise different.
pub open spec fn distinct_texts(ids: Seq<String>) -> bool {
    forall|i: int, j: int| 0 <= i < j < ids.len() ==> ids[i]@ != ids[j]@
}

/// The new saving throw for ability `k` with modifier `m` and id `id`.
pub open spec fn new_save(id: Seq<char>, k: int, m: i32) -> SavingThrowModel {
    SavingThrowModel {
        id,
        name: ability_names()[k],
        slug: ability_names()[k],
        proficient: false,
        modifier: m,
    }
}

/// The new (untrained, +0) skill `k` with id `id`.
pub open spec fn new_skill(id: Seq<char>, k: int) -> SkillModel {
    SkillModel {
        id,
        name: skill_names()[k],
        slug: slug(skill_names()[k]),
        proficient: false,
        modifier: 0,
        expertise: None,
        proficiency_type: None,
    }
}

/// The six ability names as strings.
fn ability_name_list() -> (r: Vec<&'static str>)
    ensures
        r@.len() == 6,
        forall|k: int| 0 <= k < 6 ==> #[trigger] r@[k]@ == ability_names()[k],
{
    let r = vec!["strength", "dexterity", "constitution", "intelligence", "wisdom", "charisma"];
    r
}

/// The eighteen skill names as strings.
fn skill_name_list() -> (r: Vec<&'static str>)
    ensures
        r@.len() == 18,
        forall|k: int| 0 <= k < 18 ==> #[trigger] r@[k]@ == skill_names()[k],
{
    let r = vec![
        "acrobatics",
        "animalHandling",
        "arcana",
        "athletics",
        "deception",
        "history",
        "insight",
        "intimidation",
        "investigation",
        "medicine",
        "nature",
        "perception",
        "performance",
        "persuasion",
        "religion",
        "sleightOfHand",
        "stealth",
        "survival",
    ];
    r
}

/// The saving throws of a new character: one per ability, keyed by the
/// given ids, not proficient, with the given modifiers (in ability order).
pub fn saving_throws_with_ids(mods: &Vec<i32>, ids: &Vec<String>) -> (r: KeyedMap<SavingThrow>)
    requires
        mods@.len() == 6,
        ids@.len() == 6,
    ensures
        r.wf(),
        r.entries@.len() <= 6,
        forall|j: int|
            0 <= j < r.entries@.len() ==> exists|k: int|
                0 <= k < 6 && (#[trigger] r.entries@[j]).0@ == ids@[k]@ && r.entries@[j].1.deep_view()
                    == new_save(ids@[k]@, k, mods@[k]),
        distinct_texts(ids@) ==> r.entries@.len() == 6 && forall|k: int|
            0 <= k < 6 ==> (#[trigger] r.entries@[k]).0@ == ids@[k]@
                && r.entries@[k].1.deep_view() == new_save(ids@[k]@, k, mods@[k]),
{
    let names = ability_name_list();
    let mut saves: KeyedMap<SavingThrow> = KeyedMap::new();
    let mut k: usize = 0;
    while k < 6
        invariant
            mods@.len() == 6,
            ids@.len() == 6,
            names@.len() == 6,
            forall|t: int| 0 <= t < 6 ==> #[trigger] names@[t]@ == ability_names()[t],
            k <= 6,
            saves.wf(),
            saves.entries@.len() <= k,
            forall|j: int|
                0 <= j < saves.entries@.len() ==> exists|t: int|
                    0 <= t < k && (#[trigger] saves.entries@[j]).0@ == ids@[t]@
                        && saves.entries@[j].1.deep_view() == new_save(ids@[t]@, t, mods@[t]),
            distinct_texts(ids@) ==> saves.entries@.len() == k && forall|t: int|
                0 <= t < k ==> (#[trigger] saves.entries@[t]).0@ == ids@[t]@
                    && saves.entries@[t].1.deep_view() == new_save(ids@[t]@, t, mods@[t]),
        decreases 6 - k,
    {
        let id = ids[k].clone();
        let st = SavingThrow {
            id: ids[k].clone(),
            name: String::from_str(names[k]),
            slug: String::from_str(names[k]),
            proficient: false,
            modifier: mods[k],
        };
        assert(st.deep_view() == new_save(ids@[k as int]@, k as int, mods@[k as int]));
        let ghost before = saves.entries@;
        proof {
            if distinct_texts(ids@) {
                assert forall|j: int| 0 <= j < before.len() implies before[j].0@ != ids@[k as int]@ by {
                    assert(before[j].0@ == ids@[j]@);
                }
            }
        }
        saves.insert(id, st);
        proof {
            assert forall|j: int| 0 <= j < saves.entries@.len() implies exists|t: int|
                0 <= t < k + 1 && (#[trigger] saves.entries@[j]).0@ == ids@[t]@
                    && saves.entries@[j].1.deep_view() == new_save(ids@[t]@, t, mods@[t]) by {
                if saves.entries@[j].0@ == ids@[k as int]@ && saves.entries@[j].1.deep_view()
                    == new_save(ids@[k as int]@, k as int, mods@[k as int]) {
                } else {
                    assert(saves.entries@[j] == before[j]);
                }
            }
        }
        k = k + 1;
    }
    saves
}

/// The skills of a new character: the eighteen standard skills, keyed by the
/// given ids, untrained and at +0.
pub fn skills_with_ids(ids: &Vec<String>) -> (r: KeyedMap<Skill>)
    requires
        ids@.len() == 18,
    ensures
        r.wf(),
        r.entries@.len() <= 18,
        forall|j: int|
            0 <= j < r.entries@.len() ==> exists|k: int|
                0 <= k < 18 && (#[trigger] r.entries@[j]).0@ == ids@[k]@ && r.entries@[j].1.deep_view()
                    == new_skill(ids@[k]@, k),
        distinct_texts(ids@) ==> r.entries@.len() == 18 && forall|k: int|
            0 <= k < 18 ==> (#[trigger] r.entries@[k]).0@ == ids@[k]@
                && r.entries@[k].1.deep_view() == new_skill(ids@[k]@, k),
{
    let names = skill_name_list();
    let mut skills: KeyedMap<Skill> = KeyedMap::new();
    let mut k: usize = 0;
    while k < 18
        invariant
            ids@.len() == 18,
            names@.len() == 18,
            forall|t: int| 0 <= t < 18 ==> #[trigger] names@[t]@ == skill_names()[t],
            k <= 18,
            skills.wf(),
            skills.entries@.len() <= k,
            forall|j: int|
                0 <= j < skills.entries@.len() ==> exists|t: int|
                    0 <= t < k && (#[trigger] skills.entries@[j]).0@ == ids@[t]@
                        && skills.entries@[j].1.deep_view() == new_skill(ids@[t]@, t),
            distinct_texts(ids@) ==> skills.entries@.len() == k && forall|t: int|
                0 <= t < k ==> (#[trigger] skills.entries@[t]).0@ == ids@[t]@
                    && skills.entries@[t].1.deep_view() == new_skill(ids@[t]@, t),
        decreases 18 - k,
    {
        let id = ids[k].clone();
        let sk = Skill {
            id: ids[k].clone(),
            name: String::from_str(names[k]),
            slug: make_slug(names[k]),
            proficient: false,
            modifier: 0,
            expertise: None,
            proficiency_type: None,
        };
        assert(sk.deep_view() == new_skill(ids@[k as int]@, k as int));
        let ghost before = skills.entries@;
        proof {
            if distinct_texts(ids@) {
                assert forall|j: int| 0 <= j < before.len() implies before[j].0@ != ids@[k as int]@ by {
                    assert(before[j].0@ == ids@[j]@);
                }
            }
        }
        skills.insert(id, sk);
        proof {
            assert forall|j: int| 0 <= j < skills.entries@.len() implies exists|t: int|
                0 <= t < k + 1 && (#[trigger] skills.entries@[j]).0@ == ids@[t]@
                    && skills.entries@[j].1.deep_view() == new_skill(ids@[t]@, t) by {
                if skills.entries@[j].0@ == ids@[k as int]@ && skills.entries@[j].1.deep_view()
                    == new_skill(ids@[k as int]@, k as int) {
                } else {
                    assert(skills.entries@[j] == before[j]);
                }
            }
        }
        k = k + 1;
    }
    skills
}

/// `n` fresh ids, made one after another.
///
/// Trusted: `uuid::Uuid::now_v7` and its `Display`, called `n` times. The
/// contract states that there are `n` texts of 36 characters, all different:
/// uuid documents that every id `now_v7` makes in one process comes after
/// the ones made before it. Which ids come out depends on the clock and on
/// random bits and is not stated.
#[verifier::external_body]
fn fresh_ids(n: usize) -> (r: Vec<String>)
    ensures
        r@.len() == n,
        forall|k: int| 0 <= k < n ==> (#[trigger] r@[k])@.len() == 36,
        distinct_texts(r@),
{
    (0..n).map(|_| uuid::Uuid::now_v7().to_string()).collect()
}

/// Whether `sheet` is the sheet of a new level-1 human fighter named `New
/// Character` with the given ability scores: modifiers from the scores,
/// armor class 10 + Dex modifier, initiative = Dex modifier, speed 30, hit
/// points max(10 + Con modifier, 1), proficiency bonus 2, no equipment,
/// features, spells or custom fields.
pub open spec fn is_new_sheet(sheet: CharacterSheetModel, scores: Attributes) -> bool {
    let dex_mod = spec_modifier(scores.dexterity as int);
    let con_mod = spec_modifier(scores.constitution as int);
    let hp = if 10 + con_mod >= 1 {
        10 + con_mod
    } else {
        1
    };
    &&& sheet.character.name == "New Character"@
    &&& sheet.character.class == "Fighter"@
    &&& sheet.character.race == "Human"@
    &&& sheet.character.level == 1
    &&& sheet.character.experience == 0
    &&& sheet.character.alter_ego is None
    &&& sheet.character.family_name is None
    &&& sheet.character.shop_name is None
    &&& sheet.character.subclass is None
    &&& sheet.character.alignment is None
    &&& sheet.character.background is None
    &&& sheet.character.languages.len() == 0
    &&& sheet.attributes == scores
    &&& sheet.modifiers.strength == spec_modifier(scores.strength as int)
    &&& sheet.modifiers.dexterity == dex_mod
    &&& sheet.modifiers.constitution == con_mod
    &&& sheet.modifiers.intelligence == spec_modifier(scores.intelligence as int)
    &&& sheet.modifiers.wisdom == spec_modifier(scores.wisdom as int)
    &&& sheet.modifiers.charisma == spec_modifier(scores.charisma as int)
    &&& sheet.combat.armor_class == 10 + dex_mod
    &&& sheet.combat.initiative == dex_mod
    &&& sheet.combat.speed == 30
    &&& sheet.combat.hit_points == Some(HitPoints { current: hp as i32, maximum: hp as i32, temporary: 0 })
    &&& sheet.combat.hit_dice is None
    &&& sheet.combat.death_saves is None
    &&& sheet.proficiency_bonus == 2
    &&& sheet.equipment is None
    &&& sheet.features.len() == 0
    &&& sheet.spells is None
    &&& sheet.custom_basic_info.len() == 0
    &&& sheet.custom_attributes.len() == 0
    &&& sheet.custom_combat.len() == 0
}

/// The modifiers of the six standard abilities, in order.
pub open spec fn modifier_seq(m: AttributeModifiers) -> Seq<i32> {
    seq![m.strength, m.dexterity, m.constitution, m.intelligence, m.wisdom, m.charisma]
}

/// Whether `e` is the new saving throw (see `new_save`) for the `k`-th
/// ability, with a fresh 36-character id under which it is stored.
pub open spec fn is_fresh_save(e: (Seq<char>, SavingThrowModel), k: int, m: AttributeModifiers) -> bool {
    e.0 == e.1.id && e.1.id.len() == 36 && e.1 == new_save(e.1.id, k, modifier_seq(m)[k])
}

/// Whether `e` is the new `k`-th skill (see `new_skill`), with a fresh
/// 36-character id under which it is stored.
pub open spec fn is_fresh_skill(e: (Seq<char>, SkillModel), k: int) -> bool {
    e.0 == e.1.id && e.1.id.len() == 36 && e.1 == new_skill(e.1.id, k)
}

impl CharacterData {
    /// A new, unsaved character with the given ability scores (see
    /// `is_new_sheet`), whose saving throws and skills are keyed by the given
    /// ids.
    pub fn create_new_with(
        scores: Attributes,
        save_ids: &Vec<String>,
        skill_ids: &Vec<String>,
    ) -> (r: CharacterData)
        requires
            save_ids@.len() == 6,
            skill_ids@.len() == 18,
            scores.strength >= i32::MIN + 10,
            scores.dexterity >= i32::MIN + 10,
            scores.constitution >= i32::MIN + 10,
            scores.intelligence >= i32::MIN + 10,
            scores.wisdom >= i32::MIN + 10,
            scores.charisma >= i32::MIN + 10,
        ensures
            r.character_id is None,
            r.is_modified,
            r.needs_refresh,
            r.sheet matches Some(s) && {
                &&& s.wf()
                &&& is_new_sheet(s.deep_view(), scores)
                &&& forall|j: int|
                    0 <= j < s.saving_throws.entries@.len() ==> exists|k: int|
                        0 <= k < 6 && (#[trigger] s.saving_throws.entries@[j]).0@ == save_ids@[k]@
                            && s.saving_throws.entries@[j].1.deep_view() == new_save(
                            save_ids@[k]@,
                            k,
                            modifier_seq(s.modifiers)[k],
                        )
                &&& s.saving_throws.entries@.len() <= 6
                &&& distinct_texts(save_ids@) ==> s.saving_throws.entries@.len() == 6 && forall|k: int|
                    0 <= k < 6 ==> (#[trigger] s.saving_throws.entries@[k]).0@ == save_ids@[k]@
                        && s.saving_throws.entries@[k].1.deep_view() == new_save(
                        save_ids@[k]@,
                        k,
                        modifier_seq(s.modifiers)[k],
                    )
                &&& s.skills.entries@.len() <= 18
                &&& forall|j: int|
                    0 <= j < s.skills.entries@.len() ==> exists|k: int|
                        0 <= k < 18 && (#[trigger] s.skills.entries@[j]).0@ == skill_ids@[k]@
                            && s.skills.entries@[j].1.deep_view() == new_skill(skill_ids@[k]@, k)
                &&& distinct_texts(skill_ids@) ==> s.skills.entries@.len() == 18 && forall|k: int|
                    0 <= k < 18 ==> (#[trigger] s.skills.entries@[k]).0@ == skill_ids@[k]@
                        && s.skills.entries@[k].1.deep_view() == new_skill(skill_ids@[k]@, k)
            },
    {
        let str_mod = Attributes::calculate_modifier(scores.strength);
        let dex_mod = Attributes::calculate_modifier(scores.dexterity);
        let con_mod = Attributes::calculate_modifier(scores.constitution);
        let int_mod = Attributes::calculate_modifier(scores.intelligence);
        let wis_mod = Attributes::calculate_modifier(scores.wisdom);
        let cha_mod = Attributes::calculate_modifier(scores.charisma);
        let armor_class = 10 + dex_mod;
        let initiative = dex_mod;
        let base_hp: i32 = 10;
        let max_hp = if base_hp + con_mod >= 1 {
            base_hp + con_mod
        } else {
            1
        };
        let mods = vec![str_mod, dex_mod, con_mod, int_mod, wis_mod, cha_mod];
        let saving_throws = saving_throws_with_ids(&mods, save_ids);
        let skills = skills_with_ids(skill_ids);
        let mut character = CharacterInfo::default();
        character.name = String::from_str("New Character");
        character.class = String::from_str("Fighter");
        character.race = String::from_str("Human");
        character.level = 1;
        let mut combat = Combat::default();
        combat.armor_class = armor_class;
        combat.initiative = initiative;
        combat.speed = 30;
        combat.hit_points = Some(HitPoints { current: max_hp, maximum: max_hp, temporary: 0 });
        let modifiers = AttributeModifiers {
            strength: str_mod,
            dexterity: dex_mod,
            constitution: con_mod,
            intelligence: int_mod,
            wisdom: wis_mod,
            charisma: cha_mod,
        };
        assert(mods@ =~= modifier_seq(modifiers));
        let sheet = CharacterSheet {
            character,
            attributes: scores,
            modifiers,
            combat,
            proficiency_bonus: 2,
            saving_throws,
            skills,
            equipment: None,
            features: Vec::new(),
            spells: None,
            custom_basic_info: KeyedMap::new(),
            custom_attributes: KeyedMap::new(),
            custom_combat: KeyedMap::new(),
        };
        CharacterData {
            sheet: Some(sheet),
            character_id: None,
            is_modified: true,
            needs_refresh: true,
        }
    }

    /// A new, unsaved character whose six ability scores are each rolled on a
    /// d20 (see `create_new_with`); its six saving throws and eighteen
    /// skills, in order, are new ones (see `new_save`, `new_skill`), each
    /// stored under its own fresh id.
    pub fn create_new() -> (r: CharacterData)
        ensures
            r.character_id is None,
            r.is_modified,
            r.needs_refresh,
            r.sheet matches Some(s) && s.wf() && exists|scores: Attributes|
                1 <= scores.strength <= 20 && 1 <= scores.dexterity <= 20 && 1
                    <= scores.constitution <= 20 && 1 <= scores.intelligence <= 20 && 1
                    <= scores.wisdom <= 20 && 1 <= scores.charisma <= 20 && is_new_sheet(
                    s.deep_view(),
                    scores,
                ),
            r.sheet matches Some(s) && {
                &&& s.saving_throws.deep_view().len() == 6
                &&& forall|k: int|
                    0 <= k < 6 ==> is_fresh_save(#[trigger] s.saving_throws.deep_view()[k], k, s.modifiers)
                &&& s.skills.deep_view().len() == 18
                &&& forall|k: int| 0 <= k < 18 ==> is_fresh_skill(#[trigger] s.skills.deep_view()[k], k)
            },
    {
        let scores = Attributes {
            strength: roll_d20(),
            dexterity: roll_d20(),
            constitution: roll_d20(),
            intelligence: roll_d20(),
            wisdom: roll_d20(),
            charisma: roll_d20(),
        };
        let save_ids = fresh_ids(6);
        let skill_ids = fresh_ids(18);
        let r = CharacterData::create_new_with(scores, &save_ids, &skill_ids);
        proof {
            let s = r.sheet->Some_0;
            assert forall|k: int| 0 <= k < 6 implies is_fresh_save(
                #[trigger] s.saving_throws.deep_view()[k],
                k,
                s.modifiers,
            ) by {
                assert(s.saving_throws.entries@[k].0@ == save_ids@[k]@);
                assert(save_ids@[k]@.len() == 36);
                assert(s.saving_throws.deep_view()[k] == (
                    s.saving_throws.entries@[k].0@,
                    s.saving_throws.entries@[k].1.deep_view(),
                ));
            }
            assert forall|k: int| 0 <= k < 18 implies is_fresh_skill(#[trigger] s.skills.deep_view()[k], k) by {
                assert(s.skills.entries@[k].0@ == skill_ids@[k]@);
                assert(skill_ids@[k]@.len() == 36);
                assert(s.skills.deep_view()[k] == (s.skills.entries@[k].0@, s.skills.entries@[k].1.deep_view()));
            }
        }
        r
    }
}

// ---------------------------------------------------------------------------
// Migration of name-keyed sheets
// ---------------------------------------------------------------------------

/// The id an entry has after migration: its own id if it has one, otherwise
/// a fresh 36-character id.
pub open spec fn migrated_id(old: Seq<char>, new: Seq<char>) -> bool {
    if old.len() > 0 {
        new == old
    } else {
        new.len() == 36
    }
}

/// `value` unless it is empty, in which case `fallback`.
pub open spec fn or_if_empty(value: Seq<char>, fallback: Seq<char>) -> Seq<char> {
    if value.len() > 0 {
        value
    } else {
        fallback
    }
}

/// Whether `new` is the skill stored under `key` after migration: an id
/// (kept or fresh), a slug (kept, or the slug of the key), a name (kept, or
/// the key), everything else unchanged.
pub open spec fn skill_migrated(key: Seq<char>, old: SkillModel, new: SkillModel) -> bool {
    &&& migrated_id(old.id, new.id)
    &&& new.slug == or_if_empty(old.slug, slug(key))
    &&& new.name == or_if_empty(old.name, key)
    &&& new.proficient == old.proficient
    &&& new.modifier == old.modifier
    &&& new.expertise == old.expertise
    &&& new.proficiency_type == old.proficiency_type
}

/// Whether `new` is the saving throw stored under `key` after migration (as
/// for skills).
pub open spec fn save_migrated(key: Seq<char>, old: SavingThrowModel, new: SavingThrowModel) -> bool {
    &&& migrated_id(old.id, new.id)
    &&& new.slug == or_if_empty(old.slug, slug(key))
    &&& new.name == or_if_empty(old.name, key)
    &&& new.proficient == old.proficient
    &&& new.modifier == old.modifier
}

/// Whether `new` is the custom text field stored under `key` after
/// migration: an id (kept or fresh), a name (kept, or the key), the value.
pub open spec fn text_field_migrated(
    key: Seq<char>,
    old: CustomStringFieldModel,
    new: CustomStringFieldModel,
) -> bool {
    &&& migrated_id(old.id, new.id)
    &&& new.name == or_if_empty(old.name, key)
    &&& new.value == old.value
}

/// Whether `new` is the custom number field stored under `key` after
/// migration (as for text fields).
pub open spec fn int_field_migrated(
    key: Seq<char>,
    old: CustomIntFieldModel,
    new: CustomIntFieldModel,
) -> bool {
    &&& migrated_id(old.id, new.id)
    &&& new.name == or_if_empty(old.name, key)
    &&& new.value == old.value
}

/// Whether the entries `out` are a migration of the entries `inp` under the
/// per-entry relation `rel`: keys are distinct and equal to the entries'
/// ids, each entry comes from an entry of `inp`, every id that an entry of
/// `inp` already had is a key of `out`, and `out` is no longer than `inp`.
pub open spec fn migrated_entries<W>(
    inp: Seq<(Seq<char>, W)>,
    out: Seq<(Seq<char>, W)>,
    id_of: spec_fn(W) -> Seq<char>,
    rel: spec_fn(Seq<char>, W, W) -> bool,
) -> bool {
    &&& forall|i: int, j: int| 0 <= i < j < out.len() ==> out[i].0 != out[j].0
    &&& out.len() <= inp.len()
    &&& forall|j: int|
        0 <= j < out.len() ==> (#[trigger] out[j]).0 == id_of(out[j].1) && exists|i: int|
            0 <= i < inp.len() && rel(inp[i].0, #[trigger] inp[i].1, out[j].1)
    &&& forall|i: int|
        0 <= i < inp.len() && id_of(#[trigger] inp[i].1).len() > 0 ==> exists|j: int|
            0 <= j < out.len() && #[trigger] out[j].0 == id_of(inp[i].1)
}

/// The skill stored under `key` once migration has given it the id `id`:
/// its slug and name filled in from the key where empty.
pub open spec fn skill_with_id(key: Seq<char>, old: SkillModel, id: Seq<char>) -> SkillModel {
    SkillModel {
        id,
        name: or_if_empty(old.name, key),
        slug: or_if_empty(old.slug, slug(key)),
        proficient: old.proficient,
        modifier: old.modifier,
        expertise: old.expertise,
        proficiency_type: old.proficiency_type,
    }
}

/// The saving throw stored under `key` once migration has given it `id`.
pub open spec fn save_with_id(key: Seq<char>, old: SavingThrowModel, id: Seq<char>) -> SavingThrowModel {
    SavingThrowModel {
        id,
        name: or_if_empty(old.name, key),
        slug: or_if_empty(old.slug, slug(key)),
        proficient: old.proficient,
        modifier: old.modifier,
    }
}

/// The custom text field stored under `key` once migration has given it `id`.
pub open spec fn text_field_with_id(
    key: Seq<char>,
    old: CustomStringFieldModel,
    id: Seq<char>,
) -> CustomStringFieldModel {
    CustomStringFieldModel { id, name: or_if_empty(old.name, key), value: old.value }
}

/// The custom number field stored under `key` once migration has given it `id`.
pub open spec fn int_field_with_id(key: Seq<char>, old: CustomIntFieldModel, id: Seq<char>) -> CustomIntFieldModel {
    CustomIntFieldModel { id, name: or_if_empty(old.name, key), value: old.value }
}

/// Whether `ids` gives each entry of `inp` the id migration gives it: its
/// own id (`id_of` of the entry) when it has one, otherwise a fresh
/// 36-character id.
pub open spec fn ids_given<W>(
    inp: Seq<(Seq<char>, W)>,
    id_of: spec_fn(W) -> Seq<char>,
    ids: Seq<Seq<char>>,
) -> bool {
    &&& ids.len() == inp.len()
    &&& forall|i: int| 0 <= i < inp.len() ==> migrated_id(id_of(inp[i].1), #[trigger] ids[i])
}

/// `skill_with_id` as a function value.
pub open spec fn skill_fn() -> spec_fn(Seq<char>, SkillModel, Seq<char>) -> SkillModel {
    |k: Seq<char>, a: SkillModel, id: Seq<char>| skill_with_id(k, a, id)
}

/// `save_with_id` as a function value.
pub open spec fn save_fn() -> spec_fn(Seq<char>, SavingThrowModel, Seq<char>) -> SavingThrowModel {
    |k: Seq<char>, a: SavingThrowModel, id: Seq<char>| save_with_id(k, a, id)
}

/// `text_field_with_id` as a function value.
pub open spec fn text_field_fn() -> spec_fn(Seq<char>, CustomStringFieldModel, Seq<char>) -> CustomStringFieldModel {
    |k: Seq<char>, a: CustomStringFieldModel, id: Seq<char>| text_field_with_id(k, a, id)
}

/// `int_field_with_id` as a function value.
pub open spec fn int_field_fn() -> spec_fn(Seq<char>, CustomIntFieldModel, Seq<char>) -> CustomIntFieldModel {
    |k: Seq<char>, a: CustomIntFieldModel, id: Seq<char>| int_field_with_id(k, a, id)
}

/// `skill_id` as a function value.
pub open spec fn skill_id_fn() -> spec_fn(SkillModel) -> Seq<char> {
    |s: SkillModel| skill_id(s)
}

/// `save_id` as a function value.
pub open spec fn save_id_fn() -> spec_fn(SavingThrowModel) -> Seq<char> {
    |s: SavingThrowModel| save_id(s)
}

/// `text_field_id` as a function value.
pub open spec fn text_field_id_fn() -> spec_fn(CustomStringFieldModel) -> Seq<char> {
    |s: CustomStringFieldModel| text_field_id(s)
}

/// `int_field_id` as a function value.
pub open spec fn int_field_id_fn() -> spec_fn(CustomIntFieldModel) -> Seq<char> {
    |s: CustomIntFieldModel| int_field_id(s)
}

/// The entries of `inp` from position `i` on, each migrated by `f` and
/// stored under the id `ids` gives it; where two of them get the same id,
/// the earlier one is kept.
pub open spec fn rekeyed<W>(
    inp: Seq<(Seq<char>, W)>,
    ids: Seq<Seq<char>>,
    f: spec_fn(Seq<char>, W, Seq<char>) -> W,
    i: int,
) -> Map<Seq<char>, W>
    decreases inp.len() - i,
{
    if i < 0 || i >= inp.len() {
        Map::empty()
    } else {
        rekeyed(inp, ids, f, i + 1).insert(ids[i], f(inp[i].0, inp[i].1, ids[i]))
    }
}

/// The ids re-keying from position `i` on stores entries under are the ids
/// given to those entries.
proof fn lemma_rekeyed_dom<W>(
    inp: Seq<(Seq<char>, W)>,
    ids: Seq<Seq<char>>,
    f: spec_fn(Seq<char>, W, Seq<char>) -> W,
    i: int,
)
    requires
        0 <= i <= inp.len(),
        ids.len() == inp.len(),
    ensures
        rekeyed(inp, ids, f, i).dom() == ids.skip(i).to_set(),
    decreases inp.len() - i,
{
    if i == inp.len() {
        assert(ids.skip(i).to_set() =~= Set::<Seq<char>>::empty());
    } else {
        lemma_rekeyed_dom(inp, ids, f, i + 1);
        assert forall|x: Seq<char>| #[trigger] ids.skip(i).to_set().contains(x)
            == ids.skip(i + 1).to_set().insert(ids[i]).contains(x) by {
            if ids.skip(i).contains(x) {
                let j = choose|j: int| 0 <= j < ids.skip(i).len() && #[trigger] ids.skip(i)[j] == x;
                if j > 0 {
                    assert(ids.skip(i + 1)[j - 1] == x);
                }
            }
            if ids.skip(i + 1).contains(x) {
                let j = choose|j: int| 0 <= j < ids.skip(i + 1).len() && #[trigger] ids.skip(i + 1)[j] == x;
                assert(ids.skip(i)[j + 1] == x);
            }
            if x == ids[i] {
                assert(ids.skip(i)[0] == x);
            }
        }
        assert(ids.skip(i).to_set() =~= ids.skip(i + 1).to_set().insert(ids[i]));
    }
}

/// Re-keying under distinct ids keeps one entry per input entry.
proof fn lemma_rekeyed_len<W>(
    inp: Seq<(Seq<char>, W)>,
    ids: Seq<Seq<char>>,
    f: spec_fn(Seq<char>, W, Seq<char>) -> W,
)
    requires
        ids.len() == inp.len(),
        ids.no_duplicates(),
    ensures
        rekeyed(inp, ids, f, 0).dom().len() == inp.len(),
{
    lemma_rekeyed_dom(inp, ids, f, 0);
    assert(ids.skip(0) =~= ids);
    ids.unique_seq_to_set();
}

/// Re-keying one more entry in front of `t` leaves what `t` gives.
proof fn lemma_rekeyed_shift<W>(
    e: (Seq<char>, W),
    t: Seq<(Seq<char>, W)>,
    id: Seq<char>,
    ids: Seq<Seq<char>>,
    f: spec_fn(Seq<char>, W, Seq<char>) -> W,
    i: int,
)
    requires
        0 <= i,
        ids.len() == t.len(),
    ensures
        rekeyed(seq![e] + t, seq![id] + ids, f, i + 1) == rekeyed(t, ids, f, i),
    decreases t.len() - i,
{
    if i < t.len() {
        lemma_rekeyed_shift(e, t, id, ids, f, i + 1);
        assert((seq![e] + t)[i + 1] == t[i]);
        assert((seq![id] + ids)[i + 1] == ids[i]);
    }
}

/// Whether the skills `out` are exactly the migrated skills of `inp`, each
/// under the id migration gives it (see `rekeyed`), and, when those ids are
/// all distinct, the number of entries `out_len` is that of `inp`.
pub open spec fn skills_rekeyed(
    inp: Seq<(Seq<char>, SkillModel)>,
    out: Map<Seq<char>, SkillModel>,
    out_len: nat,
) -> bool {
    exists|ids: Seq<Seq<char>>|
        #[trigger] ids_given(inp, skill_id_fn(), ids) && out == rekeyed(inp, ids, skill_fn(), 0) && (
        ids.no_duplicates() ==> out_len == inp.len())
}

/// Whether the saving throws `out` are exactly the migrated saving throws
/// of `inp`, each under the id migration gives it, with as many entries
/// when those ids are all distinct.
pub open spec fn saves_rekeyed(
    inp: Seq<(Seq<char>, SavingThrowModel)>,
    out: Map<Seq<char>, SavingThrowModel>,
    out_len: nat,
) -> bool {
    exists|ids: Seq<Seq<char>>|
        #[trigger] ids_given(inp, save_id_fn(), ids) && out == rekeyed(inp, ids, save_fn(), 0) && (
        ids.no_duplicates() ==> out_len == inp.len())
}

/// Whether the custom text fields `out` are exactly the migrated fields of
/// `inp`, each under the id migration gives it, with as many entries when
/// those ids are all distinct.
pub open spec fn text_fields_rekeyed(
    inp: Seq<(Seq<char>, CustomStringFieldModel)>,
    out: Map<Seq<char>, CustomStringFieldModel>,
    out_len: nat,
) -> bool {
    exists|ids: Seq<Seq<char>>|
        #[trigger] ids_given(inp, text_field_id_fn(), ids) && out == rekeyed(inp, ids, text_field_fn(), 0) && (
        ids.no_duplicates() ==> out_len == inp.len())
}

/// Whether the custom number fields `out` are exactly the migrated fields
/// of `inp`, each under the id migration gives it, with as many entries
/// when those ids are all distinct.
pub open spec fn int_fields_rekeyed(
    inp: Seq<(Seq<char>, CustomIntFieldModel)>,
    out: Map<Seq<char>, CustomIntFieldModel>,
    out_len: nat,
) -> bool {
    exists|ids: Seq<Seq<char>>|
        #[trigger] ids_given(inp, int_field_id_fn(), ids) && out == rekeyed(inp, ids, int_field_fn(), 0) && (
        ids.no_duplicates() ==> out_len == inp.len())
}

/// Fills in the id, slug and name of a skill stored under `key`.
fn migrate_skill_entry(key: String, skill: Skill) -> (r: (String, Skill))
    ensures
        r.0@ == r.1.id@,
        skill_migrated(key@, skill.deep_view(), r.1.deep_view()),
{
    let mut skill = skill;
    if skill.id.unicode_len() == 0 {
        skill.id = new_id();
    }
    if skill.slug.unicode_len() == 0 {
        skill.slug = make_slug(key.as_str());
    }
    if skill.name.unicode_len() == 0 {
        skill.name = key.clone();
    }
    let id = skill.id.clone();
    (id, skill)
}

/// Fills in the id, slug and name of a saving throw stored under `key`.
fn migrate_save_entry(key: String, save: SavingThrow) -> (r: (String, SavingThrow))
    ensures
        r.0@ == r.1.id@,
        save_migrated(key@, save.deep_view(), r.1.deep_view()),
{
    let mut save = save;
    if save.id.unicode_len() == 0 {
        save.id = new_id();
    }
    if save.slug.unicode_len() == 0 {
        save.slug = make_slug(key.as_str());
    }
    if save.name.unicode_len() == 0 {
        save.name = key.clone();
    }
    let id = save.id.clone();
    (id, save)
}

/// Fills in the id and name of a custom text field stored under `key`.
pub fn migrate_text_field(key: String, entry: CustomStringField) -> (r: (String, CustomStringField))
    ensures
        r.0@ == r.1.id@,
        text_field_migrated(key@, entry.deep_view(), r.1.deep_view()),
{
    let mut v = entry;
    if v.id.unicode_len() == 0 {
        v.id = new_id();
    }
    if v.name.unicode_len() == 0 {
        v.name = key;
    }
    let id = v.id.clone();
    (id, v)
}

/// Fills in the id and name of a custom number field stored under `key`.
pub fn migrate_int_field(key: String, entry: CustomIntField) -> (r: (String, CustomIntField))
    ensures
        r.0@ == r.1.id@,
        int_field_migrated(key@, entry.deep_view(), r.1.deep_view()),
{
    let mut v = entry;
    if v.id.unicode_len() == 0 {
        v.id = new_id();
    }
    if v.name.unicode_len() == 0 {
        v.name = key;
    }
    let id = v.id.clone();
    (id, v)
}

/// The id of a skill.
pub open spec fn skill_id(s: SkillModel) -> Seq<char> {
    s.id
}

/// The id of a saving throw.
pub open spec fn save_id(s: SavingThrowModel) -> Seq<char> {
    s.id
}

/// The id of a custom text field.
pub open spec fn text_field_id(s: CustomStringFieldModel) -> Seq<char> {
    s.id
}

/// The id of a custom number field.
pub open spec fn int_field_id(s: CustomIntFieldModel) -> Seq<char> {
    s.id
}

/// Whether every entry of `s` already has an id.
pub open spec fn all_have_ids<W>(s: Seq<(Seq<char>, W)>, id_of: spec_fn(W) -> Seq<char>) -> bool {
    forall|i: int| 0 <= i < s.len() ==> id_of(#[trigger] s[i].1).len() > 0
}

/// Re-keys skills by id, filling in missing ids, slugs and names.
fn migrate_skills(map: KeyedMap<Skill>) -> (r: KeyedMap<Skill>)
    ensures
        r.wf(),
        migrated_entries(
            map.deep_view(),
            r.deep_view(),
            |s: SkillModel| skill_id(s),
            |k: Seq<char>, a: SkillModel, b: SkillModel| skill_migrated(k, a, b),
        ),
        skills_rekeyed(
            map.deep_view(),
            r.as_map().map_values(|s: Skill| s.deep_view()),
            r.entries@.len(),
        ),
{
    let ghost inp = map.deep_view();
    let mut entries = map.entries;
    let mut out: KeyedMap<Skill> = KeyedMap::new();
    let ghost taken: Seq<(Seq<char>, SkillModel)> = Seq::empty();
    let ghost ids: Seq<Seq<char>> = Seq::empty();
    let ghost f = skill_fn();
    proof {
        assert(out.as_map().map_values(|s: Skill| s.deep_view()) =~= rekeyed(taken, ids, f, 0));
    }
    while entries.len() > 0
        invariant
            inp == entries.deep_view() + taken,
            f == skill_fn(),
            ids_given(taken, skill_id_fn(), ids),
            out.as_map().map_values(|s: Skill| s.deep_view()) == rekeyed(taken, ids, f, 0),
            out.wf(),
            out.entries@.len() <= taken.len(),
            forall|j: int|
                0 <= j < out.entries@.len() ==> (#[trigger] out.entries@[j]).0@
                    == out.entries@[j].1.id@ && exists|i: int|
                    0 <= i < taken.len() && skill_migrated(
                        taken[i].0,
                        #[trigger] taken[i].1,
                        out.entries@[j].1.deep_view(),
                    ),
            forall|i: int|
                0 <= i < taken.len() && (#[trigger] taken[i].1).id.len() > 0 ==> exists|j: int|
                    0 <= j < out.entries@.len() && #[trigger] out.entries@[j].0@ == taken[i].1.id,
        decreases entries.len(),
    {
        let ghost before_entries = entries.deep_view();
        let (key, value) = entries.pop().unwrap();
        let ghost e = (key@, value.deep_view());
        proof {
            assert(before_entries =~= entries.deep_view().push(e));
        }
        let ghost before = out.entries@;
        let ghost before_map = out.as_map();
        let (id, sk) = migrate_skill_entry(key, value);
        let ghost newv = sk.deep_view();
        let ghost nid = id@;
        out.insert(id, sk);
        proof {
            let t2 = seq![e] + taken;
            let ids2 = seq![nid] + ids;
            assert(newv == skill_with_id(e.0, e.1, nid));
            lemma_rekeyed_shift(e, taken, nid, ids, f, 0);
            assert(t2[0] == e && ids2[0] == nid);
            assert(out.as_map().map_values(|s: Skill| s.deep_view()) =~= rekeyed(t2, ids2, f, 0));
            assert forall|i: int| 0 <= i < t2.len() implies migrated_id(skill_id_fn()(t2[i].1), #[trigger] ids2[i]) by {
                if i > 0 {
                    assert(t2[i] == taken[i - 1] && ids2[i] == ids[i - 1]);
                }
            }
            ids = ids2;
            assert(inp =~= entries.deep_view() + t2) by {
                assert(before_entries + taken =~= entries.deep_view() + t2);
            }
            let last = 0int;
            assert(t2[last] == e);
            assert forall|i: int| 0 <= i < taken.len() implies t2[i + 1] == taken[i] by {}
            assert forall|j: int| 0 <= j < out.entries@.len() implies (#[trigger] out.entries@[j]).0@
                == out.entries@[j].1.id@ && exists|i: int|
                0 <= i < t2.len() && skill_migrated(
                    t2[i].0,
                    #[trigger] t2[i].1,
                    out.entries@[j].1.deep_view(),
                ) by {
                if out.entries@[j].1.deep_view() == newv && out.entries@[j].0@ == newv.id {
                    assert(skill_migrated(t2[last].0, t2[last].1, out.entries@[j].1.deep_view()));
                } else {
                    assert(out.entries@[j] == before[j]);
                    let i = choose|i: int|
                        0 <= i < taken.len() && skill_migrated(
                            taken[i].0,
                            #[trigger] taken[i].1,
                            before[j].1.deep_view(),
                        );
                    assert(t2[i + 1] == taken[i]);
                }
            }
            assert forall|i: int|
                0 <= i < t2.len() && (#[trigger] t2[i].1).id.len() > 0 implies exists|j: int|
                0 <= j < out.entries@.len() && #[trigger] out.entries@[j].0@ == t2[i].1.id by {
                if i == last {
                    assert(out.contains(newv.id));
                } else {
                    assert(t2[i] == taken[i - 1]);
                    let j = choose|j: int|
                        0 <= j < before.len() && #[trigger] before[j].0@ == taken[i - 1].1.id;
                    if before[j].0@ != newv.id {
                        assert(out.entries@[j] == before[j]);
                    } else {
                        assert(out.contains(newv.id));
                    }
                }
            }
            taken = t2;
        }
    }
    proof {
        assert(entries.deep_view().len() == 0);
        assert(inp =~= taken);
        assert(ids_given(inp, skill_id_fn(), ids));
        if ids.no_duplicates() {
            lemma_rekeyed_len(inp, ids, f);
            out.lemma_as_map_len();
            assert(out.as_map().map_values(|s: Skill| s.deep_view()).dom() =~= out.as_map().dom());
        }
        let o = out.deep_view();
        assert forall|i: int, j: int| 0 <= i < j < o.len() implies o[i].0 != o[j].0 by {
            assert(o[i].0 == out.entries@[i].0@);
            assert(o[j].0 == out.entries@[j].0@);
        }
        assert forall|j: int| 0 <= j < o.len() implies (#[trigger] o[j]).0 == skill_id(o[j].1)
            && exists|i: int|
            0 <= i < inp.len() && skill_migrated(inp[i].0, #[trigger] inp[i].1, o[j].1) by {
            assert(o[j] == (out.entries@[j].0@, out.entries@[j].1.deep_view()));
        }
        assert forall|i: int|
            0 <= i < inp.len() && skill_id(#[trigger] inp[i].1).len() > 0 implies exists|j: int|
            0 <= j < o.len() && #[trigger] o[j].0 == skill_id(inp[i].1) by {
            let j = choose|j: int|
                0 <= j < out.entries@.len() && #[trigger] out.entries@[j].0@ == taken[i].1.id;
            assert(o[j].0 == out.entries@[j].0@);
        }
    }
    out
}

/// Re-keys saving throws by id, filling in missing ids, slugs and names.
fn migrate_saves(map: KeyedMap<SavingThrow>) -> (r: KeyedMap<SavingThrow>)
    ensures
        r.wf(),
        migrated_entries(
            map.deep_view(),
            r.deep_view(),
            |s: SavingThrowModel| save_id(s),
            |k: Seq<char>, a: SavingThrowModel, b: SavingThrowModel| save_migrated(k, a, b),
        ),
        saves_rekeyed(
            map.deep_view(),
            r.as_map().map_values(|s: SavingThrow| s.deep_view()),
            r.entries@.len(),
        ),
{
    let ghost inp = map.deep_view();
    let mut entries = map.entries;
    let mut out: KeyedMap<SavingThrow> = KeyedMap::new();
    let ghost taken: Seq<(Seq<char>, SavingThrowModel)> = Seq::empty();
    let ghost ids: Seq<Seq<char>> = Seq::empty();
    let ghost f = save_fn();
    proof {
        assert(out.as_map().map_values(|s: SavingThrow| s.deep_view()) =~= rekeyed(taken, ids, f, 0));
    }
    while entries.len() > 0
        invariant
            inp == entries.deep_view() + taken,
            f == save_fn(),
            ids_given(taken, save_id_fn(), ids),
            out.as_map().map_values(|s: SavingThrow| s.deep_view()) == rekeyed(taken, ids, f, 0),
            out.wf(),
            out.entries@.len() <= taken.len(),
            forall|j: int|
                0 <= j < out.entries@.len() ==> (#[trigger] out.entries@[j]).0@
                    == out.entries@[j].1.id@ && exists|i: int|
                    0 <= i < taken.len() && save_migrated(
                        taken[i].0,
                        #[trigger] taken[i].1,
                        out.entries@[j].1.deep_view(),
                    ),
            forall|i: int|
                0 <= i < taken.len() && (#[trigger] taken[i].1).id.len() > 0 ==> exists|j: int|
                    0 <= j < out.entries@.len() && #[trigger] out.entries@[j].0@ == taken[i].1.id,
        decreases entries.len(),
    {
        let ghost before_entries = entries.deep_view();
        let (key, value) = entries.pop().unwrap();
        let ghost e = (key@, value.deep_view());
        proof {
            assert(before_entries =~= entries.deep_view().push(e));
        }
        let ghost before = out.entries@;
        let (id, sk) = migrate_save_entry(key, value);
        let ghost newv = sk.deep_view();
        let ghost nid = id@;
        out.insert(id, sk);
        proof {
            let t2 = seq![e] + taken;
            let ids2 = seq![nid] + ids;
            assert(newv == save_with_id(e.0, e.1, nid));
            lemma_rekeyed_shift(e, taken, nid, ids, f, 0);
            assert(t2[0] == e && ids2[0] == nid);
            assert(out.as_map().map_values(|s: SavingThrow| s.deep_view()) =~= rekeyed(t2, ids2, f, 0));
            assert forall|i: int| 0 <= i < t2.len() implies migrated_id(save_id_fn()(t2[i].1), #[trigger] ids2[i]) by {
                if i > 0 {
                    assert(t2[i] == taken[i - 1] && ids2[i] == ids[i - 1]);
                }
            }
            ids = ids2;
            assert(inp =~= entries.deep_view() + t2) by {
                assert(before_entries + taken =~= entries.deep_view() + t2);
            }
            let last = 0int;
            assert(t2[last] == e);
            assert forall|i: int| 0 <= i < taken.len() implies t2[i + 1] == taken[i] by {}
            assert forall|j: int| 0 <= j < out.entries@.len() implies (#[trigger] out.entries@[j]).0@
                == out.entries@[j].1.id@ && exists|i: int|
                0 <= i < t2.len() && save_migrated(
                    t2[i].0,
                    #[trigger] t2[i].1,
                    out.entries@[j].1.deep_view(),
                ) by {
                if out.entries@[j].1.deep_view() == newv && out.entries@[j].0@ == newv.id {
                    assert(save_migrated(t2[last].0, t2[last].1, out.entries@[j].1.deep_view()));
                } else {
                    assert(out.entries@[j] == before[j]);
                    let i = choose|i: int|
                        0 <= i < taken.len() && save_migrated(
                            taken[i].0,
                            #[trigger] taken[i].1,
                            before[j].1.deep_view(),
                        );
                    assert(t2[i + 1] == taken[i]);
                }
            }
            assert forall|i: int|
                0 <= i < t2.len() && (#[trigger] t2[i].1).id.len() > 0 implies exists|j: int|
                0 <= j < out.entries@.len() && #[trigger] out.entries@[j].0@ == t2[i].1.id by {
                if i == last {
                    assert(out.contains(newv.id));
                } else {
                    assert(t2[i] == taken[i - 1]);
                    let j = choose|j: int|
                        0 <= j < before.len() && #[trigger] before[j].0@ == taken[i - 1].1.id;
                    if before[j].0@ != newv.id {
                        assert(out.entries@[j] == before[j]);
                    } else {
                        assert(out.contains(newv.id));
                    }
                }
            }
            taken = t2;
        }
    }
    proof {
        assert(entries.deep_view().len() == 0);
        assert(inp =~= taken);
        assert(ids_given(inp, save_id_fn(), ids));
        if ids.no_duplicates() {
            lemma_rekeyed_len(inp, ids, f);
            out.lemma_as_map_len();
            assert(out.as_map().map_values(|s: SavingThrow| s.deep_view()).dom() =~= out.as_map().dom());
        }
        let o = out.deep_view();
        assert forall|i: int, j: int| 0 <= i < j < o.len() implies o[i].0 != o[j].0 by {
            assert(o[i].0 == out.entries@[i].0@);
            assert(o[j].0 == out.entries@[j].0@);
        }
        assert forall|j: int| 0 <= j < o.len() implies (#[trigger] o[j]).0 == save_id(o[j].1)
            && exists|i: int|
            0 <= i < inp.len() && save_migrated(inp[i].0, #[trigger] inp[i].1, o[j].1) by {
            assert(o[j] == (out.entries@[j].0@, out.entries@[j].1.deep_view()));
        }
        assert forall|i: int|
            0 <= i < inp.len() && save_id(#[trigger] inp[i].1).len() > 0 implies exists|j: int|
            0 <= j < o.len() && #[trigger] o[j].0 == save_id(inp[i].1) by {
            let j = choose|j: int|
                0 <= j < out.entries@.len() && #[trigger] out.entries@[j].0@ == taken[i].1.id;
            assert(o[j].0 == out.entries@[j].0@);
        }
    }
    out
}

/// Re-keys custom text fields by id, filling in missing ids and names.
fn migrate_text_fields(map: KeyedMap<CustomStringField>) -> (r: KeyedMap<CustomStringField>)
    ensures
        r.wf(),
        migrated_entries(
            map.deep_view(),
            r.deep_view(),
            |s: CustomStringFieldModel| text_field_id(s),
            |k: Seq<char>, a: CustomStringFieldModel, b: CustomStringFieldModel| text_field_migrated(k, a, b),
        ),
        text_fields_rekeyed(
            map.deep_view(),
            r.as_map().map_values(|s: CustomStringField| s.deep_view()),
            r.entries@.len(),
        ),
{
    let ghost inp = map.deep_view();
    let mut entries = map.entries;
    let mut out: KeyedMap<CustomStringField> = KeyedMap::new();
    let ghost taken: Seq<(Seq<char>, CustomStringFieldModel)> = Seq::empty();
    let ghost ids: Seq<Seq<char>> = Seq::empty();
    let ghost f = text_field_fn();
    proof {
        assert(out.as_map().map_values(|s: CustomStringField| s.deep_view()) =~= rekeyed(taken, ids, f, 0));
    }
    while entries.len() > 0
        invariant
            inp == entries.deep_view() + taken,
            f == text_field_fn(),
            ids_given(taken, text_field_id_fn(), ids),
            out.as_map().map_values(|s: CustomStringField| s.deep_view()) == rekeyed(taken, ids, f, 0),
            out.wf(),
            out.entries@.len() <= taken.len(),
            forall|j: int|
                0 <= j < out.entries@.len() ==> (#[trigger] out.entries@[j]).0@
                    == out.entries@[j].1.id@ && exists|i: int|
                    0 <= i < taken.len() && text_field_migrated(
                        taken[i].0,
                        #[trigger] taken[i].1,
                        out.entries@[j].1.deep_view(),
                    ),
            forall|i: int|
                0 <= i < taken.len() && (#[trigger] taken[i].1).id.len() > 0 ==> exists|j: int|
                    0 <= j < out.entries@.len() && #[trigger] out.entries@[j].0@ == taken[i].1.id,
        decreases entries.len(),
    {
        let ghost before_entries = entries.deep_view();
        let (key, value) = entries.pop().unwrap();
        let ghost e = (key@, value.deep_view());
        proof {
            assert(before_entries =~= entries.deep_view().push(e));
        }
        let ghost before = out.entries@;
        let (id, sk) = migrate_text_field(key, value);
        let ghost newv = sk.deep_view();
        let ghost nid = id@;
        out.insert(id, sk);
        proof {
            let t2 = seq![e] + taken;
            let ids2 = seq![nid] + ids;
            assert(newv == text_field_with_id(e.0, e.1, nid));
            lemma_rekeyed_shift(e, taken, nid, ids, f, 0);
            assert(t2[0] == e && ids2[0] == nid);
            assert(out.as_map().map_values(|s: CustomStringField| s.deep_view()) =~= rekeyed(t2, ids2, f, 0));
            assert forall|i: int| 0 <= i < t2.len() implies migrated_id(text_field_id_fn()(t2[i].1), #[trigger] ids2[i]) by {
                if i > 0 {
                    assert(t2[i] == taken[i - 1] && ids2[i] == ids[i - 1]);
                }
            }
            ids = ids2;
            assert(inp =~= entries.deep_view() + t2) by {
                assert(before_entries + taken =~= entries.deep_view() + t2);
            }
            let last = 0int;
            assert(t2[last] == e);
            assert forall|i: int| 0 <= i < taken.len() implies t2[i + 1] == taken[i] by {}
            assert forall|j: int| 0 <= j < out.entries@.len() implies (#[trigger] out.entries@[j]).0@
                == out.entries@[j].1.id@ && exists|i: int|
                0 <= i < t2.len() && text_field_migrated(
                    t2[i].0,
                    #[trigger] t2[i].1,
                    out.entries@[j].1.deep_view(),
                ) by {
                if out.entries@[j].1.deep_view() == newv && out.entries@[j].0@ == newv.id {
                    assert(text_field_migrated(t2[last].0, t2[last].1, out.entries@[j].1.deep_view()));
                } else {
                    assert(out.entries@[j] == before[j]);
                    let i = choose|i: int|
                        0 <= i < taken.len() && text_field_migrated(
                            taken[i].0,
                            #[trigger] taken[i].1,
                            before[j].1.deep_view(),
                        );
                    assert(t2[i + 1] == taken[i]);
                }
            }
            assert forall|i: int|
                0 <= i < t2.len() && (#[trigger] t2[i].1).id.len() > 0 implies exists|j: int|
                0 <= j < out.entries@.len() && #[trigger] out.entries@[j].0@ == t2[i].1.id by {
                if i == last {
                    assert(out.contains(newv.id));
                } else {
                    assert(t2[i] == taken[i - 1]);
                    let j = choose|j: int|
                        0 <= j < before.len() && #[trigger] before[j].0@ == taken[i - 1].1.id;
                    if before[j].0@ != newv.id {
                        assert(out.entries@[j] == before[j]);
                    } else {
                        assert(out.contains(newv.id));
                    }
                }
            }
            taken = t2;
        }
    }
    proof {
        assert(entries.deep_view().len() == 0);
        assert(inp =~= taken);
        assert(ids_given(inp, text_field_id_fn(), ids));
        if ids.no_duplicates() {
            lemma_rekeyed_len(inp, ids, f);
            out.lemma_as_map_len();
            assert(out.as_map().map_values(|s: CustomStringField| s.deep_view()).dom() =~= out.as_map().dom());
        }
        let o = out.deep_view();
        assert forall|i: int, j: int| 0 <= i < j < o.len() implies o[i].0 != o[j].0 by {
            assert(o[i].0 == out.entries@[i].0@);
            assert(o[j].0 == out.entries@[j].0@);
        }
        assert forall|j: int| 0 <= j < o.len() implies (#[trigger] o[j]).0 == text_field_id(o[j].1)
            && exists|i: int|
            0 <= i < inp.len() && text_field_migrated(inp[i].0, #[trigger] inp[i].1, o[j].1) by {
            assert(o[j] == (out.entries@[j].0@, out.entries@[j].1.deep_view()));
        }
        assert forall|i: int|
            0 <= i < inp.len() && text_field_id(#[trigger] inp[i].1).len() > 0 implies exists|j: int|
            0 <= j < o.len() && #[trigger] o[j].0 == text_field_id(inp[i].1) by {
            let j = choose|j: int|
                0 <= j < out.entries@.len() && #[trigger] out.entries@[j].0@ == taken[i].1.id;
            assert(o[j].0 == out.entries@[j].0@);
        }
    }
    out
}

/// Re-keys custom number fields by id, filling in missing ids and names.
fn migrate_int_fields(map: KeyedMap<CustomIntField>) -> (r: KeyedMap<CustomIntField>)
    ensures
        r.wf(),
        migrated_entries(
            map.deep_view(),
            r.deep_view(),
            |s: CustomIntFieldModel| int_field_id(s),
            |k: Seq<char>, a: CustomIntFieldModel, b: CustomIntFieldModel| int_field_migrated(k, a, b),
        ),
        int_fields_rekeyed(
            map.deep_view(),
            r.as_map().map_values(|s: CustomIntField| s.deep_view()),
            r.entries@.len(),
        ),
{
    let ghost inp = map.deep_view();
    let mut entries = map.entries;
    let mut out: KeyedMap<CustomIntField> = KeyedMap::new();
    let ghost taken: Seq<(Seq<char>, CustomIntFieldModel)> = Seq::empty();
    let ghost ids: Seq<Seq<char>> = Seq::empty();
    let ghost f = int_field_fn();
    proof {
        assert(out.as_map().map_values(|s: CustomIntField| s.deep_view()) =~= rekeyed(taken, ids, f, 0));
    }
    while entries.len() > 0
        invariant
            inp == entries.deep_view() + taken,
            f == int_field_fn(),
            ids_given(taken, int_field_id_fn(), ids),
            out.as_map().map_values(|s: CustomIntField| s.deep_view()) == rekeyed(taken, ids, f, 0),
            out.wf(),
            out.entries@.len() <= taken.len(),
            forall|j: int|
                0 <= j < out.entries@.len() ==> (#[trigger] out.entries@[j]).0@
                    == out.entries@[j].1.id@ && exists|i: int|
                    0 <= i < taken.len() && int_field_migrated(
                        taken[i].0,
                        #[trigger] taken[i].1,
                        out.entries@[j].1.deep_view(),
                    ),
            forall|i: int|
                0 <= i < taken.len() && (#[trigger] taken[i].1).id.len() > 0 ==> exists|j: int|
                    0 <= j < out.entries@.len() && #[trigger] out.entries@[j].0@ == taken[i].1.id,
        decreases entries.len(),
    {
        let ghost before_entries = entries.deep_view();
        let (key, value) = entries.pop().unwrap();
        let ghost e = (key@, value.deep_view());
        proof {
            assert(before_entries =~= entries.deep_view().push(e));
        }
        let ghost before = out.entries@;
        let (id, sk) = migrate_int_field(key, value);
        let ghost newv = sk.deep_view();
        let ghost nid = id@;
        out.insert(id, sk);
        proof {
            let t2 = seq![e] + taken;
            let ids2 = seq![nid] + ids;
            assert(newv == int_field_with_id(e.0, e.1, nid));
            lemma_rekeyed_shift(e, taken, nid, ids, f, 0);
            assert(t2[0] == e && ids2[0] == nid);
            assert(out.as_map().map_values(|s: CustomIntField| s.deep_view()) =~= rekeyed(t2, ids2, f, 0));
            assert forall|i: int| 0 <= i < t2.len() implies migrated_id(int_field_id_fn()(t2[i].1), #[trigger] ids2[i]) by {
                if i > 0 {
                    assert(t2[i] == taken[i - 1] && ids2[i] == ids[i - 1]);
                }
            }
            ids = ids2;
            assert(inp =~= entries.deep_view() + t2) by {
                assert(before_entries + taken =~= entries.deep_view() + t2);
            }
            let last = 0int;
            assert(t2[last] == e);
            assert forall|i: int| 0 <= i < taken.len() implies t2[i + 1] == taken[i] by {}
            assert forall|j: int| 0 <= j < out.entries@.len() implies (#[trigger] out.entries@[j]).0@
                == out.entries@[j].1.id@ && exists|i: int|
                0 <= i < t2.len() && int_field_migrated(
                    t2[i].0,
                    #[trigger] t2[i].1,
                    out.entries@[j].1.deep_view(),
                ) by {
                if out.entries@[j].1.deep_view() == newv && out.entries@[j].0@ == newv.id {
                    assert(int_field_migrated(t2[last].0, t2[last].1, out.entries@[j].1.deep_view()));
                } else {
                    assert(out.entries@[j] == before[j]);
                    let i = choose|i: int|
                        0 <= i < taken.len() && int_field_migrated(
                            taken[i].0,
                            #[trigger] taken[i].1,
                            before[j].1.deep_view(),
                        );
                    assert(t2[i + 1] == taken[i]);
                }
            }
            assert forall|i: int|
                0 <= i < t2.len() && (#[trigger] t2[i].1).id.len() > 0 implies exists|j: int|
                0 <= j < out.entries@.len() && #[trigger] out.entries@[j].0@ == t2[i].1.id by {
                if i == last {
                    assert(out.contains(newv.id));
                } else {
                    assert(t2[i] == taken[i - 1]);
                    let j = choose|j: int|
                        0 <= j < before.len() && #[trigger] before[j].0@ == taken[i - 1].1.id;
                    if before[j].0@ != newv.id {
                        assert(out.entries@[j] == before[j]);
                    } else {
                        assert(out.contains(newv.id));
                    }
                }
            }
            taken = t2;
        }
    }
    proof {
        assert(entries.deep_view().len() == 0);
        assert(inp =~= taken);
        assert(ids_given(inp, int_field_id_fn(), ids));
        if ids.no_duplicates() {
            lemma_rekeyed_len(inp, ids, f);
            out.lemma_as_map_len();
            assert(out.as_map().map_values(|s: CustomIntField| s.deep_view()).dom() =~= out.as_map().dom());
        }
        let o = out.deep_view();
        assert forall|i: int, j: int| 0 <= i < j < o.len() implies o[i].0 != o[j].0 by {
            assert(o[i].0 == out.entries@[i].0@);
            assert(o[j].0 == out.entries@[j].0@);
        }
        assert forall|j: int| 0 <= j < o.len() implies (#[trigger] o[j]).0 == int_field_id(o[j].1)
            && exists|i: int|
            0 <= i < inp.len() && int_field_migrated(inp[i].0, #[trigger] inp[i].1, o[j].1) by {
            assert(o[j] == (out.entries@[j].0@, out.entries@[j].1.deep_view()));
        }
        assert forall|i: int|
            0 <= i < inp.len() && int_field_id(#[trigger] inp[i].1).len() > 0 implies exists|j: int|
            0 <= j < o.len() && #[trigger] o[j].0 == int_field_id(inp[i].1) by {
            let j = choose|j: int|
                0 <= j < out.entries@.len() && #[trigger] out.entries@[j].0@ == taken[i].1.id;
            assert(o[j].0 == out.entries@[j].0@);
        }
    }
    out
}

/// Fills in the empty names of custom text fields from their keys; keys,
/// ids, values and order stay.
fn fill_text_names(map: &KeyedMap<CustomStringField>) -> (r: KeyedMap<CustomStringField>)
    requires
        map.wf(),
    ensures
        r.wf(),
        r.deep_view().len() == map.deep_view().len(),
        forall|i: int|
            0 <= i < map.deep_view().len() ==> (#[trigger] r.deep_view()[i]).0 == map.deep_view()[i].0
                && r.deep_view()[i].1 == text_field_with_id(
                map.deep_view()[i].0,
                map.deep_view()[i].1,
                map.deep_view()[i].1.id,
            ),
{
    let ghost d = map.deep_view();
    let n = map.entries.len();
    let mut out: Vec<(String, CustomStringField)> = Vec::new();
    let mut i: usize = 0;
    while i < n
        invariant
            n == map.entries@.len(),
            d == map.deep_view(),
            i <= n,
            out@.len() == i,
            forall|k: int|
                0 <= k < i ==> (#[trigger] out@[k]).0@ == d[k].0 && out@[k].1.deep_view()
                    == text_field_with_id(d[k].0, d[k].1, d[k].1.id),
        decreases n - i,
    {
        let key = &map.entries[i].0;
        let e = &map.entries[i].1;
        assert(d[i as int] == (key@, e.deep_view()));
        let name = if e.name.unicode_len() == 0 {
            key.clone()
        } else {
            e.name.clone()
        };
        out.push((key.clone(), CustomStringField { id: e.id.clone(), name, value: e.value.clone() }));
        i = i + 1;
    }
    let r = KeyedMap { entries: out };
    proof {
        assert(r.keys() =~= map.keys()) by {
            assert forall|k: int| 0 <= k < n implies r.keys()[k] == map.keys()[k] by {
                assert(out@[k].0@ == d[k].0);
            }
        }
        map.lemma_wf_same_keys(&r);
        assert forall|k: int| 0 <= k < n implies (#[trigger] r.deep_view()[k]).0 == d[k].0
            && r.deep_view()[k].1 == text_field_with_id(d[k].0, d[k].1, d[k].1.id) by {
            assert(r.deep_view()[k] == (out@[k].0@, out@[k].1.deep_view()));
        }
    }
    r
}

/// Fills in the empty names of custom number fields from their keys; keys,
/// ids, values and order stay.
fn fill_int_names(map: &KeyedMap<CustomIntField>) -> (r: KeyedMap<CustomIntField>)
    requires
        map.wf(),
    ensures
        r.wf(),
        r.deep_view().len() == map.deep_view().len(),
        forall|i: int|
            0 <= i < map.deep_view().len() ==> (#[trigger] r.deep_view()[i]).0 == map.deep_view()[i].0
                && r.deep_view()[i].1 == int_field_with_id(
                map.deep_view()[i].0,
                map.deep_view()[i].1,
                map.deep_view()[i].1.id,
            ),
{
    let ghost d = map.deep_view();
    let n = map.entries.len();
    let mut out: Vec<(String, CustomIntField)> = Vec::new();
    let mut i: usize = 0;
    while i < n
        invariant
            n == map.entries@.len(),
            d == map.deep_view(),
            i <= n,
            out@.len() == i,
            forall|k: int|
                0 <= k < i ==> (#[trigger] out@[k]).0@ == d[k].0 && out@[k].1.deep_view()
                    == int_field_with_id(d[k].0, d[k].1, d[k].1.id),
        decreases n - i,
    {
        let key = &map.entries[i].0;
        let e = &map.entries[i].1;
        assert(d[i as int] == (key@, e.deep_view()));
        let name = if e.name.unicode_len() == 0 {
            key.clone()
        } else {
            e.name.clone()
        };
        out.push((key.clone(), CustomIntField { id: e.id.clone(), name, value: e.value }));
        i = i + 1;
    }
    let r = KeyedMap { entries: out };
    proof {
        assert(r.keys() =~= map.keys()) by {
            assert forall|k: int| 0 <= k < n implies r.keys()[k] == map.keys()[k] by {
                assert(out@[k].0@ == d[k].0);
            }
        }
        map.lemma_wf_same_keys(&r);
        assert forall|k: int| 0 <= k < n implies (#[trigger] r.deep_view()[k]).0 == d[k].0
            && r.deep_view()[k].1 == int_field_with_id(d[k].0, d[k].1, d[k].1.id) by {
            assert(r.deep_view()[k] == (out@[k].0@, out@[k].1.deep_view()));
        }
    }
    r
}

/// Whether every custom text field has an id.
fn text_fields_have_ids(map: &KeyedMap<CustomStringField>) -> (r: bool)
    ensures
        r == all_have_ids(map.deep_view(), |s: CustomStringFieldModel| text_field_id(s)),
{
    let ghost d = map.deep_view();
    let n = map.entries.len();
    let mut i: usize = 0;
    while i < n
        invariant
            n == map.entries@.len(),
            d == map.deep_view(),
            i <= n,
            forall|k: int| 0 <= k < i ==> (#[trigger] d[k]).1.id.len() > 0,
        decreases n - i,
    {
        assert(d[i as int].1.id == map.entries@[i as int].1.id@);
        if map.entries[i].1.id.unicode_len() == 0 {
            return false;
        }
        i = i + 1;
    }
    true
}

/// Whether every custom number field has an id.
fn int_fields_have_ids(map: &KeyedMap<CustomIntField>) -> (r: bool)
    ensures
        r == all_have_ids(map.deep_view(), |s: CustomIntFieldModel| int_field_id(s)),
{
    let ghost d = map.deep_view();
    let n = map.entries.len();
    let mut i: usize = 0;
    while i < n
        invariant
            n == map.entries@.len(),
            d == map.deep_view(),
            i <= n,
            forall|k: int| 0 <= k < i ==> (#[trigger] d[k]).1.id.len() > 0,
        decreases n - i,
    {
        assert(d[i as int].1.id == map.entries@[i as int].1.id@);
        if map.entries[i].1.id.unicode_len() == 0 {
            return false;
        }
        i = i + 1;
    }
    true
}

/// Whether `out` is what migrating the custom text fields `inp` gives: when
/// all of them have ids, the same fields under the same keys with empty
/// names filled in from the keys; otherwise their migration.
pub open spec fn text_fields_migrated(
    inp: Seq<(Seq<char>, CustomStringFieldModel)>,
    out: Seq<(Seq<char>, CustomStringFieldModel)>,
) -> bool {
    if all_have_ids(inp, |s: CustomStringFieldModel| text_field_id(s)) {
        &&& out.len() == inp.len()
        &&& forall|i: int|
            0 <= i < inp.len() ==> (#[trigger] out[i]).0 == inp[i].0 && out[i].1 == text_field_with_id(
                inp[i].0,
                inp[i].1,
                inp[i].1.id,
            )
    } else {
        migrated_entries(
            inp,
            out,
            |s: CustomStringFieldModel| text_field_id(s),
            |k: Seq<char>, a: CustomStringFieldModel, b: CustomStringFieldModel|
                text_field_migrated(k, a, b),
        )
    }
}

/// Whether `out` is what migrating the custom number fields `inp` gives
/// (as for text fields).
pub open spec fn int_fields_migrated(
    inp: Seq<(Seq<char>, CustomIntFieldModel)>,
    out: Seq<(Seq<char>, CustomIntFieldModel)>,
) -> bool {
    if all_have_ids(inp, |s: CustomIntFieldModel| int_field_id(s)) {
        &&& out.len() == inp.len()
        &&& forall|i: int|
            0 <= i < inp.len() ==> (#[trigger] out[i]).0 == inp[i].0 && out[i].1 == int_field_with_id(
                inp[i].0,
                inp[i].1,
                inp[i].1.id,
            )
    } else {
        migrated_entries(
            inp,
            out,
            |s: CustomIntFieldModel| int_field_id(s),
            |k: Seq<char>, a: CustomIntFieldModel, b: CustomIntFieldModel| int_field_migrated(
                k,
                a,
                b,
            ),
        )
    }
}

/// Whether every entry is stored under a non-empty key.
pub open spec fn keys_nonempty<W>(s: Seq<(Seq<char>, W)>) -> bool {
    forall|i: int| 0 <= i < s.len() ==> (#[trigger] s[i]).0.len() > 0
}

/// Whether the slug of every key is non-empty (every key has a character
/// that stays alphanumeric once lowercased).
pub open spec fn key_slugs_nonempty<W>(s: Seq<(Seq<char>, W)>) -> bool {
    forall|i: int| 0 <= i < s.len() ==> slug((#[trigger] s[i]).0).len() > 0
}

/// Migrated skills of entries with non-empty keys have non-empty names, and
/// of entries whose keys have non-empty slugs non-empty slugs.
proof fn lemma_skill_names_filled(inp: Seq<(Seq<char>, SkillModel)>, out: Seq<(Seq<char>, SkillModel)>)
    requires
        migrated_entries(
            inp,
            out,
            |s: SkillModel| skill_id(s),
            |k: Seq<char>, a: SkillModel, b: SkillModel| skill_migrated(k, a, b),
        ),
    ensures
        keys_nonempty(inp) ==> forall|j: int| 0 <= j < out.len() ==> (#[trigger] out[j]).1.name.len() > 0,
        key_slugs_nonempty(inp) ==> forall|j: int| 0 <= j < out.len() ==> (#[trigger] out[j]).1.slug.len() > 0,
{
    if keys_nonempty(inp) {
        assert forall|j: int| 0 <= j < out.len() implies (#[trigger] out[j]).1.name.len() > 0 by {
            let i = choose|i: int| 0 <= i < inp.len() && skill_migrated(inp[i].0, #[trigger] inp[i].1, out[j].1);
            assert(inp[i].0.len() > 0);
        }
    }
    if key_slugs_nonempty(inp) {
        assert forall|j: int| 0 <= j < out.len() implies (#[trigger] out[j]).1.slug.len() > 0 by {
            let i = choose|i: int| 0 <= i < inp.len() && skill_migrated(inp[i].0, #[trigger] inp[i].1, out[j].1);
            assert(slug(inp[i].0).len() > 0);
        }
    }
}

/// Migrated saving throws of entries with non-empty keys have non-empty
/// names, and of entries whose keys have non-empty slugs non-empty slugs.
proof fn lemma_save_names_filled(
    inp: Seq<(Seq<char>, SavingThrowModel)>,
    out: Seq<(Seq<char>, SavingThrowModel)>,
)
    requires
        migrated_entries(
            inp,
            out,
            |s: SavingThrowModel| save_id(s),
            |k: Seq<char>, a: SavingThrowModel, b: SavingThrowModel| save_migrated(k, a, b),
        ),
    ensures
        keys_nonempty(inp) ==> forall|j: int| 0 <= j < out.len() ==> (#[trigger] out[j]).1.name.len() > 0,
        key_slugs_nonempty(inp) ==> forall|j: int| 0 <= j < out.len() ==> (#[trigger] out[j]).1.slug.len() > 0,
{
    if keys_nonempty(inp) {
        assert forall|j: int| 0 <= j < out.len() implies (#[trigger] out[j]).1.name.len() > 0 by {
            let i = choose|i: int| 0 <= i < inp.len() && save_migrated(inp[i].0, #[trigger] inp[i].1, out[j].1);
            assert(inp[i].0.len() > 0);
        }
    }
    if key_slugs_nonempty(inp) {
        assert forall|j: int| 0 <= j < out.len() implies (#[trigger] out[j]).1.slug.len() > 0 by {
            let i = choose|i: int| 0 <= i < inp.len() && save_migrated(inp[i].0, #[trigger] inp[i].1, out[j].1);
            assert(slug(inp[i].0).len() > 0);
        }
    }
}

/// Migrated custom text fields of entries with non-empty keys have
/// non-empty names.
proof fn lemma_text_names_filled(
    inp: Seq<(Seq<char>, CustomStringFieldModel)>,
    out: Seq<(Seq<char>, CustomStringFieldModel)>,
)
    requires
        text_fields_migrated(inp, out),
    ensures
        keys_nonempty(inp) ==> forall|j: int| 0 <= j < out.len() ==> (#[trigger] out[j]).1.name.len() > 0,
{
    if keys_nonempty(inp) {
        assert forall|j: int| 0 <= j < out.len() implies (#[trigger] out[j]).1.name.len() > 0 by {
            if all_have_ids(inp, |s: CustomStringFieldModel| text_field_id(s)) {
                assert(inp[j].0.len() > 0);
            } else {
                let i = choose|i: int|
                    0 <= i < inp.len() && text_field_migrated(inp[i].0, #[trigger] inp[i].1, out[j].1);
                assert(inp[i].0.len() > 0);
            }
        }
    }
}

/// Migrated custom number fields of entries with non-empty keys have
/// non-empty names.
proof fn lemma_int_names_filled(
    inp: Seq<(Seq<char>, CustomIntFieldModel)>,
    out: Seq<(Seq<char>, CustomIntFieldModel)>,
)
    requires
        int_fields_migrated(inp, out),
    ensures
        keys_nonempty(inp) ==> forall|j: int| 0 <= j < out.len() ==> (#[trigger] out[j]).1.name.len() > 0,
{
    if keys_nonempty(inp) {
        assert forall|j: int| 0 <= j < out.len() implies (#[trigger] out[j]).1.name.len() > 0 by {
            if all_have_ids(inp, |s: CustomIntFieldModel| int_field_id(s)) {
                assert(inp[j].0.len() > 0);
            } else {
                let i = choose|i: int|
                    0 <= i < inp.len() && int_field_migrated(inp[i].0, #[trigger] inp[i].1, out[j].1);
                assert(inp[i].0.len() > 0);
            }
        }
    }
}

impl CharacterSheet {
    /// Re-keys the skills, saving throws and (where some entry lacks an id)
    /// the custom fields of a sheet by their ids, filling in missing ids,
    /// slugs and names; custom fields that all have ids keep their keys and
    /// only get empty names filled in from them. The rest of the sheet is
    /// unchanged.
    pub fn migrate_to_ids(&mut self)
        requires
            old(self).custom_basic_info.wf(),
            old(self).custom_attributes.wf(),
            old(self).custom_combat.wf(),
        ensures
            final(self).wf(),
            migrated_entries(
                old(self).skills.deep_view(),
                final(self).skills.deep_view(),
                |s: SkillModel| skill_id(s),
                |k: Seq<char>, a: SkillModel, b: SkillModel| skill_migrated(k, a, b),
            ),
            migrated_entries(
                old(self).saving_throws.deep_view(),
                final(self).saving_throws.deep_view(),
                |s: SavingThrowModel| save_id(s),
                |k: Seq<char>, a: SavingThrowModel, b: SavingThrowModel| save_migrated(k, a, b),
            ),
            text_fields_migrated(
                old(self).custom_basic_info.deep_view(),
                final(self).custom_basic_info.deep_view(),
            ),
            int_fields_migrated(
                old(self).custom_attributes.deep_view(),
                final(self).custom_attributes.deep_view(),
            ),
            text_fields_migrated(
                old(self).custom_combat.deep_view(),
                final(self).custom_combat.deep_view(),
            ),
            skills_rekeyed(
                old(self).skills.deep_view(),
                final(self).skills.as_map().map_values(|s: Skill| s.deep_view()),
                final(self).skills.entries@.len(),
            ),
            saves_rekeyed(
                old(self).saving_throws.deep_view(),
                final(self).saving_throws.as_map().map_values(|s: SavingThrow| s.deep_view()),
                final(self).saving_throws.entries@.len(),
            ),
            !all_have_ids(old(self).custom_basic_info.deep_view(), text_field_id_fn()) ==> text_fields_rekeyed(
                old(self).custom_basic_info.deep_view(),
                final(self).custom_basic_info.as_map().map_values(|s: CustomStringField| s.deep_view()),
                final(self).custom_basic_info.entries@.len(),
            ),
            !all_have_ids(old(self).custom_attributes.deep_view(), int_field_id_fn()) ==> int_fields_rekeyed(
                old(self).custom_attributes.deep_view(),
                final(self).custom_attributes.as_map().map_values(|s: CustomIntField| s.deep_view()),
                final(self).custom_attributes.entries@.len(),
            ),
            !all_have_ids(old(self).custom_combat.deep_view(), text_field_id_fn()) ==> text_fields_rekeyed(
                old(self).custom_combat.deep_view(),
                final(self).custom_combat.as_map().map_values(|s: CustomStringField| s.deep_view()),
                final(self).custom_combat.entries@.len(),
            ),
            keys_nonempty(old(self).skills.deep_view()) ==> forall|j: int|
                0 <= j < final(self).skills.deep_view().len()
                    ==> (#[trigger] final(self).skills.deep_view()[j]).1.name.len() > 0,
            key_slugs_nonempty(old(self).skills.deep_view()) ==> forall|j: int|
                0 <= j < final(self).skills.deep_view().len()
                    ==> (#[trigger] final(self).skills.deep_view()[j]).1.slug.len() > 0,
            key_slugs_nonempty(old(self).saving_throws.deep_view()) ==> forall|j: int|
                0 <= j < final(self).saving_throws.deep_view().len()
                    ==> (#[trigger] final(self).saving_throws.deep_view()[j]).1.slug.len() > 0,
            keys_nonempty(old(self).saving_throws.deep_view()) ==> forall|j: int|
                0 <= j < final(self).saving_throws.deep_view().len()
                    ==> (#[trigger] final(self).saving_throws.deep_view()[j]).1.name.len() > 0,
            keys_nonempty(old(self).custom_basic_info.deep_view()) ==> forall|j: int|
                0 <= j < final(self).custom_basic_info.deep_view().len()
                    ==> (#[trigger] final(self).custom_basic_info.deep_view()[j]).1.name.len() > 0,
            keys_nonempty(old(self).custom_attributes.deep_view()) ==> forall|j: int|
                0 <= j < final(self).custom_attributes.deep_view().len()
                    ==> (#[trigger] final(self).custom_attributes.deep_view()[j]).1.name.len() > 0,
            keys_nonempty(old(self).custom_combat.deep_view()) ==> forall|j: int|
                0 <= j < final(self).custom_combat.deep_view().len()
                    ==> (#[trigger] final(self).custom_combat.deep_view()[j]).1.name.len() > 0,
            final(self).character.deep_view() == old(self).character.deep_view(),
            final(self).attributes == old(self).attributes,
            final(self).modifiers == old(self).modifiers,
            final(self).combat.deep_view() == old(self).combat.deep_view(),
            final(self).proficiency_bonus == old(self).proficiency_bonus,
            final(self).equipment.deep_view() == old(self).equipment.deep_view(),
            final(self).features.deep_view() == old(self).features.deep_view(),
            final(self).spells.deep_view() == old(self).spells.deep_view(),
    {
        let mut skills: KeyedMap<Skill> = KeyedMap::new();
        std::mem::swap(&mut skills, &mut self.skills);
        self.skills = migrate_skills(skills);
        let mut saves: KeyedMap<SavingThrow> = KeyedMap::new();
        std::mem::swap(&mut saves, &mut self.saving_throws);
        self.saving_throws = migrate_saves(saves);
        if !text_fields_have_ids(&self.custom_basic_info) {
            let mut m: KeyedMap<CustomStringField> = KeyedMap::new();
            std::mem::swap(&mut m, &mut self.custom_basic_info);
            self.custom_basic_info = migrate_text_fields(m);
        } else {
            self.custom_basic_info = fill_text_names(&self.custom_basic_info);
        }
        if !int_fields_have_ids(&self.custom_attributes) {
            let mut m: KeyedMap<CustomIntField> = KeyedMap::new();
            std::mem::swap(&mut m, &mut self.custom_attributes);
            self.custom_attributes = migrate_int_fields(m);
        } else {
            self.custom_attributes = fill_int_names(&self.custom_attributes);
        }
        if !text_fields_have_ids(&self.custom_combat) {
            let mut m: KeyedMap<CustomStringField> = KeyedMap::new();
            std::mem::swap(&mut m, &mut self.custom_combat);
            self.custom_combat = migrate_text_fields(m);
        } else {
            self.custom_combat = fill_text_names(&self.custom_combat);
        }
        proof {
            lemma_skill_names_filled(old(self).skills.deep_view(), self.skills.deep_view());
            lemma_save_names_filled(old(self).saving_throws.deep_view(), self.saving_throws.deep_view());
            lemma_text_names_filled(old(self).custom_basic_info.deep_view(), self.custom_basic_info.deep_view());
            lemma_int_names_filled(old(self).custom_attributes.deep_view(), self.custom_attributes.deep_view());
            lemma_text_names_filled(old(self).custom_combat.deep_view(), self.custom_combat.deep_view());
        }
    }
}

/// After migration, every skill and saving throw is stored under its own,
/// non-empty id, and no id is used twice.
pub proof fn migration_keys_entries_by_id(
    inp: Seq<(Seq<char>, SkillModel)>,
    out: Seq<(Seq<char>, SkillModel)>,
)
    requires
        migrated_entries(
            inp,
            out,
            |s: SkillModel| skill_id(s),
            |k: Seq<char>, a: SkillModel, b: SkillModel| skill_migrated(k, a, b),
        ),
    ensures
        forall|j: int| 0 <= j < out.len() ==> (#[trigger] out[j]).0 == out[j].1.id && out[j].1.id.len() > 0,
        forall|j: int| 0 <= j < out.len() ==> (#[trigger] out[j]).1.slug.len() > 0 || exists|i: int|
            0 <= i < inp.len() && inp[i].1.slug.len() == 0 && out[j].1.slug == slug(inp[i].0),
        forall|i: int, j: int| 0 <= i < j < out.len() ==> out[i].0 != out[j].0,
{
    assert forall|j: int| 0 <= j < out.len() implies (#[trigger] out[j]).0 == out[j].1.id
        && out[j].1.id.len() > 0 by {
        let i = choose|i: int|
            0 <= i < inp.len() && skill_migrated(inp[i].0, #[trigger] inp[i].1, out[j].1);
    }
    assert forall|j: int| 0 <= j < out.len() implies (#[trigger] out[j]).1.slug.len() > 0
        || exists|i: int| 0 <= i < inp.len() && inp[i].1.slug.len() == 0 && out[j].1.slug == slug(
        inp[i].0,
    ) by {
        let i = choose|i: int|
            0 <= i < inp.len() && skill_migrated(inp[i].0, #[trigger] inp[i].1, out[j].1);
        if out[j].1.slug.len() == 0 {
            assert(inp[i].1.slug.len() == 0);
        }
    }
}


// ---------------------------------------------------------------------------
// Laws of the standard abilities and skills
// ---------------------------------------------------------------------------

/// The twelve names of the standard abilities are all different.
proof fn lemma_ability_keys_distinct()
    ensures
        "str"@ != "strength"@,
        "str"@ != "dex"@,
        "str"@ != "dexterity"@,
        "str"@ != "con"@,
        "str"@ != "constitution"@,
        "str"@ != "int"@,
        "str"@ != "intelligence"@,
        "str"@ != "wis"@,
        "str"@ != "wisdom"@,
        "str"@ != "cha"@,
        "str"@ != "charisma"@,
        "strength"@ != "dex"@,
        "strength"@ != "dexterity"@,
        "strength"@ != "con"@,
        "strength"@ != "constitution"@,
        "strength"@ != "int"@,
        "strength"@ != "intelligence"@,
        "strength"@ != "wis"@,
        "strength"@ != "wisdom"@,
        "strength"@ != "cha"@,
        "strength"@ != "charisma"@,
        "dex"@ != "dexterity"@,
        "dex"@ != "con"@,
        "dex"@ != "constitution"@,
        "dex"@ != "int"@,
        "dex"@ != "intelligence"@,
        "dex"@ != "wis"@,
        "dex"@ != "wisdom"@,
        "dex"@ != "cha"@,
        "dex"@ != "charisma"@,
        "dexterity"@ != "con"@,
        "dexterity"@ != "constitution"@,
        "dexterity"@ != "int"@,
        "dexterity"@ != "intelligence"@,
        "dexterity"@ != "wis"@,
        "dexterity"@ != "wisdom"@,
        "dexterity"@ != "cha"@,
        "dexterity"@ != "charisma"@,
        "con"@ != "constitution"@,
        "con"@ != "int"@,
        "con"@ != "intelligence"@,
        "con"@ != "wis"@,
        "con"@ != "wisdom"@,
        "con"@ != "cha"@,
        "con"@ != "charisma"@,
        "constitution"@ != "int"@,
        "constitution"@ != "intelligence"@,
        "constitution"@ != "wis"@,
        "constitution"@ != "wisdom"@,
        "constitution"@ != "cha"@,
        "constitution"@ != "charisma"@,
        "int"@ != "intelligence"@,
        "int"@ != "wis"@,
        "int"@ != "wisdom"@,
        "int"@ != "cha"@,
        "int"@ != "charisma"@,
        "intelligence"@ != "wis"@,
        "intelligence"@ != "wisdom"@,
        "intelligence"@ != "cha"@,
        "intelligence"@ != "charisma"@,
        "wis"@ != "wisdom"@,
        "wis"@ != "cha"@,
        "wis"@ != "charisma"@,
        "wisdom"@ != "cha"@,
        "wisdom"@ != "charisma"@,
        "cha"@ != "charisma"@,
{
    reveal_strlit("str");
    reveal_strlit("strength");
    reveal_strlit("dex");
    reveal_strlit("dexterity");
    reveal_strlit("con");
    reveal_strlit("constitution");
    reveal_strlit("int");
    reveal_strlit("intelligence");
    reveal_strlit("wis");
    reveal_strlit("wisdom");
    reveal_strlit("cha");
    reveal_strlit("charisma");
    assert("str"@ != "strength"@) by {
        assert("str"@.len() != "strength"@.len());
    }
    assert("str"@ != "dex"@) by {
        assert("str"@[0] != "dex"@[0]);
    }
    assert("str"@ != "dexterity"@) by {
        assert("str"@.len() != "dexterity"@.len());
    }
    assert("str"@ != "con"@) by {
        assert("str"@[0] != "con"@[0]);
    }
    assert("str"@ != "constitution"@) by {
        assert("str"@.len() != "constitution"@.len());
    }
    assert("str"@ != "int"@) by {
        assert("str"@[0] != "int"@[0]);
    }
    assert("str"@ != "intelligence"@) by {
        assert("str"@.len() != "intelligence"@.len());
    }
    assert("str"@ != "wis"@) by {
        assert("str"@[0] != "wis"@[0]);
    }
    assert("str"@ != "wisdom"@) by {
        assert("str"@.len() != "wisdom"@.len());
    }
    assert("str"@ != "cha"@) by {
        assert("str"@[0] != "cha"@[0]);
    }
    assert("str"@ != "charisma"@) by {
        assert("str"@.len() != "charisma"@.len());
    }
    assert("strength"@ != "dex"@) by {
        assert("strength"@.len() != "dex"@.len());
    }
    assert("strength"@ != "dexterity"@) by {
        assert("strength"@.len() != "dexterity"@.len());
    }
    assert("strength"@ != "con"@) by {
        assert("strength"@.len() != "con"@.len());
    }
    assert("strength"@ != "constitution"@) by {
        assert("strength"@.len() != "constitution"@.len());
    }
    assert("strength"@ != "int"@) by {
        assert("strength"@.len() != "int"@.len());
    }
    assert("strength"@ != "intelligence"@) by {
        assert("strength"@.len() != "intelligence"@.len());
    }
    assert("strength"@ != "wis"@) by {
        assert("strength"@.len() != "wis"@.len());
    }
    assert("strength"@ != "wisdom"@) by {
        assert("strength"@.len() != "wisdom"@.len());
    }
    assert("strength"@ != "cha"@) by {
        assert("strength"@.len() != "cha"@.len());
    }
    assert("strength"@ != "charisma"@) by {
        assert("strength"@[0] != "charisma"@[0]);
    }
    assert("dex"@ != "dexterity"@) by {
        assert("dex"@.len() != "dexterity"@.len());
    }
    assert("dex"@ != "con"@) by {
        assert("dex"@[0] != "con"@[0]);
    }
    assert("dex"@ != "constitution"@) by {
        assert("dex"@.len() != "constitution"@.len());
    }
    assert("dex"@ != "int"@) by {
        assert("dex"@[0] != "int"@[0]);
    }
    assert("dex"@ != "intelligence"@) by {
        assert("dex"@.len() != "intelligence"@.len());
    }
    assert("dex"@ != "wis"@) by {
        assert("dex"@[0] != "wis"@[0]);
    }
    assert("dex"@ != "wisdom"@) by {
        assert("dex"@.len() != "wisdom"@.len());
    }
    assert("dex"@ != "cha"@) by {
        assert("dex"@[0] != "cha"@[0]);
    }
    assert("dex"@ != "charisma"@) by {
        assert("dex"@.len() != "charisma"@.len());
    }
    assert("dexterity"@ != "con"@) by {
        assert("dexterity"@.len() != "con"@.len());
    }
    assert("dexterity"@ != "constitution"@) by {
        assert("dexterity"@.len() != "constitution"@.len());
    }
    assert("dexterity"@ != "int"@) by {
        assert("dexterity"@.len() != "int"@.len());
    }
    assert("dexterity"@ != "intelligence"@) by {
        assert("dexterity"@.len() != "intelligence"@.len());
    }
    assert("dexterity"@ != "wis"@) by {
        assert("dexterity"@.len() != "wis"@.len());
    }
    assert("dexterity"@ != "wisdom"@) by {
        assert("dexterity"@.len() != "wisdom"@.len());
    }
    assert("dexterity"@ != "cha"@) by {
        assert("dexterity"@.len() != "cha"@.len());
    }
    assert("dexterity"@ != "charisma"@) by {
        assert("dexterity"@.len() != "charisma"@.len());
    }
    assert("con"@ != "constitution"@) by {
        assert("con"@.len() != "constitution"@.len());
    }
    assert("con"@ != "int"@) by {
        assert("con"@[0] != "int"@[0]);
    }
    assert("con"@ != "intelligence"@) by {
        assert("con"@.len() != "intelligence"@.len());
    }
    assert("con"@ != "wis"@) by {
        assert("con"@[0] != "wis"@[0]);
    }
    assert("con"@ != "wisdom"@) by {
        assert("con"@.len() != "wisdom"@.len());
    }
    assert("con"@ != "cha"@) by {
        assert("con"@[1] != "cha"@[1]);
    }
    assert("con"@ != "charisma"@) by {
        assert("con"@.len() != "charisma"@.len());
    }
    assert("constitution"@ != "int"@) by {
        assert("constitution"@.len() != "int"@.len());
    }
    assert("constitution"@ != "intelligence"@) by {
        assert("constitution"@[0] != "intelligence"@[0]);
    }
    assert("constitution"@ != "wis"@) by {
        assert("constitution"@.len() != "wis"@.len());
    }
    assert("constitution"@ != "wisdom"@) by {
        assert("constitution"@.len() != "wisdom"@.len());
    }
    assert("constitution"@ != "cha"@) by {
        assert("constitution"@.len() != "cha"@.len());
    }
    assert("constitution"@ != "charisma"@) by {
        assert("constitution"@.len() != "charisma"@.len());
    }
    assert("int"@ != "intelligence"@) by {
        assert("int"@.len() != "intelligence"@.len());
    }
    assert("int"@ != "wis"@) by {
        assert("int"@[0] != "wis"@[0]);
    }
    assert("int"@ != "wisdom"@) by {
        assert("int"@.len() != "wisdom"@.len());
    }
    assert("int"@ != "cha"@) by {
        assert("int"@[0] != "cha"@[0]);
    }
    assert("int"@ != "charisma"@) by {
        assert("int"@.len() != "charisma"@.len());
    }
    assert("intelligence"@ != "wis"@) by {
        assert("intelligence"@.len() != "wis"@.len());
    }
    assert("intelligence"@ != "wisdom"@) by {
        assert("intelligence"@.len() != "wisdom"@.len());
    }
    assert("intelligence"@ != "cha"@) by {
        assert("intelligence"@.len() != "cha"@.len());
    }
    assert("intelligence"@ != "charisma"@) by {
        assert("intelligence"@.len() != "charisma"@.len());
    }
    assert("wis"@ != "wisdom"@) by {
        assert("wis"@.len() != "wisdom"@.len());
    }
    assert("wis"@ != "cha"@) by {
        assert("wis"@[0] != "cha"@[0]);
    }
    assert("wis"@ != "charisma"@) by {
        assert("wis"@.len() != "charisma"@.len());
    }
    assert("wisdom"@ != "cha"@) by {
        assert("wisdom"@.len() != "cha"@.len());
    }
    assert("wisdom"@ != "charisma"@) by {
        assert("wisdom"@.len() != "charisma"@.len());
    }
    assert("cha"@ != "charisma"@) by {
        assert("cha"@.len() != "charisma"@.len());
    }
}

/// A standard ability looked up by its abbreviation or its full name, in any
/// case, gives that ability's own stored modifier and nothing else:
/// `str`/`strength` the strength modifier, ..., `cha`/`charisma` the
/// charisma modifier.
pub proof fn law_standard_ability_reads_own_field(s: CharacterSheetModel, a: Seq<char>, r: i32)
    ensures
        (lowercase(a) == "str"@ || lowercase(a) == "strength"@) ==> (ability_lookup(s, a, r) <==> r
            == s.modifiers.strength),
        (lowercase(a) == "dex"@ || lowercase(a) == "dexterity"@) ==> (ability_lookup(s, a, r) <==> r
            == s.modifiers.dexterity),
        (lowercase(a) == "con"@ || lowercase(a) == "constitution"@) ==> (ability_lookup(s, a, r) <==> r
            == s.modifiers.constitution),
        (lowercase(a) == "int"@ || lowercase(a) == "intelligence"@) ==> (ability_lookup(s, a, r) <==> r
            == s.modifiers.intelligence),
        (lowercase(a) == "wis"@ || lowercase(a) == "wisdom"@) ==> (ability_lookup(s, a, r) <==> r
            == s.modifiers.wisdom),
        (lowercase(a) == "cha"@ || lowercase(a) == "charisma"@) ==> (ability_lookup(s, a, r) <==> r
            == s.modifiers.charisma),
{
    lemma_ability_keys_distinct();
    reveal_strlit("str");
    reveal_strlit("strength");
    reveal_strlit("dex");
    reveal_strlit("dexterity");
    reveal_strlit("con");
    reveal_strlit("constitution");
    reveal_strlit("int");
    reveal_strlit("intelligence");
    reveal_strlit("wis");
    reveal_strlit("wisdom");
    reveal_strlit("cha");
    reveal_strlit("charisma");
}

/// The abilities are numbered strength, dexterity, constitution,
/// intelligence, wisdom, charisma: the `k`-th modifier is the `k`-th
/// ability's own field, and the `k`-th ability name is looked up as the
/// `k`-th ability.
pub proof fn law_ability_order(m: AttributeModifiers)
    ensures
        modifier_at(m, 0) == m.strength,
        modifier_at(m, 1) == m.dexterity,
        modifier_at(m, 2) == m.constitution,
        modifier_at(m, 3) == m.intelligence,
        modifier_at(m, 4) == m.wisdom,
        modifier_at(m, 5) == m.charisma,
        ability_index(ability_names()[0]) == Some(0int),
        ability_index(ability_names()[1]) == Some(1int),
        ability_index(ability_names()[2]) == Some(2int),
        ability_index(ability_names()[3]) == Some(3int),
        ability_index(ability_names()[4]) == Some(4int),
        ability_index(ability_names()[5]) == Some(5int),
{
    lemma_ability_keys_distinct();
    reveal_strlit("str");
    reveal_strlit("strength");
    reveal_strlit("dex");
    reveal_strlit("dexterity");
    reveal_strlit("con");
    reveal_strlit("constitution");
    reveal_strlit("int");
    reveal_strlit("intelligence");
    reveal_strlit("wis");
    reveal_strlit("wisdom");
    reveal_strlit("cha");
    reveal_strlit("charisma");
}

/// A new character's skills are the eighteen standard skills, each once.
pub proof fn law_standard_skills()
    ensures
        skill_names().len() == 18,
        skill_names().no_duplicates(),
        skill_names().to_set() == set!["acrobatics"@, "animalHandling"@, "arcana"@, "athletics"@, "deception"@, "history"@, "insight"@, "intimidation"@, "investigation"@, "medicine"@, "nature"@, "perception"@, "performance"@, "persuasion"@, "religion"@, "sleightOfHand"@, "stealth"@, "survival"@],
{
    reveal_strlit("acrobatics");
    reveal_strlit("animalHandling");
    reveal_strlit("arcana");
    reveal_strlit("athletics");
    reveal_strlit("deception");
    reveal_strlit("history");
    reveal_strlit("insight");
    reveal_strlit("intimidation");
    reveal_strlit("investigation");
    reveal_strlit("medicine");
    reveal_strlit("nature");
    reveal_strlit("perception");
    reveal_strlit("performance");
    reveal_strlit("persuasion");
    reveal_strlit("religion");
    reveal_strlit("sleightOfHand");
    reveal_strlit("stealth");
    reveal_strlit("survival");
    let n = skill_names();
    assert forall|i: int, j: int| 0 <= i < 18 && 0 <= j < 18 && i != j implies n[i] != n[j] by {
        if n[i] == n[j] {
            assert(n[i].len() == n[j].len());
            assert(n[i][0] == n[j][0]);
            if n[i].len() > 2 {
                assert(n[i][2] == n[j][2]);
            }
            if n[i].len() > 3 {
                assert(n[i][3] == n[j][3]);
            }
        }
    }
    assert(n.to_set() =~= set!["acrobatics"@, "animalHandling"@, "arcana"@, "athletics"@, "deception"@, "history"@, "insight"@, "intimidation"@, "investigation"@, "medicine"@, "nature"@, "perception"@, "performance"@, "persuasion"@, "religion"@, "sleightOfHand"@, "stealth"@, "survival"@]) by {
        assert forall|x: Seq<char>| #[trigger] n.to_set().contains(x) implies set!["acrobatics"@, "animalHandling"@, "arcana"@, "athletics"@, "deception"@, "history"@, "insight"@, "intimidation"@, "investigation"@, "medicine"@, "nature"@, "perception"@, "performance"@, "persuasion"@, "religion"@, "sleightOfHand"@, "stealth"@, "survival"@].contains(x) by {
            let k = choose|k: int| 0 <= k < n.len() && n[k] == x;
        }
        assert forall|x: Seq<char>| set!["acrobatics"@, "animalHandling"@, "arcana"@, "athletics"@, "deception"@, "history"@, "insight"@, "intimidation"@, "investigation"@, "medicine"@, "nature"@, "perception"@, "performance"@, "persuasion"@, "religion"@, "sleightOfHand"@, "stealth"@, "survival"@].contains(x) implies #[trigger] n.to_set().contains(x) by {
            if x == "acrobatics"@ { assert(n[0] == x); }
            if x == "animalHandling"@ { assert(n[1] == x); }
            if x == "arcana"@ { assert(n[2] == x); }
            if x == "athletics"@ { assert(n[3] == x); }
            if x == "deception"@ { assert(n[4] == x); }
            if x == "history"@ { assert(n[5] == x); }
            if x == "insight"@ { assert(n[6] == x); }
            if x == "intimidation"@ { assert(n[7] == x); }
            if x == "investigation"@ { assert(n[8] == x); }
            if x == "medicine"@ { assert(n[9] == x); }
            if x == "nature"@ { assert(n[10] == x); }
            if x == "perception"@ { assert(n[11] == x); }
            if x == "performance"@ { assert(n[12] == x); }
            if x == "persuasion"@ { assert(n[13] == x); }
            if x == "religion"@ { assert(n[14] == x); }
            if x == "sleightOfHand"@ { assert(n[15] == x); }
            if x == "stealth"@ { assert(n[16] == x); }
            if x == "survival"@ { assert(n[17] == x); }
        }
    }
}

} // verus!
