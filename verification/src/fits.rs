//! Run-time checks that a command or a command-line request stays within
//! `i32` once the character's modifier is added, and the calls that make
//! them before reading the command.
use vstd::prelude::*;
use vstd::string::*;

use crate::character::{
    ability_index, ability_index_of, ability_lookup, ability_lookup_fits, custom_attribute_matches,
    make_slug, resolve_skill, save_lookup, save_matches, sheet_ability_modifier, skill_lookup,
    skill_matches, slug, spec_modifier,
};
use crate::keyed::KeyedMap;
use crate::character::CharacterData;
use crate::command::{
    ability_fits, check_fits, cli_request_fits, command_checkon, command_fits, command_modifier,
    config_matches, fits_i32, is_checkon_flag, is_dice_flag, is_modifier_flag, modifier_at_token,
    modifiers_fit, next_token, opt_seq, parse_command, quick_roll, quick_roll_entry,
    quick_roll_label, quick_roll_modifier, quick_roll_name_ok, save_fits, scan_checkon,
    rerun_history_command, scan_modifier, sheet_model, skill_fits, spec_add_command, submit_command,
    takes_argument,
    CliRequest, CommandHistory, QuickRollType,
};
use crate::dice::{DiceConfig, DiceType};
use crate::sheet::{Attributes, CharacterSheet, SavingThrow, SavingThrowModel, Skill, SkillModel};
use crate::text::{lowercase, parse_i32, split_ws, str_eq, to_lowercase, trim, trim_seq, ws_tokens};

verus! {

/// Whether `base + m` fits an `i32`.
fn adds_fit(base: i32, m: i32) -> (r: bool)
    ensures
        r == fits_i32(base + m),
{
    let s: i64 = base as i64 + m as i64;
    s >= i32::MIN as i64 && s <= i32::MAX as i64
}

/// Whether `base` plus the modifier of whatever skill the lookup of `q` may
/// give fits an `i32` (see `skill_fits`).
pub fn skill_fits_exec(base: i32, skills: &KeyedMap<Skill>, q: &str) -> (r: bool)
    ensures
        r == skill_fits(base as int, skills.deep_view(), q@),
{
    let ghost sv = skills.deep_view();
    let n = skills.entries.len();
    let mut has_exact = false;
    let mut exact_ok = true;
    let ghost mut wit: int = 0;
    let ghost mut bad: int = 0;
    let mut i: usize = 0;
    while i < n
        invariant
            n == sv.len(),
            sv == skills.deep_view(),
            i <= n,
            has_exact ==> 0 <= wit < i && sv[wit].0 == q@,
            !has_exact ==> forall|k: int| 0 <= k < i ==> #[trigger] sv[k].0 != q@,
            exact_ok ==> forall|k: int| 0 <= k < i && #[trigger] sv[k].0 == q@ ==> fits_i32(base + sv[k].1.modifier),
            !exact_ok ==> 0 <= bad < i && sv[bad].0 == q@ && !fits_i32(base + sv[bad].1.modifier),
        decreases n - i,
    {
        let key = &skills.entries[i].0;
        let v = &skills.entries[i].1;
        assert(sv[i as int] == (key@, v.deep_view()));
        if str_eq(key.as_str(), q) {
            has_exact = true;
            proof {
                wit = i as int;
            }
            if !adds_fit(base, v.modifier) {
                exact_ok = false;
                proof {
                    bad = i as int;
                }
            }
        }
        i = i + 1;
    }
    if has_exact {
        proof {
            if exact_ok {
                assert forall|o: Option<SkillModel>|
                    #[trigger] skill_lookup(sv, q@, o) && o is Some implies fits_i32(base + o->Some_0.modifier) by {
                    assert(sv[wit].0 == q@);
                    let k = choose|k: int| 0 <= k < sv.len() && #[trigger] sv[k].0 == q@ && sv[k].1 == o->Some_0;
                }
            } else {
                assert(sv[bad].0 == q@);
                assert(skill_lookup(sv, q@, Some(sv[bad].1)));
            }
        }
        return exact_ok;
    }
    match resolve_skill(skills, q) {
        None => {
            proof {
                assert forall|o: Option<SkillModel>|
                    #[trigger] skill_lookup(sv, q@, o) && o is Some implies fits_i32(base + o->Some_0.modifier) by {
                    let k = choose|k: int| 0 <= k < sv.len() && #[trigger] sv[k].1 == o->Some_0;
                    assert(!skill_matches(sv[k].1, slug(q@)));
                }
            }
            true
        },
        Some(sk) => {
            let ghost b = sk.deep_view();
            proof {
                assert(skill_lookup(sv, q@, Some(b)));
                assert forall|o: Option<SkillModel>|
                    #[trigger] skill_lookup(sv, q@, o) && o is Some implies o->Some_0.modifier == b.modifier by {
                    let v = o->Some_0;
                    let kv = choose|k: int| 0 <= k < sv.len() && #[trigger] sv[k].1 == v;
                    let kb = choose|k: int| 0 <= k < sv.len() && #[trigger] sv[k].1 == b;
                    assert(crate::character::skill_rank_le(sv[kv].1, b));
                    assert(crate::character::skill_rank_le(sv[kb].1, v));
                }
            }
            adds_fit(base, sk.modifier)
        },
    }
}

/// Whether `base` plus the modifier of whatever saving throw the lookup of
/// `q` may give fits an `i32` (see `save_fits`).
pub fn save_fits_exec(base: i32, saves: &KeyedMap<SavingThrow>, q: &str) -> (r: bool)
    ensures
        r == save_fits(base as int, saves.deep_view(), q@),
{
    let ghost sv = saves.deep_view();
    let qs = make_slug(q);
    let n = saves.entries.len();
    let mut has_exact = false;
    let mut exact_ok = true;
    let mut match_ok = true;
    let ghost mut wit: int = 0;
    let ghost mut bad: int = 0;
    let ghost mut bad_match: int = 0;
    let mut i: usize = 0;
    while i < n
        invariant
            n == sv.len(),
            sv == saves.deep_view(),
            qs@ == slug(q@),
            i <= n,
            has_exact ==> 0 <= wit < i && sv[wit].0 == q@,
            !has_exact ==> forall|k: int| 0 <= k < i ==> #[trigger] sv[k].0 != q@,
            exact_ok ==> forall|k: int| 0 <= k < i && #[trigger] sv[k].0 == q@ ==> fits_i32(base + sv[k].1.modifier),
            !exact_ok ==> 0 <= bad < i && sv[bad].0 == q@ && !fits_i32(base + sv[bad].1.modifier),
            match_ok ==> forall|k: int|
                0 <= k < i && save_matches(#[trigger] sv[k].1, qs@) ==> fits_i32(base + sv[k].1.modifier),
            !match_ok ==> 0 <= bad_match < i && save_matches(sv[bad_match].1, qs@) && !fits_i32(
                base + sv[bad_match].1.modifier,
            ),
        decreases n - i,
    {
        let key = &saves.entries[i].0;
        let v = &saves.entries[i].1;
        assert(sv[i as int] == (key@, v.deep_view()));
        let fits = adds_fit(base, v.modifier);
        if str_eq(key.as_str(), q) {
            has_exact = true;
            proof {
                wit = i as int;
            }
            if !fits {
                exact_ok = false;
                proof {
                    bad = i as int;
                }
            }
        }
        let ns = make_slug(v.name.as_str());
        let matched = str_eq(v.slug.as_str(), qs.as_str()) || str_eq(ns.as_str(), qs.as_str());
        assert(matched == save_matches(sv[i as int].1, qs@));
        if matched && !fits {
            match_ok = false;
            proof {
                bad_match = i as int;
            }
        }
        i = i + 1;
    }
    proof {
        if has_exact {
            if exact_ok {
                assert forall|o: Option<SavingThrowModel>|
                    #[trigger] save_lookup(sv, q@, o) && o is Some implies fits_i32(base + o->Some_0.modifier) by {
                    assert(sv[wit].0 == q@);
                    let k = choose|k: int| 0 <= k < sv.len() && #[trigger] sv[k].0 == q@ && sv[k].1 == o->Some_0;
                }
            } else {
                assert(sv[bad].0 == q@);
                assert(save_lookup(sv, q@, Some(sv[bad].1)));
            }
        } else {
            if match_ok {
                assert forall|o: Option<SavingThrowModel>|
                    #[trigger] save_lookup(sv, q@, o) && o is Some implies fits_i32(base + o->Some_0.modifier) by {
                    let k = choose|k: int|
                        0 <= k < sv.len() && #[trigger] sv[k].1 == o->Some_0 && save_matches(o->Some_0, qs@);
                }
            } else {
                assert(sv[bad_match].1 == sv[bad_match].1);
                assert(save_lookup(sv, q@, Some(sv[bad_match].1)));
            }
        }
    }
    if has_exact {
        exact_ok
    } else {
        match_ok
    }
}

/// Whether every custom attribute that the ability lookup of `a` may read
/// can be turned into a modifier (see `ability_lookup_fits`).
pub fn ability_lookup_fits_exec(sheet: &CharacterSheet, a: &str) -> (r: bool)
    ensures
        r == ability_lookup_fits(sheet.deep_view(), a@),
{
    let k = to_lowercase(a);
    if ability_index_of(k.as_str()).is_some() {
        return true;
    }
    let ghost cs = sheet.deep_view().custom_attributes;
    let n = sheet.custom_attributes.entries.len();
    let mut i: usize = 0;
    while i < n
        invariant
            n == cs.len(),
            cs == sheet.deep_view().custom_attributes,
            k@ == lowercase(a@),
            ability_index(k@) is None,
            i <= n,
            forall|j: int|
                0 <= j < i && custom_attribute_matches((#[trigger] cs[j]).1, k@) ==> cs[j].1.value >= i32::MIN + 10,
        decreases n - i,
    {
        let f = &sheet.custom_attributes.entries[i].1;
        assert(cs[i as int].1 == f.deep_view());
        let s = make_slug(f.name.as_str());
        let l = to_lowercase(f.name.as_str());
        if (str_eq(s.as_str(), k.as_str()) || str_eq(l.as_str(), k.as_str())) && f.value < i32::MIN + 10 {
            assert(custom_attribute_matches(cs[i as int].1, k@));
            return false;
        }
        i = i + 1;
    }
    true
}

/// Whether the ability lookup of `a` can compute its modifier and `base`
/// plus it fits an `i32` (see `ability_fits`).
pub fn ability_fits_exec(base: i32, sheet: &CharacterSheet, a: &str) -> (r: bool)
    ensures
        r == ability_fits(base as int, sheet.deep_view(), a@),
{
    let ghost s = sheet.deep_view();
    let k = to_lowercase(a);
    if ability_index_of(k.as_str()).is_some() {
        let m = sheet_ability_modifier(sheet, a);
        proof {
            assert forall|m2: i32| #[trigger] ability_lookup(s, a@, m2) implies m2 == m by {}
        }
        return adds_fit(base, m);
    }
    let ghost cs = s.custom_attributes;
    let n = sheet.custom_attributes.entries.len();
    let mut i: usize = 0;
    while i < n
        invariant
            n == cs.len(),
            s == sheet.deep_view(),
            cs == s.custom_attributes,
            k@ == lowercase(a@),
            ability_index(k@) is None,
            i <= n,
            forall|j: int|
                0 <= j < i && custom_attribute_matches((#[trigger] cs[j]).1, k@) ==> cs[j].1.value >= i32::MIN
                    + 10 && fits_i32(base + spec_modifier(cs[j].1.value as int)),
        decreases n - i,
    {
        let f = &sheet.custom_attributes.entries[i].1;
        assert(cs[i as int].1 == f.deep_view());
        let sl = make_slug(f.name.as_str());
        let l = to_lowercase(f.name.as_str());
        if str_eq(sl.as_str(), k.as_str()) || str_eq(l.as_str(), k.as_str()) {
            assert(custom_attribute_matches(cs[i as int].1, k@));
            if f.value < i32::MIN + 10 {
                return false;
            }
            let m = Attributes::calculate_modifier(f.value);
            if !adds_fit(base, m) {
                proof {
                    assert(ability_lookup(s, a@, m));
                }
                return false;
            }
        }
        i = i + 1;
    }
    proof {
        assert forall|m: i32| #[trigger] ability_lookup(s, a@, m) implies fits_i32(base + m) by {
            if exists|j: int| 0 <= j < cs.len() && custom_attribute_matches(#[trigger] cs[j].1, k@) {
                let j = choose|j: int|
                    0 <= j < cs.len() && custom_attribute_matches(#[trigger] cs[j].1, k@)
                        && cs[j].1.value >= i32::MIN + 10 && m == spec_modifier(cs[j].1.value as int);
            }
        }
    }
    true
}

/// Whether checking on `check` after a modifier of `base` stays within
/// `i32` (see `check_fits`).
pub fn check_fits_exec(base: i32, sheet: &CharacterSheet, check: &str) -> (r: bool)
    ensures
        r == check_fits(base as int, sheet.deep_view(), check@),
{
    let ghost s = sheet.deep_view();
    let k = to_lowercase(check);
    if !skill_fits_exec(base, &sheet.skills, k.as_str()) {
        return false;
    }
    match resolve_skill(&sheet.skills, k.as_str()) {
        Some(sk) => {
            proof {
                let v = sk.deep_view();
                if skill_lookup(s.skills, k@, None) {
                    let j = choose|j: int| 0 <= j < s.skills.len() && #[trigger] s.skills[j].1 == v;
                    if exists|i: int| 0 <= i < s.skills.len() && #[trigger] s.skills[i].0 == k@ {
                    } else {
                        assert(skill_matches(s.skills[j].1, slug(k@)));
                    }
                }
            }
            true
        },
        None => ability_fits_exec(base, sheet, k.as_str()),
    }
}

/// Whether a command can be read against a character without overflow (see
/// `command_fits`): its modifiers add up within `i32`, and so does the check
/// it names.
pub fn command_fits_exec(cmd: &str, character_data: &CharacterData) -> (r: bool)
    ensures
        r == command_fits(cmd@, sheet_model(character_data)),
{
    let parts = split_ws(cmd);
    let ghost t = ws_tokens(cmd@);
    assert(parts.deep_view() =~= t);
    let n = parts.len();
    let mut m: i32 = 0;
    let mut checkon: Option<String> = None;
    let mut i: usize = 0;
    proof {
        reveal_strlit("--dice");
        reveal_strlit("-d");
        reveal_strlit("--checkon");
        reveal_strlit("--modifier");
        reveal_strlit("-m");
    }
    while i < n
        invariant
            t == ws_tokens(cmd@),
            n == t.len(),
            parts.deep_view() == t,
            i <= n,
            modifiers_fit(t, 0, 0) == modifiers_fit(t, i as int, m as int),
            scan_modifier(t, 0, 0) == scan_modifier(t, i as int, m as int),
            scan_checkon(t, 0, None) == scan_checkon(t, i as int, checkon.deep_view()),
        decreases n - i,
    {
        let part = parts[i].as_str();
        assert(part@ == t[i as int]);
        let is_mod = str_eq(part, "--modifier") || str_eq(part, "-m");
        let is_check = str_eq(part, "--checkon");
        let is_dice = str_eq(part, "--dice") || str_eq(part, "-d");
        assert(is_mod == is_modifier_flag(t[i as int]));
        assert(is_check == is_checkon_flag(t[i as int]));
        assert(is_dice == is_dice_flag(t[i as int]));
        let has_arg = i + 1 < n;
        let v: i32 = if is_mod && has_arg {
            let arg = parts[i + 1].as_str();
            assert(arg@ == t[i + 1]);
            match parse_i32(arg) {
                Some(x) => x,
                None => 0,
            }
        } else {
            0
        };
        assert(v == modifier_at_token(t, i as int));
        if !adds_fit(m, v) {
            assert(!modifiers_fit(t, i as int, m as int));
            return false;
        }
        let ghost c_before = checkon.deep_view();
        if is_check && has_arg {
            checkon = Some(parts[i + 1].clone());
            assert(checkon.deep_view() == Some(t[i + 1]));
        }
        let ghost next = next_token(t, i as int);
        let next_i: usize = if (is_mod || is_check || is_dice) && has_arg {
            i + 2
        } else {
            i + 1
        };
        assert(next_i == next);
        m = m + v;
        i = next_i;
    }
    match &character_data.sheet {
        None => true,
        Some(s) => match &checkon {
            None => true,
            Some(c) => check_fits_exec(m, s, c.as_str()),
        },
    }
}

/// Reads a command as `parse_command` does when it can be read without
/// overflow (see `command_fits`), and gives `None` otherwise.
pub fn try_parse_command(cmd: &str, character_data: &CharacterData) -> (r: Option<DiceConfig>)
    ensures
        r is Some <==> command_fits(cmd@, sheet_model(character_data)) && ws_tokens(cmd@).len() > 0,
        r matches Some(c) ==> config_matches(cmd@, sheet_model(character_data), c),
{
    if command_fits_exec(cmd, character_data) {
        parse_command(cmd, character_data)
    } else {
        None
    }
}

/// Submits a command as `submit_command` does when it can be read without
/// overflow; otherwise gives `None` and leaves the history as it was.
pub fn try_submit_command(history: &mut CommandHistory, raw: &str, character_data: &CharacterData) -> (r: Option<DiceConfig>)
    ensures
        !command_fits(trim_seq(raw@), sheet_model(character_data)) ==> r is None && *final(history)
            == *old(history),
        command_fits(trim_seq(raw@), sheet_model(character_data)) ==> {
            &&& (r is None <==> trim_seq(raw@).len() == 0)
            &&& r is None ==> *final(history) == *old(history)
            &&& r matches Some(c) ==> config_matches(trim_seq(raw@), sheet_model(character_data), c)
                && final(history).commands.deep_view() == spec_add_command(
                old(history).commands.deep_view(),
                trim_seq(raw@),
            ) && final(history).selected_index == old(history).selected_index
        },
{
    if command_fits_exec(trim(raw), character_data) {
        submit_command(history, raw, character_data)
    } else {
        None
    }
}

/// Re-runs history entry `index` as `rerun_history_command` does when the
/// entry can be read without overflow; otherwise gives `None` and leaves the
/// history as it was.
pub fn try_rerun_history_command(history: &mut CommandHistory, index: usize, character_data: &CharacterData) -> (r: Option<DiceConfig>)
    ensures
        ({
            let blocked = index < old(history).commands@.len() && !command_fits(
                old(history).commands@[index as int]@,
                sheet_model(character_data),
            );
            &&& blocked ==> r is None && *final(history) == *old(history)
            &&& !blocked ==> {
                &&& final(history).commands == old(history).commands
                &&& index >= old(history).commands@.len() ==> r is None && final(history).selected_index
                    == old(history).selected_index
                &&& index < old(history).commands@.len() ==> {
                    let cmd = old(history).commands@[index as int]@;
                    &&& final(history).selected_index == Some(index)
                    &&& (r is None <==> ws_tokens(cmd).len() == 0)
                    &&& r matches Some(c) ==> config_matches(cmd, sheet_model(character_data), c)
                }
            }
        }),
{
    if index < history.commands.len() && !command_fits_exec(history.commands[index].as_str(), character_data) {
        return None;
    }
    rerun_history_command(history, index, character_data)
}

/// Sets up a quick roll as `quick_roll` does when its name can be shown and
/// the ability it reads can give a modifier; otherwise gives `None` and
/// leaves the history as it was.
pub fn try_quick_roll(
    history: &mut CommandHistory,
    roll_type: &QuickRollType,
    character_data: &CharacterData,
    die: DiceType,
) -> (r: Option<DiceConfig>)
    ensures
        ({
            let ok = quick_roll_name_ok(*roll_type) && (sheet_model(character_data) matches Some(s) ==> (
            roll_type matches QuickRollType::AbilityCheck(n) ==> ability_lookup_fits(s, n@)));
            &&& (r is Some <==> ok)
            &&& r is None ==> *final(history) == *old(history)
            &&& r matches Some(c) ==> {
                &&& c.dice_to_roll@ == seq![die]
                &&& quick_roll_modifier(sheet_model(character_data), *roll_type, c.modifier)
                &&& c.modifier_name@ == quick_roll_label(*roll_type)
                &&& final(history).commands.deep_view() == spec_add_command(
                    old(history).commands.deep_view(),
                    quick_roll_entry(die, c.modifier_name@, c.modifier),
                )
                &&& final(history).selected_index == old(history).selected_index
            }
        }),
{
    let name_ok = match roll_type {
        QuickRollType::Skill(_) => true,
        QuickRollType::AbilityCheck(n) => n.unicode_len() > 0 && (n.get_char(0) as u32) < 128,
        QuickRollType::SavingThrow(n) => n.unicode_len() > 0 && (n.get_char(0) as u32) < 128,
    };
    if !name_ok {
        return None;
    }
    let fits = match (&character_data.sheet, roll_type) {
        (Some(s), QuickRollType::AbilityCheck(n)) => ability_lookup_fits_exec(s, n.as_str()),
        _ => true,
    };
    if !fits {
        return None;
    }
    Some(quick_roll(history, roll_type, character_data, die))
}

/// Whether the command-line request stays within `i32` once the character's
/// modifier is added (see `cli_request_fits`); always so without a
/// character.
pub fn cli_request_fits_exec(req: &CliRequest, character_data: &CharacterData) -> (b: bool)
    ensures
        b == (sheet_model(character_data) matches Some(s) ==> cli_request_fits(
            opt_seq(req.checkon),
            opt_seq(req.skill),
            opt_seq(req.ability),
            opt_seq(req.save),
            req.modifier as int,
            s,
        )),
{
    match &character_data.sheet {
        None => true,
        Some(s) => {
            if let Some(c) = &req.checkon {
                check_fits_exec(req.modifier, s, c.as_str())
            } else if let Some(k) = &req.skill {
                skill_fits_exec(req.modifier, &s.skills, k.as_str())
            } else if let Some(a) = &req.ability {
                ability_fits_exec(req.modifier, s, a.as_str())
            } else if let Some(v) = &req.save {
                save_fits_exec(req.modifier, &s.saving_throws, v.as_str())
            } else {
                true
            }
        },
    }
}

} // verus!
