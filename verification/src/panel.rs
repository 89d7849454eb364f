//! What the roll panels show: the buttons of the quick-roll panel (one per
//! ability check, one per saving throw the character has, and one per skill
//! in key order), and the character and modifier lines of the results panel.
use vstd::prelude::*;
use vstd::string::*;

use crate::character::{ability_names, modifier_at, CharacterData};
use crate::dice::DiceConfig;
use crate::command::{format_skill_name, spec_format_skill_name, QuickRollType};
use crate::keyed::KeyedMap;
use crate::sheet::{AttributeModifiers, CharacterSheet, SavingThrow, Skill};
use crate::text::{dec_seq, push_int, push_str};

verus! {

// ---------------------------------------------------------------------------
// Text order
// ---------------------------------------------------------------------------

/// Whether `a` comes before `b` in the order of `String`'s `Ord`: compared
/// character by character (UTF-8 byte order is code point order), a proper
/// prefix first.
pub open spec fn text_lt(a: Seq<char>, b: Seq<char>) -> bool
    decreases a.len(),
{
    if a.len() == 0 {
        b.len() > 0
    } else if b.len() == 0 {
        false
    } else if a[0] != b[0] {
        (a[0] as int) < (b[0] as int)
    } else {
        text_lt(a.drop_first(), b.drop_first())
    }
}

/// No text comes before itself.
pub proof fn lemma_text_lt_irreflexive(a: Seq<char>)
    ensures
        !text_lt(a, a),
    decreases a.len(),
{
    if a.len() > 0 {
        lemma_text_lt_irreflexive(a.drop_first());
    }
}

/// The order is transitive.
pub proof fn lemma_text_lt_transitive(a: Seq<char>, b: Seq<char>, c: Seq<char>)
    requires
        text_lt(a, b),
        text_lt(b, c),
    ensures
        text_lt(a, c),
    decreases a.len(),
{
    if a.len() > 0 && b.len() > 0 && c.len() > 0 {
        if a[0] == b[0] && b[0] == c[0] {
            lemma_text_lt_transitive(a.drop_first(), b.drop_first(), c.drop_first());
        }
    }
}

/// Of two different texts, one comes before the other.
pub proof fn lemma_text_lt_total(a: Seq<char>, b: Seq<char>)
    requires
        a != b,
    ensures
        text_lt(a, b) || text_lt(b, a),
    decreases a.len(),
{
    if a.len() > 0 && b.len() > 0 && a[0] == b[0] {
        if a.drop_first() == b.drop_first() {
            assert(a =~= seq![a[0]] + a.drop_first());
            assert(b =~= seq![b[0]] + b.drop_first());
        }
        lemma_text_lt_total(a.drop_first(), b.drop_first());
    } else if a.len() > 0 && b.len() > 0 {
        assert((a[0] as int) != (b[0] as int));
    } else if a.len() == 0 && b.len() == 0 {
        assert(a =~= b);
    }
}

/// Two texts that agree on their first `i` characters compare as what
/// follows does.
proof fn lemma_text_lt_skip(a: Seq<char>, b: Seq<char>, i: int)
    requires
        0 <= i <= a.len(),
        i <= b.len(),
        forall|k: int| 0 <= k < i ==> a[k] == b[k],
    ensures
        text_lt(a, b) == text_lt(a.skip(i), b.skip(i)),
    decreases i,
{
    if i > 0 {
        lemma_text_lt_skip(a.drop_first(), b.drop_first(), i - 1);
        assert(a.drop_first().skip(i - 1) =~= a.skip(i));
        assert(b.drop_first().skip(i - 1) =~= b.skip(i));
    } else {
        assert(a.skip(0) =~= a);
        assert(b.skip(0) =~= b);
    }
}

/// Texts are ordered as `String`s are: a proper prefix comes first, and
/// otherwise the first differing character decides, by code point.
pub proof fn law_text_order(a: Seq<char>, b: Seq<char>, i: int)
    ensures
        a.len() < b.len() && b.take(a.len() as int) == a ==> text_lt(a, b) && !text_lt(b, a),
        0 <= i < a.len() && i < b.len() && a.take(i) == b.take(i) && (a[i] as int) < (b[i] as int)
            ==> text_lt(a, b) && !text_lt(b, a),
{
    if a.len() < b.len() && b.take(a.len() as int) == a {
        assert forall|k: int| 0 <= k < a.len() implies a[k] == b[k] by {
            assert(b.take(a.len() as int)[k] == b[k]);
        }
        lemma_text_lt_skip(a, b, a.len() as int);
        lemma_text_lt_skip(b, a, a.len() as int);
        assert(a.skip(a.len() as int).len() == 0);
    }
    if 0 <= i < a.len() && i < b.len() && a.take(i) == b.take(i) && (a[i] as int) < (b[i] as int) {
        assert forall|k: int| 0 <= k < i implies a[k] == b[k] by {
            assert(a.take(i)[k] == a[k]);
            assert(b.take(i)[k] == b[k]);
        }
        lemma_text_lt_skip(a, b, i);
        lemma_text_lt_skip(b, a, i);
        assert(a.skip(i)[0] == a[i]);
        assert(b.skip(i)[0] == b[i]);
    }
}

/// Whether `a` comes before `b` (`a < b` on `String`).
pub fn text_less(a: &str, b: &str) -> (r: bool)
    ensures
        r == text_lt(a@, b@),
{
    let n = a.unicode_len();
    let m = b.unicode_len();
    let mut i: usize = 0;
    while i < n && i < m
        invariant
            n == a@.len(),
            m == b@.len(),
            i <= n,
            i <= m,
            forall|k: int| 0 <= k < i ==> a@[k] == b@[k],
        decreases n - i,
    {
        let x = a.get_char(i);
        let y = b.get_char(i);
        if x != y {
            proof {
                lemma_text_lt_skip(a@, b@, i as int);
                assert(a@.skip(i as int)[0] == x && b@.skip(i as int)[0] == y);
            }
            return (x as u32) < (y as u32);
        }
        i = i + 1;
    }
    proof {
        lemma_text_lt_skip(a@, b@, i as int);
    }
    i == n && i < m
}


// ---------------------------------------------------------------------------
// Buttons
// ---------------------------------------------------------------------------

/// What a quick-roll button rolls for, as plain values.
pub enum QuickRollModel {
    Skill(Seq<char>),
    AbilityCheck(Seq<char>),
    SavingThrow(Seq<char>),
}

/// The plain values of what a quick roll rolls for.
pub open spec fn quick_roll_model(t: QuickRollType) -> QuickRollModel {
    match t {
        QuickRollType::Skill(n) => QuickRollModel::Skill(n@),
        QuickRollType::AbilityCheck(n) => QuickRollModel::AbilityCheck(n@),
        QuickRollType::SavingThrow(n) => QuickRollModel::SavingThrow(n@),
    }
}

/// A button as plain values: its label and what it rolls for.
pub open spec fn button_view(b: (String, QuickRollType)) -> (Seq<char>, QuickRollModel) {
    (b.0@, quick_roll_model(b.1))
}

/// The buttons as plain values.
pub open spec fn buttons_view(bs: Seq<(String, QuickRollType)>) -> Seq<(Seq<char>, QuickRollModel)> {
    bs.map_values(|b: (String, QuickRollType)| button_view(b))
}

/// A modifier with its sign: `+2`, `+0`, `-1`.
pub open spec fn signed_text(m: int) -> Seq<char> {
    (if m >= 0 {
        "+"@
    } else {
        Seq::<char>::empty()
    }) + dec_seq(m)
}

/// The label of a button: `"<name> (<signed modifier>) "`.
pub open spec fn button_label(name: Seq<char>, m: int) -> Seq<char> {
    name + " ("@ + signed_text(m) + ") "@
}

/// The abbreviations of the six abilities, in the usual order.
pub open spec fn ability_abbrevs() -> Seq<Seq<char>> {
    seq!["STR"@, "DEX"@, "CON"@, "INT"@, "WIS"@, "CHA"@]
}

/// The six ability-check buttons: `"STR (+2) "` and so on, in order.
pub open spec fn ability_buttons(m: AttributeModifiers) -> Seq<(Seq<char>, QuickRollModel)> {
    Seq::new(
        6,
        |k: int|
            (
                button_label(ability_abbrevs()[k], modifier_at(m, k) as int),
                QuickRollModel::AbilityCheck(ability_names()[k]),
            ),
    )
}

/// The six ability buttons, in order, are labelled STR, DEX, CON, INT,
/// WIS, CHA, each with its own ability's modifier, and roll that ability's
/// check.
pub proof fn law_ability_buttons(m: AttributeModifiers)
    ensures
        ability_buttons(m).len() == 6,
        ability_buttons(m)[0] == (
            button_label("STR"@, m.strength as int),
            QuickRollModel::AbilityCheck("strength"@),
        ),
        ability_buttons(m)[1] == (
            button_label("DEX"@, m.dexterity as int),
            QuickRollModel::AbilityCheck("dexterity"@),
        ),
        ability_buttons(m)[2] == (
            button_label("CON"@, m.constitution as int),
            QuickRollModel::AbilityCheck("constitution"@),
        ),
        ability_buttons(m)[3] == (
            button_label("INT"@, m.intelligence as int),
            QuickRollModel::AbilityCheck("intelligence"@),
        ),
        ability_buttons(m)[4] == (
            button_label("WIS"@, m.wisdom as int),
            QuickRollModel::AbilityCheck("wisdom"@),
        ),
        ability_buttons(m)[5] == (
            button_label("CHA"@, m.charisma as int),
            QuickRollModel::AbilityCheck("charisma"@),
        ),
{
}

/// The saving-throw buttons for the first `k` abilities, in ability order:
/// one for each ability whose saving throw the character has (stored under
/// the ability's name), labelled with its abbreviation and modifier.
pub open spec fn save_buttons(saves: Map<Seq<char>, SavingThrow>, k: int) -> Seq<(Seq<char>, QuickRollModel)>
    decreases k,
{
    if k <= 0 {
        Seq::empty()
    } else {
        let before = save_buttons(saves, k - 1);
        let n = ability_names()[k - 1];
        if saves.dom().contains(n) {
            before.push(
                (
                    button_label(ability_abbrevs()[k - 1], saves[n].modifier as int),
                    QuickRollModel::SavingThrow(n),
                ),
            )
        } else {
            before
        }
    }
}

/// Whether `bs` are the skill buttons: one per skill (`count` of them), in
/// increasing order of their keys, each labelled with the formatted key and
/// the skill's modifier.
pub open spec fn skill_buttons(skills: Map<Seq<char>, Skill>, count: nat, bs: Seq<(Seq<char>, QuickRollModel)>) -> bool {
    &&& bs.len() == count
    &&& forall|i: int| 0 <= i < bs.len() ==> (#[trigger] bs[i]).1 is Skill && skills.dom().contains(
        bs[i].1->Skill_0,
    ) && bs[i].0 == button_label(
        spec_format_skill_name(bs[i].1->Skill_0),
        skills[bs[i].1->Skill_0].modifier as int,
    )
    &&& forall|i: int, j: int|
        0 <= i < j < bs.len() ==> text_lt((#[trigger] bs[i]).1->Skill_0, (#[trigger] bs[j]).1->Skill_0)
}

/// `"<name> (<signed modifier>) "`.
fn make_label(name: &str, m: i32) -> (r: String)
    ensures
        r@ == button_label(name@, m as int),
{
    let mut s = String::from_str(name);
    push_str(&mut s, " (");
    if m >= 0 {
        push_str(&mut s, "+");
    }
    push_int(&mut s, m as i64);
    push_str(&mut s, ") ");
    proof {
        reveal_strlit(" (");
        reveal_strlit("+");
        reveal_strlit(") ");
        assert(s@ =~= button_label(name@, m as int));
    }
    s
}

/// The keys of `map`, in increasing order.
fn sorted_keys<V>(map: &KeyedMap<V>) -> (r: Vec<String>)
    requires
        map.wf(),
    ensures
        r@.len() == map.entries@.len(),
        forall|a: int| 0 <= a < r@.len() ==> #[trigger] map.contains(r@[a]@),
        forall|a: int, b: int| 0 <= a < b < r@.len() ==> text_lt((#[trigger] r@[a])@, (#[trigger] r@[b])@),
{
    let n = map.entries.len();
    let mut sorted: Vec<String> = Vec::new();
    let mut i: usize = 0;
    while i < n
        invariant
            n == map.entries@.len(),
            map.wf(),
            i <= n,
            sorted@.len() == i,
            forall|a: int|
                0 <= a < sorted@.len() ==> exists|k: int|
                    0 <= k < i && #[trigger] map.entries@[k].0@ == (#[trigger] sorted@[a])@,
            forall|a: int, b: int|
                0 <= a < b < sorted@.len() ==> text_lt((#[trigger] sorted@[a])@, (#[trigger] sorted@[b])@),
        decreases n - i,
    {
        let key = &map.entries[i].0;
        let mut p: usize = 0;
        while p < sorted.len() && text_less(sorted[p].as_str(), key.as_str())
            invariant
                p <= sorted@.len(),
                forall|a: int| 0 <= a < p ==> text_lt((#[trigger] sorted@[a])@, key@),
            decreases sorted@.len() - p,
        {
            p = p + 1;
        }
        proof {
            assert forall|a: int| 0 <= a < sorted@.len() implies (#[trigger] sorted@[a])@ != key@ by {
                let k = choose|k: int| 0 <= k < i && #[trigger] map.entries@[k].0@ == sorted@[a]@;
            }
            assert forall|a: int| p <= a < sorted@.len() implies text_lt(key@, (#[trigger] sorted@[a])@) by {
                lemma_text_lt_total(key@, sorted@[p as int]@);
                if a > p {
                    lemma_text_lt_transitive(key@, sorted@[p as int]@, sorted@[a]@);
                }
            }
        }
        let ghost before = sorted@;
        sorted.insert(p, key.clone());
        proof {
            assert(sorted@ == before.insert(p as int, sorted@[p as int]));
            assert forall|a: int, b: int|
                0 <= a < b < sorted@.len() implies text_lt((#[trigger] sorted@[a])@, (#[trigger] sorted@[b])@) by {
                if a < p && b > p {
                    lemma_text_lt_transitive(before[a]@, key@, before[b - 1]@);
                }
            }
            assert forall|a: int|
                0 <= a < sorted@.len() implies exists|k: int|
                    0 <= k < i + 1 && #[trigger] map.entries@[k].0@ == (#[trigger] sorted@[a])@ by {
                if a < p {
                    let k = choose|k: int| 0 <= k < i && #[trigger] map.entries@[k].0@ == before[a]@;
                } else if a > p {
                    let k = choose|k: int| 0 <= k < i && #[trigger] map.entries@[k].0@ == before[a - 1]@;
                } else {
                    assert(map.entries@[i as int].0@ == sorted@[a]@);
                }
            }
        }
        i = i + 1;
    }
    proof {
        assert forall|a: int| 0 <= a < sorted@.len() implies #[trigger] map.contains(sorted@[a]@) by {
            let k = choose|k: int| 0 <= k < n && #[trigger] map.entries@[k].0@ == sorted@[a]@;
        }
    }
    sorted
}

/// The buttons of the quick-roll panel for a character: the six ability
/// checks (`"STR (+2) "` ...), then the saving throws the character has, in
/// ability order, then the skills in increasing order of their keys, each
/// labelled with its formatted key (`"Sleight Of Hand (+3) "`).
pub fn quick_roll_buttons(sheet: &CharacterSheet) -> (r: Vec<(String, QuickRollType)>)
    requires
        sheet.wf(),
    ensures
        ({
            let v = buttons_view(r@);
            let saves = save_buttons(sheet.saving_throws.as_map(), 6);
            let ns = saves.len() as int;
            &&& v.len() == 6 + ns + sheet.skills.entries@.len()
            &&& v.take(6) == ability_buttons(sheet.modifiers)
            &&& v.subrange(6, 6 + ns) == saves
            &&& skill_buttons(sheet.skills.as_map(), sheet.skills.entries@.len(), v.skip(6 + ns))
        }),
{
    let abbrevs = vec!["STR", "DEX", "CON", "INT", "WIS", "CHA"];
    let names = vec!["strength", "dexterity", "constitution", "intelligence", "wisdom", "charisma"];
    let m = &sheet.modifiers;
    let mods = vec![m.strength, m.dexterity, m.constitution, m.intelligence, m.wisdom, m.charisma];
    proof {
        reveal_strlit("STR");
        reveal_strlit("DEX");
        reveal_strlit("CON");
        reveal_strlit("INT");
        reveal_strlit("WIS");
        reveal_strlit("CHA");
        reveal_strlit("strength");
        reveal_strlit("dexterity");
        reveal_strlit("constitution");
        reveal_strlit("intelligence");
        reveal_strlit("wisdom");
        reveal_strlit("charisma");
        assert forall|k: int| 0 <= k < 6 implies #[trigger] abbrevs@[k]@ == ability_abbrevs()[k]
            && names@[k]@ == ability_names()[k] && mods@[k] == modifier_at(*m, k) by {}
    }
    let mut out: Vec<(String, QuickRollType)> = Vec::new();
    let mut k: usize = 0;
    while k < 6
        invariant
            k <= 6,
            abbrevs@.len() == 6,
            names@.len() == 6,
            mods@.len() == 6,
            forall|t: int| 0 <= t < 6 ==> #[trigger] abbrevs@[t]@ == ability_abbrevs()[t]
                && names@[t]@ == ability_names()[t] && mods@[t] == modifier_at(*m, t),
            buttons_view(out@) == ability_buttons(*m).take(k as int),
        decreases 6 - k,
    {
        let label = make_label(abbrevs[k], mods[k]);
        let ghost before = buttons_view(out@);
        out.push((label, QuickRollType::AbilityCheck(String::from_str(names[k]))));
        assert(buttons_view(out@) =~= ability_buttons(*m).take(k + 1)) by {
            assert(buttons_view(out@) =~= before.push(button_view(out@[k as int])));
        }
        k = k + 1;
    }
    assert(ability_buttons(*m).take(6) =~= ability_buttons(*m));
    let ghost smap = sheet.saving_throws.as_map();
    let mut k: usize = 0;
    while k < 6
        invariant
            k <= 6,
            abbrevs@.len() == 6,
            names@.len() == 6,
            forall|t: int| 0 <= t < 6 ==> #[trigger] abbrevs@[t]@ == ability_abbrevs()[t]
                && names@[t]@ == ability_names()[t],
            smap == sheet.saving_throws.as_map(),
            buttons_view(out@) == ability_buttons(*m) + save_buttons(smap, k as int),
        decreases 6 - k,
    {
        assert(abbrevs@[k as int]@ == ability_abbrevs()[k as int]);
        match sheet.saving_throws.get(names[k]) {
            Some(sv) => {
                let label = make_label(abbrevs[k], sv.modifier);
                let ghost before = buttons_view(out@);
                out.push((label, QuickRollType::SavingThrow(String::from_str(names[k]))));
                assert(buttons_view(out@) =~= before.push(button_view(out@[out@.len() - 1])));
                assert(buttons_view(out@) =~= ability_buttons(*m) + save_buttons(smap, k + 1));
            },
            None => {
                assert(!smap.dom().contains(ability_names()[k as int]));
                assert(save_buttons(smap, k + 1) == save_buttons(smap, k as int));
            },
        }
        k = k + 1;
    }
    let ghost nsave: int = save_buttons(smap, 6).len() as int;
    let keys = sorted_keys(&sheet.skills);
    let ghost kmap = sheet.skills.as_map();
    let n = keys.len();
    let mut a: usize = 0;
    while a < n
        invariant
            n == keys@.len(),
            a <= n,
            kmap == sheet.skills.as_map(),
            smap == sheet.saving_throws.as_map(),
            nsave == save_buttons(smap, 6).len(),
            forall|t: int| 0 <= t < keys@.len() ==> #[trigger] sheet.skills.contains(keys@[t]@),
            buttons_view(out@).len() == 6 + nsave + a,
            buttons_view(out@).take(6 + nsave) == ability_buttons(*m) + save_buttons(smap, 6),
            forall|t: int|
                0 <= t < a ==> #[trigger] buttons_view(out@)[6 + nsave + t] == (
                    button_label(spec_format_skill_name(keys@[t]@), kmap[keys@[t]@].modifier as int),
                    QuickRollModel::Skill(keys@[t]@),
                ),
        decreases n - a,
    {
        let key = &keys[a];
        assert(sheet.skills.contains(key@));
        assert(kmap.dom().contains(key@));
        let sk = sheet.skills.get(key.as_str()).unwrap();
        let shown = format_skill_name(key.as_str());
        let label = make_label(shown.as_str(), sk.modifier);
        let ghost before = buttons_view(out@);
        let kc = key.clone();
        assert(kc@ == key@);
        out.push((label, QuickRollType::Skill(kc)));
        proof {
            assert(buttons_view(out@) =~= before.push(button_view(out@[out@.len() - 1])));
            assert(before.len() == 6 + nsave + a);
            assert(button_view(out@[out@.len() - 1]) == (
                button_label(spec_format_skill_name(keys@[a as int]@), kmap[keys@[a as int]@].modifier as int),
                QuickRollModel::Skill(keys@[a as int]@),
            ));
            assert(buttons_view(out@).take(6 + nsave) =~= before.take(6 + nsave));
            assert forall|t: int| 0 <= t < a + 1 implies #[trigger] buttons_view(out@)[6 + nsave + t] == (
                button_label(spec_format_skill_name(keys@[t]@), kmap[keys@[t]@].modifier as int),
                QuickRollModel::Skill(keys@[t]@),
            ) by {
                if t < a {
                    assert(buttons_view(out@)[6 + nsave + t] == before[6 + nsave + t]);
                }
            }
        }
        a = a + 1;
    }
    proof {
        let v = buttons_view(out@);
        let saves = save_buttons(smap, 6);
        assert(v.take(6) =~= ability_buttons(*m)) by {
            assert(v.take(6) =~= v.take(6 + nsave).take(6));
        }
        assert(v.subrange(6, 6 + nsave) =~= saves) by {
            assert(v.subrange(6, 6 + nsave) =~= v.take(6 + nsave).skip(6));
        }
        let sk = v.skip(6 + nsave);
        assert forall|i: int| 0 <= i < sk.len() implies (#[trigger] sk[i]).1 is Skill && kmap.dom().contains(
            sk[i].1->Skill_0,
        ) && sk[i].0 == button_label(
            spec_format_skill_name(sk[i].1->Skill_0),
            kmap[sk[i].1->Skill_0].modifier as int,
        ) by {
            assert(sk[i] == v[6 + nsave + i]);
            assert(sheet.skills.contains(keys@[i]@));
        }
        assert forall|i: int, j: int|
            0 <= i < j < sk.len() implies text_lt((#[trigger] sk[i]).1->Skill_0, (#[trigger] sk[j]).1->Skill_0) by {
            assert(sk[i] == v[6 + nsave + i]);
            assert(sk[j] == v[6 + nsave + j]);
        }
    }
    out
}

// ---------------------------------------------------------------------------
// Results panel
// ---------------------------------------------------------------------------

/// The character line of the results panel: `"<name> - <race> <class>
/// (Level <level>)"`, or `"No character loaded"`.
pub open spec fn spec_character_line(data: CharacterData) -> Seq<char> {
    match data.sheet {
        Some(s) => s.character.name@ + " - "@ + s.character.race@ + " "@ + s.character.class@
            + " (Level "@ + dec_seq(s.character.level as int) + ")"@,
        None => "No character loaded"@,
    }
}

/// The character line of the results panel (see `spec_character_line`).
pub fn character_line(data: &CharacterData) -> (r: String)
    ensures
        r@ == spec_character_line(*data),
{
    match &data.sheet {
        Some(s) => {
            let mut line = s.character.name.clone();
            push_str(&mut line, " - ");
            push_str(&mut line, s.character.race.as_str());
            push_str(&mut line, " ");
            push_str(&mut line, s.character.class.as_str());
            push_str(&mut line, " (Level ");
            push_int(&mut line, s.character.level as i64);
            push_str(&mut line, ")");
            proof {
                reveal_strlit(" - ");
                reveal_strlit(" ");
                reveal_strlit(" (Level ");
                reveal_strlit(")");
                assert(line@ =~= spec_character_line(*data));
            }
            line
        },
        None => String::from_str("No character loaded"),
    }
}

/// The modifier line of the results panel: a line break and
/// `"Modifier: <name> (<signed modifier>)"` when the modifier has a name,
/// `"Modifier: <signed modifier>"` when it is unnamed and not 0, nothing
/// otherwise.
pub open spec fn spec_modifier_line(name: Seq<char>, m: int) -> Seq<char> {
    if name.len() > 0 {
        "\nModifier: "@ + name + " ("@ + signed_text(m) + ")"@
    } else if m != 0 {
        "\nModifier: "@ + signed_text(m)
    } else {
        Seq::empty()
    }
}

/// The modifier line of the results panel (see `spec_modifier_line`).
pub fn modifier_line(config: &DiceConfig) -> (r: String)
    ensures
        r@ == spec_modifier_line(config.modifier_name@, config.modifier as int),
{
    let m = config.modifier;
    if config.modifier_name.unicode_len() > 0 {
        let mut line = String::from_str("\nModifier: ");
        push_str(&mut line, config.modifier_name.as_str());
        push_str(&mut line, " (");
        if m >= 0 {
            push_str(&mut line, "+");
        }
        push_int(&mut line, m as i64);
        push_str(&mut line, ")");
        proof {
            reveal_strlit("\nModifier: ");
            reveal_strlit(" (");
            reveal_strlit("+");
            reveal_strlit(")");
            assert(line@ =~= spec_modifier_line(config.modifier_name@, m as int));
        }
        line
    } else if m != 0 {
        let mut line = String::from_str("\nModifier: ");
        if m >= 0 {
            push_str(&mut line, "+");
        }
        push_int(&mut line, m as i64);
        proof {
            reveal_strlit("\nModifier: ");
            reveal_strlit("+");
            assert(line@ =~= spec_modifier_line(config.modifier_name@, m as int));
        }
        line
    } else {
        String::new()
    }
}

} // verus!
