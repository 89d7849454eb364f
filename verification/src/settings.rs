//! Settings that are plain data: which visual effect plays for a rolled
//! value, the die chosen for quick rolls and character-sheet rolls, and the
//! list of recently chosen theme colors.
use vstd::prelude::*;
use vstd::string::*;

use crate::dice::{spec_max_value, DiceType};
use crate::text::{ascii_upper, to_ascii_uppercase};

verus! {

/// The visual effects a roll can trigger.
#[derive(Clone, Copy, Debug, PartialEq, Eq, Hash, Structural)]
pub enum DiceRollFxKind {
    NoEffect,
    Fire,
    Electricity,
    Fireworks,
    Explosion,
    Plasma,
}

/// The name shown for an effect.
pub open spec fn spec_fx_label(k: DiceRollFxKind) -> Seq<char> {
    match k {
        DiceRollFxKind::NoEffect => "None"@,
        DiceRollFxKind::Fire => "Fire"@,
        DiceRollFxKind::Electricity => "Electricity"@,
        DiceRollFxKind::Fireworks => "Fireworks"@,
        DiceRollFxKind::Explosion => "Explosion"@,
        DiceRollFxKind::Plasma => "Plasma"@,
    }
}

impl DiceRollFxKind {
    /// No effect.
    pub fn default() -> (r: DiceRollFxKind)
        ensures
            r == DiceRollFxKind::NoEffect,
    {
        DiceRollFxKind::NoEffect
    }

    /// The name shown for the effect.
    pub fn label(&self) -> (r: &'static str)
        ensures
            r@ == spec_fx_label(*self),
    {
        match self {
            DiceRollFxKind::NoEffect => "None",
            DiceRollFxKind::Fire => "Fire",
            DiceRollFxKind::Electricity => "Electricity",
            DiceRollFxKind::Fireworks => "Fireworks",
            DiceRollFxKind::Explosion => "Explosion",
            DiceRollFxKind::Plasma => "Plasma",
        }
    }
}

/// For one die, the effect played for each rolled value: entry `v` is the
/// effect of value `v` (entry 0 is unused and kept at `None`).
pub struct DiceRollFxMapping {
    pub die_type: DiceType,
    pub effects_by_value: Vec<DiceRollFxKind>,
}

/// The effect recorded for `value` in `effects`: `None` past the end.
pub open spec fn fx_at(effects: Seq<DiceRollFxKind>, value: int) -> DiceRollFxKind {
    if 0 <= value < effects.len() {
        effects[value]
    } else {
        DiceRollFxKind::NoEffect
    }
}

/// `effects` after recording `kind` for `value`: value 0 is ignored; the list
/// grows with `None` entries to reach `value`.
pub open spec fn fx_set(effects: Seq<DiceRollFxKind>, value: int, kind: DiceRollFxKind) -> Seq<DiceRollFxKind> {
    if value == 0 {
        effects
    } else if value < effects.len() {
        effects.update(value, kind)
    } else {
        Seq::new((value + 1) as nat, |i: int| if i == value { kind } else { fx_at(effects, i) })
    }
}

/// `effects` cut or padded with `None` to `want` entries, with entry 0 `None`.
pub open spec fn fx_normalized(effects: Seq<DiceRollFxKind>, want: nat) -> Seq<DiceRollFxKind> {
    Seq::new(want, |i: int| if i == 0 { DiceRollFxKind::NoEffect } else { fx_at(effects, i) })
}

impl DiceRollFxMapping {
    /// No effect for any value of `die_type`: one `None` entry per value, plus
    /// the unused entry 0.
    pub fn new(die_type: DiceType) -> (r: DiceRollFxMapping)
        ensures
            r.die_type == die_type,
            r.effects_by_value@ == Seq::new(spec_max_value(die_type) as nat + 1, |i: int| DiceRollFxKind::NoEffect),
    {
        let n = die_type.max_value() as usize + 1;
        let mut effects: Vec<DiceRollFxKind> = Vec::new();
        let mut i: usize = 0;
        while i < n
            invariant
                i <= n,
                effects@ == Seq::new(i as nat, |k: int| DiceRollFxKind::NoEffect),
            decreases n - i,
        {
            effects.push(DiceRollFxKind::NoEffect);
            i = i + 1;
            assert(effects@ =~= Seq::new(i as nat, |k: int| DiceRollFxKind::NoEffect));
        }
        DiceRollFxMapping { die_type, effects_by_value: effects }
    }

    /// The effect for a rolled value (`None` when none is recorded).
    pub fn get(&self, value: u32) -> (r: DiceRollFxKind)
        ensures
            r == fx_at(self.effects_by_value@, value as int),
    {
        let idx = value as usize;
        if idx < self.effects_by_value.len() {
            self.effects_by_value[idx]
        } else {
            DiceRollFxKind::NoEffect
        }
    }

    /// Records `kind` as the effect of `value` (see `fx_set`).
    pub fn set(&mut self, value: u32, kind: DiceRollFxKind)
        requires
            value as int + 1 <= usize::MAX,
        ensures
            final(self).die_type == old(self).die_type,
            final(self).effects_by_value@ == fx_set(old(self).effects_by_value@, value as int, kind),
    {
        let idx = value as usize;
        if idx == 0 {
            return;
        }
        let ghost before = self.effects_by_value@;
        if idx >= self.effects_by_value.len() {
            let n = self.effects_by_value.len();
            let mut k: usize = n;
            while k < idx + 1
                invariant
                    n == before.len(),
                    n <= k <= idx + 1,
                    idx + 1 <= usize::MAX,
                    self.die_type == old(self).die_type,
                    self.effects_by_value@ == Seq::new(k as nat, |i: int| fx_at(before, i)),
                decreases idx + 1 - k,
            {
                self.effects_by_value.push(DiceRollFxKind::NoEffect);
                k = k + 1;
                assert(self.effects_by_value@ =~= Seq::new(k as nat, |i: int| fx_at(before, i)));
            }
        }
        self.effects_by_value.set(idx, kind);
        assert(self.effects_by_value@ =~= fx_set(before, value as int, kind));
    }

    /// Fits the list to the die: one entry per value plus entry 0, which is
    /// `None`; recorded effects of values of the die are kept.
    pub fn normalize_len(&mut self)
        ensures
            final(self).die_type == old(self).die_type,
            final(self).effects_by_value@ == fx_normalized(
                old(self).effects_by_value@,
                spec_max_value(old(self).die_type) as nat + 1,
            ),
    {
        let want = self.die_type.max_value() as usize + 1;
        let ghost before = self.effects_by_value@;
        if self.effects_by_value.len() > want {
            self.effects_by_value.truncate(want);
        }
        let mut k: usize = self.effects_by_value.len();
        while k < want
            invariant
                k <= want,
                k == self.effects_by_value@.len(),
                k < want ==> k >= before.len(),
                self.die_type == old(self).die_type,
                forall|i: int| 0 <= i < k ==> #[trigger] self.effects_by_value@[i] == fx_at(before, i),
            decreases want - k,
        {
            self.effects_by_value.push(DiceRollFxKind::NoEffect);
            k = k + 1;
        }
        self.effects_by_value.set(0, DiceRollFxKind::NoEffect);
        assert(self.effects_by_value@ =~= fx_normalized(before, want as nat));
    }
}

/// Recording an effect for a value other than 0 makes it the effect of that
/// value and leaves every other value's effect as it was; fitting the list to
/// its die keeps the effects of the die's values and clears value 0.
pub proof fn law_fx_set_then_get(effects: Seq<DiceRollFxKind>, value: int, kind: DiceRollFxKind, other: int, want: nat)
    requires
        0 <= value,
        0 <= other,
        other != value,
    ensures
        value != 0 ==> fx_at(fx_set(effects, value, kind), value) == kind,
        fx_at(fx_set(effects, value, kind), other) == fx_at(effects, other),
        fx_at(fx_set(effects, 0, kind), 0) == fx_at(effects, 0),
        0 < other < want ==> fx_at(fx_normalized(effects, want), other) == fx_at(effects, other),
        want > 0 ==> fx_at(fx_normalized(effects, want), 0) == DiceRollFxKind::NoEffect,
        fx_normalized(effects, want).len() == want,
{
}

/// The effect set for rolling `value` on `die_type`: the first mapping for
/// that die decides; value 0 and dice without a mapping get `None`.
pub open spec fn spec_roll_fx_for(mappings: Seq<DiceRollFxMapping>, die_type: DiceType, value: u32) -> DiceRollFxKind
    decreases mappings.len(),
{
    if value == 0 || mappings.len() == 0 {
        DiceRollFxKind::NoEffect
    } else if mappings[0].die_type == die_type {
        fx_at(mappings[0].effects_by_value@, value as int)
    } else {
        spec_roll_fx_for(mappings.drop_first(), die_type, value)
    }
}

/// The index of the first mapping for `die_type`, if any.
pub open spec fn first_mapping(mappings: Seq<DiceRollFxMapping>, die_type: DiceType) -> Option<int>
    decreases mappings.len(),
{
    if mappings.len() == 0 {
        None
    } else if mappings[0].die_type == die_type {
        Some(0)
    } else {
        match first_mapping(mappings.drop_first(), die_type) {
            Some(i) => Some(i + 1),
            None => None,
        }
    }
}

proof fn lemma_first_mapping(mappings: Seq<DiceRollFxMapping>, die_type: DiceType, value: u32)
    ensures
        first_mapping(mappings, die_type) matches Some(i) ==> 0 <= i < mappings.len()
            && mappings[i].die_type == die_type && (forall|k: int| 0 <= k < i ==> mappings[k].die_type != die_type)
            && (value != 0 ==> spec_roll_fx_for(mappings, die_type, value) == fx_at(mappings[i].effects_by_value@, value as int)),
        first_mapping(mappings, die_type) is None ==> (forall|k: int| 0 <= k < mappings.len() ==> mappings[k].die_type != die_type)
            && spec_roll_fx_for(mappings, die_type, value) == DiceRollFxKind::NoEffect,
    decreases mappings.len(),
{
    if mappings.len() > 0 {
        lemma_first_mapping(mappings.drop_first(), die_type, value);
        if mappings[0].die_type != die_type {
            assert forall|k: int| 0 < k < mappings.len() implies mappings[k] == mappings.drop_first()[k - 1] by {}
        }
    }
}

/// The position of the first mapping for `die_type`.
fn mapping_position(mappings: &Vec<DiceRollFxMapping>, die_type: DiceType) -> (r: Option<usize>)
    ensures
        r matches Some(i) ==> first_mapping(mappings@, die_type) == Some(i as int),
        r is None ==> first_mapping(mappings@, die_type) is None,
{
    proof {
        lemma_first_mapping(mappings@, die_type, 0);
    }
    let n = mappings.len();
    let mut i: usize = 0;
    while i < n
        invariant
            n == mappings@.len(),
            i <= n,
            forall|k: int| 0 <= k < i ==> mappings@[k].die_type != die_type,
        decreases n - i,
    {
        if mappings[i].die_type == die_type {
            proof {
                lemma_first_mapping(mappings@, die_type, 0);
                match first_mapping(mappings@, die_type) {
                    Some(j) => {
                        assert(j == i);
                    },
                    None => {},
                }
            }
            return Some(i);
        }
        i = i + 1;
    }
    None
}

/// The effect that rolling `value` on `die_type` triggers (see
/// `spec_roll_fx_for`).
pub fn roll_fx_for(mappings: &Vec<DiceRollFxMapping>, die_type: DiceType, value: u32) -> (r: DiceRollFxKind)
    ensures
        r == spec_roll_fx_for(mappings@, die_type, value),
{
    proof {
        lemma_first_mapping(mappings@, die_type, value);
    }
    if value == 0 {
        return DiceRollFxKind::NoEffect;
    }
    match mapping_position(mappings, die_type) {
        Some(i) => {
            let r = mappings[i].get(value);
            proof {
                let j = first_mapping(mappings@, die_type)->Some_0;
                assert(j == i);
            }
            r
        },
        None => DiceRollFxKind::NoEffect,
    }
}

/// Makes sure `die_type` has a mapping and returns its position: the first
/// existing one, fitted to its die, or else a new empty one added at the end.
pub fn ensure_roll_fx_mapping(mappings: &mut Vec<DiceRollFxMapping>, die_type: DiceType) -> (r: usize)
    ensures
        r < final(mappings)@.len(),
        final(mappings)@[r as int].die_type == die_type,
        match first_mapping(old(mappings)@, die_type) {
            Some(i) => r == i && final(mappings)@.len() == old(mappings)@.len() && final(mappings)@[r as int].effects_by_value@
                == fx_normalized(old(mappings)@[i].effects_by_value@, spec_max_value(die_type) as nat + 1)
                && forall|k: int| 0 <= k < old(mappings)@.len() && k != i ==> #[trigger] final(mappings)@[k] == old(mappings)@[k],
            None => r == old(mappings)@.len() && final(mappings)@.len() == old(mappings)@.len() + 1
                && final(mappings)@[r as int].effects_by_value@ == Seq::new(
                spec_max_value(die_type) as nat + 1,
                |i: int| DiceRollFxKind::NoEffect,
            ) && forall|k: int| 0 <= k < old(mappings)@.len() ==> #[trigger] final(mappings)@[k] == old(mappings)@[k],
        },
{
    proof {
        lemma_first_mapping(mappings@, die_type, 0);
    }
    match mapping_position(mappings, die_type) {
        Some(i) => {
            let ghost before = mappings@;
            proof {
                let j = first_mapping(mappings@, die_type)->Some_0;
                assert(j == i);
            }
            let mut m = mappings.remove(i);
            assert(m == before[i as int]);
            m.normalize_len();
            let ghost m2 = m;
            mappings.insert(i, m);
            assert(mappings@ =~= before.update(i as int, m2));
            i
        },
        None => {
            let ghost before = mappings@;
            mappings.push(DiceRollFxMapping::new(die_type));
            assert(mappings@.len() == before.len() + 1);
            mappings.len() - 1
        },
    }
}

/// The die chosen in the settings for quick rolls and character-sheet rolls.
#[derive(Clone, Copy, Debug, PartialEq, Eq, Hash, Structural)]
pub enum DiceTypeSetting {
    D4,
    D6,
    D8,
    D10,
    D12,
    D20,
}

/// The die a setting stands for.
pub open spec fn spec_to_dice_type(s: DiceTypeSetting) -> DiceType {
    match s {
        DiceTypeSetting::D4 => DiceType::D4,
        DiceTypeSetting::D6 => DiceType::D6,
        DiceTypeSetting::D8 => DiceType::D8,
        DiceTypeSetting::D10 => DiceType::D10,
        DiceTypeSetting::D12 => DiceType::D12,
        DiceTypeSetting::D20 => DiceType::D20,
    }
}

/// The name shown for a setting: `d4` .. `d20`.
pub open spec fn spec_setting_label(s: DiceTypeSetting) -> Seq<char> {
    match s {
        DiceTypeSetting::D4 => "d4"@,
        DiceTypeSetting::D6 => "d6"@,
        DiceTypeSetting::D8 => "d8"@,
        DiceTypeSetting::D10 => "d10"@,
        DiceTypeSetting::D12 => "d12"@,
        DiceTypeSetting::D20 => "d20"@,
    }
}

impl DiceTypeSetting {
    /// The D20.
    pub fn default() -> (r: DiceTypeSetting)
        ensures
            r == DiceTypeSetting::D20,
    {
        DiceTypeSetting::D20
    }

    /// The die this setting stands for.
    pub fn to_dice_type(self) -> (r: DiceType)
        ensures
            r == spec_to_dice_type(self),
    {
        match self {
            DiceTypeSetting::D4 => DiceType::D4,
            DiceTypeSetting::D6 => DiceType::D6,
            DiceTypeSetting::D8 => DiceType::D8,
            DiceTypeSetting::D10 => DiceType::D10,
            DiceTypeSetting::D12 => DiceType::D12,
            DiceTypeSetting::D20 => DiceType::D20,
        }
    }

    /// The name shown for the setting.
    pub fn label(&self) -> (r: &'static str)
        ensures
            r@ == spec_setting_label(*self),
    {
        match self {
            DiceTypeSetting::D4 => "d4",
            DiceTypeSetting::D6 => "d6",
            DiceTypeSetting::D8 => "d8",
            DiceTypeSetting::D10 => "d10",
            DiceTypeSetting::D12 => "d12",
            DiceTypeSetting::D20 => "d20",
        }
    }
}

/// Each setting stands for a different die, every die has a setting, and
/// the name of a setting is the lowercase name of its die.
pub proof fn law_die_settings_match_dice(a: DiceTypeSetting, b: DiceTypeSetting, d: DiceType)
    ensures
        spec_to_dice_type(a) == spec_to_dice_type(b) ==> a == b,
        exists|s: DiceTypeSetting| spec_to_dice_type(s) == d,
        spec_setting_label(a) == crate::dice::lowercase_name(spec_to_dice_type(a)),
{
    let s = match d {
        DiceType::D4 => DiceTypeSetting::D4,
        DiceType::D6 => DiceTypeSetting::D6,
        DiceType::D8 => DiceTypeSetting::D8,
        DiceType::D10 => DiceTypeSetting::D10,
        DiceType::D12 => DiceTypeSetting::D12,
        DiceType::D20 => DiceTypeSetting::D20,
    };
    assert(spec_to_dice_type(s) == d);
    reveal_strlit("d4");
    reveal_strlit("d6");
    reveal_strlit("d8");
    reveal_strlit("d10");
    reveal_strlit("d12");
    reveal_strlit("d20");
}


// ---------------------------------------------------------------------------
// Recent theme seeds
// ---------------------------------------------------------------------------

/// Whether two texts are equal up to ASCII case
/// (`str::eq_ignore_ascii_case`).
pub open spec fn same_ignoring_ascii_case(a: Seq<char>, b: Seq<char>) -> bool {
    &&& a.len() == b.len()
    &&& forall|i: int| 0 <= i < a.len() ==> ascii_upper(a[i]) == ascii_upper(b[i])
}

/// Whether a text differs from `seed` beyond ASCII case.
pub open spec fn differs_from(seed: Seq<char>) -> spec_fn(Seq<char>) -> bool {
    |s: Seq<char>| !same_ignoring_ascii_case(s, seed)
}

/// The most theme colors remembered.
pub const MAX_RECENT_SEEDS: usize = 10;

/// The recent theme colors after `seed` is chosen: `seed` first, then the
/// earlier ones that differ from it beyond ASCII case, at most ten in all.
pub open spec fn recent_seeds_after(recent: Seq<Seq<char>>, seed: Seq<char>) -> Seq<Seq<char>> {
    let kept = seq![seed] + recent.filter(differs_from(seed));
    if kept.len() > MAX_RECENT_SEEDS {
        kept.take(MAX_RECENT_SEEDS as int)
    } else {
        kept
    }
}

/// `a.eq_ignore_ascii_case(b)`.
pub fn eq_ignore_ascii_case(a: &str, b: &str) -> (r: bool)
    ensures
        r == same_ignoring_ascii_case(a@, b@),
{
    let n = a.unicode_len();
    if n != b.unicode_len() {
        return false;
    }
    let mut i: usize = 0;
    while i < n
        invariant
            n == a@.len(),
            n == b@.len(),
            i <= n,
            forall|k: int| 0 <= k < i ==> ascii_upper(a@[k]) == ascii_upper(b@[k]),
        decreases n - i,
    {
        if to_ascii_uppercase(a.get_char(i)) != to_ascii_uppercase(b.get_char(i)) {
            return false;
        }
        i = i + 1;
    }
    true
}

/// Records `seed` as the latest theme color: it goes first, any earlier
/// entry equal to it up to ASCII case is dropped, and the list is cut to
/// ten entries.
pub fn remember_theme_seed(recent: &mut Vec<String>, seed: String)
    ensures
        final(recent).deep_view() == recent_seeds_after(old(recent).deep_view(), seed@),
{
    let ghost old_v = recent.deep_view();
    let ghost p = differs_from(seed@);
    let n = recent.len();
    let mut out: Vec<String> = Vec::new();
    out.push(seed.clone());
    let mut i: usize = 0;
    assert(old_v.take(0) =~= Seq::<Seq<char>>::empty());
    proof {
        reveal(Seq::filter);
    }
    assert(out.deep_view() =~= seq![seed@] + old_v.take(0).filter(p));
    while i < n
        invariant
            n == recent@.len(),
            old_v == recent.deep_view(),
            p == differs_from(seed@),
            i <= n,
            out.deep_view() == seq![seed@] + old_v.take(i as int).filter(p),
        decreases n - i,
    {
        let s = &recent[i];
        assert(old_v[i as int] == s@);
        assert(old_v.take(i + 1).drop_last() =~= old_v.take(i as int));
        assert(old_v.take(i + 1).last() == s@);
        proof {
            let t = old_v.take(i + 1);
            assert(t.len() > 0);
            reveal(Seq::filter);
            assert(t.filter(p) == (if p(t.last()) {
                t.drop_last().filter(p).push(t.last())
            } else {
                t.drop_last().filter(p)
            }));
        }
        if !eq_ignore_ascii_case(s.as_str(), seed.as_str()) {
            let ghost before = out.deep_view();
            let c = s.clone();
            assert(c@ == s@);
            out.push(c);
            assert(out.deep_view() =~= before.push(s@));
            assert(out.deep_view() =~= seq![seed@] + old_v.take(i + 1).filter(p));
        } else {
            assert(out.deep_view() =~= seq![seed@] + old_v.take(i + 1).filter(p));
        }
        i = i + 1;
    }
    assert(old_v.take(n as int) =~= old_v);
    if out.len() > MAX_RECENT_SEEDS {
        out.truncate(MAX_RECENT_SEEDS);
        assert(out.deep_view() =~= recent_seeds_after(old_v, seed@));
    }
    *recent = out;
}

/// What a filter keeps was in the sequence.
proof fn lemma_filter_kept(s: Seq<Seq<char>>, p: spec_fn(Seq<char>) -> bool, k: int)
    requires
        0 <= k < s.filter(p).len(),
    ensures
        s.contains(s.filter(p)[k]),
        p(s.filter(p)[k]),
    decreases s.len(),
{
    reveal(Seq::filter);
    s.filter_lemma(p);
    let sub = s.drop_last().filter(p);
    if p(s.last()) && k == sub.len() {
        assert(s[s.len() - 1] == s.filter(p)[k]);
    } else {
        assert(s.filter(p)[k] == sub[k]);
        lemma_filter_kept(s.drop_last(), p, k);
        let j = choose|j: int| 0 <= j < s.drop_last().len() && s.drop_last()[j] == sub[k];
        assert(s[j] == sub[k]);
    }
}

/// After a theme color is chosen it comes first, at most ten colors are
/// kept, no other kept color equals it up to ASCII case, and every kept color
/// after it was in the list before, in the same order.
pub proof fn law_recent_seeds(recent: Seq<Seq<char>>, seed: Seq<char>)
    ensures
        recent_seeds_after(recent, seed).len() >= 1,
        recent_seeds_after(recent, seed)[0] == seed,
        recent_seeds_after(recent, seed).len() <= MAX_RECENT_SEEDS,
        forall|k: int|
            1 <= k < recent_seeds_after(recent, seed).len() ==> !same_ignoring_ascii_case(
                #[trigger] recent_seeds_after(recent, seed)[k],
                seed,
            ) && recent.contains(recent_seeds_after(recent, seed)[k]),
{
    let f = recent.filter(differs_from(seed));
    let kept = seq![seed] + f;
    assert forall|k: int| 0 <= k < f.len() implies !same_ignoring_ascii_case(#[trigger] f[k], seed)
        && recent.contains(f[k]) by {
        lemma_filter_kept(recent, differs_from(seed), k);
    }
    assert forall|k: int| 1 <= k < recent_seeds_after(recent, seed).len() implies #[trigger] recent_seeds_after(recent, seed)[k]
        == f[k - 1] by {}
}

} // verus!
