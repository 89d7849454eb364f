//! Dice commands typed by the user (`--dice 2d6 --modifier 3`,
//! `d20 --checkon stealth`), the history of commands, and the quick-roll
//! buttons that fill the same configuration.
use vstd::prelude::*;
use vstd::string::*;

use crate::character::{ability_lookup, ability_lookup_fits, save_lookup, modifier_at, skill_lookup, spec_modifier, CharacterData};
use crate::dice::{push_dice, repeat_die, spec_max_value, spec_parse_dice_str, parse_dice_str, DiceConfig, DiceType};
use crate::sheet::{CharacterSheetModel, SavingThrowModel, SkillModel};
use crate::text::{ascii_upper, is_uppercase, push_char, to_ascii_uppercase, uppercase_char, dec_seq, is_blank, lowercase, parse_i32, parse_i32_spec, push_int, push_str, push_usize, split_ws, str_eq, to_lowercase, trim, trim_seq, ws_tokens};

verus! {

// ---------------------------------------------------------------------------
// Reading a command
// ---------------------------------------------------------------------------

/// `--dice` or `-d`: the next token is dice notation.
pub open spec fn is_dice_flag(p: Seq<char>) -> bool {
    p == "--dice"@ || p == "-d"@
}

/// `--modifier` or `-m`: the next token is a number added to the roll.
pub open spec fn is_modifier_flag(p: Seq<char>) -> bool {
    p == "--modifier"@ || p == "-m"@
}

/// `--checkon`: the next token names a skill, ability or saving throw.
pub open spec fn is_checkon_flag(p: Seq<char>) -> bool {
    p == "--checkon"@
}

/// A bare token read as dice notation: it holds a `d` and does not start
/// with `-`.
pub open spec fn is_bare_notation(p: Seq<char>) -> bool {
    p.contains('d') && !(p.len() > 0 && p[0] == '-')
}

/// Whether token `i` is a flag followed by its argument.
pub open spec fn takes_argument(t: Seq<Seq<char>>, i: int) -> bool {
    (is_dice_flag(t[i]) || is_checkon_flag(t[i]) || is_modifier_flag(t[i])) && i + 1 < t.len()
}

/// The token after token `i` and its argument, if it has one.
pub open spec fn next_token(t: Seq<Seq<char>>, i: int) -> int {
    if takes_argument(t, i) {
        i + 2
    } else {
        i + 1
    }
}

/// `dice` followed by the dice that the notation `s` names (nothing when
/// `s` is not valid notation).
pub open spec fn add_notation(dice: Seq<DiceType>, s: Seq<char>) -> Seq<DiceType> {
    match spec_parse_dice_str(s) {
        Some((count, die)) => dice + repeat_die(die, count as nat),
        None => dice,
    }
}

/// The dice named from token `i` on, after `dice`.
pub open spec fn scan_dice(t: Seq<Seq<char>>, i: int, dice: Seq<DiceType>) -> Seq<DiceType>
    decreases t.len() - i,
{
    if i < 0 || i >= t.len() {
        dice
    } else {
        let d2 = if is_dice_flag(t[i]) && i + 1 < t.len() {
            add_notation(dice, t[i + 1])
        } else if is_bare_notation(t[i]) {
            add_notation(dice, t[i])
        } else {
            dice
        };
        scan_dice(t, next_token(t, i), d2)
    }
}

/// The value `--modifier` token `i` adds, if it is one with a number.
pub open spec fn modifier_at_token(t: Seq<Seq<char>>, i: int) -> int {
    if is_modifier_flag(t[i]) && i + 1 < t.len() {
        match parse_i32_spec(t[i + 1]) {
            Some(v) => v as int,
            None => 0,
        }
    } else {
        0
    }
}

/// `m` plus the modifiers given from token `i` on.
pub open spec fn scan_modifier(t: Seq<Seq<char>>, i: int, m: int) -> int
    decreases t.len() - i,
{
    if i < 0 || i >= t.len() {
        m
    } else {
        scan_modifier(t, next_token(t, i), m + modifier_at_token(t, i))
    }
}

/// Whether, starting from `m`, each running sum of the modifiers given from
/// token `i` on stays an `i32`.
pub open spec fn modifiers_fit(t: Seq<Seq<char>>, i: int, m: int) -> bool
    decreases t.len() - i,
{
    if i < 0 || i >= t.len() {
        true
    } else {
        let m2 = m + modifier_at_token(t, i);
        &&& i32::MIN <= m2 <= i32::MAX
        &&& modifiers_fit(t, next_token(t, i), m2)
    }
}

/// The check named last from token `i` on (`c` when none is).
pub open spec fn scan_checkon(t: Seq<Seq<char>>, i: int, c: Option<Seq<char>>) -> Option<Seq<char>>
    decreases t.len() - i,
{
    if i < 0 || i >= t.len() {
        c
    } else {
        let c2 = if is_checkon_flag(t[i]) && i + 1 < t.len() {
            Some(t[i + 1])
        } else {
            c
        };
        scan_checkon(t, next_token(t, i), c2)
    }
}

/// The dice a command names, its modifier before any check, and the check.
pub open spec fn command_dice(cmd: Seq<char>) -> Seq<DiceType> {
    scan_dice(ws_tokens(cmd), 0, Seq::empty())
}

pub open spec fn command_modifier(cmd: Seq<char>) -> int {
    scan_modifier(ws_tokens(cmd), 0, 0)
}

pub open spec fn command_checkon(cmd: Seq<char>) -> Option<Seq<char>> {
    scan_checkon(ws_tokens(cmd), 0, None)
}

/// Whether `v` fits an `i32`.
pub open spec fn fits_i32(v: int) -> bool {
    i32::MIN <= v <= i32::MAX
}

/// Whether `base` plus the modifier of any skill that the lookup of `q` may
/// give fits an `i32`.
pub open spec fn skill_fits(base: int, skills: Seq<(Seq<char>, SkillModel)>, q: Seq<char>) -> bool {
    forall|o: Option<SkillModel>|
        #[trigger] skill_lookup(skills, q, o) && o is Some ==> fits_i32(base + o->Some_0.modifier)
}

/// Whether `base` plus the modifier of any saving throw that the lookup of
/// `q` may give fits an `i32`.
pub open spec fn save_fits(base: int, saves: Seq<(Seq<char>, SavingThrowModel)>, q: Seq<char>) -> bool {
    forall|o: Option<SavingThrowModel>|
        #[trigger] save_lookup(saves, q, o) && o is Some ==> fits_i32(base + o->Some_0.modifier)
}

/// Whether the ability lookup of `a` can compute its modifier, and `base`
/// plus any modifier it may give fits an `i32`.
pub open spec fn ability_fits(base: int, s: CharacterSheetModel, a: Seq<char>) -> bool {
    &&& ability_lookup_fits(s, a)
    &&& forall|m: i32| #[trigger] ability_lookup(s, a, m) ==> fits_i32(base + m)
}

/// Whether checking on `check` after a modifier of `base` stays within
/// `i32`: the skill that answers to the lowercased check, or, when none
/// does, the ability it names.
pub open spec fn check_fits(base: int, s: CharacterSheetModel, check: Seq<char>) -> bool {
    let k = lowercase(check);
    &&& skill_fits(base, s.skills, k)
    &&& skill_lookup(s.skills, k, None) ==> ability_fits(base, s, k)
}

/// Whether a command can be read against a character without overflow: its
/// modifiers add up within `i32`, and so does the check it names.
pub open spec fn command_fits(cmd: Seq<char>, sheet: Option<CharacterSheetModel>) -> bool {
    &&& modifiers_fit(ws_tokens(cmd), 0, 0)
    &&& match sheet {
        Some(s) => command_checkon(cmd) matches Some(c) ==> check_fits(command_modifier(cmd), s, c),
        None => true,
    }
}

/// Whether `(m, name)` is what checking on `check` gives after a modifier of
/// `base`: with no character loaded, `base` and the check's name; otherwise
/// a skill that answers to the lowercased check adds its modifier under the
/// check's name, and else the ability lookup adds its modifier under
/// "<check> check".
pub open spec fn checkon_result(
    sheet: Option<CharacterSheetModel>,
    check: Seq<char>,
    base: int,
    m: int,
    name: Seq<char>,
) -> bool {
    match sheet {
        None => m == base && name == check,
        Some(s) => {
            let lower = lowercase(check);
            exists|o: Option<SkillModel>|
                #[trigger] skill_lookup(s.skills, lower, o) && checked_with(s, lower, check, base, m, name, o)
        },
    }
}

/// The outcome of a check once the skill lookup gave `o`: the skill's
/// modifier under the check's name, or else the ability lookup's modifier
/// under "<check> check".
pub open spec fn checked_with(
    s: CharacterSheetModel,
    lower: Seq<char>,
    check: Seq<char>,
    base: int,
    m: int,
    name: Seq<char>,
    o: Option<SkillModel>,
) -> bool {
    match o {
        Some(v) => m == base + v.modifier && name == check,
        None => exists|a: i32|
            #[trigger] ability_lookup(s, lower, a) && m == base + a && name == check + " check"@,
    }
}

/// The sheet of a loaded character, as a model.
pub open spec fn sheet_model(cd: &CharacterData) -> Option<CharacterSheetModel> {
    match cd.sheet {
        Some(s) => Some(s.deep_view()),
        None => None,
    }
}

/// Whether `c` is the configuration a command reads to: the dice it names
/// (one D20 when it names none), and its modifier and modifier name, with
/// the check it names applied (see `checkon_result`).
pub open spec fn config_matches(cmd: Seq<char>, sheet: Option<CharacterSheetModel>, c: DiceConfig) -> bool {
    &&& c.dice_to_roll@ == (if command_dice(cmd).len() == 0 {
        seq![DiceType::D20]
    } else {
        command_dice(cmd)
    })
    &&& match command_checkon(cmd) {
        None => c.modifier == command_modifier(cmd) && c.modifier_name@ == Seq::<char>::empty(),
        Some(check) => checkon_result(sheet, check, command_modifier(cmd), c.modifier as int, c.modifier_name@),
    }
}

proof fn lemma_skill_found(skills: Seq<(Seq<char>, SkillModel)>, q: Seq<char>, v: SkillModel)
    requires
        skill_lookup(skills, q, Some(v)),
    ensures
        exists|i: int| 0 <= i < skills.len() && #[trigger] skills[i].1 == v,
{
}

proof fn lemma_fits_step(t: Seq<Seq<char>>, i: int, m: int)
    requires
        0 <= i < t.len(),
        modifiers_fit(t, i, m),
    ensures
        fits_i32(m + modifier_at_token(t, i)),
        modifiers_fit(t, next_token(t, i), m + modifier_at_token(t, i)),
{
}

/// Reads a dice command: the dice it names (one D20 when it names none), the
/// sum of its modifiers, and the check it names, whose modifier is added
/// from the character (see `checkon_result`). `None` for a command with no
/// tokens.
pub fn parse_command(cmd: &str, character_data: &CharacterData) -> (r: Option<DiceConfig>)
    requires
        command_fits(cmd@, sheet_model(character_data)),
    ensures
        r is None <==> ws_tokens(cmd@).len() == 0,
        r matches Some(c) ==> config_matches(cmd@, sheet_model(character_data), c),
{
    let parts = split_ws(cmd);
    let ghost t = ws_tokens(cmd@);
    assert(parts.deep_view() =~= t);
    if parts.len() == 0 {
        return None;
    }
    let mut dice_to_roll: Vec<DiceType> = Vec::new();
    let mut modifier: i32 = 0;
    let mut checkon: Option<String> = None;
    let n = parts.len();
    let mut i: usize = 0;
    while i < n
        invariant
            n == t.len(),
            parts.deep_view() == t,
            i <= n,
            scan_dice(t, i as int, dice_to_roll@) == scan_dice(t, 0, Seq::empty()),
            scan_modifier(t, i as int, modifier as int) == scan_modifier(t, 0, 0),
            modifiers_fit(t, i as int, modifier as int),
            scan_checkon(t, i as int, checkon.deep_view()) == scan_checkon(t, 0, None),
        decreases n - i,
    {
        let part = parts[i].as_str();
        assert(part@ == t[i as int]);
        proof {
            lemma_fits_step(t, i as int, modifier as int);
        }
        proof {
            reveal_strlit("--dice");
            reveal_strlit("-d");
            reveal_strlit("--checkon");
            reveal_strlit("--modifier");
            reveal_strlit("-m");
            assert("--dice"@.len() == 6 && "-d"@.len() == 2 && "--checkon"@.len() == 9);
            assert("--modifier"@.len() == 10 && "-m"@.len() == 2 && "-d"@[1] != "-m"@[1]);
        }
        if str_eq(part, "--dice") || str_eq(part, "-d") {
            if i + 1 < n {
                i = i + 1;
                let arg = parts[i].as_str();
                assert(arg@ == t[i as int]);
                match parse_dice_str(arg) {
                    Some((count, die)) => {
                        push_dice(&mut dice_to_roll, count, die);
                    },
                    None => {},
                }
            }
        } else if str_eq(part, "--checkon") {
            if i + 1 < n {
                i = i + 1;
                checkon = Some(String::from_str(parts[i].as_str()));
            }
        } else if str_eq(part, "--modifier") || str_eq(part, "-m") {
            if i + 1 < n {
                i = i + 1;
                let arg = parts[i].as_str();
                assert(arg@ == t[i as int]);
                match parse_i32(arg) {
                    Some(m) => {
                        modifier = modifier + m;
                    },
                    None => {},
                }
            }
        } else if crate::dice::find(part, 'd').is_some() && !(part.unicode_len() > 0 && part.get_char(0) == '-') {
            proof {
                crate::dice::lemma_find_char(part@, 'd');
            }
            match parse_dice_str(part) {
                Some((count, die)) => {
                    push_dice(&mut dice_to_roll, count, die);
                },
                None => {},
            }
        } else {
            proof {
                crate::dice::lemma_find_char(part@, 'd');
            }
        }
        i = i + 1;
        assert(modifiers_fit(t, i as int, modifier as int));
    }
    let ghost base = modifier as int;
    assert(base == scan_modifier(t, 0, 0));
    let mut modifier_name = String::new();
    match checkon {
        Some(check) => {
            let check_lower = to_lowercase(check.as_str());
            match character_data.get_skill_modifier(check_lower.as_str()) {
                Some(skill_mod) => {
                    proof {
                        let s = character_data.sheet->Some_0.deep_view();
                        let o = choose|o| #[trigger]
                            skill_lookup(s.skills, check_lower@, o) && Some(skill_mod) == (match o {
                                Some(v) => Some(v.modifier),
                                None => None::<i32>,
                            });
                        let v = o->Some_0;
                        lemma_skill_found(s.skills, check_lower@, v);
                        let k = choose|k: int| 0 <= k < s.skills.len() && #[trigger] s.skills[k].1 == v;
                        assert(fits_i32(base + s.skills[k].1.modifier));
                    }
                    modifier = modifier + skill_mod;
                    modifier_name = check;
                },
                None => match character_data.get_ability_modifier(check_lower.as_str()) {
                    Some(ability_mod) => {
                        modifier = modifier + ability_mod;
                        modifier_name = check;
                        push_str(&mut modifier_name, " check");
                    },
                    None => match character_data.get_saving_throw_modifier(check_lower.as_str()) {
                        Some(save_mod) => {
                            modifier = modifier + save_mod;
                            modifier_name = check;
                            push_str(&mut modifier_name, " save");
                        },
                        None => {
                            modifier_name = check;
                        },
                    },
                },
            }
        },
        None => {},
    }
    if dice_to_roll.len() == 0 {
        dice_to_roll.push(DiceType::D20);
        assert(dice_to_roll@ =~= seq![DiceType::D20]);
    }
    Some(DiceConfig { dice_to_roll, modifier, modifier_name })
}

// ---------------------------------------------------------------------------
// Command history
// ---------------------------------------------------------------------------

/// The commands entered so far, oldest first, and the one last picked from
/// the list.
pub struct CommandHistory {
    pub commands: Vec<String>,
    pub selected_index: Option<usize>,
}

/// The history after entering `cmd`: it is appended unless it is blank or
/// already in the history.
pub open spec fn spec_add_command(h: Seq<Seq<char>>, cmd: Seq<char>) -> Seq<Seq<char>> {
    if trim_seq(cmd).len() > 0 && !h.contains(cmd) {
        h.push(cmd)
    } else {
        h
    }
}

/// Whether no entry is blank and no entry occurs twice.
pub open spec fn history_well_kept(h: Seq<Seq<char>>) -> bool {
    &&& forall|i: int| 0 <= i < h.len() ==> trim_seq(#[trigger] h[i]).len() > 0
    &&& forall|i: int, j: int| 0 <= i < j < h.len() ==> h[i] != h[j]
}

impl CommandHistory {
    /// An empty history with nothing picked.
    pub fn default() -> (r: CommandHistory)
        ensures
            r.commands@.len() == 0,
            r.selected_index is None,
    {
        CommandHistory { commands: Vec::new(), selected_index: None }
    }

    /// Records `cmd` unless it is blank or already recorded.
    pub fn add_command(&mut self, cmd: String)
        ensures
            final(self).commands.deep_view() == spec_add_command(old(self).commands.deep_view(), cmd@),
            final(self).selected_index == old(self).selected_index,
    {
        let ghost h = self.commands.deep_view();
        if is_blank(cmd.as_str()) {
            return;
        }
        let n = self.commands.len();
        let mut i: usize = 0;
        while i < n
            invariant
                n == self.commands@.len(),
                h == self.commands.deep_view(),
                i <= n,
                forall|k: int| 0 <= k < i ==> h[k] != cmd@,
            decreases n - i,
        {
            if str_eq(self.commands[i].as_str(), cmd.as_str()) {
                assert(h[i as int] == cmd@);
                return;
            }
            i = i + 1;
        }
        let ghost c = cmd@;
        self.commands.push(cmd);
        assert(self.commands.deep_view() =~= h.push(c));
    }
}

/// Entering commands keeps the history free of blank and repeated entries;
/// entering a command twice records it once; a non-blank command is in the
/// history afterwards.
pub proof fn law_history_entries_unique(h: Seq<Seq<char>>, cmd: Seq<char>)
    requires
        history_well_kept(h),
    ensures
        history_well_kept(spec_add_command(h, cmd)),
        spec_add_command(spec_add_command(h, cmd), cmd) == spec_add_command(h, cmd),
        trim_seq(cmd).len() > 0 ==> spec_add_command(h, cmd).contains(cmd),
        spec_add_command(h, cmd).len() <= h.len() + 1,
{
    let h2 = spec_add_command(h, cmd);
    if trim_seq(cmd).len() > 0 && !h.contains(cmd) {
        assert(h2[h.len() as int] == cmd);
        assert forall|i: int, j: int| 0 <= i < j < h2.len() implies h2[i] != h2[j] by {
            if j == h.len() {
                assert(h[i] != cmd);
            }
        }
    }
    if trim_seq(cmd).len() > 0 {
        if h.contains(cmd) {
            let i = choose|i: int| 0 <= i < h.len() && h[i] == cmd;
            assert(h2[i] == cmd);
        }
        assert(h2.contains(cmd));
    }
}

/// The text being typed as a command and whether the field is active.
pub struct CommandInput {
    pub text: String,
    pub active: bool,
}

impl CommandInput {
    /// Empty and inactive.
    pub fn default() -> (r: CommandInput)
        ensures
            r.text@.len() == 0,
            !r.active,
    {
        CommandInput { text: String::new(), active: false }
    }
}

/// Submits a typed command: surrounding whitespace is dropped; a blank
/// command does nothing; otherwise the command is read (see
/// `config_matches`) and recorded in the history.
pub fn submit_command(history: &mut CommandHistory, raw: &str, character_data: &CharacterData) -> (r: Option<DiceConfig>)
    requires
        command_fits(trim_seq(raw@), sheet_model(character_data)),
    ensures
        r is None <==> trim_seq(raw@).len() == 0,
        r is None ==> *final(history) == *old(history),
        r matches Some(c) ==> config_matches(trim_seq(raw@), sheet_model(character_data), c)
            && final(history).commands.deep_view() == spec_add_command(
            old(history).commands.deep_view(),
            trim_seq(raw@),
        ) && final(history).selected_index == old(history).selected_index,
{
    let cmd = trim(raw);
    if cmd.unicode_len() == 0 {
        return None;
    }
    proof {
        crate::text::lemma_tokens_of_trimmed(raw@);
    }
    match parse_command(cmd, character_data) {
        Some(config) => {
            history.add_command(String::from_str(cmd));
            Some(config)
        },
        None => None,
    }
}

/// Rolls the command at `index` of the history again and marks it picked;
/// nothing happens for an index past the end.
pub fn rerun_history_command(history: &mut CommandHistory, index: usize, character_data: &CharacterData) -> (r: Option<DiceConfig>)
    requires
        index < old(history).commands@.len() ==> command_fits(
            old(history).commands@[index as int]@,
            sheet_model(character_data),
        ),
    ensures
        final(history).commands == old(history).commands,
        index >= old(history).commands@.len() ==> r is None && final(history).selected_index == old(history).selected_index,
        index < old(history).commands@.len() ==> {
            let cmd = old(history).commands@[index as int]@;
            &&& final(history).selected_index == Some(index)
            &&& (r is None <==> ws_tokens(cmd).len() == 0)
            &&& r matches Some(c) ==> config_matches(cmd, sheet_model(character_data), c)
        },
{
    if index >= history.commands.len() {
        return None;
    }
    history.selected_index = Some(index);
    parse_command(history.commands[index].as_str(), character_data)
}

/// The label of history entry `i` (counted from 0): "<i + 1>: <command>".
pub open spec fn history_label(i: int, cmd: Seq<char>) -> Seq<char> {
    dec_seq(i + 1) + ": "@ + cmd
}

/// The entries shown in the history list: the newest first, at most 30, each
/// with its index and label.
pub fn history_labels(history: &CommandHistory) -> (r: Vec<(usize, String)>)
    ensures
        r@.len() == (if history.commands@.len() < 30 { history.commands@.len() } else { 30 }),
        forall|k: int|
            0 <= k < r@.len() ==> {
                let i = history.commands@.len() - 1 - k;
                &&& (#[trigger] r@[k]).0 == i
                &&& r@[k].1@ == history_label(i, history.commands@[i]@)
            },
{
    let n = history.commands.len();
    let mut out: Vec<(usize, String)> = Vec::new();
    let mut k: usize = 0;
    while k < n && k < 30
        invariant
            n == history.commands@.len(),
            k <= n,
            k <= 30,
            out@.len() == k,
            forall|j: int|
                0 <= j < k ==> {
                    let i = n - 1 - j;
                    &&& (#[trigger] out@[j]).0 == i
                    &&& out@[j].1@ == history_label(i, history.commands@[i]@)
                },
        decreases n - k,
    {
        let i = n - 1 - k;
        let mut label = String::new();
        push_usize(&mut label, i + 1);
        push_str(&mut label, ": ");
        push_str(&mut label, history.commands[i].as_str());
        assert(label@ =~= history_label(i as int, history.commands@[i as int]@));
        out.push((i, label));
        k = k + 1;
    }
    out
}

// ---------------------------------------------------------------------------
// Names on buttons and quick rolls
// ---------------------------------------------------------------------------

/// A character of a camel-case name as shown: an uppercase letter gets a
/// space before it.
pub open spec fn spaced_char(c: char) -> Seq<char> {
    if uppercase_char(c) {
        seq![' ', c]
    } else {
        seq![c]
    }
}

/// The characters of `s` as shown (see `spaced_char`).
pub open spec fn spaced(s: Seq<char>) -> Seq<char>
    decreases s.len(),
{
    if s.len() == 0 {
        Seq::empty()
    } else {
        spaced(s.drop_last()) + spaced_char(s.last())
    }
}

/// A camel-case skill name as shown: the first letter in ASCII uppercase, a
/// space before each later uppercase letter (`sleightOfHand` is shown as
/// `Sleight Of Hand`).
pub open spec fn spec_format_skill_name(s: Seq<char>) -> Seq<char> {
    if s.len() == 0 {
        Seq::empty()
    } else {
        seq![ascii_upper(s[0])] + spaced(s.drop_first())
    }
}

/// Formats a camel-case skill name for display (see `spec_format_skill_name`).
pub fn format_skill_name(name: &str) -> (r: String)
    ensures
        r@ == spec_format_skill_name(name@),
{
    let n = name.unicode_len();
    let mut out = String::new();
    if n == 0 {
        return out;
    }
    push_char(&mut out, to_ascii_uppercase(name.get_char(0)));
    let ghost tail = name@.drop_first();
    let mut i: usize = 1;
    assert(tail.take(0) =~= Seq::<char>::empty());
    while i < n
        invariant
            n == name@.len(),
            tail == name@.drop_first(),
            1 <= i <= n,
            out@ == seq![ascii_upper(name@[0])] + spaced(tail.take(i - 1)),
        decreases n - i,
    {
        let c = name.get_char(i);
        assert(tail.take(i as int).drop_last() =~= tail.take(i - 1));
        assert(tail.take(i as int).last() == c);
        if is_uppercase(c) {
            push_char(&mut out, ' ');
            push_char(&mut out, c);
        } else {
            push_char(&mut out, c);
        }
        assert(out@ =~= seq![ascii_upper(name@[0])] + spaced(tail.take(i as int)));
        i = i + 1;
    }
    assert(tail.take(n - 1) =~= tail);
    out
}

/// `s` with its first character in ASCII uppercase.
pub open spec fn capitalize_first(s: Seq<char>) -> Seq<char> {
    if s.len() == 0 {
        s
    } else {
        seq![ascii_upper(s[0])] + s.drop_first()
    }
}

fn capitalize(s: &str) -> (r: String)
    ensures
        r@ == capitalize_first(s@),
{
    let n = s.unicode_len();
    let mut out = String::new();
    if n == 0 {
        return out;
    }
    push_char(&mut out, to_ascii_uppercase(s.get_char(0)));
    push_str(&mut out, s.substring_char(1, n));
    assert(out@ =~= capitalize_first(s@));
    out
}

/// What a quick-roll button rolls for: a skill, an ability check or a saving
/// throw, by name.
pub enum QuickRollType {
    Skill(String),
    AbilityCheck(String),
    SavingThrow(String),
}

/// Whether the name of an ability check or saving throw can be shown: it
/// starts with an ASCII character.
pub open spec fn quick_roll_name_ok(t: QuickRollType) -> bool {
    match t {
        QuickRollType::Skill(_) => true,
        QuickRollType::AbilityCheck(n) => n@.len() > 0 && (n@[0] as u32) < 128,
        QuickRollType::SavingThrow(n) => n@.len() > 0 && (n@[0] as u32) < 128,
    }
}

/// The modifier name a quick roll shows.
pub open spec fn quick_roll_label(t: QuickRollType) -> Seq<char> {
    match t {
        QuickRollType::Skill(n) => capitalize_first(n@),
        QuickRollType::AbilityCheck(n) => capitalize_first(n@) + " check"@,
        QuickRollType::SavingThrow(n) => capitalize_first(n@) + " save"@,
    }
}

/// Whether `m` is the modifier a quick roll takes from the character: the
/// skill's, the ability's or the saving throw's as the character lookups
/// give it, 0 when there is none.
pub open spec fn quick_roll_modifier(sheet: Option<CharacterSheetModel>, t: QuickRollType, m: i32) -> bool {
    match sheet {
        None => m == 0,
        Some(s) => match t {
            QuickRollType::Skill(n) => exists|o: Option<SkillModel>|
                #[trigger] skill_lookup(s.skills, n@, o) && m == (match o {
                    Some(v) => v.modifier,
                    None => 0i32,
                }),
            QuickRollType::AbilityCheck(n) => ability_lookup(s, n@, m),
            QuickRollType::SavingThrow(n) => exists|o: Option<SavingThrowModel>|
                #[trigger] save_lookup(s.saving_throws, n@, o) && m == (match o {
                    Some(v) => v.modifier,
                    None => 0i32,
                }),
        },
    }
}

/// The history entry of a quick roll: "1d<faces> --checkon <label>
/// (<signed modifier>)".
pub open spec fn quick_roll_entry(die: DiceType, label: Seq<char>, m: i32) -> Seq<char> {
    "1d"@ + dec_seq(spec_max_value(die) as int) + " --checkon "@ + label + " ("@ + (if m >= 0 {
        "+"@
    } else {
        Seq::<char>::empty()
    }) + dec_seq(m as int) + ")"@
}

/// Sets up a quick roll of one `die` for a skill, ability check or saving
/// throw: the modifier comes from the character, the name is shown
/// capitalised, and the roll is recorded in the history.
pub fn quick_roll(history: &mut CommandHistory, roll_type: &QuickRollType, character_data: &CharacterData, die: DiceType) -> (r: DiceConfig)
    requires
        quick_roll_name_ok(*roll_type),
        sheet_model(character_data) matches Some(s) ==> (roll_type matches QuickRollType::AbilityCheck(n)
            ==> ability_lookup_fits(s, n@)),
    ensures
        r.dice_to_roll@ == seq![die],
        quick_roll_modifier(sheet_model(character_data), *roll_type, r.modifier),
        r.modifier_name@ == quick_roll_label(*roll_type),
        final(history).commands.deep_view() == spec_add_command(
            old(history).commands.deep_view(),
            quick_roll_entry(die, r.modifier_name@, r.modifier),
        ),
        final(history).selected_index == old(history).selected_index,
{
    let (modifier, modifier_name) = match roll_type {
        QuickRollType::Skill(name) => {
            let found = character_data.get_skill_modifier(name.as_str());
            let m = match found {
                Some(v) => v,
                None => 0,
            };
            proof {
                if character_data.sheet is Some {
                    let s = character_data.sheet->Some_0.deep_view();
                    let o = choose|o: Option<SkillModel>|
                        skill_lookup(s.skills, name@, o) && found == (match o {
                            Some(v) => Some(v.modifier),
                            None => None::<i32>,
                        });
                    assert(skill_lookup(s.skills, name@, o) && m == (match o {
                        Some(v) => v.modifier,
                        None => 0i32,
                    }));
                }
            }
            (m, capitalize(name.as_str()))
        },
        QuickRollType::AbilityCheck(name) => {
            let m = match character_data.get_ability_modifier(name.as_str()) {
                Some(v) => v,
                None => 0,
            };
            let mut label = capitalize(name.as_str());
            push_str(&mut label, " check");
            (m, label)
        },
        QuickRollType::SavingThrow(name) => {
            let found = character_data.get_saving_throw_modifier(name.as_str());
            let m = match found {
                Some(v) => v,
                None => 0,
            };
            proof {
                if character_data.sheet is Some {
                    let s = character_data.sheet->Some_0.deep_view();
                    let o = choose|o: Option<SavingThrowModel>|
                        save_lookup(s.saving_throws, name@, o) && found == (match o {
                            Some(v) => Some(v.modifier),
                            None => None::<i32>,
                        });
                    assert(save_lookup(s.saving_throws, name@, o) && m == (match o {
                        Some(v) => v.modifier,
                        None => 0i32,
                    }));
                }
            }
            let mut label = capitalize(name.as_str());
            push_str(&mut label, " save");
            (m, label)
        },
    };
    let mut entry = String::from_str("1d");
    push_int(&mut entry, die.max_value() as i64);
    push_str(&mut entry, " --checkon ");
    push_str(&mut entry, modifier_name.as_str());
    push_str(&mut entry, " (");
    if modifier >= 0 {
        push_str(&mut entry, "+");
    }
    push_int(&mut entry, modifier as i64);
    push_str(&mut entry, ")");
    proof {
        reveal_strlit("1d");
    }
    assert(entry@ =~= quick_roll_entry(die, modifier_name@, modifier));
    history.add_command(entry);
    let mut dice_to_roll: Vec<DiceType> = Vec::new();
    dice_to_roll.push(die);
    assert(dice_to_roll@ =~= seq![die]);
    DiceConfig { dice_to_roll, modifier, modifier_name }
}

// ---------------------------------------------------------------------------
// The roll asked for on the command line
// ---------------------------------------------------------------------------

/// What the command line asks to roll: dice, a check (by name), or a skill,
/// ability or saving throw rolled on one D20, plus a modifier.
pub struct CliRequest {
    pub dice: Option<Vec<(usize, DiceType)>>,
    pub checkon: Option<String>,
    pub skill: Option<String>,
    pub ability: Option<String>,
    pub save: Option<String>,
    pub modifier: i32,
}

/// The roll to make, and a warning to print when a name was not found on
/// the character.
pub struct CliRoll {
    pub config: DiceConfig,
    pub warning: Option<String>,
}

/// The dice `count d die` arguments name, in order.
pub open spec fn dice_of(args: Seq<(usize, DiceType)>) -> Seq<DiceType>
    decreases args.len(),
{
    if args.len() == 0 {
        Seq::empty()
    } else {
        dice_of(args.drop_last()) + repeat_die(args.last().1, args.last().0 as nat)
    }
}

/// `dice`, or one D20 when it is empty.
pub open spec fn or_d20(dice: Seq<DiceType>) -> Seq<DiceType> {
    if dice.len() == 0 {
        seq![DiceType::D20]
    } else {
        dice
    }
}

/// The text of an optional string.
pub open spec fn opt_seq(o: Option<String>) -> Option<Seq<char>> {
    match o {
        Some(s) => Some(s@),
        None => None,
    }
}

/// The dice of optional dice arguments.
pub open spec fn requested_dice(d: Option<Vec<(usize, DiceType)>>) -> Seq<DiceType> {
    match d {
        Some(v) => dice_of(v@),
        None => Seq::empty(),
    }
}

/// The warning for a check that the character does not have.
pub open spec fn check_warning(check: Seq<char>) -> Seq<char> {
    "Warning: '"@ + check + "' not found in character sheet"@
}

/// The warning for a skill that the character does not have.
pub open spec fn skill_warning(name: Seq<char>) -> Seq<char> {
    "Warning: Skill '"@ + name + "' not found in character sheet"@
}

/// The warning for an ability that the character does not have.
pub open spec fn ability_warning(name: Seq<char>) -> Seq<char> {
    "Warning: Ability '"@ + name + "' not found in character sheet"@
}

/// The warning for a saving throw that the character does not have.
pub open spec fn save_warning(name: Seq<char>) -> Seq<char> {
    "Warning: Saving throw '"@ + name + "' not found in character sheet"@
}

/// Whether the command line's request stays within `i32` once the
/// character's modifier is added: the first of check, skill, ability and
/// saving throw that is given decides which entry is read.
pub open spec fn cli_request_fits(
    checkon: Option<Seq<char>>,
    skill: Option<Seq<char>>,
    ability: Option<Seq<char>>,
    save: Option<Seq<char>>,
    base: int,
    s: CharacterSheetModel,
) -> bool {
    if checkon is Some {
        check_fits(base, s, checkon->Some_0)
    } else if skill is Some {
        skill_fits(base, s.skills, skill->Some_0)
    } else if ability is Some {
        ability_fits(base, s, ability->Some_0)
    } else if save is Some {
        save_fits(base, s.saving_throws, save->Some_0)
    } else {
        true
    }
}

/// The outcome of a `--checkon`: see `checkon_result`; without a character,
/// nothing is added and a warning is given.
pub open spec fn cli_check_outcome(check: Seq<char>, base: int, sheet: Option<CharacterSheetModel>, m: int, name: Seq<char>, warning: Option<Seq<char>>) -> bool {
    match sheet {
        None => m == base && name == check && warning == Some(check_warning(check)),
        Some(s) => warning is None && checkon_result(Some(s), check, base, m, name),
    }
}

/// The outcome of a `--skill`: the skill's modifier under "<skill> skill",
/// or a warning.
pub open spec fn cli_skill_outcome(sk: Seq<char>, base: int, sheet: Option<CharacterSheetModel>, m: int, name: Seq<char>, warning: Option<Seq<char>>) -> bool {
    match sheet {
        None => m == base && name == sk && warning == Some(skill_warning(sk)),
        Some(s) => exists|o: Option<SkillModel>|
            #[trigger] skill_lookup(s.skills, sk, o) && match o {
                Some(v) => m == base + v.modifier && name == sk + " skill"@ && warning is None,
                None => m == base && name == sk && warning == Some(skill_warning(sk)),
            },
    }
}

/// The outcome of an `--ability`: the ability's modifier under
/// "<ability> check", or a warning without a character.
pub open spec fn cli_ability_outcome(ab: Seq<char>, base: int, sheet: Option<CharacterSheetModel>, m: int, name: Seq<char>, warning: Option<Seq<char>>) -> bool {
    match sheet {
        None => m == base && name == ab && warning == Some(ability_warning(ab)),
        Some(s) => warning is None && name == ab + " check"@ && exists|a: i32| #[trigger] ability_lookup(s, ab, a) && m == base + a,
    }
}

/// The outcome of a `--save`: the saving throw's modifier under
/// "<save> save", or a warning.
pub open spec fn cli_save_outcome(sv: Seq<char>, base: int, sheet: Option<CharacterSheetModel>, m: int, name: Seq<char>, warning: Option<Seq<char>>) -> bool {
    match sheet {
        None => m == base && name == sv && warning == Some(save_warning(sv)),
        Some(s) => exists|o: Option<SavingThrowModel>|
            #[trigger] save_lookup(s.saving_throws, sv, o) && match o {
                Some(v) => m == base + v.modifier && name == sv + " save"@ && warning is None,
                None => m == base && name == sv && warning == Some(save_warning(sv)),
            },
    }
}

/// Whether `(m, name, warning)` is what the command line's request gives
/// for the modifier and its name: the first of check, skill, ability and
/// saving throw that is given decides; with none, the modifier alone.
pub open spec fn cli_outcome(
    checkon: Option<Seq<char>>,
    skill: Option<Seq<char>>,
    ability: Option<Seq<char>>,
    save: Option<Seq<char>>,
    base: int,
    sheet: Option<CharacterSheetModel>,
    m: int,
    name: Seq<char>,
    warning: Option<Seq<char>>,
) -> bool {
    if checkon is Some {
        cli_check_outcome(checkon->Some_0, base, sheet, m, name, warning)
    } else if skill is Some {
        cli_skill_outcome(skill->Some_0, base, sheet, m, name, warning)
    } else if ability is Some {
        cli_ability_outcome(ability->Some_0, base, sheet, m, name, warning)
    } else if save is Some {
        cli_save_outcome(save->Some_0, base, sheet, m, name, warning)
    } else {
        m == base && name.len() == 0 && warning is None
    }
}

/// The dice a command-line request rolls: its dice when it names a check or
/// nothing else, one D20 for a skill, ability or saving throw; one D20 when
/// that leaves none.
pub open spec fn cli_dice(req: &CliRequest) -> Seq<DiceType> {
    if req.checkon is None && (req.skill is Some || req.ability is Some || req.save is Some) {
        seq![DiceType::D20]
    } else {
        or_d20(requested_dice(req.dice))
    }
}

fn push_requested_dice(out: &mut Vec<DiceType>, args: &Vec<(usize, DiceType)>)
    ensures
        final(out)@ == old(out)@ + dice_of(args@),
{
    let n = args.len();
    let mut i: usize = 0;
    assert(args@.take(0) =~= Seq::<(usize, DiceType)>::empty());
    assert(old(out)@ + dice_of(args@.take(0)) =~= old(out)@);
    while i < n
        invariant
            n == args@.len(),
            i <= n,
            out@ == old(out)@ + dice_of(args@.take(i as int)),
        decreases n - i,
    {
        let (count, die) = args[i];
        push_dice(out, count, die);
        assert(args@.take(i + 1).drop_last() =~= args@.take(i as int));
        assert(out@ =~= old(out)@ + dice_of(args@.take(i + 1)));
        i = i + 1;
    }
    assert(args@.take(n as int) =~= args@);
}

/// `s` without its trailing copies of `p`.
pub open spec fn strip_suffixes(s: Seq<char>, p: Seq<char>) -> Seq<char>
    decreases s.len(),
{
    if p.len() > 0 && p.len() <= s.len() && s.skip(s.len() - p.len()) == p {
        strip_suffixes(s.take(s.len() - p.len()), p)
    } else {
        s
    }
}

fn ends_with(s: &str, p: &str) -> (r: bool)
    ensures
        r == (p@.len() <= s@.len() && s@.skip(s@.len() - p@.len()) == p@),
{
    let n = s.unicode_len();
    let m = p.unicode_len();
    if m > n {
        return false;
    }
    let tail = s.substring_char(n - m, n);
    assert(tail@ =~= s@.skip(n - m));
    str_eq(tail, p)
}

fn strip_all_suffixes<'a>(s: &'a str, p: &str) -> (r: &'a str)
    ensures
        r@ == strip_suffixes(s@, p@),
{
    let mut cur = s;
    let m = p.unicode_len();
    if m == 0 {
        return cur;
    }
    while ends_with(cur, p)
        invariant
            m == p@.len(),
            m > 0,
            strip_suffixes(cur@, p@) == strip_suffixes(s@, p@),
        decreases cur@.len(),
    {
        let n = cur.unicode_len();
        cur = cur.substring_char(0, n - m);
    }
    cur
}

/// Decides what the command line rolls: the dice, the modifier with the
/// character's modifier for a check, skill, ability or saving throw added,
/// its name, and a warning when the name is not found (see `cli_outcome`).
pub fn cli_dice_config(req: &CliRequest, character_data: &CharacterData) -> (r: CliRoll)
    requires
        sheet_model(character_data) matches Some(s) ==> cli_request_fits(
            opt_seq(req.checkon),
            opt_seq(req.skill),
            opt_seq(req.ability),
            opt_seq(req.save),
            req.modifier as int,
            s,
        ),
    ensures
        r.config.dice_to_roll@ == cli_dice(req),
        req.checkon is Some ==> r.config.dice_to_roll@ == or_d20(requested_dice(req.dice)),
        req.checkon is None && (req.skill is Some || req.ability is Some || req.save is Some)
            ==> r.config.dice_to_roll@ == seq![DiceType::D20],
        cli_outcome(
            opt_seq(req.checkon),
            opt_seq(req.skill),
            opt_seq(req.ability),
            opt_seq(req.save),
            req.modifier as int,
            sheet_model(character_data),
            r.config.modifier as int,
            r.config.modifier_name@,
            opt_seq(r.warning),
        ),
{
    let ghost base = req.modifier as int;
    let mut dice_to_roll: Vec<DiceType> = Vec::new();
    let mut modifier = req.modifier;
    let mut modifier_name = String::new();
    let mut warning: Option<String> = None;
    if let Some(check) = &req.checkon {
        let check_lower = to_lowercase(check.as_str());
        match character_data.get_skill_modifier(check_lower.as_str()) {
            Some(skill_mod) => {
                proof {
                    let s = character_data.sheet->Some_0.deep_view();
                    let o = choose|o| #[trigger]
                        skill_lookup(s.skills, check_lower@, o) && Some(skill_mod) == (match o {
                            Some(v) => Some(v.modifier),
                            None => None::<i32>,
                        });
                    let v = o->Some_0;
                    lemma_skill_found(s.skills, check_lower@, v);
                    let k = choose|k: int| 0 <= k < s.skills.len() && #[trigger] s.skills[k].1 == v;
                    assert(fits_i32(base + s.skills[k].1.modifier));
                    assert(skill_lookup(s.skills, check_lower@, o) && checked_with(s, check_lower@, check@, base, base + skill_mod, check@, o));
                }
                modifier = modifier + skill_mod;
                modifier_name = check.clone();
            },
            None => match character_data.get_ability_modifier(check_lower.as_str()) {
                Some(ability_mod) => {
                    proof {
                        let s = character_data.sheet->Some_0.deep_view();
                        let o = choose|o: Option<SkillModel>| #[trigger]
                            skill_lookup(s.skills, check_lower@, o) && None::<i32> == (match o {
                                Some(v) => Some(v.modifier),
                                None => None::<i32>,
                            });
                        assert(ability_lookup(s, check_lower@, ability_mod));
                        assert(checked_with(s, check_lower@, check@, base, base + ability_mod, check@ + " check"@, o));
                    }
                    modifier = modifier + ability_mod;
                    modifier_name = check.clone();
                    push_str(&mut modifier_name, " check");
                },
                None => {
                    if ends_with(check_lower.as_str(), " save") || ends_with(check_lower.as_str(), " saving") {
                        let save_name = trim(strip_all_suffixes(strip_all_suffixes(check_lower.as_str(), " save"), " saving"));
                        match character_data.get_saving_throw_modifier(save_name) {
                            Some(save_mod) => {
                                modifier = modifier + save_mod;
                                modifier_name = String::from_str(save_name);
                                push_str(&mut modifier_name, " save");
                            },
                            None => {
                                modifier_name = check.clone();
                                let mut w = String::from_str("Warning: '");
                                push_str(&mut w, check.as_str());
                                push_str(&mut w, "' not found in character sheet");
                                warning = Some(w);
                            },
                        }
                    } else {
                        match character_data.get_saving_throw_modifier(check_lower.as_str()) {
                            Some(save_mod) => {
                                modifier = modifier + save_mod;
                                modifier_name = check.clone();
                                push_str(&mut modifier_name, " save");
                            },
                            None => {
                                modifier_name = check.clone();
                                let mut w = String::from_str("Warning: '");
                                push_str(&mut w, check.as_str());
                                push_str(&mut w, "' not found in character sheet");
                                warning = Some(w);
                            },
                        }
                    }
                },
            },
        }
        if let Some(args) = &req.dice {
            push_requested_dice(&mut dice_to_roll, args);
        }
    } else if let Some(skill) = &req.skill {
        dice_to_roll.push(DiceType::D20);
        let found = character_data.get_skill_modifier(skill.as_str());
        match found {
            Some(skill_mod) => {
                proof {
                    let s = character_data.sheet->Some_0.deep_view();
                    let o = choose|o| #[trigger]
                        skill_lookup(s.skills, skill@, o) && Some(skill_mod) == (match o {
                            Some(v) => Some(v.modifier),
                            None => None::<i32>,
                        });
                    let v = o->Some_0;
                    lemma_skill_found(s.skills, skill@, v);
                    let k = choose|k: int| 0 <= k < s.skills.len() && #[trigger] s.skills[k].1 == v;
                    assert(fits_i32(base + s.skills[k].1.modifier));
                    assert(skill_lookup(s.skills, skill@, o) && o is Some && v.modifier == skill_mod);
                }
                modifier = modifier + skill_mod;
                modifier_name = skill.clone();
                push_str(&mut modifier_name, " skill");
            },
            None => {
                proof {
                    if character_data.sheet is Some {
                        let s = character_data.sheet->Some_0.deep_view();
                        let o = choose|o: Option<SkillModel>| #[trigger]
                            skill_lookup(s.skills, skill@, o) && None::<i32> == (match o {
                                Some(v) => Some(v.modifier),
                                None => None::<i32>,
                            });
                        assert(skill_lookup(s.skills, skill@, o) && o is None);
                    }
                }
                modifier_name = skill.clone();
                let mut w = String::from_str("Warning: Skill '");
                push_str(&mut w, skill.as_str());
                push_str(&mut w, "' not found in character sheet");
                warning = Some(w);
            },
        }
    } else if let Some(ability) = &req.ability {
        dice_to_roll.push(DiceType::D20);
        match character_data.get_ability_modifier(ability.as_str()) {
            Some(ability_mod) => {
                modifier = modifier + ability_mod;
                modifier_name = ability.clone();
                push_str(&mut modifier_name, " check");
            },
            None => {
                modifier_name = ability.clone();
                let mut w = String::from_str("Warning: Ability '");
                push_str(&mut w, ability.as_str());
                push_str(&mut w, "' not found in character sheet");
                warning = Some(w);
            },
        }
    } else if let Some(save) = &req.save {
        dice_to_roll.push(DiceType::D20);
        let found = character_data.get_saving_throw_modifier(save.as_str());
        match found {
            Some(save_mod) => {
                proof {
                    let s = character_data.sheet->Some_0.deep_view();
                    let o = choose|o| #[trigger]
                        save_lookup(s.saving_throws, save@, o) && Some(save_mod) == (match o {
                            Some(v) => Some(v.modifier),
                            None => None::<i32>,
                        });
                    let v = o->Some_0;
                    let k = choose|k: int| 0 <= k < s.saving_throws.len() && #[trigger] s.saving_throws[k].1 == v;
                    assert(fits_i32(base + s.saving_throws[k].1.modifier));
                    assert(save_lookup(s.saving_throws, save@, o) && o is Some && v.modifier == save_mod);
                }
                modifier = modifier + save_mod;
                modifier_name = save.clone();
                push_str(&mut modifier_name, " save");
            },
            None => {
                proof {
                    if character_data.sheet is Some {
                        let s = character_data.sheet->Some_0.deep_view();
                        let o = choose|o: Option<SavingThrowModel>| #[trigger]
                            save_lookup(s.saving_throws, save@, o) && None::<i32> == (match o {
                                Some(v) => Some(v.modifier),
                                None => None::<i32>,
                            });
                        assert(save_lookup(s.saving_throws, save@, o) && o is None);
                    }
                }
                modifier_name = save.clone();
                let mut w = String::from_str("Warning: Saving throw '");
                push_str(&mut w, save.as_str());
                push_str(&mut w, "' not found in character sheet");
                warning = Some(w);
            },
        }
    } else if let Some(args) = &req.dice {
        push_requested_dice(&mut dice_to_roll, args);
    }
    if dice_to_roll.len() == 0 {
        dice_to_roll.push(DiceType::D20);
        assert(dice_to_roll@ =~= seq![DiceType::D20]);
    }
    CliRoll { config: DiceConfig { dice_to_roll, modifier, modifier_name }, warning }
}

/// The dice of a command-line roll: with a check (`--checkon`), exactly the
/// requested dice in order, each `NdM` giving `N` dice of `M` faces, or one
/// D20 when none are requested; with a skill, ability or saving throw and no
/// check, one D20 whatever dice are requested; with none of these, the
/// requested dice, or one D20.
pub proof fn law_cli_dice(req: &CliRequest)
    ensures
        req.checkon is Some ==> {
            &&& requested_dice(req.dice).len() > 0 ==> cli_dice(req) == requested_dice(req.dice)
            &&& requested_dice(req.dice).len() == 0 ==> cli_dice(req) == seq![DiceType::D20]
        },
        req.checkon is None && (req.skill is Some || req.ability is Some || req.save is Some)
            ==> cli_dice(req) == seq![DiceType::D20],
        req.checkon is None && req.skill is None && req.ability is None && req.save is None ==> cli_dice(req)
            == (if requested_dice(req.dice).len() > 0 {
            requested_dice(req.dice)
        } else {
            seq![DiceType::D20]
        }),
        cli_dice(req).len() > 0,
{
}

/// Requested dice `NdM` add `N` dice of `M` faces each, after those requested
/// before them.
pub proof fn law_requested_dice_counts(args: Seq<(usize, DiceType)>, more: (usize, DiceType))
    ensures
        dice_of(args.push(more)).len() == dice_of(args).len() + more.0,
        dice_of(args.push(more)).take(dice_of(args).len() as int) == dice_of(args),
        forall|k: int|
            dice_of(args).len() <= k < dice_of(args.push(more)).len() ==> #[trigger] dice_of(args.push(more))[k]
                == more.1,
{
    assert(args.push(more).drop_last() =~= args);
    assert(dice_of(args.push(more)).take(dice_of(args).len() as int) =~= dice_of(args));
}

/// A quick ability check on a standard ability, named by abbreviation or
/// full name in any case, takes that ability's own stored modifier.
pub proof fn law_quick_ability_check_reads_own_field(s: CharacterSheetModel, n: String, m: i32)
    ensures
        (lowercase(n@) == "str"@ || lowercase(n@) == "strength"@) ==> (quick_roll_modifier(
            Some(s),
            QuickRollType::AbilityCheck(n),
            m,
        ) <==> m == s.modifiers.strength),
        (lowercase(n@) == "dex"@ || lowercase(n@) == "dexterity"@) ==> (quick_roll_modifier(
            Some(s),
            QuickRollType::AbilityCheck(n),
            m,
        ) <==> m == s.modifiers.dexterity),
        (lowercase(n@) == "con"@ || lowercase(n@) == "constitution"@) ==> (quick_roll_modifier(
            Some(s),
            QuickRollType::AbilityCheck(n),
            m,
        ) <==> m == s.modifiers.constitution),
        (lowercase(n@) == "int"@ || lowercase(n@) == "intelligence"@) ==> (quick_roll_modifier(
            Some(s),
            QuickRollType::AbilityCheck(n),
            m,
        ) <==> m == s.modifiers.intelligence),
        (lowercase(n@) == "wis"@ || lowercase(n@) == "wisdom"@) ==> (quick_roll_modifier(
            Some(s),
            QuickRollType::AbilityCheck(n),
            m,
        ) <==> m == s.modifiers.wisdom),
        (lowercase(n@) == "cha"@ || lowercase(n@) == "charisma"@) ==> (quick_roll_modifier(
            Some(s),
            QuickRollType::AbilityCheck(n),
            m,
        ) <==> m == s.modifiers.charisma),
{
    crate::character::law_standard_ability_reads_own_field(s, n@, m);
}

} // verus!
