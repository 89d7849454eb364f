//! Dice types, roll configuration and the `NdM` dice notation.
use vstd::prelude::*;
use vstd::string::*;

use crate::text::{dec_seq, nat_digits, lowercase, parse_usize, parse_usize_spec, push_char, push_str, str_eq, to_lowercase};

verus! {

/// All supported dice types.
#[derive(Clone, Copy, Debug, PartialEq, Eq, Hash, Structural)]
pub enum DiceType {
    D4,
    D6,
    D8,
    D10,
    D12,
    D20,
}

/// The number of faces (and the highest value) of a die.
pub open spec fn spec_max_value(d: DiceType) -> u32 {
    match d {
        DiceType::D4 => 4,
        DiceType::D6 => 6,
        DiceType::D8 => 8,
        DiceType::D10 => 10,
        DiceType::D12 => 12,
        DiceType::D20 => 20,
    }
}

/// The short name of a die: `D4` .. `D20`.
pub open spec fn spec_name(d: DiceType) -> Seq<char> {
    match d {
        DiceType::D4 => seq!['D', '4'],
        DiceType::D6 => seq!['D', '6'],
        DiceType::D8 => seq!['D', '8'],
        DiceType::D10 => seq!['D', '1', '0'],
        DiceType::D12 => seq!['D', '1', '2'],
        DiceType::D20 => seq!['D', '2', '0'],
    }
}

/// The die that an already-lowercased name denotes: exactly `d4`, `d6`, `d8`,
/// `d10`, `d12` or `d20`.
pub open spec fn spec_parse_lower(s: Seq<char>) -> Option<DiceType> {
    if s == seq!['d', '4'] {
        Some(DiceType::D4)
    } else if s == seq!['d', '6'] {
        Some(DiceType::D6)
    } else if s == seq!['d', '8'] {
        Some(DiceType::D8)
    } else if s == seq!['d', '1', '0'] {
        Some(DiceType::D10)
    } else if s == seq!['d', '1', '2'] {
        Some(DiceType::D12)
    } else if s == seq!['d', '2', '0'] {
        Some(DiceType::D20)
    } else {
        None
    }
}

/// The physical density of a die, in tenths: the D4 is the lightest and the
/// D20 the heaviest.
pub open spec fn spec_density_tenths(d: DiceType) -> u32 {
    match d {
        DiceType::D4 => 10,
        DiceType::D6 => 15,
        DiceType::D8 => 18,
        DiceType::D10 => 20,
        DiceType::D12 => 25,
        DiceType::D20 => 30,
    }
}

/// The mesh scale factor of a die, in hundredths (the D6 is the baseline 100).
pub open spec fn spec_scale_hundredths(d: DiceType) -> u32 {
    match d {
        DiceType::D4 => 90,
        DiceType::D6 => 100,
        DiceType::D8 => 100,
        DiceType::D10 => 105,
        DiceType::D12 => 110,
        DiceType::D20 => 120,
    }
}

/// The position of a die in display order (D4 first, D20 last).
pub open spec fn spec_rank(d: DiceType) -> int {
    match d {
        DiceType::D4 => 0,
        DiceType::D6 => 1,
        DiceType::D8 => 2,
        DiceType::D10 => 3,
        DiceType::D12 => 4,
        DiceType::D20 => 5,
    }
}

/// The dice types in display order.
pub open spec fn spec_all() -> Seq<DiceType> {
    seq![DiceType::D4, DiceType::D6, DiceType::D8, DiceType::D10, DiceType::D12, DiceType::D20]
}

/// The display name used by the dice designer, e.g. `D6 (Cube)`.
pub open spec fn spec_display_name(d: DiceType) -> Seq<char> {
    match d {
        DiceType::D4 => "D4 (Tetrahedron)"@,
        DiceType::D6 => "D6 (Cube)"@,
        DiceType::D8 => "D8 (Octahedron)"@,
        DiceType::D10 => "D10 (Trapezohedron)"@,
        DiceType::D12 => "D12 (Dodecahedron)"@,
        DiceType::D20 => "D20 (Icosahedron)"@,
    }
}

impl DiceType {
    /// The highest value the die can show.
    pub fn max_value(&self) -> (r: u32)
        ensures
            r == spec_max_value(*self),
    {
        match self {
            DiceType::D4 => 4,
            DiceType::D6 => 6,
            DiceType::D8 => 8,
            DiceType::D10 => 10,
            DiceType::D12 => 12,
            DiceType::D20 => 20,
        }
    }

    /// The number of faces of the die.
    pub fn face_count(&self) -> (r: u32)
        ensures
            r == spec_max_value(*self),
    {
        self.max_value()
    }

    /// The short name of the die, e.g. `D20`.
    pub fn name(&self) -> (r: &'static str)
        ensures
            r@ == spec_name(*self),
    {
        match self {
            DiceType::D4 => {
                proof {
                    reveal_strlit("D4");
                }
                "D4"
            },
            DiceType::D6 => {
                proof {
                    reveal_strlit("D6");
                }
                "D6"
            },
            DiceType::D8 => {
                proof {
                    reveal_strlit("D8");
                }
                "D8"
            },
            DiceType::D10 => {
                proof {
                    reveal_strlit("D10");
                }
                "D10"
            },
            DiceType::D12 => {
                proof {
                    reveal_strlit("D12");
                }
                "D12"
            },
            DiceType::D20 => {
                proof {
                    reveal_strlit("D20");
                }
                "D20"
            },
        }
    }

    /// The display name used by the dice designer, e.g. `D6 (Cube)`.
    pub fn display_name(&self) -> (r: &'static str)
        ensures
            r@ == spec_display_name(*self),
    {
        match self {
            DiceType::D4 => "D4 (Tetrahedron)",
            DiceType::D6 => "D6 (Cube)",
            DiceType::D8 => "D8 (Octahedron)",
            DiceType::D10 => "D10 (Trapezohedron)",
            DiceType::D12 => "D12 (Dodecahedron)",
            DiceType::D20 => "D20 (Icosahedron)",
        }
    }

    /// The die named by an already-lowercased string (`d4` .. `d20`).
    pub fn parse_lower(s: &str) -> (r: Option<DiceType>)
        ensures
            r == spec_parse_lower(s@),
    {
        proof {
            reveal_strlit("d4");
            reveal_strlit("d6");
            reveal_strlit("d8");
            reveal_strlit("d10");
            reveal_strlit("d12");
            reveal_strlit("d20");
            assert("d4"@ =~= seq!['d', '4']);
            assert("d6"@ =~= seq!['d', '6']);
            assert("d8"@ =~= seq!['d', '8']);
            assert("d10"@ =~= seq!['d', '1', '0']);
            assert("d12"@ =~= seq!['d', '1', '2']);
            assert("d20"@ =~= seq!['d', '2', '0']);
        }
        if str_eq(s, "d4") {
            Some(DiceType::D4)
        } else if str_eq(s, "d6") {
            Some(DiceType::D6)
        } else if str_eq(s, "d8") {
            Some(DiceType::D8)
        } else if str_eq(s, "d10") {
            Some(DiceType::D10)
        } else if str_eq(s, "d12") {
            Some(DiceType::D12)
        } else if str_eq(s, "d20") {
            Some(DiceType::D20)
        } else {
            None
        }
    }

    /// Parses a die name case-insensitively: `d20` and `D20` both give `D20`.
    pub fn parse(s: &str) -> (r: Option<DiceType>)
        ensures
            r == spec_parse_lower(lowercase(s@)),
    {
        let lower = to_lowercase(s);
        DiceType::parse_lower(lower.as_str())
    }

    /// The physical density in tenths (1.0 for the D4 up to 3.0 for the D20).
    pub fn density_tenths(&self) -> (r: u32)
        ensures
            r == spec_density_tenths(*self),
    {
        match self {
            DiceType::D4 => 10,
            DiceType::D6 => 15,
            DiceType::D8 => 18,
            DiceType::D10 => 20,
            DiceType::D12 => 25,
            DiceType::D20 => 30,
        }
    }

    /// The mesh scale factor in hundredths (0.90 for the D4 up to 1.20 for the D20).
    pub fn scale_hundredths(&self) -> (r: u32)
        ensures
            r == spec_scale_hundredths(*self),
    {
        match self {
            DiceType::D4 => 90,
            DiceType::D6 => 100,
            DiceType::D8 => 100,
            DiceType::D10 => 105,
            DiceType::D12 => 110,
            DiceType::D20 => 120,
        }
    }

    /// All dice types in display order.
    pub fn all() -> (r: Vec<DiceType>)
        ensures
            r@ == spec_all(),
    {
        let r = vec![
            DiceType::D4,
            DiceType::D6,
            DiceType::D8,
            DiceType::D10,
            DiceType::D12,
            DiceType::D20,
        ];
        assert(r@ =~= spec_all());
        r
    }
}

/// Larger dice are heavier: density strictly increases along the display
/// order, so the D4 is the lightest die and the D20 the heaviest.
pub proof fn density_increases_with_size(a: DiceType, b: DiceType)
    requires
        spec_rank(a) < spec_rank(b),
    ensures
        spec_density_tenths(a) < spec_density_tenths(b),
        spec_max_value(a) < spec_max_value(b),
{
}

/// Larger dice are never drawn smaller: the scale does not decrease along
/// the display order, and the D6 is the unit scale.
pub proof fn scale_grows_with_size(a: DiceType, b: DiceType)
    requires
        spec_rank(a) <= spec_rank(b),
    ensures
        spec_scale_hundredths(a) <= spec_scale_hundredths(b),
        spec_scale_hundredths(DiceType::D6) == 100,
{
}

/// Every die appears exactly once in `all`, and its name parses back to it.
pub proof fn all_lists_each_die_once(d: DiceType)
    ensures
        spec_all()[spec_rank(d)] == d,
        0 <= spec_rank(d) < spec_all().len(),
        spec_parse_lower(lowercase_name(d)) == Some(d),
{
}

/// A die's short name is `D` followed by its number of faces in decimal,
/// its lowercase name `d` followed by the same digits, and different dice
/// have different numbers of faces.
pub proof fn law_die_names_follow_faces(a: DiceType, b: DiceType)
    ensures
        spec_name(a) == seq!['D'] + dec_seq(spec_max_value(a) as int),
        lowercase_name(a) == seq!['d'] + dec_seq(spec_max_value(a) as int),
        a != b ==> spec_max_value(a) != spec_max_value(b),
{
    let n = spec_max_value(a) as nat;
    if n >= 10 {
        assert(nat_digits(n / 10) == seq![crate::text::digit_char((n / 10) as int)]);
    }
    assert(spec_name(a) =~= seq!['D'] + dec_seq(spec_max_value(a) as int));
    assert(lowercase_name(a) =~= seq!['d'] + dec_seq(spec_max_value(a) as int));
}

/// The lowercase form of a die's short name (`d4` .. `d20`).
pub open spec fn lowercase_name(d: DiceType) -> Seq<char> {
    match d {
        DiceType::D4 => seq!['d', '4'],
        DiceType::D6 => seq!['d', '6'],
        DiceType::D8 => seq!['d', '8'],
        DiceType::D10 => seq!['d', '1', '0'],
        DiceType::D12 => seq!['d', '1', '2'],
        DiceType::D20 => seq!['d', '2', '0'],
    }
}

/// The results of the last roll: each die with the value it shows.
pub struct DiceResults {
    pub results: Vec<(DiceType, u32)>,
}

impl DiceResults {
    /// No results yet.
    pub fn default() -> (r: DiceResults)
        ensures
            r.results@.len() == 0,
    {
        DiceResults { results: Vec::new() }
    }
}

/// Which dice to roll and what to add to their sum.
pub struct DiceConfig {
    pub dice_to_roll: Vec<DiceType>,
    pub modifier: i32,
    pub modifier_name: String,
}

impl DiceConfig {
    /// One D20, no modifier.
    pub fn default() -> (r: DiceConfig)
        ensures
            r.dice_to_roll@ == seq![DiceType::D20],
            r.modifier == 0,
            r.modifier_name@.len() == 0,
    {
        let dice = vec![DiceType::D20];
        assert(dice@ =~= seq![DiceType::D20]);
        DiceConfig { dice_to_roll: dice, modifier: 0, modifier_name: String::new() }
    }
}

// ---------------------------------------------------------------------------
// Dice notation: `2d6`, `d20`, `1d8`
// ---------------------------------------------------------------------------

/// The position of the first `c` in `s`, if any.
pub open spec fn find_char(s: Seq<char>, c: char) -> Option<int>
    decreases s.len(),
{
    if s.len() == 0 {
        None
    } else if s[0] == c {
        Some(0)
    } else {
        match find_char(s.drop_first(), c) {
            Some(i) => Some(i + 1),
            None => None,
        }
    }
}

pub proof fn lemma_find_char(s: Seq<char>, c: char)
    ensures
        find_char(s, c) matches Some(i) ==> 0 <= i < s.len() && s[i] == c && forall|k: int|
            0 <= k < i ==> s[k] != c,
        find_char(s, c) is None ==> forall|k: int| 0 <= k < s.len() ==> s[k] != c,
    decreases s.len(),
{
    if s.len() > 0 {
        lemma_find_char(s.drop_first(), c);
        if s[0] != c {
            assert forall|k: int| 0 < k < s.len() implies s[k] == s.drop_first()[k - 1] by {}
        }
    }
}

/// Finds the first `c` in `s`.
pub fn find(s: &str, c: char) -> (r: Option<usize>)
    ensures
        match find_char(s@, c) {
            Some(i) => r == Some(i as usize),
            None => r is None,
        },
{
    proof {
        lemma_find_char(s@, c);
    }
    let n = s.unicode_len();
    let mut i: usize = 0;
    while i < n
        invariant
            n == s@.len(),
            i <= n,
            forall|k: int| 0 <= k < i ==> s@[k] != c,
        decreases n - i,
    {
        if s.get_char(i) == c {
            proof {
                lemma_find_char(s@, c);
                match find_char(s@, c) {
                    Some(j) => {
                        assert(j == i);
                    },
                    None => {},
                }
            }
            return Some(i);
        }
        i = i + 1;
    }
    None
}

/// How a lowercased dice string splits into count text and die text:
/// `d20` counts as `1` and `d20`; `2d6` as `2` and `d6`; a string without
/// `d` does not split.
pub open spec fn split_dice_notation(l: Seq<char>) -> Option<(Seq<char>, Seq<char>)> {
    if l.len() > 0 && l[0] == 'd' {
        Some((seq!['1'], l))
    } else {
        match find_char(l, 'd') {
            Some(pos) => Some((l.take(pos), l.skip(pos))),
            None => None,
        }
    }
}

/// The count and die type that dice notation such as `2d6` or `d20` denotes:
/// the text is lowercased, an absent count means one die, the count follows
/// `usize` parsing and the die name is matched case-insensitively.
pub open spec fn spec_parse_dice_str(s: Seq<char>) -> Option<(usize, DiceType)> {
    match split_dice_notation(lowercase(s)) {
        Some((count_text, die_text)) => match (
            parse_usize_spec(count_text),
            spec_parse_lower(lowercase(die_text)),
        ) {
            (Some(count), Some(die)) => Some((count, die)),
            _ => None,
        },
        None => None,
    }
}

/// Splits lowercased dice notation into its count text and die text.
fn split_notation(l: &str) -> (r: Option<(String, String)>)
    ensures
        match split_dice_notation(l@) {
            Some((a, b)) => r matches Some(p) && p.0@ == a && p.1@ == b,
            None => r is None,
        },
{
    let n = l.unicode_len();
    if n > 0 && l.get_char(0) == 'd' {
        let mut one = String::new();
        push_char(&mut one, '1');
        assert(one@ =~= seq!['1']);
        return Some((one, String::from_str(l)));
    }
    proof {
        lemma_find_char(l@, 'd');
    }
    match find(l, 'd') {
        Some(pos) => {
            let a = String::from_str(l.substring_char(0, pos));
            let b = String::from_str(l.substring_char(pos, n));
            assert(a@ =~= l@.take(pos as int));
            assert(b@ =~= l@.skip(pos as int));
            Some((a, b))
        },
        None => None,
    }
}

/// Parses dice notation such as `2d6` or `d20` into a count and a die type.
pub fn parse_dice_str(s: &str) -> (r: Option<(usize, DiceType)>)
    ensures
        r == spec_parse_dice_str(s@),
{
    let lower = to_lowercase(s);
    match split_notation(lower.as_str()) {
        Some((count_text, die_text)) => {
            let count = parse_usize(count_text.as_str());
            let die = DiceType::parse(die_text.as_str());
            match (count, die) {
                (Some(c), Some(d)) => Some((c, d)),
                _ => None,
            }
        },
        None => None,
    }
}

/// The message given for dice notation without a `d`.
pub open spec fn invalid_format_message(l: Seq<char>) -> Seq<char> {
    "Invalid dice format: "@ + l + ". Use format like '2d6' or 'd20'"@
}

/// The message given for a count that is not a `usize`.
pub open spec fn invalid_count_message(count_text: Seq<char>) -> Seq<char> {
    "Invalid count: "@ + count_text
}

/// The message given for an unknown die name.
pub open spec fn unknown_die_message(die_text: Seq<char>) -> Seq<char> {
    "Unknown die type: "@ + die_text + ". Valid: d4, d6, d8, d10, d12, d20"@
}

/// The result of parsing a `--dice` argument on the command line: like
/// `spec_parse_dice_str`, with an error message for each way it can fail
/// (no `d`, a bad count, an unknown die).
pub open spec fn spec_parse_dice_arg(s: Seq<char>) -> Result<(usize, DiceType), Seq<char>> {
    let l = lowercase(s);
    match split_dice_notation(l) {
        Some((count_text, die_text)) => match parse_usize_spec(count_text) {
            Some(count) => match spec_parse_lower(lowercase(die_text)) {
                Some(die) => Ok((count, die)),
                None => Err(unknown_die_message(die_text)),
            },
            None => Err(invalid_count_message(count_text)),
        },
        None => Err(invalid_format_message(l)),
    }
}

/// Parses a `--dice` command-line argument such as `2d6` or `d20`, with an
/// error message when it is not valid dice notation.
pub fn parse_dice_arg(s: &str) -> (r: Result<(usize, DiceType), String>)
    ensures
        match spec_parse_dice_arg(s@) {
            Ok(v) => r == Ok::<(usize, DiceType), String>(v),
            Err(m) => r matches Err(e) && e@ == m,
        },
{
    let lower = to_lowercase(s);
    match split_notation(lower.as_str()) {
        Some((count_text, die_text)) => {
            match parse_usize(count_text.as_str()) {
                Some(count) => match DiceType::parse(die_text.as_str()) {
                    Some(die) => Ok((count, die)),
                    None => {
                        let mut m = String::from_str("Unknown die type: ");
                        push_str(&mut m, die_text.as_str());
                        push_str(&mut m, ". Valid: d4, d6, d8, d10, d12, d20");
                        Err(m)
                    },
                },
                None => {
                    let mut m = String::from_str("Invalid count: ");
                    push_str(&mut m, count_text.as_str());
                    Err(m)
                },
            }
        },
        None => {
            let mut m = String::from_str("Invalid dice format: ");
            push_str(&mut m, lower.as_str());
            push_str(&mut m, ". Use format like '2d6' or 'd20'");
            Err(m)
        },
    }
}

/// The command line accepts exactly the dice notation that the command box
/// reads, with the same count and die; what it refuses, the command box
/// ignores.
pub proof fn law_dice_notation_agrees(s: Seq<char>)
    ensures
        spec_parse_dice_arg(s) is Ok <==> spec_parse_dice_str(s) is Some,
        spec_parse_dice_arg(s) matches Ok(v) ==> spec_parse_dice_str(s) == Some(v),
{
}

/// `n` copies of `d`.
pub open spec fn repeat_die(d: DiceType, n: nat) -> Seq<DiceType> {
    Seq::new(n, |i: int| d)
}

/// Appends `count` copies of `die` to `dice`.
pub fn push_dice(dice: &mut Vec<DiceType>, count: usize, die: DiceType)
    ensures
        final(dice)@ == old(dice)@ + repeat_die(die, count as nat),
{
    let mut k: usize = 0;
    while k < count
        invariant
            k <= count,
            dice@ == old(dice)@ + repeat_die(die, k as nat),
        decreases count - k,
    {
        dice.push(die);
        k = k + 1;
        assert(dice@ =~= old(dice)@ + repeat_die(die, k as nat));
    }
}

} // verus!
