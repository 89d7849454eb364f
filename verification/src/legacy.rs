//! Where the application keeps its data, and the rows of the legacy SQLite
//! character database that are converted into the character store.
use vstd::prelude::*;
use vstd::string::*;
use vstd::utf8::encode_utf8;

use base64::Engine;

use crate::text::{dec_seq, push_int, push_str, trim, trim_seq};

verus! {

// ---------------------------------------------------------------------------
// Paths
// ---------------------------------------------------------------------------

/// The folder, under the platform's data directory, that holds the data.
pub open spec fn app_data_folder() -> Seq<char> {
    "DnDGameRolls"@
}

/// The file name of the legacy SQLite database.
pub open spec fn legacy_sqlite_file() -> Seq<char> {
    "characters.db"@
}

/// The folder name of the character store.
pub open spec fn database_folder() -> Seq<char> {
    "characters.surrealdb"@
}

/// `base` joined with the relative path `part`, as `PathBuf::join` joins on
/// Unix: a `/` goes between them unless `base` is empty or already ends
/// with one.
pub open spec fn spec_join(base: Seq<char>, part: Seq<char>) -> Seq<char> {
    if base.len() == 0 {
        part
    } else if base.last() == '/' {
        base + part
    } else {
        base + seq!['/'] + part
    }
}

/// Joins the relative path `part` onto `base` (see `spec_join`).
pub fn join_path(base: &str, part: &str) -> (r: String)
    requires
        part@.len() > 0,
        part@[0] != '/',
    ensures
        r@ == spec_join(base@, part@),
{
    let n = base.unicode_len();
    let mut out = String::from_str(base);
    if n > 0 && base.get_char(n - 1) != '/' {
        push_str(&mut out, "/");
        proof {
            reveal_strlit("/");
        }
    }
    push_str(&mut out, part);
    assert(out@ =~= spec_join(base@, part@));
    out
}

/// The data directory on Linux: `$XDG_DATA_HOME/DnDGameRolls` when that
/// variable is set, else `$HOME/.local/share/DnDGameRolls` when `HOME` is
/// set; `None` when neither is (the current directory is used then).
pub open spec fn spec_linux_data_dir(xdg_data_home: Option<Seq<char>>, home: Option<Seq<char>>) -> Option<Seq<char>> {
    match xdg_data_home {
        Some(x) => Some(spec_join(x, app_data_folder())),
        None => match home {
            Some(h) => Some(spec_join(spec_join(spec_join(h, ".local"@), "share"@), app_data_folder())),
            None => None,
        },
    }
}

/// The text of an optional string.
pub open spec fn opt_text(o: Option<String>) -> Option<Seq<char>> {
    match o {
        Some(s) => Some(s@),
        None => None,
    }
}

/// The Linux data directory for the given values of `XDG_DATA_HOME` and
/// `HOME` (see `spec_linux_data_dir`).
pub fn linux_data_dir(xdg_data_home: Option<String>, home: Option<String>) -> (r: Option<String>)
    ensures
        opt_text(r) == spec_linux_data_dir(opt_text(xdg_data_home), opt_text(home)),
{
    proof {
        reveal_strlit("DnDGameRolls");
        reveal_strlit(".local");
        reveal_strlit("share");
    }
    match xdg_data_home {
        Some(x) => Some(join_path(x.as_str(), "DnDGameRolls")),
        None => match home {
            Some(h) => {
                let local = join_path(h.as_str(), ".local");
                let share = join_path(local.as_str(), "share");
                Some(join_path(share.as_str(), "DnDGameRolls"))
            },
            None => None,
        },
    }
}

/// The path of the legacy SQLite database in the data directory, when the
/// data directory could be resolved.
pub fn legacy_sqlite_path(data_dir: Option<String>) -> (r: Option<String>)
    ensures
        opt_text(r) == match opt_text(data_dir) {
            Some(d) => Some(spec_join(d, legacy_sqlite_file())),
            None => None::<Seq<char>>,
        },
{
    proof {
        reveal_strlit("characters.db");
    }
    match data_dir {
        Some(d) => Some(join_path(d.as_str(), "characters.db")),
        None => None,
    }
}

/// The path of the character store in the data directory.
pub fn database_path(data_dir: &str) -> (r: String)
    ensures
        r@ == spec_join(data_dir@, database_folder()),
{
    proof {
        reveal_strlit("characters.surrealdb");
    }
    join_path(data_dir, "characters.surrealdb")
}

/// Whether an error opening the character store says that the store on disk
/// is from another version or damaged, so that it is moved aside and a new
/// one is made.
pub open spec fn spec_recoverable_store_error(err: Seq<char>) -> bool {
    ||| is_substring("Unsupported manifest format version"@, err)
    ||| is_substring("Failed to load manifest"@, err)
    ||| is_substring("unexpected end of file"@, err)
    ||| is_substring("failed to fill whole buffer"@, err)
    ||| is_substring("There was a problem with the underlying datastore"@, err)
}

/// Whether `needle` occurs in `hay` at position `i`.
pub open spec fn occurs_at(needle: Seq<char>, hay: Seq<char>, i: int) -> bool {
    0 <= i && i + needle.len() <= hay.len() && hay.subrange(i, i + needle.len()) == needle
}

/// Whether `needle` occurs in `hay` (`str::contains`).
pub open spec fn is_substring(needle: Seq<char>, hay: Seq<char>) -> bool {
    exists|i: int| #[trigger] occurs_at(needle, hay, i)
}

/// Whether `needle` occurs in `hay`.
pub fn contains_str(hay: &str, needle: &str) -> (r: bool)
    ensures
        r == is_substring(needle@, hay@),
{
    let n = hay.unicode_len();
    let m = needle.unicode_len();
    if m > n {
        assert(!is_substring(needle@, hay@)) by {
            if is_substring(needle@, hay@) {
                let i = choose|i: int| #[trigger] occurs_at(needle@, hay@, i);
            }
        }
        return false;
    }
    let mut i: usize = 0;
    while i <= n - m
        invariant
            n == hay@.len(),
            m == needle@.len(),
            m <= n,
            i <= n - m + 1,
            forall|k: int| 0 <= k < i ==> !#[trigger] occurs_at(needle@, hay@, k),
        decreases n - m + 1 - i,
    {
        let mut j: usize = 0;
        while j < m && hay.get_char(i + j) == needle.get_char(j)
            invariant
                n == hay@.len(),
                m == needle@.len(),
                i + m <= n,
                j <= m,
                forall|k: int| 0 <= k < j ==> hay@[i + k] == needle@[k],
            decreases m - j,
        {
            j = j + 1;
        }
        if j == m {
            assert(hay@.subrange(i as int, i + m) =~= needle@);
            assert(occurs_at(needle@, hay@, i as int));
            return true;
        }
        assert(!occurs_at(needle@, hay@, i as int)) by {
            if occurs_at(needle@, hay@, i as int) {
                assert(hay@.subrange(i as int, i + m)[j as int] == hay@[i + j]);
            }
        }
        i = i + 1;
    }
    assert(!is_substring(needle@, hay@)) by {
        if is_substring(needle@, hay@) {
            let k = choose|k: int| #[trigger] occurs_at(needle@, hay@, k);
            assert(k < i);
        }
    }
    false
}

/// Whether an error opening the character store is one after which the store
/// is moved aside and made anew (see `spec_recoverable_store_error`).
pub fn is_recoverable_store_error(err: &str) -> (r: bool)
    ensures
        r == spec_recoverable_store_error(err@),
{
    contains_str(err, "Unsupported manifest format version") || contains_str(err, "Failed to load manifest")
        || contains_str(err, "unexpected end of file") || contains_str(err, "failed to fill whole buffer")
        || contains_str(err, "There was a problem with the underlying datastore")
}

/// The name under which a store that could not be opened is kept:
/// `characters.surrealdb.file.bak-<seconds>` when a file stood where the
/// store folder belongs, `characters.surrealdb.bak-<seconds>` otherwise.
pub open spec fn spec_backup_name(seconds: u64, was_file: bool) -> Seq<char> {
    database_folder() + (if was_file {
        ".file.bak-"@
    } else {
        ".bak-"@
    }) + dec_seq(seconds as int)
}

/// The name a store that could not be opened is moved to (see
/// `spec_backup_name`).
pub fn backup_name(seconds: u64, was_file: bool) -> (r: String)
    ensures
        r@ == spec_backup_name(seconds, was_file),
{
    let mut s = String::from_str("characters.surrealdb");
    if was_file {
        push_str(&mut s, ".file.bak-");
    } else {
        push_str(&mut s, ".bak-");
    }
    crate::text::push_u64(&mut s, seconds);
    s
}

// ---------------------------------------------------------------------------
// Legacy rows
// ---------------------------------------------------------------------------

/// A row of the legacy database: its id and the raw character data.
pub struct LegacySqliteCharacterRow {
    pub legacy_id: i64,
    pub data: Vec<u8>,
}

#[verifier::external_type_specification]
#[verifier::external_body]
pub struct ExSystemTime(std::time::SystemTime);

/// What a look at a legacy database file found, for diagnostics: each item
/// is present when it could be read.
pub struct LegacySqliteProbe {
    pub file_size_bytes: Option<u64>,
    pub file_modified: Option<std::time::SystemTime>,
    pub journal_mode: Option<String>,
    pub user_version: Option<i64>,
    pub schema_version: Option<i64>,
    pub characters_row_count: Option<i64>,
    pub characters_non_null_data_count: Option<i64>,
    pub tables: Vec<String>,
    pub characters_columns: Vec<String>,
}

/// What the standard base64 alphabet (with padding) decodes the text to, or
/// `None` when it is not valid base64.
pub uninterp spec fn base64_standard(text: Seq<char>) -> Option<Seq<u8>>;

/// Decodes base64 text with the standard alphabet.
///
/// Trusted: `base64::engine::general_purpose::STANDARD.decode`; the result is
/// named (`base64_standard`) as a function of the text alone.
#[verifier::external_body]
fn decode_base64(text: &str) -> (r: Option<Vec<u8>>)
    ensures
        match r {
            Some(v) => base64_standard(text@) == Some(v@),
            None => base64_standard(text@) is None,
        },
{
    base64::engine::general_purpose::STANDARD.decode(text).ok()
}

/// `s` without the prefix `p`, when it starts with it.
pub open spec fn strip_prefix_seq(s: Seq<char>, p: Seq<char>) -> Seq<char> {
    if p.len() <= s.len() && s.take(p.len() as int) == p {
        s.skip(p.len() as int)
    } else {
        s
    }
}

/// The payload of a text data cell: trimmed, without a `base64:` prefix.
pub open spec fn legacy_payload(s: Seq<char>) -> Seq<char> {
    strip_prefix_seq(trim_seq(s), "base64:"@)
}

/// The bytes of a text data cell: the base64 decoding of its payload when
/// that is valid base64, else the payload's own UTF-8 bytes.
pub open spec fn spec_decode_legacy_text(s: Seq<char>) -> Seq<u8> {
    match base64_standard(legacy_payload(s)) {
        Some(b) => b,
        None => encode_utf8(legacy_payload(s)),
    }
}

/// The bytes a text data cell of the legacy database holds (see
/// `spec_decode_legacy_text`); it never fails.
pub fn decode_legacy_data_text(s: &str) -> (r: Result<Vec<u8>, String>)
    ensures
        r matches Ok(b) && b@ == spec_decode_legacy_text(s@),
{
    let trimmed = trim(s);
    let n = trimmed.unicode_len();
    let prefix = "base64:";
    proof {
        reveal_strlit("base64:");
    }
    let has_prefix = n >= 7 && crate::text::str_eq(trimmed.substring_char(0, 7), prefix);
    let payload = if has_prefix {
        trimmed.substring_char(7, n)
    } else {
        trimmed
    };
    assert(payload@ == legacy_payload(s@)) by {
        if n >= 7 {
            assert(trimmed@.subrange(0, 7) =~= trimmed@.take(7));
            assert(trimmed@.subrange(7, n as int) =~= trimmed@.skip(7));
        }
    }
    match decode_base64(payload) {
        Some(bytes) => Ok(bytes),
        None => Ok(payload.as_bytes_vec()),
    }
}

/// What a data cell of the legacy database holds: bytes, text, bytes that
/// are not valid UTF-8 text (with the decoding error), nothing, or a value
/// of another type (with how it prints).
pub enum LegacyDataCell {
    Blob(Vec<u8>),
    Text(String),
    InvalidText(String),
    Null,
    Other(String),
}

/// The error for a text cell that is not valid UTF-8.
pub open spec fn invalid_text_message(id: i64, err: Seq<char>) -> Seq<char> {
    "Legacy SQLite data for id "@ + dec_seq(id as int) + " is not valid UTF-8: "@ + err
}

/// The error for a missing data cell.
pub open spec fn null_data_message(id: i64) -> Seq<char> {
    "Legacy SQLite row id "@ + dec_seq(id as int) + " has NULL data; cannot migrate"@
}

/// The error for a data cell of another type.
pub open spec fn unsupported_data_message(id: i64, shown: Seq<char>) -> Seq<char> {
    "Legacy SQLite row id "@ + dec_seq(id as int) + " has unsupported data type "@ + shown
        + "; cannot migrate"@
}

/// The character data of a legacy row, or why it cannot be converted: bytes
/// are taken as they are, text is decoded (see `decode_legacy_data_text`),
/// the rest is refused.
pub fn legacy_row_data(legacy_id: i64, cell: LegacyDataCell) -> (r: Result<Vec<u8>, String>)
    ensures
        match cell {
            LegacyDataCell::Blob(b) => r matches Ok(v) && v@ == b@,
            LegacyDataCell::Text(t) => r matches Ok(v) && v@ == spec_decode_legacy_text(t@),
            LegacyDataCell::InvalidText(e) => r matches Err(m) && m@ == invalid_text_message(legacy_id, e@),
            LegacyDataCell::Null => r matches Err(m) && m@ == null_data_message(legacy_id),
            LegacyDataCell::Other(shown) => r matches Err(m) && m@ == unsupported_data_message(legacy_id, shown@),
        },
{
    match cell {
        LegacyDataCell::Blob(b) => Ok(b),
        LegacyDataCell::Text(t) => decode_legacy_data_text(t.as_str()),
        LegacyDataCell::InvalidText(e) => {
            let mut m = String::from_str("Legacy SQLite data for id ");
            push_int(&mut m, legacy_id);
            push_str(&mut m, " is not valid UTF-8: ");
            push_str(&mut m, e.as_str());
            Err(m)
        },
        LegacyDataCell::Null => {
            let mut m = String::from_str("Legacy SQLite row id ");
            push_int(&mut m, legacy_id);
            push_str(&mut m, " has NULL data; cannot migrate");
            Err(m)
        },
        LegacyDataCell::Other(shown) => {
            let mut m = String::from_str("Legacy SQLite row id ");
            push_int(&mut m, legacy_id);
            push_str(&mut m, " has unsupported data type ");
            push_str(&mut m, shown.as_str());
            push_str(&mut m, "; cannot migrate");
            Err(m)
        },
    }
}

} // verus!
