//! The character table: stored sheets keyed by a stable numeric id, the
//! settings documents and the command history.
//!
//! Ids of new characters follow the largest id in use; the list of
//! characters comes sorted by name.
use vstd::prelude::*;
use vstd::multiset::Multiset;
use vstd::string::*;

use crate::character::CharacterData;
use crate::keyed::KeyedMap;
use crate::legacy::{legacy_sqlite_file, opt_text, spec_join};
use crate::sheet::{CharacterSheet, CharacterSheetModel};
use crate::text::{dec_seq, push_int, push_str, str_eq};

verus! {

broadcast use vstd::seq_lib::group_to_multiset_ensures;

// ---------------------------------------------------------------------------
// Records
// ---------------------------------------------------------------------------

/// A stored character: its stable id, the legacy database id it was
/// converted from (if any), listing fields copied from the sheet, and the
/// sheet.
pub struct CharacterDocument {
    pub sid: i64,
    pub legacy_sqlite_id: Option<i64>,
    pub name: String,
    pub class: String,
    pub race: String,
    pub level: i32,
    pub sheet: CharacterSheet,
}

pub struct DocModel {
    pub sid: i64,
    pub legacy_sqlite_id: Option<i64>,
    pub name: Seq<char>,
    pub class: Seq<char>,
    pub race: Seq<char>,
    pub level: i32,
    pub sheet: CharacterSheetModel,
}

impl DeepView for CharacterDocument {
    type V = DocModel;

    open spec fn deep_view(&self) -> DocModel {
        DocModel {
            sid: self.sid,
            legacy_sqlite_id: self.legacy_sqlite_id,
            name: self.name@,
            class: self.class@,
            race: self.race@,
            level: self.level,
            sheet: self.sheet.deep_view(),
        }
    }
}

/// The record stored for `sheet` under `sid`.
pub open spec fn doc_of(sid: i64, sheet: CharacterSheetModel, legacy: Option<i64>) -> DocModel {
    DocModel {
        sid,
        legacy_sqlite_id: legacy,
        name: sheet.character.name,
        class: sheet.character.class,
        race: sheet.character.race,
        level: sheet.character.level,
        sheet,
    }
}

/// An entry of the character list: id, name, class and level.
pub struct CharacterListEntry {
    pub id: i64,
    pub name: String,
    pub class: String,
    pub level: i32,
}

pub struct EntryModel {
    pub id: i64,
    pub name: Seq<char>,
    pub class: Seq<char>,
    pub level: i32,
}

impl DeepView for CharacterListEntry {
    type V = EntryModel;

    open spec fn deep_view(&self) -> EntryModel {
        EntryModel { id: self.id, name: self.name@, class: self.class@, level: self.level }
    }
}

/// The list entry of a stored record.
pub open spec fn entry_of(d: DocModel) -> EntryModel {
    EntryModel { id: d.sid, name: d.name, class: d.class, level: d.level }
}

// ---------------------------------------------------------------------------
// The table, as a sequence of records
// ---------------------------------------------------------------------------

/// Whether no id is used by two records.
pub open spec fn sids_distinct(docs: Seq<DocModel>) -> bool {
    forall|i: int, j: int| 0 <= i < j < docs.len() ==> docs[i].sid != docs[j].sid
}

/// Whether a record has id `id`.
pub open spec fn has_sid(docs: Seq<DocModel>, id: i64) -> bool {
    exists|i: int| 0 <= i < docs.len() && #[trigger] docs[i].sid == id
}

/// The record with id `id`, if there is one.
pub open spec fn find_doc(docs: Seq<DocModel>, id: i64) -> Option<DocModel> {
    if has_sid(docs, id) {
        Some(docs[choose|i: int| 0 <= i < docs.len() && #[trigger] docs[i].sid == id])
    } else {
        None
    }
}

/// The largest id in use (0 for an empty table).
pub open spec fn max_sid(docs: Seq<DocModel>) -> int
    decreases docs.len(),
{
    if docs.len() == 0 {
        0
    } else {
        let m = max_sid(docs.drop_last());
        if docs.len() == 1 || docs.last().sid > m {
            docs.last().sid as int
        } else {
            m
        }
    }
}

/// The id a new character gets: one more than the largest id in use, or 1
/// for an empty table.
pub open spec fn next_id(docs: Seq<DocModel>) -> int {
    if docs.len() == 0 {
        1
    } else {
        max_sid(docs) + 1
    }
}

/// `docs` with the record `d` stored: it replaces the record with the same
/// id, or is added at the end.
pub open spec fn upsert(docs: Seq<DocModel>, d: DocModel) -> Seq<DocModel> {
    if has_sid(docs, d.sid) {
        docs.update(choose|i: int| 0 <= i < docs.len() && #[trigger] docs[i].sid == d.sid, d)
    } else {
        docs.push(d)
    }
}

/// `docs` without the records with id `id`.
pub open spec fn remove_sid(docs: Seq<DocModel>, id: i64) -> Seq<DocModel>
    decreases docs.len(),
{
    if docs.len() == 0 {
        docs
    } else {
        let rest = remove_sid(docs.drop_last(), id);
        if docs.last().sid == id {
            rest
        } else {
            rest.push(docs.last())
        }
    }
}

/// The message for a missing character.
pub open spec fn not_found_message(id: i64) -> Seq<char> {
    "Character with id "@ + dec_seq(id as int) + " not found"@
}

/// What loading the character with id `id` gives: its sheet, or the
/// not-found message.
pub open spec fn spec_load(docs: Seq<DocModel>, id: i64) -> Result<CharacterSheetModel, Seq<char>> {
    match find_doc(docs, id) {
        Some(d) => Ok(d.sheet),
        None => Err(not_found_message(id)),
    }
}

/// Whether `a` comes before `b` or equals it, comparing characters from the
/// left (a prefix comes first).
pub open spec fn name_le(a: Seq<char>, b: Seq<char>) -> bool
    decreases a.len(),
{
    if a.len() == 0 {
        true
    } else if b.len() == 0 {
        false
    } else if a[0] != b[0] {
        a[0] < b[0]
    } else {
        name_le(a.drop_first(), b.drop_first())
    }
}

/// Whether the list is in order of names.
pub open spec fn sorted_by_name(s: Seq<EntryModel>) -> bool {
    forall|i: int, j: int| 0 <= i < j < s.len() ==> name_le(s[i].name, s[j].name)
}

/// Whether some character other than `exclude` is named `name`.
pub open spec fn spec_name_exists(docs: Seq<DocModel>, name: Seq<char>, exclude: Option<i64>) -> bool {
    exists|i: int|
        0 <= i < docs.len() && #[trigger] docs[i].name == name && match exclude {
            Some(x) => docs[i].sid != x,
            None => true,
        }
}

/// Whether a record was converted from legacy id `id`.
pub open spec fn has_legacy_id(docs: Seq<DocModel>, id: i64) -> bool {
    exists|i: int| 0 <= i < docs.len() && #[trigger] docs[i].legacy_sqlite_id == Some(id)
}

// ---------------------------------------------------------------------------
// Lemmas
// ---------------------------------------------------------------------------

proof fn lemma_max_sid(docs: Seq<DocModel>)
    ensures
        forall|i: int| 0 <= i < docs.len() ==> #[trigger] docs[i].sid <= max_sid(docs),
        docs.len() > 0 ==> exists|i: int| 0 <= i < docs.len() && #[trigger] docs[i].sid == max_sid(docs),
        docs.len() > 0 ==> i64::MIN <= max_sid(docs) <= i64::MAX,
    decreases docs.len(),
{
    if docs.len() > 0 {
        lemma_max_sid(docs.drop_last());
        assert forall|i: int| 0 <= i < docs.len() - 1 implies docs.drop_last()[i] == #[trigger] docs[i] by {}
        if docs.len() > 1 && !(docs.last().sid > max_sid(docs.drop_last())) {
            let i = choose|i: int|
                0 <= i < docs.drop_last().len() && #[trigger] docs.drop_last()[i].sid == max_sid(
                    docs.drop_last(),
                );
            assert(docs[i].sid == max_sid(docs));
        } else {
            assert(docs[docs.len() - 1].sid == max_sid(docs));
        }
    }
}

proof fn lemma_find_doc(docs: Seq<DocModel>, id: i64, i: int)
    requires
        sids_distinct(docs),
        0 <= i < docs.len(),
        docs[i].sid == id,
    ensures
        find_doc(docs, id) == Some(docs[i]),
{
    let j = choose|j: int| 0 <= j < docs.len() && #[trigger] docs[j].sid == id;
    assert(j == i);
}

proof fn lemma_remove_sid(docs: Seq<DocModel>, id: i64)
    ensures
        !has_sid(remove_sid(docs, id), id),
        forall|k: i64| k != id ==> has_sid(remove_sid(docs, id), k) == has_sid(docs, k),
        sids_distinct(docs) ==> sids_distinct(remove_sid(docs, id)),
        forall|k: i64|
            k != id && sids_distinct(docs) ==> find_doc(remove_sid(docs, id), k) == find_doc(docs, k),
        forall|i: int| 0 <= i < remove_sid(docs, id).len() ==> exists|j: int|
            0 <= j < docs.len() && #[trigger] remove_sid(docs, id)[i] == docs[j],
        remove_sid(docs, id).len() <= docs.len(),
        has_sid(docs, id) && sids_distinct(docs) ==> remove_sid(docs, id).len() == docs.len() - 1,
        !has_sid(docs, id) ==> remove_sid(docs, id) == docs,
    decreases docs.len(),
{
    if docs.len() > 0 {
        let p = docs.drop_last();
        lemma_remove_sid(p, id);
        let r = remove_sid(docs, id);
        let rp = remove_sid(p, id);
        assert forall|i: int| 0 <= i < p.len() implies p[i] == #[trigger] docs[i] by {}
        assert forall|k: i64| k != id implies has_sid(r, k) == has_sid(docs, k) by {
            if has_sid(docs, k) {
                let i = choose|i: int| 0 <= i < docs.len() && #[trigger] docs[i].sid == k;
                if i < p.len() {
                    assert(p[i].sid == k);
                    assert(has_sid(p, k));
                    assert(has_sid(rp, k));
                    let j = choose|j: int| 0 <= j < rp.len() && #[trigger] rp[j].sid == k;
                    if docs.last().sid != id {
                        assert(r[j] == rp[j]);
                    }
                } else {
                    assert(r[r.len() - 1] == docs.last());
                }
            }
            if has_sid(r, k) {
                let j = choose|j: int| 0 <= j < r.len() && #[trigger] r[j].sid == k;
                if docs.last().sid != id && j == r.len() - 1 {
                    assert(docs[docs.len() - 1].sid == k);
                } else {
                    assert(rp[j].sid == k);
                    assert(has_sid(p, k));
                    let i = choose|i: int| 0 <= i < p.len() && #[trigger] p[i].sid == k;
                    assert(docs[i].sid == k);
                }
            }
        }
        assert(!has_sid(r, id)) by {
            if has_sid(r, id) {
                let j = choose|j: int| 0 <= j < r.len() && #[trigger] r[j].sid == id;
                if docs.last().sid != id && j == r.len() - 1 {
                } else {
                    assert(rp[j].sid == id);
                }
            }
        }
        assert forall|i: int| 0 <= i < r.len() implies exists|j: int|
            0 <= j < docs.len() && #[trigger] r[i] == docs[j] by {
            if docs.last().sid != id && i == r.len() - 1 {
                assert(r[i] == docs[docs.len() - 1]);
            } else {
                let j = choose|j: int| 0 <= j < p.len() && #[trigger] rp[i] == p[j];
                assert(r[i] == docs[j]);
            }
        }
        if sids_distinct(docs) {
            assert(sids_distinct(p));
            assert forall|i: int, j: int| 0 <= i < j < r.len() implies r[i].sid != r[j].sid by {
                if docs.last().sid != id && j == r.len() - 1 {
                    assert(r[j] == docs.last());
                    let a = choose|a: int| 0 <= a < p.len() && #[trigger] rp[i] == p[a];
                    assert(r[i] == docs[a]);
                } else {
                    assert(r[i] == rp[i] && r[j] == rp[j]);
                }
            }
            assert forall|k: i64| k != id implies find_doc(r, k) == find_doc(docs, k) by {
                if has_sid(docs, k) {
                    let i = choose|i: int| 0 <= i < r.len() && #[trigger] r[i].sid == k;
                    let j = choose|j: int| 0 <= j < docs.len() && #[trigger] r[i] == docs[j];
                    lemma_find_doc(r, k, i);
                    lemma_find_doc(docs, k, j);
                }
            }
            if has_sid(docs, id) {
                if docs.last().sid == id {
                    assert(!has_sid(p, id)) by {
                        if has_sid(p, id) {
                            let i = choose|i: int| 0 <= i < p.len() && #[trigger] p[i].sid == id;
                            assert(docs[i].sid == docs[docs.len() - 1].sid);
                        }
                    }
                } else {
                    let i = choose|i: int| 0 <= i < docs.len() && #[trigger] docs[i].sid == id;
                    assert(p[i].sid == id);
                }
            }
        }
        if !has_sid(docs, id) {
            assert(!has_sid(p, id)) by {
                if has_sid(p, id) {
                    let i = choose|i: int| 0 <= i < p.len() && #[trigger] p[i].sid == id;
                    assert(docs[i].sid == id);
                }
            }
            assert(docs.last().sid != id) by {
                assert(docs[docs.len() - 1].sid == docs.last().sid);
            }
            assert(r =~= docs);
        }
    }
}

proof fn lemma_upsert(docs: Seq<DocModel>, d: DocModel)
    requires
        sids_distinct(docs),
    ensures
        sids_distinct(upsert(docs, d)),
        find_doc(upsert(docs, d), d.sid) == Some(d),
        forall|k: i64| k != d.sid ==> find_doc(upsert(docs, d), k) == find_doc(docs, k),
        forall|k: i64| has_sid(upsert(docs, d), k) == (has_sid(docs, k) || k == d.sid),
        has_sid(docs, d.sid) ==> upsert(docs, d).len() == docs.len(),
        !has_sid(docs, d.sid) ==> upsert(docs, d).len() == docs.len() + 1,
{
    let u = upsert(docs, d);
    if has_sid(docs, d.sid) {
        let i = choose|i: int| 0 <= i < docs.len() && #[trigger] docs[i].sid == d.sid;
        assert forall|a: int, b: int| 0 <= a < b < u.len() implies u[a].sid != u[b].sid by {}
        lemma_find_doc(u, d.sid, i);
        assert forall|k: i64| k != d.sid implies find_doc(u, k) == find_doc(docs, k) by {
            if has_sid(docs, k) {
                let j = choose|j: int| 0 <= j < docs.len() && #[trigger] docs[j].sid == k;
                assert(u[j] == docs[j]);
                lemma_find_doc(u, k, j);
                lemma_find_doc(docs, k, j);
            }
            if has_sid(u, k) {
                let j = choose|j: int| 0 <= j < u.len() && #[trigger] u[j].sid == k;
                assert(docs[j].sid == k);
            }
        }
        assert forall|k: i64| has_sid(u, k) == (has_sid(docs, k) || k == d.sid) by {
            if has_sid(docs, k) {
                let j = choose|j: int| 0 <= j < docs.len() && #[trigger] docs[j].sid == k;
                if j != i {
                    assert(u[j].sid == k);
                } else {
                    assert(u[i].sid == k);
                }
            }
            if k == d.sid {
                assert(u[i].sid == k);
            }
            if has_sid(u, k) {
                let j = choose|j: int| 0 <= j < u.len() && #[trigger] u[j].sid == k;
                if j != i {
                    assert(docs[j].sid == k);
                }
            }
        }
    } else {
        assert forall|a: int, b: int| 0 <= a < b < u.len() implies u[a].sid != u[b].sid by {
            if b == docs.len() {
                assert(docs[a].sid != d.sid);
            }
        }
        lemma_find_doc(u, d.sid, docs.len() as int);
        assert forall|k: i64| k != d.sid implies find_doc(u, k) == find_doc(docs, k) by {
            if has_sid(docs, k) {
                let j = choose|j: int| 0 <= j < docs.len() && #[trigger] docs[j].sid == k;
                assert(u[j] == docs[j]);
                lemma_find_doc(u, k, j);
                lemma_find_doc(docs, k, j);
            }
            if has_sid(u, k) {
                let j = choose|j: int| 0 <= j < u.len() && #[trigger] u[j].sid == k;
                assert(docs[j].sid == k);
            }
        }
        assert forall|k: i64| has_sid(u, k) == (has_sid(docs, k) || k == d.sid) by {
            if has_sid(docs, k) {
                let j = choose|j: int| 0 <= j < docs.len() && #[trigger] docs[j].sid == k;
                assert(u[j].sid == k);
            }
            if k == d.sid {
                assert(u[docs.len() as int].sid == k);
            }
            if has_sid(u, k) {
                let j = choose|j: int| 0 <= j < u.len() && #[trigger] u[j].sid == k;
                if j < docs.len() {
                    assert(docs[j].sid == k);
                }
            }
        }
    }
}

proof fn lemma_name_le_total(a: Seq<char>, b: Seq<char>)
    ensures
        name_le(a, b) || name_le(b, a),
    decreases a.len(),
{
    if a.len() > 0 && b.len() > 0 && a[0] == b[0] {
        lemma_name_le_total(a.drop_first(), b.drop_first());
    }
}

proof fn lemma_name_le_trans(a: Seq<char>, b: Seq<char>, c: Seq<char>)
    requires
        name_le(a, b),
        name_le(b, c),
    ensures
        name_le(a, c),
    decreases a.len(),
{
    if a.len() > 0 && b.len() > 0 && c.len() > 0 && a[0] == b[0] && b[0] == c[0] {
        lemma_name_le_trans(a.drop_first(), b.drop_first(), c.drop_first());
    }
}

/// Whether `a` comes before `b` or equals it (see `name_le`).
fn name_less_eq(a: &str, b: &str) -> (r: bool)
    ensures
        r == name_le(a@, b@),
{
    let n = a.unicode_len();
    let m = b.unicode_len();
    let mut i: usize = 0;
    proof {
        assert(a@.skip(0) =~= a@);
        assert(b@.skip(0) =~= b@);
    }
    while i < n && i < m && a.get_char(i) == b.get_char(i)
        invariant
            n == a@.len(),
            m == b@.len(),
            i <= n,
            i <= m,
            name_le(a@, b@) == name_le(a@.skip(i as int), b@.skip(i as int)),
        decreases n - i,
    {
        proof {
            let sa = a@.skip(i as int);
            let sb = b@.skip(i as int);
            assert(sa.drop_first() =~= a@.skip(i + 1));
            assert(sb.drop_first() =~= b@.skip(i + 1));
        }
        i = i + 1;
    }
    proof {
        if i < n && i < m {
            assert(a@.skip(i as int)[0] == a@[i as int]);
            assert(b@.skip(i as int)[0] == b@[i as int]);
        }
    }
    if i == n {
        true
    } else if i == m {
        false
    } else {
        a.get_char(i) < b.get_char(i)
    }
}

// ---------------------------------------------------------------------------
// The database
// ---------------------------------------------------------------------------

/// The character store: character records, settings documents (JSON text by
/// key) and the saved command history.
pub struct CharacterDatabase {
    docs: Vec<CharacterDocument>,
    settings: KeyedMap<String>,
    command_history: Option<Vec<String>>,
    /// Where the store is kept on disk (empty for a store held in memory).
    pub db_path: String,
}

impl CharacterDatabase {
    /// The stored character records.
    pub closed spec fn docs(&self) -> Seq<DocModel> {
        self.docs.deep_view()
    }

    /// The settings documents, by key.
    pub closed spec fn settings(&self) -> Map<Seq<char>, Seq<char>> {
        self.settings.as_map().map_values(|v: String| v@)
    }

    /// The saved command history, if one has been saved.
    pub closed spec fn history(&self) -> Option<Seq<Seq<char>>> {
        self.command_history.deep_view()
    }

    /// Ids are unique, each record's listing fields are those of its sheet,
    /// settings keys are unique.
    pub closed spec fn wf(&self) -> bool {
        &&& sids_distinct(self.docs())
        &&& forall|i: int|
            0 <= i < self.docs().len() ==> #[trigger] self.docs()[i] == doc_of(
                self.docs()[i].sid,
                self.docs()[i].sheet,
                self.docs()[i].legacy_sqlite_id,
            )
        &&& self.settings.wf()
    }

    /// A well-formed store holds each id at most once, and each record's
    /// listing fields are those of its sheet.
    pub proof fn lemma_wf_ids_distinct(&self)
        requires
            self.wf(),
        ensures
            sids_distinct(self.docs()),
            forall|i: int|
                0 <= i < self.docs().len() ==> #[trigger] self.docs()[i] == doc_of(
                    self.docs()[i].sid,
                    self.docs()[i].sheet,
                    self.docs()[i].legacy_sqlite_id,
                ),
    {
    }

    /// The path of the legacy SQLite database in the data directory, when
    /// the data directory could be resolved.
    pub fn legacy_sqlite_path(data_dir: Option<String>) -> (r: Option<String>)
        ensures
            opt_text(r) == match opt_text(data_dir) {
                Some(d) => Some(spec_join(d, legacy_sqlite_file())),
                None => None::<Seq<char>>,
            },
    {
        crate::legacy::legacy_sqlite_path(data_dir)
    }

    /// Where the store is kept on disk; empty for a store held in memory.
    pub closed spec fn path(&self) -> Seq<char> {
        self.db_path@
    }

    /// Whether a new character can be given an id (the largest id in use is
    /// below `i64::MAX`).
    pub open spec fn can_create(&self) -> bool {
        next_id(self.docs()) <= i64::MAX
    }

    /// An empty store kept in memory.
    pub fn open_in_memory() -> (r: Result<Self, String>)
        ensures
            r matches Ok(db) && db.wf() && db.docs().len() == 0 && db.settings().is_empty()
                && db.history() is None && db.path().len() == 0,
    {
        let db = CharacterDatabase {
            docs: Vec::new(),
            settings: KeyedMap::new(),
            command_history: None,
            db_path: String::new(),
        };
        assert(db.docs() =~= Seq::<DocModel>::empty());
        assert(db.settings() =~= Map::<Seq<char>, Seq<char>>::empty());
        Ok(db)
    }

    /// The position of the record with id `id`.
    fn position(&self, id: i64) -> (r: Option<usize>)
        requires
            self.wf(),
        ensures
            r matches Some(i) ==> i < self.docs().len() && self.docs()[i as int].sid == id,
            r is None ==> !has_sid(self.docs(), id),
    {
        let n = self.docs.len();
        let mut i: usize = 0;
        while i < n
            invariant
                n == self.docs().len(),
                i <= n,
                forall|k: int| 0 <= k < i ==> self.docs()[k].sid != id,
            decreases n - i,
        {
            assert(self.docs()[i as int].sid == self.docs@[i as int].sid);
            if self.docs[i].sid == id {
                return Some(i);
            }
            i = i + 1;
        }
        None
    }

    /// Whether a character with id `id` is stored.
    pub fn character_id_exists(&self, id: i64) -> (r: Result<bool, String>)
        requires
            self.wf(),
        ensures
            r == Ok::<bool, String>(has_sid(self.docs(), id)),
    {
        Ok(self.position(id).is_some())
    }

    /// Whether some character was converted from legacy id `legacy_id`.
    pub fn legacy_sqlite_id_exists(&self, legacy_id: i64) -> (r: Result<bool, String>)
        ensures
            r == Ok::<bool, String>(has_legacy_id(self.docs(), legacy_id)),
    {
        let n = self.docs.len();
        let mut i: usize = 0;
        while i < n
            invariant
                n == self.docs().len(),
                i <= n,
                forall|k: int| 0 <= k < i ==> self.docs()[k].legacy_sqlite_id != Some(legacy_id),
            decreases n - i,
        {
            assert(self.docs()[i as int].legacy_sqlite_id == self.docs@[i as int].legacy_sqlite_id);
            if self.docs[i].legacy_sqlite_id == Some(legacy_id) {
                assert(self.docs()[i as int].legacy_sqlite_id == Some(legacy_id));
                return Ok(true);
            }
            i = i + 1;
        }
        Ok(false)
    }

    /// The id the next new character gets.
    fn next_character_id(&self) -> (r: Result<i64, String>)
        requires
            self.can_create(),
        ensures
            r == Ok::<i64, String>(next_id(self.docs()) as i64),
    {
        let n = self.docs.len();
        if n == 0 {
            return Ok(1);
        }
        let mut best: i64 = self.docs[0].sid;
        let mut i: usize = 1;
        assert(self.docs().take(1).drop_last() =~= Seq::<DocModel>::empty());
        assert(max_sid(self.docs().take(1)) == self.docs()[0].sid);
        while i < n
            invariant
                n == self.docs().len(),
                1 <= i <= n,
                best as int == max_sid(self.docs().take(i as int)),
            decreases n - i,
        {
            let s = self.docs[i].sid;
            assert(self.docs().take(i + 1).drop_last() =~= self.docs().take(i as int));
            assert(self.docs().take(i + 1).last().sid == s);
            if s > best {
                best = s;
            }
            i = i + 1;
        }
        assert(self.docs().take(n as int) =~= self.docs());
        Ok(best + 1)
    }

    /// The record stored for `sheet` under `sid`.
    fn to_doc(sid: i64, sheet: &CharacterSheet, legacy_sqlite_id: Option<i64>) -> (r: CharacterDocument)
        ensures
            r.deep_view() == doc_of(sid, sheet.deep_view(), legacy_sqlite_id),
            r.sheet.wf() == sheet.wf(),
    {
        CharacterDocument {
            sid,
            legacy_sqlite_id,
            name: sheet.character.name.clone(),
            class: sheet.character.class.clone(),
            race: sheet.character.race.clone(),
            level: sheet.character.level,
            sheet: sheet.clone(),
        }
    }

    /// Stores `doc`, replacing the record with the same id.
    fn put(&mut self, doc: CharacterDocument)
        requires
            old(self).wf(),
            doc.deep_view() == doc_of(doc.sid, doc.sheet.deep_view(), doc.legacy_sqlite_id),
        ensures
            final(self).wf(),
            final(self).docs() == upsert(old(self).docs(), doc.deep_view()),
            final(self).settings() == old(self).settings(),
            final(self).history() == old(self).history(),
    {
        let ghost d = doc.deep_view();
        proof {
            lemma_upsert(self.docs(), d);
        }
        match self.position(doc.sid) {
            Some(i) => {
                proof {
                    let j = choose|j: int| 0 <= j < self.docs().len() && #[trigger] self.docs()[j].sid == d.sid;
                    assert(j == i);
                }
                self.docs.set(i, doc);
                assert(self.docs() =~= upsert(old(self).docs(), d));
            },
            None => {
                self.docs.push(doc);
                assert(self.docs() =~= upsert(old(self).docs(), d));
            },
        }
    }

    /// Stores `sheet` under `sid`, replacing any record with that id.
    fn upsert_character(&mut self, sid: i64, sheet: &CharacterSheet) -> (r: Result<(), String>)
        requires
            old(self).wf(),
        ensures
            final(self).wf(),
            final(self).docs() == upsert(old(self).docs(), doc_of(sid, sheet.deep_view(), None)),
            final(self).settings() == old(self).settings(),
            final(self).history() == old(self).history(),
            r is Ok,
    {
        let doc = Self::to_doc(sid, sheet, None);
        self.put(doc);
        Ok(())
    }

    /// Stores a sheet converted from the legacy database under its legacy id,
    /// recording that id so it is not converted again.
    pub fn upsert_legacy_character(&mut self, legacy_id: i64, sheet: &CharacterSheet) -> (r: Result<
        (),
        String,
    >)
        requires
            old(self).wf(),
        ensures
            final(self).wf(),
            final(self).docs() == upsert(
                old(self).docs(),
                doc_of(legacy_id, sheet.deep_view(), Some(legacy_id)),
            ),
            final(self).settings() == old(self).settings(),
            final(self).history() == old(self).history(),
            r is Ok,
    {
        let doc = Self::to_doc(legacy_id, sheet, Some(legacy_id));
        self.put(doc);
        Ok(())
    }

    /// Stores a new character under the next free id and returns that id.
    pub fn create_character(&mut self, sheet: &CharacterSheet) -> (r: Result<i64, String>)
        requires
            old(self).wf(),
            old(self).can_create(),
        ensures
            final(self).wf(),
            r == Ok::<i64, String>(next_id(old(self).docs()) as i64),
            final(self).docs() == upsert(
                old(self).docs(),
                doc_of(next_id(old(self).docs()) as i64, sheet.deep_view(), None),
            ),
            final(self).settings() == old(self).settings(),
            final(self).history() == old(self).history(),
    {
        let sid = match self.next_character_id() {
            Ok(v) => v,
            Err(e) => return Err(e),
        };
        match self.upsert_character(sid, sheet) {
            Ok(()) => {},
            Err(e) => return Err(e),
        }
        Ok(sid)
    }

    /// The sheet stored under `id`, or a not-found error.
    pub fn load_character(&self, id: i64) -> (r: Result<CharacterSheet, String>)
        requires
            self.wf(),
        ensures
            match spec_load(self.docs(), id) {
                Ok(s) => r matches Ok(sheet) && sheet.deep_view() == s,
                Err(m) => r matches Err(e) && e@ == m,
            },
    {
        match self.position(id) {
            Some(i) => {
                proof {
                    lemma_find_doc(self.docs(), id, i as int);
                }
                assert(self.docs()[i as int].sheet == self.docs@[i as int].sheet.deep_view());
                Ok(self.docs[i].sheet.clone())
            },
            None => {
                let mut m = String::from_str("Character with id ");
                push_int(&mut m, id);
                push_str(&mut m, " not found");
                Err(m)
            },
        }
    }

    /// Replaces the sheet of the existing character `id`; a not-found error
    /// (and no change) when there is none.
    pub fn update_character(&mut self, id: i64, sheet: &CharacterSheet) -> (r: Result<(), String>)
        requires
            old(self).wf(),
        ensures
            final(self).wf(),
            final(self).settings() == old(self).settings(),
            final(self).history() == old(self).history(),
            has_sid(old(self).docs(), id) ==> r is Ok && final(self).docs() == upsert(
                old(self).docs(),
                doc_of(id, sheet.deep_view(), None),
            ),
            !has_sid(old(self).docs(), id) ==> final(self).docs() == old(self).docs() && (r matches Err(
                e,
            ) && e@ == not_found_message(id)),
    {
        match self.load_character(id) {
            Ok(_) => {},
            Err(e) => {
                return Err(e);
            },
        }
        self.upsert_character(id, sheet)
    }

    /// Saves a sheet: creates a new character when `id` is `None`, otherwise
    /// updates character `id`; returns the character's id.
    pub fn save_character(&mut self, id: Option<i64>, sheet: &CharacterSheet) -> (r: Result<
        i64,
        String,
    >)
        requires
            old(self).wf(),
            id is None ==> old(self).can_create(),
        ensures
            final(self).wf(),
            final(self).settings() == old(self).settings(),
            final(self).history() == old(self).history(),
            match id {
                None => r == Ok::<i64, String>(next_id(old(self).docs()) as i64) && final(self).docs()
                    == upsert(
                    old(self).docs(),
                    doc_of(next_id(old(self).docs()) as i64, sheet.deep_view(), None),
                ),
                Some(x) => if has_sid(old(self).docs(), x) {
                    r == Ok::<i64, String>(x) && final(self).docs() == upsert(
                        old(self).docs(),
                        doc_of(x, sheet.deep_view(), None),
                    )
                } else {
                    final(self).docs() == old(self).docs() && (r matches Err(e) && e@
                        == not_found_message(x))
                },
            },
    {
        match id {
            Some(existing_id) => {
                match self.update_character(existing_id, sheet) {
                    Ok(()) => Ok(existing_id),
                    Err(e) => Err(e),
                }
            },
            None => self.create_character(sheet),
        }
    }

    /// Removes character `id` (nothing happens when there is none).
    pub fn delete_character(&mut self, id: i64) -> (r: Result<(), String>)
        requires
            old(self).wf(),
        ensures
            final(self).wf(),
            final(self).docs() == remove_sid(old(self).docs(), id),
            final(self).settings() == old(self).settings(),
            final(self).history() == old(self).history(),
            r is Ok,
    {
        match self.position(id) {
            Some(i) => {
                let ghost before = self.docs();
                self.docs.remove(i);
                proof {
                    assert(self.docs() =~= before.remove(i as int));
                    lemma_remove_single(before, id, i as int);
                }
            },
            None => {
                proof {
                    lemma_remove_sid(self.docs(), id);
                }
            },
        }
        Ok(())
    }

    /// The characters as (id, name, class, level), in order of name.
    pub fn list_characters(&self) -> (r: Result<Vec<CharacterListEntry>, String>)
        ensures
            r matches Ok(list) && sorted_by_name(list.deep_view()) && list.deep_view().to_multiset()
                == self.docs().map_values(|d: DocModel| entry_of(d)).to_multiset(),
    {
        let ghost all = self.docs().map_values(|d: DocModel| entry_of(d));
        let mut out: Vec<CharacterListEntry> = Vec::new();
        let n = self.docs.len();
        let mut i: usize = 0;
        assert(all.take(0) =~= Seq::<EntryModel>::empty());
        while i < n
            invariant
                n == self.docs().len(),
                all == self.docs().map_values(|d: DocModel| entry_of(d)),
                i <= n,
                sorted_by_name(out.deep_view()),
                out.deep_view().to_multiset() == all.take(i as int).to_multiset(),
            decreases n - i,
        {
            let d = &self.docs[i];
            let e = CharacterListEntry {
                id: d.sid,
                name: d.name.clone(),
                class: d.class.clone(),
                level: d.level,
            };
            assert(e.deep_view() == all[i as int]);
            let ghost ov = out.deep_view();
            let m = out.len();
            let mut p: usize = 0;
            while p < m && name_less_eq(out[p].name.as_str(), e.name.as_str())
                invariant
                    m == out@.len(),
                    ov == out.deep_view(),
                    p <= m,
                    forall|k: int| 0 <= k < p ==> name_le(ov[k].name, e.name@),
                decreases m - p,
            {
                assert(ov[p as int].name == out@[p as int].name@);
                p = p + 1;
            }
            proof {
                if p < m {
                    assert(ov[p as int].name == out@[p as int].name@);
                    assert(!name_le(ov[p as int].name, e.name@));
                    lemma_name_le_total(ov[p as int].name, e.name@);
                    assert forall|k: int| p <= k < m implies !name_le(ov[k].name, e.name@)
                        && name_le(e.name@, ov[k].name) by {
                        if name_le(ov[k].name, e.name@) {
                            lemma_name_le_trans(ov[p as int].name, ov[k].name, e.name@);
                        }
                        lemma_name_le_total(ov[k].name, e.name@);
                    }
                }
            }
            let ghost ev = e.deep_view();
            out.insert(p, e);
            proof {
                let nv = out.deep_view();
                assert(nv =~= ov.insert(p as int, ev));
                assert forall|a: int, b: int| 0 <= a < b < nv.len() implies name_le(
                    nv[a].name,
                    nv[b].name,
                ) by {
                    if b < p {
                    } else if b == p {
                        assert(nv[a] == ov[a]);
                    } else if a < p {
                        assert(nv[b] == ov[b - 1]);
                        lemma_name_le_trans(ov[a].name, ev.name, ov[b - 1].name);
                    } else if a == p {
                        assert(nv[b] == ov[b - 1]);
                    } else {
                        assert(nv[a] == ov[a - 1] && nv[b] == ov[b - 1]);
                    }
                }
                vstd::seq_lib::to_multiset_insert(ov, p as int, ev);
                assert(all.take(i + 1) =~= all.take(i as int).push(all[i as int]));
                vstd::seq_lib::to_multiset_build(all.take(i as int), all[i as int]);
            }
            i = i + 1;
        }
        assert(all.take(n as int) =~= all);
        Ok(out)
    }

    /// The number of stored characters.
    pub fn character_count(&self) -> (r: Result<i64, String>)
        ensures
            r == Ok::<i64, String>(self.docs().len() as i64),
    {
        let list = match self.list_characters() {
            Ok(l) => l,
            Err(e) => return Err(e),
        };
        proof {
            let all = self.docs().map_values(|d: DocModel| entry_of(d));
            assert(list.deep_view().len() == list@.len());
            assert(list.deep_view().to_multiset().len() == all.to_multiset().len());
        }
        Ok(list.len() as i64)
    }

    /// Whether a character other than `exclude_id` is named `name`.
    pub fn name_exists(&self, name: &str, exclude_id: Option<i64>) -> (r: Result<bool, String>)
        requires
            self.wf(),
        ensures
            r == Ok::<bool, String>(spec_name_exists(self.docs(), name@, exclude_id)),
    {
        let n = self.docs.len();
        let mut i: usize = 0;
        while i < n
            invariant
                n == self.docs().len(),
                i <= n,
                forall|k: int|
                    0 <= k < i ==> !(#[trigger] self.docs()[k].name == name@ && match exclude_id {
                        Some(x) => self.docs()[k].sid != x,
                        None => true,
                    }),
            decreases n - i,
        {
            let d = &self.docs[i];
            assert(self.docs()[i as int] == d.deep_view());
            let other = match exclude_id {
                Some(x) => x != d.sid,
                None => true,
            };
            if str_eq(d.name.as_str(), name) && other {
                assert(self.docs()[i as int].name == name@);
                return Ok(true);
            }
            i = i + 1;
        }
        Ok(false)
    }

    /// The settings document stored under `key` (JSON text), if any.
    pub fn get_setting(&self, key: &str) -> (r: Result<Option<String>, String>)
        ensures
            r matches Ok(o) && (o is Some <==> self.settings().dom().contains(key@)),
            r matches Ok(Some(v)) ==> v@ == self.settings()[key@],
    {
        match self.settings.get(key) {
            Some(v) => Ok(Some(v.clone())),
            None => Ok(None),
        }
    }

    /// Stores the settings document `value` (JSON text) under `key`.
    pub fn set_setting(&mut self, key: &str, value: String) -> (r: Result<(), String>)
        requires
            old(self).wf(),
        ensures
            final(self).wf(),
            r is Ok,
            final(self).docs() == old(self).docs(),
            final(self).history() == old(self).history(),
            final(self).settings() == old(self).settings().insert(key@, value@),
    {
        let ghost old_map = self.settings.as_map();
        let ghost v = value;
        self.settings.insert(String::from_str(key), value);
        proof {
            assert(self.settings.as_map() == old_map.insert(key@, v));
            assert(self.settings() =~= old(self).settings().insert(key@, v@));
        }
        Ok(())
    }

    /// The saved command history (empty when none was saved).
    pub fn load_command_history(&self) -> (r: Result<Vec<String>, String>)
        ensures
            r matches Ok(v) && match self.history() {
                Some(h) => v.deep_view() == h,
                None => v@.len() == 0,
            },
    {
        match &self.command_history {
            Some(h) => {
                let c = h.clone();
                assert(c.deep_view() =~= h.deep_view());
                Ok(c)
            },
            None => Ok(Vec::new()),
        }
    }

    /// Saves the command history.
    pub fn save_command_history(&mut self, commands: &Vec<String>) -> (r: Result<(), String>)
        requires
            old(self).wf(),
        ensures
            final(self).wf(),
            r is Ok,
            final(self).history() == Some(commands.deep_view()),
            final(self).docs() == old(self).docs(),
            final(self).settings() == old(self).settings(),
    {
        let c = commands.clone();
        assert(c.deep_view() =~= commands.deep_view());
        self.command_history = Some(c);
        Ok(())
    }
}

// ---------------------------------------------------------------------------
// The loaded character and the character list, against the store
// ---------------------------------------------------------------------------

impl CharacterData {
    /// Saves the loaded sheet: a new record when the character has no id
    /// yet, an update of its record otherwise. On success the character has
    /// the record's id and counts as unmodified; on failure nothing changes.
    pub fn save_to_database(&mut self, db: &mut CharacterDatabase) -> (r: Result<(), String>)
        requires
            old(db).wf(),
            old(self).character_id is None ==> old(db).can_create(),
        ensures
            final(db).wf(),
            final(db).settings() == old(db).settings(),
            final(db).history() == old(db).history(),
            final(self).sheet == old(self).sheet,
            final(self).needs_refresh == old(self).needs_refresh,
            r is Ok ==> (final(self).character_id matches Some(id) && old(self).sheet matches Some(
                sheet,
            ) && spec_load(final(db).docs(), id) == Ok::<CharacterSheetModel, Seq<char>>(
                sheet.deep_view(),
            )),
            match old(self).sheet {
                None => r matches Err(e) && e@ == "No character data to save"@ && *final(self)
                    == *old(self) && final(db).docs() == old(db).docs(),
                Some(sheet) => match old(self).character_id {
                    None => r is Ok && final(self).character_id == Some(
                        next_id(old(db).docs()) as i64,
                    ) && !final(self).is_modified && final(db).docs() == upsert(
                        old(db).docs(),
                        doc_of(next_id(old(db).docs()) as i64, sheet.deep_view(), None),
                    ),
                    Some(x) => if has_sid(old(db).docs(), x) {
                        r is Ok && final(self).character_id == Some(x) && !final(self).is_modified
                            && final(db).docs() == upsert(
                            old(db).docs(),
                            doc_of(x, sheet.deep_view(), None),
                        )
                    } else {
                        (r matches Err(e) && e@ == not_found_message(x)) && *final(self)
                            == *old(self) && final(db).docs() == old(db).docs()
                    },
                },
            },
    {
        let sheet = match &self.sheet {
            Some(s) => s,
            None => {
                return Err(String::from_str("No character data to save"));
            },
        };
        let ghost before = old(db).docs();
        let id = match db.save_character(self.character_id, sheet) {
            Ok(id) => id,
            Err(e) => {
                return Err(e);
            },
        };
        proof {
            law_load_returns_stored_sheet(before, id, sheet.deep_view(), None);
        }
        self.character_id = Some(id);
        self.is_modified = false;
        Ok(())
    }

    /// The character stored under `id`, freshly loaded and marked for a
    /// refresh of the display; the not-found error when there is none.
    pub fn load_from_database(db: &CharacterDatabase, id: i64) -> (r: Result<CharacterData, String>)
        requires
            db.wf(),
        ensures
            match spec_load(db.docs(), id) {
                Ok(s) => r matches Ok(c) && (c.sheet matches Some(sh) && sh.deep_view() == s)
                    && c.character_id == Some(id) && !c.is_modified && c.needs_refresh,
                Err(m) => r matches Err(e) && e@ == m,
            },
    {
        let sheet = match db.load_character(id) {
            Ok(s) => s,
            Err(e) => {
                return Err(e);
            },
        };
        Ok(CharacterData { sheet: Some(sheet), character_id: Some(id), is_modified: false, needs_refresh: true })
    }
}

/// The characters offered for selection, the selected one, and a counter
/// bumped whenever the list must be rebuilt.
pub struct CharacterManager {
    pub characters: Vec<CharacterListEntry>,
    pub current_character_id: Option<i64>,
    pub list_version: u32,
}

impl CharacterManager {
    /// No characters, none selected.
    pub fn default() -> (r: CharacterManager)
        ensures
            r.characters@.len() == 0,
            r.current_character_id is None,
            r.list_version == 0,
    {
        CharacterManager { characters: Vec::new(), current_character_id: None, list_version: 0 }
    }

    /// Reloads the list from the store: afterwards it holds one entry per
    /// stored character, in order of name; the selection and the counter stay.
    pub fn refresh_from_database(&mut self, db: &CharacterDatabase)
        ensures
            sorted_by_name(final(self).characters.deep_view()),
            final(self).characters.deep_view().to_multiset() == db.docs().map_values(
                |d: DocModel| entry_of(d),
            ).to_multiset(),
            final(self).current_character_id == old(self).current_character_id,
            final(self).list_version == old(self).list_version,
    {
        match db.list_characters() {
            Ok(entries) => {
                self.characters = entries;
            },
            Err(_) => {},
        }
    }
}

proof fn lemma_remove_single(docs: Seq<DocModel>, id: i64, i: int)
    requires
        sids_distinct(docs),
        0 <= i < docs.len(),
        docs[i].sid == id,
    ensures
        docs.remove(i) == remove_sid(docs, id),
    decreases docs.len(),
{
    let p = docs.drop_last();
    if i == docs.len() - 1 {
        assert(docs.remove(i) =~= p);
        assert(!has_sid(p, id)) by {
            if has_sid(p, id) {
                let j = choose|j: int| 0 <= j < p.len() && #[trigger] p[j].sid == id;
                assert(docs[j].sid == docs[i].sid);
            }
        }
        lemma_remove_sid(p, id);
    } else {
        assert(sids_distinct(p));
        assert(p[i].sid == id);
        lemma_remove_single(p, id, i);
        assert(docs.last().sid != id) by {
            assert(docs[docs.len() - 1].sid != docs[i].sid);
        }
        assert(docs.remove(i) =~= p.remove(i).push(docs.last()));
    }
}


// ---------------------------------------------------------------------------
// Laws of the store
// ---------------------------------------------------------------------------

/// Loading a character gives back the sheet last stored under its id, and
/// storing a sheet leaves what the other ids load unchanged.
pub proof fn law_load_returns_stored_sheet(docs: Seq<DocModel>, id: i64, sheet: CharacterSheetModel, legacy: Option<i64>)
    requires
        sids_distinct(docs),
    ensures
        spec_load(upsert(docs, doc_of(id, sheet, legacy)), id) == Ok::<CharacterSheetModel, Seq<char>>(sheet),
        forall|k: i64|
            k != id ==> #[trigger] spec_load(upsert(docs, doc_of(id, sheet, legacy)), k) == spec_load(docs, k),
        sids_distinct(upsert(docs, doc_of(id, sheet, legacy))),
{
    lemma_upsert(docs, doc_of(id, sheet, legacy));
}

/// After a character is deleted, loading it fails with the not-found
/// message, and every other id loads what it loaded before.
pub proof fn law_deleted_character_is_not_found(docs: Seq<DocModel>, id: i64)
    requires
        sids_distinct(docs),
    ensures
        spec_load(remove_sid(docs, id), id) == Err::<CharacterSheetModel, Seq<char>>(not_found_message(id)),
        forall|k: i64| k != id ==> #[trigger] spec_load(remove_sid(docs, id), k) == spec_load(docs, k),
        sids_distinct(remove_sid(docs, id)),
{
    lemma_remove_sid(docs, id);
}

/// A new character's id is in use by no stored character and is larger than
/// every id in use, so creating a character adds exactly one record.
pub proof fn law_new_id_is_fresh(docs: Seq<DocModel>, sheet: CharacterSheetModel)
    requires
        sids_distinct(docs),
        next_id(docs) <= i64::MAX,
    ensures
        !has_sid(docs, next_id(docs) as i64),
        forall|i: int| 0 <= i < docs.len() ==> #[trigger] docs[i].sid < next_id(docs),
        upsert(docs, doc_of(next_id(docs) as i64, sheet, None)).len() == docs.len() + 1,
{
    lemma_max_sid(docs);
    if docs.len() > 0 {
        let i = choose|i: int| 0 <= i < docs.len() && #[trigger] docs[i].sid == max_sid(docs);
        assert(docs[i].sid >= i64::MIN);
    }
    if has_sid(docs, next_id(docs) as i64) {
        let i = choose|i: int| 0 <= i < docs.len() && #[trigger] docs[i].sid == next_id(docs) as i64;
        assert(docs[i].sid <= max_sid(docs));
    }
    lemma_upsert(docs, doc_of(next_id(docs) as i64, sheet, None));
}

/// Updating a character that is not stored changes nothing; updating one that
/// is stored keeps the number of characters.
pub proof fn law_update_keeps_count(docs: Seq<DocModel>, id: i64, sheet: CharacterSheetModel)
    requires
        sids_distinct(docs),
        has_sid(docs, id),
    ensures
        upsert(docs, doc_of(id, sheet, None)).len() == docs.len(),
{
    lemma_upsert(docs, doc_of(id, sheet, None));
}

/// Once a sheet is stored, a search for its name finds it, with no id
/// excluded or with the id of another character excluded.
pub proof fn law_stored_name_exists(docs: Seq<DocModel>, id: i64, sheet: CharacterSheetModel, other: i64)
    requires
        sids_distinct(docs),
        other != id,
    ensures
        spec_name_exists(upsert(docs, doc_of(id, sheet, None)), sheet.character.name, None),
        spec_name_exists(upsert(docs, doc_of(id, sheet, None)), sheet.character.name, Some(other)),
{
    let d = doc_of(id, sheet, None);
    let u = upsert(docs, d);
    lemma_upsert(docs, d);
    let i = if has_sid(docs, id) {
        choose|i: int| 0 <= i < docs.len() && #[trigger] docs[i].sid == id
    } else {
        docs.len() as int
    };
    assert(u[i] == d);
    assert(u[i].name == sheet.character.name);
}

/// A settings document reads back as it was stored, and storing one leaves
/// the other keys as they were.
pub proof fn law_setting_reads_back(settings: Map<Seq<char>, Seq<char>>, key: Seq<char>, value: Seq<char>, other: Seq<char>)
    requires
        other != key,
    ensures
        settings.insert(key, value).dom().contains(key),
        settings.insert(key, value)[key] == value,
        settings.insert(key, value).dom().contains(other) == settings.dom().contains(other),
        settings.dom().contains(other) ==> settings.insert(key, value)[other] == settings[other],
{
}

} // verus!
