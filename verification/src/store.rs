//! Documents as the store keeps them: ids, timestamps, schema versions and
//! the checks the file store makes before it touches a path.
//!
//! Every stored thing is a `Document`: an id, timestamps, an optional name,
//! a `schema_version`, and a JSON body. Old bodies are migrated on read
//! (`migrate`), never in place; documents from newer builds are refused.

use vstd::prelude::*;
use std::path::PathBuf;
use crate::text::{append_decimal, decimal, chars_lt, str_eq, str_lt, lemma_chars_lt_irreflexive, lemma_chars_lt_transitive, lemma_chars_lt_total};
use vstd::relations::sorted_by;

verus! {

/// A JSON value, carried through unread.
#[verifier::external_type_specification]
#[verifier::external_body]
pub struct ExValue(serde_json::Value);

/// A file system path.
#[verifier::external_type_specification]
#[verifier::external_body]
pub struct ExPathBuf(PathBuf);

/// A file system failure.
#[verifier::external_type_specification]
#[verifier::external_body]
pub struct ExIoError(std::io::Error);

/// A JSON failure.
#[verifier::external_type_specification]
#[verifier::external_body]
pub struct ExJsonError(serde_json::Error);

/// The document schema this build writes and the newest it can read.
pub const SCHEMA_VERSION: u32 = 1;

/// Which kind of document.
#[derive(Debug, Clone, Copy, PartialEq, Eq, Hash, PartialOrd, Ord, Structural)]
pub enum Collection {
    /// Owned operators and their promotion state.
    Rosters,
    /// Room layouts.
    Bases,
    /// Solve jobs: request, status, and result.
    Solves,
}

impl Collection {
    /// Every collection.
    pub const ALL: [Collection; 3] = [Collection::Rosters, Collection::Bases, Collection::Solves];

    /// Directory and URL segment.
    pub open spec fn spec_str(self) -> Seq<char> {
        match self {
            Collection::Rosters => "rosters"@,
            Collection::Bases => "bases"@,
            Collection::Solves => "solves"@,
        }
    }

    /// Directory and URL segment.
    pub fn as_str(self) -> (r: &'static str)
        ensures
            r@ == self.spec_str(),
    {
        match self {
            Collection::Rosters => "rosters",
            Collection::Bases => "bases",
            Collection::Solves => "solves",
        }
    }
}


/// What a UUID looks like as text: 36 characters, hyphens at 8, 13, 18 and
/// 23, lowercase hex digits elsewhere.
pub open spec fn uuid_text(s: Seq<char>) -> bool {
    &&& s.len() == 36
    &&& forall|i: int| 0 <= i < 36 ==> if i == 8 || i == 13 || i == 18 || i == 23 {
        #[trigger] s[i] == '-'
    } else {
        ('0' <= s[i] <= '9') || ('a' <= s[i] <= 'f')
    }
}

/// A fresh random id (`uuid::Uuid::new_v4`, written as text). The uuid
/// crate writes a UUID as its hyphenated lowercase hex form; which UUID
/// comes out is chance.
#[verifier::external_body]
fn fresh_id() -> (r: String)
    ensures
        uuid_text(r@),
{
    uuid::Uuid::new_v4().to_string()
}

/// Whether a character is an ASCII digit.
pub open spec fn is_digit(c: char) -> bool {
    '0' <= c <= '9'
}

/// The form of an RFC 3339 UTC time with milliseconds as chrono writes it:
/// a year (four digits, or `+` and five or more digits past year 9999),
/// then `-MM-DDTHH:MM:SS.mmmZ`, every field zero-padded.
pub open spec fn rfc3339_millis(s: Seq<char>) -> bool {
    let y = s.len() - 20;
    &&& s.len() >= 24
    &&& ((y == 4 && forall|i: int| 0 <= i < 4 ==> is_digit(#[trigger] s[i])) || (y >= 6 && s[0] == '+'
        && forall|i: int| 1 <= i < y ==> is_digit(#[trigger] s[i])))
    &&& s[y] == '-' && is_digit(s[y + 1]) && is_digit(s[y + 2])
    &&& s[y + 3] == '-' && is_digit(s[y + 4]) && is_digit(s[y + 5])
    &&& s[y + 6] == 'T' && is_digit(s[y + 7]) && is_digit(s[y + 8])
    &&& s[y + 9] == ':' && is_digit(s[y + 10]) && is_digit(s[y + 11])
    &&& s[y + 12] == ':' && is_digit(s[y + 13]) && is_digit(s[y + 14])
    &&& s[y + 15] == '.' && is_digit(s[y + 16]) && is_digit(s[y + 17]) && is_digit(s[y + 18])
    &&& s[y + 19] == 'Z'
}

/// The current time as the store writes it: RFC 3339, UTC, milliseconds
/// (`chrono::Utc::now().to_rfc3339_opts(SecondsFormat::Millis, true)`).
/// chrono's `write_rfc3339` writes the year as four digits (or signed past
/// year 9999), every other field as two digits, three digits of
/// milliseconds, and a zero offset as `Z` when asked to; which time it is,
/// is the clock's.
#[verifier::external_body]
pub fn now() -> (r: String)
    ensures
        rfc3339_millis(r@),
{
    chrono::Utc::now().to_rfc3339_opts(chrono::SecondsFormat::Millis, true)
}

/// One stored thing.
#[derive(Debug, PartialEq)]
pub struct Document {
    /// A UUID.
    pub id: String,
    /// The schema the body was written with.
    pub schema_version: u32,
    /// RFC 3339, UTC.
    pub created_at: String,
    /// RFC 3339, UTC.
    pub updated_at: String,
    /// Display name, if any.
    pub name: Option<String>,
    /// The payload.
    pub body: serde_json::Value,
}

/// What a listing shows about a document.
#[derive(Debug, Clone, PartialEq, Eq)]
pub struct DocumentMeta {
    /// A UUID.
    pub id: String,
    /// Display name, if any.
    pub name: Option<String>,
    /// The schema the body was written with.
    pub schema_version: u32,
    /// RFC 3339, UTC.
    pub created_at: String,
    /// RFC 3339, UTC.
    pub updated_at: String,
}

/// A copy of an optional name.
fn copy_name(n: &Option<String>) -> (r: Option<String>)
    ensures
        r == *n,
{
    match n {
        Some(s) => Some(s.clone()),
        None => None,
    }
}

impl Document {
    /// A new document with a fresh id and the current schema version.
    pub fn new(name: Option<String>, body: serde_json::Value) -> (r: Self)
        ensures
            uuid_text(r.id@),
            r.schema_version == SCHEMA_VERSION,
            r.created_at@ == r.updated_at@,
            rfc3339_millis(r.created_at@),
            r.name == name,
            r.body == body,
    {
        let now = now();
        Document {
            id: fresh_id(),
            schema_version: SCHEMA_VERSION,
            created_at: now.clone(),
            updated_at: now,
            name,
            body,
        }
    }

    /// Bumps `updated_at`.
    pub fn touch(&mut self)
        ensures
            final(self).id == old(self).id,
            final(self).schema_version == old(self).schema_version,
            final(self).created_at == old(self).created_at,
            final(self).name == old(self).name,
            final(self).body == old(self).body,
            rfc3339_millis(final(self).updated_at@),
    {
        self.updated_at = now();
    }

    /// The listing view.
    pub fn meta(&self) -> (r: DocumentMeta)
        ensures
            r.id == self.id,
            r.name == self.name,
            r.schema_version == self.schema_version,
            r.created_at == self.created_at,
            r.updated_at == self.updated_at,
    {
        DocumentMeta {
            id: self.id.clone(),
            name: copy_name(&self.name),
            schema_version: self.schema_version,
            created_at: self.created_at.clone(),
            updated_at: self.updated_at.clone(),
        }
    }
}

/// Why a store operation failed.
#[derive(Debug)]
pub enum StoreError {
    /// The id is not one this store could have issued.
    BadId(String),
    /// File system failure at a path, the path as `Path::display` writes it.
    Io { path: String, source: std::io::Error },
    /// A stored file is not a document; the path as `Path::display` writes it.
    Json { path: String, source: serde_json::Error },
    /// The document was written by a newer build.
    NewerSchema { id: String, version: u32, supported: u32 },
    /// No migration path from the document's version.
    Migration { id: String, from: u32, reason: String },
}

/// A string as `{:?}` writes it: quoted, with escapes.
pub uninterp spec fn debug_text(s: Seq<char>) -> Seq<char>;

/// A string quoted and escaped as `{:?}` writes it (std's `Debug` for
/// `str`), which depends on the string alone.
#[verifier::external_body]
fn quoted(s: &str) -> (r: String)
    ensures
        r@ == debug_text(s@),
{
    format!("{s:?}")
}

/// An I/O error as its `Display` writes it; the text comes from the
/// operating system, and nothing is claimed of it.
#[verifier::external_body]
fn io_text(e: &std::io::Error) -> String {
    format!("{e}")
}

/// A JSON error as serde_json's `Display` writes it. Nothing is claimed
/// of the text.
#[verifier::external_body]
fn json_text(e: &serde_json::Error) -> String {
    format!("{e}")
}

impl StoreError {
    /// What went wrong, in words.
    pub fn message(&self) -> (r: String)
        ensures
            match self {
                StoreError::BadId(id) => r@ == "invalid document id "@ + debug_text(id@),
                StoreError::Io { path, .. } => exists|t: Seq<char>| r@ == path@ + ": "@ + t,
                StoreError::Json { path, .. } => exists|t: Seq<char>| r@ == path@ + ": not a document: "@ + t,
                StoreError::NewerSchema { id, version, supported } => r@ == "document "@ + id@
                    + " has schema version "@ + decimal(*version as nat) + ", newer than the supported "@
                    + decimal(*supported as nat),
                StoreError::Migration { id, from, reason } => r@ == "document "@ + id@
                    + ": cannot migrate from version "@ + decimal(*from as nat) + ": "@ + reason@,
            },
    {
        match self {
            StoreError::BadId(id) => {
                let mut out = "invalid document id ".to_owned();
                let q = quoted(id.as_str());
                out.append(q.as_str());
                out
            },
            StoreError::Io { path, source } => {
                let mut out = path.clone();
                let ghost a = out@;
                out.append(": ");
                let t = io_text(source);
                out.append(t.as_str());
                proof {
                    assert(out@ == a + ": "@ + t@);
                }
                out
            },
            StoreError::Json { path, source } => {
                let mut out = path.clone();
                let ghost a = out@;
                out.append(": not a document: ");
                let t = json_text(source);
                out.append(t.as_str());
                proof {
                    assert(out@ == a + ": not a document: "@ + t@);
                }
                out
            },
            StoreError::NewerSchema { id, version, supported } => {
                let mut out = "document ".to_owned();
                out.append(id.as_str());
                out.append(" has schema version ");
                append_decimal(&mut out, *version as usize);
                out.append(", newer than the supported ");
                append_decimal(&mut out, *supported as usize);
                out
            },
            StoreError::Migration { id, from, reason } => {
                let mut out = "document ".to_owned();
                out.append(id.as_str());
                out.append(": cannot migrate from version ");
                append_decimal(&mut out, *from as usize);
                out.append(": ");
                out.append(reason.as_str());
                out
            },
        }
    }
}

/// One migration step. An arm goes here when `SCHEMA_VERSION` is bumped;
/// today no version has a step.
fn step(doc: Document) -> (r: Result<Document, StoreError>)
    ensures
        r matches Err(StoreError::Migration { id, from, reason }) && id == doc.id && from == doc.schema_version
            && reason@ == "no migration is defined for this version"@,
{
    Err(
        StoreError::Migration {
            id: doc.id,
            from: doc.schema_version,
            reason: "no migration is defined for this version".to_owned(),
        },
    )
}

/// Brings a document up to `SCHEMA_VERSION`. Documents from newer builds
/// are refused rather than guessed at.
pub fn migrate(doc: Document) -> (r: Result<Document, StoreError>)
    ensures
        doc.schema_version == SCHEMA_VERSION ==> r == Ok::<Document, StoreError>(doc),
        doc.schema_version > SCHEMA_VERSION ==> (r matches Err(StoreError::NewerSchema { id, version, supported })
            && id == doc.id && version == doc.schema_version && supported == SCHEMA_VERSION),
        doc.schema_version < SCHEMA_VERSION ==> (r matches Err(StoreError::Migration { id, from, reason })
            && id == doc.id && from == doc.schema_version && reason@ == "no migration is defined for this version"@),
{
    let mut cur = doc;
    while cur.schema_version < SCHEMA_VERSION
        invariant
            cur == doc,
        decreases SCHEMA_VERSION - cur.schema_version,
    {
        match step(cur) {
            Ok(d) => {
                cur = d;
            },
            Err(e) => {
                return Err(e);
            },
        }
    }
    if cur.schema_version > SCHEMA_VERSION {
        return Err(
            StoreError::NewerSchema {
                id: cur.id,
                version: cur.schema_version,
                supported: SCHEMA_VERSION,
            },
        );
    }
    Ok(cur)
}


/// A character a document id may hold.
pub open spec fn id_char(c: char) -> bool {
    ('a' <= c <= 'z') || ('A' <= c <= 'Z') || ('0' <= c <= '9') || c == '-' || c == '_'
}

/// An id this store could have issued: 1 to 64 ASCII letters, digits,
/// hyphens and underscores.
pub open spec fn valid_id(id: Seq<char>) -> bool {
    0 < id.len() <= 64 && forall|i: int| 0 <= i < id.len() ==> id_char(#[trigger] id[i])
}

/// Whether a store could have issued an id.
pub fn is_valid_id(id: &str) -> (r: bool)
    ensures
        r == valid_id(id@),
{
    let n = id.unicode_len();
    if n == 0 || n > 64 {
        return false;
    }
    let mut i: usize = 0;
    while i < n
        invariant
            n == id@.len(),
            i <= n,
            forall|j: int| 0 <= j < i ==> id_char(#[trigger] id@[j]),
        decreases n - i,
    {
        let c = id.get_char(i);
        let ok = ('a' <= c && c <= 'z') || ('A' <= c && c <= 'Z') || ('0' <= c && c <= '9') || c == '-' || c == '_';
        if !ok {
            return false;
        }
        i = i + 1;
    }
    true
}

/// Every id a new document gets is one the store accepts.
pub proof fn law_fresh_ids_are_valid(id: Seq<char>)
    requires
        uuid_text(id),
    ensures
        valid_id(id),
{
    assert forall|i: int| 0 <= i < id.len() implies id_char(#[trigger] id[i]) by {
        if i == 8 || i == 13 || i == 18 || i == 23 {
            assert(id[i] == '-');
        }
    }
}

/// A document's place in a store: the directory `collection.as_str()` under
/// the root, and the file name in it.
#[derive(Debug, Clone, PartialEq, Eq)]
pub struct DocumentPath {
    /// The directory under the root.
    pub collection: Collection,
    /// The file name: the id and `.json`.
    pub file: String,
}

/// A directory of JSON files, one directory per collection, one file per
/// document.
#[derive(Debug)]
pub struct FileStore {
    root: PathBuf,
}

impl FileStore {
    /// The directory the store lives in.
    pub closed spec fn root_path(&self) -> PathBuf {
        self.root
    }

    /// A store rooted at `root`, whose collection directories exist.
    pub fn from_root(root: PathBuf) -> (r: Self)
        ensures
            r.root_path() == root,
    {
        FileStore { root }
    }

    /// Where the files live.
    pub fn root(&self) -> (r: &PathBuf)
        ensures
            *r == self.root_path(),
    {
        &self.root
    }

    /// Where a document lives under the root: the collection's directory
    /// and the file `id.json`, for an id the store could have issued. No
    /// other id yields a path, so nothing outside `root/collection` is ever
    /// named.
    pub fn path(&self, collection: Collection, id: &str) -> (r: Result<DocumentPath, StoreError>)
        ensures
            r is Ok <==> valid_id(id@),
            r matches Ok(p) ==> p.collection == collection && p.file@ == id@ + ".json"@,
            !valid_id(id@) ==> (r matches Err(StoreError::BadId(s)) && s@ == id@),
    {
        if !is_valid_id(id) {
            return Err(StoreError::BadId(id.to_owned()));
        }
        let mut file = id.to_owned();
        file.append(".json");
        Ok(DocumentPath { collection, file })
    }
}

/// Whether `a` lists before `b`: newer first, then by id.
pub open spec fn lists_before(a: DocumentMeta, b: DocumentMeta) -> bool {
    chars_lt(b.created_at@, a.created_at@) || (a.created_at@ == b.created_at@ && chars_lt(a.id@, b.id@))
}

/// `a` may list before `b`.
pub open spec fn lists_no_later() -> spec_fn(DocumentMeta, DocumentMeta) -> bool {
    |a: DocumentMeta, b: DocumentMeta| !lists_before(b, a)
}

/// The first position from `j` on whose entry `x` lists before, or the
/// length when there is none.
pub open spec fn slot_for(s: Seq<DocumentMeta>, x: DocumentMeta, j: int) -> int
    decreases s.len() - j,
{
    if j < 0 || j >= s.len() {
        s.len() as int
    } else if lists_before(x, s[j]) {
        j
    } else {
        slot_for(s, x, j + 1)
    }
}

/// A listing ordered by inserting each entry in turn before the first one
/// it lists before, so that entries neither lists before keep their order.
pub open spec fn listing_order(s: Seq<DocumentMeta>) -> Seq<DocumentMeta>
    decreases s.len(),
{
    if s.len() == 0 {
        s
    } else {
        let done = listing_order(s.drop_last());
        done.insert(slot_for(done, s.last(), 0), s.last())
    }
}

/// Creation times never increase along a listing, and entries created at
/// the same time list in id order.
pub open spec fn newest_first(s: Seq<DocumentMeta>) -> bool {
    forall|i: int, j: int|
        0 <= i < j < s.len() ==> !chars_lt((#[trigger] s[i]).created_at@, (#[trigger] s[j]).created_at@) && (
        s[i].created_at@ == s[j].created_at@ ==> !chars_lt(s[j].id@, s[i].id@))
}

/// A listing in `lists_no_later` order is newest first by creation time,
/// then by id.
pub proof fn law_listing_newest_first(s: Seq<DocumentMeta>)
    ensures
        sorted_by(s, lists_no_later()) ==> newest_first(s),
{
    if sorted_by(s, lists_no_later()) {
        assert forall|i: int, j: int| 0 <= i < j < s.len() implies !chars_lt(
            (#[trigger] s[i]).created_at@,
            (#[trigger] s[j]).created_at@,
        ) && (s[i].created_at@ == s[j].created_at@ ==> !chars_lt(s[j].id@, s[i].id@)) by {
            assert(lists_no_later()(s[i], s[j]));
        }
    }
}

/// Orders a listing newest first, then by id; ties keep their order.
pub fn order_listing(metas: Vec<DocumentMeta>) -> (r: Vec<DocumentMeta>)
    ensures
        r@ == listing_order(metas@),
        r@.to_multiset() == metas@.to_multiset(),
        sorted_by(r@, lists_no_later()),
        newest_first(r@),
{
    proof {
        law_listing_newest_first(listing_order(metas@));
    }
    broadcast use vstd::seq_lib::group_to_multiset_ensures;
    let ghost le = lists_no_later();
    let mut rest = metas;
    let mut out: Vec<DocumentMeta> = Vec::new();
    let ghost all = rest@;
    let ghost mut taken: int = 0;
    proof {
        assert(all.take(0) =~= Seq::<DocumentMeta>::empty());
        assert(rest@ =~= all.skip(0));
    }
    while rest.len() > 0
        invariant
            le == lists_no_later(),
            0 <= taken <= all.len(),
            rest@ == all.skip(taken),
            out@.to_multiset() == all.take(taken).to_multiset(),
            out@ == listing_order(all.take(taken)),
            sorted_by(out@, le),
        decreases rest@.len(),
    {
        let ghost before_rest = rest@;
        let x = rest.remove(0);
        proof {
            assert(x == all[taken]);
            assert(rest@ =~= all.skip(taken + 1));
        }
        let mut p: usize = 0;
        let mut done = false;
        while !done && p < out.len()
            invariant
                le == lists_no_later(),
                sorted_by(out@, le),
                p <= out@.len(),
                forall|j: int| 0 <= j < p ==> !lists_before(x, #[trigger] out@[j]),
                done ==> p < out@.len() && lists_before(x, out@[p as int]),
                slot_for(out@, x, 0) == if done { p as int } else { slot_for(out@, x, p as int) },
            decreases out@.len() - p + (if done { 0int } else { 1int }),
        {
            let y = &out[p];
            let earlier = if str_eq(x.created_at.as_str(), y.created_at.as_str()) {
                str_lt(x.id.as_str(), y.id.as_str())
            } else {
                str_lt(y.created_at.as_str(), x.created_at.as_str())
            };
            proof {
                lemma_chars_lt_irreflexive(x.created_at@);
            }
            if earlier {
                done = true;
            } else {
                p = p + 1;
            }
        }
        proof {
            if !done {
                assert(slot_for(out@, x, p as int) == out@.len());
            }
        }
        let ghost before = out@;
        proof {
            assert forall|j: int| 0 <= j < p implies #[trigger] le(before[j], x) by {
                assert(!lists_before(x, before[j]));
            }
            if done {
                lemma_lists_before_total(x, before[p as int]);
            }
        }
        out.insert(p, x);
        proof {
            let t = out@;
            assert(t =~= before.insert(p as int, x));
            assert forall|a: int, b: int| 0 <= a < b < t.len() implies #[trigger] le(t[a], t[b]) by {
                if b < p {
                    assert(le(before[a], before[b]));
                } else if b == p {
                    assert(le(before[a], x));
                } else if a == p {
                    if b - 1 > p {
                        assert(le(before[p as int], before[b - 1]));
                        lemma_lists_no_later_transitive(x, before[p as int], before[b - 1]);
                    }
                } else if a < p {
                    assert(le(before[a], before[b - 1]));
                } else {
                    assert(le(before[a - 1], before[b - 1]));
                }
            }
            vstd::seq_lib::to_multiset_insert(before, p as int, x);
            assert(all.take(taken + 1) =~= all.take(taken).push(x));
            assert(all.take(taken + 1).drop_last() =~= all.take(taken));
            vstd::seq_lib::to_multiset_build(all.take(taken), x);
            taken = taken + 1;
        }
    }
    proof {
        assert(all.take(taken) =~= all);
    }
    out
}

/// `lists_before` is total on metas with different keys, and asymmetric.
proof fn lemma_lists_before_total(a: DocumentMeta, b: DocumentMeta)
    ensures
        lists_before(a, b) ==> !lists_before(b, a),
{
    lemma_chars_lt_irreflexive(a.created_at@);
    lemma_chars_lt_irreflexive(a.id@);
    if chars_lt(b.created_at@, a.created_at@) && chars_lt(a.created_at@, b.created_at@) {
        lemma_chars_lt_transitive(a.created_at@, b.created_at@, a.created_at@);
    }
    if chars_lt(a.id@, b.id@) && chars_lt(b.id@, a.id@) {
        lemma_chars_lt_transitive(a.id@, b.id@, a.id@);
    }
}

/// `lists_no_later` chains.
proof fn lemma_lists_no_later_transitive(a: DocumentMeta, b: DocumentMeta, c: DocumentMeta)
    requires
        lists_before(a, b),
        !lists_before(c, b),
    ensures
        !lists_before(c, a),
{
    let (ta, tb, tc) = (a.created_at@, b.created_at@, c.created_at@);
    if ta != tb {
        lemma_chars_lt_total(ta, tb);
    }
    if tb != tc {
        lemma_chars_lt_total(tb, tc);
    }
    if lists_before(c, a) {
        if chars_lt(ta, tc) {
            if chars_lt(tb, ta) {
                lemma_chars_lt_transitive(tb, ta, tc);
                if tb == tc {
                    lemma_chars_lt_irreflexive(tb);
                }
            }
        }
        if tc == ta && chars_lt(c.id@, a.id@) {
            if tb == ta {
                lemma_chars_lt_transitive(c.id@, a.id@, b.id@);
            } else {
                lemma_chars_lt_transitive(tc, tb, tc);
                lemma_chars_lt_irreflexive(tc);
            }
        }
    }
}

} // verus!
