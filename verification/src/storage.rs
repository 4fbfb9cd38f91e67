//! The storage adapter: one connection to an embedded SQL store, a ghost
//! table modelling its rows, trusted wrappers around the engine calls, and
//! the verified operations — upsert, point lookup, paginated scan, delete.

use crate::engine::table_of;
use crate::entity::{CodecFault, Entity, Key};
use crate::model::{
    distinct_keys, lemma_remove_distinct, lemma_remove_values_nul_free, lemma_upsert_distinct,
    lemma_upsert_values_nul_free, lookup, nul_free, remove_key, upsert, values_nul_free, values_of,
    window, Row,
};
use vstd::prelude::*;
use vstd::string::*;

verus! {

/// The closed set of failures a caller can see.
#[derive(Debug)]
pub enum StorageError {
    /// A lookup by identifier found no row; carries the stringified identifier.
    NotFound(String),
    /// Encoding or decoding a stored value failed; carries the codec's diagnostic.
    FormattingError(CodecFault),
    /// The engine reported a failure; carries the engine's diagnostic.
    SqliteError(sqlite::Error),
    /// The operation is declared but not backed by logic.
    Unimplemented,
}

/// A key-value store over one table `data(key TEXT PRIMARY KEY, value TEXT)`
/// of an embedded SQL database, file-backed or in-memory.
pub struct SqliteStorage {
    connection: sqlite::Connection,
}

/// Relies on `sqlite::open` and `Connection::execute`: opens or creates the
/// store at `path` and runs `CREATE TABLE IF NOT EXISTS` for the `data`
/// table, whose primary key keeps row keys distinct. `sqlite::open` on the
/// reserved locator `:memory:` yields a fresh database with no rows. For a
/// file-backed locator the claims about a reopened store — keys distinct,
/// stored values free of NUL bytes — trust that whatever the locator already
/// holds under the name `data` was written by this adapter: a foreign table
/// of that name, created without the primary key or holding NUL bytes in its
/// values, is outside the model, as is a second adapter writing to the same
/// locator while this one lives.
#[verifier::external_body]
fn open_store(path: &str) -> (r: Result<sqlite::Connection, sqlite::Error>)
    ensures
        match r {
            Ok(c) => distinct_keys(table_of(c)) && values_nul_free(table_of(c)) && (path@
                == ":memory:"@ ==> table_of(c) == Seq::<Row>::empty()),
            Err(_) => true,
        },
{
    let connection = sqlite::open(path)?;
    connection.execute("CREATE TABLE IF NOT EXISTS data (key TEXT PRIMARY KEY, value TEXT);")?;
    Ok(connection)
}

impl SqliteStorage {
    /// The ghost table behind this adapter's connection.
    pub closed spec fn table(&self) -> Seq<Row> {
        table_of(self.connection)
    }

    /// The adapter's invariant: no two rows share a key, and every stored
    /// value is text the engine hands back whole — free of NUL bytes.
    pub open spec fn wf(&self) -> bool {
        distinct_keys(self.table()) && values_nul_free(self.table())
    }

    /// Relies on `Connection::prepare`, `Statement::bind` and
    /// `Statement::next` running one
    /// `INSERT ... ON CONFLICT (key) DO UPDATE SET value = excluded.value`
    /// statement: one atomic insert-or-replace, which keeps a conflicting
    /// row's position (its rowid) and appends a new row at the end; a failed
    /// statement changes nothing. The bind stores the value's full bytes,
    /// but the read path below hands a value back whole only when it is free
    /// of NUL bytes, so only such a value may be written.
    #[verifier::external_body]
    fn raw_upsert(&mut self, key: &str, value: &str) -> (r: Result<(), sqlite::Error>)
        requires
            nul_free(value@),
        ensures
            r is Ok ==> table_of(final (self).connection) == upsert(
                table_of(old(self).connection),
                key@,
                value@,
            ),
            r is Err ==> table_of(final (self).connection) == table_of(old(self).connection),
    {
        let mut st = self.connection.prepare(
            "INSERT INTO data (key, value) VALUES (?, ?) ON CONFLICT (key) DO UPDATE SET value = excluded.value;",
        )?;
        st.bind((1, key))?;
        st.bind((2, value))?;
        st.next()?;
        Ok(())
    }

    /// Relies on `Connection::prepare`, `Statement::bind`, `Statement::next`
    /// and `Statement::read` running `SELECT value FROM data WHERE key = ?`:
    /// a row comes back exactly when the table holds the key, and it carries
    /// the stored value. The engine's read path goes through a C string and
    /// stops at the first NUL byte, so the claim holds only for a table
    /// whose values are NUL-free, which the `requires` demands.
    #[verifier::external_body]
    fn raw_get(&self, key: &str) -> (r: Result<Option<String>, sqlite::Error>)
        requires
            values_nul_free(table_of(self.connection)),
        ensures
            match r {
                Ok(Some(v)) => lookup(table_of(self.connection), key@) == Some(v@),
                Ok(None) => lookup(table_of(self.connection), key@) is None,
                Err(_) => true,
            },
    {
        let mut st = self.connection.prepare("SELECT value FROM data WHERE key = ?")?;
        st.bind((1, key))?;
        match st.next()? {
            sqlite::State::Row => Ok(Some(st.read::<String, _>(0)?)),
            sqlite::State::Done => Ok(None),
        }
    }

    /// Relies on `Connection::prepare`, `Statement::bind`, `Statement::next`
    /// and `Statement::read` running `SELECT value FROM data LIMIT ?, ?`:
    /// the engine skips the first `offset` rows of its scan order and yields
    /// up to `size` further ones, in order. As with the point lookup, the
    /// read path stops at a NUL byte, so the table's values must be NUL-free.
    #[verifier::external_body]
    fn raw_page(&self, offset: i64, size: i64) -> (r: Result<Vec<String>, sqlite::Error>)
        requires
            offset >= 0,
            size >= 0,
            values_nul_free(table_of(self.connection)),
        ensures
            r matches Ok(v) ==> v@.map_values(|s: String| s@) == values_of(
                window(table_of(self.connection), offset as int, size as int),
            ),
    {
        let mut st = self.connection.prepare("SELECT value FROM data LIMIT ?, ?")?;
        st.bind((1, offset))?;
        st.bind((2, size))?;
        let mut out = Vec::new();
        while let sqlite::State::Row = st.next()? {
            out.push(st.read::<String, _>(0)?);
        }
        Ok(out)
    }

    /// Relies on `Connection::prepare`, `Statement::bind` and
    /// `Statement::next` running `DELETE FROM data WHERE key = ?`: every row
    /// with the key goes, the rest keep their order; reaching the terminal
    /// state is success whether or not a row matched; a failed statement
    /// changes nothing.
    #[verifier::external_body]
    fn raw_delete(&mut self, key: &str) -> (r: Result<(), sqlite::Error>)
        ensures
            r is Ok ==> table_of(final (self).connection) == remove_key(
                table_of(old(self).connection),
                key@,
            ),
            r is Err ==> table_of(final (self).connection) == table_of(old(self).connection),
    {
        let mut st = self.connection.prepare("DELETE FROM data WHERE key = ?")?;
        st.bind((1, key))?;
        st.next()?;
        Ok(())
    }

    /// Opens or creates the store behind `path` and ensures the `data` table
    /// exists, so a repeated open of the same locator never fails over
    /// pre-existing schema. The reserved locator `:memory:` yields an empty
    /// in-memory store.
    pub fn new(path: &str) -> (r: Result<SqliteStorage, StorageError>)
        ensures
            match r {
                Ok(s) => s.wf() && (path@ == ":memory:"@ ==> s.table() == Seq::<Row>::empty()),
                Err(e) => e is SqliteError,
            },
    {
        match open_store(path) {
            Ok(c) => Ok(SqliteStorage { connection: c }),
            Err(e) => Err(StorageError::SqliteError(e)),
        }
    }

    /// Create-or-update: stores `entity` under the string form of its
    /// identifier, replacing any value already there. An entity without an
    /// encoding is rejected before the store is touched; only the engine can
    /// fail otherwise, and a failure changes nothing.
    pub fn save<E: Entity>(&mut self, entity: &E) -> (r: Result<(), StorageError>)
        requires
            old(self).wf(),
        ensures
            final (self).wf(),
            !entity.encodable() ==> (r matches Err(e) && e is FormattingError && final (
            self).table() == old(self).table()),
            entity.encodable() ==> match r {
                Ok(_) => final (self).table() == upsert(
                    old(self).table(),
                    entity.id_spec(),
                    entity.enc_spec(),
                ),
                Err(e) => e is SqliteError && final (self).table() == old(self).table(),
            },
    {
        let key = entity.get_key();
        let value = match entity.encode() {
            Ok(v) => v,
            Err(f) => {
                return Err(StorageError::FormattingError(f));
            },
        };
        proof {
            entity.lemma_enc_nul_free();
        }
        match self.raw_upsert(key.as_str(), value.as_str()) {
            Ok(_) => {
                proof {
                    lemma_upsert_distinct(old(self).table(), entity.id_spec(), entity.enc_spec());
                    lemma_upsert_values_nul_free(
                        old(self).table(),
                        entity.id_spec(),
                        entity.enc_spec(),
                    );
                }
                Ok(())
            },
            Err(e) => Err(StorageError::SqliteError(e)),
        }
    }

    /// Stores one raw row as-is: the caller's own key and value text,
    /// replacing any value already under that key. What a value that the
    /// codec rejects does to later reads is part of the read contracts. A
    /// value holding a NUL byte cannot come back whole from the engine's
    /// read path, so it is refused as a formatting error before the store is
    /// touched.
    pub fn put_raw(&mut self, key: &str, value: &str) -> (r: Result<(), StorageError>)
        requires
            old(self).wf(),
        ensures
            final (self).wf(),
            !nul_free(value@) ==> (r matches Err(e) && e is FormattingError && final (
            self).table() == old(self).table()),
            nul_free(value@) ==> match r {
                Ok(_) => final (self).table() == upsert(old(self).table(), key@, value@),
                Err(e) => e is SqliteError && final (self).table() == old(self).table(),
            },
    {
        if !str_nul_free(value) {
            return Err(StorageError::FormattingError(CodecFault::Malformed));
        }
        match self.raw_upsert(key, value) {
            Ok(_) => {
                proof {
                    lemma_upsert_distinct(old(self).table(), key@, value@);
                    lemma_upsert_values_nul_free(old(self).table(), key@, value@);
                }
                Ok(())
            },
            Err(e) => Err(StorageError::SqliteError(e)),
        }
    }

    /// Point lookup by identifier. Unless the engine itself fails: a stored
    /// value that decodes comes back decoded, a stored value that does not
    /// decode is a formatting error, and an absent key is `NotFound` carrying
    /// the stringified identifier.
    pub fn find_by_id<E: Entity, I: Key>(&self, id: &I) -> (r: Result<E, StorageError>)
        requires
            self.wf(),
        ensures
            !(r matches Err(e) && e is SqliteError) ==> match lookup(self.table(), id.key_spec()) {
                Some(v) => match E::dec_spec(v) {
                    Some(ent) => r matches Ok(x) && x == ent,
                    None => r matches Err(e) && e is FormattingError,
                },
                None => r matches Err(e) && e matches StorageError::NotFound(k) && k@ == id.key_spec(),
            },
    {
        let key = id.to_key();
        match self.raw_get(key.as_str()) {
            Err(e) => Err(StorageError::SqliteError(e)),
            Ok(None) => Err(StorageError::NotFound(key)),
            Ok(Some(v)) => decode_stored::<E>(v.as_str()),
        }
    }

    /// Paginated scan: the window of the engine's scan order that skips the
    /// first `number * size` rows and takes up to `size`. Every returned
    /// value is decoded in order; one malformed value fails the whole call
    /// with a formatting error — no partial page. The window may be shorter
    /// than `size`, and is empty past the end of the table.
    pub fn find_all_with_page<E: Entity>(&self, page: &kv_crud_core::Page) -> (r: Result<
        Vec<E>,
        StorageError,
    >)
        requires
            self.wf(),
            (page.number as int) * (page.size as int) <= i64::MAX,
        ensures
            !(r matches Err(e) && e is SqliteError) ==> match decode_all::<E>(
                values_of(
                    window(
                        self.table(),
                        (page.number as int) * (page.size as int),
                        page.size as int,
                    ),
                ),
            ) {
                Some(es) => r matches Ok(out) && out@ == es,
                None => r matches Err(e) && e is FormattingError,
            },
    {
        proof {
            assert(0 <= (page.number as int) * (page.size as int)) by (nonlinear_arith);
        }
        let offset_i: i64 = (page.number as i64) * (page.size as i64);
        let size_i: i64 = page.size as i64;
        match self.raw_page(offset_i, size_i) {
            Err(e) => Err(StorageError::SqliteError(e)),
            Ok(vals) => decode_values::<E>(&vals),
        }
    }

    /// The anticipated sorted variant: declared, not backed by logic, and
    /// always refused as such.
    pub fn find_all_with_page_and_sort<E: Entity>(
        &self,
        _page: &kv_crud_core::Page,
        _sort: &kv_crud_core::Sort,
    ) -> (r: Result<Vec<E>, StorageError>)
        ensures
            r matches Err(e) && e is Unimplemented,
    {
        Err(StorageError::Unimplemented)
    }

    /// Update is save: saving an identifier that is not stored yet silently
    /// creates it, by design.
    pub fn update<E: Entity>(&mut self, entity: &E) -> (r: Result<(), StorageError>)
        requires
            old(self).wf(),
        ensures
            final (self).wf(),
            !entity.encodable() ==> (r matches Err(e) && e is FormattingError && final (
            self).table() == old(self).table()),
            entity.encodable() ==> match r {
                Ok(_) => final (self).table() == upsert(
                    old(self).table(),
                    entity.id_spec(),
                    entity.enc_spec(),
                ),
                Err(e) => e is SqliteError && final (self).table() == old(self).table(),
            },
    {
        self.save(entity)
    }

    /// Deletes the row keyed by the identifier, if any. Success means the
    /// statement ran to completion, whether or not a row matched: deleting an
    /// absent identifier succeeds. Only the engine can fail, changing nothing.
    pub fn remove_by_id<I: Key>(&mut self, id: &I) -> (r: Result<(), StorageError>)
        requires
            old(self).wf(),
        ensures
            final (self).wf(),
            r is Ok ==> final (self).table() == remove_key(old(self).table(), id.key_spec()),
            r matches Err(e) ==> e is SqliteError && final (self).table() == old(self).table(),
    {
        let key = id.to_key();
        match self.raw_delete(key.as_str()) {
            Ok(_) => {
                proof {
                    lemma_remove_distinct(old(self).table(), id.key_spec());
                    lemma_remove_values_nul_free(old(self).table(), id.key_spec());
                }
                Ok(())
            },
            Err(e) => Err(StorageError::SqliteError(e)),
        }
    }

    /// Deletes the row keyed by the entity's own identifier. The design this
    /// adapter follows once let this variant swallow the inner failure; here
    /// it propagates, as `remove_by_id` does.
    pub fn remove<E: Entity>(&mut self, entity: &E) -> (r: Result<(), StorageError>)
        requires
            old(self).wf(),
        ensures
            final (self).wf(),
            r is Ok ==> final (self).table() == remove_key(old(self).table(), entity.id_spec()),
            r matches Err(e) ==> e is SqliteError && final (self).table() == old(self).table(),
    {
        let key = entity.get_key();
        match self.raw_delete(key.as_str()) {
            Ok(_) => {
                proof {
                    lemma_remove_distinct(old(self).table(), entity.id_spec());
                    lemma_remove_values_nul_free(old(self).table(), entity.id_spec());
                }
                Ok(())
            },
            Err(e) => Err(StorageError::SqliteError(e)),
        }
    }
}

/// What a sequence of stored values decodes to: all of them in order, or
/// nothing as soon as any one of them is malformed.
pub open spec fn decode_all<E: Entity>(vs: Seq<Seq<char>>) -> Option<Seq<E>>
    decreases vs.len(),
{
    if vs.len() == 0 {
        Some(Seq::empty())
    } else {
        match (decode_all::<E>(vs.drop_last()), E::dec_spec(vs.last())) {
            (Some(init), Some(e)) => Some(init.push(e)),
            _ => None,
        }
    }
}

/// One malformed value anywhere makes the whole sequence malformed.
pub proof fn lemma_decode_all_none<E: Entity>(vs: Seq<Seq<char>>, i: int)
    requires
        0 <= i < vs.len(),
        E::dec_spec(vs[i]) is None,
    ensures
        decode_all::<E>(vs) is None,
    decreases vs.len(),
{
    if i == vs.len() - 1 {
        assert(vs.last() == vs[i]);
    } else {
        assert(vs.drop_last()[i] == vs[i]);
        lemma_decode_all_none::<E>(vs.drop_last(), i);
    }
}

/// Whether the text is free of NUL bytes, so the store can hand it back whole.
fn str_nul_free(s: &str) -> (b: bool)
    ensures
        b == nul_free(s@),
{
    let n = s.unicode_len();
    let mut i: usize = 0;
    while i < n
        invariant
            0 <= i <= n,
            n == s@.len(),
            forall|x: int| 0 <= x < i ==> (#[trigger] s@[x]) != '\0',
        decreases n - i,
    {
        if s.get_char(i) == '\0' {
            return false;
        }
        i += 1;
    }
    true
}

/// Decodes one value fetched from the store: exactly what the codec makes of
/// it, for every value the engine could hand back.
pub fn decode_stored<E: Entity>(v: &str) -> (r: Result<E, StorageError>)
    ensures
        match E::dec_spec(v@) {
            Some(ent) => r matches Ok(x) && x == ent,
            None => r matches Err(e) && e is FormattingError,
        },
{
    match E::decode(v) {
        Ok(x) => Ok(x),
        Err(f) => Err(StorageError::FormattingError(f)),
    }
}

/// Decodes a fetched page in order: the whole page, or the formatting error
/// of the first malformed value, for every page the engine could hand back.
pub fn decode_values<E: Entity>(vals: &Vec<String>) -> (r: Result<Vec<E>, StorageError>)
    ensures
        match decode_all::<E>(vals@.map_values(|s: String| s@)) {
            Some(es) => r matches Ok(out) && out@ == es,
            None => r matches Err(e) && e is FormattingError,
        },
{
    let mut out: Vec<E> = Vec::new();
    let mut i: usize = 0;
    while i < vals.len()
        invariant
            0 <= i <= vals@.len(),
            decode_all::<E>(vals@.map_values(|s: String| s@).take(i as int)) == Some(out@),
        decreases vals@.len() - i,
    {
        let ghost vs = vals@.map_values(|s: String| s@);
        match E::decode(vals[i].as_str()) {
            Ok(e) => {
                out.push(e);
                proof {
                    assert(vs.take(i + 1).drop_last() =~= vs.take(i as int));
                    assert(vs.take(i + 1).last() == vs[i as int]);
                }
            },
            Err(f) => {
                proof {
                    assert(E::dec_spec(vs[i as int]) is None);
                    lemma_decode_all_none::<E>(vs, i as int);
                }
                return Err(StorageError::FormattingError(f));
            },
        }
        i += 1;
    }
    proof {
        assert(vals@.map_values(|s: String| s@).take(vals@.len() as int) =~= vals@.map_values(
            |s: String| s@,
        ));
    }
    Ok(out)
}

} // verus!
