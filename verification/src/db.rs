//! The permission record store: data model, decision codecs, and the
//! identity-keyed persistent table.

use vstd::prelude::*;

verus! {

/// The authorization decision recorded for an application.
#[derive(Debug, Clone, Copy, PartialEq, Eq, Structural)]
pub enum PermissionState {
    /// Granted for the current/next use only ("Allow Once").
    AllowOnce,
    /// Granted indefinitely until changed ("Always").
    Always,
    /// Refused; also the state a brand-new request is created in ("Block").
    Block,
}

/// The stable machine tag under which a decision is persisted.
pub open spec fn spec_tag(s: PermissionState) -> Seq<char> {
    match s {
        PermissionState::AllowOnce => "AllowOnce"@,
        PermissionState::Always => "Always"@,
        PermissionState::Block => "Block"@,
    }
}

/// Decoding a persisted tag; an unrecognized tag falls back to `Block`
/// (fail closed, never fail open).
pub open spec fn spec_state_of_tag(t: Seq<char>) -> PermissionState {
    if t == "AllowOnce"@ {
        PermissionState::AllowOnce
    } else if t == "Always"@ {
        PermissionState::Always
    } else {
        PermissionState::Block
    }
}

/// The human-readable label a decision editor shows for a decision.
pub open spec fn spec_label(s: PermissionState) -> Seq<char> {
    match s {
        PermissionState::AllowOnce => "Allow Once"@,
        PermissionState::Always => "Always"@,
        PermissionState::Block => "Block"@,
    }
}

/// Resolving an editor label; anything but the three exact labels resolves
/// to nothing (the editor treats it as a no-op, not an error).
pub open spec fn spec_state_of_label(l: Seq<char>) -> Option<PermissionState> {
    if l == "Allow Once"@ {
        Some(PermissionState::AllowOnce)
    } else if l == "Always"@ {
        Some(PermissionState::Always)
    } else if l == "Block"@ {
        Some(PermissionState::Block)
    } else {
        None
    }
}

/// Relies on str's PartialEq: string slices compare equal exactly when
/// their character sequences are equal.
#[verifier::external_body]
fn str_eq(a: &str, b: &str) -> (r: bool)
    ensures
        r == (a@ == b@),
{
    a == b
}

impl PermissionState {
    /// The stable machine tag this decision is persisted under.
    pub fn tag(&self) -> (r: String)
        ensures
            r@ == spec_tag(*self),
    {
        match self {
            PermissionState::AllowOnce => "AllowOnce".to_owned(),
            PermissionState::Always => "Always".to_owned(),
            PermissionState::Block => "Block".to_owned(),
        }
    }

    /// Decodes a persisted tag; an unrecognized tag falls back to `Block`.
    pub fn from_tag(t: &str) -> (r: PermissionState)
        ensures
            r == spec_state_of_tag(t@),
    {
        if str_eq(t, "AllowOnce") {
            PermissionState::AllowOnce
        } else if str_eq(t, "Always") {
            PermissionState::Always
        } else {
            PermissionState::Block
        }
    }

    /// The human-readable label for this decision.
    pub fn to_string(&self) -> (r: String)
        ensures
            r@ == spec_label(*self),
    {
        match self {
            PermissionState::AllowOnce => "Allow Once".to_owned(),
            PermissionState::Always => "Always".to_owned(),
            PermissionState::Block => "Block".to_owned(),
        }
    }

    /// Resolves an editor label; anything but the three exact labels
    /// resolves to `None`.
    pub fn from_label(l: &str) -> (r: Option<PermissionState>)
        ensures
            r == spec_state_of_label(l@),
    {
        if str_eq(l, "Allow Once") {
            Some(PermissionState::AllowOnce)
        } else if str_eq(l, "Always") {
            Some(PermissionState::Always)
        } else if str_eq(l, "Block") {
            Some(PermissionState::Block)
        } else {
            None
        }
    }
}

/// Law: decoding the tag a decision was encoded under gives that decision
/// back; persisting never changes a decision.
pub proof fn lemma_tag_round_trip(s: PermissionState)
    ensures
        spec_state_of_tag(spec_tag(s)) == s,
{
    reveal_strlit("AllowOnce");
    reveal_strlit("Always");
    reveal_strlit("Block");
    assert("AllowOnce"@.len() == 9);
    assert("Always"@.len() == 6);
    assert("Block"@.len() == 5);
}

/// Law (fail-closed decode): a persisted decision tag that is not one of
/// the three known tags decodes to `Block`.
pub proof fn lemma_fail_closed_decode(t: Seq<char>)
    requires
        forall|s: PermissionState| t != spec_tag(s),
    ensures
        spec_state_of_tag(t) == PermissionState::Block,
{
    assert(t != spec_tag(PermissionState::AllowOnce));
    assert(t != spec_tag(PermissionState::Always));
}

/// One application's permission record: the identity, the permissions it
/// asked for, and the user's current decision.
#[derive(Debug)]
pub struct PermissionEntry {
    /// The unique key naming the requesting application.
    pub app_name: String,
    /// The permission identifiers the application asked for, in order.
    pub requested_permissions: Vec<String>,
    /// The current authorization decision.
    pub permission_state: PermissionState,
}

/// The mathematical value of a permission record.
#[verifier::ext_equal]
pub struct EntryView {
    pub app_name: Seq<char>,
    pub requested_permissions: Seq<Seq<char>>,
    pub permission_state: PermissionState,
}

impl View for PermissionEntry {
    type V = EntryView;

    open spec fn view(&self) -> EntryView {
        EntryView {
            app_name: self.app_name@,
            requested_permissions: self.requested_permissions.deep_view(),
            permission_state: self.permission_state,
        }
    }
}

/// Why a store operation failed.
#[derive(Debug, Clone, Copy, PartialEq, Eq, Structural)]
pub enum StoreError {
    /// Storage could not be opened, created, or written.
    StorageUnavailable,
    /// The permissions table itself could not be scanned.
    StorageCorrupt,
}

#[verifier::external_type_specification]
#[verifier::external_body]
pub struct ExConnection(rusqlite::Connection);

#[verifier::external_type_specification]
#[verifier::external_body]
pub struct ExRusqliteError(rusqlite::Error);

#[verifier::external_type_specification]
#[verifier::external_body]
pub struct ExSerdeJsonError(serde_json::Error);

/// The rows of the permissions table reachable through a connection, keyed
/// by the `app_name` primary key; each value is the raw text of the
/// `requested_permissions` and `permission_state` columns.
pub uninterp spec fn conn_rows(c: rusqlite::Connection) -> Map<Seq<char>, (Seq<char>, Seq<char>)>;

/// Whether the permissions table has been created on this connection.
pub uninterp spec fn conn_ready(c: rusqlite::Connection) -> bool;

/// The JSON text serde_json produces for a list of permission strings.
pub uninterp spec fn perms_json_of(ps: Seq<Seq<char>>) -> Seq<char>;

/// The list of permission strings serde_json parses out of a text, or
/// nothing when the text is not a JSON array of strings.
pub uninterp spec fn json_perms_of(s: Seq<char>) -> Option<Seq<Seq<char>>>;

/// Relies on serde_json::to_string on a `Vec<String>`: the JSON array of
/// the strings in order, which serde_json::from_str parses back to the
/// same list.
#[verifier::external_body]
fn encode_permissions(ps: &Vec<String>) -> (r: Result<String, serde_json::Error>)
    ensures
        r is Ok ==> r->Ok_0@ == perms_json_of(ps.deep_view())
            && json_perms_of(perms_json_of(ps.deep_view())) == Some(ps.deep_view()),
{
    serde_json::to_string(ps)
}

/// Relies on serde_json::from_str with a `Vec<String>` target: whether the
/// text parses, and to which list, depends on the text alone.
#[verifier::external_body]
fn try_decode_permissions(s: &str) -> (r: Option<Vec<String>>)
    ensures
        r.deep_view() == json_perms_of(s@),
{
    serde_json::from_str(s).ok()
}

/// The permissions column of a row, decoded; malformed text falls back to
/// an empty list rather than failing the read.
pub open spec fn spec_perms_or_empty(s: Seq<char>) -> Seq<Seq<char>> {
    match json_perms_of(s) {
        Some(ps) => ps,
        None => Seq::empty(),
    }
}

/// One stored row, decoded into the record it holds.
pub open spec fn decode_row(name: Seq<char>, row: (Seq<char>, Seq<char>)) -> EntryView {
    EntryView {
        app_name: name,
        requested_permissions: spec_perms_or_empty(row.0),
        permission_state: spec_state_of_tag(row.1),
    }
}

/// The whole stored table, decoded row by row.
pub open spec fn decode_table(m: Map<Seq<char>, (Seq<char>, Seq<char>)>) -> Map<
    Seq<char>,
    EntryView,
> {
    m.map_entries(|k: Seq<char>, v: (Seq<char>, Seq<char>)| decode_row(k, v))
}

/// The durable, identity-keyed store of permission records.
pub struct PermissionDB {
    conn: rusqlite::Connection,
}

impl View for PermissionDB {
    type V = Map<Seq<char>, (Seq<char>, Seq<char>)>;

    /// The raw stored table: for each application identity, the text of the
    /// two serialized columns.
    closed spec fn view(&self) -> Map<Seq<char>, (Seq<char>, Seq<char>)> {
        conn_rows(self.conn)
    }
}

/// Relies on rusqlite::Connection::open: opens (or creates) the database at
/// `path`; what it holds depends on what is on disk there.
#[verifier::external_body]
fn open_connection(path: &str) -> (r: Result<rusqlite::Connection, rusqlite::Error>) {
    rusqlite::Connection::open(path)
}

/// Relies on rusqlite::Connection::execute with CREATE TABLE IF NOT EXISTS:
/// creates the permissions table when it is absent and leaves existing rows
/// alone.
#[verifier::external_body]
fn create_permissions_table(db: &mut PermissionDB) -> (r: Result<(), rusqlite::Error>)
    ensures
        r is Ok ==> conn_ready(final(db).conn) && conn_rows(final(db).conn) == conn_rows(
            old(db).conn,
        ),
{
    match db.conn.execute(
        "CREATE TABLE IF NOT EXISTS permissions (
            app_name TEXT PRIMARY KEY,
            requested_permissions TEXT NOT NULL,
            permission_state TEXT NOT NULL
        )",
        (),
    ) {
        Ok(_) => Ok(()),
        Err(e) => Err(e),
    }
}

/// Relies on rusqlite::Connection::execute with INSERT OR REPLACE keyed on
/// the `app_name` primary key: the row for `name` is inserted or fully
/// replaced; a single statement is atomic, so on failure the table is
/// unchanged.
#[verifier::external_body]
fn exec_upsert_row(db: &mut PermissionDB, name: &str, perms: &str, tag: &str) -> (r: Result<
    (),
    rusqlite::Error,
>)
    ensures
        r is Ok ==> conn_ready(final(db).conn) == conn_ready(old(db).conn) && conn_rows(
            final(db).conn,
        ) == conn_rows(old(db).conn).insert(name@, (perms@, tag@)),
        r is Err ==> conn_ready(final(db).conn) == conn_ready(old(db).conn) && conn_rows(
            final(db).conn,
        ) == conn_rows(old(db).conn),
{
    match db.conn.execute(
        "INSERT OR REPLACE INTO permissions (app_name, requested_permissions, permission_state)
         VALUES (?1, ?2, ?3)",
        (name, perms, tag),
    ) {
        Ok(_) => Ok(()),
        Err(e) => Err(e),
    }
}

/// How a sequence of rows read back corresponds to the stored table: every
/// row is a stored pair, every stored key shows up, and the primary key
/// makes the names distinct. No order is promised.
pub open spec fn rows_match(
    rows: Seq<(String, String, String)>,
    m: Map<Seq<char>, (Seq<char>, Seq<char>)>,
) -> bool {
    &&& forall|i: int|
        0 <= i < rows.len() ==> m.contains_pair((#[trigger] rows[i]).0@, (rows[i].1@, rows[i].2@))
    &&& forall|k: Seq<char>|
        #[trigger] m.dom().contains(k) ==> exists|i: int|
            0 <= i < rows.len() && (#[trigger] rows[i]).0@ == k
    &&& forall|i: int, j: int|
        0 <= i < rows.len() && 0 <= j < rows.len() && i != j ==> (#[trigger] rows[i]).0@ != (
        #[trigger] rows[j]).0@
}

/// Relies on rusqlite's prepare/query_map over SELECT: returns every row of
/// the permissions table, one (app_name, requested_permissions,
/// permission_state) triple per row; `app_name` is the primary key, so the
/// names are distinct.
#[verifier::external_body]
fn query_all_rows(db: &PermissionDB) -> (r: Result<Vec<(String, String, String)>, rusqlite::Error>)
    ensures
        r is Ok ==> rows_match(r->Ok_0@, conn_rows(db.conn)),
{
    let mut stmt = db.conn.prepare(
        "SELECT app_name, requested_permissions, permission_state FROM permissions",
    )?;
    let rows = stmt.query_map((), |row| Ok((row.get(0)?, row.get(1)?, row.get(2)?)))?;
    rows.collect()
}

/// How a sequence of decoded entries corresponds to the decoded table:
/// every entry is stored under its own identity, every stored identity
/// shows up exactly once, and no identity repeats. No order is promised.
pub open spec fn reflects(es: Seq<PermissionEntry>, m: Map<Seq<char>, EntryView>) -> bool {
    &&& forall|i: int| 0 <= i < es.len() ==> m.contains_pair((#[trigger] es[i])@.app_name, es[i]@)
    &&& forall|k: Seq<char>|
        #[trigger] m.dom().contains(k) ==> exists|i: int|
            0 <= i < es.len() && (#[trigger] es[i])@.app_name == k
    &&& forall|i: int, j: int|
        0 <= i < es.len() && 0 <= j < es.len() && i != j ==> (#[trigger] es[i])@.app_name != (
        #[trigger] es[j])@.app_name
}

impl PermissionDB {
    /// The store is ready for reads and writes: its table exists.
    pub closed spec fn wf(&self) -> bool {
        conn_ready(self.conn)
    }

    /// The stored table, decoded: for each application identity, the record
    /// a read would reconstruct for it.
    pub open spec fn entries(&self) -> Map<Seq<char>, EntryView> {
        decode_table(self@)
    }

    /// Opens (or creates) the store at `path` and makes sure its table
    /// exists; existing records are kept, so reopening is safe. The caller
    /// resolves `path`; what the store then holds is whatever was persisted
    /// there. Fails with `StorageUnavailable` when the storage cannot be
    /// opened or initialized.
    pub fn init(path: &str) -> (r: Result<PermissionDB, StoreError>)
        ensures
            r is Ok ==> r->Ok_0.wf(),
            r is Err ==> r == Err::<PermissionDB, StoreError>(StoreError::StorageUnavailable),
    {
        let conn = match open_connection(path) {
            Ok(c) => c,
            Err(_) => {
                return Err(StoreError::StorageUnavailable);
            },
        };
        let mut db = PermissionDB { conn };
        match create_permissions_table(&mut db) {
            Ok(()) => Ok(db),
            Err(_) => Err(StoreError::StorageUnavailable),
        }
    }

    /// Writes `entry` with insert-or-replace semantics keyed on its
    /// identity: an existing record for it is fully overwritten, permissions
    /// and decision both; otherwise a new record is created. On failure
    /// (`StorageUnavailable`) nothing is written.
    pub fn upsert(&mut self, entry: &PermissionEntry) -> (r: Result<(), StoreError>)
        requires
            old(self).wf(),
        ensures
            final(self).wf(),
            r is Ok ==> final(self).entries() == old(self).entries().insert(
                entry.app_name@,
                entry@,
            ),
            r is Err ==> final(self).entries() == old(self).entries() && r == Err::<
                (),
                StoreError,
            >(StoreError::StorageUnavailable),
    {
        let perms = match encode_permissions(&entry.requested_permissions) {
            Ok(s) => s,
            Err(_) => {
                return Err(StoreError::StorageUnavailable);
            },
        };
        let tag = entry.permission_state.tag();
        match exec_upsert_row(self, entry.app_name.as_str(), perms.as_str(), tag.as_str()) {
            Ok(()) => {
                proof {
                    lemma_tag_round_trip(entry.permission_state);
                    assert(decode_table(self@) =~= decode_table(old(self)@).insert(
                        entry.app_name@,
                        entry@,
                    ));
                }
                Ok(())
            },
            Err(_) => Err(StoreError::StorageUnavailable),
        }
    }

    /// Reads every stored record, in no promised order: exactly one entry
    /// per stored identity, each decoded from its row (malformed
    /// permissions fall back to an empty list, an unrecognized decision tag
    /// to `Block`). Fails with `StorageCorrupt` only when the table itself
    /// cannot be scanned.
    pub fn get_all(&self) -> (r: Result<Vec<PermissionEntry>, StoreError>)
        requires
            self.wf(),
        ensures
            r is Ok ==> reflects(r->Ok_0@, self.entries()),
            r is Err ==> r == Err::<Vec<PermissionEntry>, StoreError>(StoreError::StorageCorrupt),
    {
        let rows = match query_all_rows(self) {
            Ok(v) => v,
            Err(_) => {
                return Err(StoreError::StorageCorrupt);
            },
        };
        let mut out: Vec<PermissionEntry> = Vec::new();
        let mut i: usize = 0;
        while i < rows.len()
            invariant
                rows_match(rows@, self@),
                i <= rows.len(),
                out.len() == i,
                forall|j: int|
                    0 <= j < i ==> (#[trigger] out@[j])@ == decode_row(
                        rows@[j].0@,
                        (rows@[j].1@, rows@[j].2@),
                    ),
            decreases rows.len() - i,
        {
            let row = &rows[i];
            let perms = match try_decode_permissions(row.1.as_str()) {
                Some(v) => v,
                None => Vec::new(),
            };
            let state = PermissionState::from_tag(row.2.as_str());
            let entry = PermissionEntry {
                app_name: row.0.clone(),
                requested_permissions: perms,
                permission_state: state,
            };
            proof {
                assert(entry@ =~= decode_row(rows@[i as int].0@, (rows@[i as int].1@, rows@[i as int].2@)));
            }
            out.push(entry);
            i += 1;
        }
        proof {
            lemma_decoded_rows_reflect(rows@, out@, self@);
        }
        Ok(out)
    }
}

/// Rows read back from the stored table, decoded one by one, reflect the
/// decoded table.
proof fn lemma_decoded_rows_reflect(
    rows: Seq<(String, String, String)>,
    es: Seq<PermissionEntry>,
    m: Map<Seq<char>, (Seq<char>, Seq<char>)>,
)
    requires
        rows_match(rows, m),
        es.len() == rows.len(),
        forall|j: int| 0 <= j < es.len() ==> (#[trigger] es[j])@ == decode_row(rows[j].0@, (rows[j].1@, rows[j].2@)),
    ensures
        reflects(es, decode_table(m)),
{
    let dm = decode_table(m);
    assert forall|i: int| 0 <= i < es.len() implies dm.contains_pair(
        (#[trigger] es[i])@.app_name,
        es[i]@,
    ) by {
        assert(m.contains_pair(rows[i].0@, (rows[i].1@, rows[i].2@)));
        assert(dm[rows[i].0@] == decode_row(rows[i].0@, m[rows[i].0@]));
    }
    assert forall|k: Seq<char>| #[trigger] dm.dom().contains(k) implies exists|i: int|
        0 <= i < es.len() && (#[trigger] es[i])@.app_name == k by {
        assert(m.dom().contains(k));
        let i = choose|i: int| 0 <= i < rows.len() && (#[trigger] rows[i]).0@ == k;
        assert(es[i]@.app_name == k);
    }
    assert forall|i: int, j: int|
        0 <= i < es.len() && 0 <= j < es.len() && i != j implies (#[trigger] es[i])@.app_name != (
    #[trigger] es[j])@.app_name by {
        assert(rows[i].0@ != rows[j].0@);
    }
}

/// The decoded table after a sequence of upserts for one identity `k`, in
/// order: each one lands on `k`, as `upsert`'s contract says.
pub open spec fn upsert_all(
    m: Map<Seq<char>, EntryView>,
    k: Seq<char>,
    vs: Seq<EntryView>,
) -> Map<Seq<char>, EntryView>
    decreases vs.len(),
{
    if vs.len() == 0 {
        m
    } else {
        upsert_all(m, k, vs.drop_last()).insert(k, vs.last())
    }
}

/// Law (uniqueness, write side): however many upserts hit the same
/// identity, the store afterwards holds exactly the last written record
/// under it, and records for other identities are untouched.
pub proof fn lemma_upsert_last_wins(
    m: Map<Seq<char>, EntryView>,
    k: Seq<char>,
    vs: Seq<EntryView>,
)
    requires
        vs.len() > 0,
    ensures
        upsert_all(m, k, vs) == m.insert(k, vs.last()),
    decreases vs.len(),
{
    if vs.len() == 1 {
        assert(vs.drop_last().len() == 0);
        assert(upsert_all(m, k, vs.drop_last()) == m);
    } else {
        lemma_upsert_last_wins(m, k, vs.drop_last());
        assert(m.insert(k, vs.drop_last().last()).insert(k, vs.last()) =~= m.insert(k, vs.last()));
    }
}

/// Law (replace, not merge): writing an identity twice leaves exactly the
/// second record; nothing of the first, its permission list included, is
/// retained.
pub proof fn lemma_replace_not_merge(
    m: Map<Seq<char>, EntryView>,
    k: Seq<char>,
    v1: EntryView,
    v2: EntryView,
)
    ensures
        m.insert(k, v1).insert(k, v2) == m.insert(k, v2),
{
    assert(m.insert(k, v1).insert(k, v2) =~= m.insert(k, v2));
}

/// Law (uniqueness, read side): a read of a table that holds identity `k`
/// yields exactly one entry named `k`, and that entry carries the stored
/// record.
pub proof fn lemma_read_exactly_one(
    es: Seq<PermissionEntry>,
    m: Map<Seq<char>, EntryView>,
    k: Seq<char>,
)
    requires
        reflects(es, m),
        m.dom().contains(k),
    ensures
        exists|i: int| 0 <= i < es.len() && (#[trigger] es[i])@.app_name == k && es[i]@ == m[k],
        forall|i: int, j: int|
            0 <= i < es.len() && 0 <= j < es.len() && (#[trigger] es[i])@.app_name == k && (
            #[trigger] es[j])@.app_name == k ==> i == j,
{
    let i = choose|i: int| 0 <= i < es.len() && (#[trigger] es[i])@.app_name == k;
    assert(m.contains_pair(es[i]@.app_name, es[i]@));
    assert(0 <= i < es.len() && es[i]@.app_name == k && es[i]@ == m[k]);
}

/// Law (uniqueness): after any sequence of upserts for one identity, a
/// read contains exactly one entry for that identity, and that entry
/// carries the last upserted record.
pub proof fn lemma_uniqueness(
    es: Seq<PermissionEntry>,
    m: Map<Seq<char>, EntryView>,
    k: Seq<char>,
    vs: Seq<EntryView>,
)
    requires
        vs.len() > 0,
        reflects(es, upsert_all(m, k, vs)),
    ensures
        exists|i: int|
            0 <= i < es.len() && (#[trigger] es[i])@.app_name == k && es[i]@ == vs.last(),
        forall|i: int, j: int|
            0 <= i < es.len() && 0 <= j < es.len() && (#[trigger] es[i])@.app_name == k && (
            #[trigger] es[j])@.app_name == k ==> i == j,
{
    lemma_upsert_last_wins(m, k, vs);
    let m1 = m.insert(k, vs.last());
    assert(m1.dom().contains(k));
    lemma_read_exactly_one(es, m1, k);
    let i = choose|i: int|
        0 <= i < es.len() && (#[trigger] es[i])@.app_name == k && es[i]@ == m1[k];
    assert(0 <= i < es.len() && es[i]@.app_name == k && es[i]@ == vs.last());
}

/// Law (round trip): after `e` is upserted, a read of the store contains an
/// entry equal to `e`, whatever order the read returns.
pub proof fn lemma_upsert_read_round_trip(
    es: Seq<PermissionEntry>,
    m: Map<Seq<char>, EntryView>,
    e: PermissionEntry,
)
    requires
        reflects(es, m.insert(e@.app_name, e@)),
    ensures
        exists|i: int| 0 <= i < es.len() && (#[trigger] es[i])@ == e@,
{
    let m1 = m.insert(e@.app_name, e@);
    assert(m1.dom().contains(e@.app_name));
    let i = choose|i: int| 0 <= i < es.len() && (#[trigger] es[i])@.app_name == e@.app_name;
    assert(m1.contains_pair(es[i]@.app_name, es[i]@));
    assert(es[i]@ == e@);
}

} // verus!
