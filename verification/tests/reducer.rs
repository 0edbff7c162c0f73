//! Reducer arguments, events, the registry and invocations.

use std::collections::BTreeMap;

use nexum::base::change::{Change, ChangeBody};
use nexum::base::error::Error;
use nexum::base::ids::{ReducerId, RowId, TableId, TransactionId, Version};
use nexum::base::value::{Row, Value};
use nexum::reducer::args::ReducerArgs;
use nexum::reducer::context::{ReducerContext, Transaction};
use nexum::reducer::definition::{Execution, Reducer, ReducerDefinition};
use nexum::reducer::event::ReducerEvent;
use nexum::reducer::registry::{
    conclude_commit, conclude_execution, finish_invocation, ReducerRegistry, ReducerResult,
};

// --------------------------------------------------------------- arguments

fn text(s: &str) -> Value {
    Value::String(s.to_owned())
}

#[test]
fn inserts_and_reads_named_values() {
    let args = ReducerArgs::new()
        .insert("player_id", Value::U64(42))
        .insert("name", text("alice"));
    assert_eq!(args.require_u64("player_id").unwrap(), 42);
    assert_eq!(args.require_str("name").unwrap(), "alice");
    assert_eq!(args.len(), 2);
    assert!(args.contains("name"));
    assert!(!args.contains("missing"));
}

#[test]
fn iteration_is_key_sorted_and_deterministic() {
    let args = ReducerArgs::new()
        .insert("zeta", Value::U64(1))
        .insert("alpha", Value::U64(2))
        .insert("mid", Value::U64(3));
    let names: Vec<&str> = args.iter().into_iter().map(|(name, _)| name).collect();
    assert_eq!(names, vec!["alpha", "mid", "zeta"]);
}

#[test]
fn missing_key_is_not_found() {
    let args = ReducerArgs::new();
    assert!(args.get("nope").is_none());
    assert!(matches!(args.require_u64("nope"), Err(Error::NotFound(_))));
}

#[test]
fn wrong_type_is_invalid_argument() {
    let args = ReducerArgs::new().insert("key", text("text"));
    assert!(matches!(args.require_u64("key"), Err(Error::InvalidArgument(_))));
    assert!(matches!(args.require_bool("key"), Err(Error::InvalidArgument(_))));
    assert!(matches!(args.require_i32("key"), Err(Error::InvalidArgument(_))));
    assert!(matches!(args.require_i64("key"), Err(Error::InvalidArgument(_))));
    assert!(matches!(args.require_u32("key"), Err(Error::InvalidArgument(_))));
    assert!(matches!(args.require_f64_bits("key"), Err(Error::InvalidArgument(_))));
}

#[test]
fn insert_replaces_and_is_chainable() {
    let args = ReducerArgs::new().insert("x", Value::U64(1)).insert("y", Value::U64(2));
    assert_eq!(args.len(), 2);
    let args = args.insert("x", Value::U64(9));
    assert_eq!(args.require_u64("x").unwrap(), 9);
    assert_eq!(args.len(), 2);
}

// ------------------------------------------------------------------ events

#[test]
fn carries_name_and_payload() {
    let event = ReducerEvent::new("player_joined", Value::U64(42));
    assert_eq!(event.name(), "player_joined");
    assert_eq!(event.payload(), &Value::U64(42));
}

#[test]
fn events_compare_by_content() {
    let a = ReducerEvent::new("ping", text("pong"));
    let b = ReducerEvent::new("ping", text("pong"));
    assert_eq!(a, b);
    assert_ne!(a, ReducerEvent::new("ping", text("other")));
}

// ----------------------------------------------------------- a toy storage

fn copy(values: &[Value]) -> Vec<Value> {
    values.iter().map(|v| v.clone()).collect()
}

struct TableRows {
    name: &'static str,
    rows: BTreeMap<u64, Vec<Value>>,
    next_row: u64,
}

/// Two tables: `players` (`[id, zone_id, health, level]`, `level` unique) and
/// `economy` (`[owner, coins]`).
struct Store {
    tables: Vec<TableRows>,
    /// The rows of the changes committed and not drained yet.
    committed: Vec<(TableId, RowId)>,
    next_tx: u64,
    aborts: u64,
    /// Whether the next commit conflicts.
    conflict: bool,
}

fn world() -> Store {
    let empty = |name| TableRows { name, rows: BTreeMap::new(), next_row: 0 };
    Store {
        tables: vec![empty("players"), empty("economy")],
        committed: vec![],
        next_tx: 0,
        aborts: 0,
        conflict: false,
    }
}

fn player(id: u64, zone: u64, health: i32, level: u32) -> Vec<Value> {
    vec![Value::U64(id), Value::U64(zone), Value::I32(health), Value::U32(level)]
}

fn account(owner: u64, coins: i64) -> Vec<Value> {
    vec![Value::U64(owner), Value::I64(coins)]
}

/// Alice (zone 10, level 5) and Bob (zone 20, level 6) plus one economy row.
fn seeded() -> Store {
    let mut store = world();
    store.seed(0, player(1, 10, 100, 5));
    store.seed(0, player(2, 20, 90, 6));
    store.seed(1, account(1, 100));
    store
}

const ALICE: u64 = 0;
const BOB: u64 = 1;
const PROVISIONAL: u64 = 1 << 63;

impl Store {
    fn seed(&mut self, table: usize, row: Vec<Value>) {
        let id = self.tables[table].next_row;
        self.tables[table].next_row += 1;
        self.tables[table].rows.insert(id, row);
    }

    fn index(&self, table: &str) -> Result<usize, Error> {
        match self.tables.iter().position(|t| t.name == table) {
            Some(index) => Ok(index),
            None => Err(Error::not_found("table")),
        }
    }

    fn len(&self, table: &str) -> usize {
        self.tables[self.index(table).unwrap()].rows.len()
    }

    fn drain_changes(&mut self) -> Vec<(TableId, RowId)> {
        std::mem::take(&mut self.committed)
    }

    /// The players of a zone.
    fn by_zone(&self, zone: u64) -> Vec<u64> {
        let players = &self.tables[0].rows;
        players.iter().filter(|(_, row)| row[1] == Value::U64(zone)).map(|(id, _)| *id).collect()
    }

    fn begin(&mut self) -> Tx<'_> {
        let id = self.next_tx;
        self.next_tx += 1;
        Tx { store: self, id, writes: BTreeMap::new(), handles: 0 }
    }
}

/// A transaction: an overlay of writes over the store.
struct Tx<'a> {
    store: &'a mut Store,
    id: u64,
    writes: BTreeMap<(usize, u64), Option<Vec<Value>>>,
    handles: u64,
}

impl<'a> Tx<'a> {
    fn view(&self, table: usize) -> BTreeMap<u64, Vec<Value>> {
        let mut rows = BTreeMap::new();
        for (id, row) in &self.store.tables[table].rows {
            rows.insert(*id, copy(row));
        }
        for ((at, id), row) in &self.writes {
            if *at == table {
                match row {
                    Some(row) => rows.insert(*id, copy(row)),
                    None => rows.remove(id),
                };
            }
        }
        rows
    }
}

impl<'a> Transaction for Tx<'a> {
    fn id(&self) -> TransactionId {
        TransactionId::from_u64(self.id)
    }

    fn has_table(&self, table: &str) -> bool {
        self.store.index(table).is_ok()
    }

    fn get(&mut self, table: &str, row_id: RowId) -> Result<Option<Row>, Error> {
        let table = self.store.index(table)?;
        Ok(self.view(table).remove(&row_id.as_u64()).map(Row::new))
    }

    fn contains(&mut self, table: &str, row_id: RowId) -> Result<bool, Error> {
        Ok(self.get(table, row_id)?.is_some())
    }

    fn scan(&mut self, table: &str) -> Result<Vec<(RowId, Row)>, Error> {
        let table = self.store.index(table)?;
        let rows = self.view(table);
        Ok(rows.into_iter().map(|(id, row)| (RowId::from_u64(id), Row::new(row))).collect())
    }

    fn lookup_unique(
        &mut self,
        table: &str,
        _index: &str,
        key: &Vec<Value>,
    ) -> Result<Vec<RowId>, Error> {
        let rows = self.scan(table)?;
        Ok(rows
            .into_iter()
            .filter(|(_, row)| row.values()[3] == key[0])
            .map(|(id, _)| id)
            .collect())
    }

    fn insert(&mut self, table: &str, row: Row) -> Result<RowId, Error> {
        let table = self.store.index(table)?;
        let handle = PROVISIONAL + self.handles;
        self.handles += 1;
        self.writes.insert((table, handle), Some(copy(row.values())));
        Ok(RowId::from_u64(handle))
    }

    fn update(&mut self, table: &str, row_id: RowId, row: Row) -> Result<(), Error> {
        let table = self.store.index(table)?;
        if !self.view(table).contains_key(&row_id.as_u64()) {
            return Err(Error::not_found("row"));
        }
        self.writes.insert((table, row_id.as_u64()), Some(copy(row.values())));
        Ok(())
    }

    fn delete(&mut self, table: &str, row_id: RowId) -> Result<(), Error> {
        let table = self.store.index(table)?;
        if !self.view(table).contains_key(&row_id.as_u64()) {
            return Err(Error::not_found("row"));
        }
        if row_id.as_u64() >= PROVISIONAL {
            self.writes.remove(&(table, row_id.as_u64()));
        } else {
            self.writes.insert((table, row_id.as_u64()), None);
        }
        Ok(())
    }

    fn commit(&mut self) -> Result<Vec<Change>, Error> {
        if self.store.conflict {
            return Err(Error::Conflict("row changed".to_owned()));
        }
        let levels: Vec<Vec<Value>> = self.view(0).into_values().collect();
        for i in 0..levels.len() {
            for j in 0..i {
                if levels[i][3] == levels[j][3] {
                    return Err(Error::AlreadyExists("unique key".to_owned()));
                }
            }
        }
        let mut changes = Vec::new();
        let version = Version::from_u64(1);
        for ((table, id), row) in std::mem::take(&mut self.writes) {
            let table_id = TableId::from_u64(table as u64);
            let target = &mut self.store.tables[table];
            match row {
                Some(row) if id >= PROVISIONAL => {
                    let real = target.next_row;
                    target.next_row += 1;
                    changes.push(Change::insert(
                        table_id,
                        RowId::from_u64(real),
                        Row::new(copy(&row)),
                        version,
                    ));
                    target.rows.insert(real, row);
                }
                Some(row) => {
                    let old = target.rows.insert(id, copy(&row)).unwrap();
                    changes.push(Change::update(
                        table_id,
                        RowId::from_u64(id),
                        Row::new(old),
                        version,
                        Row::new(row),
                        Version::from_u64(2),
                    ));
                }
                None => {
                    let old = target.rows.remove(&id).unwrap();
                    changes.push(Change::delete(
                        table_id,
                        RowId::from_u64(id),
                        Row::new(old),
                        version,
                    ));
                }
            }
        }
        self.store.committed.extend(changes.iter().map(|c| (c.table_id, c.row_id)));
        Ok(changes)
    }

    fn abort(&mut self) {
        self.writes.clear();
        self.store.aborts += 1;
    }
}

type Body = for<'b> fn(&mut ReducerContext<Tx<'b>>, &ReducerArgs) -> Result<Value, Error>;

/// A reducer given as a function, and the message it panics with at the end,
/// if it does.
struct Native {
    body: Body,
    panics: Option<&'static str>,
}

impl<'b> Reducer<Tx<'b>> for Native {
    fn execute(&self, context: &mut ReducerContext<Tx<'b>>, args: &ReducerArgs) -> Execution {
        let outcome = (self.body)(context, args);
        match self.panics {
            Some(message) => Execution::Panicked(message.to_owned()),
            None => Execution::Returned(outcome),
        }
    }
}

fn register(registry: &mut ReducerRegistry<Native>, id: u64, name: &str, body: Body) {
    let native = Native { body, panics: None };
    registry
        .register(ReducerDefinition::new(ReducerId::from_u64(id), name, native).unwrap())
        .unwrap();
}

fn one(name: &str, body: Body) -> ReducerRegistry<Native> {
    let mut registry = ReducerRegistry::new();
    register(&mut registry, 0, name, body);
    registry
}

fn health(row: &Row) -> &Value {
    &row.values()[2]
}

fn coins(row: &Row) -> i64 {
    row.values()[1].as_i64().unwrap()
}

fn zero(id: u64, name: &str) -> Result<ReducerDefinition<Native>, Error> {
    ReducerDefinition::new(
        ReducerId::from_u64(id),
        name,
        Native { body: |_ctx, _args| Ok(Value::U64(0)), panics: None },
    )
}

// ------------------------------------------------------------------- basic

#[test]
fn invoke_runs_a_reducer_and_returns_its_value() {
    let mut store = world();
    let registry = one("ping", |_ctx, _args| Ok(Value::String("pong".into())));

    let result = registry.invoke(store.begin(), "ping", &ReducerArgs::new()).1.unwrap();
    assert_eq!(result.return_value(), &text("pong"));
    assert!(result.changes().is_empty());
    assert!(result.events().is_empty());
    assert_eq!(result.tx_id(), TransactionId::from_u64(0));
}

#[test]
fn invoke_accepts_and_returns_arguments() {
    let mut store = world();
    let registry = one("echo", |_ctx, args| Ok(Value::U64(args.require_u64("value")?)));

    let args = ReducerArgs::new().insert("value", Value::U64(42));
    let result = registry.invoke(store.begin(), "echo", &args).1.unwrap();
    assert_eq!(result.return_value(), &Value::U64(42));
}

#[test]
fn invoke_unknown_reducer_is_not_found() {
    let mut store = world();
    let registry: ReducerRegistry<Native> = ReducerRegistry::new();
    let err = registry.invoke(store.begin(), "nope", &ReducerArgs::new()).1.unwrap_err();
    assert_eq!(err, Error::NotFound("reducer 'nope' is not registered".to_owned()));
}

// ---------------------------------------------------------------- registry

#[test]
fn registry_rejects_duplicate_id_and_duplicate_name() {
    let mut registry = ReducerRegistry::new();
    registry.register(zero(0, "a").unwrap()).unwrap();

    assert!(matches!(
        registry.register(zero(0, "b").unwrap()),
        Err(Error::AlreadyExists(_))
    ));
    assert!(matches!(
        registry.register(zero(1, "a").unwrap()),
        Err(Error::AlreadyExists(_))
    ));
    assert_eq!(registry.len(), 1);
}

#[test]
fn registry_lists_deterministically_in_ascending_id_order() {
    let mut registry = ReducerRegistry::new();
    assert!(registry.is_empty());
    registry.register(zero(2, "zeta").unwrap()).unwrap();
    registry.register(zero(0, "alpha").unwrap()).unwrap();
    registry.register(zero(1, "mid").unwrap()).unwrap();

    let names: Vec<&str> = registry.list().iter().map(|d| d.name()).collect();
    assert_eq!(names, vec!["alpha", "mid", "zeta"]);
    assert!(registry.contains("alpha"));
    assert!(registry.contains_id(ReducerId::from_u64(2)));
    assert!(registry.lookup(ReducerId::from_u64(1)).is_some());
    assert!(registry.lookup_by_name("zeta").is_some());
    assert!(registry.lookup_by_name("nope").is_none());
}

#[test]
fn reducer_name_must_not_be_empty() {
    assert!(matches!(zero(0, ""), Err(Error::InvalidArgument(_))));
}

// ---------------------------------------------------------- reads and writes

#[test]
fn reducer_reads_writes_and_scans() {
    let mut store = seeded();
    let registry = one("patrol", |ctx, args| {
        let alice = RowId::from_u64(args.require_u64("alice")?);
        let bob = RowId::from_u64(args.require_u64("bob")?);

        // Reads: point get, set scan, and a unique-key lookup.
        let seen = ctx.scan("players")?;
        let alice_row = ctx.get("players", alice)?.expect("alice exists");
        let level_six = ctx.lookup_unique("players", "by_level", &vec![Value::U32(6)])?;
        assert_eq!(seen.len(), 2);
        assert_eq!(health(&alice_row), &Value::I32(100));
        assert_eq!(level_six, vec![bob]);

        // Writes: insert, update, delete across two tables.
        let carol = ctx.insert("players", Row::new(player(3, 10, 80, 7)))?;
        ctx.update("players", alice, Row::new(player(1, 30, 50, 5)))?;
        ctx.delete("economy", RowId::from_u64(0))?;
        Ok(Value::U64(carol.as_u64()))
    });

    let args = ReducerArgs::new()
        .insert("alice", Value::U64(ALICE))
        .insert("bob", Value::U64(BOB));
    let result = registry.invoke(store.begin(), "patrol", &args).1.unwrap();
    assert_eq!(result.changes().len(), 3); // insert + update + delete
    assert_eq!(store.len("players"), 3);
    assert_eq!(store.len("economy"), 0);
    assert_eq!(store.drain_changes().len(), 3);
    // The zones followed the update (Alice moved to zone 30).
    assert_eq!(store.by_zone(30), vec![ALICE]);
    assert_eq!(store.by_zone(20), vec![BOB]);
}

#[test]
fn read_your_writes_through_the_context() {
    let mut store = seeded();
    let registry = one("ryw", |ctx, args| {
        let alice = RowId::from_u64(args.require_u64("alice")?);
        // insert: get sees the provisional row.
        let handle = ctx.insert("players", Row::new(player(9, 40, 10, 9)))?;
        let pending = ctx.get("players", handle)?.expect("pending insert visible");
        assert_eq!(health(&pending), &Value::I32(10));
        // update: get sees the updated value.
        ctx.update("players", handle, Row::new(player(9, 40, 5, 9)))?;
        let updated = ctx.get("players", handle)?.expect("updated row visible");
        assert_eq!(health(&updated), &Value::I32(5));
        // delete: get is absent from the transaction view.
        ctx.delete("players", handle)?;
        assert!(ctx.get("players", handle)?.is_none());

        // Same overlay on a real row: update then read the new value.
        ctx.update("players", alice, Row::new(player(1, 30, 25, 5)))?;
        let moved = ctx.get("players", alice)?.expect("alice visible");
        assert_eq!(health(&moved), &Value::I32(25));
        Ok(Value::U64(0))
    });

    let args = ReducerArgs::new().insert("alice", Value::U64(ALICE));
    let result = registry.invoke(store.begin(), "ryw", &args).1.unwrap();
    // The insert netted to nothing; only alice's update commits.
    assert_eq!(result.changes().len(), 1);
    assert_eq!(store.len("players"), 2);
}

#[test]
fn contains_and_has_table_through_the_context() {
    let mut store = seeded();
    let registry = one("check", |ctx, args| {
        assert!(ctx.has_table("players"));
        assert!(!ctx.has_table("nope"));
        assert!(ctx.contains("players", RowId::from_u64(args.require_u64("alice")?))?);
        assert!(!ctx.contains("players", RowId::from_u64(99))?);
        Ok(Value::Bool(true))
    });

    let args = ReducerArgs::new().insert("alice", Value::U64(ALICE));
    let result = registry.invoke(store.begin(), "check", &args).1.unwrap();
    assert_eq!(result.return_value(), &Value::Bool(true));
}

// --------------------------------------------------------------- atomicity

#[test]
fn reducer_error_aborts_with_zero_mutations_and_no_events() {
    let mut store = seeded();
    let registry = one("flaky", |ctx, _args| {
        ctx.insert("players", Row::new(player(9, 40, 10, 9)))?;
        ctx.emit("should_not_escape", Value::U64(1))?;
        ctx.delete("economy", RowId::from_u64(0))?;
        Err(Error::invalid_argument("rejected by application logic"))
    });

    let err = registry.invoke(store.begin(), "flaky", &ReducerArgs::new()).1.unwrap_err();
    assert_eq!(err, Error::InvalidArgument("rejected by application logic".to_owned()));
    // Nothing changed: no insert, no delete, no committed events.
    assert_eq!(store.len("players"), 2);
    assert_eq!(store.len("economy"), 1);
    assert!(store.drain_changes().is_empty());
    assert_eq!(store.aborts, 1);
}

#[test]
fn unique_key_violation_aborts_with_zero_mutations() {
    let mut store = seeded();
    let registry = one("cheat", |ctx, _args| {
        // Bob already owns level 6.
        ctx.insert("players", Row::new(player(9, 40, 10, 6)))?;
        Ok(Value::U64(0))
    });

    let err = registry.invoke(store.begin(), "cheat", &ReducerArgs::new()).1.unwrap_err();
    assert!(matches!(err, Error::AlreadyExists(_)));
    assert_eq!(store.len("players"), 2);
}

#[test]
fn multi_table_reducer_commits_atomically() {
    let mut store = seeded();
    store.seed(1, account(2, 50));

    let registry = one("trade", |ctx, args| {
        let from = RowId::from_u64(args.require_u64("from")?);
        let to = RowId::from_u64(args.require_u64("to")?);
        let amount = args.require_i64("amount")?;
        let from_row = ctx.get("economy", from)?.expect("sender");
        let to_row = ctx.get("economy", to)?.expect("receiver");
        let from_owner = from_row.values()[0].as_u64().unwrap();
        let to_owner = to_row.values()[0].as_u64().unwrap();
        let from_coins = coins(&from_row);
        let to_coins = coins(&to_row);
        ctx.insert("players", Row::new(player(9, 40, 1, 9)))?;
        ctx.update("economy", from, Row::new(account(from_owner, from_coins - amount)))?;
        ctx.update("economy", to, Row::new(account(to_owner, to_coins + amount)))?;
        ctx.emit("trade", Value::I64(amount))?;
        Ok(Value::I64(from_coins - amount))
    });

    let args = ReducerArgs::new()
        .insert("from", Value::U64(0))
        .insert("to", Value::U64(1))
        .insert("amount", Value::I64(30));
    let result = registry.invoke(store.begin(), "trade", &args).1.unwrap();

    // All three writes committed, in commit order.
    assert_eq!(result.changes().len(), 3);
    assert_eq!(result.changes()[0].table_id, TableId::from_u64(0));
    assert!(matches!(result.changes()[0].body, ChangeBody::Insert { .. }));
    assert_eq!(result.changes()[1].table_id, TableId::from_u64(1));
    assert_eq!(result.changes()[2].table_id, TableId::from_u64(1));
    assert!(result.changes()[1].row_id.as_u64() < result.changes()[2].row_id.as_u64());

    assert_eq!(store.tables[1].rows[&0][1], Value::I64(70));
    assert_eq!(store.tables[1].rows[&1][1], Value::I64(80));
    assert_eq!(result.events().len(), 1);
}

// ------------------------------------------------------------------ events

#[test]
fn events_are_preserved_on_commit_in_emit_order() {
    let mut store = world();
    let registry = one("story", |ctx, _args| {
        ctx.emit("first", Value::U64(1))?;
        ctx.emit("second", Value::String("two".into()))?;
        ctx.emit("third", Value::U64(3))?;
        Ok(Value::U64(0))
    });

    let result = registry.invoke(store.begin(), "story", &ReducerArgs::new()).1.unwrap();
    let names: Vec<&str> = result.events().iter().map(|e| e.name()).collect();
    assert_eq!(names, vec!["first", "second", "third"]);
    assert_eq!(result.events()[1].payload(), &text("two"));
}

#[test]
fn empty_event_name_is_invalid_argument() {
    let mut store = seeded();
    let registry = one("bad_event", |ctx, _args| {
        ctx.insert("players", Row::new(player(9, 40, 10, 9)))?;
        ctx.emit("", Value::U64(1))?;
        Ok(Value::U64(0))
    });

    let err = registry.invoke(store.begin(), "bad_event", &ReducerArgs::new()).1.unwrap_err();
    assert!(matches!(err, Error::InvalidArgument(_)));
    assert_eq!(store.len("players"), 2, "the insert aborted with the event");
}

#[test]
fn a_conflict_at_commit_is_passed_on_unchanged() {
    let mut store = seeded();
    store.conflict = true;
    let registry = one("spawn", |ctx, _args| {
        ctx.insert("players", Row::new(player(9, 40, 10, 9)))?;
        Ok(Value::U64(0))
    });
    let err = registry.invoke(store.begin(), "spawn", &ReducerArgs::new()).1.unwrap_err();
    assert_eq!(err, Error::Conflict("row changed".to_owned()));
    assert_eq!(store.len("players"), 2);
}

// ------------------------------------------------------------------- panic

#[test]
fn panic_aborts_with_zero_mutation_and_no_events() {
    let mut store = seeded();
    let mut registry = ReducerRegistry::new();
    let explode = Native {
        body: |ctx, _args| {
            ctx.insert("players", Row::new(player(9, 40, 10, 9)))?;
            ctx.emit("should_not_escape", Value::U64(1))?;
            Ok(Value::U64(0))
        },
        panics: Some("boom"),
    };
    registry
        .register(ReducerDefinition::new(ReducerId::from_u64(0), "explode", explode).unwrap())
        .unwrap();

    let err = registry.invoke(store.begin(), "explode", &ReducerArgs::new()).1.unwrap_err();
    assert_eq!(
        err,
        Error::Internal("reducer 'explode' panicked during execution: boom".to_owned())
    );
    assert!(err.to_text().contains("explode"));
    // Zero authoritative mutation, zero events, zero committed changes.
    assert_eq!(store.len("players"), 2);
    assert!(store.drain_changes().is_empty());
    assert_eq!(store.aborts, 1);

    // The store remains fully usable after a panic.
    let registry2 = one("ok", |ctx, _args| {
        let id = ctx.insert("players", Row::new(player(9, 40, 10, 9)))?;
        Ok(Value::U64(id.as_u64()))
    });
    let result = registry2.invoke(store.begin(), "ok", &ReducerArgs::new()).1.unwrap();
    assert_eq!(result.changes().len(), 1);
}

// -------------------------------------------------------------- determinism

fn run_spawn() -> ReducerResult {
    let mut store = seeded();
    let registry = one("spawn", |ctx, args| {
        let id = args.require_u64("id")?;
        let row_id = ctx.insert("players", Row::new(player(id, 10, 100, id as u32)))?;
        ctx.emit("spawned", Value::U64(id))?;
        Ok(Value::U64(row_id.as_u64()))
    });
    let args = ReducerArgs::new().insert("id", Value::U64(42));
    registry.invoke(store.begin(), "spawn", &args).1.unwrap()
}

#[test]
fn same_state_and_args_produce_identical_results() {
    let first = run_spawn();
    let second = run_spawn();
    assert_eq!(first.return_value(), second.return_value());
    assert_eq!(first.changes(), second.changes());
    assert_eq!(first.events(), second.events());
    assert_eq!(first.tx_id(), second.tx_id());
}

#[test]
fn committed_changes_carry_real_row_ids() {
    // The provisional handle returned by `insert` is replaced by the real id
    // storage assigned at commit.
    let result = run_spawn();
    assert_eq!(result.return_value(), &Value::U64(1 << 63), "the handle is provisional");
    assert_eq!(result.changes()[0].row_id, RowId::from_u64(2), "real storage id");
}

// ------------------------------------------------------------------ errors

#[test]
fn reducer_unknown_table_is_not_found_and_aborts() {
    let mut store = world();
    let registry = one("ghost", |ctx, _args| {
        let _ = ctx.get("nope", RowId::from_u64(0))?;
        Ok(Value::U64(0))
    });
    let err = registry.invoke(store.begin(), "ghost", &ReducerArgs::new()).1.unwrap_err();
    assert!(matches!(err, Error::NotFound(_)));
    assert_eq!(store.aborts, 1);
}

#[test]
fn missing_row_update_is_not_found_and_aborts() {
    let mut store = seeded();
    let registry = one("poke", |ctx, _args| {
        ctx.update("players", RowId::from_u64(99), Row::new(player(99, 10, 1, 1)))?;
        Ok(Value::U64(0))
    });
    let err = registry.invoke(store.begin(), "poke", &ReducerArgs::new()).1.unwrap_err();
    assert!(matches!(err, Error::NotFound(_)));
    assert_eq!(store.aborts, 1);
}

#[test]
fn running_in_an_open_transaction_leaves_it_open() {
    let mut store = seeded();
    let registry = one("spawn", |ctx, _args| {
        ctx.insert("players", Row::new(player(7, 10, 100, 7)))?;
        ctx.emit("spawned", Value::U64(7))?;
        Ok(Value::U64(7))
    });
    let (tx, outcome) = registry.invoke_in_tx(store.begin(), "spawn", &ReducerArgs::new());
    let (value, events) = outcome.unwrap();
    assert_eq!(value, Value::U64(7));
    assert_eq!(events.len(), 1);
    assert_eq!(tx.writes.len(), 1);
    assert!(tx.store.committed.is_empty());
    assert_eq!(tx.store.aborts, 0);
    let (tx, outcome) = registry.invoke_in_tx(tx, "nope", &ReducerArgs::new());
    assert!(matches!(outcome, Err(Error::NotFound(_))));
    assert_eq!(tx.writes.len(), 1);
    let result = finish_invocation(tx, events, Ok(value)).1.unwrap();
    assert_eq!(result.changes().len(), 1);
    assert_eq!(store.len("players"), 3);
}

#[test]
fn a_failed_invocation_only_aborts() {
    let mut store = seeded();
    let registry = one("flaky", |ctx, _args| {
        ctx.delete("players", RowId::from_u64(ALICE))?;
        Err(Error::invalid_argument("no"))
    });
    let (tx, outcome) = registry.invoke(store.begin(), "flaky", &ReducerArgs::new());
    assert!(outcome.is_err());
    assert!(tx.writes.is_empty());
    assert!(tx.store.committed.is_empty());
    assert_eq!(tx.store.aborts, 1);
    assert_eq!(tx.store.len("players"), 2);
}

#[test]
fn a_context_gives_its_transaction_back() {
    let mut store = seeded();
    let mut context = ReducerContext::new(store.begin());
    context.delete("players", RowId::from_u64(BOB)).unwrap();
    context.emit("gone", Value::U64(BOB)).unwrap();
    assert_eq!(context.take_events().len(), 1);
    let mut tx = context.into_transaction();
    assert_eq!(tx.writes.len(), 1);
    tx.abort();
    assert_eq!(store.len("players"), 2);
}

#[test]
fn concluding_follows_the_answers() {
    let events = vec![ReducerEvent::new("e", Value::U64(1))];
    let kept = conclude_execution("r", Execution::Returned(Ok(Value::U64(3))), events).unwrap();
    assert_eq!(kept.0, Value::U64(3));
    assert_eq!(kept.1.len(), 1);
    let failed = conclude_commit(
        TransactionId::from_u64(4),
        Err(Error::Conflict("late".to_owned())),
        vec![],
        Value::U64(3),
    );
    assert_eq!(failed.unwrap_err(), Error::Conflict("late".to_owned()));
}

#[test]
fn the_order_of_setting_arguments_does_not_matter() {
    let one = ReducerArgs::new().insert("b", Value::U64(2)).insert("a", Value::U64(1));
    let two = ReducerArgs::new().insert("a", Value::U64(1)).insert("b", Value::U64(2));
    assert_eq!(one, two);
    let three = one.insert("c", Value::U64(3)).insert("a", Value::U64(9));
    let four = two.insert("a", Value::U64(9)).insert("c", Value::U64(3));
    assert_eq!(three, four);
}
