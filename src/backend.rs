//! The storage backend over sled: each namespace owns one temporary database,
//! each object is one keyspace of it.
//!
//! The state of a storage is seen as a map from namespace name to its objects,
//! and from object name to the object's rows. Each operation is stated as a
//! step of that map (the `spec_*` functions below); the executable operations
//! are proved to take that step, or to report a system failure.
use crate::engine::{
    default_keyspace, key_precedes, keyspace_name, keyspace_names, keyspace_roots, keyspace_rows,
    open_temporary_database,
    open_tree, drop_tree, scan_next, tree_insert, tree_iter, tree_names, Scan,
    tree_remove,
};
use crate::error::{
    CreateObjectError, DropObjectError, NamespaceAlreadyExists, NamespaceDoesNotExist,
    OperationOnObjectError, SledErrorMapper, StorageErrorMapper, SystemResult, from_engine,
};
use crate::keyed::{
    has_name, keyed_map, lemma_keyed_index, lemma_keyed_push, lemma_keyed_remove,
    lemma_keyed_update, unique_names, Named,
};
use vstd::prelude::*;

verus! {

broadcast use {vstd::utf8::encode_utf8_decode_utf8, vstd::utf8::encode_utf8_valid_utf8};

pub type Key = Vec<u8>;

pub type Values = Vec<u8>;

pub type Row = (Key, Values);

/// The rows of one object.
pub type ObjectRows = Map<Seq<u8>, Seq<u8>>;

/// The objects of one namespace, by name.
pub type NamespaceObjects = Map<Seq<char>, ObjectRows>;

/// All namespaces of a storage, by name.
pub type StorageState = Map<Seq<char>, NamespaceObjects>;

pub open spec fn rows_view(rows: Seq<Row>) -> Seq<(Seq<u8>, Seq<u8>)> {
    rows.map_values(|row: Row| (row.0@, row.1@))
}

pub open spec fn keys_view(keys: Seq<Key>) -> Seq<Seq<u8>> {
    keys.map_values(|key: Key| key@)
}

/// The rows after writing each of `rows` in turn: a later write of a key
/// replaces an earlier one.
pub open spec fn with_rows(before: ObjectRows, rows: Seq<(Seq<u8>, Seq<u8>)>) -> ObjectRows
    decreases rows.len(),
{
    if rows.len() == 0 {
        before
    } else {
        with_rows(before, rows.drop_last()).insert(rows.last().0, rows.last().1)
    }
}

/// The rows after removing each of `keys` in turn.
pub open spec fn without_keys(before: ObjectRows, keys: Seq<Seq<u8>>) -> ObjectRows
    decreases keys.len(),
{
    if keys.len() == 0 {
        before
    } else {
        without_keys(before, keys.drop_last()).remove(keys.last())
    }
}

/// How many of `keys`, removed in turn, found a row to remove.
pub open spec fn removed_count(before: ObjectRows, keys: Seq<Seq<u8>>) -> int
    decreases keys.len(),
{
    if keys.len() == 0 {
        0
    } else {
        removed_count(before, keys.drop_last()) + if without_keys(
            before,
            keys.drop_last(),
        ).contains_key(keys.last()) {
            1int
        } else {
            0int
        }
    }
}

pub open spec fn spec_create_namespace(s: StorageState, ns: Seq<char>) -> (
    StorageState,
    Result<(), NamespaceAlreadyExists>,
) {
    if s.contains_key(ns) {
        (s, Err(NamespaceAlreadyExists))
    } else {
        (s.insert(ns, Map::empty()), Ok(()))
    }
}

pub open spec fn spec_drop_namespace(s: StorageState, ns: Seq<char>) -> (
    StorageState,
    Result<(), NamespaceDoesNotExist>,
) {
    if s.contains_key(ns) {
        (s.remove(ns), Ok(()))
    } else {
        (s, Err(NamespaceDoesNotExist))
    }
}

/// A name that the engine keeps for itself (`reserved`) counts as taken.
pub open spec fn spec_create_object(s: StorageState, ns: Seq<char>, obj: Seq<char>, reserved: bool) -> (
    StorageState,
    Result<(), CreateObjectError>,
) {
    if !s.contains_key(ns) {
        (s, Err(CreateObjectError::NamespaceDoesNotExist))
    } else if s[ns].contains_key(obj) || reserved {
        (s, Err(CreateObjectError::ObjectAlreadyExists))
    } else {
        (s.insert(ns, s[ns].insert(obj, Map::empty())), Ok(()))
    }
}

pub open spec fn spec_drop_object(s: StorageState, ns: Seq<char>, obj: Seq<char>) -> (
    StorageState,
    Result<(), DropObjectError>,
) {
    if !s.contains_key(ns) {
        (s, Err(DropObjectError::NamespaceDoesNotExist))
    } else if !s[ns].contains_key(obj) {
        (s, Err(DropObjectError::ObjectDoesNotExist))
    } else {
        (s.insert(ns, s[ns].remove(obj)), Ok(()))
    }
}

/// The rows of an object, or why there is no such object: a missing
/// namespace is reported before a missing object.
pub open spec fn spec_read(s: StorageState, ns: Seq<char>, obj: Seq<char>) -> Result<
    ObjectRows,
    OperationOnObjectError,
> {
    if !s.contains_key(ns) {
        Err(OperationOnObjectError::NamespaceDoesNotExist)
    } else if !s[ns].contains_key(obj) {
        Err(OperationOnObjectError::ObjectDoesNotExist)
    } else {
        Ok(s[ns][obj])
    }
}

pub open spec fn spec_write(
    s: StorageState,
    ns: Seq<char>,
    obj: Seq<char>,
    rows: Seq<(Seq<u8>, Seq<u8>)>,
) -> (StorageState, Result<int, OperationOnObjectError>) {
    match spec_read(s, ns, obj) {
        Ok(before) => (s.insert(ns, s[ns].insert(obj, with_rows(before, rows))), Ok(rows.len() as int)),
        Err(e) => (s, Err(e)),
    }
}

pub open spec fn spec_delete(s: StorageState, ns: Seq<char>, obj: Seq<char>, keys: Seq<Seq<u8>>) -> (
    StorageState,
    Result<int, OperationOnObjectError>,
) {
    match spec_read(s, ns, obj) {
        Ok(before) => (
            s.insert(ns, s[ns].insert(obj, without_keys(before, keys))),
            Ok(removed_count(before, keys)),
        ),
        Err(e) => (s, Err(e)),
    }
}

/// `after` is `s` with the first rows of `rows`, for some number of them,
/// written in order to one object.
pub open spec fn wrote_prefix(
    s: StorageState,
    after: StorageState,
    ns: Seq<char>,
    obj: Seq<char>,
    rows: Seq<(Seq<u8>, Seq<u8>)>,
) -> bool {
    exists|k: int|
        0 <= k <= rows.len() && after == s.insert(
            ns,
            s[ns].insert(obj, with_rows(s[ns][obj], rows.subrange(0, k))),
        )
}

/// `after` is `s` with the first keys of `keys`, for some number of them,
/// removed in order from one object.
pub open spec fn removed_prefix(
    s: StorageState,
    after: StorageState,
    ns: Seq<char>,
    obj: Seq<char>,
    keys: Seq<Seq<u8>>,
) -> bool {
    exists|k: int|
        0 <= k <= keys.len() && after == s.insert(
            ns,
            s[ns].insert(obj, without_keys(s[ns][obj], keys.subrange(0, k))),
        )
}

/// `after` differs from `s` at most in the rows of one object.
pub open spec fn changed_at_most(s: StorageState, after: StorageState, ns: Seq<char>, obj: Seq<char>) -> bool {
    exists|rows: ObjectRows| after == s.insert(ns, s[ns].insert(obj, rows))
}

/// An object: a keyspace of the namespace's database, under the object's name.
/// Its handle is the only one the library holds to that keyspace: a keyspace
/// is opened once, when the object is created, so rows change only through
/// this handle.
pub(crate) struct ObjectEntry {
    pub(crate) name: String,
    pub(crate) tree: sled::Tree,
}

impl Named for ObjectEntry {
    closed spec fn entry_name(&self) -> Seq<char> {
        self.name@
    }
}

impl View for ObjectEntry {
    type V = ObjectRows;

    closed spec fn view(&self) -> ObjectRows {
        keyspace_rows(self.tree)
    }
}

/// A namespace: its database and the keyspaces of it that are objects.
pub(crate) struct NamespaceEntry {
    pub(crate) name: String,
    pub(crate) database: sled::Db,
    pub(crate) objects: Vec<ObjectEntry>,
}

impl Named for NamespaceEntry {
    closed spec fn entry_name(&self) -> Seq<char> {
        self.name@
    }
}

impl View for NamespaceEntry {
    type V = NamespaceObjects;

    closed spec fn view(&self) -> NamespaceObjects {
        keyed_map(self.objects@)
    }
}

/// The bytes are one of the names.
pub fn contains_bytes(names: &Vec<Vec<u8>>, target: &[u8]) -> (r: bool)
    ensures
        r == exists|i: int| 0 <= i < names@.len() && #[trigger] names@[i]@ == target@,
{
    let mut i: usize = 0;
    while i < names.len()
        invariant
            i <= names@.len(),
            forall|j: int| 0 <= j < i ==> #[trigger] names@[j]@ != target@,
        decreases names.len() - i,
    {
        if same_bytes(names[i].as_slice(), target) {
            return true;
        }
        i = i + 1;
    }
    false
}

/// The two byte strings are equal.
pub fn same_bytes(a: &[u8], b: &[u8]) -> (r: bool)
    ensures
        r == (a@ == b@),
{
    if a.len() != b.len() {
        return false;
    }
    let mut i: usize = 0;
    while i < a.len()
        invariant
            a@.len() == b@.len(),
            i <= a@.len(),
            forall|j: int| 0 <= j < i ==> a@[j] == b@[j],
        decreases a.len() - i,
    {
        if a[i] != b[i] {
            return false;
        }
        i = i + 1;
    }
    assert(a@ =~= b@);
    true
}

impl NamespaceEntry {
    /// Object names are unique, no object is named like the default
    /// keyspace, the database's keyspaces are exactly the default one and
    /// those of the objects, and each of them has its root in the meta table.
    pub(crate) open spec fn wf(&self) -> bool {
        &&& unique_names(self.objects@)
        &&& forall|n: Seq<u8>| #[trigger]
            keyspace_names(self.database).contains(n) ==> keyspace_roots(self.database).contains(n)
        &&& forall|j: int|
            0 <= j < self.objects@.len() ==> keyspace_name(#[trigger] self.objects@[j].name@)
                != default_keyspace()
        &&& forall|n: Seq<u8>| #[trigger]
            keyspace_names(self.database).contains(n) <==> (n == default_keyspace() || exists|
                j: int,
            |
                0 <= j < self.objects@.len() && keyspace_name(#[trigger] self.objects@[j].name@)
                    == n)
    }

    /// The meta table holds no root beyond the registered keyspaces: no drop
    /// of a keyspace has failed half way.
    pub(crate) open spec fn settled(&self) -> bool {
        keyspace_roots(self.database) == keyspace_names(self.database)
    }

    fn find_object(&self, name: &str) -> (r: Option<usize>)
        ensures
            r matches Some(j) ==> j < self.objects@.len() && self.objects@[j as int].name@
                == name@,
            r is None ==> !has_name(self.objects@, name@),
    {
        let target = name.to_owned();
        let mut j: usize = 0;
        while j < self.objects.len()
            invariant
                j <= self.objects@.len(),
                target@ == name@,
                forall|k: int| 0 <= k < j ==> #[trigger] self.objects@[k].name@ != name@,
            decreases self.objects.len() - j,
        {
            if self.objects[j].name.eq(&target) {
                return Some(j);
            }
            j = j + 1;
        }
        None
    }

    fn create_object(&mut self, obj: &str) -> (r: SystemResult<Result<(), CreateObjectError>>)
        requires
            old(self).wf(),
        ensures
            final(self).wf(),
            final(self).name == old(self).name,
            r matches Ok(res) ==> {
                if old(self)@.contains_key(obj@) || keyspace_name(obj@) == default_keyspace() {
                    res == Err::<(), _>(CreateObjectError::ObjectAlreadyExists) && final(self)@
                        == old(self)@
                } else {
                    &&& res == Ok::<(), CreateObjectError>(())
                    &&& exists|rows: ObjectRows| final(self)@ == old(self)@.insert(obj@, rows)
                    &&& old(self).settled() ==> final(self)@ == old(self)@.insert(
                        obj@,
                        Map::empty(),
                    )
                }
            },
            r is Ok && old(self).settled() ==> final(self).settled(),
            r is Err ==> final(self)@ == old(self)@ && !old(self)@.contains_key(obj@)
                && keyspace_name(obj@) != default_keyspace(),
            r matches Err(e) ==> from_engine(e),
    {
        let names = tree_names(&self.database);
        let bytes = obj.as_bytes();
        if contains_bytes(&names, bytes) {
            proof {
                let n = keyspace_name(obj@);
                assert(keyspace_names(self.database).contains(n));
                if n != default_keyspace() {
                    let j = choose|j: int|
                        0 <= j < self.objects@.len() && keyspace_name(
                            #[trigger] self.objects@[j].name@,
                        ) == n;
                    assert(vstd::utf8::decode_utf8(keyspace_name(self.objects@[j].name@))
                        == vstd::utf8::decode_utf8(keyspace_name(obj@)));
                    assert(self.objects@[j].entry_name() == obj@);
                    lemma_keyed_index(self.objects@, j);
                }
            }
            return Ok(Err(CreateObjectError::ObjectAlreadyExists));
        }
        proof {
            assert(bytes@ == keyspace_name(obj@));
            assert(keyspace_names(self.database).contains(default_keyspace()));
            if has_name(self.objects@, obj@) {
                let j = choose|j: int|
                    0 <= j < self.objects@.len() && #[trigger] self.objects@[j].entry_name()
                        == obj@;
                assert(keyspace_names(self.database).contains(keyspace_name(obj@)));
            }
            assert(keyspace_name(obj@) != default_keyspace());
        }
        let ghost before = *self;
        match open_tree(&mut self.database, obj) {
            Ok(tree) => {
                let entry = ObjectEntry { name: obj.to_owned(), tree };
                proof {
                    lemma_keyed_push(self.objects@, entry);
                    if before.settled() {
                        assert(!keyspace_roots(before.database).contains(keyspace_name(obj@)));
                    }
                }
                self.objects.push(entry);
                proof {
                    assert forall|n: Seq<u8>| #[trigger]
                        keyspace_names(self.database).contains(n) <==> (n == default_keyspace()
                            || exists|j: int|
                            0 <= j < self.objects@.len() && keyspace_name(
                                #[trigger] self.objects@[j].name@,
                            ) == n) by {
                        if keyspace_names(before.database).contains(n) && n
                            != default_keyspace() {
                            let j = choose|j: int|
                                0 <= j < before.objects@.len() && keyspace_name(
                                    #[trigger] before.objects@[j].name@,
                                ) == n;
                            assert(self.objects@[j] == before.objects@[j]);
                        }
                        if n == keyspace_name(obj@) {
                            assert(self.objects@[before.objects@.len() as int] == entry);
                        }
                        if exists|j: int|
                            0 <= j < self.objects@.len() && keyspace_name(
                                #[trigger] self.objects@[j].name@,
                            ) == n {
                            let j = choose|j: int|
                                0 <= j < self.objects@.len() && keyspace_name(
                                    #[trigger] self.objects@[j].name@,
                                ) == n;
                            if j < before.objects@.len() {
                                assert(before.objects@[j] == self.objects@[j]);
                            }
                        }
                    }
                }
                Ok(Ok(()))
            },
            Err(error) => Err(SledErrorMapper::map(error)),
        }
    }
}

/// Taking out the object at `j` and unregistering its keyspace keeps a
/// namespace well formed, and removes that object from its view.
proof fn lemma_remove_object(before: NamespaceEntry, after: NamespaceEntry, j: int)
    requires
        before.wf(),
        0 <= j < before.objects@.len(),
        after.objects@ == before.objects@.remove(j),
        keyspace_names(after.database) == keyspace_names(before.database).remove(
            keyspace_name(before.objects@[j].name@),
        ),
        forall|n: Seq<u8>| #[trigger]
            keyspace_names(after.database).contains(n) ==> keyspace_roots(after.database).contains(n),
    ensures
        after.wf(),
        after@ == before@.remove(before.objects@[j].name@),
{
    lemma_keyed_remove(before.objects@, j);
    let gone = keyspace_name(before.objects@[j].name@);
    assert(keyspace_names(before.database).contains(gone));
    assert forall|k: int| 0 <= k < after.objects@.len() implies #[trigger] after.objects@[k]
        == before.objects@[if k < j {
        k
    } else {
        k + 1
    }] by {}
    assert forall|n: Seq<u8>| #[trigger]
        keyspace_names(after.database).contains(n) <==> (n == default_keyspace() || exists|k: int|
            0 <= k < after.objects@.len() && keyspace_name(#[trigger] after.objects@[k].name@)
                == n) by {
        if gone == default_keyspace() {
        }
        if keyspace_names(after.database).contains(n) && n != default_keyspace() {
            let k = choose|k: int|
                0 <= k < before.objects@.len() && keyspace_name(
                    #[trigger] before.objects@[k].name@,
                ) == n;
            assert(k != j);
            let k2 = if k < j { k } else { k - 1 };
            assert(after.objects@[k2] == before.objects@[k]);
        }
        if exists|k: int|
            0 <= k < after.objects@.len() && keyspace_name(#[trigger] after.objects@[k].name@)
                == n {
            let k = choose|k: int|
                0 <= k < after.objects@.len() && keyspace_name(
                    #[trigger] after.objects@[k].name@,
                ) == n;
            let k2 = if k < j { k } else { k + 1 };
            assert(after.objects@[k] == before.objects@[k2]);
            if n == gone {
                assert(vstd::utf8::decode_utf8(keyspace_name(before.objects@[k2].name@))
                    == vstd::utf8::decode_utf8(gone));
                assert(before.objects@[k2].entry_name() == before.objects@[j].entry_name());
            }
        }
        if n == default_keyspace() {
            assert(keyspace_names(before.database).contains(n));
        }
    }
}

/// Putting back the object at `j` under the same name, with the database's
/// keyspaces unchanged, keeps a namespace well formed.
proof fn lemma_replace_object(before: NamespaceEntry, after: NamespaceEntry, j: int, x: ObjectEntry)
    requires
        before.wf(),
        0 <= j < before.objects@.len(),
        x.name@ == before.objects@[j].name@,
        after.objects@ == before.objects@.update(j, x),
        keyspace_names(after.database) == keyspace_names(before.database),
        keyspace_roots(after.database) == keyspace_roots(before.database),
    ensures
        after.wf(),
        after@ == before@.insert(x.name@, x@),
{
    lemma_keyed_update(before.objects@, j, x);
    assert forall|k: int| 0 <= k < after.objects@.len() implies #[trigger] after.objects@[k].name@
        == before.objects@[k].name@ by {}
    assert forall|n: Seq<u8>| #[trigger]
        keyspace_names(after.database).contains(n) <==> (n == default_keyspace() || exists|k: int|
            0 <= k < after.objects@.len() && keyspace_name(#[trigger] after.objects@[k].name@)
                == n) by {
        if keyspace_names(after.database).contains(n) && n != default_keyspace() {
            let k = choose|k: int|
                0 <= k < before.objects@.len() && keyspace_name(
                    #[trigger] before.objects@[k].name@,
                ) == n;
            assert(keyspace_name(after.objects@[k].name@) == n);
        }
        if exists|k: int|
            0 <= k < after.objects@.len() && keyspace_name(#[trigger] after.objects@[k].name@)
                == n {
            let k = choose|k: int|
                0 <= k < after.objects@.len() && keyspace_name(
                    #[trigger] after.objects@[k].name@,
                ) == n;
            assert(keyspace_name(before.objects@[k].name@) == n);
        }
    }
}

proof fn lemma_with_rows_step(before: ObjectRows, rows: Seq<(Seq<u8>, Seq<u8>)>, i: int)
    requires
        0 <= i < rows.len(),
    ensures
        with_rows(before, rows.subrange(0, i + 1)) == with_rows(before, rows.subrange(0, i)).insert(
            rows[i].0,
            rows[i].1,
        ),
{
    assert(rows.subrange(0, i + 1).drop_last() =~= rows.subrange(0, i));
}

proof fn lemma_without_keys_step(before: ObjectRows, keys: Seq<Seq<u8>>, i: int)
    requires
        0 <= i < keys.len(),
    ensures
        without_keys(before, keys.subrange(0, i + 1)) == without_keys(
            before,
            keys.subrange(0, i),
        ).remove(keys[i]),
        removed_count(before, keys.subrange(0, i + 1)) == removed_count(
            before,
            keys.subrange(0, i),
        ) + if without_keys(before, keys.subrange(0, i)).contains_key(keys[i]) {
            1int
        } else {
            0int
        },
{
    assert(keys.subrange(0, i + 1).drop_last() =~= keys.subrange(0, i));
}

impl NamespaceEntry {
    /// An object is there exactly when its keyspace is registered and is not
    /// the default one.
    proof fn lemma_object_registered(self, obj: Seq<char>)
        requires
            self.wf(),
        ensures
            self@.contains_key(obj) <==> (keyspace_names(self.database).contains(keyspace_name(obj))
                && keyspace_name(obj) != default_keyspace()),
    {
        let gone = keyspace_name(obj);
        if self@.contains_key(obj) {
            let k = choose|k: int|
                0 <= k < self.objects@.len() && #[trigger] self.objects@[k].entry_name() == obj;
            assert(keyspace_name(self.objects@[k].name@) == gone);
        }
        if keyspace_names(self.database).contains(gone) && gone != default_keyspace() {
            let k = choose|k: int|
                0 <= k < self.objects@.len() && keyspace_name(#[trigger] self.objects@[k].name@)
                    == gone;
            assert(vstd::utf8::decode_utf8(keyspace_name(self.objects@[k].name@))
                == vstd::utf8::decode_utf8(gone));
            assert(self.objects@[k].entry_name() == obj);
            assert(has_name(self.objects@, obj));
        }
    }

    fn drop_object(&mut self, obj: &str) -> (r: SystemResult<Result<(), DropObjectError>>)
        requires
            old(self).wf(),
        ensures
            final(self).wf(),
            final(self).name == old(self).name,
            r matches Ok(res) ==> if old(self)@.contains_key(obj@) {
                res == Ok::<(), DropObjectError>(()) && final(self)@ == old(self)@.remove(obj@)
            } else {
                res == Err::<(), _>(DropObjectError::ObjectDoesNotExist) && final(self)@ == old(
                    self,
                )@
            },
            keyspace_name(obj@) == default_keyspace() ==> r is Err && final(self)@ == old(self)@,
            keyspace_name(obj@) != default_keyspace() && !old(self)@.contains_key(obj@) ==> r is Ok,
            r is Err && keyspace_name(obj@) != default_keyspace() ==> old(self)@.contains_key(obj@)
                && final(self)@ == old(self)@.remove(obj@),
            r is Ok && old(self).settled() ==> final(self).settled(),
            r matches Err(e) ==> from_engine(e),
    {
        let ghost before = *self;
        let ghost gone = keyspace_name(obj@);
        proof {
            before.lemma_object_registered(obj@);
        }
        let dropped = drop_tree(&mut self.database, obj);
        if let Ok(false) = dropped {
            return Ok(Err(DropObjectError::ObjectDoesNotExist));
        }
        match self.find_object(obj) {
            Some(j) => {
                proof {
                    lemma_keyed_index(before.objects@, j as int);
                }
                let _released = self.objects.remove(j);
                proof {
                    lemma_remove_object(before, *self, j as int);
                }
            },
            None => {},
        }
        match dropped {
            Ok(_) => Ok(Ok(())),
            Err(error) => Err(SledErrorMapper::map(error)),
        }
    }

    fn write(&mut self, obj: &str, rows: &Vec<Row>) -> (r: SystemResult<
        Result<usize, OperationOnObjectError>,
    >)
        requires
            old(self).wf(),
        ensures
            final(self).wf(),
            final(self).name == old(self).name,
            !old(self)@.contains_key(obj@) ==> (r matches Ok(Err(e)) && e
                == OperationOnObjectError::ObjectDoesNotExist && final(self)@ == old(self)@),
            old(self)@.contains_key(obj@) && r is Ok ==> (r matches Ok(Ok(n)) && n == rows@.len()
                && final(self)@ == old(self)@.insert(
                obj@,
                with_rows(old(self)@[obj@], rows_view(rows@)),
            )),
            old(self)@.contains_key(obj@) && rows@.len() == 0 ==> r is Ok,
            old(self)@.contains_key(obj@) && r is Err ==> exists|k: int|
                0 <= k <= rows@.len() && final(self)@ == old(self)@.insert(
                    obj@,
                    with_rows(old(self)@[obj@], rows_view(rows@).subrange(0, k)),
                ),
            final(self).database == old(self).database,
            r matches Err(e) ==> from_engine(e),
    {
        match self.find_object(obj) {
            None => Ok(Err(OperationOnObjectError::ObjectDoesNotExist)),
            Some(j) => {
                let ghost before = *self;
                let ghost rv = rows_view(rows@);
                proof {
                    lemma_keyed_index(before.objects@, j as int);
                }
                let mut object = self.objects.remove(j);
                let ghost start = keyspace_rows(object.tree);
                let mut i: usize = 0;
                let mut outcome: Result<(), sled::Error> = Ok(());
                while i < rows.len()
                    invariant_except_break
                        outcome is Ok,
                        keyspace_rows(object.tree) == with_rows(start, rv.subrange(0, i as int)),
                    invariant
                        i <= rows@.len(),
                        rv == rows_view(rows@),
                        object.name == before.objects@[j as int].name,
                    ensures
                        outcome is Ok ==> i == rows@.len() && keyspace_rows(object.tree)
                            == with_rows(start, rv.subrange(0, i as int)),
                        rows@.len() == 0 ==> outcome is Ok,
                        outcome is Err ==> i < rows@.len() && (keyspace_rows(object.tree)
                            == with_rows(start, rv.subrange(0, i as int)) || keyspace_rows(
                            object.tree,
                        ) == with_rows(start, rv.subrange(0, i as int + 1))),
                    decreases rows@.len() - i,
                {
                    let key = vstd::slice::slice_to_vec(rows[i].0.as_slice());
                    let value = vstd::slice::slice_to_vec(rows[i].1.as_slice());
                    proof {
                        lemma_with_rows_step(start, rv, i as int);
                    }
                    match tree_insert(&mut object.tree, key, value) {
                        Ok(()) => {
                            i = i + 1;
                        },
                        Err(error) => {
                            outcome = Err(error);
                            break ;
                        },
                    }
                }
                let ghost put_back = object;
                self.objects.insert(j, object);
                proof {
                    assert(self.objects@ =~= before.objects@.update(j as int, put_back));
                    lemma_replace_object(before, *self, j as int, put_back);
                    if outcome is Ok {
                        assert(rv.subrange(0, i as int) =~= rv);
                    } else {
                        let k = if keyspace_rows(put_back.tree) == with_rows(
                            start,
                            rv.subrange(0, i as int),
                        ) {
                            i as int
                        } else {
                            i as int + 1
                        };
                        assert(self@ == before@.insert(
                            obj@,
                            with_rows(before@[obj@], rv.subrange(0, k)),
                        ));
                    }
                }
                match outcome {
                    Ok(()) => Ok(Ok(i)),
                    Err(error) => Err(SledErrorMapper::map(error)),
                }
            },
        }
    }

    fn delete(&mut self, obj: &str, keys: &Vec<Key>) -> (r: SystemResult<
        Result<usize, OperationOnObjectError>,
    >)
        requires
            old(self).wf(),
        ensures
            final(self).wf(),
            final(self).name == old(self).name,
            !old(self)@.contains_key(obj@) ==> (r matches Ok(Err(e)) && e
                == OperationOnObjectError::ObjectDoesNotExist && final(self)@ == old(self)@),
            old(self)@.contains_key(obj@) && r is Ok ==> (r matches Ok(Ok(n)) && n
                == removed_count(old(self)@[obj@], keys_view(keys@)) && final(self)@ == old(
                self,
            )@.insert(obj@, without_keys(old(self)@[obj@], keys_view(keys@)))),
            old(self)@.contains_key(obj@) && keys@.len() == 0 ==> r is Ok,
            old(self)@.contains_key(obj@) && r is Err ==> exists|k: int|
                0 <= k <= keys@.len() && final(self)@ == old(self)@.insert(
                    obj@,
                    without_keys(old(self)@[obj@], keys_view(keys@).subrange(0, k)),
                ),
            final(self).database == old(self).database,
            r matches Err(e) ==> from_engine(e),
    {
        match self.find_object(obj) {
            None => Ok(Err(OperationOnObjectError::ObjectDoesNotExist)),
            Some(j) => {
                let ghost before = *self;
                let ghost kv = keys_view(keys@);
                proof {
                    lemma_keyed_index(before.objects@, j as int);
                }
                let mut object = self.objects.remove(j);
                let ghost start = keyspace_rows(object.tree);
                let mut i: usize = 0;
                let mut deleted: usize = 0;
                let mut outcome: Result<(), sled::Error> = Ok(());
                while i < keys.len()
                    invariant_except_break
                        outcome is Ok,
                        deleted <= i,
                        keyspace_rows(object.tree) == without_keys(start, kv.subrange(0, i as int)),
                        deleted == removed_count(start, kv.subrange(0, i as int)),
                    invariant
                        i <= keys@.len(),
                        kv == keys_view(keys@),
                        object.name == before.objects@[j as int].name,
                    ensures
                        outcome is Ok ==> i == keys@.len() && keyspace_rows(object.tree)
                            == without_keys(start, kv.subrange(0, i as int)) && deleted
                            == removed_count(start, kv.subrange(0, i as int)),
                        keys@.len() == 0 ==> outcome is Ok,
                        outcome is Err ==> i < keys@.len() && (keyspace_rows(object.tree)
                            == without_keys(start, kv.subrange(0, i as int)) || keyspace_rows(
                            object.tree,
                        ) == without_keys(start, kv.subrange(0, i as int + 1))),
                    decreases keys@.len() - i,
                {
                    proof {
                        lemma_without_keys_step(start, kv, i as int);
                    }
                    match tree_remove(&mut object.tree, keys[i].as_slice()) {
                        Ok(Some(_)) => {
                            deleted = deleted + 1;
                            i = i + 1;
                        },
                        Ok(None) => {
                            i = i + 1;
                        },
                        Err(error) => {
                            outcome = Err(error);
                            break ;
                        },
                    }
                }
                let ghost put_back = object;
                self.objects.insert(j, object);
                proof {
                    assert(self.objects@ =~= before.objects@.update(j as int, put_back));
                    lemma_replace_object(before, *self, j as int, put_back);
                    if outcome is Ok {
                        assert(kv.subrange(0, i as int) =~= kv);
                    } else {
                        let k = if keyspace_rows(put_back.tree) == without_keys(
                            start,
                            kv.subrange(0, i as int),
                        ) {
                            i as int
                        } else {
                            i as int + 1
                        };
                        assert(self@ == before@.insert(
                            obj@,
                            without_keys(before@[obj@], kv.subrange(0, k)),
                        ));
                    }
                }
                match outcome {
                    Ok(()) => Ok(Ok(deleted)),
                    Err(error) => Err(SledErrorMapper::map(error)),
                }
            },
        }
    }
}

/// Storage whose namespaces are sled databases and whose objects are their
/// keyspaces.
pub struct SledBackendStorage {
    namespaces: Vec<NamespaceEntry>,
}

impl View for SledBackendStorage {
    type V = StorageState;

    closed spec fn view(&self) -> StorageState {
        keyed_map(self.namespaces@)
    }
}

impl SledBackendStorage {
    /// Namespace names are unique and each namespace is well formed.
    /// No keyspace of any namespace was left half dropped by a failed
    /// `drop_object`; until then, an object created anew starts empty.
    pub closed spec fn settled(&self) -> bool {
        forall|i: int| 0 <= i < self.namespaces@.len() ==> #[trigger] self.namespaces@[i].settled()
    }

    pub closed spec fn wf(&self) -> bool {
        &&& unique_names(self.namespaces@)
        &&& forall|i: int| 0 <= i < self.namespaces@.len() ==> #[trigger] self.namespaces@[i].wf()
    }

    /// A storage with no namespaces.
    pub fn new() -> (r: SledBackendStorage)
        ensures
            r.wf(),
            r.settled(),
            r@ == StorageState::empty(),
    {
        let r = SledBackendStorage { namespaces: Vec::new() };
        assert(r@ =~= StorageState::empty());
        r
    }

    fn find_namespace(&self, name: &str) -> (r: Option<usize>)
        ensures
            r matches Some(i) ==> i < self.namespaces@.len() && self.namespaces@[i as int].name@
                == name@,
            r is None ==> !has_name(self.namespaces@, name@),
    {
        let target = name.to_owned();
        let mut i: usize = 0;
        while i < self.namespaces.len()
            invariant
                i <= self.namespaces@.len(),
                target@ == name@,
                forall|k: int| 0 <= k < i ==> #[trigger] self.namespaces@[k].name@ != name@,
            decreases self.namespaces.len() - i,
        {
            if self.namespaces[i].name.eq(&target) {
                return Some(i);
            }
            i = i + 1;
        }
        None
    }

    pub fn create_namespace(&mut self, namespace: &str) -> (r: SystemResult<
        Result<(), NamespaceAlreadyExists>,
    >)
        requires
            old(self).wf(),
        ensures
            final(self).wf(),
            r matches Ok(res) ==> (final(self)@, res) == spec_create_namespace(
                old(self)@,
                namespace@,
            ),
            r is Err ==> final(self)@ == old(self)@ && !old(self)@.contains_key(namespace@),
            old(self).settled() ==> final(self).settled(),
            r matches Err(e) ==> from_engine(e),
    {
        match self.find_namespace(namespace) {
            Some(i) => {
                proof {
                    lemma_keyed_index(self.namespaces@, i as int);
                }
                Ok(Err(NamespaceAlreadyExists))
            },
            None => match open_temporary_database() {
                Ok(database) => {
                    let entry = NamespaceEntry {
                        name: namespace.to_owned(),
                        database,
                        objects: Vec::new(),
                    };
                    proof {
                        assert(entry@ =~= NamespaceObjects::empty());
                        lemma_keyed_push(self.namespaces@, entry);
                    }
                    self.namespaces.push(entry);
                    Ok(Ok(()))
                },
                Err(error) => Err(SledErrorMapper::map(error)),
            },
        }
    }

    pub fn drop_namespace(&mut self, namespace: &str) -> (r: SystemResult<
        Result<(), NamespaceDoesNotExist>,
    >)
        requires
            old(self).wf(),
        ensures
            final(self).wf(),
            r matches Ok(res) && (final(self)@, res) == spec_drop_namespace(
                old(self)@,
                namespace@,
            ),
            old(self).settled() ==> final(self).settled(),
    {
        match self.find_namespace(namespace) {
            Some(i) => {
                proof {
                    lemma_keyed_remove(self.namespaces@, i as int);
                }
                let _released = self.namespaces.remove(i);
                Ok(Ok(()))
            },
            None => Ok(Err(NamespaceDoesNotExist)),
        }
    }

    pub fn create_object(&mut self, namespace: &str, object_name: &str) -> (r: SystemResult<
        Result<(), CreateObjectError>,
    >)
        requires
            old(self).wf(),
        ensures
            final(self).wf(),
            r matches Ok(res) ==> res == spec_create_object(
                old(self)@,
                namespace@,
                object_name@,
                keyspace_name(object_name@) == default_keyspace(),
            ).1,
            old(self).settled() ==> (r matches Ok(res) ==> (final(self)@, res) == spec_create_object(
                old(self)@,
                namespace@,
                object_name@,
                keyspace_name(object_name@) == default_keyspace(),
            )),
            r matches Ok(Err(_)) ==> final(self)@ == old(self)@,
            r matches Ok(Ok(_)) ==> changed_at_most(old(self)@, final(self)@, namespace@, object_name@),
            r is Ok && old(self).settled() ==> final(self).settled(),
            r is Err ==> final(self)@ == old(self)@ && spec_create_object(
                old(self)@,
                namespace@,
                object_name@,
                keyspace_name(object_name@) == default_keyspace(),
            ).1 is Ok,
            r matches Err(e) ==> from_engine(e),
    {
        match self.find_namespace(namespace) {
            Some(i) => {
                let ghost before = self.namespaces@;
                proof {
                    lemma_keyed_index(before, i as int);
                }
                let mut entry = self.namespaces.remove(i);
                let ghost old_entry = entry;
                assert(old_entry == before[i as int]);
                let r = entry.create_object(object_name);
                self.namespaces.insert(i, entry);
                proof {
                    assert(self.namespaces@ =~= before.update(i as int, entry));
                    lemma_keyed_update(before, i as int, entry);
                    if r is Err {
                        assert(keyed_map(before).insert(namespace@, entry@) =~= keyed_map(before));
                    }
                    if r matches Ok(Err(_)) {
                        assert(keyed_map(before).insert(namespace@, entry@) =~= keyed_map(before));
                    }
                }
                r
            },
            None => {
                assert(!self@.contains_key(namespace@));
                Ok(Err(CreateObjectError::NamespaceDoesNotExist))
            },
        }
    }

    pub fn drop_object(&mut self, namespace: &str, object_name: &str) -> (r: SystemResult<
        Result<(), DropObjectError>,
    >)
        requires
            old(self).wf(),
        ensures
            final(self).wf(),
            r matches Ok(res) ==> (final(self)@, res) == spec_drop_object(
                old(self)@,
                namespace@,
                object_name@,
            ),
            !old(self)@.contains_key(namespace@) ==> r is Ok,
            old(self)@.contains_key(namespace@) && !old(self)@[namespace@].contains_key(
                object_name@,
            ) && keyspace_name(object_name@) != default_keyspace() ==> r is Ok,
            old(self)@.contains_key(namespace@) && keyspace_name(object_name@)
                == default_keyspace() ==> r is Err && final(self)@ == old(self)@,
            r is Err && keyspace_name(object_name@) != default_keyspace() ==> final(self)@
                == spec_drop_object(old(self)@, namespace@, object_name@).0,
            r is Ok && old(self).settled() ==> final(self).settled(),
            r matches Err(e) ==> from_engine(e),
    {
        match self.find_namespace(namespace) {
            Some(i) => {
                let ghost before = self.namespaces@;
                let mut entry = self.namespaces.remove(i);
                let ghost old_entry = entry;
                assert(old_entry == before[i as int]);
                let r = entry.drop_object(object_name);
                self.namespaces.insert(i, entry);
                proof {
                    assert(self.namespaces@ =~= before.update(i as int, entry));
                    lemma_put_back(before, i as int, entry);
                    if entry@ == old_entry@ {
                        assert(keyed_map(before).insert(namespace@, entry@) =~= keyed_map(before));
                    }
                }
                r
            },
            None => {
                assert(!self@.contains_key(namespace@));
                Ok(Err(DropObjectError::NamespaceDoesNotExist))
            },
        }
    }

    /// Writes the rows in order, each replacing the row of its key if there
    /// is one; the count of rows written comes back. A failure of the engine
    /// stops the write, and rows already written stay.
    pub fn write(&mut self, namespace: &str, object_name: &str, rows: Vec<Row>) -> (r: SystemResult<
        Result<usize, OperationOnObjectError>,
    >)
        requires
            old(self).wf(),
        ensures
            final(self).wf(),
            r matches Ok(Ok(n)) ==> (final(self)@, Ok::<int, OperationOnObjectError>(n as int))
                == spec_write(old(self)@, namespace@, object_name@, rows_view(rows@)),
            r matches Ok(Err(e)) ==> (final(self)@, Err::<int, OperationOnObjectError>(e))
                == spec_write(old(self)@, namespace@, object_name@, rows_view(rows@)),
            spec_read(old(self)@, namespace@, object_name@) is Err ==> r is Ok,
            rows@.len() == 0 ==> r is Ok,
            r is Err ==> spec_read(old(self)@, namespace@, object_name@) is Ok && wrote_prefix(
                old(self)@,
                final(self)@,
                namespace@,
                object_name@,
                rows_view(rows@),
            ),
            old(self).settled() ==> final(self).settled(),
            r matches Err(e) ==> from_engine(e),
    {
        match self.find_namespace(namespace) {
            Some(i) => {
                let ghost before = self.namespaces@;
                let mut entry = self.namespaces.remove(i);
                let ghost old_entry = entry;
                assert(old_entry == before[i as int]);
                let r = entry.write(object_name, &rows);
                self.namespaces.insert(i, entry);
                proof {
                    assert(self.namespaces@ =~= before.update(i as int, entry));
                    lemma_put_back(before, i as int, entry);
                    assert(old_entry.settled() ==> entry.settled());
                    if entry@ == old_entry@ {
                        assert(keyed_map(before).insert(namespace@, entry@) =~= keyed_map(before));
                    }
                    if r is Err {
                        let k = choose|k: int|
                            0 <= k <= rows@.len() && entry@ == old_entry@.insert(
                                object_name@,
                                with_rows(old_entry@[object_name@], rows_view(rows@).subrange(0, k)),
                            );
                        assert(self@ == keyed_map(before).insert(
                            namespace@,
                            keyed_map(before)[namespace@].insert(
                                object_name@,
                                with_rows(
                                    keyed_map(before)[namespace@][object_name@],
                                    rows_view(rows@).subrange(0, k),
                                ),
                            ),
                        ));
                    }
                }
                r
            },
            None => {
                assert(!self@.contains_key(namespace@));
                Ok(Err(OperationOnObjectError::NamespaceDoesNotExist))
            },
        }
    }

    /// Starts a scan of the rows of an object. Whether the namespace and the
    /// object are there is decided now; the rows are fetched one by one as
    /// the cursor is advanced.
    pub fn read(&self, namespace: &str, object_name: &str) -> (r: SystemResult<
        Result<ReadCursor<'_>, OperationOnObjectError>,
    >)
        requires
            self.wf(),
        ensures
            r matches Ok(res) && match res {
                Ok(cursor) => spec_read(self@, namespace@, object_name@) == Ok::<
                    ObjectRows,
                    OperationOnObjectError,
                >(cursor@) && cursor@.dom().finite(),
                Err(e) => spec_read(self@, namespace@, object_name@) == Err::<ObjectRows, _>(e),
            },
    {
        match self.find_namespace(namespace) {
            Some(i) => {
                proof {
                    lemma_keyed_index(self.namespaces@, i as int);
                }
                let entry = &self.namespaces[i];
                match entry.find_object(object_name) {
                    Some(j) => {
                        proof {
                            assert(self.namespaces@[i as int].wf());
                            lemma_keyed_index(entry.objects@, j as int);
                        }
                        let source = &entry.objects[j].tree;
                        Ok(Ok(ReadCursor { scan: tree_iter(source) }))
                    },
                    None => Ok(Err(OperationOnObjectError::ObjectDoesNotExist)),
                }
            },
            None => {
                assert(!self@.contains_key(namespace@));
                Ok(Err(OperationOnObjectError::NamespaceDoesNotExist))
            },
        }
    }

    /// Removes the rows of the keys in order; the count of rows that were
    /// there to remove comes back, so an absent key counts nothing. A failure
    /// of the engine stops the removal, and rows already removed stay so.
    pub fn delete(&mut self, namespace: &str, object_name: &str, keys: Vec<Key>) -> (r: SystemResult<
        Result<usize, OperationOnObjectError>,
    >)
        requires
            old(self).wf(),
        ensures
            final(self).wf(),
            r matches Ok(Ok(n)) ==> (final(self)@, Ok::<int, OperationOnObjectError>(n as int))
                == spec_delete(old(self)@, namespace@, object_name@, keys_view(keys@)),
            r matches Ok(Err(e)) ==> (final(self)@, Err::<int, OperationOnObjectError>(e))
                == spec_delete(old(self)@, namespace@, object_name@, keys_view(keys@)),
            spec_read(old(self)@, namespace@, object_name@) is Err ==> r is Ok,
            keys@.len() == 0 ==> r is Ok,
            r is Err ==> spec_read(old(self)@, namespace@, object_name@) is Ok && removed_prefix(
                old(self)@,
                final(self)@,
                namespace@,
                object_name@,
                keys_view(keys@),
            ),
            old(self).settled() ==> final(self).settled(),
            r matches Err(e) ==> from_engine(e),
    {
        match self.find_namespace(namespace) {
            Some(i) => {
                let ghost before = self.namespaces@;
                let mut entry = self.namespaces.remove(i);
                let ghost old_entry = entry;
                assert(old_entry == before[i as int]);
                let r = entry.delete(object_name, &keys);
                self.namespaces.insert(i, entry);
                proof {
                    assert(self.namespaces@ =~= before.update(i as int, entry));
                    lemma_put_back(before, i as int, entry);
                    assert(old_entry.settled() ==> entry.settled());
                    if entry@ == old_entry@ {
                        assert(keyed_map(before).insert(namespace@, entry@) =~= keyed_map(before));
                    }
                    if r is Err {
                        let k = choose|k: int|
                            0 <= k <= keys@.len() && entry@ == old_entry@.insert(
                                object_name@,
                                without_keys(old_entry@[object_name@], keys_view(keys@).subrange(0, k)),
                            );
                        assert(self@ == keyed_map(before).insert(
                            namespace@,
                            keyed_map(before)[namespace@].insert(
                                object_name@,
                                without_keys(
                                    keyed_map(before)[namespace@][object_name@],
                                    keys_view(keys@).subrange(0, k),
                                ),
                            ),
                        ));
                    }
                }
                r
            },
            None => {
                assert(!self@.contains_key(namespace@));
                Ok(Err(OperationOnObjectError::NamespaceDoesNotExist))
            },
        }
    }
}

/// Putting back the namespace at `i` under the same name keeps the storage
/// well formed.
proof fn lemma_put_back(before: Seq<NamespaceEntry>, i: int, x: NamespaceEntry)
    requires
        unique_names(before),
        forall|k: int| 0 <= k < before.len() ==> #[trigger] before[k].wf(),
        0 <= i < before.len(),
        x.name == before[i].name,
        x.wf(),
    ensures
        unique_names(before.update(i, x)),
        forall|k: int| 0 <= k < before.len() ==> #[trigger] before.update(i, x)[k].wf(),
        keyed_map(before.update(i, x)) == keyed_map(before).insert(x.name@, x@),
        keyed_map(before).contains_key(x.name@),
        keyed_map(before)[x.name@] == before[i]@,
        (forall|k: int| 0 <= k < before.len() ==> #[trigger] before[k].settled()) && x.settled()
            ==> forall|k: int| 0 <= k < before.len() ==> #[trigger] before.update(i, x)[k].settled(),
{
    lemma_keyed_update(before, i, x);
    lemma_keyed_index(before, i);
}

impl Default for SledBackendStorage {
    fn default() -> (r: SledBackendStorage)
        ensures
            r.wf(),
            r.settled(),
            r@ == StorageState::empty(),
    {
        SledBackendStorage::new()
    }
}

/// `rows` holds each row of `m` once, and nothing else, in ascending
/// byte-wise order of the keys.
pub open spec fn drained_in_order(rows: Seq<(Seq<u8>, Seq<u8>)>, m: ObjectRows) -> bool {
    &&& forall|i: int| 0 <= i < rows.len() ==> m.contains_key(#[trigger] rows[i].0) && m[rows[i].0]
        == rows[i].1
    &&& forall|k: Seq<u8>| #[trigger] m.contains_key(k) ==> exists|i: int|
        0 <= i < rows.len() && rows[i].0 == k
    &&& forall|i: int, j: int|
        0 <= i < j < rows.len() ==> key_precedes(#[trigger] rows[i].0, #[trigger] rows[j].0)
}

/// A lazy scan over the rows of one object. It borrows the storage, so the
/// object cannot change while the scan runs.
pub struct ReadCursor<'a> {
    scan: Scan<'a>,
}

impl<'a> View for ReadCursor<'a> {
    /// The rows that the scan has yet to hand out.
    type V = ObjectRows;

    closed spec fn view(&self) -> ObjectRows {
        self.scan.remaining()
    }
}

impl<'a> ReadCursor<'a> {
    /// Drains the scan: all remaining rows, in ascending byte-wise order of
    /// their keys, or the first failure of the engine to fetch one.
    pub fn read_all(&mut self) -> (r: SystemResult<Vec<Row>>)
        requires
            old(self)@.dom().finite(),
        ensures
            r matches Ok(all) ==> drained_in_order(rows_view(all@), old(self)@),
            r matches Err(e) ==> from_engine(e),
    {
        let ghost start = self@;
        let mut rows: Vec<Row> = Vec::new();
        loop
            invariant
                start == old(self)@,
                forall|i: int| 0 <= i < rows@.len() ==> start.contains_key(#[trigger] rows@[i].0@)
                    && start[rows@[i].0@] == rows@[i].1@ && !self@.contains_key(rows@[i].0@),
                forall|k: Seq<u8>| #[trigger] self@.contains_key(k) ==> start.contains_key(k)
                    && start[k] == self@[k],
                forall|k: Seq<u8>| #[trigger] start.contains_key(k) ==> self@.contains_key(k)
                    || exists|i: int| 0 <= i < rows@.len() && rows@[i].0@ == k,
                forall|i: int, k: Seq<u8>|
                    0 <= i < rows@.len() && #[trigger] self@.contains_key(k) ==> key_precedes(
                        #[trigger] rows@[i].0@,
                        k,
                    ),
                forall|i: int, j: int|
                    0 <= i < j < rows@.len() ==> key_precedes(#[trigger] rows@[i].0@, #[trigger] rows@[j].0@),
                self@.dom().finite(),
            decreases self@.dom().len(),
        {
            let ghost before = self@;
            let ghost got = rows@;
            match self.next() {
                None => {
                    proof {
                        let rv = rows_view(rows@);
                        assert forall|i: int| 0 <= i < rv.len() implies rv[i] == (
                            rows@[i].0@,
                            rows@[i].1@,
                        ) by {}
                        assert forall|i: int| 0 <= i < rv.len() implies start.contains_key(
                            #[trigger] rv[i].0,
                        ) && start[rv[i].0] == rv[i].1 by {
                            assert(rv[i] == (rows@[i].0@, rows@[i].1@));
                        }
                        assert forall|i: int, j: int| 0 <= i < j < rv.len() implies key_precedes(
                            #[trigger] rv[i].0,
                            #[trigger] rv[j].0,
                        ) by {
                            assert(rv[i] == (rows@[i].0@, rows@[i].1@));
                            assert(rv[j] == (rows@[j].0@, rows@[j].1@));
                        }
                        assert forall|k: Seq<u8>| #[trigger] start.contains_key(k) implies exists|
                            i: int,
                        |
                            0 <= i < rows_view(rows@).len() && rows_view(rows@)[i].0 == k by {
                            assert(!before.contains_key(k));
                            let i = choose|i: int| 0 <= i < rows@.len() && rows@[i].0@ == k;
                            assert(rows_view(rows@)[i].0 == k);
                        }
                    }
                    return Ok(rows);
                },
                Some(Ok(row)) => {
                    rows.push(row);
                    proof {
                        assert(rows@[got.len() as int] == row);
                        assert forall|i: int| 0 <= i < got.len() implies rows@[i] == got[i] by {}
                        assert forall|k: Seq<u8>| #[trigger] start.contains_key(k) implies self@.contains_key(
                            k,
                        ) || exists|i: int| 0 <= i < rows@.len() && rows@[i].0@ == k by {
                            if !before.contains_key(k) {
                                let i = choose|i: int| 0 <= i < got.len() && got[i].0@ == k;
                                assert(rows@[i].0@ == k);
                            } else if k == row.0@ {
                                assert(rows@[got.len() as int].0@ == k);
                            }
                        }
                        assert forall|i: int, j: int|
                            0 <= i < j < rows@.len() implies key_precedes(
                            #[trigger] rows@[i].0@,
                            #[trigger] rows@[j].0@,
                        ) by {
                            if j < got.len() {
                                assert(rows@[i] == got[i] && rows@[j] == got[j]);
                            } else {
                                assert(rows@[i] == got[i]);
                                assert(before.contains_key(row.0@));
                            }
                        }
                        assert forall|i: int, k: Seq<u8>|
                            0 <= i < rows@.len() && #[trigger] self@.contains_key(k) implies key_precedes(
                            #[trigger] rows@[i].0@,
                            k,
                        ) by {
                            assert(before.contains_key(k));
                            if i < got.len() {
                                assert(rows@[i] == got[i]);
                            }
                        }
                        assert(before.dom().contains(row.0@));
                    }
                },
                Some(Err(e)) => {
                    return Err(e);
                },
            }
        }
    }

    /// The next row, or a failure of the engine to fetch it; `None` once all
    /// rows have come out. Rows come out in ascending byte-wise order of their
    /// keys.
    pub fn next(&mut self) -> (r: Option<SystemResult<Row>>)
        ensures
            r is None ==> old(self)@.is_empty(),
            r matches Some(Ok(row)) ==> old(self)@.contains_key(row.0@) && old(self)@[row.0@]
                == row.1@ && final(self)@ == old(self)@.remove(row.0@) && forall|other: Seq<u8>|
                #[trigger] old(self)@.contains_key(other) && other != row.0@ ==> key_precedes(
                    row.0@,
                    other,
                ),
            r matches Some(Err(e)) ==> from_engine(e),
    {
        match scan_next(&mut self.scan) {
            Some(Ok(row)) => Some(Ok(row)),
            Some(Err(error)) => Some(Err(SledErrorMapper::map(error))),
            None => None,
        }
    }
}


/// The contract that every storage backend meets. Its state is a map from
/// namespace name to objects, and each operation takes the step of that map
/// that the matching `spec_*` function states, or reports a system failure.
/// Domain outcomes that need no engine call (a missing namespace or object)
/// are never system failures.
pub trait BackendStorage: Sized {
    type ErrorMapper: StorageErrorMapper;

    /// A lazy scan over the rows of one object.
    type Cursor<'a> where Self: 'a;

    /// The namespaces, their objects and the objects' rows.
    spec fn state(&self) -> StorageState;

    /// The backend's internal invariant.
    spec fn valid(&self) -> bool;

    /// The engine keeps this object name for itself: it cannot be created or
    /// dropped.
    spec fn reserved(obj: Seq<char>) -> bool;

    /// No half-finished drop has left rows behind that an object created
    /// anew would find.
    spec fn settled(&self) -> bool;

    /// The rows that a scan has yet to hand out.
    spec fn remaining<'a>(cursor: &Self::Cursor<'a>) -> ObjectRows;

    fn create_namespace(&mut self, namespace: &str) -> (r: SystemResult<
        Result<(), NamespaceAlreadyExists>,
    >)
        requires
            old(self).valid(),
        ensures
            final(self).valid(),
            r matches Ok(res) ==> (final(self).state(), res) == spec_create_namespace(
                old(self).state(),
                namespace@,
            ),
            r is Err ==> final(self).state() == old(self).state() && !old(self).state().contains_key(namespace@),
            old(self).settled() ==> final(self).settled(),
    ;

    fn drop_namespace(&mut self, namespace: &str) -> (r: SystemResult<
        Result<(), NamespaceDoesNotExist>,
    >)
        requires
            old(self).valid(),
        ensures
            final(self).valid(),
            r matches Ok(res) && (final(self).state(), res) == spec_drop_namespace(
                old(self).state(),
                namespace@,
            ),
            old(self).settled() ==> final(self).settled(),
    ;

    fn create_object(&mut self, namespace: &str, object_name: &str) -> (r: SystemResult<
        Result<(), CreateObjectError>,
    >)
        requires
            old(self).valid(),
        ensures
            final(self).valid(),
            r matches Ok(res) ==> res == spec_create_object(
                old(self).state(),
                namespace@,
                object_name@,
                Self::reserved(object_name@),
            ).1,
            old(self).settled() ==> (r matches Ok(res) ==> (final(self).state(), res) == spec_create_object(
                old(self).state(),
                namespace@,
                object_name@,
                Self::reserved(object_name@),
            )),
            r matches Ok(Err(_)) ==> final(self).state() == old(self).state(),
            r matches Ok(Ok(_)) ==> changed_at_most(old(self).state(), final(self).state(), namespace@, object_name@),
            r is Ok && old(self).settled() ==> final(self).settled(),
            r is Err ==> final(self).state() == old(self).state() && spec_create_object(
                old(self).state(),
                namespace@,
                object_name@,
                Self::reserved(object_name@),
            ).1 is Ok,
    ;

    fn drop_object(&mut self, namespace: &str, object_name: &str) -> (r: SystemResult<
        Result<(), DropObjectError>,
    >)
        requires
            old(self).valid(),
        ensures
            final(self).valid(),
            r matches Ok(res) ==> (final(self).state(), res) == spec_drop_object(
                old(self).state(),
                namespace@,
                object_name@,
            ),
            !old(self).state().contains_key(namespace@) ==> r is Ok,
            old(self).state().contains_key(namespace@) && !old(self).state()[namespace@].contains_key(
                object_name@,
            ) && !Self::reserved(object_name@) ==> r is Ok,
            old(self).state().contains_key(namespace@) && Self::reserved(object_name@) ==> r is Err && final(self).state() == old(self).state(),
            r is Err && !Self::reserved(object_name@) ==> final(self).state()
                == spec_drop_object(old(self).state(), namespace@, object_name@).0,
            r is Ok && old(self).settled() ==> final(self).settled(),
    ;

    /// Writes the rows in order, each replacing the row of its key if there
    /// is one; the count of rows written comes back. A failure of the engine
    /// stops the write, and rows already written stay.
    fn write(&mut self, namespace: &str, object_name: &str, rows: Vec<Row>) -> (r: SystemResult<
        Result<usize, OperationOnObjectError>,
    >)
        requires
            old(self).valid(),
        ensures
            final(self).valid(),
            r matches Ok(Ok(n)) ==> (final(self).state(), Ok::<int, OperationOnObjectError>(n as int))
                == spec_write(old(self).state(), namespace@, object_name@, rows_view(rows@)),
            r matches Ok(Err(e)) ==> (final(self).state(), Err::<int, OperationOnObjectError>(e))
                == spec_write(old(self).state(), namespace@, object_name@, rows_view(rows@)),
            spec_read(old(self).state(), namespace@, object_name@) is Err ==> r is Ok,
            rows@.len() == 0 ==> r is Ok,
            r is Err ==> spec_read(old(self).state(), namespace@, object_name@) is Ok && wrote_prefix(
                old(self).state(),
                final(self).state(),
                namespace@,
                object_name@,
                rows_view(rows@),
            ),
            old(self).settled() ==> final(self).settled(),
    ;

    /// Starts a scan of the rows of an object. Whether the namespace and the
    /// object are there is decided now; the rows are fetched one by one as
    /// the cursor is advanced.
    fn read<'a>(&'a self, namespace: &str, object_name: &str) -> (r: SystemResult<
        Result<Self::Cursor<'a>, OperationOnObjectError>,
    >)
        requires
            self.valid(),
        ensures
            r matches Ok(res) && match res {
                Ok(cursor) => spec_read(self.state(), namespace@, object_name@) == Ok::<
                    ObjectRows,
                    OperationOnObjectError,
                >(Self::remaining(&cursor)),
                Err(e) => spec_read(self.state(), namespace@, object_name@) == Err::<ObjectRows, _>(e),
            },
    ;

    /// Removes the rows of the keys in order; the count of rows that were
    /// there to remove comes back, so an absent key counts nothing. A failure
    /// of the engine stops the removal, and rows already removed stay so.
    fn delete(&mut self, namespace: &str, object_name: &str, keys: Vec<Key>) -> (r: SystemResult<
        Result<usize, OperationOnObjectError>,
    >)
        requires
            old(self).valid(),
        ensures
            final(self).valid(),
            r matches Ok(Ok(n)) ==> (final(self).state(), Ok::<int, OperationOnObjectError>(n as int))
                == spec_delete(old(self).state(), namespace@, object_name@, keys_view(keys@)),
            r matches Ok(Err(e)) ==> (final(self).state(), Err::<int, OperationOnObjectError>(e))
                == spec_delete(old(self).state(), namespace@, object_name@, keys_view(keys@)),
            spec_read(old(self).state(), namespace@, object_name@) is Err ==> r is Ok,
            keys@.len() == 0 ==> r is Ok,
            r is Err ==> spec_read(old(self).state(), namespace@, object_name@) is Ok && removed_prefix(
                old(self).state(),
                final(self).state(),
                namespace@,
                object_name@,
                keys_view(keys@),
            ),
            old(self).settled() ==> final(self).settled(),
    ;
}

impl BackendStorage for SledBackendStorage {
    type ErrorMapper = SledErrorMapper;

    type Cursor<'a> = ReadCursor<'a>;

    closed spec fn state(&self) -> StorageState {
        self@
    }

    closed spec fn valid(&self) -> bool {
        self.wf()
    }

    /// The engine's default keyspace.
    open spec fn reserved(obj: Seq<char>) -> bool {
        keyspace_name(obj) == default_keyspace()
    }

    closed spec fn settled(&self) -> bool {
        SledBackendStorage::settled(self)
    }

    closed spec fn remaining<'a>(cursor: &ReadCursor<'a>) -> ObjectRows {
        cursor@
    }

    fn create_namespace(&mut self, namespace: &str) -> (r: SystemResult<
        Result<(), NamespaceAlreadyExists>,
    >) {
        SledBackendStorage::create_namespace(self, namespace)
    }

    fn drop_namespace(&mut self, namespace: &str) -> (r: SystemResult<
        Result<(), NamespaceDoesNotExist>,
    >) {
        SledBackendStorage::drop_namespace(self, namespace)
    }

    fn create_object(&mut self, namespace: &str, object_name: &str) -> (r: SystemResult<
        Result<(), CreateObjectError>,
    >) {
        SledBackendStorage::create_object(self, namespace, object_name)
    }

    fn drop_object(&mut self, namespace: &str, object_name: &str) -> (r: SystemResult<
        Result<(), DropObjectError>,
    >) {
        SledBackendStorage::drop_object(self, namespace, object_name)
    }

    fn write(&mut self, namespace: &str, object_name: &str, rows: Vec<Row>) -> (r: SystemResult<
        Result<usize, OperationOnObjectError>,
    >) {
        SledBackendStorage::write(self, namespace, object_name, rows)
    }

    fn read<'a>(&'a self, namespace: &str, object_name: &str) -> (r: SystemResult<
        Result<ReadCursor<'a>, OperationOnObjectError>,
    >) {
        SledBackendStorage::read(self, namespace, object_name)
    }

    fn delete(&mut self, namespace: &str, object_name: &str, keys: Vec<Key>) -> (r: SystemResult<
        Result<usize, OperationOnObjectError>,
    >) {
        SledBackendStorage::delete(self, namespace, object_name, keys)
    }
}

} // verus!
