//! The embedded key-value engine (sled) as the library sees it.
//!
//! A database holds a set of named keyspaces ("trees"); a tree holds rows.
//! The engine's values are opaque here: what the logic needs of them is named
//! by the spec functions below, and each call into the engine is a small
//! trusted function whose contract states what sled's source shows.
use vstd::prelude::*;
use vstd::utf8::encode_utf8;

verus! {

#[verifier::external_type_specification]
#[verifier::external_body]
pub struct ExDb(sled::Db);

#[verifier::external_type_specification]
#[verifier::external_body]
pub struct ExTree(sled::Tree);

#[verifier::external_type_specification]
#[verifier::external_body]
pub struct ExIter(sled::Iter);

#[verifier::external_type_specification]
#[verifier::external_body]
pub struct ExIVec(sled::IVec);

#[verifier::external_type_specification]
#[verifier::external_body]
pub struct ExSledError(sled::Error);

#[verifier::external_type_specification]
#[verifier::external_body]
pub struct ExBacktrace(backtrace::Backtrace);

#[verifier::external_type_specification]
#[verifier::external_body]
pub struct ExIoError(std::io::Error);

/// The names of the keyspaces that a database has registered as open.
pub uninterp spec fn keyspace_names(db: sled::Db) -> Set<Seq<u8>>;

/// The names under which the database's meta table holds a keyspace root.
/// Reopening a name found here brings back the rows under that root.
pub uninterp spec fn keyspace_roots(db: sled::Db) -> Set<Seq<u8>>;

/// The engine failure, as plain values, that a sled error converts to.
pub uninterp spec fn engine_error_of(error: sled::Error) -> EngineError;

/// The rows that a keyspace holds.
pub uninterp spec fn keyspace_rows(tree: sled::Tree) -> Map<Seq<u8>, Seq<u8>>;

/// The rows that a full scan has yet to hand out.
pub uninterp spec fn scan_remaining(iter: sled::Iter) -> Map<Seq<u8>, Seq<u8>>;

/// The name of the keyspace that every sled database has from the start and
/// that cannot be dropped: `__sled__default`.
pub open spec fn default_keyspace() -> Seq<u8> {
    seq![95u8, 95, 115, 108, 101, 100, 95, 95, 100, 101, 102, 97, 117, 108, 116]
}

/// The keyspace name under which an object name is stored: its UTF-8 bytes.
pub open spec fn keyspace_name(name: Seq<char>) -> Seq<u8> {
    encode_utf8(name)
}

/// `a` comes before `b` in byte-wise lexicographic order, the order in which
/// sled keeps keys.
pub open spec fn key_precedes(a: Seq<u8>, b: Seq<u8>) -> bool
    decreases a.len(),
{
    if a.len() == 0 {
        b.len() > 0
    } else if b.len() == 0 {
        false
    } else if a[0] != b[0] {
        a[0] < b[0]
    } else {
        key_precedes(a.drop_first(), b.drop_first())
    }
}

/// An engine failure, as plain values.
pub enum EngineError {
    /// A collection that the engine needs could not be found; holds its name.
    CollectionNotFound(Vec<u8>),
    /// The engine was used in a way it does not support.
    Unsupported(String),
    /// Stored data was found corrupted; holds the location, where known,
    /// and the trace of where it was detected.
    Corruption { at: Option<String>, trace: backtrace::Backtrace },
    /// The engine reports a defect of its own.
    ReportableBug(String),
    /// An I/O operation failed.
    Io(std::io::Error),
}

/// Relies on the variants of `sled::Error`: each becomes the variant of the
/// same name, with its fields moved over and a disk location written out with
/// its `Display`.
#[verifier::external_body]
pub(crate) fn engine_error(error: sled::Error) -> (r: EngineError)
    ensures
        r == engine_error_of(error),
{
    match error {
        sled::Error::CollectionNotFound(name) => EngineError::CollectionNotFound(name.to_vec()),
        sled::Error::Unsupported(operation) => EngineError::Unsupported(operation),
        sled::Error::Corruption { at: Some(at), bt } => EngineError::Corruption {
            at: Some(format!("{}", at)),
            trace: bt,
        },
        sled::Error::Corruption { at: None, bt } => EngineError::Corruption { at: None, trace: bt },
        sled::Error::ReportableBug(description) => EngineError::ReportableBug(description),
        sled::Error::Io(error) => EngineError::Io(error),
    }
}

/// Relies on `sled::Config::default().temporary(true).open()`: a fresh
/// database, removed when dropped, whose only keyspace is the default one.
#[verifier::external_body]
pub(crate) fn open_temporary_database() -> (r: Result<sled::Db, sled::Error>)
    ensures
        r matches Ok(db) ==> keyspace_names(db) == set![default_keyspace()] && keyspace_roots(db)
            == set![default_keyspace()],
{
    sled::Config::default().temporary(true).open()
}

/// Relies on `sled::Db::tree_names`: the names of all keyspaces of the
/// database, each once.
#[verifier::external_body]
pub(crate) fn tree_names(db: &sled::Db) -> (r: Vec<Vec<u8>>)
    ensures
        forall|i: int| 0 <= i < r@.len() ==> keyspace_names(*db).contains(#[trigger] r@[i]@),
        forall|n: Seq<u8>|
            keyspace_names(*db).contains(n) ==> exists|i: int| 0 <= i < r@.len() && r@[i]@ == n,
{
    db.tree_names().into_iter().map(|name| name.to_vec()).collect()
}

/// Relies on `sled::Db::open_tree` and sled's `meta::open_tree`: on success
/// the keyspace is registered and has a root in the meta table; a name without
/// a root there gets a fresh, empty one. On failure nothing is registered,
/// though a fresh root may already have been installed. Only a name that is
/// not registered is opened, so the handle returned is the one handle to its
/// keyspace that the library holds.
#[verifier::external_body]
pub(crate) fn open_tree(db: &mut sled::Db, name: &str) -> (r: Result<sled::Tree, sled::Error>)
    requires
        !keyspace_names(*old(db)).contains(keyspace_name(name@)),
    ensures
        r is Ok ==> keyspace_names(*final(db)) == keyspace_names(*old(db)).insert(
            keyspace_name(name@),
        ) && keyspace_roots(*final(db)) == keyspace_roots(*old(db)).insert(keyspace_name(name@)),
        r matches Ok(tree) ==> (!keyspace_roots(*old(db)).contains(keyspace_name(name@))
            ==> keyspace_rows(tree) == Map::<Seq<u8>, Seq<u8>>::empty()),
        r is Err ==> keyspace_names(*final(db)) == keyspace_names(*old(db)) && (keyspace_roots(
            *final(db),
        ) == keyspace_roots(*old(db)) || keyspace_roots(*final(db)) == keyspace_roots(
            *old(db),
        ).insert(keyspace_name(name@))),
{
    db.open_tree(name)
}

/// Relies on `sled::Db::drop_tree`: the default keyspace cannot be dropped
/// and nothing changes; a name that is not registered gives `Ok(false)` and
/// nothing changes. Otherwise the name is unregistered first; on success its
/// root leaves the meta table too, and a failure after that may or may not have
/// removed the root.
#[verifier::external_body]
pub(crate) fn drop_tree(db: &mut sled::Db, name: &str) -> (r: Result<bool, sled::Error>)
    ensures
        keyspace_name(name@) == default_keyspace() ==> (r is Err && *final(db) == *old(db)),
        keyspace_name(name@) != default_keyspace() ==> (r matches Ok(existed) ==> existed
            == keyspace_names(*old(db)).contains(keyspace_name(name@))),
        keyspace_name(name@) != default_keyspace() && !keyspace_names(*old(db)).contains(
            keyspace_name(name@),
        ) ==> (r is Ok && keyspace_names(*final(db)) == keyspace_names(*old(db)) && keyspace_roots(
            *final(db),
        ) == keyspace_roots(*old(db))),
        keyspace_name(name@) != default_keyspace() && keyspace_names(*old(db)).contains(
            keyspace_name(name@),
        ) ==> keyspace_names(*final(db)) == keyspace_names(*old(db)).remove(keyspace_name(name@)),
        r is Ok && keyspace_names(*old(db)).contains(keyspace_name(name@)) ==> keyspace_roots(
            *final(db),
        ) == keyspace_roots(*old(db)).remove(keyspace_name(name@)),
        r is Err ==> (keyspace_roots(*final(db)) == keyspace_roots(*old(db)) || keyspace_roots(
            *final(db),
        ) == keyspace_roots(*old(db)).remove(keyspace_name(name@))),
{
    db.drop_tree(name)
}

/// Relies on `sled::Tree::insert`: on success the key holds the value; the
/// change is one atomic link, so a failure leaves it either made or not.
#[verifier::external_body]
pub(crate) fn tree_insert(tree: &mut sled::Tree, key: Vec<u8>, value: Vec<u8>) -> (r: Result<
    (),
    sled::Error,
>)
    ensures
        r is Ok ==> keyspace_rows(*final(tree)) == keyspace_rows(*old(tree)).insert(key@, value@),
        r is Err ==> (keyspace_rows(*final(tree)) == keyspace_rows(*old(tree)) || keyspace_rows(
            *final(tree),
        ) == keyspace_rows(*old(tree)).insert(key@, value@)),
{
    match tree.insert(key, value) {
        Ok(_) => Ok(()),
        Err(error) => Err(error),
    }
}

/// Relies on `sled::Tree::remove`: on success the key is gone, and the result
/// is the value it held, if any. The removal is one atomic link, so a failure
/// leaves it either made or not.
#[verifier::external_body]
pub(crate) fn tree_remove(tree: &mut sled::Tree, key: &[u8]) -> (r: Result<Option<Vec<u8>>, sled::Error>)
    ensures
        r is Ok ==> keyspace_rows(*final(tree)) == keyspace_rows(*old(tree)).remove(key@),
        r matches Ok(Some(v)) ==> keyspace_rows(*old(tree)).contains_key(key@)
            && keyspace_rows(*old(tree))[key@] == v@,
        r matches Ok(None) ==> !keyspace_rows(*old(tree)).contains_key(key@),
        r is Err ==> (keyspace_rows(*final(tree)) == keyspace_rows(*old(tree)) || keyspace_rows(
            *final(tree),
        ) == keyspace_rows(*old(tree)).remove(key@)),
{
    match tree.remove(key) {
        Ok(Some(value)) => Ok(Some(value.to_vec())),
        Ok(None) => Ok(None),
        Err(error) => Err(error),
    }
}

/// A full scan of one keyspace, made only by `tree_iter`. It borrows the
/// keyspace's handle, so nothing can change the keyspace through the library
/// while the scan runs.
pub(crate) struct Scan<'a> {
    pub(crate) tree: &'a sled::Tree,
    pub(crate) iter: sled::Iter,
}

impl<'a> Scan<'a> {
    /// The rows that the scan has yet to hand out.
    pub(crate) open spec fn remaining(&self) -> Map<Seq<u8>, Seq<u8>> {
        scan_remaining(self.iter)
    }
}

/// Relies on `sled::Tree::iter`: a full scan that hands out each row of the
/// keyspace as it is now, of which there are finitely many. sled's scan reads the keyspace as it goes; the
/// borrow keeps it unchanged meanwhile.
#[verifier::external_body]
pub(crate) fn tree_iter<'a>(tree: &'a sled::Tree) -> (r: Scan<'a>)
    ensures
        scan_remaining(r.iter) == keyspace_rows(*tree),
        scan_remaining(r.iter).dom().finite(),
{
    Scan { tree, iter: tree.iter() }
}

/// Relies on `<sled::Iter as Iterator>::next`: rows come out once each, in
/// ascending byte-wise order of their keys, and the scan ends when none is
/// left.
#[verifier::external_body]
pub(crate) fn scan_next<'a>(scan: &mut Scan<'a>) -> (r: Option<
    Result<(Vec<u8>, Vec<u8>), sled::Error>,
>)
    ensures
        r is None ==> scan_remaining(old(scan).iter).is_empty(),
        r matches Some(Ok((k, v))) ==> scan_remaining(old(scan).iter).contains_key(k@)
            && scan_remaining(old(scan).iter)[k@] == v@ && scan_remaining(final(scan).iter) == scan_remaining(old(scan).iter).remove(k@) && forall|other: Seq<u8>|
            #[trigger] scan_remaining(old(scan).iter).contains_key(other) && other != k@ ==> key_precedes(
                k@,
                other,
            ),
{
    match scan.iter.next() {
        Some(Ok((key, value))) => Some(Ok((key.to_vec(), value.to_vec()))),
        Some(Err(error)) => Some(Err(error)),
        None => None,
    }
}

} // verus!
