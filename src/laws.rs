//! Laws of the storage model that relate several operations.
use crate::backend::{
    spec_create_namespace, spec_create_object, spec_delete, spec_drop_namespace, spec_drop_object,
    spec_read, spec_write, removed_count, with_rows, without_keys, NamespaceObjects, ObjectRows,
    StorageState,
};
use crate::error::{
    CreateObjectError, NamespaceAlreadyExists, NamespaceDoesNotExist, OperationOnObjectError,
};
use vstd::prelude::*;

verus! {

/// Creating an absent namespace succeeds and creating it again is refused;
/// dropping it and creating it anew gives back the state right after the
/// first creation, with nothing left over.
pub proof fn law_create_namespace_twice(s: StorageState, ns: Seq<char>)
    requires
        !s.contains_key(ns),
    ensures
        spec_create_namespace(s, ns).1 == Ok::<(), NamespaceAlreadyExists>(()),
        spec_create_namespace(spec_create_namespace(s, ns).0, ns).1 == Err::<(), _>(
            NamespaceAlreadyExists,
        ),
        spec_drop_namespace(spec_create_namespace(s, ns).0, ns).1 == Ok::<(), NamespaceDoesNotExist>(
            (),
        ),
        spec_create_namespace(spec_drop_namespace(spec_create_namespace(s, ns).0, ns).0, ns)
            == spec_create_namespace(s, ns),
{
    let created = spec_create_namespace(s, ns).0;
    assert(created.remove(ns) =~= s);
}

/// After a namespace is dropped none of its objects can be reached, and a
/// namespace created under the same name starts with no objects.
pub proof fn law_drop_namespace_drops_objects(s: StorageState, ns: Seq<char>, obj: Seq<char>)
    requires
        s.contains_key(ns),
    ensures
        spec_read(spec_drop_namespace(s, ns).0, ns, obj) == Err::<ObjectRows, _>(
            OperationOnObjectError::NamespaceDoesNotExist,
        ),
        spec_create_namespace(spec_drop_namespace(s, ns).0, ns).0[ns] == NamespaceObjects::empty(),
        spec_read(spec_create_namespace(spec_drop_namespace(s, ns).0, ns).0, ns, obj) == Err::<
            ObjectRows,
            _,
        >(OperationOnObjectError::ObjectDoesNotExist),
{
}

/// On an object that was not created, writing, reading and deleting change
/// nothing and report the object missing, or the namespace where that is
/// missing too.
pub proof fn law_missing_object(
    s: StorageState,
    ns: Seq<char>,
    obj: Seq<char>,
    rows: Seq<(Seq<u8>, Seq<u8>)>,
    keys: Seq<Seq<u8>>,
)
    requires
        !(s.contains_key(ns) && s[ns].contains_key(obj)),
    ensures
        ({
            let e = if s.contains_key(ns) {
                OperationOnObjectError::ObjectDoesNotExist
            } else {
                OperationOnObjectError::NamespaceDoesNotExist
            };
            &&& spec_read(s, ns, obj) == Err::<ObjectRows, _>(e)
            &&& spec_write(s, ns, obj, rows) == (s, Err::<int, _>(e))
            &&& spec_delete(s, ns, obj, keys) == (s, Err::<int, _>(e))
        }),
{
}

/// What a write of rows leaves in an object: every key it held or was
/// written; a written key holds the value of its last row, any other key
/// keeps its value.
pub proof fn law_rows_written(before: ObjectRows, rows: Seq<(Seq<u8>, Seq<u8>)>)
    ensures
        forall|k: Seq<u8>| #[trigger]
            with_rows(before, rows).contains_key(k) <==> (before.contains_key(k) || exists|i: int|
                0 <= i < rows.len() && #[trigger] rows[i].0 == k),
        forall|i: int|
            0 <= i < rows.len() && (forall|l: int| i < l < rows.len() ==> rows[l].0 != rows[i].0)
                ==> with_rows(before, rows)[#[trigger] rows[i].0] == rows[i].1,
        forall|k: Seq<u8>|
            before.contains_key(k) && (forall|i: int| 0 <= i < rows.len() ==> rows[i].0 != k)
                ==> #[trigger] with_rows(before, rows)[k] == before[k],
    decreases rows.len(),
{
    if rows.len() > 0 {
        let prefix = rows.drop_last();
        let n = rows.len() - 1;
        law_rows_written(before, prefix);
        let last = rows[n];
        let m = with_rows(before, prefix);
        assert(with_rows(before, rows) == m.insert(last.0, last.1));
        assert forall|k: Seq<u8>| #[trigger]
            with_rows(before, rows).contains_key(k) <==> (before.contains_key(k) || exists|i: int|
                0 <= i < rows.len() && #[trigger] rows[i].0 == k) by {
            if exists|i: int| 0 <= i < rows.len() && #[trigger] rows[i].0 == k {
                let i = choose|i: int| 0 <= i < rows.len() && #[trigger] rows[i].0 == k;
                if i < n {
                    assert(prefix[i].0 == k);
                }
            }
            if m.contains_key(k) && !before.contains_key(k) {
                let i = choose|i: int| 0 <= i < prefix.len() && #[trigger] prefix[i].0 == k;
                assert(rows[i].0 == k);
            }
            if !m.contains_key(k) && k != last.0 {
                assert forall|i: int| 0 <= i < rows.len() implies #[trigger] rows[i].0 != k by {
                    if i < n {
                        assert(prefix[i] == rows[i]);
                    }
                }
            }
        }
        assert forall|i: int|
            0 <= i < rows.len() && (forall|l: int| i < l < rows.len() ==> rows[l].0 != rows[i].0)
                implies with_rows(before, rows)[#[trigger] rows[i].0] == rows[i].1 by {
            if i < n {
                assert(rows[n].0 != rows[i].0);
                assert(prefix[i] == rows[i]);
                assert forall|l: int| i < l < prefix.len() implies prefix[l].0 != prefix[i].0 by {
                    assert(prefix[l] == rows[l]);
                }
            }
        }
        assert forall|k: Seq<u8>|
            before.contains_key(k) && (forall|i: int| 0 <= i < rows.len() ==> rows[i].0 != k)
                implies #[trigger] with_rows(before, rows)[k] == before[k] by {
            assert(rows[n].0 != k);
            assert forall|i: int| 0 <= i < prefix.len() implies prefix[i].0 != k by {
                assert(prefix[i] == rows[i]);
            }
        }
    }
}

/// Reading an object right after a write gives the object's earlier rows
/// with the written rows applied in order.
pub proof fn law_write_then_read(
    s: StorageState,
    ns: Seq<char>,
    obj: Seq<char>,
    rows: Seq<(Seq<u8>, Seq<u8>)>,
)
    requires
        s.contains_key(ns),
        s[ns].contains_key(obj),
    ensures
        spec_write(s, ns, obj, rows).1 == Ok::<int, OperationOnObjectError>(rows.len() as int),
        spec_read(spec_write(s, ns, obj, rows).0, ns, obj) == Ok::<ObjectRows, OperationOnObjectError>(
            with_rows(s[ns][obj], rows),
        ),
{
}

/// Writing rows to an empty object and reading it back gives exactly the
/// written keys, each with the value of its last row.
pub proof fn law_written_rows_read_back(
    s: StorageState,
    ns: Seq<char>,
    obj: Seq<char>,
    rows: Seq<(Seq<u8>, Seq<u8>)>,
)
    requires
        s.contains_key(ns),
        s[ns].contains_key(obj),
        s[ns][obj] == ObjectRows::empty(),
    ensures
        spec_read(spec_write(s, ns, obj, rows).0, ns, obj) matches Ok(read) && (forall|k: Seq<u8>|
            #[trigger] read.contains_key(k) <==> exists|i: int|
                0 <= i < rows.len() && #[trigger] rows[i].0 == k) && (forall|i: int|
            0 <= i < rows.len() && (forall|l: int| i < l < rows.len() ==> rows[l].0 != rows[i].0)
                ==> read[#[trigger] rows[i].0] == rows[i].1),
{
    law_write_then_read(s, ns, obj, rows);
    law_rows_written(ObjectRows::empty(), rows);
}

/// Rows with distinct keys leave the same object whatever order they are
/// written in.
pub proof fn law_write_order_irrelevant(
    before: ObjectRows,
    rows: Seq<(Seq<u8>, Seq<u8>)>,
    reordered: Seq<(Seq<u8>, Seq<u8>)>,
)
    requires
        forall|i: int, j: int|
            0 <= i < rows.len() && 0 <= j < rows.len() && rows[i].0 == rows[j].0 ==> i == j,
        forall|i: int, j: int|
            0 <= i < reordered.len() && 0 <= j < reordered.len() && reordered[i].0
                == reordered[j].0 ==> i == j,
        rows.to_set() == reordered.to_set(),
    ensures
        with_rows(before, rows) == with_rows(before, reordered),
{
    law_rows_written(before, rows);
    law_rows_written(before, reordered);
    let a = with_rows(before, rows);
    let b = with_rows(before, reordered);
    assert forall|i: int| 0 <= i < rows.len() implies exists|j: int|
        0 <= j < reordered.len() && reordered[j] == #[trigger] rows[i] by {
        assert(rows.to_set().contains(rows[i]));
    }
    assert forall|j: int| 0 <= j < reordered.len() implies exists|i: int|
        0 <= i < rows.len() && rows[i] == #[trigger] reordered[j] by {
        assert(reordered.to_set().contains(reordered[j]));
    }
    assert forall|k: Seq<u8>| #[trigger] a.contains_key(k) == b.contains_key(k) by {
        if exists|i: int| 0 <= i < rows.len() && #[trigger] rows[i].0 == k {
            let i = choose|i: int| 0 <= i < rows.len() && #[trigger] rows[i].0 == k;
            let j = choose|j: int| 0 <= j < reordered.len() && reordered[j] == #[trigger] rows[i];
            assert(reordered[j].0 == k);
        }
        if exists|j: int| 0 <= j < reordered.len() && #[trigger] reordered[j].0 == k {
            let j = choose|j: int| 0 <= j < reordered.len() && #[trigger] reordered[j].0 == k;
            let i = choose|i: int| 0 <= i < rows.len() && rows[i] == #[trigger] reordered[j];
            assert(rows[i].0 == k);
        }
    }
    assert forall|k: Seq<u8>| #[trigger] a.contains_key(k) implies a[k] == b[k] by {
        if exists|i: int| 0 <= i < rows.len() && #[trigger] rows[i].0 == k {
            let i = choose|i: int| 0 <= i < rows.len() && #[trigger] rows[i].0 == k;
            let j = choose|j: int| 0 <= j < reordered.len() && reordered[j] == #[trigger] rows[i];
            assert(a[rows[i].0] == rows[i].1);
            assert(b[reordered[j].0] == reordered[j].1);
        } else {
            assert forall|j: int| 0 <= j < reordered.len() implies reordered[j].0 != k by {
                let i = choose|i: int| 0 <= i < rows.len() && rows[i] == #[trigger] reordered[j];
                assert(rows[i].0 != k);
            }
        }
    }
    assert(a =~= b);
}

/// What a removal of keys leaves in an object: exactly the rows whose key
/// is not among them, with their values.
pub proof fn law_keys_removed(before: ObjectRows, keys: Seq<Seq<u8>>)
    ensures
        forall|k: Seq<u8>| #[trigger]
            without_keys(before, keys).contains_key(k) <==> (before.contains_key(k)
                && !keys.contains(k)),
        forall|k: Seq<u8>| #[trigger]
            without_keys(before, keys).contains_key(k) ==> without_keys(before, keys)[k]
                == before[k],
    decreases keys.len(),
{
    if keys.len() > 0 {
        let prefix = keys.drop_last();
        let n = keys.len() - 1;
        law_keys_removed(before, prefix);
        let m = without_keys(before, prefix);
        assert(without_keys(before, keys) == m.remove(keys[n]));
        assert forall|k: Seq<u8>| #[trigger]
            without_keys(before, keys).contains_key(k) <==> (before.contains_key(k)
                && !keys.contains(k)) by {
            if keys.contains(k) && k != keys[n] {
                let i = choose|i: int| 0 <= i < keys.len() && keys[i] == k;
                assert(prefix[i] == k);
            }
            if prefix.contains(k) {
                let i = choose|i: int| 0 <= i < prefix.len() && prefix[i] == k;
                assert(keys[i] == k);
            }
            if !prefix.contains(k) && k != keys[n] {
                assert forall|i: int| 0 <= i < keys.len() implies keys[i] != k by {
                    if i < n {
                        assert(prefix[i] == keys[i]);
                    }
                }
            }
        }
    }
}

/// Removing keys none of which has a row changes nothing and counts nothing.
pub proof fn law_remove_absent_keys(before: ObjectRows, keys: Seq<Seq<u8>>)
    requires
        forall|i: int| 0 <= i < keys.len() ==> !before.contains_key(#[trigger] keys[i]),
    ensures
        without_keys(before, keys) == before,
        removed_count(before, keys) == 0,
    decreases keys.len(),
{
    if keys.len() > 0 {
        let prefix = keys.drop_last();
        assert forall|i: int| 0 <= i < prefix.len() implies !before.contains_key(
            #[trigger] prefix[i],
        ) by {
            assert(prefix[i] == keys[i]);
        }
        law_remove_absent_keys(before, prefix);
        assert(!before.contains_key(keys[keys.len() - 1]));
        assert(before.remove(keys.last()) =~= before);
    }
}

/// Reading an object right after a removal of keys gives its rows without
/// those keys.
pub proof fn law_delete_then_read(s: StorageState, ns: Seq<char>, obj: Seq<char>, keys: Seq<Seq<u8>>)
    requires
        s.contains_key(ns),
        s[ns].contains_key(obj),
    ensures
        spec_read(spec_delete(s, ns, obj, keys).0, ns, obj) == Ok::<
            ObjectRows,
            OperationOnObjectError,
        >(without_keys(s[ns][obj], keys)),
{
}

/// The same object name can be created in two namespaces, each creation on
/// its own.
pub proof fn law_same_object_in_two_namespaces(
    s: StorageState,
    ns1: Seq<char>,
    ns2: Seq<char>,
    obj: Seq<char>,
    reserved: bool,
)
    requires
        ns1 != ns2,
        s.contains_key(ns1),
        s.contains_key(ns2),
        !s[ns1].contains_key(obj),
        !s[ns2].contains_key(obj),
        !reserved,
    ensures
        spec_create_object(s, ns1, obj, reserved).1 == Ok::<(), CreateObjectError>(()),
        spec_create_object(spec_create_object(s, ns1, obj, reserved).0, ns2, obj, reserved).1 == Ok::<
            (),
            CreateObjectError,
        >(()),
{
}

/// An operation inside one namespace leaves every other namespace as it was.
pub proof fn law_namespaces_independent(
    s: StorageState,
    ns: Seq<char>,
    other: Seq<char>,
    obj: Seq<char>,
    reserved: bool,
    rows: Seq<(Seq<u8>, Seq<u8>)>,
    keys: Seq<Seq<u8>>,
)
    requires
        ns != other,
    ensures
        spec_create_object(s, ns, obj, reserved).0.contains_key(other) == s.contains_key(other),
        spec_drop_object(s, ns, obj).0.contains_key(other) == s.contains_key(other),
        spec_write(s, ns, obj, rows).0.contains_key(other) == s.contains_key(other),
        spec_delete(s, ns, obj, keys).0.contains_key(other) == s.contains_key(other),
        s.contains_key(other) ==> {
            &&& spec_create_object(s, ns, obj, reserved).0[other] == s[other]
            &&& spec_drop_object(s, ns, obj).0[other] == s[other]
            &&& spec_write(s, ns, obj, rows).0[other] == s[other]
            &&& spec_delete(s, ns, obj, keys).0[other] == s[other]
        },
{
}

} // verus!
