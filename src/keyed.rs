//! A sequence of named entries seen as a map from name to the entry's view.
use vstd::prelude::*;

verus! {

/// An entry that is found by its name.
pub trait Named {
    spec fn entry_name(&self) -> Seq<char>;
}

/// No two entries share a name.
pub open spec fn unique_names<T: Named>(s: Seq<T>) -> bool {
    forall|i: int, j: int|
        0 <= i < s.len() && 0 <= j < s.len() && #[trigger] s[i].entry_name()
            == #[trigger] s[j].entry_name() ==> i == j
}

/// Some entry has the name.
pub open spec fn has_name<T: Named>(s: Seq<T>, name: Seq<char>) -> bool {
    exists|i: int| 0 <= i < s.len() && #[trigger] s[i].entry_name() == name
}

/// Each name of an entry, mapped to that entry's view.
pub open spec fn keyed_map<T: Named + View>(s: Seq<T>) -> Map<Seq<char>, T::V> {
    Map::new(
        |name: Seq<char>| has_name(s, name),
        |name: Seq<char>| s[choose|i: int| 0 <= i < s.len() && #[trigger] s[i].entry_name() == name]@,
    )
}

pub proof fn lemma_keyed_index<T: Named + View>(s: Seq<T>, i: int)
    requires
        unique_names(s),
        0 <= i < s.len(),
    ensures
        keyed_map(s).contains_key(s[i].entry_name()),
        keyed_map(s)[s[i].entry_name()] == s[i]@,
{
    let name = s[i].entry_name();
    assert(has_name(s, name));
    let j = choose|j: int| 0 <= j < s.len() && #[trigger] s[j].entry_name() == name;
    assert(j == i);
}

pub proof fn lemma_keyed_push<T: Named + View>(s: Seq<T>, x: T)
    requires
        unique_names(s),
        !has_name(s, x.entry_name()),
    ensures
        unique_names(s.push(x)),
        keyed_map(s.push(x)) == keyed_map(s).insert(x.entry_name(), x@),
{
    let t = s.push(x);
    assert forall|i: int, j: int|
        0 <= i < t.len() && 0 <= j < t.len() && #[trigger] t[i].entry_name()
            == #[trigger] t[j].entry_name() implies i == j by {
        if i < s.len() && j == s.len() {
            assert(s[i].entry_name() == x.entry_name());
        }
        if j < s.len() && i == s.len() {
            assert(s[j].entry_name() == x.entry_name());
        }
    }
    assert forall|name: Seq<char>| #[trigger] keyed_map(t).contains_key(name)
        == keyed_map(s).insert(x.entry_name(), x@).contains_key(name) by {
        if has_name(s, name) {
            let i = choose|i: int| 0 <= i < s.len() && #[trigger] s[i].entry_name() == name;
            assert(t[i].entry_name() == name);
        }
        if has_name(t, name) && name != x.entry_name() {
            let i = choose|i: int| 0 <= i < t.len() && #[trigger] t[i].entry_name() == name;
            assert(s[i].entry_name() == name);
        }
        if name == x.entry_name() {
            assert(t[s.len() as int].entry_name() == name);
        }
    }
    assert forall|name: Seq<char>| #[trigger] keyed_map(t).contains_key(name) implies keyed_map(
        t,
    )[name] == keyed_map(s).insert(x.entry_name(), x@)[name] by {
        let i = choose|i: int| 0 <= i < t.len() && #[trigger] t[i].entry_name() == name;
        lemma_keyed_index(t, i);
        if i < s.len() {
            assert(s[i] == t[i]);
            lemma_keyed_index(s, i);
        }
    }
    assert(keyed_map(t) =~= keyed_map(s).insert(x.entry_name(), x@));
}

pub proof fn lemma_keyed_update<T: Named + View>(s: Seq<T>, i: int, x: T)
    requires
        unique_names(s),
        0 <= i < s.len(),
        x.entry_name() == s[i].entry_name(),
    ensures
        unique_names(s.update(i, x)),
        keyed_map(s.update(i, x)) == keyed_map(s).insert(x.entry_name(), x@),
{
    let t = s.update(i, x);
    assert forall|a: int, b: int|
        0 <= a < t.len() && 0 <= b < t.len() && #[trigger] t[a].entry_name()
            == #[trigger] t[b].entry_name() implies a == b by {
        assert(t[a].entry_name() == s[a].entry_name());
        assert(t[b].entry_name() == s[b].entry_name());
    }
    assert forall|name: Seq<char>| #[trigger] keyed_map(t).contains_key(name)
        == keyed_map(s).insert(x.entry_name(), x@).contains_key(name) by {
        if has_name(s, name) {
            let j = choose|j: int| 0 <= j < s.len() && #[trigger] s[j].entry_name() == name;
            assert(t[j].entry_name() == name);
        }
        if has_name(t, name) {
            let j = choose|j: int| 0 <= j < t.len() && #[trigger] t[j].entry_name() == name;
            assert(s[j].entry_name() == name);
        }
    }
    assert forall|name: Seq<char>| #[trigger] keyed_map(t).contains_key(name) implies keyed_map(
        t,
    )[name] == keyed_map(s).insert(x.entry_name(), x@)[name] by {
        let j = choose|j: int| 0 <= j < t.len() && #[trigger] t[j].entry_name() == name;
        lemma_keyed_index(t, j);
        if j != i {
            lemma_keyed_index(s, j);
        }
    }
    assert(keyed_map(t) =~= keyed_map(s).insert(x.entry_name(), x@));
}

pub proof fn lemma_keyed_remove<T: Named + View>(s: Seq<T>, i: int)
    requires
        unique_names(s),
        0 <= i < s.len(),
    ensures
        unique_names(s.remove(i)),
        keyed_map(s.remove(i)) == keyed_map(s).remove(s[i].entry_name()),
{
    let t = s.remove(i);
    let gone = s[i].entry_name();
    assert forall|a: int| 0 <= a < t.len() implies #[trigger] t[a] == s[if a < i {
        a
    } else {
        a + 1
    }] by {}
    assert forall|a: int, b: int|
        0 <= a < t.len() && 0 <= b < t.len() && #[trigger] t[a].entry_name()
            == #[trigger] t[b].entry_name() implies a == b by {
        let a2 = if a < i { a } else { a + 1 };
        let b2 = if b < i { b } else { b + 1 };
        assert(t[a] == s[a2]);
        assert(t[b] == s[b2]);
    }
    assert forall|name: Seq<char>| #[trigger] keyed_map(t).contains_key(name)
        == keyed_map(s).remove(gone).contains_key(name) by {
        if has_name(s, name) && name != gone {
            let j = choose|j: int| 0 <= j < s.len() && #[trigger] s[j].entry_name() == name;
            let j2 = if j < i { j } else { j - 1 };
            assert(t[j2] == s[j]);
        }
        if has_name(t, name) {
            let j = choose|j: int| 0 <= j < t.len() && #[trigger] t[j].entry_name() == name;
            let j2 = if j < i { j } else { j + 1 };
            assert(t[j] == s[j2]);
        }
    }
    assert forall|name: Seq<char>| #[trigger] keyed_map(t).contains_key(name) implies keyed_map(
        t,
    )[name] == keyed_map(s).remove(gone)[name] by {
        let j = choose|j: int| 0 <= j < t.len() && #[trigger] t[j].entry_name() == name;
        let j2 = if j < i { j } else { j + 1 };
        assert(t[j] == s[j2]);
        lemma_keyed_index(t, j);
        lemma_keyed_index(s, j2);
    }
    assert(keyed_map(t) =~= keyed_map(s).remove(gone));
}

} // verus!
