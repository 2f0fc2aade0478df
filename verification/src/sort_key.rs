//! Sort keys and the order in which they rank.

use vstd::prelude::*;

verus! {

/// The rank of an entry under one field.
#[derive(Debug, PartialEq, Eq)]
pub enum SortKey {
    /// The field has no defined order for the entry. All absent keys rank
    /// equal to one another and before every value.
    Absent,
    /// The entry ranks by these bytes, compared lexicographically.
    Value(Vec<u8>),
}

impl View for SortKey {
    type V = Option<Seq<u8>>;

    open spec fn view(&self) -> Option<Seq<u8>> {
        match self {
            SortKey::Absent => None,
            SortKey::Value(bytes) => Some(bytes@),
        }
    }
}

impl Clone for SortKey {
    fn clone(&self) -> (copy: Self)
        ensures
            copy@ == self@,
    {
        match self {
            SortKey::Absent => SortKey::Absent,
            SortKey::Value(bytes) => {
                let copy = bytes.clone();
                assert(copy@ =~= bytes@);
                SortKey::Value(copy)
            },
        }
    }
}

/// `a` and `b` agree on their first `i` bytes, and there `a` ends while `b`
/// goes on, or `a` holds the smaller byte.
pub open spec fn parts_at(a: Seq<u8>, b: Seq<u8>, i: int) -> bool {
    &&& 0 <= i <= a.len()
    &&& i < b.len()
    &&& forall|j: int| 0 <= j < i ==> a[j] == b[j]
    &&& (i == a.len() || a[i] < b[i])
}

/// Lexicographic order on byte strings: `a` comes strictly before `b`.
pub open spec fn bytes_before(a: Seq<u8>, b: Seq<u8>) -> bool {
    exists|i: int| parts_at(a, b, i)
}

/// Ascending order on keys: an absent key comes before every value, values
/// go by their bytes, and no key comes before itself.
pub open spec fn key_before(a: Option<Seq<u8>>, b: Option<Seq<u8>>) -> bool {
    match (a, b) {
        (None, Some(_)) => true,
        (Some(x), Some(y)) => bytes_before(x, y),
        _ => false,
    }
}

/// No byte string comes before itself, and no two come before each other.
pub proof fn lemma_bytes_before_asymmetric(a: Seq<u8>, b: Seq<u8>)
    ensures
        !(bytes_before(a, b) && bytes_before(b, a)),
{
    if bytes_before(a, b) && bytes_before(b, a) {
        let i = choose|i: int| parts_at(a, b, i);
        let j = choose|j: int| parts_at(b, a, j);
        if i < j {
            assert(b[i] == a[i]);
        } else if j < i {
            assert(a[j] == b[j]);
        }
    }
}

/// The order on byte strings is transitive.
pub proof fn lemma_bytes_before_transitive(a: Seq<u8>, b: Seq<u8>, c: Seq<u8>)
    requires
        bytes_before(a, b),
        bytes_before(b, c),
    ensures
        bytes_before(a, c),
{
    let i = choose|i: int| parts_at(a, b, i);
    let j = choose|j: int| parts_at(b, c, j);
    let k = if i <= j { i } else { j };
    assert forall|m: int| 0 <= m < k implies a[m] == c[m] by {
        assert(a[m] == b[m]);
        assert(b[m] == c[m]);
    }
    if i < j {
        assert(b[i] == c[i]);
    } else if j < i {
        assert(a[j] == b[j]);
    }
    assert(parts_at(a, c, k));
}

proof fn lemma_bytes_differ_from(a: Seq<u8>, b: Seq<u8>, i: int)
    requires
        a != b,
        0 <= i <= a.len(),
        i <= b.len(),
        forall|j: int| 0 <= j < i ==> a[j] == b[j],
    ensures
        bytes_before(a, b) || bytes_before(b, a),
    decreases a.len() - i,
{
    if i == a.len() && i == b.len() {
        assert(a =~= b);
    } else if i == a.len() {
        assert(parts_at(a, b, i));
    } else if i == b.len() {
        assert(parts_at(b, a, i));
    } else if a[i] < b[i] {
        assert(parts_at(a, b, i));
    } else if b[i] < a[i] {
        assert(parts_at(b, a, i));
    } else {
        lemma_bytes_differ_from(a, b, i + 1);
    }
}

/// Of two different byte strings one comes before the other.
pub proof fn lemma_bytes_before_total(a: Seq<u8>, b: Seq<u8>)
    requires
        a != b,
    ensures
        bytes_before(a, b) || bytes_before(b, a),
{
    lemma_bytes_differ_from(a, b, 0);
}

/// No key comes before itself, and no two come before each other.
pub proof fn lemma_key_before_asymmetric(a: Option<Seq<u8>>, b: Option<Seq<u8>>)
    ensures
        !(key_before(a, b) && key_before(b, a)),
{
    if a is Some && b is Some {
        lemma_bytes_before_asymmetric(a->0, b->0);
    }
}

/// The order on keys is transitive.
pub proof fn lemma_key_before_transitive(
    a: Option<Seq<u8>>,
    b: Option<Seq<u8>>,
    c: Option<Seq<u8>>,
)
    requires
        key_before(a, b),
        key_before(b, c),
    ensures
        key_before(a, c),
{
    if a is Some {
        lemma_bytes_before_transitive(a->0, b->0, c->0);
    }
}

/// Of two different keys one comes before the other.
pub proof fn lemma_key_before_total(a: Option<Seq<u8>>, b: Option<Seq<u8>>)
    requires
        a != b,
    ensures
        key_before(a, b) || key_before(b, a),
{
    if a is Some && b is Some {
        lemma_bytes_before_total(a->0, b->0);
    }
}

/// Whether `a` comes strictly before `b` in lexicographic order.
pub fn bytes_come_before(a: &[u8], b: &[u8]) -> (before: bool)
    ensures
        before == bytes_before(a@, b@),
{
    let mut i: usize = 0;
    while i < a.len() && i < b.len() && a[i] == b[i]
        invariant
            i <= a@.len(),
            i <= b@.len(),
            forall|j: int| 0 <= j < i ==> a@[j] == b@[j],
        decreases a@.len() - i,
    {
        i += 1;
    }
    if i < b.len() && (i == a.len() || a[i] < b[i]) {
        assert(parts_at(a@, b@, i as int));
        true
    } else {
        assert forall|w: int| !parts_at(a@, b@, w) by {
            if parts_at(a@, b@, w) {
                if w < i {
                    assert(a@[w] == b@[w]);
                } else if w > i {
                    assert(a@[i as int] == b@[i as int]);
                }
            }
        }
        false
    }
}

impl SortKey {
    /// Whether this key comes strictly before `other` when sorting ascending.
    pub fn comes_before(&self, other: &SortKey) -> (before: bool)
        ensures
            before == key_before(self@, other@),
    {
        match (self, other) {
            (SortKey::Absent, SortKey::Value(_)) => true,
            (SortKey::Value(x), SortKey::Value(y)) => bytes_come_before(x.as_slice(), y.as_slice()),
            _ => false,
        }
    }
}

} // verus!
