//! The order in which names are kept: byte by byte over their UTF-8
//! encoding, a shorter name before every longer name that begins with it.

use vstd::prelude::*;
use vstd::string::StringSliceAdditionalSpecFns;
use vstd::utf8::{encode_utf8, encode_utf8_decode_utf8};

verus! {

/// Whether the comparison of `a` with `b` is decided in favour of `a` at
/// position `n`: the two agree before `n`, and there `a` ends or has the
/// smaller byte.
pub open spec fn decided_at(a: Seq<u8>, b: Seq<u8>, n: int) -> bool {
    &&& 0 <= n <= a.len()
    &&& n < b.len()
    &&& forall|j: int| 0 <= j < n ==> a[j] == b[j]
    &&& (n == a.len() || a[n] < b[n])
}

/// Whether `a` comes strictly before `b`.
pub open spec fn bytes_before(a: Seq<u8>, b: Seq<u8>) -> bool {
    exists|n: int| decided_at(a, b, n)
}

/// Whether the name `a` comes strictly before the name `b`.
pub open spec fn name_before(a: Seq<char>, b: Seq<char>) -> bool {
    bytes_before(encode_utf8(a), encode_utf8(b))
}

/// Whether the names of a list are in strictly increasing order.
pub open spec fn strictly_sorted(list: Seq<String>) -> bool {
    forall|i: int, j: int| 0 <= i < j < list.len() ==> name_before(list[i]@, list[j]@)
}

/// Nothing comes before itself.
pub proof fn lemma_before_irreflexive(a: Seq<u8>)
    ensures
        !bytes_before(a, a),
{
}

/// What comes before something that comes before a third comes before the
/// third.
pub proof fn lemma_before_transitive(a: Seq<u8>, b: Seq<u8>, c: Seq<u8>)
    requires
        bytes_before(a, b),
        bytes_before(b, c),
    ensures
        bytes_before(a, c),
{
    let m = choose|n: int| decided_at(a, b, n);
    let n = choose|n: int| decided_at(b, c, n);
    if m <= n {
        assert(decided_at(a, c, m));
    } else {
        assert(decided_at(a, c, n));
    }
}

/// Of two byte strings, at most one comes before the other.
pub proof fn lemma_before_asymmetric(a: Seq<u8>, b: Seq<u8>)
    requires
        bytes_before(a, b),
    ensures
        !bytes_before(b, a),
{
    let n = choose|n: int| decided_at(a, b, n);
    lemma_decided(a, b, n);
}

/// Names with the same encoding are the same name.
pub proof fn lemma_encoding_names_one(a: Seq<char>, b: Seq<char>)
    requires
        encode_utf8(a) == encode_utf8(b),
    ensures
        a == b,
{
    encode_utf8_decode_utf8(a);
    encode_utf8_decode_utf8(b);
}

/// A strictly sorted list holds no name twice.
pub proof fn lemma_sorted_names_differ(list: Seq<String>, i: int, j: int)
    requires
        strictly_sorted(list),
        0 <= i < list.len(),
        0 <= j < list.len(),
        list[i]@ == list[j]@,
    ensures
        i == j,
{
    lemma_before_irreflexive(encode_utf8(list[i]@));
    if i < j {
        assert(name_before(list[i]@, list[j]@));
    } else if j < i {
        assert(name_before(list[j]@, list[i]@));
    }
}

/// Whether `name` is one of the names of `list`.
pub open spec fn list_has(list: Seq<String>, name: Seq<char>) -> bool {
    exists|i: int| 0 <= i < list.len() && #[trigger] list[i]@ == name
}

/// A set of names has one sorted list only: two strictly sorted lists with
/// the same names hold the same names at the same places.
pub proof fn lemma_sorted_list_unique(a: Seq<String>, b: Seq<String>)
    requires
        strictly_sorted(a),
        strictly_sorted(b),
        forall|i: int| 0 <= i < a.len() ==> list_has(b, (#[trigger] a[i])@),
        forall|j: int| 0 <= j < b.len() ==> list_has(a, (#[trigger] b[j])@),
    ensures
        a.len() == b.len(),
        forall|i: int| 0 <= i < a.len() ==> (#[trigger] a[i])@ == b[i]@,
    decreases a.len(),
{
    if a.len() == 0 {
        if b.len() > 0 {
            assert(list_has(a, b[0]@));
        }
    } else {
        assert(list_has(b, a[0]@));
        let k = choose|j: int| 0 <= j < b.len() && #[trigger] b[j]@ == a[0]@;
        assert(list_has(a, b[0]@));
        let m = choose|i: int| 0 <= i < a.len() && #[trigger] a[i]@ == b[0]@;
        if k > 0 && m > 0 {
            assert(name_before(b[0]@, b[k]@));
            assert(name_before(a[0]@, a[m]@));
            lemma_before_asymmetric(encode_utf8(a[0]@), encode_utf8(b[0]@));
        }
        assert(a[0]@ == b[0]@);
        let rest_a = a.subrange(1, a.len() as int);
        let rest_b = b.subrange(1, b.len() as int);
        assert forall|i: int| 0 <= i < rest_a.len() implies list_has(
            rest_b,
            (#[trigger] rest_a[i])@,
        ) by {
            assert(list_has(b, a[i + 1]@));
            let j = choose|j: int| 0 <= j < b.len() && #[trigger] b[j]@ == a[i + 1]@;
            if j == 0 {
                lemma_sorted_names_differ(a, 0, i + 1);
            }
            assert(rest_b[j - 1]@ == rest_a[i]@);
        }
        assert forall|j: int| 0 <= j < rest_b.len() implies list_has(
            rest_a,
            (#[trigger] rest_b[j])@,
        ) by {
            assert(list_has(a, b[j + 1]@));
            let i = choose|i: int| 0 <= i < a.len() && #[trigger] a[i]@ == b[j + 1]@;
            if i == 0 {
                lemma_sorted_names_differ(b, 0, j + 1);
            }
            assert(rest_a[i - 1]@ == rest_b[j]@);
        }
        assert forall|i: int, j: int| 0 <= i < j < rest_a.len() implies name_before(
            rest_a[i]@,
            rest_a[j]@,
        ) by {
            assert(name_before(a[i + 1]@, a[j + 1]@));
        }
        assert forall|i: int, j: int| 0 <= i < j < rest_b.len() implies name_before(
            rest_b[i]@,
            rest_b[j]@,
        ) by {
            assert(name_before(b[i + 1]@, b[j + 1]@));
        }
        lemma_sorted_list_unique(rest_a, rest_b);
        assert forall|i: int| 0 <= i < a.len() implies (#[trigger] a[i])@ == b[i]@ by {
            if i > 0 {
                assert(rest_a[i - 1]@ == rest_b[i - 1]@);
            }
        }
    }
}

/// How one name stands to another in the order.
pub enum Placement {
    Before,
    Same,
    After,
}

/// Compares two names.
pub fn compare_names(a: &str, b: &str) -> (p: Placement)
    ensures
        p is Before <==> name_before(a@, b@),
        p is Same <==> a@ == b@,
        p is After <==> name_before(b@, a@),
{
    let x = a.as_bytes();
    let y = b.as_bytes();
    let mut i: usize = 0;
    while i < x.len() && i < y.len()
        invariant
            x@ == encode_utf8(a@),
            y@ == encode_utf8(b@),
            i <= x@.len(),
            i <= y@.len(),
            forall|j: int| 0 <= j < i ==> x@[j] == y@[j],
        decreases x@.len() - i,
    {
        if x[i] < y[i] {
            proof {
                lemma_decided(x@, y@, i as int);
            }
            return Placement::Before;
        }
        if x[i] > y[i] {
            proof {
                lemma_decided(y@, x@, i as int);
            }
            return Placement::After;
        }
        i += 1;
    }
    if i < y.len() {
        proof {
            lemma_decided(x@, y@, i as int);
        }
        Placement::Before
    } else if i < x.len() {
        proof {
            lemma_decided(y@, x@, i as int);
        }
        Placement::After
    } else {
        proof {
            assert(x@ =~= y@);
            lemma_encoding_names_one(a@, b@);
            lemma_before_irreflexive(x@);
        }
        Placement::Same
    }
}

/// Once the comparison is decided in favour of `a`, it is not decided in
/// favour of `b`, and the two differ.
proof fn lemma_decided(a: Seq<u8>, b: Seq<u8>, n: int)
    requires
        decided_at(a, b, n),
    ensures
        bytes_before(a, b),
        !bytes_before(b, a),
        a != b,
{
    if bytes_before(b, a) {
        let m = choose|m: int| decided_at(b, a, m);
        if m < n {
            assert(a[m] == b[m]);
        } else if n < m {
            assert(b[n] == a[n]);
        }
    }
}

} // verus!
