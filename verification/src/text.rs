//! Comparing texts: equality, and the order in which keys are kept.

use vstd::prelude::*;
use vstd::string::*;
use vstd::utf8::{encode_utf8, encode_utf8_decode_utf8};

verus! {

/// How one text stands to another in the order of their bytes.
#[derive(Clone, Copy, Debug, PartialEq, Eq, Structural)]
pub enum Rank {
    Before,
    Same,
    After,
}

/// `a` comes before `b` in the lexicographic order of bytes: at the first
/// place where the two part, `a` has ended or holds the smaller byte.
pub open spec fn bytes_precede(a: Seq<u8>, b: Seq<u8>) -> bool {
    exists|i: int| parts_at(a, b, i)
}

/// `a` and `b` agree on their first `i` bytes, and there `a` has ended or
/// holds the smaller byte, while `b` goes on.
pub open spec fn parts_at(a: Seq<u8>, b: Seq<u8>, i: int) -> bool {
    &&& 0 <= i <= a.len()
    &&& i < b.len()
    &&& a.take(i) == b.take(i)
    &&& (i == a.len() || a[i] < b[i])
}

/// The text `a` comes before the text `b`: their UTF-8 bytes do.  This is
/// the order of `str`.
pub open spec fn precedes(a: Seq<char>, b: Seq<char>) -> bool {
    bytes_precede(encode_utf8(a), encode_utf8(b))
}

/// How the text `a` stands to the text `b`.
pub open spec fn rank_of(a: Seq<char>, b: Seq<char>) -> Rank {
    if a == b {
        Rank::Same
    } else if precedes(a, b) {
        Rank::Before
    } else {
        Rank::After
    }
}

/// No byte string comes before itself, and none both before and after
/// another.
proof fn lemma_bytes_precede_asymmetric(a: Seq<u8>, b: Seq<u8>)
    requires
        bytes_precede(a, b),
    ensures
        a != b,
        !bytes_precede(b, a),
{
    let i = choose|i: int| parts_at(a, b, i);
    if bytes_precede(b, a) {
        let j = choose|j: int| parts_at(b, a, j);
        if i < j {
            assert(b.take(j)[i] == a.take(j)[i]);
        } else if j < i {
            assert(a.take(i)[j] == b.take(i)[j]);
        }
    }
}

/// What comes before a byte string comes before all that it comes before.
proof fn lemma_bytes_precede_transitive(a: Seq<u8>, b: Seq<u8>, c: Seq<u8>)
    requires
        bytes_precede(a, b),
        bytes_precede(b, c),
    ensures
        bytes_precede(a, c),
{
    let i = choose|i: int| parts_at(a, b, i);
    let j = choose|j: int| parts_at(b, c, j);
    let k = if i <= j {
        i
    } else {
        j
    };
    assert(a.take(k) =~= c.take(k)) by {
        assert forall|n: int| 0 <= n < k implies a[n] == c[n] by {
            assert(a.take(i)[n] == b.take(i)[n]);
            assert(b.take(j)[n] == c.take(j)[n]);
        }
    }
    if i < j {
        assert(b.take(j)[i] == c.take(j)[i]);
    } else if j < i {
        assert(a.take(i)[j] == b.take(i)[j]);
    }
    assert(parts_at(a, c, k));
}

/// The order of texts is strict: what comes before another differs from it
/// and does not come after it.
pub proof fn lemma_precedes_asymmetric(a: Seq<char>, b: Seq<char>)
    requires
        precedes(a, b),
    ensures
        a != b,
        !precedes(b, a),
{
    lemma_bytes_precede_asymmetric(encode_utf8(a), encode_utf8(b));
}

/// The order of texts is transitive.
pub proof fn lemma_precedes_transitive(a: Seq<char>, b: Seq<char>, c: Seq<char>)
    requires
        precedes(a, b),
        precedes(b, c),
    ensures
        precedes(a, c),
{
    lemma_bytes_precede_transitive(encode_utf8(a), encode_utf8(b), encode_utf8(c));
}

/// Of two different texts one comes before the other.
pub proof fn lemma_precedes_total(a: Seq<char>, b: Seq<char>)
    ensures
        a == b || precedes(a, b) || precedes(b, a),
{
    let x = encode_utf8(a);
    let y = encode_utf8(b);
    if x == y {
        encode_utf8_decode_utf8(a);
        encode_utf8_decode_utf8(b);
    } else {
        assert(x.take(0) =~= y.take(0));
        lemma_first_difference(x, y, 0);
    }
}

/// Two byte strings that agree on their first `from` bytes and differ
/// part at some place from there on, one way or the other.
proof fn lemma_first_difference(x: Seq<u8>, y: Seq<u8>, from: int)
    requires
        0 <= from <= x.len(),
        from <= y.len(),
        x.take(from) == y.take(from),
        x != y,
    ensures
        bytes_precede(x, y) || bytes_precede(y, x),
    decreases x.len() - from,
{
    if from == x.len() {
        if from == y.len() {
            assert(x.take(from) =~= x);
            assert(y.take(from) =~= y);
        } else {
            assert(parts_at(x, y, from));
        }
    } else if from == y.len() {
        assert(parts_at(y, x, from));
    } else if x[from] < y[from] {
        assert(parts_at(x, y, from));
    } else if y[from] < x[from] {
        assert(parts_at(y, x, from));
    } else {
        assert(x.take(from + 1) =~= x.take(from).push(x[from]));
        assert(y.take(from + 1) =~= y.take(from).push(y[from]));
        lemma_first_difference(x, y, from + 1);
    }
}

/// Compares two texts byte by byte.
pub fn rank(a: &str, b: &str) -> (r: Rank)
    ensures
        r == rank_of(a@, b@),
{
    let x = a.as_bytes();
    let y = b.as_bytes();
    let mut i: usize = 0;
    while i < x.len() && i < y.len() && x[i] == y[i]
        invariant
            i <= x.len(),
            i <= y.len(),
            x@.take(i as int) == y@.take(i as int),
        decreases x.len() - i,
    {
        proof {
            assert(x@.take(i + 1) =~= x@.take(i as int).push(x@[i as int]));
            assert(y@.take(i + 1) =~= y@.take(i as int).push(y@[i as int]));
        }
        i = i + 1;
    }
    if i == x.len() && i == y.len() {
        proof {
            assert(x@.take(i as int) =~= x@);
            assert(y@.take(i as int) =~= y@);
            encode_utf8_decode_utf8(a@);
            encode_utf8_decode_utf8(b@);
        }
        Rank::Same
    } else if i == x.len() || (i < y.len() && x[i] < y[i]) {
        proof {
            assert(parts_at(x@, y@, i as int));
            lemma_precedes_asymmetric(a@, b@);
        }
        Rank::Before
    } else {
        proof {
            assert(parts_at(y@, x@, i as int));
            lemma_precedes_asymmetric(b@, a@);
        }
        Rank::After
    }
}

/// Whether two texts are the same.
pub fn same_text(a: &str, b: &str) -> (same: bool)
    ensures
        same == (a@ == b@),
{
    match rank(a, b) {
        Rank::Same => true,
        _ => false,
    }
}

} // verus!
