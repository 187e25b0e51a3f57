//! Lexicographic orders: on byte strings, on strings by their UTF-8 bytes,
//! and on lists ordered element by element.

use vstd::prelude::*;
use vstd::utf8::*;
use vstd::string::*;

verus! {

/// Outcome of comparing two values under a strict total order.
#[derive(Clone, Copy, Debug, PartialEq, Eq, Structural)]
pub enum Order {
    Less,
    Equal,
    Greater,
}

/// Nothing stands before itself.
pub open spec fn irreflexive<T>(lt: spec_fn(T, T) -> bool) -> bool {
    forall|x: T| !#[trigger] lt(x, x)
}

/// What stands before something that stands before a third stands before the
/// third.
pub open spec fn transitive<T>(lt: spec_fn(T, T) -> bool) -> bool {
    forall|x: T, y: T, z: T| #[trigger] lt(x, y) && #[trigger] lt(y, z) ==> lt(x, z)
}

/// `a` and `b` agree on their first `k` items, and at position `k` either `a`
/// ends while `b` goes on, or `a` holds the smaller item.
pub open spec fn lex_lt_at<T>(a: Seq<T>, b: Seq<T>, lt: spec_fn(T, T) -> bool, k: int) -> bool {
    &&& 0 <= k <= a.len()
    &&& k <= b.len()
    &&& forall|i: int| 0 <= i < k ==> a[i] == b[i]
    &&& if k == a.len() {
        k < b.len()
    } else {
        k < b.len() && lt(a[k], b[k])
    }
}

/// The lexicographic order that `lt` induces on sequences.
pub open spec fn lex_lt<T>(a: Seq<T>, b: Seq<T>, lt: spec_fn(T, T) -> bool) -> bool {
    exists|k: int| lex_lt_at(a, b, lt, k)
}

/// No sequence stands before itself.
pub proof fn lemma_lex_irreflexive<T>(a: Seq<T>, lt: spec_fn(T, T) -> bool)
    requires
        irreflexive(lt),
    ensures
        !lex_lt(a, a, lt),
{
}

/// The order of sequences is transitive if that of the items is.
pub proof fn lemma_lex_transitive<T>(a: Seq<T>, b: Seq<T>, c: Seq<T>, lt: spec_fn(T, T) -> bool)
    requires
        transitive(lt),
        lex_lt(a, b, lt),
        lex_lt(b, c, lt),
    ensures
        lex_lt(a, c, lt),
{
    let k1 = choose|k: int| lex_lt_at(a, b, lt, k);
    let k2 = choose|k: int| lex_lt_at(b, c, lt, k);
    if k1 < k2 {
        assert(lex_lt_at(a, c, lt, k1));
    } else if k1 == k2 {
        assert(lex_lt_at(a, c, lt, k1));
    } else {
        assert(lex_lt_at(a, c, lt, k2));
    }
}

/// Under a strict order on the items, of two sequences at most one stands
/// before the other, and then they differ.
pub proof fn lemma_lex_exclusive<T>(a: Seq<T>, b: Seq<T>, lt: spec_fn(T, T) -> bool)
    requires
        irreflexive(lt),
        transitive(lt),
    ensures
        !(lex_lt(a, b, lt) && lex_lt(b, a, lt)),
        lex_lt(a, b, lt) ==> a != b,
        lex_lt(b, a, lt) ==> a != b,
{
    lemma_lex_irreflexive(a, lt);
    if lex_lt(a, b, lt) && lex_lt(b, a, lt) {
        lemma_lex_transitive(a, b, a, lt);
    }
}

/// Every item stands before all later ones.
pub open spec fn strictly_sorted<T>(s: Seq<T>, lt: spec_fn(T, T) -> bool) -> bool {
    forall|i: int, j: int| 0 <= i < j < s.len() ==> lt(#[trigger] s[i], #[trigger] s[j])
}

/// A strictly sorted sequence is determined by the set of its items.
pub proof fn lemma_sorted_canonical<T>(a: Seq<T>, b: Seq<T>, lt: spec_fn(T, T) -> bool)
    requires
        irreflexive(lt),
        transitive(lt),
        strictly_sorted(a, lt),
        strictly_sorted(b, lt),
        forall|x: T| a.contains(x) <==> b.contains(x),
    ensures
        a == b,
    decreases a.len(),
{
    if a.len() == 0 {
        if b.len() > 0 {
            assert(b.contains(b[0]));
        }
        assert(a =~= b);
    } else {
        assert(a.contains(a[0]));
        assert(b.contains(a[0]));
        let j = choose|j: int| 0 <= j < b.len() && b[j] == a[0];
        assert(b.contains(b[0]));
        assert(a.contains(b[0]));
        let i = choose|i: int| 0 <= i < a.len() && a[i] == b[0];
        if j > 0 {
            assert(lt(b[0], b[j]));
            if i > 0 {
                assert(lt(a[0], a[i]));
            }
            assert(false);
        }
        let ta = a.drop_first();
        let tb = b.drop_first();
        assert forall|x: T| ta.contains(x) <==> tb.contains(x) by {
            if ta.contains(x) {
                let p = choose|p: int| 0 <= p < ta.len() && ta[p] == x;
                assert(a[p + 1] == x);
                assert(a.contains(x));
                let q = choose|q: int| 0 <= q < b.len() && b[q] == x;
                if q == 0 {
                    assert(lt(a[0], a[p + 1]));
                    assert(false);
                }
                assert(tb[q - 1] == x);
            }
            if tb.contains(x) {
                let p = choose|p: int| 0 <= p < tb.len() && tb[p] == x;
                assert(b[p + 1] == x);
                assert(b.contains(x));
                let q = choose|q: int| 0 <= q < a.len() && a[q] == x;
                if q == 0 {
                    assert(lt(b[0], b[p + 1]));
                    assert(false);
                }
                assert(ta[q - 1] == x);
            }
        }
        assert forall|p: int, q: int| 0 <= p < q < ta.len() implies lt(
            #[trigger] ta[p],
            #[trigger] ta[q],
        ) by {
            assert(lt(a[p + 1], a[q + 1]));
        }
        assert forall|p: int, q: int| 0 <= p < q < tb.len() implies lt(
            #[trigger] tb[p],
            #[trigger] tb[q],
        ) by {
            assert(lt(b[p + 1], b[q + 1]));
        }
        lemma_sorted_canonical(ta, tb, lt);
        assert(a =~= seq![a[0]] + ta);
        assert(b =~= seq![b[0]] + tb);
    }
}

/// The order of bytes by value.
pub open spec fn byte_order() -> spec_fn(u8, u8) -> bool {
    |x: u8, y: u8| x < y
}

/// Byte strings in dictionary order.
pub open spec fn bytes_lt(a: Seq<u8>, b: Seq<u8>) -> bool {
    lex_lt(a, b, byte_order())
}

/// Strings in the order of their UTF-8 encodings, which is the order of their
/// code points.
pub open spec fn str_lt(a: Seq<char>, b: Seq<char>) -> bool {
    bytes_lt(encode_utf8(a), encode_utf8(b))
}

/// The order of strings as a function.
pub open spec fn str_order() -> spec_fn(Seq<char>, Seq<char>) -> bool {
    |a: Seq<char>, b: Seq<char>| str_lt(a, b)
}

/// Lists of strings in dictionary order, the strings compared by `str_lt`.
pub open spec fn strs_lt(a: Seq<Seq<char>>, b: Seq<Seq<char>>) -> bool {
    lex_lt(a, b, str_order())
}

/// The order of lists of strings as a function.
pub open spec fn strs_order() -> spec_fn(Seq<Seq<char>>, Seq<Seq<char>>) -> bool {
    |a: Seq<Seq<char>>, b: Seq<Seq<char>>| strs_lt(a, b)
}

/// The order of lists of strings is strict.
pub proof fn lemma_strs_order_strict()
    ensures
        irreflexive(strs_order()),
        transitive(strs_order()),
{
    lemma_str_order_strict();
    assert forall|x: Seq<Seq<char>>| !#[trigger] strs_order()(x, x) by {
        lemma_lex_irreflexive(x, str_order());
    }
    assert forall|x: Seq<Seq<char>>, y: Seq<Seq<char>>, z: Seq<Seq<char>>| #[trigger]
        strs_order()(x, y) && #[trigger] strs_order()(y, z) implies strs_order()(x, z) by {
        lemma_lex_transitive(x, y, z, str_order());
    }
}

/// The order of strings is strict.
pub proof fn lemma_str_order_strict()
    ensures
        irreflexive(str_order()),
        transitive(str_order()),
{
    assert forall|x: Seq<char>| !#[trigger] str_order()(x, x) by {
        lemma_lex_irreflexive(encode_utf8(x), byte_order());
    }
    assert forall|x: Seq<char>, y: Seq<char>, z: Seq<char>| #[trigger]
        str_order()(x, y) && #[trigger] str_order()(y, z) implies str_order()(x, z) by {
        lemma_lex_transitive(encode_utf8(x), encode_utf8(y), encode_utf8(z), byte_order());
    }
}

/// The order of bytes is strict.
pub proof fn lemma_byte_order_strict()
    ensures
        irreflexive(byte_order()),
        transitive(byte_order()),
{
}

/// Strings with the same encoding are the same string.
pub proof fn lemma_encoding_injective(a: Seq<char>, b: Seq<char>)
    requires
        encode_utf8(a) == encode_utf8(b),
    ensures
        a == b,
{
    encode_utf8_decode_utf8(a);
    encode_utf8_decode_utf8(b);
}

/// Compares two byte strings in dictionary order.
pub fn compare_bytes(a: &[u8], b: &[u8]) -> (o: Order)
    ensures
        (o == Order::Less) == bytes_lt(a@, b@),
        (o == Order::Equal) == (a@ == b@),
        (o == Order::Greater) == bytes_lt(b@, a@),
{
    proof {
        lemma_byte_order_strict();
        lemma_lex_exclusive(a@, b@, byte_order());
    }
    let la = a.len();
    let lb = b.len();
    let mut i: usize = 0;
    while i < la && i < lb
        invariant
            la == a@.len(),
            lb == b@.len(),
            i <= la,
            i <= lb,
            forall|k: int| 0 <= k < i ==> a@[k] == b@[k],
            !(bytes_lt(a@, b@) && bytes_lt(b@, a@)),
            bytes_lt(a@, b@) ==> a@ != b@,
            bytes_lt(b@, a@) ==> a@ != b@,
        decreases la - i,
    {
        let x = a[i];
        let y = b[i];
        if x < y {
            assert(lex_lt_at(a@, b@, byte_order(), i as int));
            return Order::Less;
        }
        if y < x {
            assert(lex_lt_at(b@, a@, byte_order(), i as int));
            return Order::Greater;
        }
        i += 1;
    }
    if la < lb {
        assert(lex_lt_at(a@, b@, byte_order(), i as int));
        Order::Less
    } else if lb < la {
        assert(lex_lt_at(b@, a@, byte_order(), i as int));
        Order::Greater
    } else {
        assert(a@ =~= b@);
        Order::Equal
    }
}

/// Compares two strings by their UTF-8 bytes.
pub fn compare_str(a: &str, b: &str) -> (o: Order)
    ensures
        (o == Order::Less) == str_lt(a@, b@),
        (o == Order::Equal) == (a@ == b@),
        (o == Order::Greater) == str_lt(b@, a@),
{
    let o = compare_bytes(a.as_bytes(), b.as_bytes());
    proof {
        if o == Order::Equal {
            lemma_encoding_injective(a@, b@);
        }
    }
    o
}

/// The views of a list of strings.
pub open spec fn views(v: Seq<String>) -> Seq<Seq<char>> {
    Seq::new(v.len(), |i: int| v[i]@)
}

/// Compares two lists of strings in dictionary order.
pub fn compare_strs(a: &Vec<String>, b: &Vec<String>) -> (o: Order)
    ensures
        (o == Order::Less) == strs_lt(views(a@), views(b@)),
        (o == Order::Equal) == (views(a@) == views(b@)),
        (o == Order::Greater) == strs_lt(views(b@), views(a@)),
{
    proof {
        lemma_str_order_strict();
        lemma_lex_exclusive(views(a@), views(b@), str_order());
    }
    let la = a.len();
    let lb = b.len();
    let mut i: usize = 0;
    while i < la && i < lb
        invariant
            la == a@.len(),
            lb == b@.len(),
            i <= la,
            i <= lb,
            forall|k: int| 0 <= k < i ==> views(a@)[k] == views(b@)[k],
            !(strs_lt(views(a@), views(b@)) && strs_lt(views(b@), views(a@))),
            strs_lt(views(a@), views(b@)) ==> views(a@) != views(b@),
            strs_lt(views(b@), views(a@)) ==> views(a@) != views(b@),
        decreases la - i,
    {
        let o = compare_str(a[i].as_str(), b[i].as_str());
        match o {
            Order::Less => {
                assert(lex_lt_at(views(a@), views(b@), str_order(), i as int));
                return Order::Less;
            },
            Order::Greater => {
                assert(lex_lt_at(views(b@), views(a@), str_order(), i as int));
                return Order::Greater;
            },
            Order::Equal => {},
        }
        i += 1;
    }
    if la < lb {
        assert(lex_lt_at(views(a@), views(b@), str_order(), i as int));
        Order::Less
    } else if lb < la {
        assert(lex_lt_at(views(b@), views(a@), str_order(), i as int));
        Order::Greater
    } else {
        assert(views(a@) =~= views(b@));
        Order::Equal
    }
}

} // verus!
