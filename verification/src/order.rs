//! The order of names, and sorting by it.

use vstd::prelude::*;
use vstd::utf8::*;

use crate::text;

verus! {

// --- The order ---

/// Lexicographic order of byte strings.
pub open spec fn lex_le(a: Seq<u8>, b: Seq<u8>) -> bool
    decreases a.len(),
{
    if a.len() == 0 {
        true
    } else if b.len() == 0 {
        false
    } else if a[0] != b[0] {
        a[0] < b[0]
    } else {
        lex_le(a.drop_first(), b.drop_first())
    }
}

/// What a name is ordered by: its UTF-8 bytes, in ASCII lower case if `fold`.
pub open spec fn sort_key(name: Seq<char>, fold: bool) -> Seq<u8> {
    if fold {
        text::lower_bytes(encode_utf8(name))
    } else {
        encode_utf8(name)
    }
}

/// Whether each name comes no later than those after it.
pub open spec fn is_sorted(names: Seq<Seq<char>>, fold: bool) -> bool {
    forall|i: int, j: int|
        0 <= i <= j < names.len() ==> lex_le(
            sort_key(#[trigger] names[i], fold),
            sort_key(#[trigger] names[j], fold),
        )
}

/// The order is reflexive.
pub proof fn lex_reflexive(a: Seq<u8>)
    ensures
        lex_le(a, a),
    decreases a.len(),
{
    if a.len() > 0 {
        lex_reflexive(a.drop_first());
    }
}

/// Of two byte strings, one comes no later than the other.
pub proof fn lex_total(a: Seq<u8>, b: Seq<u8>)
    ensures
        lex_le(a, b) || lex_le(b, a),
    decreases a.len(),
{
    if a.len() > 0 && b.len() > 0 {
        lex_total(a.drop_first(), b.drop_first());
    }
}

/// The order is transitive.
pub proof fn lex_transitive(a: Seq<u8>, b: Seq<u8>, c: Seq<u8>)
    requires
        lex_le(a, b),
        lex_le(b, c),
    ensures
        lex_le(a, c),
    decreases a.len(),
{
    if a.len() > 0 && a[0] == b[0] && b[0] == c[0] {
        lex_transitive(a.drop_first(), b.drop_first(), c.drop_first());
    }
}

/// Byte strings that come no later than each other are the same.
pub proof fn lex_antisymmetric(a: Seq<u8>, b: Seq<u8>)
    requires
        lex_le(a, b),
        lex_le(b, a),
    ensures
        a == b,
    decreases a.len(),
{
    if a.len() > 0 {
        lex_antisymmetric(a.drop_first(), b.drop_first());
        assert(a =~= seq![a[0]] + a.drop_first());
        assert(b =~= seq![b[0]] + b.drop_first());
    } else {
        assert(a =~= b);
    }
}

/// Whether `a` comes no later than `b`.
pub fn comes_before(a: &str, b: &str, fold: bool) -> (r: bool)
    ensures
        r == lex_le(sort_key(a@, fold), sort_key(b@, fold)),
{
    let x = a.as_bytes();
    let y = b.as_bytes();
    let ghost kx = sort_key(a@, fold);
    let ghost ky = sort_key(b@, fold);
    let mut i: usize = 0;
    assert(kx.skip(0) =~= kx);
    assert(ky.skip(0) =~= ky);
    while i < x.len() && i < y.len()
        invariant
            i <= x@.len(),
            i <= y@.len(),
            x@ == encode_utf8(a@),
            y@ == encode_utf8(b@),
            kx == sort_key(a@, fold),
            ky == sort_key(b@, fold),
            lex_le(kx, ky) == lex_le(kx.skip(i as int), ky.skip(i as int)),
        decreases x@.len() - i,
    {
        let p: u8 = if fold {
            text::ascii_lower(x[i])
        } else {
            x[i]
        };
        let q: u8 = if fold {
            text::ascii_lower(y[i])
        } else {
            y[i]
        };
        assert(p == kx.skip(i as int)[0] && q == ky.skip(i as int)[0]);
        if p < q {
            return true;
        }
        if p > q {
            return false;
        }
        assert(kx.skip(i as int).drop_first() =~= kx.skip(i + 1));
        assert(ky.skip(i as int).drop_first() =~= ky.skip(i + 1));
        i += 1;
    }
    x.len() <= y.len()
}

// --- Sorting ---

/// Whether every name of `a` comes no later than every name of `b`.
spec fn all_before(a: Seq<Seq<char>>, b: Seq<Seq<char>>, fold: bool) -> bool {
    forall|i: int, j: int|
        0 <= i < a.len() && 0 <= j < b.len() ==> lex_le(
            sort_key(#[trigger] a[i], fold),
            sort_key(#[trigger] b[j], fold),
        )
}

/// The names in the opposite order.
fn reversed(names: Vec<String>) -> (r: Vec<String>)
    ensures
        text::texts(r@) == text::texts(names@).reverse(),
{
    let ghost all = text::texts(names@);
    let mut left = names;
    let mut out: Vec<String> = Vec::new();
    assert(text::texts(out@) =~= all.reverse().take(0));
    while left.len() > 0
        invariant
            left@.len() + out@.len() == all.len(),
            text::texts(left@) == all.take(left@.len() as int),
            text::texts(out@) == all.reverse().take(out@.len() as int),
        decreases left@.len(),
    {
        let ghost n = left@.len();
        assert(text::texts(left@)[n - 1] == left@[n - 1]@);
        match left.pop() {
            Some(s) => {
                proof {
                    assert(s@ == all[n - 1]);
                    text::texts_push(out@, s);
                }
                out.push(s);
                assert(text::texts(left@) =~= all.take(left@.len() as int));
                assert(text::texts(out@) =~= all.reverse().take(out@.len() as int));
            },
            None => {},
        }
    }
    assert(text::texts(out@) =~= all.reverse());
    out
}

/// Merges two sorted runs of names.
fn merge(a: Vec<String>, b: Vec<String>, fold: bool) -> (r: Vec<String>)
    requires
        is_sorted(text::texts(a@), fold),
        is_sorted(text::texts(b@), fold),
    ensures
        is_sorted(text::texts(r@), fold),
        text::texts(r@).to_multiset() == text::texts(a@).to_multiset().add(text::texts(b@).to_multiset()),
{
    broadcast use vstd::seq_lib::group_to_multiset_ensures;

    let ghost total = text::texts(a@).to_multiset().add(text::texts(b@).to_multiset());
    let mut x = a;
    let mut y = b;
    let mut out: Vec<String> = Vec::new();
    assert(text::texts(out@).reverse() =~= Seq::empty());
    assert(text::texts(out@) =~= Seq::empty());
    assert(total =~= text::texts(x@).to_multiset().add(text::texts(y@).to_multiset()).add(
        text::texts(out@).to_multiset(),
    ));
    while x.len() > 0 || y.len() > 0
        invariant
            is_sorted(text::texts(x@), fold),
            is_sorted(text::texts(y@), fold),
            is_sorted(text::texts(out@).reverse(), fold),
            all_before(text::texts(x@), text::texts(out@), fold),
            all_before(text::texts(y@), text::texts(out@), fold),
            total == text::texts(x@).to_multiset().add(text::texts(y@).to_multiset()).add(
                text::texts(out@).to_multiset(),
            ),
        decreases x@.len() + y@.len(),
    {
        let ghost tx = text::texts(x@);
        let ghost ty = text::texts(y@);
        let ghost to = text::texts(out@);
        let from_y: bool = y.len() > 0 && (x.len() == 0 || comes_before(
            x[x.len() - 1].as_str(),
            y[y.len() - 1].as_str(),
            fold,
        ));
        let taken = if from_y {
            y.pop()
        } else {
            x.pop()
        };
        match taken {
            Some(s) => {
                proof {
                    text::texts_push(out@, s);
                    vstd::seq_lib::to_multiset_build(to, s@);
                    if from_y {
                        assert(text::texts(y@) =~= ty.drop_last());
                        assert(s@ == ty.last());
                        take_last(ty, tx, to, fold);
                        assert(ty =~= ty.drop_last().push(s@));
                        vstd::seq_lib::to_multiset_build(ty.drop_last(), s@);
                    } else {
                        assert(text::texts(x@) =~= tx.drop_last());
                        assert(s@ == tx.last());
                        if ty.len() > 0 {
                            lex_total(sort_key(tx.last(), fold), sort_key(ty.last(), fold));
                        }
                        take_last(tx, ty, to, fold);
                        assert(tx =~= tx.drop_last().push(s@));
                        vstd::seq_lib::to_multiset_build(tx.drop_last(), s@);
                    }
                }
                out.push(s);
                assert(total =~= text::texts(x@).to_multiset().add(text::texts(y@).to_multiset()).add(
                    text::texts(out@).to_multiset(),
                ));
            },
            None => {},
        }
    }
    assert(text::texts(x@) =~= Seq::empty());
    assert(text::texts(y@) =~= Seq::empty());
    assert(total =~= text::texts(out@).to_multiset());
    let r = reversed(out);
    proof {
        text::texts(out@).lemma_reverse_to_multiset();
    }
    r
}

/// Moving the last name of `from` to the end of `out` keeps what `merge` relies
/// on, where no name of `other` comes after it.
proof fn take_last(
    from: Seq<Seq<char>>,
    other: Seq<Seq<char>>,
    out: Seq<Seq<char>>,
    fold: bool,
)
    requires
        from.len() > 0,
        is_sorted(from, fold),
        is_sorted(other, fold),
        is_sorted(out.reverse(), fold),
        all_before(from, out, fold),
        all_before(other, out, fold),
        other.len() > 0 ==> lex_le(sort_key(other.last(), fold), sort_key(from.last(), fold)),
    ensures
        is_sorted(from.drop_last(), fold),
        is_sorted(out.push(from.last()).reverse(), fold),
        all_before(from.drop_last(), out.push(from.last()), fold),
        all_before(other, out.push(from.last()), fold),
{
    let s = from.last();
    let out2 = out.push(s);
    let n = from.len() - 1;
    assert forall|i: int, j: int| 0 <= i <= j < n implies lex_le(
        sort_key(#[trigger] from.drop_last()[i], fold),
        sort_key(#[trigger] from.drop_last()[j], fold),
    ) by {
        assert(from.drop_last()[i] == from[i] && from.drop_last()[j] == from[j]);
    }
    assert forall|i: int, j: int| 0 <= i < n && 0 <= j < out2.len() implies lex_le(
        sort_key(#[trigger] from.drop_last()[i], fold),
        sort_key(#[trigger] out2[j], fold),
    ) by {
        assert(from.drop_last()[i] == from[i]);
        if j < out.len() {
            assert(out2[j] == out[j]);
        } else {
            assert(out2[j] == from[n]);
        }
    }
    assert forall|i: int, j: int| 0 <= i < other.len() && 0 <= j < out2.len() implies lex_le(
        sort_key(#[trigger] other[i], fold),
        sort_key(#[trigger] out2[j], fold),
    ) by {
        if j < out.len() {
            assert(out2[j] == out[j]);
        } else {
            assert(lex_le(
                sort_key(other[i], fold),
                sort_key(other[other.len() - 1], fold),
            ));
            lex_transitive(
                sort_key(other[i], fold),
                sort_key(other.last(), fold),
                sort_key(s, fold),
            );
        }
    }
    let rev = out2.reverse();
    assert forall|i: int, j: int| 0 <= i <= j < rev.len() implies lex_le(
        sort_key(#[trigger] rev[i], fold),
        sort_key(#[trigger] rev[j], fold),
    ) by {
        if i == 0 {
            assert(rev[i] == s);
            if j == 0 {
                lex_reflexive(sort_key(s, fold));
            } else {
                assert(rev[j] == out[out.len() - j]);
                assert(from[n] == s);
            }
        } else {
            assert(rev[i] == out.reverse()[i - 1] && rev[j] == out.reverse()[j - 1]);
        }
    }
}

/// The names in order. Which of two names with the same key comes first is left
/// open.
pub fn sort_names(names: Vec<String>, fold: bool) -> (r: Vec<String>)
    ensures
        is_sorted(text::texts(r@), fold),
        text::texts(r@).to_multiset() == text::texts(names@).to_multiset(),
    decreases names@.len(),
{
    if names.len() <= 1 {
        proof {
            if names@.len() == 1 {
                lex_reflexive(sort_key(text::texts(names@)[0], fold));
            }
        }
        return names;
    }
    let ghost all = text::texts(names@);
    let half: usize = names.len() / 2;
    let mut left = names;
    let right = left.split_off(half);
    proof {
        assert(text::texts(left@) =~= all.take(half as int));
        assert(text::texts(right@) =~= all.skip(half as int));
        assert(all =~= all.take(half as int) + all.skip(half as int));
        vstd::seq_lib::lemma_multiset_commutative(all.take(half as int), all.skip(half as int));
    }
    let a = sort_names(left, fold);
    let b = sort_names(right, fold);
    merge(a, b, fold)
}

// --- Laws ---

/// Whether `a` is the beginning of `b`, or has the lesser byte where the two differ
/// first.
pub open spec fn comes_first(a: Seq<u8>, b: Seq<u8>) -> bool {
    exists|k: int|
        {
            &&& 0 <= k <= a.len()
            &&& k <= b.len()
            &&& #[trigger] a.take(k) == b.take(k)
            &&& k == a.len() || (k < b.len() && a[k] < b[k])
        }
}

/// Byte strings are ordered by the first byte in which they differ, and a beginning
/// comes before what it is the beginning of.
pub proof fn lex_by_first_difference(a: Seq<u8>, b: Seq<u8>)
    ensures
        lex_le(a, b) <==> comes_first(a, b),
    decreases a.len(),
{
    if a.len() == 0 {
        assert(a.take(0) =~= b.take(0));
    } else if b.len() == 0 {
        if comes_first(a, b) {
            let k = choose|k: int|
                {
                    &&& 0 <= k <= a.len()
                    &&& k <= b.len()
                    &&& #[trigger] a.take(k) == b.take(k)
                    &&& k == a.len() || (k < b.len() && a[k] < b[k])
                };
            assert(false);
        }
    } else {
        let x = a.drop_first();
        let y = b.drop_first();
        lex_by_first_difference(x, y);
        if lex_le(a, b) {
            if a[0] != b[0] {
                assert(a.take(0) =~= b.take(0));
            } else {
                let k = choose|k: int|
                    {
                        &&& 0 <= k <= x.len()
                        &&& k <= y.len()
                        &&& #[trigger] x.take(k) == y.take(k)
                        &&& k == x.len() || (k < y.len() && x[k] < y[k])
                    };
                assert(a.take(k + 1) =~= seq![a[0]] + x.take(k));
                assert(b.take(k + 1) =~= seq![b[0]] + y.take(k));
                assert(a.take(k + 1) == b.take(k + 1));
            }
        }
        if comes_first(a, b) {
            let k = choose|k: int|
                {
                    &&& 0 <= k <= a.len()
                    &&& k <= b.len()
                    &&& #[trigger] a.take(k) == b.take(k)
                    &&& k == a.len() || (k < b.len() && a[k] < b[k])
                };
            if k > 0 {
                assert(a.take(k)[0] == b.take(k)[0]);
                assert(x.take(k - 1) =~= a.take(k).drop_first());
                assert(y.take(k - 1) =~= b.take(k).drop_first());
                assert(x.take(k - 1) == y.take(k - 1));
            }
        }
    }
}

/// Names are ordered by their UTF-8 bytes; where letter case does not count, by
/// those with each capital letter moved to its small one.
pub proof fn sort_keys_are_bytes(name: Seq<char>, i: int)
    ensures
        sort_key(name, false) == encode_utf8(name),
        sort_key(name, true).len() == encode_utf8(name).len(),
        0 <= i < encode_utf8(name).len() ==> {
            let b = encode_utf8(name)[i];
            sort_key(name, true)[i] == if 65 <= b <= 90 {
                (b + 32) as u8
            } else {
                b
            }
        },
{
}

/// Of two names in a sorted list the key of the first comes first.
pub proof fn sorted_names_are_in_order(names: Seq<Seq<char>>, fold: bool, i: int, j: int)
    requires
        is_sorted(names, fold),
        0 <= i < j < names.len(),
    ensures
        comes_first(sort_key(names[i], fold), sort_key(names[j], fold)),
{
    lex_by_first_difference(sort_key(names[i], fold), sort_key(names[j], fold));
}

} // verus!
