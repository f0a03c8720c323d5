//! Text and byte helpers shared by the rest of the library.

use vstd::prelude::*;
use vstd::utf8::*;

verus! {

/// `String::push` appends the given character to the end of the string.
pub assume_specification[ String::push ](s: &mut String, c: char)
    ensures
        final(s)@ == old(s)@.push(c),
;

// --- ASCII letter case ---

/// The ASCII lower-case form of a byte; other bytes stand for themselves.
pub open spec fn lower_byte(b: u8) -> u8 {
    if 0x41 <= b <= 0x5a {
        (b + 0x20) as u8
    } else {
        b
    }
}

/// The ASCII lower-case form of a character; other characters stand for
/// themselves.
pub open spec fn lower_char(c: char) -> char {
    if 'A' <= c <= 'Z' {
        (c as u8 + 0x20) as char
    } else {
        c
    }
}

/// `lower_byte` on every byte.
pub open spec fn lower_bytes(s: Seq<u8>) -> Seq<u8> {
    Seq::new(s.len(), |i: int| lower_byte(s[i]))
}

/// `lower_char` on every character.
pub open spec fn lower_text(s: Seq<char>) -> Seq<char> {
    Seq::new(s.len(), |i: int| lower_char(s[i]))
}

/// Lower-cases one ASCII letter.
pub fn ascii_lower(b: u8) -> (r: u8)
    ensures
        r == lower_byte(b),
{
    if 0x41 <= b && b <= 0x5a {
        b + 0x20
    } else {
        b
    }
}

/// Lower-cases one ASCII letter.
pub fn char_lower(c: char) -> (r: char)
    ensures
        r == lower_char(c),
{
    if 'A' <= c && c <= 'Z' {
        ((c as u8) + 0x20) as char
    } else {
        c
    }
}

/// Lower-cases the ASCII letters among `s`.
pub fn ascii_lower_bytes(s: &[u8]) -> (r: Vec<u8>)
    ensures
        r@ == lower_bytes(s@),
{
    let mut out: Vec<u8> = Vec::new();
    for i in 0..s.len()
        invariant
            out@ == lower_bytes(s@.take(i as int)),
    {
        out.push(ascii_lower(s[i]));
        assert(out@ =~= lower_bytes(s@.take(i + 1)));
    }
    assert(s@.take(s@.len() as int) =~= s@);
    out
}

// --- Equality ---

/// Whether two byte strings are the same.
pub fn same_bytes(a: &[u8], b: &[u8]) -> (r: bool)
    ensures
        r == (a@ == b@),
{
    if a.len() != b.len() {
        return false;
    }
    for i in 0..a.len()
        invariant
            a@.len() == b@.len(),
            forall|j: int| 0 <= j < i ==> a@[j] == b@[j],
    {
        if a[i] != b[i] {
            return false;
        }
    }
    assert(a@ =~= b@);
    true
}

/// UTF-8 encoding tells texts apart.
pub proof fn encoding_is_injective(a: Seq<char>, b: Seq<char>)
    requires
        encode_utf8(a) == encode_utf8(b),
    ensures
        a == b,
{
    encode_utf8_decode_utf8(a);
    encode_utf8_decode_utf8(b);
}

/// UTF-8 encodes a text piece by piece.
pub proof fn encoding_of_concatenation(a: Seq<char>, b: Seq<char>)
    ensures
        encode_utf8(a + b) == encode_utf8(a) + encode_utf8(b),
    decreases a.len(),
{
    if a.len() == 0 {
        assert(a + b =~= b);
        assert(encode_utf8(a) + encode_utf8(b) =~= encode_utf8(b));
    } else {
        encoding_of_concatenation(a.drop_first(), b);
        assert((a + b).drop_first() =~= a.drop_first() + b);
        assert((a + b)[0] == a[0]);
        assert(encode_utf8(a + b) =~= encode_utf8(a) + encode_utf8(b));
    }
}

/// An ASCII byte in an encoded text stands for that ASCII character.
pub proof fn encoding_keeps_ascii(s: Seq<char>, i: int)
    requires
        0 <= i < encode_utf8(s).len(),
        encode_utf8(s)[i] < 0x80,
    ensures
        s.contains(encode_utf8(s)[i] as char),
    decreases s.len(),
{
    let first = encode_scalar(s[0] as u32);
    let rest = s.drop_first();
    let b = encode_utf8(s)[i];
    if i < first.len() {
        let v = s[0] as u32;
        char_is_scalar(s[0]);
        char_u32_cast(s[0], v);
        assert(first[i] == b);
        assert(leading_byte_width_2(v) >= 0x80) by (bit_vector);
        assert(leading_byte_width_3(v) >= 0x80) by (bit_vector);
        assert(leading_byte_width_4(v) >= 0x80) by (bit_vector);
        assert(last_continuation_byte(v) >= 0x80) by (bit_vector);
        assert(second_last_continuation_byte(v) >= 0x80) by (bit_vector);
        assert(third_last_continuation_byte(v) >= 0x80) by (bit_vector);
        assert(v <= 0x7f ==> leading_byte_width_1(v) == v) by (bit_vector);
        assert(has_width_1_encoding(v));
        assert(b == v);
        assert(s[0] as u8 == b);
        assert(s[0] == b as char);
    } else {
        assert(encode_utf8(rest)[i - first.len()] == b);
        encoding_keeps_ascii(rest, i - first.len());
        let k = choose|k: int| 0 <= k < rest.len() && rest[k] == b as char;
        assert(s[k + 1] == b as char);
    }
}

/// Whether two texts are the same.
pub fn same_text(a: &str, b: &str) -> (r: bool)
    ensures
        r == (a@ == b@),
{
    let r = same_bytes(a.as_bytes(), b.as_bytes());
    proof {
        if r {
            encoding_is_injective(a@, b@);
        }
    }
    r
}

// --- Characters ---

/// The characters of `s`, in order.
pub fn chars_of(s: &str) -> (r: Vec<char>)
    ensures
        r@ == s@,
{
    let mut out: Vec<char> = Vec::new();
    for c in it: s.chars()
        invariant
            it.seq() == s@,
            out@ == s@.take(it.index() as int),
    {
        out.push(c);
        assert(out@ =~= s@.take(it.index() as int + 1));
    }
    assert(s@.take(s@.len() as int) =~= s@);
    out
}

// --- Lists of texts ---

/// The texts held by a sequence of strings.
pub open spec fn texts(v: Seq<String>) -> Seq<Seq<char>> {
    Seq::new(v.len(), |i: int| v[i]@)
}

/// The texts held by a vector of strings, if there is one.
pub open spec fn texts_option(v: Option<Vec<String>>) -> Option<Seq<Seq<char>>> {
    match v {
        Some(names) => Some(texts(names@)),
        None => None,
    }
}

/// The text held by a string, if there is one.
pub open spec fn str_option(s: Option<&str>) -> Option<Seq<char>> {
    match s {
        Some(t) => Some(t@),
        None => None,
    }
}

/// `texts` of one string more.
pub proof fn texts_push(v: Seq<String>, s: String)
    ensures
        texts(v.push(s)) == texts(v).push(s@),
{
    assert(texts(v.push(s)) =~= texts(v).push(s@));
}

/// A longer sequence holds what the shorter one held, and its last element.
pub proof fn members_push<A>(s: Seq<A>, x: A)
    ensures
        forall|y: A| s.push(x).contains(y) <==> s.contains(y) || y == x,
{
    assert forall|y: A| s.push(x).contains(y) <==> s.contains(y) || y == x by {
        if s.contains(y) {
            let k = choose|k: int| 0 <= k < s.len() && s[k] == y;
            assert(s.push(x)[k] == y);
        }
        if y == x {
            assert(s.push(x)[s.len() as int] == y);
        }
    }
}

/// The pieces of `s` between the separators `x`.
pub fn split_text(s: &str, x: char) -> (r: Vec<String>)
    ensures
        texts(r@) == split(s@, x),
{
    let mut done: Vec<String> = Vec::new();
    let mut piece: String = String::new();
    assert(texts(done@).push(piece@) =~= split(s@.take(0), x));
    for c in it: s.chars()
        invariant
            it.seq() == s@,
            texts(done@).push(piece@) == split(s@.take(it.index() as int), x),
    {
        let ghost i = it.index() as int;
        let ghost before = texts(done@).push(piece@);
        assert(s@.take(i + 1).drop_last() =~= s@.take(i));
        assert(before.drop_last() =~= texts(done@));
        assert(before.last() == piece@);
        if c == x {
            proof {
                texts_push(done@, piece);
            }
            done.push(piece);
            piece = String::new();
            assert(texts(done@).push(piece@) =~= before.push(Seq::empty()));
        } else {
            piece.push(c);
        }
    }
    proof {
        texts_push(done@, piece);
    }
    done.push(piece);
    assert(s@.take(s@.len() as int) =~= s@);
    done
}

// --- Splitting and joining ---

/// The place of the last `x` in `s`, or -1.
pub open spec fn last_at<A>(s: Seq<A>, x: A) -> int
    decreases s.len(),
{
    if s.len() == 0 {
        -1
    } else if s.last() == x {
        s.len() - 1
    } else {
        last_at(s.drop_last(), x)
    }
}

/// What follows the last `x` in `s`: all of `s` if there is none.
pub open spec fn after_last<A>(s: Seq<A>, x: A) -> Seq<A> {
    s.skip(last_at(s, x) + 1)
}

/// What `last_at` promises.
pub proof fn last_at_is_last<A>(s: Seq<A>, x: A)
    ensures
        -1 <= last_at(s, x) < s.len(),
        last_at(s, x) >= 0 ==> s[last_at(s, x)] == x,
        forall|i: int| last_at(s, x) < i < s.len() ==> s[i] != x,
    decreases s.len(),
{
    if s.len() > 0 && s.last() != x {
        last_at_is_last(s.drop_last(), x);
        assert forall|i: int| last_at(s, x) < i < s.len() implies s[i] != x by {
            if i < s.len() - 1 {
                assert(s.drop_last()[i] == s[i]);
            }
        }
    }
}

/// There is one last place.
pub proof fn last_at_is_unique<A>(s: Seq<A>, x: A, n: int)
    requires
        -1 <= n < s.len(),
        n >= 0 ==> s[n] == x,
        forall|i: int| n < i < s.len() ==> s[i] != x,
    ensures
        last_at(s, x) == n,
{
    last_at_is_last(s, x);
    if last_at(s, x) < n {
        assert(s[n] != x);
    }
    if n < last_at(s, x) {
        assert(s[last_at(s, x)] != x);
    }
}

/// The pieces of `s` between the separators `x`: one more than there are
/// separators.
pub open spec fn split<A>(s: Seq<A>, x: A) -> Seq<Seq<A>>
    decreases s.len(),
{
    if s.len() == 0 {
        seq![Seq::empty()]
    } else {
        let before = split(s.drop_last(), x);
        if s.last() == x {
            before.push(Seq::empty())
        } else {
            before.drop_last().push(before.last().push(s.last()))
        }
    }
}

/// The pieces in a row with `x` between each two.
pub open spec fn join<A>(pieces: Seq<Seq<A>>, x: A) -> Seq<A>
    decreases pieces.len(),
{
    if pieces.len() == 0 {
        Seq::empty()
    } else if pieces.len() == 1 {
        pieces[0]
    } else {
        join(pieces.drop_last(), x).push(x) + pieces.last()
    }
}

/// There is at least one piece, and no piece holds the separator.
pub proof fn split_pieces<A>(s: Seq<A>, x: A)
    ensures
        split(s, x).len() > 0,
        forall|i: int| 0 <= i < split(s, x).len() ==> !(#[trigger] split(s, x)[i]).contains(x),
    decreases s.len(),
{
    if s.len() > 0 {
        let before = split(s.drop_last(), x);
        split_pieces(s.drop_last(), x);
        assert forall|i: int| 0 <= i < split(s, x).len() implies !(#[trigger] split(
            s,
            x,
        )[i]).contains(x) by {
            if i < before.len() - 1 {
                assert(split(s, x)[i] == before[i]);
            } else if s.last() == x {
                if i == before.len() - 1 {
                    assert(split(s, x)[i] == before[i]);
                }
            } else {
                let piece = before.last().push(s.last());
                assert(split(s, x)[i] == piece);
                assert(!before[before.len() - 1].contains(x));
                assert forall|k: int| 0 <= k < piece.len() implies piece[k] != x by {
                    if k < piece.len() - 1 {
                        assert(piece[k] == before.last()[k]);
                    }
                }
            }
        }
    }
}

/// Joining the pieces gives back what was split.
pub proof fn join_of_split<A>(s: Seq<A>, x: A)
    ensures
        join(split(s, x), x) == s,
    decreases s.len(),
{
    if s.len() == 0 {
        assert(join(split(s, x), x) =~= s);
    } else {
        let before = split(s.drop_last(), x);
        let after = split(s, x);
        join_of_split(s.drop_last(), x);
        split_pieces(s.drop_last(), x);
        if s.last() == x {
            assert(after.drop_last() =~= before);
            assert(join(after, x) =~= s);
        } else {
            assert(after.drop_last() =~= before.drop_last());
            assert(join(after, x) =~= join(before, x).push(s.last()));
            assert(join(after, x) =~= s);
        }
    }
}

/// Splitting what was joined gives back the pieces, provided there is one and
/// none holds the separator.
pub proof fn split_of_join<A>(pieces: Seq<Seq<A>>, x: A)
    requires
        pieces.len() > 0,
        forall|i: int| 0 <= i < pieces.len() ==> !(#[trigger] pieces[i]).contains(x),
    ensures
        split(join(pieces, x), x) == pieces,
    decreases pieces.len(), pieces.last().len(),
{
    let s = join(pieces, x);
    let last = pieces.last();
    if last.len() > 0 {
        let shorter = pieces.drop_last().push(last.drop_last());
        assert forall|i: int| 0 <= i < shorter.len() implies !(#[trigger] shorter[i]).contains(
            x,
        ) by {
            if i < pieces.len() - 1 {
                assert(shorter[i] == pieces[i]);
            } else {
                assert(shorter[i] == last.drop_last());
                assert(!pieces[i].contains(x));
                assert forall|k: int| 0 <= k < last.drop_last().len() implies last.drop_last()[k]
                    != x by {
                    assert(last[k] == last.drop_last()[k]);
                }
            }
        }
        split_of_join(shorter, x);
        assert(shorter.drop_last() =~= pieces.drop_last());
        assert(s.drop_last() =~= join(shorter, x));
        assert(pieces[pieces.len() - 1].contains(last.last()));
        assert(s.last() == last.last());
        assert(last.drop_last().push(last.last()) =~= last);
        assert(shorter.last() == last.drop_last());
        assert(split(s, x) =~= pieces);
    } else if pieces.len() > 1 {
        let before = pieces.drop_last();
        assert forall|i: int| 0 <= i < before.len() implies !(#[trigger] before[i]).contains(x) by {
            assert(before[i] == pieces[i]);
        }
        split_of_join(before, x);
        assert(last =~= Seq::<A>::empty());
        assert(s =~= join(before, x).push(x));
        assert(s.drop_last() =~= join(before, x));
        assert(split(s, x) =~= pieces);
    } else {
        assert(s =~= Seq::<A>::empty());
        assert(split(s, x) =~= pieces);
    }
}

/// `join` of two runs of pieces.
pub proof fn join_of_concatenation<A>(a: Seq<Seq<A>>, b: Seq<Seq<A>>, x: A)
    requires
        a.len() > 0,
        b.len() > 0,
    ensures
        join(a + b, x) == join(a, x).push(x) + join(b, x),
    decreases b.len(),
{
    assert((a + b).drop_last() =~= a + b.drop_last());
    assert((a + b).last() == b.last());
    if b.len() == 1 {
        assert(a + b.drop_last() =~= a);
    } else {
        join_of_concatenation(a, b.drop_last(), x);
        assert(join(a + b, x) =~= join(a, x).push(x) + join(b, x));
    }
}

/// `join`, one piece further.
pub proof fn join_next<A>(pieces: Seq<Seq<A>>, n: int, x: A)
    requires
        0 <= n < pieces.len(),
    ensures
        n == 0 ==> join(pieces.take(1), x) == pieces[0],
        n > 0 ==> join(pieces.take(n + 1), x) == join(pieces.take(n), x).push(x) + pieces[n],
{
    if n > 0 {
        assert(pieces.take(n + 1).drop_last() =~= pieces.take(n));
    }
}

// --- Replacing each element by a text ---

/// The text got by replacing each element of `s` by `f` of it.
pub open spec fn expand<A>(s: Seq<A>, f: spec_fn(A) -> Seq<char>) -> Seq<char>
    decreases s.len(),
{
    if s.len() == 0 {
        Seq::empty()
    } else {
        expand(s.drop_last(), f) + f(s.last())
    }
}

/// `expand` works piece by piece.
pub proof fn expand_of_concatenation<A>(a: Seq<A>, b: Seq<A>, f: spec_fn(A) -> Seq<char>)
    ensures
        expand(a + b, f) == expand(a, f) + expand(b, f),
    decreases b.len(),
{
    if b.len() == 0 {
        assert(a + b =~= a);
        assert(expand(a, f) + expand(b, f) =~= expand(a, f));
    } else {
        expand_of_concatenation(a, b.drop_last(), f);
        assert((a + b).drop_last() =~= a + b.drop_last());
        assert(expand(a + b, f) =~= expand(a, f) + expand(b, f));
    }
}

/// `expand`, seen from the first element.
pub proof fn expand_from_first<A>(s: Seq<A>, f: spec_fn(A) -> Seq<char>)
    requires
        s.len() > 0,
    ensures
        expand(s, f) == f(s[0]) + expand(s.drop_first(), f),
{
    let head = seq![s[0]];
    assert(s =~= head + s.drop_first());
    expand_of_concatenation(head, s.drop_first(), f);
    assert(head.drop_last() =~= Seq::<A>::empty());
    reveal_with_fuel(expand, 2);
    assert(expand(head, f) =~= f(s[0]));
}

/// `expand`, one element further.
pub proof fn expand_next<A>(s: Seq<A>, n: int, f: spec_fn(A) -> Seq<char>)
    requires
        0 <= n < s.len(),
    ensures
        expand(s.take(n + 1), f) == expand(s.take(n), f) + f(s[n]),
{
    assert(s.take(n + 1).drop_last() =~= s.take(n));
}

/// What holds of every character of every replacement holds of the whole.
pub proof fn expand_all<A>(
    s: Seq<A>,
    f: spec_fn(A) -> Seq<char>,
    p: spec_fn(char) -> bool,
)
    requires
        forall|a: A, i: int| 0 <= i < f(a).len() ==> p(#[trigger] f(a)[i]),
    ensures
        forall|i: int| 0 <= i < expand(s, f).len() ==> p(#[trigger] expand(s, f)[i]),
    decreases s.len(),
{
    if s.len() > 0 {
        let head = expand(s.drop_last(), f);
        let tail = f(s.last());
        expand_all(s.drop_last(), f, p);
        assert forall|i: int| 0 <= i < expand(s, f).len() implies p(#[trigger] expand(s, f)[i]) by {
            if i < head.len() {
                assert(expand(s, f)[i] == head[i]);
            } else {
                assert(expand(s, f)[i] == f(s.last())[i - head.len()]);
            }
        }
    }
}

/// Where every character is replaced by itself, nothing changes.
pub proof fn expand_identity(s: Seq<char>, f: spec_fn(char) -> Seq<char>)
    requires
        forall|i: int| 0 <= i < s.len() ==> f(#[trigger] s[i]) == seq![s[i]],
    ensures
        expand(s, f) == s,
    decreases s.len(),
{
    if s.len() > 0 {
        assert forall|i: int| 0 <= i < s.drop_last().len() implies f(
            #[trigger] s.drop_last()[i],
        ) == seq![s.drop_last()[i]] by {
            assert(s.drop_last()[i] == s[i]);
        }
        expand_identity(s.drop_last(), f);
        assert(f(s[s.len() - 1]) == seq![s.last()]);
        assert(expand(s, f) =~= s);
    } else {
        assert(expand(s, f) =~= s);
    }
}

// --- Decimal numbers ---

/// The character of the decimal digit `d`.
pub open spec fn digit(d: nat) -> char {
    (48 + d) as char
}

/// `n` in decimal, without leading zeros.
pub open spec fn decimal(n: nat) -> Seq<char>
    decreases n,
{
    if n < 10 {
        seq![digit(n)]
    } else {
        decimal(n / 10).push(digit(n % 10))
    }
}

/// The number that a string of decimal digits stands for.
pub open spec fn decimal_value(s: Seq<char>) -> int
    decreases s.len(),
{
    if s.len() == 0 {
        0
    } else {
        10 * decimal_value(s.drop_last()) + (s.last() as int - 48)
    }
}

/// Appends `n` in decimal to `out`.
pub fn push_decimal(out: &mut String, n: u64)
    ensures
        final(out)@ == old(out)@ + decimal(n as nat),
    decreases n,
{
    let ghost before = out@;
    if n >= 10 {
        push_decimal(out, n / 10);
    }
    let d: u8 = 48u8 + (n % 10) as u8;
    out.push(d as char);
    assert(out@ =~= before + decimal(n as nat));
}

/// Reading a number's decimal text back gives the number.
pub proof fn decimal_reads_back(n: nat)
    ensures
        decimal_value(decimal(n)) == n,
    decreases n,
{
    if n < 10 {
        reveal_with_fuel(decimal_value, 2);
        assert(seq![digit(n)].drop_last() =~= Seq::<char>::empty());
    } else {
        decimal_reads_back(n / 10);
        assert(decimal(n).drop_last() =~= decimal(n / 10));
    }
}

/// A number's decimal text is made of digits, and there is at least one. It starts
/// with no zero but where it is one.
pub proof fn decimal_is_digits(n: nat)
    ensures
        decimal(n).len() > 0,
        forall|i: int| 0 <= i < decimal(n).len() ==> '0' <= #[trigger] decimal(n)[i] <= '9',
        decimal(n)[0] == '0' ==> n == 0 && decimal(n).len() == 1,
    decreases n,
{
    if n >= 10 {
        decimal_is_digits(n / 10);
    }
}

// --- Laws ---

/// A digit behind a number's decimal text makes ten times the number, and the
/// digit more.
pub proof fn decimal_grows_by_digits(n: nat, d: nat)
    requires
        d < 10,
    ensures
        decimal(d).len() == 1,
        decimal(d)[0] as int == '0' as int + d,
        n > 0 ==> decimal(10 * n + d) == decimal(n).push(decimal(d)[0]),
{
    if n > 0 {
        assert((10 * n + d) / 10 == n);
        assert((10 * n + d) % 10 == d);
    }
}

/// Lower-casing moves the letters from `A` to `Z` by 32 places, and nothing else.
pub proof fn lower_case_moves_capitals(b: u8, c: char)
    ensures
        b < 65 || b > 90 ==> lower_byte(b) == b,
        65 <= b <= 90 ==> lower_byte(b) == b + 32,
        c < 'A' || c > 'Z' ==> lower_char(c) == c,
        'A' <= c <= 'Z' ==> lower_char(c) as int == c as int + 32,
{
}

/// Lower-casing works on each byte and each character by itself.
pub proof fn lower_case_is_bytewise(s: Seq<u8>, t: Seq<char>, i: int)
    ensures
        lower_bytes(s).len() == s.len(),
        0 <= i < s.len() ==> lower_bytes(s)[i] == lower_byte(s[i]),
        lower_text(t).len() == t.len(),
        0 <= i < t.len() ==> lower_text(t)[i] == lower_char(t[i]),
{
}

/// What follows the last `x` holds no `x`; before it stands an `x`, or nothing.
pub proof fn after_last_is_the_end<A>(s: Seq<A>, x: A)
    ensures
        !after_last(s, x).contains(x),
        s.contains(x) ==> exists|front: Seq<A>| s == #[trigger] front.push(x) + after_last(s, x),
        !s.contains(x) ==> after_last(s, x) == s,
{
    last_at_is_last(s, x);
    let n = last_at(s, x);
    if s.contains(x) {
        let k = choose|k: int| 0 <= k < s.len() && s[k] == x;
        assert(n >= 0);
        assert(s =~= s.take(n).push(x) + after_last(s, x));
    } else {
        if n >= 0 {
            assert(s.contains(s[n]));
        }
        assert(after_last(s, x) =~= s);
    }
    assert forall|i: int| 0 <= i < after_last(s, x).len() implies after_last(s, x)[i] != x by {
        assert(after_last(s, x)[i] == s[n + 1 + i]);
    }
}

/// A sequence without the separator is one piece.
pub proof fn split_without_separator<A>(s: Seq<A>, x: A)
    requires
        !s.contains(x),
    ensures
        split(s, x) == seq![s],
    decreases s.len(),
{
    if s.len() == 0 {
        assert(s =~= Seq::empty());
    } else {
        let front = s.drop_last();
        assert forall|i: int| 0 <= i < front.len() implies front[i] != x by {
            assert(front[i] == s[i]);
        }
        split_without_separator(front, x);
        assert(s.contains(s.last()));
        assert(front.push(s.last()) =~= s);
        assert(split(s, x) =~= seq![s]);
    }
}

/// The first separator ends the first piece.
pub proof fn split_at_separator<A>(a: Seq<A>, b: Seq<A>, x: A)
    requires
        !a.contains(x),
    ensures
        split(a.push(x) + b, x) == seq![a] + split(b, x),
    decreases b.len(),
{
    let s = a.push(x) + b;
    if b.len() == 0 {
        split_without_separator(a, x);
        assert(s =~= a.push(x));
        assert(s.drop_last() =~= a);
        assert(split(s, x) =~= seq![a] + split(b, x));
    } else {
        split_at_separator(a, b.drop_last(), x);
        split_pieces(b.drop_last(), x);
        assert(s.drop_last() =~= a.push(x) + b.drop_last());
        assert(s.last() == b.last());
        assert(split(s, x) =~= seq![a] + split(b, x));
    }
}

/// The pieces of two sequences in a row are those of each, but for the two that
/// meet, which become one.
pub proof fn split_of_concatenation<A>(a: Seq<A>, b: Seq<A>, x: A)
    ensures
        split(a + b, x) == split(a, x).drop_last().push(split(a, x).last() + split(b, x)[0])
            + split(b, x).skip(1),
    decreases b.len(),
{
    let p = split(a, x);
    split_pieces(a, x);
    if b.len() == 0 {
        assert(a + b =~= a);
        assert(p.last() + split(b, x)[0] =~= p.last());
        assert(p =~= p.drop_last().push(p.last()));
        assert(split(a + b, x) =~= p.drop_last().push(p.last() + split(b, x)[0]) + split(
            b,
            x,
        ).skip(1));
    } else {
        let front = b.drop_last();
        let q = split(front, x);
        split_of_concatenation(a, front, x);
        split_pieces(front, x);
        let whole = p.drop_last().push(p.last() + q[0]) + q.skip(1);
        assert((a + b).drop_last() =~= a + front);
        assert((a + b).last() == b.last());
        if b.last() == x {
            assert(split(a + b, x) =~= p.drop_last().push(p.last() + split(b, x)[0]) + split(
                b,
                x,
            ).skip(1));
        } else {
            let r = split(b, x);
            assert(r =~= q.drop_last().push(q.last().push(b.last())));
            if q.len() == 1 {
                assert(whole.last() == p.last() + q[0]);
                assert((p.last() + q[0]).push(b.last()) =~= p.last() + r[0]);
            } else {
                assert(whole.last() == q.last());
                assert(r[0] == q[0]);
            }
            assert(split(a + b, x) =~= p.drop_last().push(p.last() + r[0]) + r.skip(1));
        }
    }
}

/// A single piece is joined to itself, and no piece to nothing.
pub proof fn join_of_one<A>(piece: Seq<A>, x: A)
    ensures
        join(seq![piece], x) == piece,
        join(Seq::<Seq<A>>::empty(), x).len() == 0,
{
}

/// A single element is replaced by its text, and none by nothing.
pub proof fn expand_of_one<A>(a: A, f: spec_fn(A) -> Seq<char>)
    ensures
        expand(seq![a], f) == f(a),
        expand(Seq::<A>::empty(), f).len() == 0,
{
    assert(seq![a].drop_last() =~= Seq::<A>::empty());
    reveal_with_fuel(expand, 2);
    assert(expand(seq![a], f) =~= f(a));
}

/// The texts of strings are theirs, one for one.
pub proof fn texts_are_those_of_the_strings(v: Seq<String>, i: int)
    ensures
        texts(v).len() == v.len(),
        0 <= i < v.len() ==> texts(v)[i] == v[i]@,
{
}

/// Text without the separator lengthens the last piece.
pub proof fn split_grows<A>(t: Seq<A>, done: Seq<Seq<A>>, last: Seq<A>, more: Seq<A>, x: A)
    requires
        split(t, x) == done.push(last),
        !more.contains(x),
    ensures
        split(t + more, x) == done.push(last + more),
{
    split_of_concatenation(t, more, x);
    split_without_separator(more, x);
    assert(done.push(last).drop_last() =~= done);
    assert(split(t + more, x) =~= done.push(last + more));
}

/// Text with separators ends the last piece and begins others.
pub proof fn split_continues<A>(
    t: Seq<A>,
    done: Seq<Seq<A>>,
    last: Seq<A>,
    more: Seq<A>,
    pieces: Seq<Seq<A>>,
    x: A,
)
    requires
        split(t, x) == done.push(last),
        split(more, x) == pieces,
    ensures
        split(t + more, x) == done.push(last + pieces[0]) + pieces.skip(1),
{
    split_of_concatenation(t, more, x);
    assert(done.push(last).drop_last() =~= done);
}

} // verus!
