//! Small string and byte helpers shared by the lexer, parser and compiler.
use vstd::prelude::*;
use vstd::string::StringExecFns;

verus! {

/// `String::push` from std: appends one character.
#[verifier::external_body]
pub fn push_char(s: &mut String, c: char)
    ensures
        final(s)@ == old(s)@.push(c),
{
    s.push(c);
}

/// Each byte read as the character with the same code point (Latin-1 reading).
pub open spec fn bytes_as_chars(b: Seq<u8>) -> Seq<char> {
    Seq::new(b.len(), |i: int| b[i] as char)
}

pub proof fn lemma_bytes_as_chars_push(b: Seq<u8>, x: u8)
    ensures
        bytes_as_chars(b.push(x)) == bytes_as_chars(b).push(x as char),
{
    assert(bytes_as_chars(b.push(x)) =~= bytes_as_chars(b).push(x as char));
}

/// Builds a string whose characters are the given bytes, one character per byte.
pub fn string_from_bytes(b: &[u8]) -> (r: String)
    ensures
        r@ == bytes_as_chars(b@),
{
    let mut s = String::new();
    let mut i: usize = 0;
    while i < b.len()
        invariant
            i <= b@.len(),
            s@ == bytes_as_chars(b@.subrange(0, i as int)),
        decreases b@.len() - i,
    {
        let c = b[i] as char;
        push_char(&mut s, c);
        proof {
            lemma_bytes_as_chars_push(b@.subrange(0, i as int), b@[i as int]);
            assert(b@.subrange(0, i as int).push(b@[i as int]) =~= b@.subrange(0, i + 1));
        }
        i = i + 1;
    }
    assert(b@.subrange(0, b@.len() as int) =~= b@);
    s
}

/// The decimal digit character for `d < 10`.
pub open spec fn digit_char(d: nat) -> char {
    ((d + 48) as u8) as char
}

/// The decimal notation of `n`, without leading zeros.
pub open spec fn decimal(n: nat) -> Seq<char>
    decreases n,
{
    if n < 10 {
        seq![digit_char(n)]
    } else {
        decimal(n / 10).push(digit_char(n % 10))
    }
}

/// Writes `n` in decimal.
pub fn usize_to_string(n: usize) -> (r: String)
    ensures
        r@ == decimal(n as nat),
    decreases n,
{
    if n < 10 {
        let mut s = String::new();
        let d = (n as u8 + 48u8) as char;
        push_char(&mut s, d);
        assert(s@ =~= decimal(n as nat));
        s
    } else {
        let mut s = usize_to_string(n / 10);
        let d = ((n % 10) as u8 + 48u8) as char;
        push_char(&mut s, d);
        s
    }
}

/// Concatenates three pieces of text.
pub fn concat3(a: &str, b: &str, c: &str) -> (r: String)
    ensures
        r@ == a@ + b@ + c@,
{
    let s = String::from_str(a);
    let s = s.concat(b);
    s.concat(c)
}

/// Lexicographic order on byte sequences, as `Ord` for `str` orders UTF-8 text.
pub open spec fn bytes_lt(a: Seq<u8>, b: Seq<u8>) -> bool
    decreases a.len(),
{
    if a.len() == 0 {
        b.len() > 0
    } else if b.len() == 0 {
        false
    } else if a[0] != b[0] {
        a[0] < b[0]
    } else {
        bytes_lt(a.drop_first(), b.drop_first())
    }
}

/// The UTF-8 encoding of a character sequence.
pub open spec fn utf8(s: Seq<char>) -> Seq<u8> {
    vstd::utf8::encode_utf8(s)
}

/// Text order: the order of the UTF-8 encodings.
pub open spec fn text_lt(a: Seq<char>, b: Seq<char>) -> bool {
    bytes_lt(utf8(a), utf8(b))
}

pub proof fn lemma_utf8_injective(a: Seq<char>, b: Seq<char>)
    ensures
        utf8(a) == utf8(b) <==> a == b,
{
    vstd::utf8::encode_utf8_decode_utf8(a);
    vstd::utf8::encode_utf8_decode_utf8(b);
}

pub proof fn lemma_bytes_lt_irreflexive(a: Seq<u8>)
    ensures
        !bytes_lt(a, a),
    decreases a.len(),
{
    if a.len() > 0 {
        lemma_bytes_lt_irreflexive(a.drop_first());
    }
}

pub proof fn lemma_bytes_lt_total(a: Seq<u8>, b: Seq<u8>)
    ensures
        a != b ==> (bytes_lt(a, b) || bytes_lt(b, a)),
        !(bytes_lt(a, b) && bytes_lt(b, a)),
    decreases a.len(),
{
    if a.len() > 0 && b.len() > 0 {
        lemma_bytes_lt_total(a.drop_first(), b.drop_first());
        if a[0] == b[0] && a != b {
            assert(a =~= seq![a[0]] + a.drop_first());
            assert(b =~= seq![b[0]] + b.drop_first());
        }
    } else if a.len() == 0 && b.len() == 0 {
        assert(a =~= b);
    }
}

pub proof fn lemma_bytes_lt_transitive(a: Seq<u8>, b: Seq<u8>, c: Seq<u8>)
    requires
        bytes_lt(a, b),
        bytes_lt(b, c),
    ensures
        bytes_lt(a, c),
    decreases a.len(),
{
    if a.len() > 0 && b.len() > 0 && c.len() > 0 {
        if a[0] == b[0] && b[0] == c[0] {
            lemma_bytes_lt_transitive(a.drop_first(), b.drop_first(), c.drop_first());
        }
    }
}

/// Compares two byte strings: `-1` when `a` sorts first, `0` when equal, `1` otherwise.
pub fn bytes_order(a: &[u8], b: &[u8]) -> (r: i8)
    ensures
        r == 0 <==> a@ == b@,
        r < 0 <==> bytes_lt(a@, b@),
        r > 0 <==> bytes_lt(b@, a@),
{
    let mut i: usize = 0;
    while i < a.len() && i < b.len() && a[i] == b[i]
        invariant
            i <= a@.len(),
            i <= b@.len(),
            a@.subrange(0, i as int) == b@.subrange(0, i as int),
        decreases a@.len() - i,
    {
        assert(a@.subrange(0, i + 1) =~= a@.subrange(0, i as int).push(a@[i as int]));
        assert(b@.subrange(0, i + 1) =~= b@.subrange(0, i as int).push(b@[i as int]));
        i = i + 1;
    }
    proof {
        lemma_bytes_lt_suffix(a@, b@, i as int);
        lemma_bytes_lt_total(a@, b@);
        lemma_bytes_lt_irreflexive(a@);
    }
    if i < a.len() && i < b.len() {
        if a[i] < b[i] {
            -1
        } else {
            1
        }
    } else if i < a.len() {
        1
    } else if i < b.len() {
        -1
    } else {
        assert(a@ =~= a@.subrange(0, i as int));
        assert(b@ =~= b@.subrange(0, i as int));
        0
    }
}

/// Dropping a common prefix does not change the order.
pub proof fn lemma_bytes_lt_suffix(a: Seq<u8>, b: Seq<u8>, i: int)
    requires
        0 <= i <= a.len(),
        i <= b.len(),
        a.subrange(0, i) == b.subrange(0, i),
    ensures
        bytes_lt(a, b) == bytes_lt(a.subrange(i, a.len() as int), b.subrange(i, b.len() as int)),
        bytes_lt(b, a) == bytes_lt(b.subrange(i, b.len() as int), a.subrange(i, a.len() as int)),
    decreases i,
{
    if i > 0 {
        assert(a[0] == a.subrange(0, i)[0]);
        assert(b[0] == b.subrange(0, i)[0]);
        assert(a.drop_first().subrange(0, i - 1) =~= a.subrange(0, i).drop_first());
        assert(b.drop_first().subrange(0, i - 1) =~= b.subrange(0, i).drop_first());
        lemma_bytes_lt_suffix(a.drop_first(), b.drop_first(), i - 1);
        assert(a.drop_first().subrange(i - 1, a.len() - 1) =~= a.subrange(i, a.len() as int));
        assert(b.drop_first().subrange(i - 1, b.len() - 1) =~= b.subrange(i, b.len() as int));
    } else {
        assert(a.subrange(0, a.len() as int) =~= a);
        assert(b.subrange(0, b.len() as int) =~= b);
    }
}

/// Whether two strings hold the same text.
pub fn str_eq(a: &str, b: &str) -> (r: bool)
    ensures
        r == (a@ == b@),
{
    let x = a.as_bytes();
    let y = b.as_bytes();
    proof {
        lemma_utf8_injective(a@, b@);
    }
    bytes_order(x, y) == 0
}

} // verus!

verus! {

/// Appends the bytes of `src` to `dst`.
pub fn append_bytes(dst: &mut Vec<u8>, src: &[u8])
    ensures
        final(dst)@ == old(dst)@ + src@,
{
    let mut i: usize = 0;
    while i < src.len()
        invariant
            i <= src@.len(),
            dst@ == old(dst)@ + src@.subrange(0, i as int),
        decreases src@.len() - i,
    {
        dst.push(src[i]);
        assert(old(dst)@ + src@.subrange(0, i + 1) =~= old(dst)@ + src@.subrange(0, i as int) + seq![src@[i as int]]);
        i = i + 1;
    }
    assert(src@.subrange(0, src@.len() as int) =~= src@);
}

/// A copy of a byte slice.
pub fn copy_bytes(src: &[u8]) -> (r: Vec<u8>)
    ensures
        r@ == src@,
{
    let mut v: Vec<u8> = Vec::new();
    append_bytes(&mut v, src);
    assert(Seq::<u8>::empty() + src@ =~= src@);
    v
}


/// The texts of a list of strings.
pub open spec fn texts(v: Seq<String>) -> Seq<Seq<char>> {
    Seq::new(v.len(), |i: int| v[i]@)
}

/// Strictly increasing in text order (so no text occurs twice).
pub open spec fn strictly_sorted(s: Seq<Seq<char>>) -> bool {
    forall|i: int, j: int| 0 <= i < j < s.len() ==> text_lt(#[trigger] s[i], #[trigger] s[j])
}

/// The first position from `i` whose text does not sort before `x`.
pub open spec fn text_pos(s: Seq<Seq<char>>, x: Seq<char>, i: int) -> int
    decreases s.len() - i,
{
    if i < 0 || i >= s.len() {
        s.len() as int
    } else if !text_lt(s[i], x) {
        i
    } else {
        text_pos(s, x, i + 1)
    }
}

pub proof fn lemma_text_pos(s: Seq<Seq<char>>, x: Seq<char>, i: int)
    requires
        0 <= i <= s.len(),
        forall|j: int| 0 <= j < i ==> text_lt(#[trigger] s[j], x),
    ensures
        i <= text_pos(s, x, i) <= s.len(),
        forall|j: int| 0 <= j < text_pos(s, x, i) ==> text_lt(#[trigger] s[j], x),
        text_pos(s, x, i) < s.len() ==> !text_lt(s[text_pos(s, x, i)], x),
    decreases s.len() - i,
{
    if i < s.len() && text_lt(s[i], x) {
        lemma_text_pos(s, x, i + 1);
    }
}

/// Inserting a new text at its position keeps a sorted list sorted.
pub proof fn lemma_text_insert(s: Seq<Seq<char>>, x: Seq<char>)
    requires
        strictly_sorted(s),
        !s.contains(x),
    ensures
        strictly_sorted(s.insert(text_pos(s, x, 0), x)),
{
    lemma_text_pos(s, x, 0);
    let p = text_pos(s, x, 0);
    let t = s.insert(p, x);
    assert forall|i: int, j: int| 0 <= i < j < t.len() implies text_lt(#[trigger] t[i], #[trigger] t[j]) by {
        if p < s.len() {
            lemma_utf8_injective(s[p], x);
            lemma_bytes_lt_total(utf8(s[p]), utf8(x));
            assert(s[p] != x);
        }
        if i < p && j == p {
        } else if i < p && j > p {
            assert(t[j] == s[j - 1]);
            if j - 1 > i {
            }
        } else if i == p {
            assert(t[j] == s[j - 1]);
            if j - 1 > p {
                lemma_bytes_lt_transitive(utf8(x), utf8(s[p]), utf8(s[j - 1]));
            }
        } else if i > p {
            assert(t[i] == s[i - 1]);
            assert(t[j] == s[j - 1]);
        }
        if i < p && j > p && p < s.len() {
            lemma_bytes_lt_transitive(utf8(s[i]), utf8(x), utf8(s[p]));
            if j - 1 > p {
                lemma_bytes_lt_transitive(utf8(s[i]), utf8(s[p]), utf8(s[j - 1]));
            }
        }
    }
}

/// The distinct texts of a list, in text order.
pub fn sort_dedup(v: &Vec<String>) -> (r: Vec<String>)
    ensures
        strictly_sorted(texts(r@)),
        forall|x: Seq<char>| texts(r@).contains(x) <==> texts(v@).contains(x),
{
    let mut out: Vec<String> = Vec::new();
    let mut k: usize = 0;
    while k < v.len()
        invariant
            k <= v@.len(),
            strictly_sorted(texts(out@)),
            forall|x: Seq<char>| texts(out@).contains(x) <==> texts(v@).subrange(0, k as int).contains(x),
        decreases v@.len() - k,
    {
        let x = &v[k];
        let ghost s = texts(out@);
        let mut p: usize = 0;
        proof {
            lemma_text_pos(s, x@, 0);
        }
        while p < out.len() && bytes_order(out[p].as_str().as_bytes(), x.as_str().as_bytes()) < 0
            invariant
                p <= out@.len(),
                s == texts(out@),
                text_pos(s, x@, p as int) == text_pos(s, x@, 0),
            decreases out@.len() - p,
        {
            p = p + 1;
        }
        let ghost before = texts(v@).subrange(0, k as int);
        let ghost after = before.push(x@);
        assert(texts(v@).subrange(0, k + 1) =~= after);
        if p < out.len() && bytes_order(out[p].as_str().as_bytes(), x.as_str().as_bytes()) == 0 {
            proof {
                lemma_utf8_injective(out@[p as int]@, x@);
                assert(s[p as int] == x@);
                assert forall|y: Seq<char>| texts(out@).contains(y) <==> after.contains(y) by {
                    if y == x@ {
                        assert(after[k as int] == y);
                    }
                    if after.contains(y) && y != x@ {
                        let q = choose|q: int| 0 <= q < k + 1 && after[q] == y;
                        assert(before[q] == y);
                    }
                    if texts(out@).contains(y) {
                        assert(before.contains(y));
                        let q = choose|q: int| 0 <= q < k && before[q] == y;
                        assert(after[q] == y);
                    }
                }
            }
        } else {
            proof {
                assert(!s.contains(x@)) by {
                    if s.contains(x@) {
                        let q = choose|q: int| 0 <= q < s.len() && s[q] == x@;
                        lemma_bytes_lt_irreflexive(utf8(x@));
                        if q < p {
                        } else if q > p {
                            assert(text_lt(s[p as int], s[q]));
                            lemma_utf8_injective(s[p as int], x@);
                            lemma_bytes_lt_total(utf8(s[p as int]), utf8(x@));
                        }
                    }
                }
                lemma_text_insert(s, x@);
            }
            let c = x.clone();
            out.insert(p, c);
            proof {
                assert(texts(out@) =~= s.insert(p as int, x@));
                assert forall|y: Seq<char>| texts(out@).contains(y) <==> after.contains(y) by {
                    if y == x@ {
                        assert(texts(out@)[p as int] == y);
                        assert(after[k as int] == y);
                    } else {
                        if texts(out@).contains(y) {
                            let q = choose|q: int| 0 <= q < texts(out@).len() && texts(out@)[q] == y;
                            if q < p {
                                assert(s[q] == y);
                            } else {
                                assert(s[q - 1] == y);
                            }
                            assert(s.contains(y));
                            assert(before.contains(y));
                            let q2 = choose|q2: int| 0 <= q2 < k && before[q2] == y;
                            assert(after[q2] == y);
                        }
                        if after.contains(y) {
                            let q = choose|q: int| 0 <= q < k + 1 && after[q] == y;
                            assert(before[q] == y);
                            assert(s.contains(y));
                            let q2 = choose|q2: int| 0 <= q2 < s.len() && s[q2] == y;
                            if q2 < p {
                                assert(texts(out@)[q2] == y);
                            } else {
                                assert(texts(out@)[q2 + 1] == y);
                            }
                        }
                    }
                }
            }
        }
        k = k + 1;
    }
    assert(texts(v@).subrange(0, k as int) =~= texts(v@));
    out
}

} // verus!
