//! The order of keys and small tools for text.

use vstd::prelude::*;
use vstd::utf8::*;

verus! {

/// How one key stands relative to another in the key order.
#[derive(Clone, Copy, Debug, PartialEq, Eq, Structural)]
pub enum KeyOrder {
    Before,
    Same,
    After,
}

/// Lexicographic order on byte strings: `a` comes strictly before `b` when, at
/// the first position where they differ, `a` has the smaller byte, or when `a`
/// is a proper prefix of `b`.
pub open spec fn bytes_before(a: Seq<u8>, b: Seq<u8>) -> bool {
    exists|k: int|
        0 <= k <= a.len() && k < b.len() && #[trigger] a.take(k) == b.take(k) && (k == a.len()
            || a[k] < b[k])
}

/// The order in which keys are sorted and searched: lexicographic on the UTF-8
/// encoding, which is how `str` values compare.
pub open spec fn key_before(a: Seq<char>, b: Seq<char>) -> bool {
    bytes_before(encode_utf8(a), encode_utf8(b))
}

/// No byte string comes before itself.
pub proof fn lemma_bytes_before_irreflexive(a: Seq<u8>)
    ensures
        !bytes_before(a, a),
{
}

/// The byte order is transitive.
pub proof fn lemma_bytes_before_transitive(a: Seq<u8>, b: Seq<u8>, c: Seq<u8>)
    requires
        bytes_before(a, b),
        bytes_before(b, c),
    ensures
        bytes_before(a, c),
{
    let k1 = choose|k: int|
        0 <= k <= a.len() && k < b.len() && #[trigger] a.take(k) == b.take(k) && (k == a.len()
            || a[k] < b[k]);
    let k2 = choose|k: int|
        0 <= k <= b.len() && k < c.len() && #[trigger] b.take(k) == c.take(k) && (k == b.len()
            || b[k] < c[k]);
    let k = if k1 <= k2 { k1 } else { k2 };
    assert forall|j: int| 0 <= j < k implies a[j] == c[j] by {
        assert(a.take(k1)[j] == b.take(k1)[j]);
        assert(b.take(k2)[j] == c.take(k2)[j]);
    }
    assert(a.take(k) =~= c.take(k));
    if k1 < k2 {
        assert(b.take(k2)[k1] == c.take(k2)[k1]);
    } else if k2 < k1 {
        assert(a.take(k1)[k2] == b.take(k1)[k2]);
    }
}

/// Two keys with the same encoding are the same key.
pub proof fn lemma_encoding_injective(a: Seq<char>, b: Seq<char>)
    requires
        encode_utf8(a) == encode_utf8(b),
    ensures
        a == b,
{
    encode_utf8_decode_utf8(a);
    encode_utf8_decode_utf8(b);
}

/// No key comes before itself.
pub proof fn lemma_key_before_irreflexive(a: Seq<char>)
    ensures
        !key_before(a, a),
{
    lemma_bytes_before_irreflexive(encode_utf8(a));
}

/// The key order is transitive.
pub proof fn lemma_key_before_transitive(a: Seq<char>, b: Seq<char>, c: Seq<char>)
    requires
        key_before(a, b),
        key_before(b, c),
    ensures
        key_before(a, c),
{
    lemma_bytes_before_transitive(encode_utf8(a), encode_utf8(b), encode_utf8(c));
}

/// Of two keys, at most one comes before the other.
pub proof fn lemma_key_before_asymmetric(a: Seq<char>, b: Seq<char>)
    requires
        key_before(a, b),
    ensures
        !key_before(b, a),
        a != b,
{
    if key_before(b, a) {
        lemma_key_before_transitive(a, b, a);
    }
    lemma_key_before_irreflexive(a);
}

/// Keys of plain ASCII characters are ordered as their characters are: `a`
/// comes before `b` where the two agree in their first `k` characters and
/// then `a` ends while `b` goes on, or `a` has the smaller character.
pub proof fn law_ascii_keys_in_character_order(a: Seq<char>, b: Seq<char>, k: int)
    requires
        is_ascii_chars(a),
        is_ascii_chars(b),
        0 <= k <= a.len(),
        k < b.len(),
        a.take(k) == b.take(k),
        k == a.len() || (a[k] as u32) < (b[k] as u32),
    ensures
        key_before(a, b),
{
    is_ascii_chars_encode_utf8(a);
    is_ascii_chars_encode_utf8(b);
    let x = encode_utf8(a);
    let y = encode_utf8(b);
    assert forall|j: int| 0 <= j < k implies x[j] == y[j] by {
        assert(a.take(k)[j] == a[j]);
        assert(b.take(k)[j] == b[j]);
        assert(a[j] == b[j]);
        assert(x[j] == a[j] as u8);
        assert(y[j] == b[j] as u8);
    }
    assert(x.take(k) =~= y.take(k));
    if k < a.len() {
        is_ascii_chars_nat_bound(a);
        is_ascii_chars_nat_bound(b);
        assert(x[k] == a[k] as u8);
        assert(y[k] == b[k] as u8);
        assert((a[k] as nat) < 128 && (b[k] as nat) < 128);
        assert(x[k] < y[k]);
    }
}

/// Compares two byte strings in lexicographic order.
pub fn compare_bytes(a: &[u8], b: &[u8]) -> (order: KeyOrder)
    ensures
        order == KeyOrder::Before <==> bytes_before(a@, b@),
        order == KeyOrder::Same <==> a@ == b@,
        order == KeyOrder::After <==> bytes_before(b@, a@),
{
    let mut i: usize = 0;
    while i < a.len() && i < b.len() && a[i] == b[i]
        invariant
            i <= a.len(),
            i <= b.len(),
            forall|j: int| 0 <= j < i ==> a@[j] == b@[j],
        decreases a.len() - i,
    {
        i += 1;
    }
    proof {
        assert(a@.take(i as int) =~= b@.take(i as int));
        lemma_bytes_before_irreflexive(a@);
        // Any witness of an order between the two lies at the first difference.
        assert forall|k: int|
            0 <= k <= a@.len() && k < b@.len() && #[trigger] a@.take(k) == b@.take(k) && (k
                == a@.len() || a@[k] < b@[k]) implies k == i by {
            if k < i {
                assert(a@[k] == b@[k]);
            } else if k > i {
                assert(a@.take(k)[i as int] == b@.take(k)[i as int]);
            }
        }
        assert forall|k: int|
            0 <= k <= b@.len() && k < a@.len() && #[trigger] b@.take(k) == a@.take(k) && (k
                == b@.len() || b@[k] < a@[k]) implies k == i by {
            if k < i {
                assert(a@[k] == b@[k]);
            } else if k > i {
                assert(b@.take(k)[i as int] == a@.take(k)[i as int]);
            }
        }
    }
    if i == a.len() {
        if i == b.len() {
            assert(a@ =~= b@);
            KeyOrder::Same
        } else {
            KeyOrder::Before
        }
    } else if i == b.len() {
        KeyOrder::After
    } else if a[i] < b[i] {
        KeyOrder::Before
    } else {
        KeyOrder::After
    }
}

/// Compares two keys in the key order.
pub fn compare_keys(a: &str, b: &str) -> (order: KeyOrder)
    ensures
        order == KeyOrder::Before <==> key_before(a@, b@),
        order == KeyOrder::Same <==> a@ == b@,
        order == KeyOrder::After <==> key_before(b@, a@),
{
    proof {
        if encode_utf8(a@) == encode_utf8(b@) {
            lemma_encoding_injective(a@, b@);
        }
    }
    compare_bytes(a.as_bytes(), b.as_bytes())
}

/// The characters of `text`, in order.
pub fn chars_of(text: &str) -> (chars: Vec<char>)
    ensures
        chars@ == text@,
{
    let mut chars: Vec<char> = Vec::new();
    for c in it: text.chars()
        invariant
            it.seq() == text@,
            chars@ == text@.take(it.index()),
    {
        chars.push(c);
        assert(text@.take(it.index() + 1) =~= text@.take(it.index()).push(c));
    }
    assert(text@.take(text@.len() as int) =~= text@);
    chars
}

/// The position of the first `c` in `text` at or after `from`, or -1 where
/// there is none.
pub open spec fn first_position(text: Seq<char>, c: char, from: int) -> int
    decreases text.len() - from,
{
    if from >= text.len() {
        -1
    } else if text[from] == c {
        from
    } else {
        first_position(text, c, from + 1)
    }
}

/// Where `c` first stands in `chars` at or after `from`.
pub fn find_char(chars: &Vec<char>, c: char, from: usize) -> (place: Option<usize>)
    ensures
        match place {
            Some(i) => from <= i < chars@.len() && i == first_position(chars@, c, from as int),
            None => first_position(chars@, c, from as int) == -1,
        },
{
    let mut i: usize = from;
    while i < chars.len() && chars[i] != c
        invariant
            from <= i,
            first_position(chars@, c, from as int) == first_position(chars@, c, i as int),
        decreases chars.len() - i,
    {
        i += 1;
    }
    if i < chars.len() {
        Some(i)
    } else {
        None
    }
}

} // verus!
