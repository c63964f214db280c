use vstd::prelude::*;
use vstd::utf8::{
    encode_scalar, encode_utf8, has_width_1_encoding, has_width_2_encoding, has_width_3_encoding,
    has_width_4_encoding, last_continuation_byte, leading_byte_width_1, leading_byte_width_2,
    leading_byte_width_3, leading_byte_width_4, second_last_continuation_byte,
    third_last_continuation_byte,
};

verus! {

/// Strict lexicographic order on byte strings: the order in which `String`
/// and `str` compare (byte by byte over their UTF-8 encoding).
pub open spec fn bytes_lt(a: Seq<u8>, b: Seq<u8>) -> bool
    decreases a.len(),
{
    if a.len() == 0 {
        b.len() > 0
    } else if b.len() == 0 {
        false
    } else if a[0] == b[0] {
        bytes_lt(a.drop_first(), b.drop_first())
    } else {
        a[0] < b[0]
    }
}

/// Strict order on names (character sequences), by their UTF-8 bytes.
pub open spec fn name_lt(a: Seq<char>, b: Seq<char>) -> bool {
    bytes_lt(encode_utf8(a), encode_utf8(b))
}

/// No byte string precedes itself.
pub proof fn lemma_bytes_lt_irreflexive(a: Seq<u8>)
    ensures
        !bytes_lt(a, a),
    decreases a.len(),
{
    if a.len() > 0 {
        lemma_bytes_lt_irreflexive(a.drop_first());
    }
}

/// Of two different byte strings, exactly one precedes the other.
pub proof fn lemma_bytes_lt_total(a: Seq<u8>, b: Seq<u8>)
    ensures
        a != b ==> (bytes_lt(a, b) || bytes_lt(b, a)),
        !(bytes_lt(a, b) && bytes_lt(b, a)),
    decreases a.len(),
{
    if a.len() == 0 || b.len() == 0 {
        if a.len() == 0 && b.len() == 0 {
            assert(a =~= b);
        }
    } else if a[0] == b[0] {
        lemma_bytes_lt_total(a.drop_first(), b.drop_first());
        if a != b {
            assert(a.drop_first() != b.drop_first()) by {
                if a.drop_first() == b.drop_first() {
                    assert(a =~= seq![a[0]] + a.drop_first());
                    assert(b =~= seq![b[0]] + b.drop_first());
                }
            }
        }
    }
}

/// The order on byte strings is transitive.
pub proof fn lemma_bytes_lt_transitive(a: Seq<u8>, b: Seq<u8>, c: Seq<u8>)
    requires
        bytes_lt(a, b),
        bytes_lt(b, c),
    ensures
        bytes_lt(a, c),
    decreases a.len(),
{
    if a.len() > 0 && b.len() > 0 && c.len() > 0 {
        if a[0] == b[0] && b[0] == c[0] {
            lemma_bytes_lt_transitive(a.drop_first(), b.drop_first(), c.drop_first());
        }
    }
}

/// Two names are equal exactly when their UTF-8 encodings are.
pub proof fn lemma_encode_injective(a: Seq<char>, b: Seq<char>)
    ensures
        (encode_utf8(a) == encode_utf8(b)) == (a == b),
{
    vstd::utf8::encode_utf8_decode_utf8(a);
    vstd::utf8::encode_utf8_decode_utf8(b);
}

/// No name precedes itself.
pub proof fn lemma_name_lt_irreflexive(a: Seq<char>)
    ensures
        !name_lt(a, a),
{
    lemma_bytes_lt_irreflexive(encode_utf8(a));
}

/// Of two different names, exactly one precedes the other.
pub proof fn lemma_name_lt_total(a: Seq<char>, b: Seq<char>)
    ensures
        a != b ==> (name_lt(a, b) || name_lt(b, a)),
        !(name_lt(a, b) && name_lt(b, a)),
{
    lemma_encode_injective(a, b);
    lemma_bytes_lt_total(encode_utf8(a), encode_utf8(b));
}

/// The order on names is transitive.
pub proof fn lemma_name_lt_transitive(a: Seq<char>, b: Seq<char>, c: Seq<char>)
    requires
        name_lt(a, b),
        name_lt(b, c),
    ensures
        name_lt(a, c),
{
    lemma_bytes_lt_transitive(encode_utf8(a), encode_utf8(b), encode_utf8(c));
}

/// Byte strings are ordered by their first differing byte: where `a` and `b`
/// agree on the first `i` bytes and differ at byte `i`, `a` comes first exactly
/// when its byte there is the smaller unsigned value.
pub proof fn law_bytes_lt_first_difference(a: Seq<u8>, b: Seq<u8>, i: int)
    requires
        0 <= i < a.len(),
        i < b.len(),
        forall|j: int| 0 <= j < i ==> a[j] == b[j],
        a[i] != b[i],
    ensures
        bytes_lt(a, b) <==> a[i] < b[i],
    decreases i,
{
    if i > 0 {
        law_bytes_lt_first_difference(a.drop_first(), b.drop_first(), i - 1);
        assert(a[0] == b[0]);
    }
}

/// A byte string that is a proper prefix of another comes first, and no byte
/// string comes before one of its own prefixes.
pub proof fn law_bytes_lt_prefix(a: Seq<u8>, b: Seq<u8>)
    requires
        a.len() <= b.len(),
        forall|j: int| 0 <= j < a.len() ==> a[j] == b[j],
    ensures
        a.len() < b.len() ==> bytes_lt(a, b),
        !bytes_lt(b, a),
    decreases a.len(),
{
    if a.len() > 0 {
        law_bytes_lt_prefix(a.drop_first(), b.drop_first());
    }
}

/// The encoding of a concatenation is the concatenation of the encodings.
pub proof fn lemma_encode_concat(p: Seq<char>, q: Seq<char>)
    ensures
        encode_utf8(p + q) == encode_utf8(p) + encode_utf8(q),
    decreases p.len(),
{
    if p.len() == 0 {
        assert(p + q =~= q);
        assert(encode_utf8(p) + encode_utf8(q) =~= encode_utf8(q));
    } else {
        assert((p + q).drop_first() =~= p.drop_first() + q);
        lemma_encode_concat(p.drop_first(), q);
        assert(encode_utf8(p + q) =~= encode_utf8(p) + encode_utf8(q));
    }
}

proof fn lemma_lead_ranges(x: u32)
    by (bit_vector)
    ensures
        has_width_1_encoding(x) ==> leading_byte_width_1(x) <= 0x7F,
        has_width_2_encoding(x) ==> 0xC0 <= leading_byte_width_2(x) <= 0xDF,
        has_width_3_encoding(x) ==> 0xE0 <= leading_byte_width_3(x) <= 0xEF,
        has_width_4_encoding(x) ==> 0xF0 <= leading_byte_width_4(x),
{
}

proof fn lemma_width_1_order(x: u32, y: u32)
    by (bit_vector)
    requires
        x < y,
        y <= 0x7F,
    ensures
        leading_byte_width_1(x) < leading_byte_width_1(y),
{
}

proof fn lemma_width_2_order(x: u32, y: u32)
    by (bit_vector)
    requires
        0x80 <= x,
        x < y,
        y <= 0x7FF,
    ensures
        leading_byte_width_2(x) < leading_byte_width_2(y) || (leading_byte_width_2(x)
            == leading_byte_width_2(y) && last_continuation_byte(x) < last_continuation_byte(y)),
{
}

proof fn lemma_width_3_order(x: u32, y: u32)
    by (bit_vector)
    requires
        0x800 <= x,
        x < y,
        y <= 0xFFFF,
    ensures
        leading_byte_width_3(x) < leading_byte_width_3(y) || (leading_byte_width_3(x)
            == leading_byte_width_3(y) && (second_last_continuation_byte(x)
            < second_last_continuation_byte(y) || (second_last_continuation_byte(x)
            == second_last_continuation_byte(y) && last_continuation_byte(x)
            < last_continuation_byte(y)))),
{
}

proof fn lemma_width_4_order(x: u32, y: u32)
    by (bit_vector)
    requires
        0x10000 <= x,
        x < y,
        y <= 0x10FFFF,
    ensures
        leading_byte_width_4(x) < leading_byte_width_4(y) || (leading_byte_width_4(x)
            == leading_byte_width_4(y) && (third_last_continuation_byte(x)
            < third_last_continuation_byte(y) || (third_last_continuation_byte(x)
            == third_last_continuation_byte(y) && (second_last_continuation_byte(x)
            < second_last_continuation_byte(y) || (second_last_continuation_byte(x)
            == second_last_continuation_byte(y) && last_continuation_byte(x)
            < last_continuation_byte(y)))))),
{
}

/// For characters `x < y`, the encodings first differ at a byte where the
/// encoding of `x` has the smaller value.
proof fn lemma_scalar_order(x: char, y: char) -> (k: int)
    requires
        (x as u32) < (y as u32),
    ensures
        0 <= k < encode_scalar(x as u32).len(),
        k < encode_scalar(y as u32).len(),
        forall|j: int| 0 <= j < k ==> #[trigger] encode_scalar(x as u32)[j] == encode_scalar(y as u32)[j],
        encode_scalar(x as u32)[k] < encode_scalar(y as u32)[k],
{
    let u = x as u32;
    let v = y as u32;
    vstd::utf8::char_is_scalar(x);
    vstd::utf8::char_is_scalar(y);
    lemma_lead_ranges(u);
    lemma_lead_ranges(v);
    let ex = encode_scalar(u);
    let ey = encode_scalar(v);
    if has_width_1_encoding(v) {
        lemma_width_1_order(u, v);
        0
    } else if has_width_1_encoding(u) {
        0
    } else if has_width_2_encoding(v) {
        lemma_width_2_order(u, v);
        if leading_byte_width_2(u) < leading_byte_width_2(v) {
            0
        } else {
            1
        }
    } else if has_width_2_encoding(u) {
        0
    } else if has_width_3_encoding(v) {
        lemma_width_3_order(u, v);
        if leading_byte_width_3(u) < leading_byte_width_3(v) {
            0
        } else if second_last_continuation_byte(u) < second_last_continuation_byte(v) {
            1
        } else {
            2
        }
    } else if has_width_3_encoding(u) {
        0
    } else {
        lemma_width_4_order(u, v);
        if leading_byte_width_4(u) < leading_byte_width_4(v) {
            0
        } else if third_last_continuation_byte(u) < third_last_continuation_byte(v) {
            1
        } else if second_last_continuation_byte(u) < second_last_continuation_byte(v) {
            2
        } else {
            3
        }
    }
}

/// Names are ordered by their first differing character: where `a` and `b`
/// agree on the first `i` characters and differ at character `i`, `a` comes
/// first exactly when its character there has the smaller code point.
pub proof fn law_name_lt_first_difference(a: Seq<char>, b: Seq<char>, i: int)
    requires
        0 <= i < a.len(),
        i < b.len(),
        a.subrange(0, i) == b.subrange(0, i),
        a[i] != b[i],
    ensures
        name_lt(a, b) <==> (a[i] as u32) < (b[i] as u32),
{
    let p = a.subrange(0, i);
    let ra = a.skip(i);
    let rb = b.skip(i);
    assert(a =~= p + ra);
    assert(b =~= p + rb);
    lemma_encode_concat(p, ra);
    lemma_encode_concat(p, rb);
    let ep = encode_utf8(p);
    let ea = encode_utf8(a);
    let eb = encode_utf8(b);
    assert(ra.drop_first() =~= a.skip(i + 1));
    assert(rb.drop_first() =~= b.skip(i + 1));
    let sa = encode_scalar(a[i] as u32);
    let sb = encode_scalar(b[i] as u32);
    assert(encode_utf8(ra) == sa + encode_utf8(a.skip(i + 1)));
    assert(encode_utf8(rb) == sb + encode_utf8(b.skip(i + 1)));
    if (a[i] as u32) < (b[i] as u32) {
        let k = lemma_scalar_order(a[i], b[i]);
        assert forall|j: int| 0 <= j < ep.len() + k implies ea[j] == eb[j] by {
            if j >= ep.len() {
                assert(ea[j] == sa[j - ep.len()]);
                assert(eb[j] == sb[j - ep.len()]);
            }
        }
        assert(ea[ep.len() + k] == sa[k]);
        assert(eb[ep.len() + k] == sb[k]);
        law_bytes_lt_first_difference(ea, eb, ep.len() + k);
    } else {
        assert((b[i] as u32) != (a[i] as u32)) by {
            vstd::utf8::char_u32_cast(a[i], a[i] as u32);
            vstd::utf8::char_u32_cast(b[i], b[i] as u32);
        }
        let k = lemma_scalar_order(b[i], a[i]);
        assert forall|j: int| 0 <= j < ep.len() + k implies eb[j] == ea[j] by {
            if j >= ep.len() {
                assert(ea[j] == sa[j - ep.len()]);
                assert(eb[j] == sb[j - ep.len()]);
            }
        }
        assert(ea[ep.len() + k] == sa[k]);
        assert(eb[ep.len() + k] == sb[k]);
        law_bytes_lt_first_difference(eb, ea, ep.len() + k);
        lemma_bytes_lt_total(ea, eb);
    }
}

/// A name that is a proper prefix of another comes first, and no name comes
/// before one of its own prefixes.
pub proof fn law_name_lt_prefix(a: Seq<char>, b: Seq<char>)
    requires
        a.len() <= b.len(),
        a == b.subrange(0, a.len() as int),
    ensures
        a.len() < b.len() ==> name_lt(a, b),
        !name_lt(b, a),
{
    let r = b.skip(a.len() as int);
    assert(b =~= a + r);
    lemma_encode_concat(a, r);
    let ea = encode_utf8(a);
    let eb = encode_utf8(b);
    if a.len() < b.len() {
        assert(r.len() > 0);
        vstd::utf8::char_is_scalar(r[0]);
        assert(encode_utf8(r).len() >= encode_scalar(r[0] as u32).len());
    }
    law_bytes_lt_prefix(ea, eb);
}

/// The result of comparing two names.
#[derive(Clone, Copy, PartialEq, Eq, Structural, Debug)]
pub enum NameOrder {
    Less,
    Equal,
    Greater,
}

/// Compares two byte strings lexicographically.
pub fn compare_bytes(a: &[u8], b: &[u8]) -> (r: NameOrder)
    ensures
        r == NameOrder::Less <==> bytes_lt(a@, b@),
        r == NameOrder::Equal <==> a@ == b@,
        r == NameOrder::Greater <==> bytes_lt(b@, a@),
{
    proof {
        lemma_bytes_lt_total(a@, b@);
        lemma_bytes_lt_irreflexive(a@);
        assert(a@.skip(0) =~= a@);
        assert(b@.skip(0) =~= b@);
    }
    let mut i: usize = 0;
    while i < a.len() && i < b.len()
        invariant
            i <= a.len(),
            i <= b.len(),
            a@.subrange(0, i as int) == b@.subrange(0, i as int),
            bytes_lt(a@, b@) == bytes_lt(a@.skip(i as int), b@.skip(i as int)),
            bytes_lt(b@, a@) == bytes_lt(b@.skip(i as int), a@.skip(i as int)),
        decreases a.len() - i,
    {
        if a[i] < b[i] {
            return NameOrder::Less;
        } else if a[i] > b[i] {
            return NameOrder::Greater;
        }
        assert(a@.skip(i as int).drop_first() =~= a@.skip(i + 1));
        assert(b@.skip(i as int).drop_first() =~= b@.skip(i + 1));
        assert(a@.subrange(0, i + 1) =~= a@.subrange(0, i as int).push(a@[i as int]));
        assert(b@.subrange(0, i + 1) =~= b@.subrange(0, i as int).push(b@[i as int]));
        i = i + 1;
    }
    if a.len() < b.len() {
        NameOrder::Less
    } else if b.len() < a.len() {
        NameOrder::Greater
    } else {
        assert(a@ =~= a@.subrange(0, i as int));
        assert(b@ =~= b@.subrange(0, i as int));
        NameOrder::Equal
    }
}

/// Compares two names in the order in which `String` sorts them.
pub fn compare_names(a: &str, b: &str) -> (r: NameOrder)
    ensures
        r == NameOrder::Less <==> name_lt(a@, b@),
        r == NameOrder::Equal <==> a@ == b@,
        r == NameOrder::Greater <==> name_lt(b@, a@),
{
    proof {
        lemma_encode_injective(a@, b@);
    }
    compare_bytes(a.as_bytes(), b.as_bytes())
}

/// Whether two strings hold the same text.
pub fn same_text(a: &str, b: &str) -> (r: bool)
    ensures
        r == (a@ == b@),
{
    compare_names(a, b) == NameOrder::Equal
}

} // verus!
