//! Facts on UTF-8: encoding respects concatenation and prefixes.

use vstd::prelude::*;
use vstd::utf8::{
    char_u32_cast, decode_first_scalar, encode_scalar, encode_utf8, encode_utf8_first_scalar,
};

verus! {

/// Strings that are put together have their encodings put together.
pub proof fn lemma_encode_concat(a: Seq<char>, b: Seq<char>)
    ensures
        encode_utf8(a + b) == encode_utf8(a) + encode_utf8(b),
    decreases a.len(),
{
    if a.len() == 0 {
        assert(a + b =~= b);
        assert(encode_utf8(a) + encode_utf8(b) =~= encode_utf8(b));
    } else {
        lemma_encode_concat(a.drop_first(), b);
        assert((a + b).drop_first() =~= a.drop_first() + b);
        assert(encode_utf8(a + b) =~= encode_utf8(a) + encode_utf8(b));
    }
}

/// A character below 128 is encoded as itself.
pub proof fn lemma_encode_ascii(c: char)
    requires
        (c as u32) < 128,
    ensures
        encode_utf8(seq![c]) == seq![c as u8],
{
    let scalar = c as u32;
    assert((scalar & 0x7f) as u8 == scalar as u8) by (bit_vector)
        requires
            scalar < 128,
    ;
    assert(seq![c].drop_first() =~= Seq::<char>::empty());
    assert(encode_utf8(Seq::<char>::empty()) =~= Seq::<u8>::empty());
    assert(encode_utf8(seq![c]) =~= encode_scalar(scalar));
    assert(encode_scalar(scalar) =~= seq![c as u8]);
}

/// One encoding begins with another one exactly if one string begins with the
/// other one.
pub proof fn law_encode_respects_prefixes(a: Seq<char>, b: Seq<char>)
    ensures
        encode_utf8(a).is_prefix_of(encode_utf8(b)) <==> a.is_prefix_of(b),
{
    if a.is_prefix_of(b) {
        let rest = b.skip(a.len() as int);
        assert(b =~= a + rest);
        lemma_encode_concat(a, rest);
        assert(encode_utf8(a) =~= encode_utf8(b).subrange(0, encode_utf8(a).len() as int));
    }
    if encode_utf8(a).is_prefix_of(encode_utf8(b)) {
        lemma_prefix_of_encoding(a, b);
    }
}

proof fn lemma_prefix_of_encoding(a: Seq<char>, b: Seq<char>)
    requires
        encode_utf8(a).is_prefix_of(encode_utf8(b)),
    ensures
        a.is_prefix_of(b),
    decreases a.len(),
{
    if a.len() == 0 {
        assert(a =~= b.subrange(0, 0));
    } else {
        let ea = encode_utf8(a);
        let eb = encode_utf8(b);
        assert(ea =~= eb.subrange(0, ea.len() as int));
        assert forall|i: int| 0 <= i < ea.len() implies ea[i] == eb[i] by {
            assert(eb.subrange(0, ea.len() as int)[i] == eb[i]);
        }
        encode_utf8_first_scalar(a);
        assert(b.len() > 0);
        encode_utf8_first_scalar(b);
        assert(decode_first_scalar(ea) == decode_first_scalar(eb));
        char_u32_cast(a[0], a[0] as u32);
        char_u32_cast(b[0], b[0] as u32);
        assert(a[0] == b[0]);
        let first = encode_scalar(a[0] as u32);
        let ra = encode_utf8(a.drop_first());
        let rb = encode_utf8(b.drop_first());
        assert(ra =~= rb.subrange(0, ra.len() as int)) by {
            assert(ea =~= first + ra);
            assert(eb =~= first + rb);
            assert forall|i: int| 0 <= i < ra.len() implies ra[i] == rb.subrange(
                0,
                ra.len() as int,
            )[i] by {
                assert(ea[first.len() + i] == eb[first.len() + i]);
            }
        }
        lemma_prefix_of_encoding(a.drop_first(), b.drop_first());
        assert(a =~= b.subrange(0, a.len() as int)) by {
            assert forall|i: int| 0 <= i < a.len() implies a[i] == b.subrange(
                0,
                a.len() as int,
            )[i] by {
                if i > 0 {
                    assert(a.drop_first()[i - 1] == b.drop_first().subrange(
                        0,
                        a.len() - 1,
                    )[i - 1]);
                }
            }
        }
    }
}

} // verus!
