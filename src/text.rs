//! Characters and their UTF-8 byte offsets, and the character operations that
//! smartcase search needs.

use vstd::prelude::*;
use vstd::utf8::*;
use vstd::std_specs::iter::IteratorSpec;
use vstd::string::{StrSliceExecFns, StringSliceAdditionalSpecFns};

verus! {

broadcast use vstd::string::group_string_axioms;

/// The UTF-8 text of two texts joined is the texts of each, joined.
pub proof fn lemma_encode_concat(a: Seq<char>, b: Seq<char>)
    ensures
        encode_utf8(a + b) == encode_utf8(a) + encode_utf8(b),
    decreases a.len(),
{
    if a.len() == 0 {
        assert(a + b =~= b);
    } else {
        lemma_encode_concat(a.drop_first(), b);
        assert((a + b).drop_first() =~= a.drop_first() + b);
    }
}

/// Every character takes at least one byte.
pub proof fn lemma_encode_len(a: Seq<char>)
    ensures
        encode_utf8(a).len() >= a.len(),
    decreases a.len(),
{
    if a.len() > 0 {
        lemma_encode_len(a.drop_first());
    }
}

/// A boundary `k` of the rest of a valid text from its boundary `q` on is
/// the boundary `q + k` of the text.
proof fn lemma_boundary_from_rest(b: Seq<u8>, q: int, k: int)
    requires
        valid_utf8(b),
        0 <= q <= b.len(),
        is_char_boundary(b, q),
        0 <= k <= b.len() - q,
        is_char_boundary(b.subrange(q, b.len() as int), k),
    ensures
        is_char_boundary(b, q + k),
{
    valid_utf8_split(b, q);
    let rest = b.subrange(q, b.len() as int);
    if k == 0 {
    } else if q + k == b.len() {
        is_char_boundary_start_end_of_seq(b);
    } else {
        is_char_boundary_iff_not_is_continuation_byte(rest, k);
        is_char_boundary_iff_not_is_continuation_byte(b, q + k);
        assert(rest[k] == b[q + k]);
    }
}

/// A valid text that appears in a valid text from one of its boundaries on
/// ends on a boundary too.
proof fn lemma_copy_ends_on_boundary(hb: Seq<u8>, nb: Seq<u8>, q: int)
    requires
        valid_utf8(hb),
        valid_utf8(nb),
        0 <= q,
        q + nb.len() <= hb.len(),
        is_char_boundary(hb, q),
        hb.subrange(q, q + nb.len()) == nb,
    ensures
        is_char_boundary(hb, q + nb.len()),
    decreases nb.len(),
{
    if nb.len() > 0 {
        valid_utf8_split(hb, q);
        let rest = hb.subrange(q, hb.len() as int);
        let w = length_of_first_scalar(nb);
        assert(rest[0] == nb[0]);
        assert(length_of_first_scalar(rest) == w);
        assert(is_char_boundary(pop_first_scalar(rest), 0));
        assert(is_char_boundary(rest, w));
        lemma_boundary_from_rest(hb, q, w);
        let nb2 = pop_first_scalar(nb);
        assert(hb.subrange(q + w, q + w + nb2.len()) =~= nb2);
        lemma_copy_ends_on_boundary(hb, nb2, q + w);
    }
}

/// The end of the bytes of the first `i` characters of a text is a
/// character boundary of the text's bytes.
pub proof fn lemma_prefix_boundary(t: Seq<char>, i: int)
    requires
        0 <= i <= t.len(),
    ensures
        is_char_boundary(encode_utf8(t), encode_utf8(t.subrange(0, i)).len() as int),
        encode_utf8(t) == encode_utf8(t.subrange(0, i)) + encode_utf8(t.subrange(i, t.len() as int)),
{
    let a = t.subrange(0, i);
    let b = t.subrange(i, t.len() as int);
    assert(t =~= a + b);
    lemma_encode_concat(a, b);
    encode_utf8_valid_utf8(t);
    encode_utf8_valid_utf8(a);
    is_char_boundary_start_end_of_seq(encode_utf8(t));
    assert(encode_utf8(t).subrange(0, encode_utf8(a).len() as int) =~= encode_utf8(a));
    lemma_copy_ends_on_boundary(encode_utf8(t), encode_utf8(a), 0);
}

/// The number of UTF-8 bytes of `c`.
pub fn char_width(c: char) -> (r: usize)
    ensures
        r == encode_utf8(seq![c]).len(),
        1 <= r <= 4,
{
    proof {
        char_is_scalar(c);
        assert(seq![c].drop_first() =~= Seq::<char>::empty());
        assert(encode_utf8(Seq::<char>::empty()) =~= Seq::<u8>::empty());
        assert(encode_utf8(seq![c]) =~= encode_scalar(c as u32));
    }
    let v = c as u32;
    if v <= 0x7F {
        1
    } else if v <= 0x7FF {
        2
    } else if v <= 0xFFFF {
        3
    } else {
        4
    }
}

/// The byte offset of each character of `s`, and the byte length of `s` last.
pub fn char_offsets(s: &str) -> (r: Vec<usize>)
    ensures
        r@.len() == s@.len() + 1,
        forall|i: int| 0 <= i <= s@.len() ==> #[trigger] r@[i] == encode_utf8(s@.subrange(0, i)).len(),
{
    let total_len = s.as_bytes().len();
    let mut offs: Vec<usize> = Vec::new();
    offs.push(0);
    let mut total: usize = 0;
    let mut it = s.chars();
    let ghost mut seen: Seq<char> = Seq::empty();
    proof {
        assert(s@.subrange(0, 0) =~= Seq::<char>::empty());
    }
    loop
        invariant
            total_len == encode_utf8(s@).len(),
            seen.len() <= s@.len(),
            seen == s@.subrange(0, seen.len() as int),
            it.remaining() == s@.subrange(seen.len() as int, s@.len() as int),
            total == encode_utf8(seen).len(),
            offs@.len() == seen.len() + 1,
            forall|i: int| 0 <= i <= seen.len() ==> #[trigger] offs@[i] == encode_utf8(s@.subrange(0, i)).len(),
        ensures
            offs@.len() == s@.len() + 1,
            forall|i: int| 0 <= i <= s@.len() ==> #[trigger] offs@[i] == encode_utf8(s@.subrange(0, i)).len(),
        decreases s@.len() - seen.len(),
    {
        match it.next() {
            Some(c) => {
                proof {
                    let next = s@.subrange(0, seen.len() as int + 1);
                    assert(next =~= seen + seq![c]);
                    lemma_encode_concat(seen, seq![c]);
                    lemma_prefix_boundary(s@, seen.len() as int + 1);
                }
                let w = char_width(c);
                total = total + w;
                offs.push(total);
                proof {
                    seen = seen + seq![c];
                }
            },
            None => {
                assert(seen.len() == s@.len());
                assert(seen =~= s@);
                break;
            },
        }
    }
    offs
}

/// The characters `i` to `j` of `s`, given the byte offsets of its characters.
pub fn char_range<'a>(s: &'a str, offs: &Vec<usize>, i: usize, j: usize) -> (r: &'a str)
    requires
        i <= j <= s@.len(),
        offs@.len() == s@.len() + 1,
        forall|k: int| 0 <= k <= s@.len() ==> #[trigger] offs@[k] == encode_utf8(s@.subrange(0, k)).len(),
    ensures
        r@ == s@.subrange(i as int, j as int),
{
    let ghost t = s@;
    let ghost a = t.subrange(0, i as int);
    let ghost bc = t.subrange(i as int, t.len() as int);
    let ghost bm = t.subrange(i as int, j as int);
    let ghost c = t.subrange(j as int, t.len() as int);
    proof {
        lemma_prefix_boundary(t, i as int);
        assert(bc =~= bm + c);
        lemma_prefix_boundary(bc, (j - i) as int);
        assert(bc.subrange(0, (j - i) as int) =~= bm);
        assert(bc.subrange((j - i) as int, bc.len() as int) =~= c);
        assert(t.subrange(0, j as int) =~= a + bm);
        lemma_encode_concat(a, bm);
    }
    let (_, tail) = s.split_at(offs[i]);
    proof {
        assert(tail.spec_bytes() =~= encode_utf8(bc));
    }
    let (mid, _) = tail.split_at(offs[j] - offs[i]);
    proof {
        assert(mid.spec_bytes() =~= encode_utf8(bm));
        encode_utf8_decode_utf8(mid@);
        encode_utf8_decode_utf8(bm);
    }
    mid
}

/// What `str::to_lowercase` gives for a text.
pub uninterp spec fn lower_of(s: Seq<char>) -> Seq<char>;

/// Relies on std's `str::to_lowercase`: the lowercase mapping of `s`, which
/// depends on the characters of `s` alone.
#[verifier::external_body]
pub(crate) fn lowercase(s: &str) -> (r: String)
    ensures
        r@ == lower_of(s@),
{
    s.to_lowercase()
}

/// Whether `char::is_uppercase` holds of a character.
pub uninterp spec fn is_uppercase_char(c: char) -> bool;

/// Relies on std's `char::is_uppercase`: whether `c` has the Unicode
/// `Uppercase` property.
#[verifier::external_body]
pub(crate) fn char_is_uppercase(c: char) -> (r: bool)
    ensures
        r == is_uppercase_char(c),
{
    c.is_uppercase()
}

/// `s` holds an uppercase character.
pub open spec fn has_uppercase(s: Seq<char>) -> bool {
    exists|i: int| 0 <= i < s.len() && is_uppercase_char(#[trigger] s[i])
}

/// Whether `s` holds an uppercase character.
pub fn contains_uppercase(s: &str) -> (r: bool)
    ensures
        r == has_uppercase(s@),
{
    let n = s.unicode_len();
    let mut i: usize = 0;
    while i < n
        invariant
            n == s@.len(),
            i <= n,
            forall|k: int| 0 <= k < i ==> !is_uppercase_char(#[trigger] s@[k]),
        decreases n - i,
    {
        if char_is_uppercase(s.get_char(i)) {
            return true;
        }
        i = i + 1;
    }
    false
}

} // verus!
