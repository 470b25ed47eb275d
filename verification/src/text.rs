//! Byte-level text helpers shared by the parsers.
//!
//! All searches work on the UTF-8 bytes of a `str`; extracted pieces are
//! returned as `&str` slices whose bytes are the corresponding byte range.
use vstd::prelude::*;
use vstd::utf8::*;
use vstd::string::StringSliceAdditionalSpecFns;

verus! {

broadcast use vstd::seq::group_seq_axioms;

/// `needle` occurs in `hay` starting at byte `i`.
pub open spec fn occurs_at(hay: Seq<u8>, needle: Seq<u8>, i: int) -> bool {
    &&& 0 <= i
    &&& i + needle.len() <= hay.len()
    &&& hay.subrange(i, i + needle.len()) == needle
}

/// `needle` occurs somewhere in `hay`.
pub open spec fn contains_seq(hay: Seq<u8>, needle: Seq<u8>) -> bool {
    exists|i: int| occurs_at(hay, needle, i)
}

/// Index of the first occurrence of `needle` in `hay` at or after `from`.
#[verifier::opaque]
pub open spec fn first_occurrence_from(hay: Seq<u8>, needle: Seq<u8>, from: int) -> Option<int> {
    if exists|i: int| from <= i && occurs_at(hay, needle, i) {
        Some(choose|i: int| from <= i && occurs_at(hay, needle, i) && (forall|j: int| from <= j < i ==> !occurs_at(hay, needle, j)))
    } else {
        None
    }
}

/// `hay` begins with `prefix`.
pub open spec fn starts_with_seq(hay: Seq<u8>, prefix: Seq<u8>) -> bool {
    occurs_at(hay, prefix, 0)
}

/// Does `needle` occur in `hay` at byte `i`?
pub fn matches_at(hay: &[u8], needle: &[u8], i: usize) -> (r: bool)
    ensures
        r == occurs_at(hay@, needle@, i as int),
{
    if i > hay.len() || needle.len() > hay.len() - i {
        return false;
    }
    let mut k: usize = 0;
    while k < needle.len()
        invariant
            i + needle@.len() <= hay@.len(),
            hay@.len() <= usize::MAX,
            k <= needle@.len(),
            forall|t: int| 0 <= t < k ==> hay@[i + t] == needle@[t],
        decreases needle@.len() - k,
    {
        if hay[i + k] != needle[k] {
            assert(hay@.subrange(i as int, i + needle@.len())[k as int] != needle@[k as int]);
            return false;
        }
        k = k + 1;
    }
    assert(hay@.subrange(i as int, i + needle@.len()) =~= needle@);
    true
}

/// Byte index of the first occurrence of `needle` in `hay` at or after `from`.
pub fn find_from(hay: &[u8], needle: &[u8], from: usize) -> (r: Option<usize>)
    ensures
        match r {
            Some(i) => from <= i && occurs_at(hay@, needle@, i as int) && (forall|j: int|
                from <= j < i ==> !occurs_at(hay@, needle@, j)),
            None => forall|j: int| from <= j ==> !occurs_at(hay@, needle@, j),
        },
        r matches Some(i) ==> first_occurrence_from(hay@, needle@, from as int) == Some(i as int),
        r is None ==> first_occurrence_from(hay@, needle@, from as int) is None,
{
    reveal(first_occurrence_from);
    if from > hay.len() {
        return None;
    }
    let mut i = from;
    while i < hay.len()
        invariant
            from <= i <= hay@.len(),
            forall|j: int| from <= j < i ==> !occurs_at(hay@, needle@, j),
        decreases hay@.len() - i,
    {
        if matches_at(hay, needle, i) {
            proof {
                reveal(first_occurrence_from);
                let c = choose|k: int| from <= k && occurs_at(hay@, needle@, k) && (forall|j: int| from <= j < k ==> !occurs_at(hay@, needle@, j));
                assert(from <= c && occurs_at(hay@, needle@, c));
                if c > i { assert(!occurs_at(hay@, needle@, i as int)); }
            }
            return Some(i);
        }
        i = i + 1;
    }
    if matches_at(hay, needle, i) {
        proof {
            reveal(first_occurrence_from);
            let c = choose|k: int| from <= k && occurs_at(hay@, needle@, k) && (forall|j: int| from <= j < k ==> !occurs_at(hay@, needle@, j));
            assert(from <= c && occurs_at(hay@, needle@, c));
            if c > i { assert(!occurs_at(hay@, needle@, i as int)); }
        }
        return Some(i);
    }
    proof {
        assert forall|j: int| from <= j implies !occurs_at(hay@, needle@, j) by {
            if j > i { assert(j + needle@.len() > hay@.len()); }
        }
    }
    None
}

/// Does `needle` occur anywhere in `hay`?
pub fn contains_bytes(hay: &[u8], needle: &[u8]) -> (r: bool)
    ensures
        r == contains_seq(hay@, needle@),
{
    match find_from(hay, needle, 0) {
        Some(_) => true,
        None => false,
    }
}

} // verus!

verus! {

/// In valid UTF-8 a continuation byte never directly follows a one-byte (ASCII) scalar.
proof fn lemma_no_continuation_after_ascii(bytes: Seq<u8>, j: int)
    requires
        valid_utf8(bytes),
        0 < j < bytes.len(),
        is_leading_byte_width_1(bytes[j - 1]),
    ensures
        !is_continuation_byte(bytes[j]),
    decreases bytes.len(),
{
    reveal_with_fuel(valid_utf8, 2);
    let w = length_of_first_scalar(bytes);
    let tail = pop_first_scalar(bytes);
    assert(tail.len() == bytes.len() - w);
    if j < w {
        // inside the first scalar: bytes[j - 1] is a multi-byte lead or a continuation byte
        assert(false);
    } else if j == w {
        assert(tail[0] == bytes[j]);
        assert(valid_first_scalar(tail));
    } else {
        assert(tail[j - w - 1] == bytes[j - 1]);
        assert(tail[j - w] == bytes[j]);
        lemma_no_continuation_after_ascii(tail, j - w);
    }
}

/// An index holding an ASCII byte, or the end, is a char boundary.
pub proof fn lemma_boundary_at_ascii(bytes: Seq<u8>, i: int)
    requires
        valid_utf8(bytes),
        0 <= i <= bytes.len(),
        i == bytes.len() || bytes[i] < 0x80,
    ensures
        is_char_boundary(bytes, i),
{
    is_char_boundary_start_end_of_seq(bytes);
    if i < bytes.len() {
        is_char_boundary_iff_not_is_continuation_byte(bytes, i);
    }
}

/// The index right after an ASCII byte is a char boundary.
pub proof fn lemma_boundary_after_ascii(bytes: Seq<u8>, i: int)
    requires
        valid_utf8(bytes),
        0 <= i < bytes.len(),
        bytes[i] < 0x80,
    ensures
        is_char_boundary(bytes, i + 1),
{
    is_char_boundary_start_end_of_seq(bytes);
    if i + 1 < bytes.len() {
        lemma_no_continuation_after_ascii(bytes, i + 1);
        is_char_boundary_iff_not_is_continuation_byte(bytes, i + 1);
    }
}

/// A boundary `i` that is not the end is not a continuation byte.
proof fn lemma_boundary_not_continuation(bytes: Seq<u8>, i: int)
    requires
        valid_utf8(bytes),
        0 <= i < bytes.len(),
        is_char_boundary(bytes, i),
    ensures
        !is_continuation_byte(bytes[i]),
{
    is_char_boundary_iff_not_is_continuation_byte(bytes, i);
}

/// The UTF-8 bytes of a `str` are valid UTF-8.
pub proof fn lemma_str_valid(s: &str)
    ensures
        valid_utf8(s.spec_bytes()),
{
    encode_utf8_valid_utf8(s@);
}

/// The sub-`str` made of bytes `start..end`, both char boundaries.
pub fn str_slice(s: &str, start: usize, end: usize) -> (r: &str)
    requires
        start <= end <= s.spec_bytes().len(),
        is_char_boundary(s.spec_bytes(), start as int),
        is_char_boundary(s.spec_bytes(), end as int),
    ensures
        r.spec_bytes() == s.spec_bytes().subrange(start as int, end as int),
{
    proof { lemma_str_valid(s); }
    let (_, rest) = s.split_at(start);
    proof {
        let b = s.spec_bytes();
        let rb = rest.spec_bytes();
        lemma_str_valid(rest);
        assert(rb =~= b.subrange(start as int, b.len() as int));
        is_char_boundary_start_end_of_seq(rb);
        if end < b.len() {
            lemma_boundary_not_continuation(b, end as int);
            assert(rb[end - start] == b[end as int]);
            is_char_boundary_iff_not_is_continuation_byte(rb, end - start);
        } else {
            assert(end - start == rb.len());
        }
    }
    let (mid, _) = rest.split_at(end - start);
    proof {
        assert(mid.spec_bytes() =~= s.spec_bytes().subrange(start as int, end as int));
    }
    mid
}

/// Bytes of an ASCII `str` (one byte per char).
pub fn ascii_bytes(s: &str) -> (r: &[u8])
    requires
        is_ascii_chars(s@),
    ensures
        r@ == s.spec_bytes(),
        r@.len() == s@.len(),
        forall|i: int| 0 <= i < s@.len() ==> r@[i] == s@[i] as u8,
        forall|i: int| 0 <= i < r@.len() ==> r@[i] < 0x80,
{
    proof {
        is_ascii_chars_encode_utf8(s@);
        vstd::utf8::is_ascii_chars_nat_bound(s@);
    }
    s.as_bytes()
}

/// Char-level equality follows from byte-level equality.
pub proof fn lemma_bytes_eq_chars_eq(a: Seq<char>, b: Seq<char>)
    requires
        encode_utf8(a) == encode_utf8(b),
    ensures
        a == b,
{
    encode_utf8_decode_utf8(a);
    encode_utf8_decode_utf8(b);
}

/// Owned copy of a `str`.
pub fn to_string(s: &str) -> (r: String)
    ensures
        r@ == s@,
{
    s.to_owned()
}


/// The chars of a `str`, in order.
pub fn chars_vec(s: &str) -> (v: Vec<char>)
    ensures
        v@ == s@,
{
    broadcast use vstd::string::group_string_axioms;
    let mut v: Vec<char> = Vec::new();
    for c in it: s.chars()
        invariant
            v@ == it.seq().take(it.index() as int),
            it.seq() == s@,
    {
        v.push(c);
    }
    v
}

/// UTF-8 encoding distributes over concatenation.
pub proof fn lemma_encode_utf8_concat(a: Seq<char>, b: Seq<char>)
    ensures
        encode_utf8(a + b) == encode_utf8(a) + encode_utf8(b),
    decreases a.len(),
{
    if a.len() == 0 {
        assert(a + b =~= b);
        assert(encode_utf8(a) =~= Seq::<u8>::empty());
        assert(encode_utf8(a) + encode_utf8(b) =~= encode_utf8(b));
    } else {
        lemma_encode_utf8_concat(a.drop_first(), b);
        assert((a + b).drop_first() =~= a.drop_first() + b);
        assert((a + b)[0] == a[0]);
        assert(encode_utf8(a + b) =~= encode_scalar(a[0] as u32) + encode_utf8(a.drop_first() + b));
        assert(encode_utf8(a) =~= encode_scalar(a[0] as u32) + encode_utf8(a.drop_first()));
    }
}

/// The Unicode `White_Space` property (PropList.txt), which `str::trim_start` strips.
pub open spec fn is_unicode_white_space(c: char) -> bool {
    let u = c as u32;
    (0x09 <= u <= 0x0D) || u == 0x20 || u == 0x85 || u == 0xA0 || u == 0x1680 || (0x2000 <= u <= 0x200A)
        || u == 0x2028 || u == 0x2029 || u == 0x202F || u == 0x205F || u == 0x3000
}

/// `s` without its trailing `White_Space` chars.
pub open spec fn trim_end_chars(s: Seq<char>) -> Seq<char>
    decreases s.len(),
{
    if s.len() > 0 && is_unicode_white_space(s.last()) {
        trim_end_chars(s.drop_last())
    } else {
        s
    }
}

/// `str::trim`: `s` without leading and trailing `White_Space` chars.
#[verifier::external_body]
pub(crate) fn trim(s: &str) -> (r: &str)
    ensures
        r@ == trim_end_chars(trim_start_chars(s@)),
{
    s.trim()
}

/// `s` without its leading `White_Space` chars.
pub open spec fn trim_start_chars(s: Seq<char>) -> Seq<char>
    decreases s.len(),
{
    if s.len() > 0 && is_unicode_white_space(s[0]) {
        trim_start_chars(s.drop_first())
    } else {
        s
    }
}

/// `str::trim_start`: the sub-slice of `s` without its leading white space.
#[verifier::external_body]
pub(crate) fn trim_start(s: &str) -> (r: &str)
    ensures
        r@ == trim_start_chars(s@),
        r.spec_bytes().len() <= s.spec_bytes().len(),
        r.spec_bytes() == s.spec_bytes().subrange(s.spec_bytes().len() - r.spec_bytes().len(), s.spec_bytes().len() as int),
{
    s.trim_start()
}

/// Byte-slice equality.
pub fn bytes_eq(a: &[u8], b: &[u8]) -> (r: bool)
    ensures
        r == (a@ == b@),
{
    if a.len() != b.len() {
        return false;
    }
    let m = matches_at(a, b, 0);
    proof {
        if m {
            assert(a@ =~= a@.subrange(0, b@.len() as int));
        } else if a@ == b@ {
            assert(a@.subrange(0, b@.len() as int) =~= b@);
        }
    }
    m
}

/// `str` equality.
pub fn str_eq(a: &str, b: &str) -> (r: bool)
    ensures
        r == (a@ == b@),
{
    let r = bytes_eq(a.as_bytes(), b.as_bytes());
    proof {
        if r {
            lemma_bytes_eq_chars_eq(a@, b@);
        }
    }
    r
}

} // verus!
