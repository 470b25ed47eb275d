//! The value shapes that sort `_cf_chl_opt` values, said byte by byte: what
//! counts as a Unix time, a ray id, a widget id, a version id, a host name, and
//! which tokens are Cloudflare versioned tokens.
use vstd::prelude::*;
use vstd::string::StringSliceAdditionalSpecFns;
use vstd::utf8::*;
use crate::challenge::{
    all_in_class, in_class, cv_id_shape, hostname_shape, last_before, ray_shape, unix_seconds_shape, versioned_token_shape, widget_id_shape,
};
use crate::text::{first_occurrence_from, occurs_at};

verus! {

/// An ASCII decimal digit.
pub open spec fn ascii_digit(c: u8) -> bool {
    48 <= c <= 57
}

/// The shapes, byte by byte: a Unix time is ten digits `0`..`9`; a ray id is
/// sixteen hex digits (either case); a widget id is five of `[a-z0-9]`; a
/// version id is one or two digits other than a lone `0`; a host name's bytes
/// are `[A-Za-z0-9.-]`.
pub proof fn lemma_value_shapes_by_bytes(v: Seq<u8>)
    ensures
        unix_seconds_shape(v) <==> (v.len() == 10 && forall|i: int| 0 <= i < v.len() ==> ascii_digit(#[trigger] v[i])),
        ray_shape(v) <==> (v.len() == 16 && forall|i: int| 0 <= i < v.len() ==>
            (ascii_digit(#[trigger] v[i]) || (65 <= v[i] <= 70) || (97 <= v[i] <= 102))),
        widget_id_shape(v) <==> (v.len() == 5 && forall|i: int| 0 <= i < v.len() ==>
            (ascii_digit(#[trigger] v[i]) || (97 <= v[i] <= 122))),
        cv_id_shape(v) <==> (1 <= v.len() <= 2 && (forall|i: int| 0 <= i < v.len() ==> ascii_digit(#[trigger] v[i]))
            && !(v.len() == 1 && v[0] == 48)),
        hostname_shape(v) <==> (v.len() <= 64 && !versioned_token_shape(v) && v.contains(46) && forall|i: int| 0 <= i < v.len() ==>
            (ascii_digit(#[trigger] v[i]) || (65 <= v[i] <= 90) || (97 <= v[i] <= 122) || v[i] == 46 || v[i] == 45)),
{
    if v.len() == 1 && v[0] == 48 {
        assert(v =~= seq![48u8]);
    }
}

/// `last_before` finds a `-` below `hi`.
proof fn lemma_last_before_found(v: Seq<u8>, hi: int)
    ensures
        last_before(v, 45, hi) matches Some(d) ==> 0 <= d < hi && v[d] == 45,
    decreases hi,
{
    if hi > 0 && v[hi - 1] != 45 {
        lemma_last_before_found(v, hi - 1);
    }
}

/// `v` holds `-1.` at `ver`, right after ten ASCII digits that start `v` or follow a `-`.
pub open spec fn version_mark_after_time(v: Seq<u8>, ver: int) -> bool {
    &&& 10 <= ver
    &&& ver + 3 <= v.len()
    &&& v[ver] == 45 && v[ver + 1] == 49 && v[ver + 2] == 46
    &&& forall|i: int| ver - 10 <= i < ver ==> ascii_digit(#[trigger] v[i])
    &&& (ver == 10 || v[ver - 11] == 45)
}

/// A versioned token holds `-1.`, and the ten bytes before its first `-1.`
/// are ASCII digits that start the token or follow a `-`.
pub proof fn lemma_versioned_token_parts(v: Seq<u8>)
    requires
        versioned_token_shape(v),
    ensures
        v.len() >= 40,
        exists|ver: int| #[trigger] version_mark_after_time(v, ver),
{
    reveal_strlit("-1.");
    assert(is_ascii_chars("-1."@));
    is_ascii_chars_encode_utf8("-1."@);
    let m = "-1.".spec_bytes();
    assert(m =~= seq![45u8, 49, 46]);
    let f = first_occurrence_from(v, m, 0);
    assert(f is Some);
    let ver = f->0;
    let start = match last_before(v, 45, ver) {
        Some(d) => d + 1,
        None => 0,
    };
    assert(ver - start == 10 && all_in_class(v.subrange(start, ver), 1));
    lemma_mark_at(v, m, ver);
    lemma_last_before_found(v, ver);
    assert forall|i: int| ver - 10 <= i < ver implies ascii_digit(#[trigger] v[i]) by {
        assert(in_class(v.subrange(start, ver)[i - start], 1));
    }
    assert(version_mark_after_time(v, ver));
}

/// An occurrence has a first one at or before it.
proof fn lemma_least_occurrence(v: Seq<u8>, m: Seq<u8>, k: int)
    requires
        0 <= k,
        occurs_at(v, m, k),
    ensures
        exists|j: int| 0 <= j && occurs_at(v, m, j) && (forall|i: int| 0 <= i < j ==> !occurs_at(v, m, i)),
    decreases k,
{
    if exists|i: int| 0 <= i < k && occurs_at(v, m, i) {
        let i = choose|i: int| 0 <= i < k && occurs_at(v, m, i);
        lemma_least_occurrence(v, m, i);
    } else {
        assert(forall|i: int| 0 <= i < k ==> !occurs_at(v, m, i));
    }
}

/// The first occurrence of `-1.` is one.
proof fn lemma_mark_at(v: Seq<u8>, m: Seq<u8>, ver: int)
    requires
        m == seq![45u8, 49, 46],
        first_occurrence_from(v, m, 0) == Some(ver),
    ensures
        0 <= ver && ver + 3 <= v.len() && v[ver] == 45 && v[ver + 1] == 49 && v[ver + 2] == 46,
{
    reveal(first_occurrence_from);
    let k = choose|i: int| 0 <= i && occurs_at(v, m, i);
    lemma_least_occurrence(v, m, k);
    assert(occurs_at(v, m, ver));
    assert(v.subrange(ver, ver + 3)[0] == v[ver]);
    assert(v.subrange(ver, ver + 3)[1] == v[ver + 1]);
    assert(v.subrange(ver, ver + 3)[2] == v[ver + 2]);
}

/// The last `-` before `hi` is at `d` when `d` holds one and nothing after it does.
proof fn lemma_last_dash(v: Seq<u8>, d: int, hi: int)
    requires
        0 <= d < hi <= v.len(),
        v[d] == 45,
        forall|j: int| d < j < hi ==> #[trigger] v[j] != 45,
    ensures
        last_before(v, 45, hi) == Some(d),
    decreases hi - d,
{
    if hi - 1 > d {
        lemma_last_dash(v, d, hi - 1);
    }
}

/// A token `prefix-TTTTTTTTTT-1.rest` of at least 40 bytes, whose prefix holds
/// no `-` and whose ten `T` are ASCII digits `0`..`9`, is a versioned token.
pub proof fn lemma_versioned_token_built(prefix: Seq<u8>, ts: Seq<u8>, rest: Seq<u8>)
    requires
        !prefix.contains(45),
        ts.len() == 10,
        forall|i: int| 0 <= i < 10 ==> ascii_digit(#[trigger] ts[i]),
        prefix.len() + 14 + rest.len() >= 40,
    ensures
        versioned_token_shape(prefix + seq![45u8] + ts + seq![45u8, 49, 46] + rest),
{
    let v = prefix + seq![45u8] + ts + seq![45u8, 49, 46] + rest;
    let pl = prefix.len() as int;
    let k = pl + 11;
    reveal_strlit("-1.");
    assert(is_ascii_chars("-1."@));
    is_ascii_chars_encode_utf8("-1."@);
    let m = "-1.".spec_bytes();
    assert(m =~= seq![45u8, 49, 46]);
    assert forall|j: int| 0 <= j < pl implies #[trigger] v[j] != 45 by {
        assert(v[j] == prefix[j]);
        if prefix[j] == 45 {
            assert(prefix.contains(45));
        }
    }
    assert forall|j: int| pl < j < k implies #[trigger] v[j] != 45 && ascii_digit(v[j]) by {
        assert(v[j] == ts[j - pl - 1]);
    }
    assert(v[pl] == 45 && v[k] == 45 && v[k + 1] == 49 && v[k + 2] == 46);
    assert(occurs_at(v, m, k)) by {
        assert(v.subrange(k, k + 3) =~= m);
    }
    assert forall|j: int| 0 <= j < k implies !occurs_at(v, m, j) by {
        if occurs_at(v, m, j) {
            assert(v.subrange(j, j + 3)[0] == v[j]);
            assert(v.subrange(j, j + 3)[2] == v[j + 2]);
            if j == pl {
                assert(v[pl + 2] == ts[1]);
            }
        }
    }
    assert(first_occurrence_from(v, m, 0) == Some(k)) by {
        reveal(first_occurrence_from);
        let i = choose|i: int| 0 <= i && occurs_at(v, m, i) && (forall|j: int| 0 <= j < i ==> !occurs_at(v, m, j));
        assert(0 <= i && occurs_at(v, m, i) && (forall|j: int| 0 <= j < i ==> !occurs_at(v, m, j)));
        if i < k {
        } else if i > k {
            assert(!occurs_at(v, m, k));
        }
    }
    lemma_last_dash(v, pl, k);
    assert(v.subrange(pl + 1, k) =~= ts);
}

} // verus!
