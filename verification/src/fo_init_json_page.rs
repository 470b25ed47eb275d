//! What the init-object search finds on a page built the way the iframe builds
//! it: `Xm={"k":v,...};setTimeout(fz,100,d,Xm)`, with one `JSON[..](..)` value
//! among the others. The keys come back in page order.
use vstd::prelude::*;
use vstd::string::StringSliceAdditionalSpecFns;
use vstd::utf8::*;
use crate::fo_init_json::{
    brace_end_spec, brace_scan, init_key_shape, init_keys_from, init_obj_at, is_alnum, json_marker,
    last_eq_brace, next_dquote,
};
use crate::text::{contains_seq, lemma_boundary_at_ascii, occurs_at};

verus! {

/// A value of the init object literal, as the iframe writes them.
pub enum InitValue {
    /// `V[0]`
    FirstOfArray,
    /// `0`
    Zero,
    /// `1`
    One,
    /// An empty template literal.
    EmptyTemplate,
    /// `JSON[n](x)`
    JsonCall,
}

pub open spec fn init_value_bytes(v: InitValue) -> Seq<u8> {
    match v {
        InitValue::FirstOfArray => seq![86u8, 91, 48, 93],
        InitValue::Zero => seq![48u8],
        InitValue::One => seq![49u8],
        InitValue::EmptyTemplate => seq![96u8, 96],
        InitValue::JsonCall => seq![74u8, 83, 79, 78, 91, 110, 93, 40, 120, 41],
    }
}

/// `"k":v`
pub open spec fn init_entry(k: Seq<u8>, v: InitValue) -> Seq<u8> {
    seq![34u8] + k + seq![34u8, 58] + init_value_bytes(v)
}

/// The entries joined by `,`.
pub open spec fn init_entries(keys: Seq<Seq<u8>>, vals: Seq<InitValue>) -> Seq<u8>
    decreases keys.len(),
{
    if keys.len() == 0 || vals.len() == 0 {
        Seq::empty()
    } else {
        let sep: Seq<u8> = if keys.len() > 1 { seq![44u8] } else { Seq::empty() };
        init_entry(keys[0], vals[0]) + sep + init_entries(keys.drop_first(), vals.drop_first())
    }
}

/// `{` entries `}`
pub open spec fn init_object_bytes(keys: Seq<Seq<u8>>, vals: Seq<InitValue>) -> Seq<u8> {
    seq![123u8] + init_entries(keys, vals) + seq![125u8]
}

/// `;setTimeout(fz,100,d,Xm)`
pub open spec fn set_timeout_call() -> Seq<u8> {
    seq![59u8, 115, 101, 116, 84, 105, 109, 101, 111, 117, 116, 40, 102, 122, 44, 49, 48, 48, 44, 100, 44, 88, 109, 41]
}

/// `Xm=` object `;setTimeout(fz,100,d,Xm)`
pub open spec fn init_page(keys: Seq<Seq<u8>>, vals: Seq<InitValue>) -> Seq<u8> {
    seq![88u8, 109, 61] + init_object_bytes(keys, vals) + set_timeout_call()
}

/// A byte that opens or closes nothing for the brace scan.
pub open spec fn scan_plain(c: u8) -> bool {
    c != 34 && c != 39 && c != 96 && c != 123 && c != 125
}

/// Outside strings, plain bytes leave the brace scan where it was.
proof fn lemma_scan_plain(b: Seq<u8>, i: int, n: int, depth: int)
    requires
        0 <= i,
        0 <= n,
        i + n <= b.len(),
        forall|t: int| i <= t < i + n ==> scan_plain(#[trigger] b[t]),
    ensures
        brace_scan(b, i, depth, None) == brace_scan(b, i + n, depth, None),
    decreases n,
{
    if n > 0 {
        assert(scan_plain(b[i]));
        lemma_scan_plain(b, i + 1, n - 1, depth);
    }
}

/// Inside a string, bytes other than its quote and a backslash are skipped.
proof fn lemma_scan_in_str(b: Seq<u8>, i: int, n: int, depth: int, q: u8)
    requires
        0 <= i,
        0 <= n,
        i + n <= b.len(),
        forall|t: int| i <= t < i + n ==> #[trigger] b[t] != q && b[t] != 92,
    ensures
        brace_scan(b, i, depth, Some(q)) == brace_scan(b, i + n, depth, Some(q)),
    decreases n,
{
    if n > 0 {
        assert(b[i] != q && b[i] != 92);
        lemma_scan_in_str(b, i + 1, n - 1, depth, q);
    }
}

proof fn lemma_key_bytes(k: Seq<u8>)
    requires
        init_key_shape(k),
    ensures
        forall|t: int| 0 <= t < k.len() ==> #[trigger] k[t] < 128 && scan_plain(k[t]) && k[t] != 92 && k[t] != 61 && k[t] != 58,
{
    assert forall|t: int| 0 <= t < k.len() implies #[trigger] k[t] < 128 && scan_plain(k[t]) && k[t] != 92 && k[t] != 61 && k[t] != 58 by {
        assert(is_alnum(k[t]));
    }
}

/// The brace scan passes over the entries at depth one.
proof fn lemma_scan_entries(b: Seq<u8>, i: int, keys: Seq<Seq<u8>>, vals: Seq<InitValue>)
    requires
        0 <= i,
        keys.len() == vals.len(),
        forall|t: int| 0 <= t < keys.len() ==> init_key_shape(#[trigger] keys[t]),
        i + init_entries(keys, vals).len() <= b.len(),
        b.subrange(i, i + init_entries(keys, vals).len()) == init_entries(keys, vals),
    ensures
        brace_scan(b, i, 1, None) == brace_scan(b, i + init_entries(keys, vals).len(), 1, None),
    decreases keys.len(),
{
    let all = init_entries(keys, vals);
    if keys.len() > 0 {
        let k = keys[0];
        let v = vals[0];
        let e = init_entry(k, v);
        let sep: Seq<u8> = if keys.len() > 1 { seq![44u8] } else { Seq::empty() };
        let rest = init_entries(keys.drop_first(), vals.drop_first());
        assert(all == e + sep + rest);
        assert(init_key_shape(keys[0]));
        lemma_key_bytes(k);
        let kl = k.len() as int;
        let vb = init_value_bytes(v);
        assert forall|t: int| 0 <= t < all.len() implies b[i + t] == #[trigger] all[t] by {
            assert(b.subrange(i, i + all.len())[t] == b[i + t]);
        }
        assert(b[i] == 34) by { assert(all[0] == e[0]); }
        assert forall|t: int| i + 1 <= t < i + 1 + kl implies #[trigger] b[t] != 34 && b[t] != 92 by {
            assert(all[t - i] == e[t - i]);
            assert(e[t - i] == k[t - i - 1]);
        }
        lemma_scan_in_str(b, i + 1, kl, 1, 34);
        assert(b[i + 1 + kl] == 34) by { assert(all[1 + kl] == e[1 + kl]); }
        assert(b[i + 2 + kl] == 58) by { assert(all[2 + kl] == e[2 + kl]); }
        assert forall|t: int| 0 <= t < vb.len() implies #[trigger] b[i + 3 + kl + t] == vb[t] by {
            assert(all[3 + kl + t] == e[3 + kl + t]);
        }
        assert(brace_scan(b, i, 1, None) == brace_scan(b, i + 1, 1, Some(34u8)));
        assert(brace_scan(b, i + 1 + kl, 1, Some(34u8)) == brace_scan(b, i + 2 + kl, 1, None));
        let after = i + e.len();
        match v {
            InitValue::EmptyTemplate => {
                assert(b[i + 3 + kl] == 96 && b[i + 4 + kl] == 96) by {
                    assert(b[i + 3 + kl + 0] == vb[0]);
                    assert(b[i + 3 + kl + 1] == vb[1]);
                }
                lemma_scan_plain(b, i + 2 + kl, 1, 1);
                assert(after == i + 5 + kl);
                assert(brace_scan(b, i + 3 + kl, 1, None) == brace_scan(b, i + 4 + kl, 1, Some(96u8)));
                assert(brace_scan(b, i + 4 + kl, 1, Some(96u8)) == brace_scan(b, i + 5 + kl, 1, None));
            },
            _ => {
                assert forall|t: int| i + 2 + kl <= t < after implies scan_plain(#[trigger] b[t]) by {
                    if t > i + 2 + kl {
                        assert(b[i + 3 + kl + (t - i - 3 - kl)] == vb[t - i - 3 - kl]);
                    }
                }
                lemma_scan_plain(b, i + 2 + kl, after - (i + 2 + kl), 1);
            },
        }
        assert(brace_scan(b, i, 1, None) == brace_scan(b, after, 1, None));
        if keys.len() > 1 {
            assert(b[after] == 44) by { assert(all[e.len() as int] == sep[0]); }
            lemma_scan_plain(b, after, 1, 1);
        }
        let next = after + sep.len();
        assert forall|t: int| 0 <= t < keys.drop_first().len() implies init_key_shape(#[trigger] keys.drop_first()[t]) by {
            assert(keys.drop_first()[t] == keys[t + 1]);
        }
        assert(b.subrange(next, next + rest.len()) =~= rest) by {
            assert forall|t: int| 0 <= t < rest.len() implies b.subrange(next, next + rest.len())[t] == rest[t] by {
                assert(all[e.len() + sep.len() + t] == rest[t]);
            }
        }
        lemma_scan_entries(b, next, keys.drop_first(), vals.drop_first());
    }
}

/// `next_dquote` from `j` over `n` bytes without a `"` lands on the `"` after them.
proof fn lemma_dquote_skip(o: Seq<u8>, j: int, n: int)
    requires
        0 <= j,
        0 <= n,
        j + n < o.len(),
        o[j + n] == 34,
        forall|t: int| j <= t < j + n ==> #[trigger] o[t] != 34,
    ensures
        next_dquote(o, j) == j + n,
    decreases n,
{
    if n > 0 {
        assert(o[j] != 34);
        lemma_dquote_skip(o, j + 1, n - 1);
    }
}

/// The key scan passes over bytes without a `"`.
proof fn lemma_keys_skip(o: Seq<u8>, i: int, n: int)
    requires
        0 <= i,
        0 <= n,
        forall|t: int| i <= t < i + n ==> #[trigger] o[t] != 34,
    ensures
        init_keys_from(o, i) == init_keys_from(o, i + n),
    decreases n,
{
    if n > 0 {
        if i + 3 < o.len() {
            assert(o[i] != 34);
        }
        lemma_keys_skip(o, i + 1, n - 1);
    }
}

/// The key scan over the entries gives their keys, in order.
proof fn lemma_keys_entries(o: Seq<u8>, i: int, keys: Seq<Seq<u8>>, vals: Seq<InitValue>)
    requires
        0 <= i,
        keys.len() == vals.len(),
        forall|t: int| 0 <= t < keys.len() ==> init_key_shape(#[trigger] keys[t]),
        i + init_entries(keys, vals).len() < o.len(),
        o.subrange(i, i + init_entries(keys, vals).len()) == init_entries(keys, vals),
    ensures
        init_keys_from(o, i) == keys + init_keys_from(o, i + init_entries(keys, vals).len()),
    decreases keys.len(),
{
    let all = init_entries(keys, vals);
    if keys.len() == 0 {
        assert(keys + init_keys_from(o, i) =~= init_keys_from(o, i));
    } else {
        let k = keys[0];
        let v = vals[0];
        let e = init_entry(k, v);
        let sep: Seq<u8> = if keys.len() > 1 { seq![44u8] } else { Seq::empty() };
        let rest = init_entries(keys.drop_first(), vals.drop_first());
        assert(all == e + sep + rest);
        assert(init_key_shape(keys[0]));
        lemma_key_bytes(k);
        let kl = k.len() as int;
        let vb = init_value_bytes(v);
        assert forall|t: int| 0 <= t < all.len() implies o[i + t] == #[trigger] all[t] by {
            assert(o.subrange(i, i + all.len())[t] == o[i + t]);
        }
        assert(o[i] == 34) by { assert(all[0] == e[0]); }
        assert forall|t: int| i + 1 <= t < i + 1 + kl implies #[trigger] o[t] != 34 by {
            assert(all[t - i] == e[t - i]);
            assert(e[t - i] == k[t - i - 1]);
        }
        assert(o[i + 1 + kl] == 34) by { assert(all[1 + kl] == e[1 + kl]); }
        assert(o[i + 2 + kl] == 58) by { assert(all[2 + kl] == e[2 + kl]); }
        lemma_dquote_skip(o, i + 1, kl);
        let j = i + 1 + kl;
        assert(o.subrange(i + 1, j) =~= k) by {
            assert forall|t: int| 0 <= t < kl implies o.subrange(i + 1, j)[t] == k[t] by {
                assert(all[1 + t] == e[1 + t]);
            }
        }
        assert(i + 3 < o.len());
        assert(init_keys_from(o, i) == seq![k] + init_keys_from(o, j + 2));
        let next = i + e.len() + sep.len();
        assert forall|t: int| j + 2 <= t < next implies #[trigger] o[t] != 34 by {
            assert(all[t - i] == o[t]);
            if t < i + e.len() {
                assert(e[t - i] == vb[t - i - 3 - kl]);
            } else {
                assert(all[t - i] == sep[t - i - e.len()]);
            }
        }
        lemma_keys_skip(o, j + 2, next - (j + 2));
        assert forall|t: int| 0 <= t < keys.drop_first().len() implies init_key_shape(#[trigger] keys.drop_first()[t]) by {
            assert(keys.drop_first()[t] == keys[t + 1]);
        }
        assert(o.subrange(next, next + rest.len()) =~= rest) by {
            assert forall|t: int| 0 <= t < rest.len() implies o.subrange(next, next + rest.len())[t] == rest[t] by {
                assert(all[e.len() + sep.len() + t] == rest[t]);
            }
        }
        lemma_keys_entries(o, next, keys.drop_first(), vals.drop_first());
        assert(seq![k] + (keys.drop_first() + init_keys_from(o, i + all.len())) =~= keys + init_keys_from(o, i + all.len()));
    }
}

/// Every byte of the entries is ASCII and none is `=`, `{` or `}`.
proof fn lemma_entries_bytes(keys: Seq<Seq<u8>>, vals: Seq<InitValue>)
    requires
        keys.len() == vals.len(),
        forall|t: int| 0 <= t < keys.len() ==> init_key_shape(#[trigger] keys[t]),
    ensures
        forall|t: int| 0 <= t < init_entries(keys, vals).len() ==> {
            let c = #[trigger] init_entries(keys, vals)[t];
            c < 128 && c != 61 && c != 123 && c != 125
        },
    decreases keys.len(),
{
    if keys.len() > 0 {
        let all = init_entries(keys, vals);
        let e = init_entry(keys[0], vals[0]);
        let sep: Seq<u8> = if keys.len() > 1 { seq![44u8] } else { Seq::empty() };
        let rest = init_entries(keys.drop_first(), vals.drop_first());
        assert(all == e + sep + rest);
        assert(init_key_shape(keys[0]));
        lemma_key_bytes(keys[0]);
        assert forall|t: int| 0 <= t < keys.drop_first().len() implies init_key_shape(#[trigger] keys.drop_first()[t]) by {
            assert(keys.drop_first()[t] == keys[t + 1]);
        }
        lemma_entries_bytes(keys.drop_first(), vals.drop_first());
        assert forall|t: int| 0 <= t < all.len() implies {
            let c = #[trigger] all[t];
            c < 128 && c != 61 && c != 123 && c != 125
        } by {
            if t >= e.len() + sep.len() {
                assert(all[t] == rest[t - e.len() - sep.len()]);
            } else if t >= e.len() {
                assert(all[t] == sep[t - e.len()]);
            } else if 1 <= t < 1 + keys[0].len() {
                assert(all[t] == keys[0][t - 1]);
            } else {
                assert(all[t] == e[t]);
            }
        }
    }
}

/// `:JSON[`
pub open spec fn json_marker_bytes() -> Seq<u8> {
    seq![58u8, 74, 83, 79, 78, 91]
}

/// Entries with a `JSON[..](..)` value hold `:JSON[`.
proof fn lemma_entries_hold_marker(keys: Seq<Seq<u8>>, vals: Seq<InitValue>, w: int)
    requires
        keys.len() == vals.len(),
        0 <= w < vals.len(),
        vals[w] == InitValue::JsonCall,
    ensures
        exists|p: int| occurs_at(init_entries(keys, vals), json_marker_bytes(), p),
    decreases keys.len(),
{
    let all = init_entries(keys, vals);
    let e = init_entry(keys[0], vals[0]);
    let sep: Seq<u8> = if keys.len() > 1 { seq![44u8] } else { Seq::empty() };
    let rest = init_entries(keys.drop_first(), vals.drop_first());
    assert(all == e + sep + rest);
    if w == 0 {
        let p: int = 2 + keys[0].len() as int;
        assert(all.subrange(p, p + 6) =~= json_marker_bytes()) by {
            assert forall|t: int| 0 <= t < 6 implies all.subrange(p, p + 6)[t] == json_marker_bytes()[t] by {
                assert(all[p + t] == e[p + t]);
            }
        }
        assert(occurs_at(all, json_marker_bytes(), p));
    } else {
        assert(vals.drop_first()[w - 1] == vals[w]);
        lemma_entries_hold_marker(keys.drop_first(), vals.drop_first(), w - 1);
        let p0 = choose|p: int| occurs_at(rest, json_marker_bytes(), p);
        let p = e.len() + sep.len() + p0;
        assert(all.subrange(p, p + 6) =~= rest.subrange(p0, p0 + 6)) by {
            assert forall|t: int| 0 <= t < 6 implies #[trigger] all.subrange(p, p + 6)[t] == rest.subrange(p0, p0 + 6)[t] by {
                assert(all[p + t] == rest[p0 + t]);
            }
        }
        assert(occurs_at(all, json_marker_bytes(), p));
    }
}

/// The last `={` before `hi` is the one at 2, when no other `=` follows it.
proof fn lemma_last_eq_brace_at_two(b: Seq<u8>, hi: int)
    requires
        4 <= hi <= b.len(),
        b[2] == 61,
        b[3] == 123,
        forall|p: int| 3 <= p < b.len() ==> #[trigger] b[p] != 61,
    ensures
        last_eq_brace(b, 0, hi) == Some(2int),
    decreases hi,
{
    if hi > 4 {
        assert(b[hi - 2] != 61);
        lemma_last_eq_brace_at_two(b, hi - 1);
    }
}

/// The key search on a page built as the iframe builds it gives back the
/// page's keys: every `:JSON[` on the page leads to the page's object, whose
/// init keys are exactly the keys the page was built from, in order, and the
/// page holds such a marker. So `extract_init_json_keys` returns those keys.
/// It holds for pages of at least 40 init-shaped keys with a `JSON[..](..)`
/// value among them, shorter than the 8000 bytes the search looks back over.
#[verifier::rlimit(40)]
pub proof fn lemma_init_keys_of_generated_page(keys: Seq<Seq<u8>>, vals: Seq<InitValue>)
    requires
        keys.len() == vals.len(),
        keys.len() >= 40,
        forall|t: int| 0 <= t < keys.len() ==> init_key_shape(#[trigger] keys[t]),
        exists|w: int| 0 <= w < vals.len() && vals[w] == InitValue::JsonCall,
        init_page(keys, vals).len() < 8000,
    ensures
        ({
            let b = init_page(keys, vals);
            let e: int = 3 + init_object_bytes(keys, vals).len() as int;
            &&& exists|at: int| occurs_at(b, json_marker(), at)
            &&& forall|at: int| occurs_at(b, json_marker(), at) ==> #[trigger] init_obj_at(b, at) == Some((3int, e))
            &&& init_keys_from(b.subrange(3, e), 0) == keys
        }),
{
    let b = init_page(keys, vals);
    let obj = init_object_bytes(keys, vals);
    let ents = init_entries(keys, vals);
    let tail = set_timeout_call();
    let n = ents.len() as int;
    let oe = 5 + n;
    assert(b == seq![88u8, 109, 61] + (seq![123u8] + ents + seq![125u8]) + tail);
    assert(b.len() == oe + 24);
    assert(b[2] == 61 && b[3] == 123 && b[4 + n] == 125);
    assert forall|t: int| 0 <= t < n implies #[trigger] b[4 + t] == ents[t] by {}
    assert forall|t: int| 0 <= t < 24 implies #[trigger] b[oe + t] == tail[t] by {}
    lemma_entries_bytes(keys, vals);

    // the marker and `setTimeout` as bytes
    reveal_strlit(":JSON[");
    reveal_strlit("setTimeout");
    assert(is_ascii_chars(":JSON["@));
    assert(is_ascii_chars("setTimeout"@));
    is_ascii_chars_encode_utf8(":JSON["@);
    is_ascii_chars_encode_utf8("setTimeout"@);
    assert(json_marker() =~= json_marker_bytes());
    let st = "setTimeout".spec_bytes();
    assert(st =~= seq![115u8, 101, 116, 84, 105, 109, 101, 111, 117, 116]);

    // every byte is ASCII, and `=` occurs only at 2
    assert forall|p: int| 0 <= p < b.len() implies #[trigger] b[p] < 128 && (p >= 3 ==> b[p] != 61) by {
        if 4 <= p < 4 + n {
            assert(b[4 + (p - 4)] == ents[p - 4]);
        } else if p >= oe {
            assert(b[oe + (p - oe)] == tail[p - oe]);
        }
    }
    assert(valid_utf8(b)) by {
        assert(valid_utf8(b.subrange(0, 0))) by {
            assert(b.subrange(0, 0) =~= Seq::<u8>::empty());
        }
        assert forall|i: int| 0 <= 0 <= i < b.len() <= b.len() implies #[trigger] is_leading_byte_width_1(b[i]) by {
            assert(b[i] < 128);
        }
        partial_valid_utf8_extend_ascii_block(b, 0, b.len() as int);
        assert(b.subrange(0, b.len() as int) =~= b);
    }
    lemma_boundary_at_ascii(b, b.len() as int);

    // the object closes where it ends
    assert(b.subrange(4, 4 + n) =~= ents);
    lemma_scan_entries(b, 4, keys, vals);
    assert(brace_scan(b, 3, 0, None) == brace_scan(b, 4, 1, None));
    assert(brace_scan(b, 4 + n, 1, None) == Some(oe));
    assert(brace_end_spec(b, 3) == Some(oe));

    // the object's keys
    let o = b.subrange(3, oe);
    assert(o =~= obj);
    assert(o.subrange(1, 1 + n) =~= ents);
    lemma_keys_entries(o, 1, keys, vals);
    assert(init_keys_from(o, 0) == init_keys_from(o, 1));
    assert(init_keys_from(o, 1 + n) =~= Seq::<Seq<u8>>::empty());
    assert(keys + Seq::<Seq<u8>>::empty() =~= keys);
    assert(init_keys_from(o, 0) == keys);

    // `setTimeout` follows the object
    assert(b.subrange(oe, b.len() as int).subrange(1, 11) =~= st);
    assert(occurs_at(b.subrange(oe, b.len() as int), st, 1));
    assert(contains_seq(b.subrange(oe, b.len() as int), st));

    // every marker leads to the object
    assert forall|at: int| occurs_at(b, json_marker(), at) implies #[trigger] init_obj_at(b, at) == Some((3int, oe)) by {
        assert(b.subrange(at, at + 6)[0] == b[at]);
        assert(b[at] == 58);
        assert(at >= 4) by {
            assert(b[0] == 88 && b[1] == 109);
        }
        lemma_last_eq_brace_at_two(b, at);
    }

    // and there is one
    let w = choose|w: int| 0 <= w < vals.len() && vals[w] == InitValue::JsonCall;
    lemma_entries_hold_marker(keys, vals, w);
    let p = choose|p: int| occurs_at(ents, json_marker_bytes(), p);
    assert(b.subrange(4 + p, 4 + p + 6) =~= ents.subrange(p, p + 6)) by {
        assert forall|t: int| 0 <= t < 6 implies #[trigger] b.subrange(4 + p, 4 + p + 6)[t] == ents.subrange(p, p + 6)[t] by {
            assert(b[4 + (p + t)] == ents[p + t]);
        }
    }
    assert(occurs_at(b, json_marker(), 4 + p));
}

} // verus!
