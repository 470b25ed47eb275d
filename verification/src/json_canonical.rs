//! Canonical JSON text of a [`JsonValue`]: object members sorted by key (byte
//! order) at every level, no white space. Numbers are written as integers; a
//! document holding a number that is not an integer has no canonical text here.
use vstd::prelude::*;
use vstd::utf8::encode_utf8;
use crate::fmt::{decimal, push_decimal, push_str};
use crate::json::{JsonNumber, JsonValue};
use crate::run_program_profile::{json_quote, json_quoted, VmProfileValidationError};

verus! {

/// `a` sorts before `b` byte by byte (a proper prefix sorts first).
pub open spec fn bytes_less(a: Seq<u8>, b: Seq<u8>) -> bool
    decreases a.len(),
{
    if b.len() == 0 {
        false
    } else if a.len() == 0 {
        true
    } else if a[0] != b[0] {
        a[0] < b[0]
    } else {
        bytes_less(a.drop_first(), b.drop_first())
    }
}

/// UTF-8 bytes of the key of member `k`.
pub open spec fn member_key(es: Seq<(String, JsonValue)>, k: usize) -> Seq<u8> {
    encode_utf8(es[k as int].0@)
}

/// Position, among the first `upto` of `rem`, of the first least key.
pub open spec fn least_pos(es: Seq<(String, JsonValue)>, rem: Seq<usize>, upto: int) -> int
    decreases upto,
{
    if upto <= 1 {
        0
    } else {
        let p = least_pos(es, rem, upto - 1);
        if bytes_less(member_key(es, rem[upto - 1]), member_key(es, rem[p])) {
            upto - 1
        } else {
            p
        }
    }
}

/// The members `rem` in key order: the least key first, ties in `rem` order.
pub open spec fn sorted_members(es: Seq<(String, JsonValue)>, rem: Seq<usize>) -> Seq<usize>
    decreases rem.len(),
{
    if rem.len() == 0 {
        Seq::empty()
    } else {
        let p = least_pos(es, rem, rem.len() as int);
        if 0 <= p < rem.len() {
            seq![rem[p]] + sorted_members(es, rem.remove(p))
        } else {
            Seq::empty()
        }
    }
}

/// All member indices of `es`, in document order.
pub open spec fn all_members(n: nat) -> Seq<usize> {
    Seq::new(n, |i: int| i as usize)
}

/// The order in which an object's members are written.
pub open spec fn member_order(es: Seq<(String, JsonValue)>) -> Seq<usize> {
    sorted_members(es, all_members(es.len()))
}

/// The integer a JSON number holds, as text.
pub open spec fn number_text(n: JsonNumber) -> Seq<char> {
    match n.as_u64 {
        Some(u) => decimal(u as nat),
        None => match n.as_i64 {
            Some(x) => if x < 0 {
                "-"@ + decimal((-x) as nat)
            } else {
                decimal(x as nat)
            },
            None => Seq::empty(),
        },
    }
}

/// Every number in `v` is an integer.
pub open spec fn integral(v: JsonValue) -> bool
    decreases v, 0nat,
{
    match v {
        JsonValue::Number(n) => n.as_u64 is Some || n.as_i64 is Some,
        JsonValue::Array(items) => integral_items(items@, 0),
        JsonValue::Object(es) => integral_members(es@, 0),
        _ => true,
    }
}

pub open spec fn integral_items(items: Seq<JsonValue>, i: int) -> bool
    decreases items, (items.len() - i) as nat,
{
    if i < 0 || i >= items.len() {
        true
    } else {
        integral(items[i]) && integral_items(items, i + 1)
    }
}

pub open spec fn integral_members(es: Seq<(String, JsonValue)>, i: int) -> bool
    decreases es, (es.len() - i) as nat,
{
    if i < 0 || i >= es.len() {
        true
    } else {
        integral(es[i].1) && integral_members(es, i + 1)
    }
}

/// The canonical text of `v`.
pub open spec fn canon(v: JsonValue) -> Seq<char>
    decreases v, 0nat,
{
    match v {
        JsonValue::Null => "null"@,
        JsonValue::Bool(b) => if b { "true"@ } else { "false"@ },
        JsonValue::Number(n) => number_text(n),
        JsonValue::Text(s) => json_quoted(s@),
        JsonValue::Array(items) => "["@ + canon_items(items@, 0) + "]"@,
        JsonValue::Object(es) => "{"@ + canon_members(es@, member_order(es@), 0) + "}"@,
    }
}

/// Items `i..` of an array, comma-separated (a comma before each but the first).
pub open spec fn canon_items(items: Seq<JsonValue>, i: int) -> Seq<char>
    decreases items, (items.len() - i) as nat,
{
    if i < 0 || i >= items.len() {
        Seq::empty()
    } else {
        (if i == 0 { Seq::empty() } else { ","@ }) + canon(items[i]) + canon_items(items, i + 1)
    }
}

/// Members `order[i..]` of an object as `"key":value`, comma-separated.
pub open spec fn canon_members(es: Seq<(String, JsonValue)>, order: Seq<usize>, i: int) -> Seq<char>
    decreases es, (order.len() - i) as nat,
{
    if i < 0 || i >= order.len() || order[i] >= es.len() {
        Seq::empty()
    } else {
        let k = order[i] as int;
        (if i == 0 { Seq::empty() } else { ","@ }) + json_quoted(es[k].0@) + ":"@ + canon(es[k].1)
            + canon_members(es, order, i + 1)
    }
}

fn bytes_less_exec(a: &[u8], b: &[u8]) -> (r: bool)
    ensures
        r == bytes_less(a@, b@),
{
    let mut i: usize = 0;
    assert(a@.skip(0) =~= a@);
    assert(b@.skip(0) =~= b@);
    while i < a.len() && i < b.len()
        invariant
            i <= a@.len(),
            i <= b@.len(),
            bytes_less(a@, b@) == bytes_less(a@.skip(i as int), b@.skip(i as int)),
        decreases a@.len() - i,
    {
        if a[i] != b[i] {
            return a[i] < b[i];
        }
        assert(a@.skip(i as int).drop_first() =~= a@.skip(i + 1));
        assert(b@.skip(i as int).drop_first() =~= b@.skip(i + 1));
        i = i + 1;
    }
    i < b.len()
}

proof fn lemma_least_pos_in_range(es: Seq<(String, JsonValue)>, rem: Seq<usize>, upto: int)
    requires
        upto >= 1,
    ensures
        0 <= least_pos(es, rem, upto) < upto,
    decreases upto,
{
    if upto > 1 {
        lemma_least_pos_in_range(es, rem, upto - 1);
    }
}

fn least_pos_exec(es: &Vec<(String, JsonValue)>, rem: &Vec<usize>) -> (p: usize)
    requires
        rem@.len() >= 1,
        forall|j: int| 0 <= j < rem@.len() ==> #[trigger] rem@[j] < es@.len(),
    ensures
        p as int == least_pos(es@, rem@, rem@.len() as int),
        p < rem@.len(),
{
    let mut p: usize = 0;
    let mut q: usize = 1;
    while q < rem.len()
        invariant
            1 <= q <= rem@.len(),
            forall|j: int| 0 <= j < rem@.len() ==> #[trigger] rem@[j] < es@.len(),
            p as int == least_pos(es@, rem@, q as int),
        decreases rem@.len() - q,
    {
        proof {
            lemma_least_pos_in_range(es@, rem@, q as int);
        }
        let kq = rem[q];
        let kp = rem[p];
        if bytes_less_exec(es[kq].0.as_str().as_bytes(), es[kp].0.as_str().as_bytes()) {
            p = q;
        }
        q = q + 1;
    }
    proof {
        lemma_least_pos_in_range(es@, rem@, rem@.len() as int);
    }
    p
}

fn member_order_exec(es: &Vec<(String, JsonValue)>) -> (order: Vec<usize>)
    ensures
        order@ == member_order(es@),
        forall|j: int| 0 <= j < order@.len() ==> #[trigger] order@[j] < es@.len(),
{
    let mut rem: Vec<usize> = Vec::new();
    let mut i: usize = 0;
    while i < es.len()
        invariant
            i <= es@.len(),
            rem@ == all_members(i as nat),
        decreases es@.len() - i,
    {
        rem.push(i);
        assert(rem@ =~= all_members((i + 1) as nat));
        i = i + 1;
    }
    let mut order: Vec<usize> = Vec::new();
    assert(order@ + sorted_members(es@, rem@) =~= member_order(es@));
    while rem.len() > 0
        invariant
            order@ + sorted_members(es@, rem@) == member_order(es@),
            forall|j: int| 0 <= j < rem@.len() ==> #[trigger] rem@[j] < es@.len(),
            forall|j: int| 0 <= j < order@.len() ==> #[trigger] order@[j] < es@.len(),
        decreases rem@.len(),
    {
        let p = least_pos_exec(es, &rem);
        let ghost before = rem@;
        let k = rem.remove(p);
        assert(sorted_members(es@, before) == seq![k] + sorted_members(es@, rem@));
        order.push(k);
        assert forall|j: int| 0 <= j < rem@.len() implies #[trigger] rem@[j] < es@.len() by {
            if j < p {
                assert(rem@[j] == before[j]);
            } else {
                assert(rem@[j] == before[j + 1]);
            }
        }
        assert(order@ + sorted_members(es@, rem@) =~= member_order(es@));
    }
    assert(order@ + sorted_members(es@, rem@) =~= order@);
    order
}

proof fn lemma_integral_members_all(es: Seq<(String, JsonValue)>, i: int, k: int)
    requires
        0 <= i <= k < es.len(),
        integral_members(es, i),
    ensures
        integral(es[k].1),
    decreases k - i,
{
    if i < k {
        lemma_integral_members_all(es, i + 1, k);
    }
}

/// Whether every number in `v` is an integer.
fn is_integral(v: &JsonValue) -> (r: bool)
    ensures
        r == integral(*v),
    decreases v,
{
    match v {
        JsonValue::Number(n) => n.as_u64.is_some() || n.as_i64.is_some(),
        JsonValue::Array(items) => {
            let mut i: usize = 0;
            while i < items.len()
                invariant
                    i <= items@.len(),
                    *v == JsonValue::Array(*items),
                    integral(*v) == integral_items(items@, 0),
                    integral_items(items@, 0) == integral_items(items@, i as int),
                decreases items@.len() - i,
            {
                proof {
                    assert(decreases_to!(*v => items@[i as int]));
                }
                if !is_integral(&items[i]) {
                    return false;
                }
                i = i + 1;
            }
            true
        },
        JsonValue::Object(es) => {
            let mut i: usize = 0;
            while i < es.len()
                invariant
                    i <= es@.len(),
                    *v == JsonValue::Object(*es),
                    integral(*v) == integral_members(es@, 0),
                    integral_members(es@, 0) == integral_members(es@, i as int),
                decreases es@.len() - i,
            {
                proof {
                    assert(decreases_to!(*v => es@[i as int].1));
                }
                if !is_integral(&es[i].1) {
                    return false;
                }
                i = i + 1;
            }
            true
        },
        _ => true,
    }
}

fn push_number(out: &mut String, n: &JsonNumber)
    requires
        n.as_u64 is Some || n.as_i64 is Some,
    ensures
        final(out)@ == old(out)@ + number_text(*n),
{
    match n.as_u64 {
        Some(u) => push_decimal(out, u),
        None => match n.as_i64 {
            Some(x) => {
                if x < 0 {
                    push_str(out, "-");
                    let m: u64 = if x == i64::MIN { 9223372036854775808u64 } else { (-x) as u64 };
                    push_decimal(out, m);
                    assert(out@ =~= old(out)@ + number_text(*n));
                } else {
                    push_decimal(out, x as u64);
                }
            },
            None => {},
        },
    }
}

/// Appends the canonical text of `v`.
fn write_canonical(v: &JsonValue, out: &mut String)
    requires
        integral(*v),
    ensures
        final(out)@ == old(out)@ + canon(*v),
    decreases v,
{
    let ghost start = out@;
    match v {
        JsonValue::Null => push_str(out, "null"),
        JsonValue::Bool(b) => {
            if *b {
                push_str(out, "true");
            } else {
                push_str(out, "false");
            }
        },
        JsonValue::Number(n) => push_number(out, n),
        JsonValue::Text(s) => {
            let q = json_quote(s.as_str());
            push_str(out, q.as_str());
        },
        JsonValue::Array(items) => {
            push_str(out, "[");
            let mut i: usize = 0;
            while i < items.len()
                invariant
                    i <= items@.len(),
                    *v == JsonValue::Array(*items),
                    integral_items(items@, i as int),
                    out@ + canon_items(items@, i as int) == start + "["@ + canon_items(items@, 0),
                decreases items@.len() - i,
            {
                let ghost before = out@;
                proof {
                    assert(decreases_to!(*v => (*v)->Array_0));
                    assert(decreases_to!(*items => items@));
                    assert(decreases_to!(items@ => items@[i as int]));
                    assert(decreases_to!(*v => items@[i as int]));
                }
                if i > 0 {
                    push_str(out, ",");
                }
                write_canonical(&items[i], out);
                assert(out@ + canon_items(items@, i + 1) =~= before + canon_items(items@, i as int));
                i = i + 1;
            }
            push_str(out, "]");
            assert(out@ =~= start + canon(*v));
        },
        JsonValue::Object(es) => {
            push_str(out, "{");
            let order = member_order_exec(es);
            let mut i: usize = 0;
            while i < order.len()
                invariant
                    i <= order@.len(),
                    order@ == member_order(es@),
                    *v == JsonValue::Object(*es),
                    forall|j: int| 0 <= j < order@.len() ==> #[trigger] order@[j] < es@.len(),
                    integral_members(es@, 0),
                    out@ + canon_members(es@, order@, i as int) == start + "{"@ + canon_members(es@, order@, 0),
                decreases order@.len() - i,
            {
                let ghost before = out@;
                if i > 0 {
                    push_str(out, ",");
                }
                let k = order[i];
                assert(order@[i as int] < es@.len());
                let q = json_quote(es[k].0.as_str());
                push_str(out, q.as_str());
                push_str(out, ":");
                proof {
                    lemma_integral_members_all(es@, 0, k as int);
                    assert(decreases_to!(*v => (*v)->Object_0));
                    assert(decreases_to!(*es => es@));
                    assert(decreases_to!(es@ => es@[k as int]));
                    assert(decreases_to!(es@[k as int] => es@[k as int].1));
                    assert(decreases_to!(*v => es@[k as int].1));
                }
                write_canonical(&es[k].1, out);
                assert(out@ + canon_members(es@, order@, i + 1) =~= before + canon_members(es@, order@, i as int));
                i = i + 1;
            }
            push_str(out, "}");
            assert(out@ =~= start + canon(*v));
        },
    }
}

/// Why a document holding a number that is not an integer has no canonical text.
pub open spec fn canonical_error_message() -> Seq<char> {
    "canonical JSON holds integers only"@
}

/// Canonical JSON text of `value`: object keys sorted at every level, no white
/// space. Fails when a number in it is not an integer.
pub fn canonical_json(value: &JsonValue) -> (r: Result<String, VmProfileValidationError>)
    ensures
        r is Ok <==> integral(*value),
        r matches Ok(s) ==> s@ == canon(*value),
        r matches Err(e) ==> e.reason@ == canonical_error_message(),
{
    if !is_integral(value) {
        let mut s = String::new();
        push_str(&mut s, "canonical JSON holds integers only");
        return Err(VmProfileValidationError { reason: s });
    }
    let mut out = String::new();
    write_canonical(value, &mut out);
    assert(out@ =~= canon(*value));
    Ok(out)
}

/// No sequence sorts before itself.
proof fn lemma_bytes_less_irreflexive(a: Seq<u8>)
    ensures
        !bytes_less(a, a),
    decreases a.len(),
{
    if a.len() > 0 {
        lemma_bytes_less_irreflexive(a.drop_first());
    }
}

/// Byte order is transitive.
proof fn lemma_bytes_less_transitive(a: Seq<u8>, b: Seq<u8>, c: Seq<u8>)
    requires
        bytes_less(a, b),
        bytes_less(b, c),
    ensures
        bytes_less(a, c),
    decreases a.len(),
{
    if a.len() > 0 && b.len() > 0 && c.len() > 0 && a[0] == b[0] && b[0] == c[0] {
        lemma_bytes_less_transitive(a.drop_first(), b.drop_first(), c.drop_first());
    }
}

/// The member picked first sorts no later than any other in `rem[..upto]`.
proof fn lemma_least_pos_least(es: Seq<(String, JsonValue)>, rem: Seq<usize>, upto: int, q: int)
    requires
        1 <= upto <= rem.len(),
        0 <= q < upto,
    ensures
        !bytes_less(member_key(es, rem[q]), member_key(es, rem[least_pos(es, rem, upto)])),
    decreases upto,
{
    lemma_least_pos_in_range(es, rem, upto);
    if upto == 1 {
        lemma_bytes_less_irreflexive(member_key(es, rem[0]));
    } else {
        let p = least_pos(es, rem, upto - 1);
        lemma_least_pos_in_range(es, rem, upto - 1);
        let kn = member_key(es, rem[upto - 1]);
        let kp = member_key(es, rem[p]);
        if bytes_less(kn, kp) {
            if q == upto - 1 {
                lemma_bytes_less_irreflexive(kn);
            } else {
                lemma_least_pos_least(es, rem, upto - 1, q);
                if bytes_less(member_key(es, rem[q]), kn) {
                    lemma_bytes_less_transitive(member_key(es, rem[q]), kn, kp);
                }
            }
        } else if q < upto - 1 {
            lemma_least_pos_least(es, rem, upto - 1, q);
        }
    }
}

/// `sorted_members` writes each member of `rem` once, in key order.
proof fn lemma_sorted_members(es: Seq<(String, JsonValue)>, rem: Seq<usize>)
    ensures
        sorted_members(es, rem).to_multiset() == rem.to_multiset(),
        forall|i: int, j: int| 0 <= i < j < sorted_members(es, rem).len() ==>
            !bytes_less(member_key(es, #[trigger] sorted_members(es, rem)[j]), member_key(es, #[trigger] sorted_members(es, rem)[i])),
    decreases rem.len(),
{
    broadcast use vstd::seq_lib::group_to_multiset_ensures;
    broadcast use vstd::seq_lib::lemma_multiset_commutative;
    if rem.len() > 0 {
        let p = least_pos(es, rem, rem.len() as int);
        lemma_least_pos_in_range(es, rem, rem.len() as int);
        let m = rem[p];
        let rest = rem.remove(p);
        let out = sorted_members(es, rem);
        let tail = sorted_members(es, rest);
        lemma_sorted_members(es, rest);
        assert(out == seq![m] + tail);
        assert(rem.to_multiset() =~= rest.to_multiset().insert(m)) by {
            assert(rest.to_multiset() =~= rem.to_multiset().remove(m));
            assert(rem.to_multiset().count(m) > 0) by {
                assert(rem.contains(m));
            }
        }
        assert((seq![m] + tail).to_multiset() =~= seq![m].to_multiset().add(tail.to_multiset()));
        assert(seq![m].to_multiset() =~= Seq::<usize>::empty().push(m).to_multiset());
        assert(Seq::<usize>::empty().push(m).to_multiset() =~= Seq::<usize>::empty().to_multiset().insert(m));
        assert(out.to_multiset() =~= rem.to_multiset());
        assert forall|i: int, j: int| 0 <= i < j < out.len() implies
            !bytes_less(member_key(es, #[trigger] out[j]), member_key(es, #[trigger] out[i])) by {
            if i == 0 {
                let x = out[j];
                assert(x == tail[j - 1]);
                assert(tail.to_multiset().count(x) > 0) by {
                    assert(tail.contains(x));
                }
                assert(rest.contains(x));
                let r = choose|r: int| 0 <= r < rest.len() && rest[r] == x;
                let q = if r < p { r } else { r + 1 };
                assert(rem[q] == x);
                lemma_least_pos_least(es, rem, rem.len() as int, q);
            } else {
                assert(out[i] == tail[i - 1] && out[j] == tail[j - 1]);
            }
        }
    }
}

/// An object's members are written each once, in key order: the member
/// order is a rearrangement of the members, and no member's key sorts before
/// the key of a member written earlier.
pub proof fn lemma_canonical_member_order(es: Seq<(String, JsonValue)>)
    ensures
        member_order(es).to_multiset() == all_members(es.len()).to_multiset(),
        forall|i: int, j: int| 0 <= i < j < member_order(es).len() ==>
            !bytes_less(member_key(es, #[trigger] member_order(es)[j]), member_key(es, #[trigger] member_order(es)[i])),
{
    lemma_sorted_members(es, all_members(es.len()));
}

} // verus!
