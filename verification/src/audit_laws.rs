//! What canonicalization guarantees.
//!
//! Two laws pin the canonical form down from both sides: records that differ
//! only in the order, surrounding whitespace, blanks or repetition of their
//! tags serialize — and therefore hash — identically; and a record whose
//! score differs serializes differently.

use vstd::prelude::*;

use crate::audit::{
    audit_hash_of, canonical_record, canonical_tags, clean_tags, decimal_digits,
    insert_sorted_distinct, joined_tags, lex_lt, quoted, sorted_insert_all, split_commas, tag_set,
};
use crate::hex_codec::lemma_hex_char_of_value;

verus! {

/// A tag sequence in canonical order: strictly ascending, so free of
/// duplicates.
pub open spec fn lex_sorted(s: Seq<Seq<char>>) -> bool {
    forall|i: int, j: int| 0 <= i < j < s.len() ==> lex_lt(#[trigger] s[i], #[trigger] s[j])
}

/// Nothing comes before itself in the tag order.
proof fn lemma_lex_lt_irreflexive(a: Seq<char>)
    ensures
        !lex_lt(a, a),
    decreases a.len(),
{
    if a.len() > 0 {
        lemma_lex_lt_irreflexive(a.drop_first());
    }
}

/// Two tags are ordered one way or the other, or they are equal.
proof fn lemma_lex_lt_trichotomy(a: Seq<char>, b: Seq<char>)
    ensures
        lex_lt(a, b) || lex_lt(b, a) || a == b,
    decreases a.len(),
{
    if a.len() == 0 && b.len() == 0 {
        assert(a =~= b);
    } else if a.len() > 0 && b.len() > 0 {
        if a[0] == b[0] {
            lemma_lex_lt_trichotomy(a.drop_first(), b.drop_first());
            if a.drop_first() == b.drop_first() {
                assert(a.drop_first().len() == b.drop_first().len());
                assert(a.len() == b.len());
                assert forall|i: int| 0 <= i < a.len() implies a[i] == b[i] by {
                    if i > 0 {
                        assert(a.drop_first()[i - 1] == a[i]);
                        assert(b.drop_first()[i - 1] == b[i]);
                    }
                }
                assert(a =~= b);
            }
        } else {
            vstd::utf8::char_u32_cast(a[0], a[0] as u32);
            vstd::utf8::char_u32_cast(b[0], b[0] as u32);
            assert((a[0] as u32) != (b[0] as u32));
        }
    }
}

/// The tag order is transitive.
proof fn lemma_lex_lt_transitive(a: Seq<char>, b: Seq<char>, c: Seq<char>)
    requires
        lex_lt(a, b),
        lex_lt(b, c),
    ensures
        lex_lt(a, c),
    decreases a.len(),
{
    if a.len() > 0 && b.len() > 0 && c.len() > 0 {
        if a[0] == b[0] && b[0] == c[0] {
            lemma_lex_lt_transitive(a.drop_first(), b.drop_first(), c.drop_first());
        }
    }
}

/// Placing a tag into a sorted, duplicate-free sequence keeps it sorted and
/// duplicate-free, and its contents are the old contents and the tag.
proof fn lemma_insert_sorted_distinct(s: Seq<Seq<char>>, t: Seq<char>)
    requires
        lex_sorted(s),
    ensures
        lex_sorted(insert_sorted_distinct(s, t)),
        forall|x: Seq<char>|
            #[trigger] insert_sorted_distinct(s, t).contains(x) <==> (s.contains(x) || x == t),
    decreases s.len(),
{
    let r = insert_sorted_distinct(s, t);
    if s.len() == 0 {
        assert(r == seq![t]);
        assert(r[0] == t);
        assert forall|x: Seq<char>| #[trigger] r.contains(x) <==> (s.contains(x) || x == t) by {
            if x == t {
                assert(r.contains(r[0]));
            }
        }
    } else if t == s[0] {
        assert forall|x: Seq<char>| #[trigger] r.contains(x) <==> (s.contains(x) || x == t) by {
            if x == t {
                assert(s[0] == x);
                assert(s.contains(s[0]));
            }
        }
    } else if lex_lt(t, s[0]) {
        assert(r == seq![t] + s);
        assert forall|i: int, j: int| 0 <= i < j < r.len() implies lex_lt(r[i], r[j]) by {
            if i == 0 {
                assert(r[0] == t);
                assert(r[j] == s[j - 1]);
                if j > 1 {
                    lemma_lex_lt_transitive(t, s[0], s[j - 1]);
                }
            } else {
                assert(r[i] == s[i - 1]);
                assert(r[j] == s[j - 1]);
            }
        }
        assert forall|x: Seq<char>| #[trigger] r.contains(x) <==> (s.contains(x) || x == t) by {
            if r.contains(x) {
                let k = choose|k: int| 0 <= k < r.len() && r[k] == x;
                if k == 0 {
                } else {
                    assert(s[k - 1] == x);
                    assert(s.contains(s[k - 1]));
                }
            }
            if x == t {
                assert(r[0] == t);
                assert(r.contains(r[0]));
            }
            if s.contains(x) {
                let k = choose|k: int| 0 <= k < s.len() && s[k] == x;
                assert(r[k + 1] == x);
                assert(r.contains(r[k + 1]));
            }
        }
    } else {
        let tail = s.drop_first();
        assert forall|i: int, j: int| 0 <= i < j < tail.len() implies lex_lt(
            #[trigger] tail[i],
            #[trigger] tail[j],
        ) by {
            assert(tail[i] == s[i + 1]);
            assert(tail[j] == s[j + 1]);
        }
        lemma_insert_sorted_distinct(tail, t);
        let rt = insert_sorted_distinct(tail, t);
        assert(r == seq![s[0]] + rt);
        lemma_lex_lt_trichotomy(t, s[0]);
        assert(lex_lt(s[0], t));
        assert forall|i: int, j: int| 0 <= i < j < r.len() implies lex_lt(r[i], r[j]) by {
            if i == 0 {
                assert(r[j] == rt[j - 1]);
                assert(rt.contains(rt[j - 1]));
                if rt[j - 1] == t {
                } else {
                    assert(tail.contains(rt[j - 1]));
                    let k = choose|k: int| 0 <= k < tail.len() && tail[k] == rt[j - 1];
                    assert(tail[k] == s[k + 1]);
                    assert(lex_lt(s[0], s[k + 1]));
                }
            } else {
                assert(r[i] == rt[i - 1]);
                assert(r[j] == rt[j - 1]);
            }
        }
        assert forall|x: Seq<char>| #[trigger] r.contains(x) <==> (s.contains(x) || x == t) by {
            if r.contains(x) {
                let k = choose|k: int| 0 <= k < r.len() && r[k] == x;
                if k == 0 {
                    assert(s.contains(s[0]));
                } else {
                    assert(rt[k - 1] == x);
                    assert(rt.contains(rt[k - 1]));
                    if tail.contains(x) {
                        let m = choose|m: int| 0 <= m < tail.len() && tail[m] == x;
                        assert(s[m + 1] == x);
                        assert(s.contains(s[m + 1]));
                    }
                }
            }
            if x == t {
                assert(rt.contains(t));
                let k = choose|k: int| 0 <= k < rt.len() && rt[k] == x;
                assert(r[k + 1] == x);
                assert(r.contains(r[k + 1]));
            }
            if s.contains(x) {
                let k = choose|k: int| 0 <= k < s.len() && s[k] == x;
                if k == 0 {
                    assert(r[0] == x);
                    assert(r.contains(r[0]));
                } else {
                    assert(tail[k - 1] == x);
                    assert(tail.contains(tail[k - 1]));
                    assert(rt.contains(x));
                    let m = choose|m: int| 0 <= m < rt.len() && rt[m] == x;
                    assert(r[m + 1] == x);
                    assert(r.contains(r[m + 1]));
                }
            }
        }
    }
}

/// Placing every element of `ts` into a sorted, duplicate-free accumulator
/// keeps it sorted and duplicate-free, and the contents come to the union.
proof fn lemma_sorted_insert_all(acc: Seq<Seq<char>>, ts: Seq<Seq<char>>)
    requires
        lex_sorted(acc),
    ensures
        lex_sorted(sorted_insert_all(acc, ts)),
        forall|x: Seq<char>|
            #[trigger] sorted_insert_all(acc, ts).contains(x) <==> (acc.contains(x)
                || ts.contains(x)),
    decreases ts.len(),
{
    if ts.len() == 0 {
        assert forall|x: Seq<char>|
            #[trigger] sorted_insert_all(acc, ts).contains(x) <==> (acc.contains(x)
                || ts.contains(x)) by {
            if ts.contains(x) {
                let k = choose|k: int| 0 <= k < ts.len() && ts[k] == x;
            }
        }
    } else {
        lemma_insert_sorted_distinct(acc, ts[0]);
        lemma_sorted_insert_all(insert_sorted_distinct(acc, ts[0]), ts.drop_first());
        assert forall|x: Seq<char>|
            #[trigger] sorted_insert_all(acc, ts).contains(x) <==> (acc.contains(x)
                || ts.contains(x)) by {
            if ts.contains(x) {
                let k = choose|k: int| 0 <= k < ts.len() && ts[k] == x;
                if k == 0 {
                } else {
                    assert(ts.drop_first()[k - 1] == x);
                    assert(ts.drop_first().contains(ts.drop_first()[k - 1]));
                }
            }
            if ts.drop_first().contains(x) {
                let k = choose|k: int| 0 <= k < ts.drop_first().len() && ts.drop_first()[k] == x;
                assert(ts[k + 1] == x);
                assert(ts.contains(ts[k + 1]));
            }
            if x == ts[0] {
                assert(ts.contains(ts[0]));
            }
        }
    }
}

/// Two sorted, duplicate-free sequences with the same contents are the same
/// sequence.
proof fn lemma_lex_sorted_unique(x: Seq<Seq<char>>, y: Seq<Seq<char>>)
    requires
        lex_sorted(x),
        lex_sorted(y),
        forall|e: Seq<char>| x.contains(e) <==> y.contains(e),
    ensures
        x == y,
    decreases x.len(),
{
    if x.len() == 0 {
        if y.len() > 0 {
            assert(y.contains(y[0]));
        }
        assert(x =~~= y);
    } else if y.len() == 0 {
        assert(x.contains(x[0]));
    } else {
        assert(x.contains(x[0]));
        assert(y.contains(y[0]));
        let i = choose|i: int| 0 <= i < y.len() && y[i] == x[0];
        let j = choose|j: int| 0 <= j < x.len() && x[j] == y[0];
        if i > 0 {
            assert(lex_lt(y[0], y[i]));
        }
        if j > 0 {
            assert(lex_lt(x[0], x[j]));
        }
        if i > 0 && j > 0 {
            lemma_lex_lt_transitive(x[0], y[0], x[0]);
            lemma_lex_lt_irreflexive(x[0]);
        }
        assert(x[0] == y[0]);
        let xt = x.drop_first();
        let yt = y.drop_first();
        assert forall|e: Seq<char>| xt.contains(e) <==> yt.contains(e) by {
            lemma_tail_contains(x, e);
            lemma_tail_contains(y, e);
        }
        assert forall|a: int, b: int| 0 <= a < b < xt.len() implies lex_lt(
            #[trigger] xt[a],
            #[trigger] xt[b],
        ) by {
            assert(xt[a] == x[a + 1]);
            assert(xt[b] == x[b + 1]);
        }
        assert forall|a: int, b: int| 0 <= a < b < yt.len() implies lex_lt(
            #[trigger] yt[a],
            #[trigger] yt[b],
        ) by {
            assert(yt[a] == y[a + 1]);
            assert(yt[b] == y[b + 1]);
        }
        lemma_lex_sorted_unique(xt, yt);
        assert(xt.len() == yt.len());
        assert(x.len() == y.len());
        assert forall|k: int| 0 <= k < x.len() implies x[k] == y[k] by {
            if k > 0 {
                assert(xt[k - 1] == x[k]);
                assert(yt[k - 1] == y[k]);
            }
        }
        assert(x =~~= y);
    }
}

/// In a sorted, duplicate-free sequence, the tail holds exactly the elements
/// other than the head.
proof fn lemma_tail_contains(s: Seq<Seq<char>>, e: Seq<char>)
    requires
        lex_sorted(s),
        s.len() > 0,
    ensures
        s.drop_first().contains(e) <==> (s.contains(e) && e != s[0]),
{
    let t = s.drop_first();
    if t.contains(e) {
        let k = choose|k: int| 0 <= k < t.len() && t[k] == e;
        assert(s[k + 1] == e);
        assert(s.contains(s[k + 1]));
        assert(lex_lt(s[0], s[k + 1]));
        lemma_lex_lt_irreflexive(s[0]);
    }
    if s.contains(e) && e != s[0] {
        let k = choose|k: int| 0 <= k < s.len() && s[k] == e;
        assert(k > 0);
        assert(t[k - 1] == e);
        assert(t.contains(t[k - 1]));
    }
}

/// The canonical tag sequence is sorted, duplicate-free, and holds exactly
/// the record's tag set.
pub proof fn lemma_canonical_tags_shape(csv: Seq<char>)
    ensures
        lex_sorted(canonical_tags(csv)),
        forall|x: Seq<char>| #[trigger] canonical_tags(csv).contains(x) <==> tag_set(csv).contains(
            x,
        ),
{
    lemma_sorted_insert_all(Seq::empty(), clean_tags(split_commas(csv)));
    assert forall|x: Seq<char>|
        #[trigger] canonical_tags(csv).contains(x) <==> tag_set(csv).contains(x) by {
        assert(tag_set(csv).contains(x) <==> clean_tags(split_commas(csv)).contains(x));
    }
}

/// Canonicalization is order-independent over tags: two tag lists that stand
/// for the same tag set — however ordered, spaced, repeated or padded with
/// blanks — canonicalize to the same tag sequence, so records differing only
/// so serialize and hash identically.
pub proof fn lemma_audit_hash_tag_order_independent(
    action: Seq<char>,
    prompt: Seq<char>,
    score: u8,
    csv1: Seq<char>,
    csv2: Seq<char>,
    decision: Seq<char>,
    reason: Seq<char>,
    timestamp: Seq<char>,
)
    requires
        tag_set(csv1) == tag_set(csv2),
    ensures
        canonical_tags(csv1) == canonical_tags(csv2),
        canonical_record(action, prompt, score, canonical_tags(csv1), decision, reason, timestamp)
            == canonical_record(
            action,
            prompt,
            score,
            canonical_tags(csv2),
            decision,
            reason,
            timestamp,
        ),
        audit_hash_of(action, prompt, score, csv1, decision, reason, timestamp) == audit_hash_of(
            action,
            prompt,
            score,
            csv2,
            decision,
            reason,
            timestamp,
        ),
{
    lemma_canonical_tags_shape(csv1);
    lemma_canonical_tags_shape(csv2);
    lemma_lex_sorted_unique(canonical_tags(csv1), canonical_tags(csv2));
}

/// The decimal rendering is one digit under 10, two under 100, else three.
proof fn lemma_decimal_digits_len(v: u8)
    ensures
        decimal_digits(v).len() == if v < 10 {
            1int
        } else if v < 100 {
            2int
        } else {
            3int
        },
{
}

/// Different scores render to different decimal digit strings.
proof fn lemma_decimal_digits_injective(a: u8, b: u8)
    requires
        a != b,
    ensures
        decimal_digits(a) != decimal_digits(b),
{
    let da = decimal_digits(a);
    let db = decimal_digits(b);
    lemma_decimal_digits_len(a);
    lemma_decimal_digits_len(b);
    if da == db {
        if a < 10 {
            assert(b < 10);
            lemma_hex_char_of_value(a);
            lemma_hex_char_of_value(b);
            assert(da[0] == db[0]);
        } else if a < 100 {
            assert(10 <= b < 100);
            lemma_hex_char_of_value(a / 10);
            lemma_hex_char_of_value(a % 10);
            lemma_hex_char_of_value(b / 10);
            lemma_hex_char_of_value(b % 10);
            assert(da[0] == db[0] && da[1] == db[1]);
            assert(a / 10 == b / 10 && a % 10 == b % 10);
            assert(a == 10 * (a / 10) + a % 10) by (nonlinear_arith);
            assert(b == 10 * (b / 10) + b % 10) by (nonlinear_arith);
        } else {
            assert(b >= 100);
            lemma_hex_char_of_value(a / 100);
            lemma_hex_char_of_value((a / 10) % 10);
            lemma_hex_char_of_value(a % 10);
            lemma_hex_char_of_value(b / 100);
            lemma_hex_char_of_value((b / 10) % 10);
            lemma_hex_char_of_value(b % 10);
            assert(da[0] == db[0] && da[1] == db[1] && da[2] == db[2]);
            assert(a / 100 == b / 100 && (a / 10) % 10 == (b / 10) % 10 && a % 10 == b % 10);
            assert(a / 10 == 10 * (a / 100) + (a / 10) % 10) by (nonlinear_arith);
            assert(b / 10 == 10 * (b / 100) + (b / 10) % 10) by (nonlinear_arith);
            assert(a == 10 * (a / 10) + a % 10) by (nonlinear_arith);
            assert(b == 10 * (b / 10) + b % 10) by (nonlinear_arith);
        }
    }
}

/// The canonical serialization is sensitive to the score: two records equal
/// in every field but the score serialize to different character sequences,
/// and so to different byte sequences.
pub proof fn lemma_audit_record_score_sensitive(
    action: Seq<char>,
    prompt: Seq<char>,
    s1: u8,
    s2: u8,
    tags: Seq<Seq<char>>,
    decision: Seq<char>,
    reason: Seq<char>,
    timestamp: Seq<char>,
)
    requires
        s1 != s2,
    ensures
        canonical_record(action, prompt, s1, tags, decision, reason, timestamp)
            != canonical_record(action, prompt, s2, tags, decision, reason, timestamp),
        vstd::utf8::encode_utf8(canonical_record(action, prompt, s1, tags, decision, reason, timestamp))
            != vstd::utf8::encode_utf8(
            canonical_record(action, prompt, s2, tags, decision, reason, timestamp),
        ),
{
    let p = "{\"action\":"@ + quoted(action) + ",\"prompt\":"@ + quoted(prompt) + ",\"score\":"@;
    let t = ",\"tags\":["@ + joined_tags(tags) + "],\"decision\":"@ + quoted(decision)
        + ",\"reason\":"@ + quoted(reason) + ",\"timestamp\":"@ + quoted(timestamp) + "}"@;
    let d1 = decimal_digits(s1);
    let d2 = decimal_digits(s2);
    let r1 = canonical_record(action, prompt, s1, tags, decision, reason, timestamp);
    let r2 = canonical_record(action, prompt, s2, tags, decision, reason, timestamp);
    assert(r1 =~= p + d1 + t);
    assert(r2 =~= p + d2 + t);
    lemma_decimal_digits_injective(s1, s2);
    if r1 == r2 {
        if d1.len() == d2.len() {
            if forall|k: int| 0 <= k < d1.len() ==> #[trigger] d1[k] == d2[k] {
                assert(d1 =~= d2);
            }
            let k = choose|k: int| 0 <= k < d1.len() && d1[k] != d2[k];
            assert(r1[p.len() + k] == d1[k]);
            assert(r2[p.len() + k] == d2[k]);
        } else {
            assert(r1.len() == p.len() + d1.len() + t.len());
            assert(r2.len() == p.len() + d2.len() + t.len());
        }
    }
    vstd::utf8::encode_utf8_decode_utf8(r1);
    vstd::utf8::encode_utf8_decode_utf8(r2);
}

} // verus!
