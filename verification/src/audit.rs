//! Canonicalization of audit records.
//!
//! An audit record's fields are serialized in one fixed order into a JSON
//! object whose byte form never varies for semantically equal inputs: the
//! comma-separated tag list is split, each tag trimmed of surrounding
//! whitespace, blanks dropped, duplicates removed, and the rest sorted; the
//! serialization itself escapes strings the way the canonical form fixes
//! them. The digest of those bytes is the record's hash.

use vstd::prelude::*;
use vstd::slice::{slice_index_get, slice_subrange};
use vstd::string::{StrSliceExecFns, StringExecFns};
use vstd::utf8::encode_utf8;

use crate::checksum::{sha256_digest, sha256_of};
use crate::hex_codec::{hex_char_of, hex_encode, hex_encoding_of};

verus! {

/// A whitespace character, by the Unicode `White_Space` property: what
/// trimming removes from the ends of a tag.
pub open spec fn is_space_char(c: char) -> bool {
    let u = c as u32;
    u == 0x09 || u == 0x0A || u == 0x0B || u == 0x0C || u == 0x0D || u == 0x20 || u == 0x85 || u
        == 0xA0 || u == 0x1680 || (0x2000 <= u && u <= 0x200A) || u == 0x2028 || u == 0x2029 || u
        == 0x202F || u == 0x205F || u == 0x3000
}

/// `s` without leading whitespace.
pub open spec fn trim_front(s: Seq<char>) -> Seq<char>
    decreases s.len(),
{
    if s.len() > 0 && is_space_char(s[0]) {
        trim_front(s.drop_first())
    } else {
        s
    }
}

/// `s` without trailing whitespace.
pub open spec fn trim_back(s: Seq<char>) -> Seq<char>
    decreases s.len(),
{
    if s.len() > 0 && is_space_char(s.last()) {
        trim_back(s.drop_last())
    } else {
        s
    }
}

/// `s` without surrounding whitespace.
pub open spec fn trimmed(s: Seq<char>) -> Seq<char> {
    trim_back(trim_front(s))
}

/// `s` split on commas. The result always holds one piece more than `s`
/// holds commas; an empty `s` gives one empty piece.
pub open spec fn split_commas(s: Seq<char>) -> Seq<Seq<char>>
    decreases s.len(),
{
    if s.len() == 0 {
        seq![Seq::<char>::empty()]
    } else if s[0] == ',' {
        seq![Seq::<char>::empty()] + split_commas(s.drop_first())
    } else {
        let rest = split_commas(s.drop_first());
        seq![seq![s[0]] + rest[0]] + rest.drop_first()
    }
}

/// Strict lexicographic order on character sequences, by scalar value.
pub open spec fn lex_lt(a: Seq<char>, b: Seq<char>) -> bool
    decreases a.len(),
{
    if b.len() == 0 {
        false
    } else if a.len() == 0 {
        true
    } else if a[0] == b[0] {
        lex_lt(a.drop_first(), b.drop_first())
    } else {
        (a[0] as u32) < (b[0] as u32)
    }
}

/// `t` placed into the sorted, duplicate-free sequence `s`: before the first
/// element it is less than, and not at all if it is already there.
pub open spec fn insert_sorted_distinct(s: Seq<Seq<char>>, t: Seq<char>) -> Seq<Seq<char>>
    decreases s.len(),
{
    if s.len() == 0 {
        seq![t]
    } else if t == s[0] {
        s
    } else if lex_lt(t, s[0]) {
        seq![t] + s
    } else {
        seq![s[0]] + insert_sorted_distinct(s.drop_first(), t)
    }
}

/// Every element of `ts` placed into `acc` in turn.
pub open spec fn sorted_insert_all(acc: Seq<Seq<char>>, ts: Seq<Seq<char>>) -> Seq<Seq<char>>
    decreases ts.len(),
{
    if ts.len() == 0 {
        acc
    } else {
        sorted_insert_all(insert_sorted_distinct(acc, ts[0]), ts.drop_first())
    }
}

/// The pieces of a split tag list after trimming, blanks dropped.
pub open spec fn clean_tags(pieces: Seq<Seq<char>>) -> Seq<Seq<char>> {
    pieces.map_values(|p: Seq<char>| trimmed(p)).filter(|p: Seq<char>| p.len() > 0)
}

/// The set of tags a comma-separated list stands for: each piece trimmed,
/// blanks dropped, order and repetition forgotten.
pub open spec fn tag_set(csv: Seq<char>) -> Set<Seq<char>> {
    clean_tags(split_commas(csv)).to_set()
}

/// The canonical tag sequence of a comma-separated list: its tag set,
/// sorted lexicographically, without duplicates.
pub open spec fn canonical_tags(csv: Seq<char>) -> Seq<Seq<char>> {
    sorted_insert_all(Seq::empty(), clean_tags(split_commas(csv)))
}

/// Whether `c` is a whitespace character.
fn is_space(c: char) -> (r: bool)
    ensures
        r == is_space_char(c),
{
    let u = c as u32;
    u == 0x09 || u == 0x0A || u == 0x0B || u == 0x0C || u == 0x0D || u == 0x20 || u == 0x85 || u
        == 0xA0 || u == 0x1680 || (0x2000 <= u && u <= 0x200A) || u == 0x2028 || u == 0x2029 || u
        == 0x202F || u == 0x205F || u == 0x3000
}

/// The characters of `s`, as a vector.
fn str_chars(s: &str) -> (r: Vec<char>)
    ensures
        r@ == s@,
{
    let n = s.unicode_len();
    let mut out: Vec<char> = Vec::new();
    let mut i: usize = 0;
    while i < n
        invariant
            i <= n,
            n == s@.len(),
            out@ == s@.take(i as int),
        decreases n - i,
    {
        out.push(s.get_char(i));
        proof {
            assert(s@.take(i + 1 as int) =~= s@.take(i as int).push(s@[i as int]));
        }
        i = i + 1;
    }
    proof {
        assert(s@.take(n as int) =~= s@);
    }
    out
}

/// `chars` split on commas, mirroring `split_commas`.
fn split_tags(chars: &[char]) -> (r: Vec<Vec<char>>)
    ensures
        r.deep_view() == split_commas(chars@),
        r.len() >= 1,
    decreases chars@.len(),
{
    if chars.len() == 0 {
        let mut r: Vec<Vec<char>> = Vec::new();
        r.push(Vec::new());
        proof {
            assert(r.deep_view() =~~= split_commas(chars@));
        }
        r
    } else if *slice_index_get(chars, 0) == ',' {
        let mut rest = split_tags(slice_subrange(chars, 1, chars.len()));
        rest.insert(0, Vec::new());
        proof {
            assert(chars@.subrange(1, chars@.len() as int) =~= chars@.drop_first());
            assert(rest.deep_view() =~~= split_commas(chars@));
        }
        rest
    } else {
        let c = *slice_index_get(chars, 0);
        let mut rest = split_tags(slice_subrange(chars, 1, chars.len()));
        let mut first = rest.remove(0);
        first.insert(0, c);
        rest.insert(0, first);
        proof {
            assert(chars@.subrange(1, chars@.len() as int) =~= chars@.drop_first());
            let spec_rest = split_commas(chars@.drop_first());
            assert(seq![c] + spec_rest[0] =~= spec_rest[0].insert(0, c));
            assert(rest.deep_view() =~~= split_commas(chars@));
        }
        rest
    }
}

/// `p` without surrounding whitespace, mirroring `trimmed`.
fn trim_piece(p: &Vec<char>) -> (r: Vec<char>)
    ensures
        r@ == trimmed(p@),
{
    let n = p.len();
    let mut start: usize = 0;
    proof {
        assert(p@.skip(0) =~= p@);
    }
    while start < n && is_space(p[start])
        invariant
            start <= n,
            n == p@.len(),
            trim_front(p@) == trim_front(p@.skip(start as int)),
        decreases n - start,
    {
        proof {
            assert(p@.skip(start as int).drop_first() =~= p@.skip(start as int + 1));
        }
        start = start + 1;
    }
    proof {
        if start < n {
            assert(trim_front(p@.skip(start as int)) == p@.skip(start as int));
        }
        assert(trim_front(p@) == p@.skip(start as int));
    }
    let t = Ghost(p@.skip(start as int));
    let mut end: usize = n;
    proof {
        assert(t@.take(t@.len() as int) =~= t@);
    }
    while end > start && is_space(p[end - 1])
        invariant
            start <= end <= n,
            n == p@.len(),
            t@ == p@.skip(start as int),
            trim_back(t@) == trim_back(t@.take(end - start as int)),
        decreases end,
    {
        proof {
            let k = end - start as int;
            assert(t@.take(k).last() == p@[end - 1]);
            assert(t@.take(k).drop_last() =~= t@.take(k - 1));
        }
        end = end - 1;
    }
    proof {
        if end > start {
            assert(t@.take(end - start as int).last() == p@[end - 1]);
            assert(trim_back(t@.take(end - start as int)) == t@.take(end - start as int));
        }
        assert(trimmed(p@) == t@.take(end - start as int));
        assert(t@.take(end - start as int) =~= p@.subrange(start as int, end as int));
    }
    let mut out: Vec<char> = Vec::new();
    let mut i: usize = start;
    while i < end
        invariant
            start <= i <= end <= n,
            n == p@.len(),
            out@ == p@.subrange(start as int, i as int),
        decreases end - i,
    {
        out.push(p[i]);
        proof {
            assert(p@.subrange(start as int, i + 1 as int) =~= p@.subrange(
                start as int,
                i as int,
            ).push(p@[i as int]));
        }
        i = i + 1;
    }
    out
}

/// Whether `a` comes strictly before `b` in the canonical tag order.
fn lex_less(a: &Vec<char>, b: &Vec<char>) -> (r: bool)
    ensures
        r == lex_lt(a@, b@),
{
    let mut i: usize = 0;
    proof {
        assert(a@.skip(0) =~= a@);
        assert(b@.skip(0) =~= b@);
    }
    while i < a.len() && i < b.len()
        invariant
            i <= a@.len(),
            i <= b@.len(),
            lex_lt(a@, b@) == lex_lt(a@.skip(i as int), b@.skip(i as int)),
        decreases a@.len() - i,
    {
        let ca = a[i];
        let cb = b[i];
        proof {
            assert(a@.skip(i as int).drop_first() =~= a@.skip(i + 1 as int));
            assert(b@.skip(i as int).drop_first() =~= b@.skip(i + 1 as int));
        }
        if ca == cb {
            i = i + 1;
        } else if (ca as u32) < (cb as u32) {
            return true;
        } else {
            return false;
        }
    }
    proof {
        assert(a@.skip(i as int).len() == 0 || b@.skip(i as int).len() == 0);
    }
    a.len() < b.len()
}

/// Whether `a` and `b` hold the same characters.
fn chars_eq(a: &Vec<char>, b: &Vec<char>) -> (r: bool)
    ensures
        r == (a@ == b@),
{
    if a.len() != b.len() {
        return false;
    }
    let mut i: usize = 0;
    while i < a.len()
        invariant
            i <= a@.len(),
            a@.len() == b@.len(),
            forall|k: int| 0 <= k < i ==> a@[k] == b@[k],
        decreases a@.len() - i,
    {
        if a[i] != b[i] {
            return false;
        }
        i = i + 1;
    }
    proof {
        assert(a@ =~= b@);
    }
    true
}

/// The deep view of a vector of character vectors indexes to the views of
/// its elements.
proof fn lemma_deep_index(v: &Vec<Vec<char>>, i: int)
    requires
        0 <= i < v@.len(),
    ensures
        v.deep_view().len() == v@.len(),
        v.deep_view()[i] == v@[i]@,
{
    assert(v@[i].deep_view() =~= v@[i]@);
}

/// Placing `t` into a prefix-inspected sequence: once the first `j` elements
/// are known to be neither `t` nor above it, the insertion happens in the
/// rest.
proof fn lemma_insert_sorted_distinct_skip(s: Seq<Seq<char>>, t: Seq<char>, j: int)
    requires
        0 <= j <= s.len(),
        forall|i: int| 0 <= i < j ==> s[i] != t && !lex_lt(t, #[trigger] s[i]),
    ensures
        insert_sorted_distinct(s, t) == s.take(j) + insert_sorted_distinct(s.skip(j), t),
    decreases j,
{
    if j == 0 {
        assert(s.skip(0) =~= s);
        assert(s.take(0) + insert_sorted_distinct(s, t) =~= insert_sorted_distinct(s, t));
    } else {
        assert(s.len() > 0);
        assert(s[0] != t && !lex_lt(t, s[0]));
        lemma_insert_sorted_distinct_skip(s.drop_first(), t, j - 1);
        assert(s.drop_first().take(j - 1) =~= s.take(j).drop_first());
        assert(s.drop_first().skip(j - 1) =~= s.skip(j));
        assert(seq![s[0]] + (s.drop_first().take(j - 1) + insert_sorted_distinct(s.skip(j), t))
            =~= s.take(j) + insert_sorted_distinct(s.skip(j), t));
    }
}

/// Places `tag` into the sorted, duplicate-free list `acc`, mirroring
/// `insert_sorted_distinct`.
fn insert_tag(acc: &mut Vec<Vec<char>>, tag: Vec<char>)
    ensures
        final(acc).deep_view() == insert_sorted_distinct(old(acc).deep_view(), tag@),
{
    let ghost s = acc.deep_view();
    let mut j: usize = 0;
    while j < acc.len() && !chars_eq(&acc[j], &tag) && !lex_less(&tag, &acc[j])
        invariant
            0 <= j <= acc@.len(),
            s == acc.deep_view(),
            forall|i: int| 0 <= i < j ==> s[i] != tag@ && !lex_lt(tag@, #[trigger] s[i]),
        decreases acc@.len() - j,
    {
        proof {
            lemma_deep_index(acc, j as int);
        }
        j = j + 1;
    }
    proof {
        lemma_insert_sorted_distinct_skip(s, tag@, j as int);
        if (j as int) < s.len() {
            lemma_deep_index(acc, j as int);
            assert(s.skip(j as int)[0] == s[j as int]);
        }
    }
    if j == acc.len() {
        acc.push(tag);
        proof {
            assert(s.skip(j as int) =~= Seq::<Seq<char>>::empty());
            assert forall|i: int| 0 <= i < acc@.len() implies acc.deep_view()[i] == (s.take(
                j as int,
            ) + insert_sorted_distinct(s.skip(j as int), tag@))[i] by {
                lemma_deep_index(acc, i);
                if i < j {
                    lemma_deep_index(old(acc), i);
                }
            }
            assert(acc.deep_view() =~~= s.take(j as int) + insert_sorted_distinct(
                s.skip(j as int),
                tag@,
            ));
        }
    } else if chars_eq(&acc[j], &tag) {
        proof {
            assert(insert_sorted_distinct(s.skip(j as int), tag@) == s.skip(j as int));
            assert(acc.deep_view() =~~= s.take(j as int) + s.skip(j as int));
        }
    } else {
        proof {
            assert(insert_sorted_distinct(s.skip(j as int), tag@) == seq![tag@] + s.skip(j as int));
        }
        acc.insert(j, tag);
        proof {
            assert forall|i: int| 0 <= i < acc@.len() implies acc.deep_view()[i] == (s.take(
                j as int,
            ) + (seq![tag@] + s.skip(j as int)))[i] by {
                lemma_deep_index(acc, i);
                if i < j {
                    lemma_deep_index(old(acc), i);
                } else if i > j {
                    lemma_deep_index(old(acc), i - 1);
                }
            }
            assert(acc.deep_view() =~~= s.take(j as int) + (seq![tag@] + s.skip(j as int)));
        }
    }
}

/// The canonical tag list of a comma-separated tag string: trimmed, blanks
/// dropped, duplicates removed, sorted.
pub fn canonical_tag_list(tags_csv: &str) -> (r: Vec<Vec<char>>)
    ensures
        r.deep_view() == canonical_tags(tags_csv@),
{
    let chars = str_chars(tags_csv);
    let pieces = split_tags(chars.as_slice());
    let ghost cleaned = clean_tags(pieces.deep_view());
    let mut acc: Vec<Vec<char>> = Vec::new();
    proof {
        assert(pieces.deep_view().skip(0) =~~= pieces.deep_view());
    }
    let mut i: usize = 0;
    while i < pieces.len()
        invariant
            i <= pieces@.len(),
            pieces.deep_view() == split_commas(tags_csv@),
            pieces.deep_view().len() == pieces@.len(),
            cleaned == clean_tags(pieces.deep_view()),
            sorted_insert_all(acc.deep_view(), clean_tags(pieces.deep_view().skip(i as int)))
                == sorted_insert_all(Seq::empty(), cleaned),
        decreases pieces@.len() - i,
    {
        let ghost rest = pieces.deep_view().skip(i as int);
        let ghost before = acc.deep_view();
        proof {
            lemma_deep_index(&pieces, i as int);
            assert(rest[0] == pieces.deep_view()[i as int]);
            assert(rest.drop_first() =~~= pieces.deep_view().skip(i + 1 as int));
        }
        let piece = trim_piece(&pieces[i]);
        proof {
            assert(piece@ == trimmed(rest[0]));
        }
        if piece.len() > 0 {
            proof {
                lemma_clean_tags_head(rest);
            }
            insert_tag(&mut acc, piece);
            proof {
                assert(sorted_insert_all(acc.deep_view(), clean_tags(rest.drop_first()))
                    == sorted_insert_all(before, clean_tags(rest)));
            }
        } else {
            proof {
                lemma_clean_tags_head_empty(rest);
            }
        }
        i = i + 1;
    }
    proof {
        assert(pieces.deep_view().skip(i as int) =~~= Seq::<Seq<char>>::empty());
        lemma_clean_tags_empty();
    }
    acc
}

/// Cleaning no pieces yields no tags.
proof fn lemma_clean_tags_empty()
    ensures
        clean_tags(Seq::<Seq<char>>::empty()) == Seq::<Seq<char>>::empty(),
{
    reveal(Seq::filter);
    assert(Seq::<Seq<char>>::empty().map_values(|p: Seq<char>| trimmed(p))
        =~~= Seq::<Seq<char>>::empty());
}

/// The head of the cleaned pieces: when the first piece trims to something,
/// it stands first in the cleaned sequence.
proof fn lemma_clean_tags_head(pieces: Seq<Seq<char>>)
    requires
        pieces.len() > 0,
        trimmed(pieces[0]).len() > 0,
    ensures
        clean_tags(pieces).len() > 0,
        clean_tags(pieces)[0] == trimmed(pieces[0]),
        clean_tags(pieces).drop_first() == clean_tags(pieces.drop_first()),
{
    lemma_clean_tags_unfold(pieces);
}

/// When the first piece trims to nothing it leaves no mark on the cleaned
/// sequence.
proof fn lemma_clean_tags_head_empty(pieces: Seq<Seq<char>>)
    requires
        pieces.len() > 0,
        trimmed(pieces[0]).len() == 0,
    ensures
        clean_tags(pieces) == clean_tags(pieces.drop_first()),
{
    lemma_clean_tags_unfold(pieces);
}

/// Cleaning a nonempty sequence of pieces is cleaning its head and its tail.
proof fn lemma_clean_tags_unfold(pieces: Seq<Seq<char>>)
    requires
        pieces.len() > 0,
    ensures
        trimmed(pieces[0]).len() > 0 ==> clean_tags(pieces) == seq![trimmed(pieces[0])]
            + clean_tags(pieces.drop_first()),
        trimmed(pieces[0]).len() == 0 ==> clean_tags(pieces) == clean_tags(pieces.drop_first()),
{
    let f = |p: Seq<char>| trimmed(p);
    let pred = |p: Seq<char>| p.len() > 0;
    let mapped = pieces.map_values(f);
    assert(mapped.drop_first() =~~= pieces.drop_first().map_values(f));
    assert(mapped =~~= seq![trimmed(pieces[0])] + pieces.drop_first().map_values(f));
    lemma_filter_unfold(mapped, pred);
}

/// Filtering a nonempty sequence is deciding its head and filtering its tail.
proof fn lemma_filter_unfold(s: Seq<Seq<char>>, pred: spec_fn(Seq<char>) -> bool)
    requires
        s.len() > 0,
    ensures
        pred(s[0]) ==> s.filter(pred) == seq![s[0]] + s.drop_first().filter(pred),
        !pred(s[0]) ==> s.filter(pred) == s.drop_first().filter(pred),
{
    assert(s =~~= seq![s[0]] + s.drop_first());
    s.drop_first().lemma_filter_prepend(s[0], pred);
    if !pred(s[0]) {
        assert(Seq::<Seq<char>>::empty() + s.drop_first().filter(pred) =~~= s.drop_first().filter(
            pred,
        ));
    }
}

/// The escape a character takes inside a canonical JSON string: quote and
/// backslash are escaped, the named control characters take their short
/// forms, other control characters the `\u00` form with two lowercase hex
/// digits, and everything else stands as itself.
pub open spec fn json_escaped_char(c: char) -> Seq<char> {
    if c == '"' {
        seq!['\\', '"']
    } else if c == '\\' {
        seq!['\\', '\\']
    } else if c as u32 == 8 {
        seq!['\\', 'b']
    } else if c as u32 == 9 {
        seq!['\\', 't']
    } else if c as u32 == 10 {
        seq!['\\', 'n']
    } else if c as u32 == 12 {
        seq!['\\', 'f']
    } else if c as u32 == 13 {
        seq!['\\', 'r']
    } else if (c as u32) < 32 {
        seq!['\\', 'u', '0', '0', hex_char_of((c as u32 / 16) as u8), hex_char_of(
            (c as u32 % 16) as u8,
        )]
    } else {
        seq![c]
    }
}

/// A string with every character escaped the canonical way.
pub open spec fn json_escaped(s: Seq<char>) -> Seq<char>
    decreases s.len(),
{
    if s.len() == 0 {
        Seq::empty()
    } else {
        json_escaped_char(s[0]) + json_escaped(s.drop_first())
    }
}

/// A canonical JSON string: the escaped text between quotes.
pub open spec fn quoted(s: Seq<char>) -> Seq<char> {
    seq!['"'] + json_escaped(s) + seq!['"']
}

/// The tags as a JSON array body: each quoted, commas between.
pub open spec fn joined_tags(tags: Seq<Seq<char>>) -> Seq<char>
    decreases tags.len(),
{
    if tags.len() == 0 {
        Seq::empty()
    } else if tags.len() == 1 {
        quoted(tags[0])
    } else {
        quoted(tags[0]) + seq![','] + joined_tags(tags.drop_first())
    }
}

/// The decimal rendering of a score, without leading zeros.
pub open spec fn decimal_digits(v: u8) -> Seq<char> {
    if v < 10 {
        seq![hex_char_of(v)]
    } else if v < 100 {
        seq![hex_char_of(v / 10), hex_char_of(v % 10)]
    } else {
        seq![hex_char_of(v / 100), hex_char_of((v / 10) % 10), hex_char_of(v % 10)]
    }
}

/// The canonical serialization of an audit record: a JSON object whose
/// field names and order never change, with the tags already canonical.
pub open spec fn canonical_record(
    action: Seq<char>,
    prompt: Seq<char>,
    score: u8,
    tags: Seq<Seq<char>>,
    decision: Seq<char>,
    reason: Seq<char>,
    timestamp: Seq<char>,
) -> Seq<char> {
    "{\"action\":"@ + quoted(action) + ",\"prompt\":"@ + quoted(prompt) + ",\"score\":"@
        + decimal_digits(score) + ",\"tags\":["@ + joined_tags(tags) + "],\"decision\":"@ + quoted(
        decision,
    ) + ",\"reason\":"@ + quoted(reason) + ",\"timestamp\":"@ + quoted(timestamp) + "}"@
}

/// The audit hash of a record: `0x` before the hex digest of the canonical
/// serialization's bytes, the tag list canonicalized first.
pub open spec fn audit_hash_of(
    action: Seq<char>,
    prompt: Seq<char>,
    score: u8,
    tags_csv: Seq<char>,
    decision: Seq<char>,
    reason: Seq<char>,
    timestamp: Seq<char>,
) -> Seq<char> {
    "0x"@ + hex_encoding_of(
        sha256_of(
            encode_utf8(
                canonical_record(
                    action,
                    prompt,
                    score,
                    canonical_tags(tags_csv),
                    decision,
                    reason,
                    timestamp,
                ),
            ),
        ),
    )
}

/// Escaping distributes over extending the text by one character.
proof fn lemma_json_escaped_push(s: Seq<char>, c: char)
    ensures
        json_escaped(s.push(c)) == json_escaped(s) + json_escaped_char(c),
    decreases s.len(),
{
    assert(s.push(c).len() == s.len() + 1);
    assert(json_escaped(s.push(c)) == json_escaped_char(s.push(c)[0]) + json_escaped(
        s.push(c).drop_first(),
    ));
    if s.len() == 0 {
        assert(s.push(c)[0] == c);
        assert(s.push(c).drop_first() =~= s);
        assert(json_escaped(s) == Seq::<char>::empty());
        assert(json_escaped(s.push(c)) == json_escaped_char(c) + Seq::<char>::empty());
        assert(json_escaped_char(c) + Seq::<char>::empty() =~= Seq::<char>::empty()
            + json_escaped_char(c));
    } else {
        lemma_json_escaped_push(s.drop_first(), c);
        assert(s.push(c)[0] == s[0]);
        assert(s.push(c).drop_first() =~= s.drop_first().push(c));
        assert(json_escaped(s.push(c)) == json_escaped_char(s[0]) + (json_escaped(s.drop_first())
            + json_escaped_char(c)));
        assert(json_escaped_char(s[0]) + (json_escaped(s.drop_first()) + json_escaped_char(c))
            =~= (json_escaped_char(s[0]) + json_escaped(s.drop_first())) + json_escaped_char(c));
        assert(json_escaped(s) == json_escaped_char(s[0]) + json_escaped(s.drop_first()));
    }
}

/// Joining distributes over adding one more tag at the end.
proof fn lemma_joined_tags_push(tags: Seq<Seq<char>>, t: Seq<char>)
    ensures
        tags.len() == 0 ==> joined_tags(tags.push(t)) == quoted(t),
        tags.len() > 0 ==> joined_tags(tags.push(t)) == joined_tags(tags) + seq![','] + quoted(t),
    decreases tags.len(),
{
    if tags.len() == 0 {
        assert(tags.push(t)[0] == t);
    } else {
        lemma_joined_tags_push(tags.drop_first(), t);
        assert(tags.push(t)[0] == tags[0]);
        assert(tags.push(t).drop_first() =~~= tags.drop_first().push(t));
        if tags.len() > 1 {
            assert(quoted(tags[0]) + seq![','] + (joined_tags(tags.drop_first()) + seq![',']
                + quoted(t)) =~= (quoted(tags[0]) + seq![','] + joined_tags(tags.drop_first()))
                + seq![','] + quoted(t));
        }
    }
}

/// The character standing for a nibble value.
fn hex_digit_char(v: u8) -> (c: char)
    requires
        v < 16,
    ensures
        c == hex_char_of(v),
{
    if v == 0 {
        '0'
    } else if v == 1 {
        '1'
    } else if v == 2 {
        '2'
    } else if v == 3 {
        '3'
    } else if v == 4 {
        '4'
    } else if v == 5 {
        '5'
    } else if v == 6 {
        '6'
    } else if v == 7 {
        '7'
    } else if v == 8 {
        '8'
    } else if v == 9 {
        '9'
    } else if v == 10 {
        'a'
    } else if v == 11 {
        'b'
    } else if v == 12 {
        'c'
    } else if v == 13 {
        'd'
    } else if v == 14 {
        'e'
    } else {
        'f'
    }
}

/// Appends the characters of `s` to `out`.
fn push_chars(out: &mut Vec<char>, s: &str)
    ensures
        final(out)@ == old(out)@ + s@,
{
    let mut v = str_chars(s);
    out.append(&mut v);
}

/// Appends the canonical escape of one character to `out`.
fn push_escaped_char(out: &mut Vec<char>, c: char)
    ensures
        final(out)@ == old(out)@ + json_escaped_char(c),
{
    if c == '"' {
        out.push('\\');
        out.push('"');
    } else if c == '\\' {
        out.push('\\');
        out.push('\\');
    } else {
        let u = c as u32;
        if u == 8 {
            out.push('\\');
            out.push('b');
        } else if u == 9 {
            out.push('\\');
            out.push('t');
        } else if u == 10 {
            out.push('\\');
            out.push('n');
        } else if u == 12 {
            out.push('\\');
            out.push('f');
        } else if u == 13 {
            out.push('\\');
            out.push('r');
        } else if u < 32 {
            out.push('\\');
            out.push('u');
            out.push('0');
            out.push('0');
            out.push(hex_digit_char((u / 16) as u8));
            out.push(hex_digit_char((u % 16) as u8));
        } else {
            out.push(c);
        }
    }
    proof {
        assert(out@ =~= old(out)@ + json_escaped_char(c));
    }
}

/// Appends the escaped text of `s` to `out`.
fn push_escaped(out: &mut Vec<char>, s: &Vec<char>)
    ensures
        final(out)@ == old(out)@ + json_escaped(s@),
{
    let ghost base = out@;
    proof {
        assert(s@.take(0) =~= Seq::<char>::empty());
        assert(base + Seq::<char>::empty() =~= base);
    }
    let mut i: usize = 0;
    while i < s.len()
        invariant
            i <= s@.len(),
            out@ == base + json_escaped(s@.take(i as int)),
        decreases s@.len() - i,
    {
        push_escaped_char(out, s[i]);
        proof {
            assert(s@.take(i + 1 as int) =~= s@.take(i as int).push(s@[i as int]));
            lemma_json_escaped_push(s@.take(i as int), s@[i as int]);
            assert(base + (json_escaped(s@.take(i as int)) + json_escaped_char(s@[i as int]))
                =~= (base + json_escaped(s@.take(i as int))) + json_escaped_char(s@[i as int]));
        }
        i = i + 1;
    }
    proof {
        assert(s@.take(s@.len() as int) =~= s@);
    }
}

/// Appends `s` as a quoted, escaped JSON string to `out`.
fn push_quoted(out: &mut Vec<char>, s: &Vec<char>)
    ensures
        final(out)@ == old(out)@ + quoted(s@),
{
    out.push('"');
    push_escaped(out, s);
    out.push('"');
    proof {
        assert(out@ =~= old(out)@ + quoted(s@));
    }
}

/// Appends the quoted tags, commas between, to `out`.
fn push_joined(out: &mut Vec<char>, tags: &Vec<Vec<char>>)
    ensures
        final(out)@ == old(out)@ + joined_tags(tags.deep_view()),
{
    let ghost base = out@;
    let ghost all = tags.deep_view();
    proof {
        assert(all.take(0) =~~= Seq::<Seq<char>>::empty());
        assert(base + Seq::<char>::empty() =~= base);
    }
    let mut i: usize = 0;
    while i < tags.len()
        invariant
            i <= tags@.len(),
            all == tags.deep_view(),
            all.len() == tags@.len(),
            out@ == base + joined_tags(all.take(i as int)),
        decreases tags@.len() - i,
    {
        if i > 0 {
            out.push(',');
        }
        push_quoted(out, &tags[i]);
        proof {
            lemma_deep_index(tags, i as int);
            assert(all.take(i + 1 as int) =~~= all.take(i as int).push(all[i as int]));
            lemma_joined_tags_push(all.take(i as int), all[i as int]);
            if i == 0 {
                assert(base + joined_tags(all.take(0)) =~= base);
                assert(out@ =~= base + joined_tags(all.take(1)));
            } else {
                assert(out@ =~= base + joined_tags(all.take(i + 1 as int)));
            }
        }
        i = i + 1;
    }
    proof {
        assert(all.take(all.len() as int) =~~= all);
    }
}

/// Appends the decimal rendering of `v` to `out`.
fn push_decimal(out: &mut Vec<char>, v: u8)
    ensures
        final(out)@ == old(out)@ + decimal_digits(v),
{
    if v < 10 {
        out.push(hex_digit_char(v));
    } else if v < 100 {
        out.push(hex_digit_char(v / 10));
        out.push(hex_digit_char(v % 10));
    } else {
        out.push(hex_digit_char(v / 100));
        out.push(hex_digit_char((v / 10) % 10));
        out.push(hex_digit_char(v % 10));
    }
    proof {
        assert(out@ =~= old(out)@ + decimal_digits(v));
    }
}

/// Relies on `String`'s `FromIterator`: collecting characters yields the
/// string of exactly those characters.
#[verifier::external_body]
fn chars_to_string(v: &Vec<char>) -> (r: String)
    ensures
        r@ == v@,
{
    v.iter().collect()
}

/// The canonical JSON serialization of an audit record, tags canonicalized.
pub fn canonical_audit_json(
    action: &str,
    prompt: &str,
    score: u8,
    tags: &str,
    decision: &str,
    reason: &str,
    timestamp: &str,
) -> (r: String)
    ensures
        r@ == canonical_record(
            action@,
            prompt@,
            score,
            canonical_tags(tags@),
            decision@,
            reason@,
            timestamp@,
        ),
{
    let tag_list = canonical_tag_list(tags);
    let action_chars = str_chars(action);
    let prompt_chars = str_chars(prompt);
    let decision_chars = str_chars(decision);
    let reason_chars = str_chars(reason);
    let timestamp_chars = str_chars(timestamp);
    let mut out: Vec<char> = Vec::new();
    push_chars(&mut out, "{\"action\":");
    push_quoted(&mut out, &action_chars);
    push_chars(&mut out, ",\"prompt\":");
    push_quoted(&mut out, &prompt_chars);
    push_chars(&mut out, ",\"score\":");
    push_decimal(&mut out, score);
    push_chars(&mut out, ",\"tags\":[");
    push_joined(&mut out, &tag_list);
    push_chars(&mut out, "],\"decision\":");
    push_quoted(&mut out, &decision_chars);
    push_chars(&mut out, ",\"reason\":");
    push_quoted(&mut out, &reason_chars);
    push_chars(&mut out, ",\"timestamp\":");
    push_quoted(&mut out, &timestamp_chars);
    push_chars(&mut out, "}");
    proof {
        assert(out@ =~= canonical_record(
            action@,
            prompt@,
            score,
            canonical_tags(tags@),
            decision@,
            reason@,
            timestamp@,
        ));
    }
    chars_to_string(&out)
}

/// The deterministic hash of an audit record: `0x` and 64 lowercase hex
/// digits over the canonical serialization. Two records whose fields agree
/// up to tag order, tag whitespace, repeated tags and blank tags hash the
/// same.
pub fn hash_audit(
    action: &str,
    prompt: &str,
    score: u8,
    tags: &str,
    decision: &str,
    reason: &str,
    timestamp: &str,
) -> (r: String)
    ensures
        r@ == audit_hash_of(action@, prompt@, score, tags@, decision@, reason@, timestamp@),
        r@.len() == 66,
{
    let json = canonical_audit_json(action, prompt, score, tags, decision, reason, timestamp);
    let bytes = json.as_str().as_bytes();
    let digest = sha256_digest(bytes);
    let hex_digest = hex_encode(digest.as_slice());
    let mut out = "0x".to_owned();
    out.append(hex_digest.as_str());
    proof {
        reveal_strlit("0x");
    }
    out
}

} // verus!
