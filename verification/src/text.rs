//! Text as sequences of characters: joining, searching, ordering.

use std::str::Chars;
use vstd::prelude::*;
use vstd::std_specs::iter::IteratorSpec;
use vstd::string::StringExecFns;
use vstd::string::StrSliceExecFns;
use vstd::utf8::{char_u32_cast, encode_utf8_decode_utf8};

verus! {

/// The parts in order, with `sep` between each two neighbours.
pub open spec fn join(parts: Seq<Seq<char>>, sep: Seq<char>) -> Seq<char>
    decreases parts.len(),
{
    if parts.len() == 0 {
        Seq::empty()
    } else if parts.len() == 1 {
        parts[0]
    } else {
        join(parts.drop_last(), sep) + sep + parts.last()
    }
}

/// Dictionary order on texts, character by character, by code point.
/// A text comes before every text that it is a proper prefix of.
pub open spec fn text_le(a: Seq<char>, b: Seq<char>) -> bool
    decreases a.len(),
{
    if a.len() == 0 {
        true
    } else if b.len() == 0 {
        false
    } else if a[0] != b[0] {
        (a[0] as u32) < (b[0] as u32)
    } else {
        text_le(a.drop_first(), b.drop_first())
    }
}

/// Whether `needle` stands somewhere in `s`, as one piece.
pub open spec fn contains_text(s: Seq<char>, needle: Seq<char>) -> bool {
    exists|i: int|
        0 <= i && i + needle.len() <= s.len() && #[trigger] s.subrange(i, i + needle.len())
            == needle
}

/// `s` without `prefix` at its start; `s` itself where it does not start so.
pub open spec fn without_prefix(s: Seq<char>, prefix: Seq<char>) -> Seq<char> {
    if prefix.is_prefix_of(s) {
        s.skip(prefix.len() as int)
    } else {
        s
    }
}

/// What `str::to_uppercase` gives for a text.
pub uninterp spec fn str_uppercase(s: Seq<char>) -> Seq<char>;

/// Appending one more part to a joined text.
pub proof fn lemma_join_push(parts: Seq<Seq<char>>, sep: Seq<char>, part: Seq<char>)
    ensures
        join(parts.push(part), sep) == if parts.len() == 0 {
            part
        } else {
            join(parts, sep) + sep + part
        },
{
    assert(parts.push(part).drop_last() =~= parts);
}

/// Two parts joined: the first, the separator, the second.
pub proof fn lemma_join_pair(first: Seq<char>, second: Seq<char>, sep: Seq<char>)
    ensures
        join(seq![first, second], sep) == first + sep + second,
{
    lemma_join_push(seq![first], sep, second);
    assert(seq![first].push(second) =~= seq![first, second]);
}

/// A piece of a text is a piece of every text around it.
pub proof fn lemma_contains_text_in_middle(
    before: Seq<char>,
    s: Seq<char>,
    after: Seq<char>,
    needle: Seq<char>,
)
    requires
        contains_text(s, needle),
    ensures
        contains_text(before + s + after, needle),
{
    let i = choose|i: int|
        0 <= i && i + needle.len() <= s.len() && #[trigger] s.subrange(i, i + needle.len())
            == needle;
    let whole = before + s + after;
    let j = before.len() + i;
    assert(whole.subrange(j, j + needle.len()) =~= s.subrange(i, i + needle.len()));
}

/// Two or more parts, joined, hold the separator.
pub proof fn lemma_join_holds_separator(parts: Seq<Seq<char>>, sep: Seq<char>)
    requires
        parts.len() >= 2,
    ensures
        contains_text(join(parts, sep), sep),
{
    let head = join(parts.drop_last(), sep);
    assert(sep.subrange(0int, 0int + sep.len()) =~= sep);
    assert(contains_text(sep, sep));
    lemma_contains_text_in_middle(head, sep, parts.last(), sep);
}

/// Every text stands at or before itself.
pub proof fn lemma_text_le_reflexive(a: Seq<char>)
    ensures
        text_le(a, a),
    decreases a.len(),
{
    if a.len() > 0 {
        lemma_text_le_reflexive(a.drop_first());
    }
}

/// Of two texts, one stands at or before the other.
pub proof fn lemma_text_le_total(a: Seq<char>, b: Seq<char>)
    ensures
        text_le(a, b) || text_le(b, a),
    decreases a.len(),
{
    if a.len() > 0 && b.len() > 0 {
        if a[0] == b[0] {
            lemma_text_le_total(a.drop_first(), b.drop_first());
        } else {
            char_u32_cast(a[0], a[0] as u32);
            char_u32_cast(b[0], b[0] as u32);
        }
    }
}

/// Two texts that each stand at or before the other are one text.
pub proof fn lemma_text_le_antisymmetric(a: Seq<char>, b: Seq<char>)
    requires
        text_le(a, b),
        text_le(b, a),
    ensures
        a == b,
    decreases a.len(),
{
    if a.len() == 0 || b.len() == 0 {
        assert(a =~= b);
    } else {
        lemma_text_le_antisymmetric(a.drop_first(), b.drop_first());
        assert(a =~= seq![a[0]] + a.drop_first());
        assert(b =~= seq![b[0]] + b.drop_first());
    }
}

/// The order of texts carries over a text in the middle.
pub proof fn lemma_text_le_transitive(a: Seq<char>, b: Seq<char>, c: Seq<char>)
    requires
        text_le(a, b),
        text_le(b, c),
    ensures
        text_le(a, c),
    decreases a.len(),
{
    if a.len() > 0 && b.len() > 0 && c.len() > 0 && a[0] == b[0] && b[0] == c[0] {
        lemma_text_le_transitive(a.drop_first(), b.drop_first(), c.drop_first());
    }
}

/// Whether two string slices hold the same characters.
pub fn str_eq(a: &str, b: &str) -> (same: bool)
    ensures
        same == (a@ == b@),
{
    let x = a.as_bytes();
    let y = b.as_bytes();
    proof {
        encode_utf8_decode_utf8(a@);
        encode_utf8_decode_utf8(b@);
    }
    if x.len() != y.len() {
        return false;
    }
    let mut i: usize = 0;
    while i < x.len()
        invariant
            i <= x.len(),
            x.len() == y.len(),
            forall|j: int| 0 <= j < i ==> x@[j] == y@[j],
            a@ == b@ ==> x@ == y@,
        decreases x.len() - i,
    {
        if x[i] != y[i] {
            return false;
        }
        i += 1;
    }
    assert(x@ =~= y@);
    true
}

/// Whether a comma stands at place `i` of `s`, and a space behind it.
pub open spec fn comma_space_at(s: Seq<char>, i: int) -> bool {
    0 <= i && i + 1 < s.len() && s[i] == ',' && s[i + 1] == ' '
}

/// A comma and a space stand in a text as one piece exactly where a comma
/// stands with a space behind it.
pub proof fn lemma_contains_comma_space(s: Seq<char>)
    ensures
        contains_text(s, ", "@) <==> exists|i: int| comma_space_at(s, i),
{
    reveal_strlit(", ");
    let needle = ", "@;
    if contains_text(s, needle) {
        let i = choose|i: int|
            0 <= i && i + needle.len() <= s.len() && #[trigger] s.subrange(i, i + needle.len())
                == needle;
        let piece = s.subrange(i, i + needle.len());
        assert(piece[0] == s[i] && piece[1] == s[i + 1]);
        assert(comma_space_at(s, i));
    }
    if exists|i: int| comma_space_at(s, i) {
        let i = choose|i: int| comma_space_at(s, i);
        assert(s.subrange(i, i + needle.len()) =~= needle);
    }
}

/// Whether a comma with a space behind it occurs in `s`.
pub fn contains_comma_space(s: &str) -> (found: bool)
    ensures
        found == contains_text(s@, ", "@),
{
    broadcast use vstd::string::group_string_axioms;

    let mut found = false;
    let mut after_comma = false;
    for x in it: s.chars()
        invariant
            it.seq() == s@,
            after_comma <==> it.index() > 0 && s@[it.index() - 1] == ',',
            found <==> exists|j: int| j + 1 < it.index() && comma_space_at(s@, j),
    {
        let ghost at = it.index() as int;
        if after_comma && x == ' ' {
            assert(comma_space_at(s@, at - 1));
            found = true;
        }
        after_comma = x == ',';
    }
    proof {
        lemma_contains_comma_space(s@);
    }
    found
}

/// Whether `a` comes before `b` in dictionary order, or equals it.
pub fn str_le(a: &str, b: &str) -> (le: bool)
    ensures
        le == text_le(a@, b@),
{
    broadcast use vstd::string::group_string_axioms;

    let mut left: Chars<'_> = a.chars();
    let mut right: Chars<'_> = b.chars();
    loop
        invariant
            left.decrease() is Some,
            text_le(a@, b@) == text_le(left.remaining(), right.remaining()),
        decreases left.decrease()->0,
    {
        let x = left.next();
        let y = right.next();
        match (x, y) {
            (None, _) => {
                return true;
            },
            (Some(_), None) => {
                return false;
            },
            (Some(p), Some(q)) => {
                if p != q {
                    return (p as u32) < (q as u32);
                }
            },
        }
    }
}

/// `str::to_uppercase` of the standard library: the result is the upper-case
/// form that Unicode defines for the text, which this library does not spell
/// out but names `str_uppercase`.
#[verifier::external_body]
pub(crate) fn uppercase(s: &str) -> (upper: String)
    ensures
        upper@ == str_uppercase(s@),
{
    s.to_uppercase()
}

/// A copy of `s` without `prefix` at its start, or of all of `s` where it
/// does not start with `prefix`.
pub fn strip_prefix(s: &str, prefix: &str) -> (rest: String)
    ensures
        rest@ == without_prefix(s@, prefix@),
{
    let n = s.unicode_len();
    let p = prefix.unicode_len();
    if p <= n && str_eq(s.substring_char(0, p), prefix) {
        assert(prefix@.is_prefix_of(s@)) by {
            assert(s@.subrange(0, p as int) =~= prefix@);
        }
        String::from_str(s.substring_char(p, n))
    } else {
        assert(!prefix@.is_prefix_of(s@)) by {
            if prefix@.is_prefix_of(s@) {
                assert(s@.subrange(0, p as int) =~= prefix@);
            }
        }
        String::from_str(s)
    }
}

} // verus!
