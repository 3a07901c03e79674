use vstd::prelude::*;

use vstd::string::StringSliceAdditionalSpecFns;

use crate::span::Span;

verus! {

/// What `char::is_alphanumeric` answers for a character.
pub uninterp spec fn alnum_of(c: char) -> bool;

/// Relies on `char::is_alphanumeric`: whether the character has the Unicode
/// Alphabetic or Numeric property; among ASCII characters exactly the letters
/// and the decimal digits have one.
#[verifier::external_body]
fn char_is_alphanumeric(c: char) -> (r: bool)
    ensures
        r == alnum_of(c),
        (c as u32) < 128 ==> (r <==> (('a' <= c && c <= 'z') || ('A' <= c && c <= 'Z') || ('0'
            <= c && c <= '9'))),
{
    c.is_alphanumeric()
}

/// Characters that may continue an identifier or a qualified path.
pub open spec fn ident_char(c: char) -> bool {
    alnum_of(c) || c == '_' || c == ':'
}

/// Length in bytes of the UTF-8 encoded White_Space character that starts at
/// `k`, or 0 if none does: U+0009 to U+000D, U+0020, U+0085, U+00A0, U+1680,
/// U+2000 to U+200A, U+2028, U+2029, U+202F, U+205F and U+3000.
pub open spec fn ws_len(t: Seq<u8>, k: int) -> int {
    if 0 <= k < t.len() && (t[k] == 32 || (9 <= t[k] && t[k] <= 13)) {
        1
    } else if 0 <= k && k + 1 < t.len() && t[k] == 0xC2 && (t[k + 1] == 0x85 || t[k + 1] == 0xA0) {
        2
    } else if 0 <= k && k + 2 < t.len() && ((t[k] == 0xE1 && t[k + 1] == 0x9A && t[k + 2] == 0x80)
        || (t[k] == 0xE2 && t[k + 1] == 0x80 && ((0x80 <= t[k + 2] && t[k + 2] <= 0x8A) || t[k + 2]
        == 0xA8 || t[k + 2] == 0xA9 || t[k + 2] == 0xAF)) || (t[k] == 0xE2 && t[k + 1] == 0x81 && t[k
        + 2] == 0x9F) || (t[k] == 0xE3 && t[k + 1] == 0x80 && t[k + 2] == 0x80)) {
        3
    } else {
        0
    }
}

/// Position of the newline that ends the line before position `i`, or 0 on the
/// first line.
pub open spec fn line_start(t: Seq<u8>, i: int) -> int
    decreases i,
{
    if i <= 0 {
        0
    } else if t[i - 1] == 10 {
        i - 1
    } else {
        line_start(t, i - 1)
    }
}

/// First position in `[k, i)` after the whitespace characters that start at
/// `k`, or `i`.
pub open spec fn skip_ws(t: Seq<u8>, k: int, i: int) -> int
    decreases i - k,
{
    if k >= i {
        i
    } else if ws_len(t, k) > 0 && k + ws_len(t, k) <= i {
        skip_ws(t, k + ws_len(t, k), i)
    } else {
        k
    }
}

/// The text from the line's start up to `i`, leading whitespace trimmed, begins
/// with `//`.
pub open spec fn in_comment(t: Seq<u8>, i: int) -> bool {
    let p = skip_ws(t, line_start(t, i), i);
    p + 2 <= i && t[p] == 47 && t[p + 1] == 47
}

/// `p` occurs in `t` at position `i`.
pub open spec fn matches_at(t: Seq<u8>, p: Seq<u8>, i: int) -> bool {
    0 <= i && i + p.len() <= t.len() && t.subrange(i, i + p.len()) == p
}

/// Neither the byte before `i` nor the byte at `j` continues an identifier.
pub open spec fn boundary_ok(t: Seq<u8>, i: int, j: int) -> bool {
    (i <= 0 || !ident_char(t[i - 1] as char)) && (j >= t.len() || !ident_char(t[j] as char))
}

/// An occurrence of `p` at `i` that counts as a reference to the name.
pub open spec fn valid_occurrence(t: Seq<u8>, p: Seq<u8>, i: int) -> bool {
    matches_at(t, p, i) && boundary_ok(t, i, i + p.len()) && !in_comment(t, i)
}

/// The spans that a left-to-right scan for `p` from position `s` keeps: each
/// match consumes its bytes before the scan resumes, and only valid
/// occurrences are kept. An empty name has no occurrences.
pub open spec fn occurrences(t: Seq<u8>, p: Seq<u8>, s: int) -> Seq<Span>
    decreases t.len() - s,
{
    if p.len() == 0 || s < 0 || s + p.len() > t.len() {
        seq![]
    } else if matches_at(t, p, s) {
        let here = if valid_occurrence(t, p, s) {
            seq![Span { start: s as usize, end: (s + p.len()) as usize }]
        } else {
            seq![]
        };
        here + occurrences(t, p, s + p.len())
    } else {
        occurrences(t, p, s + 1)
    }
}

/// `sp` is a valid occurrence of `p` at or after `s`, spanning exactly the name.
pub open spec fn span_of_name(t: Seq<u8>, p: Seq<u8>, s: int, sp: Span) -> bool {
    &&& s <= sp.start
    &&& sp.end == sp.start + p.len()
    &&& valid_occurrence(t, p, sp.start as int)
    &&& t.subrange(sp.start as int, sp.end as int) == p
}

/// Every span of a scan is a valid occurrence of the name, within the text.
pub proof fn lemma_occurrences_valid(t: Seq<u8>, p: Seq<u8>, s: int)
    requires
        t.len() <= usize::MAX,
    ensures
        forall|k: int|
            0 <= k < occurrences(t, p, s).len() ==> span_of_name(
                t,
                p,
                s,
                #[trigger] occurrences(t, p, s)[k],
            ),
    decreases t.len() - s,
{
    let all = occurrences(t, p, s);
    if p.len() == 0 || s < 0 || s + p.len() > t.len() {
    } else if matches_at(t, p, s) {
        let rest = occurrences(t, p, s + p.len());
        lemma_occurrences_valid(t, p, s + p.len());
        assert forall|k: int| 0 <= k < all.len() implies span_of_name(t, p, s, all[k]) by {
            if valid_occurrence(t, p, s) {
                if k > 0 {
                    assert(all[k] == rest[k - 1]);
                    assert(span_of_name(t, p, s + p.len(), rest[k - 1]));
                }
            } else {
                assert(all[k] == rest[k]);
                assert(span_of_name(t, p, s + p.len(), rest[k]));
            }
        }
    } else {
        let rest = occurrences(t, p, s + 1);
        lemma_occurrences_valid(t, p, s + 1);
        assert forall|k: int| 0 <= k < all.len() implies span_of_name(t, p, s, all[k]) by {
            assert(span_of_name(t, p, s + 1, rest[k]));
        }
    }
}

/// Whether a byte, read as a character, continues an identifier.
pub fn is_identifier_char(c: char) -> (r: bool)
    ensures
        r == ident_char(c),
{
    char_is_alphanumeric(c) || c == '_' || c == ':'
}

fn bytes_match_at(t: &[u8], p: &[u8], i: usize) -> (r: bool)
    requires
        i + p@.len() <= t@.len(),
    ensures
        r == matches_at(t@, p@, i as int),
{
    let tl = t.len();
    let mut k: usize = 0;
    while k < p.len()
        invariant
            k <= p@.len(),
            i + p@.len() <= t@.len(),
            tl == t@.len(),
            forall|j: int| 0 <= j < k ==> t@[i + j] == p@[j],
        decreases p@.len() - k,
    {
        if t[i + k] != p[k] {
            assert(t@.subrange(i as int, i + p@.len())[k as int] != p@[k as int]);
            return false;
        }
        k = k + 1;
    }
    assert(t@.subrange(i as int, i + p@.len()) =~= p@);
    true
}

fn find_line_start(t: &[u8], i: usize) -> (r: usize)
    requires
        i <= t@.len(),
    ensures
        r == line_start(t@, i as int),
{
    let mut j: usize = i;
    while j > 0 && t[j - 1] != 10u8
        invariant
            j <= i,
            i <= t@.len(),
            line_start(t@, i as int) == line_start(t@, j as int),
        decreases j,
    {
        j = j - 1;
    }
    if j == 0 {
        0
    } else {
        j - 1
    }
}

fn whitespace_len(t: &[u8], k: usize) -> (r: usize)
    requires
        k < t@.len(),
    ensures
        r == ws_len(t@, k as int),
{
    let n = t.len();
    let b = t[k];
    if b == 32u8 || (9u8 <= b && b <= 13u8) {
        1
    } else if n - k > 1 && b == 0xC2u8 && (t[k + 1] == 0x85u8 || t[k + 1] == 0xA0u8) {
        2
    } else if n - k > 2 {
        let b1 = t[k + 1];
        let b2 = t[k + 2];
        if (b == 0xE1u8 && b1 == 0x9Au8 && b2 == 0x80u8) || (b == 0xE2u8 && b1 == 0x80u8 && ((0x80u8
            <= b2 && b2 <= 0x8Au8) || b2 == 0xA8u8 || b2 == 0xA9u8 || b2 == 0xAFu8)) || (b == 0xE2u8
            && b1 == 0x81u8 && b2 == 0x9Fu8) || (b == 0xE3u8 && b1 == 0x80u8 && b2 == 0x80u8) {
            3
        } else {
            0
        }
    } else {
        0
    }
}

fn is_comment_before(t: &[u8], i: usize) -> (r: bool)
    requires
        i <= t@.len(),
    ensures
        r == in_comment(t@, i as int),
{
    let ls = find_line_start(t, i);
    assert(0 <= line_start(t@, i as int) <= i) by {
        lemma_line_start_bounds(t@, i as int);
    }
    let mut p: usize = ls;
    let mut done = false;
    while !done && p < i
        invariant
            ls <= p <= i,
            i <= t@.len(),
            skip_ws(t@, ls as int, i as int) == if done {
                p as int
            } else {
                skip_ws(t@, p as int, i as int)
            },
        decreases i - p + if done {
            0int
        } else {
            1int
        },
    {
        let w = whitespace_len(t, p);
        if w > 0 && w <= i - p {
            p = p + w;
        } else {
            done = true;
        }
    }
    p < i && i - p >= 2 && t[p] == 47u8 && t[p + 1] == 47u8
}

proof fn lemma_line_start_bounds(t: Seq<u8>, i: int)
    requires
        0 <= i <= t.len(),
    ensures
        0 <= line_start(t, i) <= i,
    decreases i,
{
    if i > 0 && t[i - 1] != 10 {
        lemma_line_start_bounds(t, i - 1);
    }
}

/// Scans one document's text for the names of its entities.
pub struct PositionTracker<'a> {
    pub text: &'a str,
    pub current_pos: usize,
}

impl<'a> PositionTracker<'a> {
    pub fn new(text: &'a str) -> (r: Self)
        ensures
            r.text == text,
            r.current_pos == 0,
    {
        PositionTracker { text, current_pos: 0 }
    }

    /// All valid occurrences of `symbol`, left to right, scanning from the
    /// tracker's cursor, which the scan leaves where it was.
    pub fn find_symbol_positions(&mut self, symbol: &str) -> (r: Vec<Span>)
        ensures
            *final(self) == *old(self),
            r@ == occurrences(old(self).text.spec_bytes(), symbol.spec_bytes(), old(self).current_pos as int),
    {
        let t = self.text.as_bytes();
        let p = symbol.as_bytes();
        let mut positions: Vec<Span> = Vec::new();
        if p.len() == 0 {
            return positions;
        }
        let start = self.current_pos;
        let mut i: usize = start;
        while i <= t.len() && p.len() <= t.len() - i
            invariant
                p@.len() > 0,
                start <= i,
                positions@ + occurrences(t@, p@, i as int) == occurrences(t@, p@, start as int),
            decreases t@.len() - i,
        {
            if bytes_match_at(t, p, i) {
                let end = i + p.len();
                let valid_start = i == 0 || !is_identifier_char(t[i - 1] as char);
                let valid_end = end >= t.len() || !is_identifier_char(t[end] as char);
                let commented = is_comment_before(t, i);
                let ghost old_positions = positions@;
                if valid_start && valid_end && !commented {
                    positions.push(Span { start: i, end });
                }
                assert(positions@ + occurrences(t@, p@, end as int) =~= old_positions
                    + occurrences(t@, p@, i as int));
                i = end;
            } else {
                i = i + 1;
            }
        }
        assert(occurrences(t@, p@, i as int) =~= seq![]);
        assert(positions@ =~= positions@ + occurrences(t@, p@, i as int));
        positions
    }
}

} // verus!
