//! Offsets into the text of a text input: lines, bytes and grapheme
//! clusters, as the accessibility tree exposes them.
use vstd::prelude::*;
use vstd::string::StringSliceAdditionalSpecFns;
use vstd::string::StringExecFns;
use vstd::string::StrSliceExecFns;
use vstd::utf8::{encode_scalar, encode_utf8};
use vstd::utf8::is_char_boundary;

verus! {

/// The sum of the first `i` lengths.
pub open spec fn prefix_sum(lengths: Seq<u8>, i: int) -> int
    decreases i,
{
    if i <= 0 {
        0
    } else {
        prefix_sum(lengths, i - 1) + lengths[i - 1]
    }
}

/// Prefix sums grow with the prefix.
pub proof fn lemma_prefix_sum_monotone(lengths: Seq<u8>, i: int, j: int)
    requires
        0 <= i <= j,
    ensures
        prefix_sum(lengths, i) <= prefix_sum(lengths, j),
    decreases j - i,
{
    if i < j {
        lemma_prefix_sum_monotone(lengths, i, j - 1);
    }
}

/// The index of the first character that starts at or after `byte_offset`,
/// given the byte length of each character: the least `i` below the number
/// of characters whose preceding characters span at least `byte_offset`
/// bytes, or the number of characters when there is none.
pub open spec fn char_index_at(lengths: Seq<u8>, byte_offset: int) -> int {
    if exists|i: int| 0 <= i < lengths.len() && prefix_sum(lengths, i) >= byte_offset {
        choose|i: int|
            0 <= i < lengths.len() && prefix_sum(lengths, i) >= byte_offset && forall|j: int|
                0 <= j < i ==> prefix_sum(lengths, j) < byte_offset
    } else {
        lengths.len() as int
    }
}

/// With characters of positive length, prefix sums grow strictly.
proof fn lemma_prefix_sum_strict(lengths: Seq<u8>, i: int, j: int)
    requires
        0 <= i < j <= lengths.len(),
        forall|c: int| 0 <= c < lengths.len() ==> lengths[c] > 0,
    ensures
        prefix_sum(lengths, i) < prefix_sum(lengths, j),
    decreases j - i,
{
    if i < j - 1 {
        lemma_prefix_sum_strict(lengths, i, j - 1);
    }
}

/// The byte offset at which a character starts gives back that character's
/// index (the number of characters for the end of the text), when every
/// character has a positive length.
pub proof fn char_index_of_character_start(lengths: Seq<u8>, k: int)
    requires
        0 <= k <= lengths.len(),
        forall|c: int| 0 <= c < lengths.len() ==> lengths[c] > 0,
    ensures
        char_index_at(lengths, prefix_sum(lengths, k)) == k,
{
    let p = prefix_sum(lengths, k);
    if k < lengths.len() {
        assert forall|j: int| 0 <= j < k implies prefix_sum(lengths, j) < p by {
            lemma_prefix_sum_strict(lengths, j, k);
        }
        assert(0 <= k < lengths.len() && prefix_sum(lengths, k) >= p && forall|j: int|
            0 <= j < k ==> prefix_sum(lengths, j) < p);
    } else {
        assert forall|i: int| 0 <= i < lengths.len() implies prefix_sum(lengths, i) < p by {
            lemma_prefix_sum_strict(lengths, i, k);
        }
    }
}

/// Converts a byte offset into the index of a character, given the byte
/// length of each character.
pub fn byte_to_char_index(char_lengths: &[u8], byte_offset: usize) -> (r: usize)
    requires
        prefix_sum(char_lengths@, char_lengths@.len() as int) <= usize::MAX,
    ensures
        r == char_index_at(char_lengths@, byte_offset as int),
        r <= char_lengths@.len(),
{
    let ghost ls = char_lengths@;
    let mut accumulated: usize = 0;
    let mut i: usize = 0;
    while i < char_lengths.len()
        invariant
            ls == char_lengths@,
            i <= ls.len(),
            accumulated == prefix_sum(ls, i as int),
            prefix_sum(ls, ls.len() as int) <= usize::MAX,
            forall|j: int| 0 <= j < i ==> prefix_sum(ls, j) < byte_offset,
        decreases ls.len() - i,
    {
        if accumulated >= byte_offset {
            proof {
                let w = i as int;
                assert(0 <= w < ls.len() && prefix_sum(ls, w) >= byte_offset);
                let c = choose|k: int|
                    0 <= k < ls.len() && prefix_sum(ls, k) >= byte_offset && forall|j: int|
                        0 <= j < k ==> prefix_sum(ls, j) < byte_offset;
                assert(forall|j: int| 0 <= j < w ==> prefix_sum(ls, j) < byte_offset);
                if c < w {
                } else if c > w {
                    assert(prefix_sum(ls, w) < byte_offset);
                }
            }
            return i;
        }
        proof {
            lemma_prefix_sum_monotone(ls, i as int + 1, ls.len() as int);
        }
        accumulated += char_lengths[i] as usize;
        i += 1;
    }
    proof {
        assert(!exists|k: int| 0 <= k < ls.len() && prefix_sum(ls, k) >= byte_offset);
    }
    char_lengths.len()
}

/// The byte length of each line of `bytes`, as `str::lines` splits them:
/// lines end at a line feed, which is dropped together with a carriage
/// return just before it; the final line ending is optional.
pub open spec fn line_lengths(bytes: Seq<u8>) -> Seq<nat>
    decreases bytes.len(),
{
    if bytes.len() == 0 {
        Seq::empty()
    } else {
        let p = first_line_feed(bytes, 0);
        if p == bytes.len() {
            seq![bytes.len()]
        } else {
            proof {
                lemma_first_line_feed(bytes, 0);
            }
            let cr: nat = if p > 0 && bytes[p - 1] == 13u8 {
                1
            } else {
                0
            };
            seq![(p - cr) as nat] + line_lengths(bytes.skip(p + 1))
        }
    }
}

/// The position of the first line feed at or after `from`, or the length of
/// `bytes` when there is none.
pub open spec fn first_line_feed(bytes: Seq<u8>, from: int) -> int
    decreases bytes.len() - from,
{
    if from >= bytes.len() {
        bytes.len() as int
    } else if bytes[from] == 10u8 {
        from
    } else {
        first_line_feed(bytes, from + 1)
    }
}

pub proof fn lemma_first_line_feed(bytes: Seq<u8>, from: int)
    requires
        0 <= from <= bytes.len(),
    ensures
        from <= first_line_feed(bytes, from) <= bytes.len(),
        first_line_feed(bytes, from) < bytes.len() ==> bytes[first_line_feed(bytes, from)] == 10u8,
        forall|k: int| from <= k < first_line_feed(bytes, from) ==> bytes[k] != 10u8,
    decreases bytes.len() - from,
{
    if from < bytes.len() && bytes[from] != 10u8 {
        lemma_first_line_feed(bytes, from + 1);
    }
}

proof fn lemma_first_line_feed_skip(bytes: Seq<u8>, pos: int, from: int)
    requires
        0 <= pos <= from <= bytes.len(),
    ensures
        first_line_feed(bytes.skip(pos), from - pos) == first_line_feed(bytes, from) - pos,
    decreases bytes.len() - from,
{
    if from < bytes.len() && bytes[from] != 10u8 {
        lemma_first_line_feed_skip(bytes, pos, from + 1);
    }
}

/// The sum of the first `i` line lengths, each with one byte added for its
/// line ending.
pub open spec fn lines_span(lengths: Seq<nat>, i: int) -> int
    decreases i,
{
    if i <= 0 {
        0
    } else {
        lines_span(lengths, i - 1) + lengths[i - 1] + 1
    }
}

/// The byte offset of `index` within `line`, counting each preceding line
/// with one byte for its ending, and clamped to the length of the text.
pub open spec fn line_col_offset(bytes: Seq<u8>, line: int, index: int) -> int {
    let ls = line_lengths(bytes);
    let raw = if line < ls.len() {
        lines_span(ls, line) + index
    } else {
        lines_span(ls, ls.len() as int)
    };
    if raw <= bytes.len() {
        raw
    } else {
        bytes.len() as int
    }
}

proof fn lemma_lines_span_append(a: Seq<nat>, b: Seq<nat>, i: int)
    requires
        0 <= i <= b.len(),
    ensures
        lines_span(a + b, a.len() + i) == lines_span(a, a.len() as int) + lines_span(b, i),
        forall|j: int| 0 <= j <= a.len() ==> lines_span(a + b, j) == lines_span(a, j),
    decreases i,
{
    if i > 0 {
        lemma_lines_span_append(a, b, i - 1);
    } else {
        assert forall|j: int| 0 <= j <= a.len() implies lines_span(a + b, j) == lines_span(a, j) by {
            lemma_lines_span_prefix(a, b, j);
        }
    }
}

proof fn lemma_lines_span_prefix(a: Seq<nat>, b: Seq<nat>, j: int)
    requires
        0 <= j <= a.len(),
    ensures
        lines_span(a + b, j) == lines_span(a, j),
    decreases j,
{
    if j > 0 {
        lemma_lines_span_prefix(a, b, j - 1);
    }
}

/// Converts a line and a byte index within that line into a byte offset
/// into the whole text.
pub fn line_col_byte_offset(text: &str, line: usize, index: usize) -> (r: usize)
    requires
        line < line_lengths(text.spec_bytes()).len() ==> lines_span(
            line_lengths(text.spec_bytes()),
            line as int,
        ) + index <= usize::MAX,
        text.spec_bytes().len() < usize::MAX,
    ensures
        r == line_col_offset(text.spec_bytes(), line as int, index as int),
{
    let bytes = text.as_bytes();
    let ghost all = bytes@;
    let len = bytes.len();
    let mut offset: usize = 0;
    let mut i: usize = 0;
    let mut pos: usize = 0;
    let ghost mut done: Seq<nat> = Seq::empty();
    let mut found = false;
    assert(all.skip(0) =~= all);
    loop
        invariant_except_break
            all == bytes@,
            len == all.len(),
            pos <= len,
            len < usize::MAX,
            i == done.len(),
            line_lengths(all) == done + line_lengths(all.skip(pos as int)),
            offset == lines_span(done, i as int),
            offset <= pos,
            i <= line,
            line < line_lengths(all).len() ==> lines_span(line_lengths(all), line as int) + index
                <= usize::MAX,
            !found,
        ensures
            all == bytes@,
            len == all.len(),
            found ==> line < line_lengths(all).len() && offset == lines_span(
                line_lengths(all),
                line as int,
            ) + index,
            !found ==> line_lengths(all).len() <= line && offset == lines_span(
                line_lengths(all),
                line_lengths(all).len() as int,
            ),
        decreases len - pos,
    {
        if pos >= len {
            proof {
                assert(all.skip(pos as int) =~= Seq::<u8>::empty());
                assert(line_lengths(all) =~= done);
            }
            break;
        }
        let ghost rest = all.skip(pos as int);
        let mut p = pos;
        while p < len && bytes[p] != 10u8
            invariant
                all == bytes@,
                len == all.len(),
                pos <= p <= len,
                forall|k: int| pos <= k < p ==> all[k] != 10u8,
            decreases len - p,
        {
            p += 1;
        }
        proof {
            lemma_first_line_feed(all, pos as int);
            lemma_first_line_feed_skip(all, pos as int, pos as int);
            if p < len {
                assert(all[p as int] == 10u8);
            }
            assert(first_line_feed(all, pos as int) == p);
        }
        let line_len: usize = if p < len {
            if p > pos && bytes[p - 1] == 13u8 {
                p - pos - 1
            } else {
                p - pos
            }
        } else {
            len - pos
        };
        let ghost next_pos: int = if p < len {
            p + 1
        } else {
            len as int
        };
        proof {
            assert(rest.len() > 0);
            if p < len {
                assert(rest.skip(p - pos + 1) =~= all.skip(p + 1));
                assert(line_lengths(rest) == seq![line_len as nat] + line_lengths(all.skip(p + 1)));
            } else {
                assert(line_lengths(rest) == seq![line_len as nat]);
                assert(all.skip(len as int) =~= Seq::<u8>::empty());
                assert(line_lengths(all.skip(len as int)) =~= Seq::<nat>::empty());
            }
            assert(line_lengths(all) == done.push(line_len as nat) + line_lengths(
                all.skip(next_pos),
            )) by {
                assert(done + (seq![line_len as nat] + line_lengths(all.skip(next_pos))) =~= done.push(
                    line_len as nat,
                ) + line_lengths(all.skip(next_pos)));
            }
            lemma_lines_span_append(done.push(line_len as nat), line_lengths(all.skip(next_pos)), 0);
            lemma_lines_span_append(done, line_lengths(all.skip(pos as int)), 0);
        }
        if i == line {
            proof {
                assert(line_lengths(all)[line as int] == line_len);
                lemma_lines_span_prefix(done, line_lengths(all.skip(pos as int)), i as int);
            }
            offset += index;
            found = true;
            break;
        }
        proof {
            assert(done.push(line_len as nat)[i as int] == line_len);
            assert(lines_span(done.push(line_len as nat), i as int + 1) == lines_span(
                done.push(line_len as nat),
                i as int,
            ) + line_len + 1);
            lemma_lines_span_prefix(done, seq![line_len as nat], i as int);
            assert(done + seq![line_len as nat] =~= done.push(line_len as nat));
            done = done.push(line_len as nat);
        }
        offset += line_len + 1;
        i += 1;
        pos = if p < len {
            p + 1
        } else {
            proof {
                assert(all.skip(len as int) =~= Seq::<u8>::empty());
                assert(line_lengths(all) =~= done);
            }
            break;
        };
    }
    if offset < len {
        offset
    } else {
        len
    }
}


/// The extended grapheme clusters of a text, as `unicode_segmentation`
/// splits it (Unicode Standard Annex #29).
pub uninterp spec fn extended_graphemes(text: Seq<char>) -> Seq<Seq<char>>;

/// The characters of the texts of a sequence, one text after the other.
pub open spec fn concat_all(texts: Seq<Seq<char>>) -> Seq<char>
    decreases texts.len(),
{
    if texts.len() == 0 {
        Seq::empty()
    } else {
        concat_all(texts.drop_last()) + texts.last()
    }
}

/// Splits `text` into its extended grapheme clusters with
/// `UnicodeSegmentation::graphemes(text, true)`. The clusters are the ones
/// the crate computes (named [`extended_graphemes`]); as its iterator hands
/// out consecutive non-empty slices from the start of the text to its end,
/// they are non-empty and together make up the text.
#[verifier::external_body]
fn graphemes(text: &str) -> (r: Vec<&str>)
    ensures
        r@.map_values(|g: &str| g@) == extended_graphemes(text@),
        concat_all(r@.map_values(|g: &str| g@)) == text@,
        forall|i: int| 0 <= i < r@.len() ==> (#[trigger] r@[i])@.len() > 0,
{
    unicode_segmentation::UnicodeSegmentation::graphemes(text, true).collect()
}

/// The byte length of each grapheme cluster of `text` (as `str::len`
/// reports it), truncated to a byte.
pub open spec fn grapheme_lengths(text: Seq<char>) -> Seq<u8> {
    extended_graphemes(text).map_values(|g: Seq<char>| (encode_utf8(g).len() as usize) as u8)
}

/// The UTF-8 encoding of a concatenation is the concatenation of the
/// encodings.
pub proof fn lemma_encode_utf8_concat(a: Seq<char>, b: Seq<char>)
    ensures
        encode_utf8(a + b) == encode_utf8(a) + encode_utf8(b),
    decreases a.len(),
{
    if a.len() == 0 {
        assert(a + b =~= b);
    } else {
        assert((a + b).drop_first() =~= a.drop_first() + b);
        lemma_encode_utf8_concat(a.drop_first(), b);
        assert((a + b)[0] == a[0]);
    }
}

/// Returns the byte length of each grapheme cluster of `text`.
pub fn char_byte_lengths(text: &str) -> (r: Vec<u8>)
    ensures
        r@ == grapheme_lengths(text@),
        concat_all(extended_graphemes(text@)) == text@,
        forall|i: int|
            0 <= i < extended_graphemes(text@).len() ==> (#[trigger] extended_graphemes(text@)[i]).len() > 0,
        encode_utf8(text@).len() <= usize::MAX,
{
    let _ = text.as_bytes().len();
    let gs = graphemes(text);
    assert forall|i: int|
        0 <= i < extended_graphemes(text@).len() implies (#[trigger] extended_graphemes(text@)[i]).len() > 0 by {
        assert(extended_graphemes(text@)[i] == gs@[i]@);
    }
    let mut r: Vec<u8> = Vec::new();
    let mut i: usize = 0;
    while i < gs.len()
        invariant
            i <= gs@.len(),
            gs@.map_values(|g: &str| g@) == extended_graphemes(text@),
            r@.len() == i,
            forall|j: int| 0 <= j < i ==> r@[j] == ((encode_utf8(#[trigger] gs@[j]@).len() as usize) as u8),
        decreases gs@.len() - i,
    {
        let len = gs[i].len();
        r.push(len as u8);
        i += 1;
    }
    proof {
        assert(r@ =~= grapheme_lengths(text@)) by {
            assert forall|j: int| 0 <= j < r@.len() implies r@[j] == grapheme_lengths(text@)[j] by {
                assert(extended_graphemes(text@)[j] == gs@[j]@);
            }
        }
    }
    r
}

/// Replaces each grapheme cluster of `text` with a bullet.
pub fn secure_text(text: &str) -> (r: String)
    ensures
        r@ == Seq::new(extended_graphemes(text@).len(), |i: int| '\u{2022}'),
{
    let gs = graphemes(text);
    let mut r = String::new();
    let bullet = "\u{2022}";
    proof {
        reveal_strlit("\u{2022}");
    }
    let mut i: usize = 0;
    while i < gs.len()
        invariant
            i <= gs@.len(),
            gs@.map_values(|g: &str| g@) == extended_graphemes(text@),
            bullet@ == seq!['\u{2022}'],
            r@ =~= Seq::new(i as nat, |k: int| '\u{2022}'),
        decreases gs@.len() - i,
    {
        let ghost prev = r@;
        r.append(bullet);
        assert(r@ =~= Seq::new((i + 1) as nat, |k: int| '\u{2022}')) by {
            assert(r@ == prev + seq!['\u{2022}']);
        }
        i += 1;
    }
    r
}

/// Whether a character is alphabetic or numeric, as Unicode defines it
/// (`char::is_alphanumeric`).
pub uninterp spec fn alphanumeric(c: char) -> bool;

/// Calls `char::is_alphanumeric`, whose result is named [`alphanumeric`]:
/// it depends on the Unicode tables of the standard library alone.
#[verifier::external_body]
fn is_alphanumeric(c: char) -> (r: bool)
    ensures
        r == alphanumeric(c),
{
    c.is_alphanumeric()
}

/// Whether a grapheme cluster holds an alphanumeric character.
pub open spec fn is_word(g: Seq<char>) -> bool {
    exists|k: int| 0 <= k < g.len() && alphanumeric(#[trigger] g[k])
}

/// The indices (truncated to a byte) of the clusters that start a word: a
/// word cluster that is first, or that follows a cluster that is not one.
pub open spec fn word_starts(gs: Seq<Seq<char>>) -> Seq<u8>
    decreases gs.len(),
{
    if gs.len() == 0 {
        Seq::empty()
    } else {
        let i = gs.len() - 1;
        let prev = word_starts(gs.drop_last());
        if is_word(gs[i]) && !(i > 0 && is_word(gs[i - 1])) {
            prev.push(i as u8)
        } else {
            prev
        }
    }
}

fn has_word_char(g: &str) -> (r: bool)
    ensures
        r == is_word(g@),
{
    let n = g.unicode_len();
    let mut k: usize = 0;
    while k < n
        invariant
            n == g@.len(),
            k <= n,
            forall|j: int| 0 <= j < k ==> !alphanumeric(#[trigger] g@[j]),
        decreases n - k,
    {
        if is_alphanumeric(g.get_char(k)) {
            return true;
        }
        k += 1;
    }
    false
}

/// Returns the index of each grapheme cluster of `text` that starts a word.
pub fn word_start_indices(text: &str) -> (r: Vec<u8>)
    ensures
        r@ == word_starts(extended_graphemes(text@)),
{
    let gs = graphemes(text);
    let ghost ext = extended_graphemes(text@);
    let mut starts: Vec<u8> = Vec::new();
    let mut in_word = false;
    let mut i: usize = 0;
    assert(ext.take(0) =~= Seq::<Seq<char>>::empty());
    while i < gs.len()
        invariant
            i <= gs@.len(),
            gs@.map_values(|g: &str| g@) == ext,
            starts@ == word_starts(ext.take(i as int)),
            in_word == (i > 0 && is_word(ext[i - 1])),
        decreases gs@.len() - i,
    {
        let is_word_char = has_word_char(gs[i]);
        proof {
            assert(ext[i as int] == gs@[i as int]@);
            let t = ext.take(i as int + 1);
            assert(t.drop_last() =~= ext.take(i as int));
            assert(t[i as int] == ext[i as int]);
            if i > 0 {
                assert(t[i - 1] == ext[i - 1]);
            }
        }
        if is_word_char && !in_word {
            starts.push(i as u8);
        }
        in_word = is_word_char;
        i += 1;
    }
    assert(ext.take(gs@.len() as int) =~= ext);
    starts
}

/// A position in a text: a line, and a byte index within it.
#[derive(Debug, Clone, Copy, PartialEq, Eq)]
pub struct Position {
    /// The line.
    pub line: usize,
    /// The byte index within the line.
    pub index: usize,
}

/// Whether a byte is a carriage return or a line feed.
pub open spec fn is_break(b: u8) -> bool {
    b == 13u8 || b == 10u8
}

/// The position of the first line-breaking byte at or after `from`, or the
/// length of `bytes` when there is none.
pub open spec fn next_break(bytes: Seq<u8>, from: int) -> int
    decreases bytes.len() - from,
{
    if from >= bytes.len() {
        bytes.len() as int
    } else if is_break(bytes[from]) {
        from
    } else {
        next_break(bytes, from + 1)
    }
}

/// Where the line break starting at `s` ends: a carriage return and a line
/// feed, in either order, make one break.
pub open spec fn break_end(bytes: Seq<u8>, s: int) -> int {
    if s + 1 < bytes.len() && ((bytes[s] == 13u8 && bytes[s + 1] == 10u8) || (bytes[s] == 10u8
        && bytes[s + 1] == 13u8)) {
        s + 2
    } else {
        s + 1
    }
}

/// `a - b`, or zero when `b` exceeds `a`.
pub open spec fn saturating_sub(a: int, b: int) -> int {
    if a >= b {
        a - b
    } else {
        0
    }
}

/// The smaller of two integers.
pub open spec fn min(a: int, b: int) -> int {
    if a <= b {
        a
    } else {
        b
    }
}

/// The position of byte `offset`, counting lines from `line`, which starts
/// at byte `start`: an offset at or before a line break belongs to the line
/// it ends, one within a two-byte break points just past it, and an offset
/// beyond the text is clamped to the end of the last line.
pub open spec fn position_in(bytes: Seq<u8>, offset: int, line: int, start: int) -> Position
    decreases bytes.len() - start,
{
    let s = next_break(bytes, start);
    if start < 0 || start >= bytes.len() || s >= bytes.len() {
        Position {
            line: line as usize,
            index: min(saturating_sub(offset, start), bytes.len() - start) as usize,
        }
    } else if offset <= s {
        Position { line: line as usize, index: min(saturating_sub(offset, start), s - start) as usize }
    } else {
        let e = break_end(bytes, s);
        if offset < e {
            Position { line: line as usize, index: (e - start) as usize }
        } else {
            proof {
                lemma_next_break(bytes, start);
            }
            position_in(bytes, offset, line + 1, e)
        }
    }
}

pub proof fn lemma_next_break(bytes: Seq<u8>, from: int)
    requires
        0 <= from <= bytes.len(),
    ensures
        from <= next_break(bytes, from) <= bytes.len(),
        next_break(bytes, from) < bytes.len() ==> is_break(bytes[next_break(bytes, from)]),
        forall|k: int| from <= k < next_break(bytes, from) ==> !is_break(bytes[k]),
    decreases bytes.len() - from,
{
    if from < bytes.len() && !is_break(bytes[from]) {
        lemma_next_break(bytes, from + 1);
    }
}

proof fn lemma_next_break_at(bytes: Seq<u8>, from: int, k: int)
    requires
        0 <= from <= k <= bytes.len(),
        forall|j: int| from <= j < k ==> !is_break(bytes[j]),
    ensures
        next_break(bytes, from) == next_break(bytes, k),
    decreases k - from,
{
    if from < k {
        lemma_next_break_at(bytes, from + 1, k);
    }
}

proof fn lemma_next_break_skip(bytes: Seq<u8>, start: int, from: int)
    requires
        0 <= start <= from <= bytes.len(),
    ensures
        next_break(bytes.skip(start), from - start) == next_break(bytes, from) - start,
    decreases bytes.len() - from,
{
    if from < bytes.len() && !is_break(bytes[from]) {
        lemma_next_break_skip(bytes, start, from + 1);
    }
}

proof fn lemma_next_break_is_line_feed(bytes: Seq<u8>, from: int)
    requires
        0 <= from <= bytes.len(),
        forall|i: int| 0 <= i < bytes.len() ==> bytes[i] != 13u8,
    ensures
        next_break(bytes, from) == first_line_feed(bytes, from),
    decreases bytes.len() - from,
{
    if from < bytes.len() && bytes[from] != 10u8 {
        lemma_next_break_is_line_feed(bytes, from + 1);
    }
}

/// The position of an offset, counted from a line that starts at `start`,
/// is its position in the rest of the text, `line` lines further.
proof fn lemma_position_shift(bytes: Seq<u8>, offset: int, line: int, start: int)
    requires
        0 <= line,
        0 <= start <= bytes.len(),
        start <= offset,
        line + (bytes.len() - start) <= usize::MAX,
    ensures
        ({
            let q = position_in(bytes.skip(start), offset - start, 0, 0);
            &&& q.line <= bytes.len() - start
            &&& position_in(bytes, offset, line, start) == Position {
                line: (line + q.line) as usize,
                index: q.index,
            }
        }),
    decreases bytes.len() - start,
{
    let rest = bytes.skip(start);
    let s = next_break(bytes, start);
    lemma_next_break(bytes, start);
    lemma_next_break_skip(bytes, start, start);
    assert(next_break(rest, 0) == s - start);
    if start >= bytes.len() || s >= bytes.len() {
    } else if offset <= s {
    } else {
        let e = break_end(bytes, s);
        assert(rest[s - start] == bytes[s]);
        if s + 1 < bytes.len() {
            assert(rest[s - start + 1] == bytes[s + 1]);
        }
        assert(break_end(rest, s - start) == e - start);
        if offset >= e {
            lemma_position_shift(bytes, offset, line + 1, e);
            lemma_position_shift(rest, offset - start, 1, e - start);
            assert(rest.skip(e - start) =~= bytes.skip(e));
        }
    }
}

/// In a text without carriage returns, the line and index of an offset give
/// the offset back.
#[verifier::rlimit(40)]
pub proof fn lemma_offset_of_position(bytes: Seq<u8>, offset: int)
    requires
        0 <= offset <= bytes.len(),
        bytes.len() < usize::MAX,
        forall|i: int| 0 <= i < bytes.len() ==> bytes[i] != 13u8,
    ensures
        ({
            let p = position_in(bytes, offset, 0, 0);
            &&& line_col_offset(bytes, p.line as int, p.index as int) == offset
            &&& p.line < line_lengths(bytes).len() ==> lines_span(line_lengths(bytes), p.line as int) + p.index
                == offset
        }),
    decreases bytes.len(),
{
    let s = next_break(bytes, 0);
    lemma_next_break(bytes, 0);
    lemma_next_break_is_line_feed(bytes, 0);
    let p = position_in(bytes, offset, 0, 0);
    if bytes.len() == 0 {
        assert(line_lengths(bytes) =~= Seq::<nat>::empty());
        assert(p.line == 0 && p.index == 0);
    } else if s >= bytes.len() {
        assert(first_line_feed(bytes, 0) == bytes.len());
        assert(line_lengths(bytes) == seq![bytes.len()]);
        assert(p.line == 0 && p.index == offset);
        assert(lines_span(line_lengths(bytes), 0) == 0);
    } else if offset <= s {
        assert(first_line_feed(bytes, 0) == s);
        assert(s > 0 ==> bytes[s - 1] != 13u8);
        assert(line_lengths(bytes)[0] == s);
        assert(p.line == 0 && p.index == offset);
        assert(lines_span(line_lengths(bytes), 0) == 0);
    } else {
        let rest = bytes.skip(s + 1);
        assert(bytes[s] == 10u8);
        assert(break_end(bytes, s) == s + 1);
        lemma_position_shift(bytes, offset, 1, s + 1);
        assert forall|i: int| 0 <= i < rest.len() implies rest[i] != 13u8 by {
            assert(rest[i] == bytes[s + 1 + i]);
        }
        lemma_offset_of_position(rest, offset - s - 1);
        let q = position_in(rest, offset - s - 1, 0, 0);
        let ls = line_lengths(bytes);
        let tail = line_lengths(rest);
        assert(first_line_feed(bytes, 0) == s);
        assert(s > 0 ==> bytes[s - 1] != 13u8);
        assert(ls == seq![s as nat] + tail);
        assert(p.line == 1 + q.line && p.index == q.index);
        lemma_lines_span_append(seq![s as nat], tail, 0);
        assert(lines_span(seq![s as nat], 0) == 0);
        assert(lines_span(seq![s as nat], 1) == s + 1);
        if q.line < tail.len() {
            lemma_lines_span_append(seq![s as nat], tail, q.line as int);
            assert(lines_span(ls, p.line as int) == s + 1 + lines_span(tail, q.line as int));
        } else {
            lemma_lines_span_append(seq![s as nat], tail, tail.len() as int);
            assert(lines_span(ls, ls.len() as int) == s + 1 + lines_span(tail, tail.len() as int));
        }
    }
}

/// The byte offset of the first `k` grapheme clusters of a text (all of
/// them when there are fewer).
pub open spec fn grapheme_offset(text: Seq<char>, k: int) -> int {
    let gs = extended_graphemes(text);
    encode_utf8(concat_all(gs.take(min(k, gs.len() as int)))).len() as int
}

pub proof fn lemma_concat_all_take(gs: Seq<Seq<char>>, j: int)
    requires
        0 <= j < gs.len(),
    ensures
        concat_all(gs.take(j + 1)) == concat_all(gs.take(j)) + gs[j],
{
    assert(gs.take(j + 1).drop_last() =~= gs.take(j));
}

pub proof fn lemma_encode_concat_all_take_bound(gs: Seq<Seq<char>>, j: int)
    requires
        0 <= j <= gs.len(),
    ensures
        encode_utf8(concat_all(gs.take(j))).len() <= encode_utf8(concat_all(gs)).len(),
    decreases gs.len() - j,
{
    if j < gs.len() {
        lemma_concat_all_take(gs, j);
        lemma_encode_utf8_concat(concat_all(gs.take(j)), gs[j]);
        lemma_encode_concat_all_take_bound(gs, j + 1);
    } else {
        assert(gs.take(j) =~= gs);
    }
}

/// Converts the index of a grapheme cluster of `text` into a position:
/// a line, and a byte index within it.
pub fn grapheme_index_to_position(text: &str, grapheme_index: usize) -> (r: Position)
    ensures
        r == position_in(text.spec_bytes(), grapheme_offset(text@, grapheme_index as int), 0, 0),
{
    let gs = graphemes(text);
    let ghost ext = extended_graphemes(text@);
    let bytes = text.as_bytes();
    let ghost all = bytes@;
    let len = bytes.len();
    let count = if grapheme_index < gs.len() {
        grapheme_index
    } else {
        gs.len()
    };
    let mut byte_offset: usize = 0;
    let mut j: usize = 0;
    assert(ext.take(0) =~= Seq::<Seq<char>>::empty());
    while j < count
        invariant
            count <= gs@.len(),
            j <= count,
            gs@.map_values(|g: &str| g@) == ext,
            concat_all(ext) == text@,
            all == encode_utf8(text@),
            all.len() <= usize::MAX,
            byte_offset == encode_utf8(concat_all(ext.take(j as int))).len(),
        decreases count - j,
    {
        proof {
            lemma_concat_all_take(ext, j as int);
            lemma_encode_utf8_concat(concat_all(ext.take(j as int)), ext[j as int]);
            lemma_encode_concat_all_take_bound(ext, j as int + 1);
            assert(ext[j as int] == gs@[j as int]@);
        }
        byte_offset += gs[j].len();
        j += 1;
    }
    assert(ext.len() == gs@.len());
    assert(byte_offset as int == grapheme_offset(text@, grapheme_index as int));
    let mut line: usize = 0;
    let mut line_start: usize = 0;
    let mut index: usize = 0;
    while index < len
        invariant
            all == bytes@,
            len == all.len(),
            line_start <= index <= len,
            line <= line_start,
            all == text.spec_bytes(),
            byte_offset as int == grapheme_offset(text@, grapheme_index as int),
            forall|k: int| line_start <= k < index ==> !is_break(all[k]),
            position_in(all, byte_offset as int, 0, 0) == position_in(
                all,
                byte_offset as int,
                line as int,
                line_start as int,
            ),
        decreases len - index,
    {
        if bytes[index] == 13u8 || bytes[index] == 10u8 {
            proof {
                lemma_next_break_at(all, line_start as int, index as int);
                assert(next_break(all, line_start as int) == index);
            }
            if byte_offset <= index {
                let below = if byte_offset >= line_start {
                    byte_offset - line_start
                } else {
                    0
                };
                let limit = index - line_start;
                return Position { line, index: if below < limit { below } else { limit } };
            }
            let first = bytes[index];
            index += 1;
            if index < len && ((first == 13u8 && bytes[index] == 10u8) || (first == 10u8
                && bytes[index] == 13u8)) {
                index += 1;
            }
            if byte_offset < index {
                return Position { line, index: index - line_start };
            }
            line += 1;
            line_start = index;
        } else {
            index += 1;
        }
    }
    proof {
        lemma_next_break_at(all, line_start as int, len as int);
    }
    let below = if byte_offset >= line_start {
        byte_offset - line_start
    } else {
        0
    };
    let limit = len - line_start;
    Position { line, index: if below < limit { below } else { limit } }
}

/// The text being composed by an input method, not yet committed.
#[derive(Debug)]
pub struct Preedit {
    /// The composed text.
    pub content: String,
    /// The selected byte range within the composed text, if any.
    pub selection: Option<core::ops::Range<usize>>,
}

/// The grapheme-cluster range that a preedit selects within its own text:
/// its selection converted from bytes, or an empty range at its end.
pub open spec fn preedit_selection(preedit: Preedit) -> (int, int) {
    let lens = grapheme_lengths(preedit.content@);
    match preedit.selection {
        None => (lens.len() as int, lens.len() as int),
        Some(range) => (
            char_index_at(lens, range.start as int),
            char_index_at(lens, range.end as int),
        ),
    }
}

/// Where the preedit goes in `text`: the byte offset of the first of the
/// selection's ends, counted in clusters.
pub open spec fn insertion_byte(text: Seq<char>, anchor: int, focus: int) -> int {
    let lens = grapheme_lengths(text);
    prefix_sum(lens, min(min(anchor, focus), lens.len() as int))
}

proof fn lemma_prefix_sum_truncated_bound(gs: Seq<Seq<char>>, j: int)
    requires
        0 <= j <= gs.len(),
        encode_utf8(concat_all(gs.take(j))).len() <= usize::MAX,
    ensures
        prefix_sum(gs.map_values(|g: Seq<char>| (encode_utf8(g).len() as usize) as u8), j)
            <= encode_utf8(concat_all(gs.take(j))).len(),
    decreases j,
{
    let lens = gs.map_values(|g: Seq<char>| (encode_utf8(g).len() as usize) as u8);
    if j > 0 {
        lemma_concat_all_take(gs, j - 1);
        lemma_encode_utf8_concat(concat_all(gs.take(j - 1)), gs[j - 1]);
        lemma_prefix_sum_truncated_bound(gs, j - 1);
        let m: usize = encode_utf8(gs[j - 1]).len() as usize;
        assert((m as u8) <= m) by (bit_vector);
    }
}

/// A non-empty text has a non-empty encoding.
pub proof fn lemma_encode_utf8_nonempty(text: Seq<char>)
    requires
        text.len() > 0,
    ensures
        encode_utf8(text).len() > 0,
{
    assert(encode_scalar(text[0] as u32).len() > 0);
}

/// With clusters shorter than 256 bytes, the byte lengths of the first `j`
/// clusters add up to the byte length of those clusters.
pub proof fn lemma_prefix_sum_exact(gs: Seq<Seq<char>>, j: int)
    requires
        0 <= j <= gs.len(),
        forall|i: int| 0 <= i < gs.len() ==> encode_utf8(#[trigger] gs[i]).len() < 256,
    ensures
        prefix_sum(gs.map_values(|g: Seq<char>| (encode_utf8(g).len() as usize) as u8), j)
            == encode_utf8(concat_all(gs.take(j))).len(),
    decreases j,
{
    if j > 0 {
        lemma_concat_all_take(gs, j - 1);
        lemma_encode_utf8_concat(concat_all(gs.take(j - 1)), gs[j - 1]);
        lemma_prefix_sum_exact(gs, j - 1);
        let m: usize = encode_utf8(gs[j - 1]).len() as usize;
        assert(m < 256 ==> (m as u8) == m) by (bit_vector);
    } else {
        assert(gs.take(0) =~= Seq::<Seq<char>>::empty());
    }
}

/// The truncated byte lengths of the grapheme clusters of a text add up to
/// no more than the text's byte length.
pub proof fn lemma_prefix_sum_truncated_bound_all(text: Seq<char>)
    requires
        concat_all(extended_graphemes(text)) == text,
        encode_utf8(text).len() <= usize::MAX,
    ensures
        prefix_sum(grapheme_lengths(text), grapheme_lengths(text).len() as int) <= encode_utf8(
            text,
        ).len(),
{
    let gs = extended_graphemes(text);
    assert(gs.take(gs.len() as int) =~= gs);
    lemma_prefix_sum_truncated_bound(gs, gs.len() as int);
}

/// Whether a preedit, when there is one and it is not empty, can be
/// inserted into `text` at the start of the selection: the insertion falls
/// on a character boundary, and the selection moved past its clusters
/// stays within `usize`.
pub open spec fn preedit_fits(text: Seq<char>, preedit: Option<&Preedit>, anchor: usize, focus: usize) -> bool {
    preedit matches Some(p) ==> p.content@.len() > 0 ==> {
        &&& is_char_boundary(encode_utf8(text), insertion_byte(text, anchor as int, focus as int))
        &&& min(anchor as int, focus as int) + grapheme_lengths(p.content@).len() <= usize::MAX
    }
}

/// Whether `r` is `text` with the preedit, if any and not empty, inserted at
/// the start of the selection, with the selection (`anchor` and `focus`)
/// moved to the preedit's own selection; else `text` and the selection
/// unchanged.
pub open spec fn is_text_with_preedit(
    text: String,
    preedit: Option<&Preedit>,
    anchor: usize,
    focus: usize,
    r: (String, usize, usize),
) -> bool {
    match preedit {
        Some(p) if p.content@.len() > 0 => {
            let b = insertion_byte(text@, anchor as int, focus as int);
            let bytes = encode_utf8(text@);
            let (start, end) = preedit_selection(*p);
            &&& encode_utf8(r.0@) == bytes.take(b) + encode_utf8(p.content@) + bytes.skip(b)
            &&& r.1 == min(anchor as int, focus as int) + start
            &&& r.2 == min(anchor as int, focus as int) + end
        },
        _ => r == (text, anchor, focus),
    }
}

/// The byte offset at which a preedit is inserted into `text`: that of the
/// start of the selection (see [`insertion_byte`]).
fn insertion_byte_of(text: &str, anchor: usize, focus: usize) -> (r: usize)
    ensures
        r == insertion_byte(text@, anchor as int, focus as int),
{
    let insertion = if anchor < focus {
        anchor
    } else {
        focus
    };
    let char_lengths = char_byte_lengths(text);
    let ghost lens = char_lengths@;
    let take = if insertion < char_lengths.len() {
        insertion
    } else {
        char_lengths.len()
    };
    let ghost ext = extended_graphemes(text@);
    proof {
        lemma_encode_concat_all_take_bound(ext, take as int);
        lemma_prefix_sum_truncated_bound(ext, take as int);
    }
    let mut offset: usize = 0;
    let mut k: usize = 0;
    while k < take
        invariant
            lens == char_lengths@,
            take <= lens.len(),
            k <= take,
            offset == prefix_sum(lens, k as int),
            prefix_sum(lens, take as int) <= usize::MAX,
        decreases take - k,
    {
        proof {
            lemma_prefix_sum_monotone(lens, k as int + 1, take as int);
        }
        offset += char_lengths[k] as usize;
        k += 1;
    }
    offset
}

/// Inserts the preedit text, if any, into `text` at the start of the
/// selection, and moves the selection (`anchor` and `focus`, counted in
/// grapheme clusters) to the preedit's own selection (see
/// [`is_text_with_preedit`]).
#[verifier::spinoff_prover]
pub fn text_with_preedit(text: String, preedit: Option<&Preedit>, anchor: usize, focus: usize) -> (r: (
    String,
    usize,
    usize,
))
    requires
        preedit_fits(text@, preedit, anchor, focus),
    ensures
        is_text_with_preedit(text, preedit, anchor, focus, r),
{
    let p = match preedit {
        Some(p) => p,
        None => {
            return (text, anchor, focus);
        },
    };
    if p.content.as_str().is_empty() {
        return (text, anchor, focus);
    }
    let insertion = if anchor < focus {
        anchor
    } else {
        focus
    };
    let insertion_byte = insertion_byte_of(text.as_str(), anchor, focus);
    let (before, after) = text.as_str().split_at(insertion_byte);
    let mut combined = String::from_str(before);
    combined.append(p.content.as_str());
    combined.append(after);
    proof {
        lemma_encode_utf8_concat(before@ + p.content@, after@);
        lemma_encode_utf8_concat(before@, p.content@);
    }
    let content_lengths = char_byte_lengths(p.content.as_str());
    let (start, end) = match &p.selection {
        None => (content_lengths.len(), content_lengths.len()),
        Some(range) => {
            proof {
                let cg = extended_graphemes(p.content@);
                assert(cg.take(cg.len() as int) =~= cg);
                lemma_prefix_sum_truncated_bound(cg, cg.len() as int);
            }
            (
                byte_to_char_index(content_lengths.as_slice(), range.start),
                byte_to_char_index(content_lengths.as_slice(), range.end),
            )
        },
    };
    (combined, insertion + start, insertion + end)
}

/// Whether the preedit fits into `text` (see [`preedit_fits`]).
pub fn fits_preedit(text: &str, preedit: Option<&Preedit>, anchor: usize, focus: usize) -> (r: bool)
    ensures
        r == preedit_fits(text@, preedit, anchor, focus),
{
    if let Some(p) = preedit {
        if !p.content.as_str().is_empty() {
            let b = insertion_byte_of(text, anchor, focus);
            if !text.is_char_boundary(b) {
                return false;
            }
            let count = char_byte_lengths(p.content.as_str()).len();
            let start = if anchor < focus {
                anchor
            } else {
                focus
            };
            if start > usize::MAX - count {
                return false;
            }
        }
    }
    true
}

/// Inserts the preedit text as [`text_with_preedit`] does, when it fits
/// (see [`preedit_fits`]); `None` when it does not.
pub fn checked_text_with_preedit(text: String, preedit: Option<&Preedit>, anchor: usize, focus: usize) -> (r:
    Option<(String, usize, usize)>)
    ensures
        r is Some <==> preedit_fits(text@, preedit, anchor, focus),
        r matches Some(v) ==> is_text_with_preedit(text, preedit, anchor, focus, v),
{
    if !fits_preedit(text.as_str(), preedit, anchor, focus) {
        return None;
    }
    Some(text_with_preedit(text, preedit, anchor, focus))
}

} // verus!
