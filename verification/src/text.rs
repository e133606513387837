//! Text handling on characters: trimming, searching, splitting and ordering.

use vstd::prelude::*;

verus! {

/// Whether a character has the Unicode `White_Space` property.
pub open spec fn white_space(c: char) -> bool {
    let code = c as u32;
    ||| 0x9 <= code <= 0xd
    ||| code == 0x20
    ||| code == 0x85
    ||| code == 0xa0
    ||| code == 0x1680
    ||| 0x2000 <= code <= 0x200a
    ||| code == 0x2028
    ||| code == 0x2029
    ||| code == 0x202f
    ||| code == 0x205f
    ||| code == 0x3000
}

/// Names `str::to_lowercase`: the lowercase mapping of a text.
pub uninterp spec fn lowercase(text: Seq<char>) -> Seq<char>;

/// `str` equality of the standard library: two texts are equal when their characters are.
pub assume_specification[ <str as PartialEq<str>>::eq ](left: &str, right: &str) -> (same: bool)
    ensures
        same == (left@ == right@),
;

/// `char::is_whitespace` of the standard library decides the Unicode `White_Space` property; the
/// characters that have it are those that the Unicode Character Database lists.
pub assume_specification[ char::is_whitespace ](c: char) -> (result: bool)
    ensures
        result == white_space(c),
;

/// `str::to_lowercase` of the standard library gives a text that depends on the argument alone.
pub assume_specification[ str::to_lowercase ](text: &str) -> (result: String)
    ensures
        result@ == lowercase(text@),
;

/// `String::push` of the standard library appends one character.
pub assume_specification[ String::push ](text: &mut String, c: char)
    ensures
        final(text)@ == old(text)@.push(c),
;

/// The text without the white space at both of its ends.
pub open spec fn trimmed(text: Seq<char>) -> Seq<char>
    decreases text.len(),
{
    if text.len() == 0 {
        text
    } else if white_space(text.first()) {
        trimmed(text.drop_first())
    } else if white_space(text.last()) {
        trimmed(text.drop_last())
    } else {
        text
    }
}

/// Whether `pattern` occurs in `text` as a contiguous part.
pub open spec fn occurs_in(pattern: Seq<char>, text: Seq<char>) -> bool {
    exists|i: int| occurs_at(pattern, text, i)
}

/// Whether `pattern` occurs in `text` from index `i` on.
pub open spec fn occurs_at(pattern: Seq<char>, text: Seq<char>, i: int) -> bool {
    0 <= i && i + pattern.len() <= text.len() && text.subrange(i, i + pattern.len()) == pattern
}

/// The characters that separate keywords.
pub open spec fn is_separator(c: char) -> bool {
    c == '|' || c == ',' || c == ';' || c == '\n'
}

/// The pieces of a text between separators, empty pieces kept.
pub open spec fn split_pieces(text: Seq<char>) -> Seq<Seq<char>>
    decreases text.len(),
{
    if text.len() == 0 {
        seq![Seq::<char>::empty()]
    } else {
        let before = split_pieces(text.drop_last());
        if is_separator(text.last()) {
            before.push(Seq::<char>::empty())
        } else {
            before.drop_last().push(before.last().push(text.last()))
        }
    }
}

/// The ASCII lowercase form of a character.
pub open spec fn ascii_lower(c: char) -> char {
    if 'A' <= c && c <= 'Z' {
        ((c as u8) + 32) as u8 as char
    } else {
        c
    }
}

/// The text with every ASCII capital letter replaced by its small letter.
pub open spec fn ascii_lowered(text: Seq<char>) -> Seq<char> {
    text.map_values(|c: char| ascii_lower(c))
}

/// The lexicographic order of two texts by code point: negative, zero or positive.
pub open spec fn text_order(left: Seq<char>, right: Seq<char>) -> int
    decreases left.len(),
{
    if left.len() == 0 && right.len() == 0 {
        0
    } else if left.len() == 0 {
        -1
    } else if right.len() == 0 {
        1
    } else if left[0] < right[0] {
        -1
    } else if left[0] > right[0] {
        1
    } else {
        text_order(left.drop_first(), right.drop_first())
    }
}

/// Texts of owned strings.
pub open spec fn texts(items: Seq<String>) -> Seq<Seq<char>> {
    items.map_values(|item: String| item@)
}

/// Whether two texts hold the same characters.
pub fn same_text(left: &str, right: &str) -> (same: bool)
    ensures
        same == (left@ == right@),
{
    *left == *right
}

/// The characters of a text.
pub fn chars_of(text: &str) -> (result: Vec<char>)
    ensures
        result@ == text@,
{
    let mut result: Vec<char> = Vec::new();
    for c in it: text.chars()
        invariant
            it.seq() == text@,
            result@ == text@.take(it.index() as int),
    {
        result.push(c);
    }
    result
}

proof fn lemma_trimmed_window(text: Seq<char>, start: int, end: int)
    requires
        0 <= start <= end <= text.len(),
        start == end || !white_space(text[start]),
        start == end || !white_space(text[end - 1]),
        forall|i: int| 0 <= i < start ==> white_space(#[trigger] text[i]),
        forall|i: int| end <= i < text.len() ==> white_space(#[trigger] text[i]),
    ensures
        trimmed(text) == text.subrange(start, end),
    decreases text.len(),
{
    if text.len() == 0 {
        assert(text =~= text.subrange(start, end));
    } else if white_space(text.first()) {
        let rest = text.drop_first();
        if start == 0 {
            // The window is empty at the left end.
            assert(end == 0);
            lemma_trimmed_window(rest, 0, 0);
            assert(rest.subrange(0, 0) =~= text.subrange(start, end));
        } else {
            lemma_trimmed_window(rest, start - 1, end - 1);
            assert(rest.subrange(start - 1, end - 1) =~= text.subrange(start, end));
        }
    } else {
        assert(start == 0);
        if white_space(text.last()) {
            let rest = text.drop_last();
            assert(end < text.len());
            assert(end > 0) by {
                if end == 0 {
                    assert(white_space(text[0]));
                }
            }
            lemma_trimmed_window(rest, start, end);
            assert(rest.subrange(start, end) =~= text.subrange(start, end));
        } else {
            assert(end == text.len()) by {
                if end < text.len() {
                    assert(white_space(text[text.len() - 1]));
                }
            }
            assert(text =~= text.subrange(start, end));
        }
    }
}

/// Removes the white space at both ends of a text.
pub fn trim(text: &str) -> (result: String)
    ensures
        result@ == trimmed(text@),
{
    let chars = chars_of(text);
    let mut start: usize = 0;
    while start < chars.len() && chars[start].is_whitespace()
        invariant
            start <= chars.len(),
            forall|i: int| 0 <= i < start ==> white_space(#[trigger] chars@[i]),
        decreases chars.len() - start,
    {
        start += 1;
    }
    let mut end: usize = chars.len();
    while end > start && chars[end - 1].is_whitespace()
        invariant
            start <= end <= chars.len(),
            forall|i: int| end <= i < chars.len() ==> white_space(#[trigger] chars@[i]),
        decreases end,
    {
        end -= 1;
    }
    proof {
        if start < end {
            assert(!white_space(chars@[start as int]));
        }
        lemma_trimmed_window(chars@, start as int, end as int);
    }
    let mut result: String = String::new();
    for i in start..end
        invariant
            start <= end <= chars.len(),
            result@ == chars@.subrange(start as int, i as int),
    {
        result.push(chars[i]);
    }
    result
}

proof fn lemma_trimmed_ends(text: Seq<char>)
    ensures
        trimmed(text).len() == 0 || !white_space(trimmed(text).first()),
        trimmed(text).len() == 0 || !white_space(trimmed(text).last()),
    decreases text.len(),
{
    if text.len() > 0 {
        if white_space(text.first()) {
            lemma_trimmed_ends(text.drop_first());
        } else if white_space(text.last()) {
            lemma_trimmed_ends(text.drop_last());
        }
    }
}

/// Trimming a trimmed text changes nothing.
pub proof fn law_trim_is_idempotent(text: Seq<char>)
    ensures
        trimmed(trimmed(text)) == trimmed(text),
{
    lemma_trimmed_ends(text);
}

/// Whether `pattern` occurs in `text`.
pub fn occurs(pattern: &Vec<char>, text: &Vec<char>) -> (found: bool)
    ensures
        found == occurs_in(pattern@, text@),
{
    if pattern.len() > text.len() {
        return false;
    }
    let last: usize = text.len() - pattern.len();
    let mut i: usize = 0;
    while i <= last
        invariant
            last + pattern.len() == text.len(),
            i <= last + 1,
            forall|k: int| 0 <= k < i ==> !#[trigger] occurs_at(pattern@, text@, k),
        decreases last + 1 - i,
    {
        let mut j: usize = 0;
        while j < pattern.len() && text[i + j] == pattern[j]
            invariant
                last + pattern.len() == text.len(),
                i <= last,
                j <= pattern.len(),
                forall|k: int| 0 <= k < j ==> text@[i + k] == #[trigger] pattern@[k],
            decreases pattern.len() - j,
        {
            j += 1;
        }
        if j == pattern.len() {
            assert(text@.subrange(i as int, i + pattern@.len()) =~= pattern@);
            assert(occurs_at(pattern@, text@, i as int));
            return true;
        }
        assert(!occurs_at(pattern@, text@, i as int)) by {
            if occurs_at(pattern@, text@, i as int) {
                assert(text@.subrange(i as int, i + pattern@.len())[j as int] == text@[i + j]);
            }
        }
        if i == usize::MAX {
            return false;
        }
        i += 1;
    }
    assert forall|k: int| !occurs_at(pattern@, text@, k) by {
        if 0 <= k < i {
        } else {
        }
    }
    false
}

/// Splits a text at the keyword separators.
pub fn split_keywords(text: &str) -> (pieces: Vec<String>)
    ensures
        texts(pieces@) == split_pieces(text@),
{
    let chars = chars_of(text);
    let mut pieces: Vec<String> = Vec::new();
    let mut current: String = String::new();
    let ghost mut done: Seq<Seq<char>> = Seq::empty();
    assert(chars@.take(0) =~= Seq::empty());
    for i in 0..chars.len()
        invariant
            done == texts(pieces@),
            split_pieces(chars@.take(i as int)) =~= done.push(current@),
    {
        let c = chars[i];
        let ghost before = chars@.take(i as int);
        assert(chars@.take(i + 1).drop_last() =~= before);
        assert(chars@.take(i + 1).last() == c);
        if c == '|' || c == ',' || c == ';' || c == '\n' {
            let piece = current;
            let ghost old_pieces = pieces@;
            pieces.push(piece);
            current = String::new();
            proof {
                assert(texts(pieces@) =~= done.push(piece@));
                done = done.push(piece@);
            }
        } else {
            let ghost old_current = current@;
            current.push(c);
            proof {
                assert(done.push(old_current).drop_last() =~= done);
            }
        }
    }
    assert(chars@.take(chars@.len() as int) =~= chars@);
    let ghost last_piece = current@;
    pieces.push(current);
    assert(texts(pieces@) =~= done.push(last_piece));
    pieces
}

/// Lowers the ASCII capital letters of a text.
pub fn to_ascii_lower(text: &str) -> (result: String)
    ensures
        result@ == ascii_lowered(text@),
{
    let chars = chars_of(text);
    let mut result: String = String::new();
    for i in 0..chars.len()
        invariant
            result@ =~= ascii_lowered(chars@.take(i as int)),
    {
        let c = chars[i];
        let lowered: char = if 'A' <= c && c <= 'Z' {
            ((c as u8) + 32) as char
        } else {
            c
        };
        assert(chars@.take(i + 1) =~= chars@.take(i as int).push(c));
        result.push(lowered);
    }
    assert(chars@.take(chars@.len() as int) =~= chars@);
    result
}

/// Compares two texts by code point: -1, 0 or 1.
pub fn order_of_texts(left: &Vec<char>, right: &Vec<char>) -> (order: i8)
    ensures
        order == text_order(left@, right@),
{
    let mut i: usize = 0;
    assert(left@.skip(0) =~= left@);
    assert(right@.skip(0) =~= right@);
    while i < left.len() && i < right.len()
        invariant
            i <= left.len(),
            i <= right.len(),
            text_order(left@, right@) == text_order(left@.skip(i as int), right@.skip(i as int)),
        decreases left.len() - i,
    {
        let a: char = left[i];
        let b: char = right[i];
        if a < b {
            return -1;
        }
        if a > b {
            return 1;
        }
        assert(left@.skip(i as int).drop_first() =~= left@.skip(i + 1));
        assert(right@.skip(i as int).drop_first() =~= right@.skip(i + 1));
        i += 1;
    }
    if left.len() == right.len() {
        0
    } else if i == left.len() {
        -1
    } else {
        1
    }
}

/// The order of texts is antisymmetric, and zero only between equal texts.
pub proof fn lemma_text_order_flip(left: Seq<char>, right: Seq<char>)
    ensures
        text_order(left, right) == -text_order(right, left),
        text_order(left, right) == 0 <==> left == right,
        -1 <= text_order(left, right) <= 1,
    decreases left.len(),
{
    if left.len() == 0 || right.len() == 0 {
        if left.len() == 0 && right.len() == 0 {
            assert(left =~= right);
        }
    } else {
        lemma_text_order_flip(left.drop_first(), right.drop_first());
        if left[0] == right[0] && left.drop_first() == right.drop_first() {
            assert(left =~= seq![left[0]] + left.drop_first());
            assert(right =~= seq![right[0]] + right.drop_first());
        }
    }
}

/// The order of texts is transitive.
pub proof fn lemma_text_order_chain(a: Seq<char>, b: Seq<char>, c: Seq<char>)
    requires
        text_order(a, b) <= 0,
        text_order(b, c) <= 0,
    ensures
        text_order(a, c) <= 0,
        text_order(a, b) < 0 || text_order(b, c) < 0 ==> text_order(a, c) < 0,
    decreases a.len(),
{
    if a.len() > 0 && b.len() > 0 && c.len() > 0 {
        if a[0] == b[0] && b[0] == c[0] {
            lemma_text_order_chain(a.drop_first(), b.drop_first(), c.drop_first());
        }
    }
}

} // verus!
