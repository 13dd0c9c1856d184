//! Text as sequences of characters: trimming, lines, pieces, searching, letter case.
use vstd::prelude::*;
use vstd::slice::slice_subrange;

verus! {

/// The Unicode property White_Space.
pub open spec fn is_white_space(c: char) -> bool {
    let v = c as u32;
    ||| 0x9 <= v <= 0xd
    ||| v == 0x20
    ||| v == 0x85
    ||| v == 0xa0
    ||| v == 0x1680
    ||| 0x2000 <= v <= 0x200a
    ||| v == 0x2028
    ||| v == 0x2029
    ||| v == 0x202f
    ||| v == 0x205f
    ||| v == 0x3000
}

/// Only white space, or nothing at all.
pub open spec fn is_blank(s: Seq<char>) -> bool {
    forall|i: int| 0 <= i < s.len() ==> is_white_space(#[trigger] s[i])
}

/// `s` from its first character that is not white space on.
pub open spec fn trimmed_start(s: Seq<char>) -> Seq<char>
    decreases s.len(),
{
    if s.len() > 0 && is_white_space(s.first()) {
        trimmed_start(s.drop_first())
    } else {
        s
    }
}

/// `s` up to its last character that is not white space.
pub open spec fn trimmed_end(s: Seq<char>) -> Seq<char>
    decreases s.len(),
{
    if s.len() > 0 && is_white_space(s.last()) {
        trimmed_end(s.drop_last())
    } else {
        s
    }
}

/// `s` without the white space at both ends.
pub open spec fn trimmed(s: Seq<char>) -> Seq<char> {
    trimmed_end(trimmed_start(s))
}

/// Position of the first `c` in `s`; the length of `s` where there is none.
pub open spec fn first_index(s: Seq<char>, c: char) -> int
    decreases s.len(),
{
    if s.len() == 0 || s[0] == c {
        0
    } else {
        1 + first_index(s.drop_first(), c)
    }
}

/// Whether `part` stands in `s` from position `i` on.
pub open spec fn occurs_at(s: Seq<char>, part: Seq<char>, i: int) -> bool {
    &&& 0 <= i
    &&& i + part.len() <= s.len()
    &&& s.subrange(i, i + part.len()) == part
}

/// Position of the first occurrence of `part` in `s`.
pub open spec fn first_occurrence(s: Seq<char>, part: Seq<char>) -> Option<int>
    decreases s.len(),
{
    if part.is_prefix_of(s) {
        Some(0int)
    } else if s.len() == 0 {
        None
    } else {
        match first_occurrence(s.drop_first(), part) {
            Some(i) => Some(i + 1),
            None => None,
        }
    }
}

/// Whether `part` stands anywhere in `s`.
pub open spec fn contains_text(s: Seq<char>, part: Seq<char>) -> bool {
    exists|i: int| occurs_at(s, part, i)
}

/// What stands between the separators: one piece more than there are separators.
pub open spec fn pieces(s: Seq<char>, separator: char) -> Seq<Seq<char>>
    decreases s.len(),
{
    let i = first_index(s, separator);
    if 0 <= i < s.len() {
        seq![s.take(i)] + pieces(s.skip(i + 1), separator)
    } else {
        seq![s]
    }
}

/// A line without the carriage return that belongs to its line ending.
pub open spec fn without_carriage_return(line: Seq<char>) -> Seq<char> {
    if line.len() > 0 && line.last() == '\r' {
        line.drop_last()
    } else {
        line
    }
}

/// The lines of a text. A line ends with a line feed, alone or after a carriage return; the
/// last line may lack its ending.
pub open spec fn lines_of(s: Seq<char>) -> Seq<Seq<char>>
    decreases s.len(),
{
    let i = first_index(s, '\n');
    if s.len() == 0 {
        Seq::empty()
    } else if 0 <= i < s.len() {
        seq![without_carriage_return(s.take(i))] + lines_of(s.skip(i + 1))
    } else {
        seq![s]
    }
}

/// `parts` joined, with `separator` between neighbours.
pub open spec fn joined(parts: Seq<Seq<char>>, separator: Seq<char>) -> Seq<char>
    decreases parts.len(),
{
    if parts.len() == 0 {
        Seq::empty()
    } else if parts.len() == 1 {
        parts[0]
    } else {
        joined(parts.drop_last(), separator) + separator + parts.last()
    }
}

/// The letters `A` to `Z` as `a` to `z`, every other character as it is.
pub open spec fn ascii_lower(c: char) -> char {
    if 'A' <= c <= 'Z' {
        (c as u32 + 0x20) as char
    } else {
        c
    }
}

/// The letters `a` to `z` as `A` to `Z`, every other character as it is.
pub open spec fn ascii_upper(c: char) -> char {
    if 'a' <= c <= 'z' {
        (c as u32 - 0x20) as char
    } else {
        c
    }
}

/// Equal but for the case of the letters `A` to `Z`.
pub open spec fn same_but_for_case(a: Seq<char>, b: Seq<char>) -> bool {
    &&& a.len() == b.len()
    &&& forall|i: int| 0 <= i < a.len() ==> ascii_lower(#[trigger] a[i]) == ascii_lower(b[i])
}

/// `A` to `Z` or `a` to `z`.
pub open spec fn is_ascii_letter(c: char) -> bool {
    'A' <= c <= 'Z' || 'a' <= c <= 'z'
}

/// The texts that slices of characters stand for.
pub open spec fn views(parts: Seq<&[char]>) -> Seq<Seq<char>> {
    Seq::new(parts.len(), |i: int| parts[i]@)
}

/// The texts that strings stand for.
pub open spec fn texts(parts: Seq<String>) -> Seq<Seq<char>> {
    Seq::new(parts.len(), |i: int| parts[i]@)
}

/// The texts that string slices stand for.
pub open spec fn str_texts(parts: Seq<&str>) -> Seq<Seq<char>> {
    Seq::new(parts.len(), |i: int| parts[i]@)
}

/// The text in an optional string.
pub open spec fn text_of(s: Option<String>) -> Option<Seq<char>> {
    match s {
        Some(s) => Some(s@),
        None => None,
    }
}

/// The text in an optional string slice.
pub open spec fn str_of(s: Option<&str>) -> Option<Seq<char>> {
    match s {
        Some(s) => Some(s@),
        None => None,
    }
}

/// The first index is in range; `c` stands there and nowhere before.
pub proof fn lemma_first_index(s: Seq<char>, c: char)
    ensures
        0 <= first_index(s, c) <= s.len(),
        first_index(s, c) < s.len() ==> s[first_index(s, c)] == c,
        forall|j: int| 0 <= j < first_index(s, c) ==> #[trigger] s[j] != c,
    decreases s.len(),
{
    if s.len() > 0 && s[0] != c {
        let tail = s.drop_first();
        lemma_first_index(tail, c);
        assert forall|j: int| 0 <= j < first_index(s, c) implies #[trigger] s[j] != c by {
            if j > 0 {
                assert(s[j] == tail[j - 1]);
            }
        }
    }
}

/// The first occurrence is one, none stands before it, and there is one where `part` occurs.
pub proof fn lemma_first_occurrence(s: Seq<char>, part: Seq<char>)
    ensures
        first_occurrence(s, part) is Some <==> contains_text(s, part),
        first_occurrence(s, part) matches Some(i) ==> occurs_at(s, part, i) && forall|j: int|
            0 <= j < i ==> !occurs_at(s, part, j),
    decreases s.len(),
{
    if part.is_prefix_of(s) {
        assert(occurs_at(s, part, 0));
    } else if s.len() == 0 {
        assert forall|j: int| !occurs_at(s, part, j) by {
            if occurs_at(s, part, j) {
                assert(part =~= s);
            }
        }
    } else {
        let tail = s.drop_first();
        lemma_first_occurrence(tail, part);
        assert forall|j: int| occurs_at(s, part, j) implies j > 0 && occurs_at(tail, part, j - 1) by {
            if j == 0 {
                assert(part =~= s.subrange(0, part.len() as int));
            } else {
                assert(tail.subrange(j - 1, j - 1 + part.len()) =~= s.subrange(j, j + part.len()));
            }
        }
        assert forall|j: int| occurs_at(tail, part, j) implies occurs_at(s, part, j + 1) by {
            assert(tail.subrange(j, j + part.len()) =~= s.subrange(j + 1, j + 1 + part.len()));
        }
    }
}

/// A trimmed text is a part of the text, has no white space at its ends, and is empty just where
/// the text is blank.
pub proof fn lemma_trimmed(s: Seq<char>)
    ensures
        trimmed(s).len() <= s.len(),
        trimmed(s).len() > 0 ==> !is_white_space(trimmed(s).first()) && !is_white_space(
            trimmed(s).last(),
        ),
        trimmed(s).len() == 0 <==> is_blank(s),
{
    let head = trimmed_start(s);
    lemma_trimmed_start(s);
    lemma_trimmed_end(head);
    if trimmed(s).len() > 0 {
        assert(trimmed(s).first() == head.first());
    }
    if trimmed(s).len() == 0 && head.len() > 0 {
        assert(is_white_space(head[0]));
    }
}

proof fn lemma_trimmed_start(s: Seq<char>)
    ensures
        trimmed_start(s).len() <= s.len(),
        trimmed_start(s).len() > 0 ==> !is_white_space(trimmed_start(s).first()),
        trimmed_start(s).len() == 0 <==> is_blank(s),
    decreases s.len(),
{
    if s.len() > 0 {
        if is_white_space(s.first()) {
            let tail = s.drop_first();
            lemma_trimmed_start(tail);
            if is_blank(tail) {
                assert forall|i: int| 0 <= i < s.len() implies is_white_space(#[trigger] s[i]) by {
                    if i > 0 {
                        assert(s[i] == tail[i - 1]);
                    }
                }
            }
            if is_blank(s) {
                assert forall|i: int| 0 <= i < tail.len() implies is_white_space(
                    #[trigger] tail[i],
                ) by {
                    assert(tail[i] == s[i + 1]);
                }
            }
        } else {
            assert(!is_white_space(s[0]));
        }
    }
}

proof fn lemma_trimmed_end(s: Seq<char>)
    ensures
        trimmed_end(s).len() <= s.len(),
        trimmed_end(s) == s.take(trimmed_end(s).len() as int),
        trimmed_end(s).len() > 0 ==> !is_white_space(trimmed_end(s).last()),
        trimmed_end(s).len() == 0 ==> is_blank(s),
    decreases s.len(),
{
    if s.len() > 0 && is_white_space(s.last()) {
        let init = s.drop_last();
        lemma_trimmed_end(init);
        assert(trimmed_end(s) =~= s.take(trimmed_end(s).len() as int));
        if trimmed_end(s).len() == 0 {
            assert forall|i: int| 0 <= i < s.len() implies is_white_space(#[trigger] s[i]) by {
                if i < init.len() {
                    assert(s[i] == init[i]);
                }
            }
        }
    } else {
        assert(s =~= s.take(s.len() as int));
    }
}

/// A text without white space at its ends stays as it is when trimmed.
pub proof fn lemma_trimmed_fixed(s: Seq<char>)
    requires
        s.len() > 0 ==> !is_white_space(s.first()) && !is_white_space(s.last()),
    ensures
        trimmed(s) == s,
{
}

/// To trim twice is to trim once.
pub proof fn trimming_is_idempotent(s: Seq<char>)
    ensures
        trimmed(trimmed(s)) == trimmed(s),
{
    lemma_trimmed(s);
    lemma_trimmed_fixed(trimmed(s));
}

/// Trimming takes away the white space around a text and keeps all that stands between.
pub proof fn trimming_keeps_what_stands_between(left: Seq<char>, inner: Seq<char>, right: Seq<char>)
    requires
        is_blank(left),
        is_blank(right),
        inner.len() > 0,
        !is_white_space(inner.first()),
        !is_white_space(inner.last()),
    ensures
        trimmed(left + inner + right) == inner,
    decreases left.len() + right.len(),
{
    let whole = left + inner + right;
    if left.len() > 0 {
        let less = left.drop_first();
        assert(is_white_space(left[0]));
        assert(whole.first() == left[0]);
        assert(whole.drop_first() =~= less + inner + right);
        assert forall|i: int| 0 <= i < less.len() implies is_white_space(#[trigger] less[i]) by {
            assert(less[i] == left[i + 1]);
        }
        trimming_keeps_what_stands_between(less, inner, right);
    } else {
        assert(whole.first() == inner.first());
        assert(trimmed_start(whole) == whole);
        if right.len() > 0 {
            let less = right.drop_last();
            assert(is_white_space(right[right.len() - 1]));
            assert(whole.last() == right.last());
            assert(whole.drop_last() =~= left + inner + less);
            assert forall|i: int| 0 <= i < less.len() implies is_white_space(#[trigger] less[i]) by {
                assert(less[i] == right[i]);
            }
            trimming_keeps_what_stands_between(left, inner, less);
            assert(whole.drop_last().first() == inner.first());
            assert(trimmed_start(whole.drop_last()) == whole.drop_last());
        } else {
            assert(whole =~= inner);
        }
    }
}

/// Whatever the text, trimming cuts off white space at both ends and nothing else.
pub proof fn trimming_cuts_off_white_space(s: Seq<char>) -> (bounds: (int, int))
    ensures
        0 <= bounds.0 <= bounds.1 <= s.len(),
        trimmed(s) == s.subrange(bounds.0, bounds.1),
        forall|i: int| 0 <= i < bounds.0 ==> is_white_space(#[trigger] s[i]),
        forall|i: int| bounds.1 <= i < s.len() ==> is_white_space(#[trigger] s[i]),
    decreases s.len(),
{
    if s.len() > 0 && is_white_space(s.first()) {
        let less = s.drop_first();
        let (i, j) = trimming_cuts_off_white_space(less);
        assert(trimmed(s) == trimmed(less));
        assert(s.subrange(i + 1, j + 1) =~= less.subrange(i, j));
        assert forall|k: int| 0 <= k < i + 1 implies is_white_space(#[trigger] s[k]) by {
            if k > 0 {
                assert(s[k] == less[k - 1]);
            }
        }
        assert forall|k: int| j + 1 <= k < s.len() implies is_white_space(#[trigger] s[k]) by {
            assert(s[k] == less[k - 1]);
        }
        (i + 1, j + 1)
    } else if s.len() > 0 && is_white_space(s.last()) {
        let less = s.drop_last();
        let (i, j) = trimming_cuts_off_white_space(less);
        assert(less.len() > 0 ==> less.first() == s.first());
        assert(trimmed(s) == trimmed(less));
        assert(s.subrange(i, j) =~= less.subrange(i, j));
        assert forall|k: int| 0 <= k < i implies is_white_space(#[trigger] s[k]) by {
            assert(s[k] == less[k]);
        }
        assert forall|k: int| j <= k < s.len() implies is_white_space(#[trigger] s[k]) by {
            if k < less.len() {
                assert(s[k] == less[k]);
            }
        }
        (i, j)
    } else {
        assert(s.subrange(0, s.len() as int) =~= s);
        (0, s.len() as int)
    }
}

/// White space is what stands in the list of the Unicode property: no letter, digit, bracket or
/// punctuation mark of ASCII is among it, and blank, tab and line ends are.
pub proof fn printable_ascii_is_no_white_space(c: char)
    ensures
        '!' <= c <= '~' ==> !is_white_space(c),
        c == ' ' || c == '\t' || c == '\n' || c == '\r' ==> is_white_space(c),
{
}

/// To join one part is to take it; to join two lists is to join each, with a separator between.
pub proof fn joining_is_by_parts(
    first: Seq<Seq<char>>,
    second: Seq<Seq<char>>,
    part: Seq<char>,
    separator: Seq<char>,
)
    ensures
        joined(Seq::<Seq<char>>::empty(), separator).len() == 0,
        joined(seq![part], separator) == part,
        first.len() > 0 && second.len() > 0 ==> joined(first + second, separator) == joined(
            first,
            separator,
        ) + separator + joined(second, separator),
    decreases second.len(),
{
    if first.len() > 0 && second.len() > 0 {
        let all = first + second;
        assert(all.last() == second.last());
        assert(all.drop_last() =~= first + second.drop_last());
        if second.len() > 1 {
            joining_is_by_parts(first, second.drop_last(), part, separator);
            assert(joined(all, separator) =~= joined(first, separator) + separator + joined(
                second,
                separator,
            ));
        } else {
            assert(first + second.drop_last() =~= first);
        }
    }
}

/// A joined list starts with its first part.
pub proof fn lemma_joined_front(parts: Seq<Seq<char>>, separator: Seq<char>)
    requires
        parts.len() > 1,
    ensures
        joined(parts, separator) == parts[0] + separator + joined(parts.drop_first(), separator),
{
    joining_is_by_parts(seq![parts[0]], parts.drop_first(), parts[0], separator);
    assert(seq![parts[0]] + parts.drop_first() =~= parts);
}

/// The first `c` after a text without `c` is found where that text ends.
pub proof fn lemma_first_index_after(head: Seq<char>, c: char, tail: Seq<char>)
    requires
        !head.contains(c),
    ensures
        first_index(head + seq![c] + tail, c) == head.len(),
        first_index(head, c) == head.len(),
{
    let whole = head + seq![c] + tail;
    lemma_first_index(whole, c);
    lemma_first_index(head, c);
    let i = first_index(whole, c);
    let k = first_index(head, c);
    assert(whole[head.len() as int] == c);
    if i < head.len() {
        assert(head[i] == whole[i]);
        assert(head.contains(c));
    }
    if k < head.len() {
        assert(head.contains(c));
    }
}

/// To cut a joined list at its separators gives the list back, however many parts it has.
pub proof fn joined_parts_are_cut_again(parts: Seq<Seq<char>>, separator: char)
    requires
        parts.len() > 0,
        forall|i: int| 0 <= i < parts.len() ==> !(#[trigger] parts[i]).contains(separator),
    ensures
        pieces(joined(parts, seq![separator]), separator) == parts,
    decreases parts.len(),
{
    let whole = joined(parts, seq![separator]);
    let head = parts[0];
    if parts.len() == 1 {
        lemma_first_index_after(head, separator, Seq::empty());
        assert(parts =~= seq![head]);
    } else {
        let rest = parts.drop_first();
        let tail = joined(rest, seq![separator]);
        lemma_joined_front(parts, seq![separator]);
        lemma_first_index_after(head, separator, tail);
        assert forall|i: int| 0 <= i < rest.len() implies !(#[trigger] rest[i]).contains(
            separator,
        ) by {
            assert(rest[i] == parts[i + 1]);
        }
        joined_parts_are_cut_again(rest, separator);
        assert(whole.take(head.len() as int) =~= head);
        assert(whole.skip(head.len() as int + 1) =~= tail);
        assert(seq![head] + rest =~= parts);
    }
}

/// The pieces of a text hold no separator, and joined they are the text.
pub proof fn pieces_make_up_the_text(s: Seq<char>, separator: char)
    ensures
        pieces(s, separator).len() > 0,
        forall|i: int|
            0 <= i < pieces(s, separator).len() ==> !(#[trigger] pieces(s, separator)[i]).contains(
                separator,
            ),
        joined(pieces(s, separator), seq![separator]) == s,
    decreases s.len(),
{
    let i = first_index(s, separator);
    lemma_first_index(s, separator);
    let all = pieces(s, separator);
    if i < s.len() {
        let head = s.take(i);
        let tail = s.skip(i + 1);
        let rest = pieces(tail, separator);
        pieces_make_up_the_text(tail, separator);
        assert(all =~= seq![head] + rest);
        assert(all.drop_first() =~= rest);
        lemma_joined_front(all, seq![separator]);
        assert(head + seq![separator] + tail =~= s);
        assert forall|k: int| 0 <= k < all.len() implies !(#[trigger] all[k]).contains(
            separator,
        ) by {
            if k == 0 {
                if head.contains(separator) {
                    let m = choose|m: int| 0 <= m < head.len() && head[m] == separator;
                    assert(s[m] == separator);
                }
            } else {
                assert(all[k] == rest[k - 1]);
            }
        }
    } else if s.contains(separator) {
        let m = choose|m: int| 0 <= m < s.len() && s[m] == separator;
        assert(s[m] == separator);
    }
}

/// A line ends with a line feed or with a carriage return and a line feed, which do not belong to
/// it; what follows are the lines of the rest.
pub proof fn lines_end_with_line_feeds(line: Seq<char>, rest: Seq<char>)
    requires
        !line.contains('\n'),
    ensures
        lines_of(line + seq!['\r', '\n'] + rest) == seq![line] + lines_of(rest),
        line.len() == 0 || line.last() != '\r' ==> lines_of(line + seq!['\n'] + rest) == seq![line]
            + lines_of(rest),
{
    let n = line.len() as int;
    let long = line + seq!['\r', '\n'] + rest;
    let head = line.push('\r');
    assert(!head.contains('\n')) by {
        if head.contains('\n') {
            let k = choose|k: int| 0 <= k < head.len() && head[k] == '\n';
            assert(line[k] == '\n');
        }
    }
    assert(long =~= head + seq!['\n'] + rest);
    lemma_first_index_after(head, '\n', rest);
    assert(long.take(n + 1) =~= head);
    assert(head.drop_last() =~= line);
    assert(long.skip(n + 2) =~= rest);
    let short = line + seq!['\n'] + rest;
    lemma_first_index_after(line, '\n', rest);
    assert(short.take(n) =~= line);
    assert(short.skip(n + 1) =~= rest);
}

/// A text without a line feed is one line; an empty text has none.
pub proof fn last_line_may_lack_its_ending(line: Seq<char>)
    requires
        !line.contains('\n'),
    ensures
        line.len() > 0 ==> lines_of(line) == seq![line],
        line.len() == 0 ==> lines_of(line).len() == 0,
{
    lemma_first_index_after(line, '\n', Seq::empty());
}

/// Lines that are joined with line feeds are the lines of the text, however many they are.
pub proof fn joined_lines_are_read_again(lines: Seq<Seq<char>>)
    requires
        lines.len() > 0,
        lines.last().len() > 0,
        forall|i: int|
            0 <= i < lines.len() ==> !(#[trigger] lines[i]).contains('\n') && !lines[i].contains(
                '\r',
            ),
    ensures
        lines_of(joined(lines, seq!['\n'])) == lines,
    decreases lines.len(),
{
    let head = lines[0];
    if lines.len() == 1 {
        last_line_may_lack_its_ending(head);
        assert(lines =~= seq![head]);
    } else {
        let rest = lines.drop_first();
        lemma_joined_front(lines, seq!['\n']);
        assert forall|i: int| 0 <= i < rest.len() implies !(#[trigger] rest[i]).contains('\n')
            && !rest[i].contains('\r') by {
            assert(rest[i] == lines[i + 1]);
        }
        joined_lines_are_read_again(rest);
        if head.len() > 0 {
            assert(head[head.len() - 1] != '\r');
        }
        lines_end_with_line_feeds(head, joined(rest, seq!['\n']));
        assert(seq![head] + rest =~= lines);
    }
}

/// Capitals and small letters differ by 32 code points; no other character has a case here.
pub proof fn letter_case_is_that_of_ascii(c: char)
    ensures
        'a' <= c <= 'z' ==> ascii_upper(c) as u32 == c as u32 - 32 && ascii_lower(c) == c,
        'A' <= c <= 'Z' ==> ascii_lower(c) as u32 == c as u32 + 32 && ascii_upper(c) == c,
        !('a' <= c <= 'z') && !('A' <= c <= 'Z') ==> ascii_upper(c) == c && ascii_lower(c) == c,
        is_ascii_letter(c) <==> ascii_upper(c) != ascii_lower(c),
        ascii_lower(ascii_upper(c)) == ascii_lower(c),
{
}

/// Two texts are the same but for their case just where their small letters are the same.
pub proof fn case_is_set_aside(a: Seq<char>, b: Seq<char>)
    ensures
        same_but_for_case(a, b) <==> a.map_values(|c: char| ascii_lower(c)) == b.map_values(
            |c: char| ascii_lower(c),
        ),
{
    let x = a.map_values(|c: char| ascii_lower(c));
    let y = b.map_values(|c: char| ascii_lower(c));
    if same_but_for_case(a, b) {
        assert(x =~= y);
    }
    if x == y {
        assert(a.len() == x.len() && b.len() == y.len());
        assert forall|i: int| 0 <= i < a.len() implies ascii_lower(#[trigger] a[i]) == ascii_lower(
            b[i],
        ) by {
            assert(x[i] == y[i]);
        }
    }
}

/// The first occurrence is where `part` stands first, and there is none just where it stands
/// nowhere.
pub proof fn first_occurrence_is_the_first(s: Seq<char>, part: Seq<char>, i: int)
    requires
        0 <= i,
        i + part.len() <= s.len(),
        s.subrange(i, i + part.len()) == part,
    ensures
        first_occurrence(s, part) matches Some(k) && 0 <= k <= i && s.subrange(k, k + part.len())
            == part,
        contains_text(s, part),
{
    assert(occurs_at(s, part, i));
    lemma_first_occurrence(s, part);
}

/// `String::push` appends the given character to the end of the string.
pub assume_specification[ String::push ](s: &mut String, c: char)
    ensures
        final(s)@ == old(s)@.push(c),
;

/// Turns the letters `a` to `z` of a text into `A` to `Z`.
pub fn in_capitals(s: &str) -> (upper: String)
    ensures
        upper@ == s@.map_values(|c: char| ascii_upper(c)),
{
    let chars = chars_of(s);
    let mut upper = String::new();
    let mut i: usize = 0;
    while i < chars.len()
        invariant
            i <= chars.len(),
            chars@ == s@,
            upper@ == s@.take(i as int).map_values(|c: char| ascii_upper(c)),
        decreases chars.len() - i,
    {
        upper.push(capital(chars[i]));
        assert(s@.take(i + 1) == s@.take(i as int).push(s@[i as int]));
        i += 1;
    }
    assert(s@.take(i as int) == s@);
    upper
}

/// A letter `a` to `z` as `A` to `Z`, any other character as it is.
fn capital(c: char) -> (upper: char)
    ensures
        upper == ascii_upper(c),
{
    let v: u32 = c as u32;
    if 0x61 <= v && v <= 0x7a {
        (v - 0x20) as u8 as char
    } else {
        c
    }
}

/// The characters of a text, in order.
pub fn chars_of(s: &str) -> (chars: Vec<char>)
    ensures
        chars@ == s@,
{
    let mut chars: Vec<char> = Vec::new();
    for c in it: s.chars()
        invariant
            chars@ == s@.take(it.index() as int),
            it.seq() == s@,
    {
        chars.push(c);
    }
    chars
}

/// The text that consists of the given characters.
pub fn string_of(chars: &[char]) -> (s: String)
    ensures
        s@ == chars@,
{
    let mut s = String::new();
    let mut i: usize = 0;
    while i < chars.len()
        invariant
            i <= chars.len(),
            s@ == chars@.take(i as int),
        decreases chars.len() - i,
    {
        s.push(chars[i]);
        i += 1;
    }
    s
}

/// Whether a character is white space.
pub fn white_space(c: char) -> (b: bool)
    ensures
        b == is_white_space(c),
{
    let v: u32 = c as u32;
    (0x9 <= v && v <= 0xd) || v == 0x20 || v == 0x85 || v == 0xa0 || v == 0x1680 || (0x2000 <= v
        && v <= 0x200a) || v == 0x2028 || v == 0x2029 || v == 0x202f || v == 0x205f || v == 0x3000
}

/// Cuts the white space off both ends.
pub fn trim(s: &[char]) -> (inner: &[char])
    ensures
        inner@ == trimmed(s@),
{
    let mut start: usize = 0;
    assert(s@.skip(0) == s@);
    while start < s.len() && white_space(s[start])
        invariant
            start <= s.len(),
            trimmed_start(s@) == trimmed_start(s@.skip(start as int)),
        decreases s.len() - start,
    {
        assert(s@.skip(start as int).drop_first() == s@.skip(start + 1));
        start += 1;
    }
    let ghost rest = s@.skip(start as int);
    assert(trimmed_start(s@) == rest);
    let mut end: usize = s.len();
    assert(s@.subrange(start as int, end as int) == rest);
    while start < end && white_space(s[end - 1])
        invariant
            start <= end <= s.len(),
            trimmed_end(rest) == trimmed_end(s@.subrange(start as int, end as int)),
        decreases end,
    {
        assert(s@.subrange(start as int, end as int).drop_last() == s@.subrange(
            start as int,
            end - 1,
        ));
        end -= 1;
    }
    slice_subrange(s, start, end)
}

/// Position of the first `c`; the length where there is none.
pub fn position(s: &[char], c: char) -> (i: usize)
    ensures
        i == first_index(s@, c),
        i <= s@.len(),
{
    let mut i: usize = 0;
    assert(s@.skip(0) == s@);
    while i < s.len() && s[i] != c
        invariant
            i <= s.len(),
            first_index(s@, c) == i + first_index(s@.skip(i as int), c),
        decreases s.len() - i,
    {
        assert(s@.skip(i as int).drop_first() == s@.skip(i + 1));
        i += 1;
    }
    i
}

/// Whether a text starts with `prefix`.
pub fn starts_with(s: &[char], prefix: &[char]) -> (b: bool)
    ensures
        b == prefix@.is_prefix_of(s@),
{
    if prefix.len() > s.len() {
        return false;
    }
    let mut i: usize = 0;
    while i < prefix.len()
        invariant
            i <= prefix.len() <= s.len(),
            prefix@.take(i as int) == s@.take(i as int),
        decreases prefix.len() - i,
    {
        if s[i] != prefix[i] {
            assert(s@.subrange(0, prefix@.len() as int)[i as int] != prefix@[i as int]);
            return false;
        }
        i += 1;
    }
    assert(prefix@.take(i as int) == prefix@);
    true
}

/// Position of the first occurrence of `part`.
pub fn find(s: &[char], part: &[char]) -> (found: Option<usize>)
    ensures
        match found {
            Some(i) => first_occurrence(s@, part@) == Some(i as int),
            None => first_occurrence(s@, part@) is None,
        },
{
    let mut i: usize = 0;
    assert(s@.skip(0) == s@);
    while i < s.len()
        invariant
            i <= s.len(),
            first_occurrence(s@, part@) == (match first_occurrence(s@.skip(i as int), part@) {
                Some(j) => Some(j + i),
                None => None,
            }),
        decreases s.len() - i,
    {
        if starts_with(slice_subrange(s, i, s.len()), part) {
            return Some(i);
        }
        assert(s@.skip(i as int).drop_first() == s@.skip(i + 1));
        i += 1;
    }
    if part.len() == 0 {
        Some(s.len())
    } else {
        None
    }
}

/// Cuts a text at every `separator`.
pub fn split<'a>(s: &'a [char], separator: char) -> (parts: Vec<&'a [char]>)
    ensures
        views(parts@) == pieces(s@, separator),
{
    let mut parts: Vec<&'a [char]> = Vec::new();
    let mut rest: &'a [char] = s;
    let mut i: usize = position(rest, separator);
    while i < rest.len()
        invariant
            i == first_index(rest@, separator),
            i <= rest@.len(),
            views(parts@) + pieces(rest@, separator) == pieces(s@, separator),
        decreases rest@.len(),
    {
        let ghost before = parts@;
        let ghost piece = rest@.take(i as int);
        parts.push(slice_subrange(rest, 0, i));
        assert(views(parts@) == views(before).push(piece));
        let ghost whole = rest@;
        rest = slice_subrange(rest, i + 1, rest.len());
        assert(rest@ == whole.skip(i + 1));
        assert(views(parts@) + pieces(rest@, separator) == views(before) + pieces(
            whole,
            separator,
        ));
        i = position(rest, separator);
    }
    let ghost before = parts@;
    parts.push(rest);
    assert(views(parts@) == views(before) + seq![rest@]);
    parts
}

/// Cuts a text into its lines.
pub fn lines<'a>(s: &'a [char]) -> (parts: Vec<&'a [char]>)
    ensures
        views(parts@) == lines_of(s@),
{
    let mut parts: Vec<&'a [char]> = Vec::new();
    let mut rest: &'a [char] = s;
    while rest.len() > 0
        invariant
            views(parts@) + lines_of(rest@) == lines_of(s@),
        decreases rest@.len(),
    {
        let ghost before = parts@;
        let ghost whole = rest@;
        let i: usize = position(rest, '\n');
        if i < rest.len() {
            let end: usize = if i > 0 && rest[i - 1] == '\r' {
                i - 1
            } else {
                i
            };
            let line = slice_subrange(rest, 0, end);
            assert(line@ == without_carriage_return(whole.take(i as int)));
            parts.push(line);
            rest = slice_subrange(rest, i + 1, rest.len());
            assert(rest@ == whole.skip(i + 1));
            assert(views(parts@) == views(before).push(line@));
            assert(views(parts@) + lines_of(rest@) == views(before) + lines_of(whole));
        } else {
            parts.push(rest);
            rest = slice_subrange(rest, i, i);
            assert(views(parts@) == views(before).push(whole));
            assert(rest@ == Seq::<char>::empty());
            assert(views(parts@) + lines_of(rest@) == views(before) + lines_of(whole));
        }
    }
    parts
}

/// Whether two texts are equal but for the case of the letters `A` to `Z`.
pub fn eq_ignore_ascii_case(a: &[char], b: &[char]) -> (same: bool)
    ensures
        same == same_but_for_case(a@, b@),
{
    if a.len() != b.len() {
        return false;
    }
    let mut i: usize = 0;
    while i < a.len()
        invariant
            a@.len() == b@.len(),
            i <= a.len(),
            forall|j: int| 0 <= j < i ==> ascii_lower(#[trigger] a@[j]) == ascii_lower(b@[j]),
        decreases a.len() - i,
    {
        let x: u32 = lower(a[i]);
        let y: u32 = lower(b[i]);
        if x != y {
            assert(ascii_lower(a@[i as int]) != ascii_lower(b@[i as int]));
            return false;
        }
        i += 1;
    }
    true
}

/// The code point of a character after its letter case is set aside.
fn lower(c: char) -> (v: u32)
    ensures
        v == ascii_lower(c) as u32,
{
    let v: u32 = c as u32;
    if 0x41 <= v && v <= 0x5a {
        v + 0x20
    } else {
        v
    }
}

/// Joins texts, with `separator` between neighbours.
pub fn join(parts: &Vec<String>, separator: &str) -> (s: String)
    ensures
        s@ == joined(texts(parts@), separator@),
{
    let mut s = String::new();
    let mut i: usize = 0;
    assert(texts(parts@).take(0) == Seq::<Seq<char>>::empty());
    while i < parts.len()
        invariant
            i <= parts.len(),
            s@ == joined(texts(parts@).take(i as int), separator@),
        decreases parts.len() - i,
    {
        let ghost done = texts(parts@).take(i as int);
        let ghost next = texts(parts@).take(i + 1);
        assert(next.drop_last() == done);
        if i > 0 {
            s.append(separator);
        }
        s.append(parts[i].as_str());
        assert(s@ == joined(next, separator@));
        i += 1;
    }
    assert(texts(parts@).take(i as int) == texts(parts@));
    s
}

/// `a` followed by `b`.
pub fn concat(a: &str, b: &str) -> (s: String)
    ensures
        s@ == a@ + b@,
{
    let mut s = String::new();
    s.append(a);
    s.append(b);
    assert(s@ == a@ + b@);
    s
}

/// What contracts say of strings they say of the whole of their texts, in order.
pub proof fn strings_stand_for_their_texts(
    s: String,
    t: &str,
    strings: Seq<String>,
    strs: Seq<&str>,
    slices: Seq<&[char]>,
    i: int,
)
    ensures
        text_of(Some(s)) == Some(s@),
        text_of(None) is None,
        str_of(Some(t)) == Some(t@),
        str_of(None) is None,
        texts(strings).len() == strings.len(),
        str_texts(strs).len() == strs.len(),
        views(slices).len() == slices.len(),
        0 <= i < strings.len() ==> texts(strings)[i] == strings[i]@,
        0 <= i < strs.len() ==> str_texts(strs)[i] == strs[i]@,
        0 <= i < slices.len() ==> views(slices)[i] == slices[i]@,
{
}

} // verus!
