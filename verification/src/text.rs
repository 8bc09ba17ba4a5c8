//! Text scanning: splitting on a separator, trimming, and case folding.

use vstd::prelude::*;

verus! {

/// The pieces of `s` between occurrences of `sep`, in order. There is always at
/// least one piece, and two adjacent separators have an empty piece between them.
pub open spec fn split_text(s: Seq<char>, sep: char) -> Seq<Seq<char>>
    decreases s.len(),
{
    if s.len() == 0 {
        seq![Seq::empty()]
    } else {
        let before = split_text(s.drop_last(), sep);
        if s.last() == sep {
            before.push(Seq::empty())
        } else {
            before.drop_last().push(before.last().push(s.last()))
        }
    }
}

/// The characters with the Unicode property `White_Space`.
pub open spec fn is_whitespace(c: char) -> bool {
    ||| '\u{9}' <= c <= '\u{d}'
    ||| c == ' '
    ||| c == '\u{85}'
    ||| c == '\u{a0}'
    ||| c == '\u{1680}'
    ||| '\u{2000}' <= c <= '\u{200a}'
    ||| c == '\u{2028}'
    ||| c == '\u{2029}'
    ||| c == '\u{202f}'
    ||| c == '\u{205f}'
    ||| c == '\u{3000}'
}

/// `s` without its leading whitespace.
pub open spec fn trim_start_text(s: Seq<char>) -> Seq<char>
    decreases s.len(),
{
    if s.len() > 0 && is_whitespace(s.first()) {
        trim_start_text(s.drop_first())
    } else {
        s
    }
}

/// `s` without its trailing whitespace.
pub open spec fn trim_end_text(s: Seq<char>) -> Seq<char>
    decreases s.len(),
{
    if s.len() > 0 && is_whitespace(s.last()) {
        trim_end_text(s.drop_last())
    } else {
        s
    }
}

/// `s` without its leading and trailing whitespace.
pub open spec fn trim_text(s: Seq<char>) -> Seq<char> {
    trim_end_text(trim_start_text(s))
}

/// `c` with the ASCII upper-case letters mapped to lower case.
pub open spec fn lower_char(c: char) -> char {
    if 'A' <= c <= 'Z' {
        (c as u8 + 32) as char
    } else {
        c
    }
}

/// `s` with its ASCII upper-case letters mapped to lower case.
pub open spec fn lower_text(s: Seq<char>) -> Seq<char> {
    s.map_values(|c: char| lower_char(c))
}

/// What each string of a list holds.
pub open spec fn texts_of(pieces: Seq<&str>) -> Seq<Seq<char>> {
    pieces.map_values(|p: &str| p@)
}

/// The characters of `s`.
pub fn chars_of(s: &str) -> (chars: Vec<char>)
    ensures
        chars@ == s@,
{
    let mut chars: Vec<char> = Vec::new();
    for c in it: s.chars()
        invariant
            it.seq() == s@,
            chars@ == s@.take(it.index()),
    {
        chars.push(c);
    }
    assert(s@.take(s@.len() as int) == s@);
    chars
}

/// Splits `s` at every `sep`.
pub fn split<'a>(s: &'a str, sep: char) -> (pieces: Vec<&'a str>)
    ensures
        texts_of(pieces@) == split_text(s@, sep),
{
    let chars = chars_of(s);
    let mut pieces: Vec<&'a str> = Vec::new();
    let mut start: usize = 0;
    let mut i: usize = 0;
    assert(s@.take(0) == Seq::<char>::empty());
    assert(split_text(s@.take(0), sep) == seq![Seq::<char>::empty()]);
    while i < chars.len()
        invariant
            chars@ == s@,
            start <= i <= chars.len(),
            split_text(s@.take(i as int), sep) == texts_of(pieces@).push(
                s@.subrange(start as int, i as int),
            ),
        decreases chars.len() - i,
    {
        let ghost done = texts_of(pieces@);
        let ghost current = s@.subrange(start as int, i as int);
        assert(s@.take(i + 1).drop_last() == s@.take(i as int));
        assert(done.push(current).drop_last() == done);
        if chars[i] == sep {
            pieces.push(s.substring_char(start, i));
            assert(texts_of(pieces@) == done.push(current));
            start = i + 1;
        }
        proof {
            let next = s@.subrange(start as int, i + 1);
            assert(s@.take(i + 1).last() == s@[i as int]);
            if s@[i as int] == sep {
                assert(next == Seq::<char>::empty());
            } else {
                assert(next == current.push(s@[i as int]));
            }
        }
        i = i + 1;
    }
    assert(s@.take(s@.len() as int) == s@);
    let ghost done = texts_of(pieces@);
    pieces.push(s.substring_char(start, chars.len()));
    assert(texts_of(pieces@) == done.push(s@.subrange(start as int, s@.len() as int)));
    pieces
}

/// Whether `c` is whitespace.
pub fn is_space(c: char) -> (res: bool)
    ensures
        res == is_whitespace(c),
{
    ('\u{9}' <= c && c <= '\u{d}') || c == ' ' || c == '\u{85}' || c == '\u{a0}' || c == '\u{1680}'
        || ('\u{2000}' <= c && c <= '\u{200a}') || c == '\u{2028}' || c == '\u{2029}' || c
        == '\u{202f}' || c == '\u{205f}' || c == '\u{3000}'
}

/// `s` without the whitespace around it.
pub fn trim<'a>(s: &'a str) -> (res: &'a str)
    ensures
        res@ == trim_text(s@),
{
    let chars = chars_of(s);
    let mut start: usize = 0;
    assert(s@.skip(0) == s@);
    while start < chars.len() && is_space(chars[start])
        invariant
            chars@ == s@,
            start <= chars.len(),
            trim_start_text(s@) == trim_start_text(s@.skip(start as int)),
        decreases chars.len() - start,
    {
        assert(s@.skip(start as int).drop_first() == s@.skip(start + 1));
        start = start + 1;
    }
    let mut end: usize = chars.len();
    assert(s@.subrange(start as int, end as int) == s@.skip(start as int));
    while end > start && is_space(chars[end - 1])
        invariant
            chars@ == s@,
            start <= end <= chars.len(),
            trim_text(s@) == trim_end_text(s@.subrange(start as int, end as int)),
        decreases end,
    {
        assert(s@.subrange(start as int, end as int).drop_last() == s@.subrange(
            start as int,
            end - 1,
        ));
        end = end - 1;
    }
    s.substring_char(start, end)
}

/// Whether two strings hold the same text.
pub fn same_text(a: &str, b: &str) -> (res: bool)
    ensures
        res == (a@ == b@),
{
    let left = chars_of(a);
    let right = chars_of(b);
    if left.len() != right.len() {
        return false;
    }
    let mut i: usize = 0;
    while i < left.len()
        invariant
            left@ == a@,
            right@ == b@,
            left.len() == right.len(),
            i <= left.len(),
            forall|j: int| 0 <= j < i ==> a@[j] == b@[j],
        decreases left.len() - i,
    {
        if left[i] != right[i] {
            return false;
        }
        i = i + 1;
    }
    assert(a@ == b@);
    true
}

/// `c` in lower case, if it is an ASCII letter.
pub fn lower(c: char) -> (res: char)
    ensures
        res == lower_char(c),
{
    if 'A' <= c && c <= 'Z' {
        (c as u8 + 32) as char
    } else {
        c
    }
}

/// Whether `text` is `name` up to the case of its ASCII letters, where `name` is
/// in lower case.
pub fn is_name(text: &str, name: &str) -> (res: bool)
    ensures
        res == (lower_text(text@) == name@),
{
    let left = chars_of(text);
    let right = chars_of(name);
    if left.len() != right.len() {
        return false;
    }
    let mut i: usize = 0;
    while i < left.len()
        invariant
            left@ == text@,
            right@ == name@,
            left.len() == right.len(),
            i <= left.len(),
            forall|j: int| 0 <= j < i ==> lower_text(text@)[j] == name@[j],
        decreases left.len() - i,
    {
        if lower(left[i]) != right[i] {
            assert(lower_text(text@)[i as int] != name@[i as int]);
            return false;
        }
        i = i + 1;
    }
    assert(lower_text(text@) == name@);
    true
}

/// The pieces put together again, with `sep` between any two.
pub open spec fn joined(pieces: Seq<Seq<char>>, sep: char) -> Seq<char>
    decreases pieces.len(),
{
    if pieces.len() == 0 {
        Seq::empty()
    } else if pieces.len() == 1 {
        pieces[0]
    } else {
        joined(pieces.drop_last(), sep).push(sep) + pieces.last()
    }
}

/// Splitting loses nothing: the pieces, put together again, are the text, and
/// none of them has the separator in it.
pub proof fn law_split_joins(s: Seq<char>, sep: char)
    ensures
        joined(split_text(s, sep), sep) == s,
        forall|i: int| 0 <= i < split_text(s, sep).len() ==> !(#[trigger] split_text(
            s,
            sep,
        )[i]).contains(sep),
    decreases s.len(),
{
    if s.len() > 0 {
        let init = s.drop_last();
        let before = split_text(init, sep);
        let after = split_text(s, sep);
        law_split_joins(init, sep);
        assert(init.push(s.last()) == s);
        if s.last() == sep {
            assert(after.drop_last() == before);
        } else {
            assert(after.drop_last() == before.drop_last());
            let old_last = before.last();
            let new_last = after.last();
            assert(new_last == old_last.push(s.last()));
            assert(!old_last.contains(sep)) by {
                assert(old_last == before[before.len() - 1]);
            }
            assert(!new_last.contains(sep)) by {
                if new_last.contains(sep) {
                    let k = choose|k: int| 0 <= k < new_last.len() && new_last[k] == sep;
                    assert(old_last[k] == sep);
                }
            }
            assert forall|i: int| 0 <= i < after.len() implies !(#[trigger] after[i]).contains(
                sep,
            ) by {
                if i < after.len() - 1 {
                    assert(after[i] == before[i]);
                }
            }
            if before.len() > 1 {
                assert(joined(after, sep) == joined(before, sep).push(s.last()));
            }
        }
    }
}

/// A text without the separator is its only piece.
pub proof fn law_split_whole(s: Seq<char>, sep: char)
    requires
        !s.contains(sep),
    ensures
        split_text(s, sep) == seq![s],
    decreases s.len(),
{
    if s.len() > 0 {
        let init = s.drop_last();
        assert(!init.contains(sep)) by {
            if init.contains(sep) {
                let k = choose|k: int| 0 <= k < init.len() && init[k] == sep;
                assert(s[k] == sep);
            }
        }
        law_split_whole(init, sep);
        assert(s.last() != sep) by {
            assert(s[s.len() - 1] == s.last());
        }
        assert(init.push(s.last()) == s);
        assert(split_text(s, sep) == seq![s]);
    } else {
        assert(s == Seq::<char>::empty());
    }
}

/// What stands before the first separator is the first piece, and the rest of the
/// text has the rest of the pieces.
pub proof fn law_split_first(head: Seq<char>, tail: Seq<char>, sep: char)
    requires
        !head.contains(sep),
    ensures
        split_text(head.push(sep) + tail, sep) == seq![head] + split_text(tail, sep),
    decreases tail.len(),
{
    let s = head.push(sep) + tail;
    if tail.len() == 0 {
        assert(s.drop_last() == head);
        law_split_whole(head, sep);
        assert(split_text(s, sep) == seq![head].push(Seq::<char>::empty()));
    } else {
        let init = tail.drop_last();
        law_split_first(head, init, sep);
        assert(s.drop_last() == head.push(sep) + init);
        let before = split_text(init, sep);
        let all = seq![head] + before;
        assert(all.last() == before.last());
        assert(all.drop_last() == seq![head] + before.drop_last());
        assert(split_text(s, sep) == seq![head] + split_text(tail, sep));
    }
}

/// What stands behind the last separator is the last piece, and the text before it
/// has the other pieces.
pub proof fn law_split_last(head: Seq<char>, tail: Seq<char>, sep: char)
    requires
        !tail.contains(sep),
    ensures
        split_text(head.push(sep) + tail, sep) == split_text(head, sep).push(tail),
    decreases tail.len(),
{
    let s = head.push(sep) + tail;
    let pieces = split_text(head, sep);
    if tail.len() == 0 {
        assert(s.drop_last() == head);
        assert(tail == Seq::<char>::empty());
    } else {
        let init = tail.drop_last();
        assert(!init.contains(sep)) by {
            if init.contains(sep) {
                let k = choose|k: int| 0 <= k < init.len() && init[k] == sep;
                assert(tail[k] == sep);
            }
        }
        assert(tail[tail.len() - 1] != sep);
        law_split_last(head, init, sep);
        assert(s.drop_last() == head.push(sep) + init);
        assert(pieces.push(init).drop_last() == pieces);
        assert(init.push(tail.last()) == tail);
    }
}

/// A text with a separator in it has the pieces of what stands before that, and then
/// those of what stands behind it.
pub proof fn law_split_concat(head: Seq<char>, tail: Seq<char>, sep: char)
    ensures
        split_text(head.push(sep) + tail, sep) == split_text(head, sep) + split_text(tail, sep),
    decreases tail.len(),
{
    let s = head.push(sep) + tail;
    let first = split_text(head, sep);
    if tail.len() == 0 {
        assert(s.drop_last() == head);
        assert(first.push(Seq::<char>::empty()) == first + seq![Seq::<char>::empty()]);
    } else {
        let init = tail.drop_last();
        let before = split_text(init, sep);
        law_split_concat(head, init, sep);
        assert(s.drop_last() == head.push(sep) + init);
        assert((first + before).last() == before.last());
        assert((first + before).drop_last() == first + before.drop_last());
        assert(split_text(s, sep) == first + split_text(tail, sep));
    }
}

/// Splitting adds no character.
pub proof fn law_split_subset(s: Seq<char>, sep: char, c: char)
    requires
        !s.contains(c),
    ensures
        forall|i: int|
            0 <= i < split_text(s, sep).len() ==> !(#[trigger] split_text(s, sep)[i]).contains(c),
    decreases s.len(),
{
    if s.len() > 0 {
        let init = s.drop_last();
        let before = split_text(init, sep);
        let after = split_text(s, sep);
        assert(!init.contains(c)) by {
            if init.contains(c) {
                let k = choose|k: int| 0 <= k < init.len() && init[k] == c;
                assert(s[k] == c);
            }
        }
        assert(s[s.len() - 1] != c);
        law_split_subset(init, sep, c);
        assert forall|i: int| 0 <= i < after.len() implies !(#[trigger] after[i]).contains(c) by {
            if i < before.len() - 1 || s.last() == sep && i < before.len() {
                assert(after[i] == before[i]);
            } else if s.last() != sep {
                let old_last = before[before.len() - 1];
                assert(after[i] == old_last.push(s.last()));
                if after[i].contains(c) {
                    let k = choose|k: int| 0 <= k < after[i].len() && after[i][k] == c;
                    assert(old_last[k] == c);
                }
            }
        }
    }
}

/// A text with no whitespace at its ends stays as it is when trimmed.
pub proof fn law_trim_whole(s: Seq<char>)
    requires
        s.len() > 0 ==> !is_whitespace(s.first()) && !is_whitespace(s.last()),
    ensures
        trim_text(s) == s,
{
}

/// What is left after trimming has no whitespace at its ends.
pub proof fn law_trim_ends(s: Seq<char>)
    ensures
        trim_text(s).len() > 0 ==> !is_whitespace(trim_text(s).first()) && !is_whitespace(
            trim_text(s).last(),
        ),
{
    lemma_trim_start(s);
    lemma_trim_end(trim_start_text(s));
}

proof fn lemma_trim_start(s: Seq<char>)
    ensures
        trim_start_text(s).len() > 0 ==> !is_whitespace(trim_start_text(s).first()),
    decreases s.len(),
{
    if s.len() > 0 && is_whitespace(s.first()) {
        lemma_trim_start(s.drop_first());
    }
}

proof fn lemma_trim_end(s: Seq<char>)
    ensures
        trim_end_text(s).len() > 0 ==> !is_whitespace(trim_end_text(s).last())
            && trim_end_text(s).first() == s.first(),
    decreases s.len(),
{
    if s.len() > 0 && is_whitespace(s.last()) {
        lemma_trim_end(s.drop_last());
    }
}

/// Trimming takes off the whitespace before and behind a text, and no more.
pub proof fn law_trim_around(before: Seq<char>, core: Seq<char>, behind: Seq<char>)
    requires
        forall|i: int| 0 <= i < before.len() ==> is_whitespace(#[trigger] before[i]),
        forall|i: int| 0 <= i < behind.len() ==> is_whitespace(#[trigger] behind[i]),
        core.len() > 0 ==> !is_whitespace(core[0]) && !is_whitespace(core[core.len() - 1]),
    ensures
        trim_text(before + core + behind) == core,
    decreases before.len() + behind.len(),
{
    let s = before + core + behind;
    if before.len() > 0 {
        let fewer = before.drop_first();
        assert(s.first() == before[0]);
        assert(s.drop_first() == fewer + core + behind);
        assert forall|i: int| 0 <= i < fewer.len() implies is_whitespace(#[trigger] fewer[i]) by {
            assert(fewer[i] == before[i + 1]);
        }
        law_trim_around(fewer, core, behind);
    } else {
        assert(s == core + behind);
        if core.len() > 0 {
            assert(s.first() == core[0]);
            lemma_trim_behind(core, behind);
        } else if behind.len() > 0 {
            let fewer = behind.drop_first();
            assert(s.first() == behind[0]);
            assert(s.drop_first() == before + core + fewer);
            assert forall|i: int| 0 <= i < fewer.len() implies is_whitespace(
                #[trigger] fewer[i],
            ) by {
                assert(fewer[i] == behind[i + 1]);
            }
            law_trim_around(before, core, fewer);
        } else {
            assert(s == core);
        }
    }
}

/// Whitespace behind a text that ends otherwise is trimmed, and no more.
proof fn lemma_trim_behind(core: Seq<char>, behind: Seq<char>)
    requires
        core.len() > 0,
        !is_whitespace(core.last()),
        forall|i: int| 0 <= i < behind.len() ==> is_whitespace(#[trigger] behind[i]),
    ensures
        trim_end_text(core + behind) == core,
    decreases behind.len(),
{
    let s = core + behind;
    if behind.len() > 0 {
        let fewer = behind.drop_last();
        assert(s.last() == behind[behind.len() - 1]);
        assert(s.drop_last() == core + fewer);
        lemma_trim_behind(core, fewer);
    } else {
        assert(s == core);
    }
}

/// Whitespace is the 25 code points that Unicode has for it.
pub proof fn law_whitespace(c: char)
    ensures
        is_whitespace(c) <==> {
            let code = c as u32;
            ||| code == 0x9 || code == 0xa || code == 0xb || code == 0xc || code == 0xd
            ||| code == 0x20 || code == 0x85 || code == 0xa0 || code == 0x1680
            ||| 0x2000 <= code && code <= 0x200a
            ||| code == 0x2028 || code == 0x2029 || code == 0x202f || code == 0x205f
            ||| code == 0x3000
        },
{
}

/// Lower case changes the 26 ASCII capitals, each to the letter 32 places on, and
/// leaves every other character as it is.
pub proof fn law_lower(s: Seq<char>, i: int)
    ensures
        lower_text(s).len() == s.len(),
        0 <= i < s.len() ==> {
            let code = s[i] as u32;
            &&& 0x41 <= code <= 0x5a ==> lower_text(s)[i] as u32 == code + 32
            &&& !(0x41 <= code <= 0x5a) ==> lower_text(s)[i] == s[i]
            &&& lower_char(s[i]) == lower_text(s)[i]
        },
{
}

/// A list of strings holds as many texts, each that of its string.
pub proof fn law_texts_of(pieces: Seq<&str>, i: int)
    ensures
        texts_of(pieces).len() == pieces.len(),
        0 <= i < pieces.len() ==> texts_of(pieces)[i] == pieces[i]@,
{
}

/// Lower case changes no separator that is not a letter.
pub proof fn law_split_lower(s: Seq<char>, sep: char)
    requires
        !('A' <= sep <= 'Z'),
        !('a' <= sep <= 'z'),
    ensures
        split_text(lower_text(s), sep) == split_text(s, sep).map_values(
            |p: Seq<char>| lower_text(p),
        ),
    decreases s.len(),
{
    let fold = |p: Seq<char>| lower_text(p);
    if s.len() == 0 {
        assert(lower_text(s) == s);
        assert(split_text(s, sep) == seq![Seq::<char>::empty()]);
        assert(lower_text(Seq::<char>::empty()) == Seq::<char>::empty());
        assert(split_text(s, sep).map_values(fold) == split_text(s, sep));
    } else {
        let init = s.drop_last();
        law_split_lower(init, sep);
        assert(lower_text(s).drop_last() == lower_text(init));
        assert(lower_text(s).last() == lower_char(s.last()));
        assert((lower_char(s.last()) == sep) == (s.last() == sep));
        let before = split_text(init, sep);
        if s.last() == sep {
            assert(lower_text(Seq::<char>::empty()) == Seq::<char>::empty());
            assert(before.push(Seq::<char>::empty()).map_values(fold)
                == before.map_values(fold).push(Seq::<char>::empty()));
        } else {
            let last = before.last();
            assert(lower_text(last.push(s.last())) == lower_text(last).push(lower_char(s.last())));
            assert(before.map_values(fold).drop_last() == before.drop_last().map_values(fold));
            assert(before.drop_last().push(last.push(s.last())).map_values(fold)
                == before.drop_last().map_values(fold).push(lower_text(last.push(s.last()))));
        }
    }
}

/// Trimming and lower case do not depend on each other.
pub proof fn law_trim_lower(s: Seq<char>)
    ensures
        trim_text(lower_text(s)) == lower_text(trim_text(s)),
{
    lemma_trim_start_lower(s);
    lemma_trim_end_lower(trim_start_text(s));
}

proof fn lemma_trim_start_lower(s: Seq<char>)
    ensures
        trim_start_text(lower_text(s)) == lower_text(trim_start_text(s)),
    decreases s.len(),
{
    if s.len() > 0 {
        assert(is_whitespace(lower_char(s.first())) == is_whitespace(s.first()));
        assert(lower_text(s).first() == lower_char(s.first()));
        if is_whitespace(s.first()) {
            lemma_trim_start_lower(s.drop_first());
            assert(lower_text(s).drop_first() == lower_text(s.drop_first()));
        }
    }
}

proof fn lemma_trim_end_lower(s: Seq<char>)
    ensures
        trim_end_text(lower_text(s)) == lower_text(trim_end_text(s)),
    decreases s.len(),
{
    if s.len() > 0 {
        assert(is_whitespace(lower_char(s.last())) == is_whitespace(s.last()));
        assert(lower_text(s).last() == lower_char(s.last()));
        if is_whitespace(s.last()) {
            lemma_trim_end_lower(s.drop_last());
            assert(lower_text(s).drop_last() == lower_text(s.drop_last()));
        }
    }
}

} // verus!
