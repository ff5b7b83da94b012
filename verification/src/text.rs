//! Operations on text, stated over sequences of characters.

use vstd::prelude::*;
use vstd::utf8::{
    decode_utf8, encode_utf8, encode_utf8_decode_utf8, encode_utf8_valid_utf8, valid_utf8,
};

verus! {

/// The characters with the Unicode property `White_Space`.
pub open spec fn is_white_space(c: char) -> bool {
    ||| '\u{9}' <= c <= '\u{d}'
    ||| c == '\u{20}'
    ||| c == '\u{85}'
    ||| c == '\u{a0}'
    ||| c == '\u{1680}'
    ||| '\u{2000}' <= c <= '\u{200a}'
    ||| c == '\u{2028}'
    ||| c == '\u{2029}'
    ||| c == '\u{202f}'
    ||| c == '\u{205f}'
    ||| c == '\u{3000}'
}

/// `char::is_whitespace` tells whether a character has the Unicode property `White_Space`; the
/// claim is that the property holds of exactly the characters listed in [`is_white_space`].
pub assume_specification[ char::is_whitespace ](c: char) -> (res: bool)
    ensures
        res == is_white_space(c),
;

/// `s` without the white space at either end.
pub open spec fn trimmed(s: Seq<char>) -> Seq<char>
    decreases s.len(),
{
    if s.len() == 0 {
        s
    } else if is_white_space(s.first()) {
        trimmed(s.drop_first())
    } else if is_white_space(s.last()) {
        trimmed(s.drop_last())
    } else {
        s
    }
}

/// `s` without the run of `c` that it starts with.
pub open spec fn without_leading(s: Seq<char>, c: char) -> Seq<char>
    decreases s.len(),
{
    if s.len() > 0 && s.first() == c {
        without_leading(s.drop_first(), c)
    } else {
        s
    }
}

/// What follows `prefix` in `s`, where `s` starts with it.
pub open spec fn stripped(s: Seq<char>, prefix: Seq<char>) -> Option<Seq<char>> {
    if prefix.is_prefix_of(s) {
        Some(s.skip(prefix.len() as int))
    } else {
        None
    }
}

/// The characters of a string.
pub fn chars_of(s: &str) -> (res: Vec<char>)
    ensures
        res@ == s@,
{
    let mut res: Vec<char> = Vec::new();
    for c in it: s.chars()
        invariant
            it.seq() == s@,
            res@ == s@.take(it.index()),
    {
        res.push(c);
        assert(s@.take(it.index() + 1) == s@.take(it.index()).push(c));
    }
    assert(s@.take(s@.len() as int) == s@);
    res
}

/// Two strings hold the same characters.
pub fn str_eq(a: &str, b: &str) -> (res: bool)
    ensures
        res == (a@ == b@),
{
    a.to_owned() == b.to_owned()
}

/// One string after another.
pub fn concat(a: &str, b: &str) -> (res: String)
    ensures
        res@ == a@ + b@,
{
    let mut res: String = a.to_owned();
    res.append(b);
    res
}

/// The text without the white space at either end.
pub fn trim(s: &str) -> (res: String)
    ensures
        res@ == trimmed(s@),
{
    let chars = chars_of(s);
    let mut from: usize = 0;
    let mut to: usize = chars.len();
    assert(s@.subrange(0, to as int) == s@);
    while from < to && chars[from].is_whitespace()
        invariant
            chars@ == s@,
            0 <= from <= to == chars@.len(),
            trimmed(s@.subrange(from as int, to as int)) == trimmed(s@),
        decreases to - from,
    {
        assert(s@.subrange(from as int, to as int).drop_first() == s@.subrange(
            from + 1,
            to as int,
        ));
        from = from + 1;
    }
    while from < to && chars[to - 1].is_whitespace()
        invariant
            chars@ == s@,
            0 <= from <= to <= chars@.len(),
            from < to ==> !is_white_space(s@[from as int]),
            trimmed(s@.subrange(from as int, to as int)) == trimmed(s@),
        decreases to - from,
    {
        assert(s@.subrange(from as int, to as int).drop_last() == s@.subrange(
            from as int,
            to - 1,
        ));
        to = to - 1;
    }
    s.substring_char(from, to).to_owned()
}

/// The text without the run of `c` that it starts with.
pub fn trim_start_matches(s: &str, c: char) -> (res: String)
    ensures
        res@ == without_leading(s@, c),
{
    let chars = chars_of(s);
    let mut from: usize = 0;
    assert(s@.skip(0) == s@);
    while from < chars.len() && chars[from] == c
        invariant
            chars@ == s@,
            0 <= from <= chars@.len(),
            without_leading(s@.skip(from as int), c) == without_leading(s@, c),
        decreases chars@.len() - from,
    {
        assert(s@.skip(from as int).drop_first() == s@.skip(from + 1));
        from = from + 1;
    }
    assert(s@.skip(from as int) == s@.subrange(from as int, s@.len() as int));
    s.substring_char(from, chars.len()).to_owned()
}

/// What follows `prefix`, where the text starts with it.
pub fn strip_prefix(s: &str, prefix: &str) -> (res: Option<String>)
    ensures
        res is Some <==> stripped(s@, prefix@) is Some,
        res is Some ==> stripped(s@, prefix@) == Some(res->0@),
{
    let chars = chars_of(s);
    let wanted = chars_of(prefix);
    if chars.len() < wanted.len() {
        return None;
    }
    let mut i: usize = 0;
    while i < wanted.len()
        invariant
            chars@ == s@,
            wanted@ == prefix@,
            0 <= i <= wanted@.len() <= chars@.len(),
            forall|j: int| 0 <= j < i ==> s@[j] == prefix@[j],
        decreases wanted@.len() - i,
    {
        if chars[i] != wanted[i] {
            assert(s@.subrange(0, prefix@.len() as int)[i as int] != prefix@[i as int]);
            return None;
        }
        i = i + 1;
    }
    assert(prefix@ == s@.subrange(0, prefix@.len() as int));
    assert(s@.skip(i as int) == s@.subrange(i as int, s@.len() as int));
    Some(s.substring_char(i, chars.len()).to_owned())
}

/// The text of bytes, where every maximal ill-formed part of them becomes a replacement character.
pub uninterp spec fn utf8_lossy(bytes: Seq<u8>) -> Seq<char>;

/// `String::from_utf8_lossy` gives the text of well-formed UTF-8 bytes, and of other bytes a text
/// with replacement characters in it; [`utf8_lossy`] names it, and it depends on the bytes alone.
#[verifier::external_body]
fn from_utf8_lossy(bytes: &[u8]) -> (res: String)
    ensures
        res@ == utf8_lossy(bytes@),
        valid_utf8(bytes@) ==> res@ == decode_utf8(bytes@),
{
    String::from_utf8_lossy(bytes).into_owned()
}

/// The text of bytes: what they encode, where they are well-formed UTF-8, and otherwise a text with
/// replacement characters in it.
pub open spec fn quoted(bytes: Seq<u8>) -> Seq<char> {
    if valid_utf8(bytes) {
        decode_utf8(bytes)
    } else {
        utf8_lossy(bytes)
    }
}

/// The text of bytes, well-formed or not.
pub fn quote(bytes: &[u8]) -> (res: String)
    ensures
        res@ == quoted(bytes@),
{
    from_utf8_lossy(bytes)
}

/// How many characters stand before the first line feed.
pub open spec fn line_length(s: Seq<char>) -> nat
    decreases s.len(),
{
    if s.len() == 0 || s.first() == '\n' {
        0
    } else {
        1 + line_length(s.drop_first())
    }
}

/// A line that ended in a line feed, without the carriage return before it.
pub open spec fn without_return(line: Seq<char>) -> Seq<char> {
    if line.len() > 0 && line.last() == '\r' {
        line.drop_last()
    } else {
        line
    }
}

/// The lines of a text. A line ends in a line feed, with or without a carriage return before it,
/// or at the end of the text; a line feed at the end of the text opens no further line.
pub open spec fn lines_of(s: Seq<char>) -> Seq<Seq<char>>
    decreases s.len(),
{
    if s.len() == 0 {
        seq![]
    } else if line_length(s) >= s.len() {
        seq![s]
    } else {
        seq![without_return(s.take(line_length(s) as int))] + lines_of(
            s.skip(line_length(s) as int + 1),
        )
    }
}

/// The texts of a list of strings.
pub open spec fn texts(list: Seq<String>) -> Seq<Seq<char>> {
    list.map_values(|s: String| s@)
}

/// The lines of a text.
pub fn lines(s: &str) -> (res: Vec<String>)
    ensures
        texts(res@) == lines_of(s@),
{
    let chars = chars_of(s);
    let mut res: Vec<String> = Vec::new();
    let mut from: usize = 0;
    assert(s@.skip(0) == s@);
    assert(texts(res@) + lines_of(s@) == lines_of(s@));
    while from < chars.len()
        invariant
            chars@ == s@,
            0 <= from <= chars@.len(),
            texts(res@) + lines_of(s@.skip(from as int)) == lines_of(s@),
        decreases chars@.len() - from,
    {
        let ghost rest = s@.skip(from as int);
        let mut to: usize = from;
        assert(rest.skip(0) == rest);
        while to < chars.len() && chars[to] != '\n'
            invariant
                chars@ == s@,
                rest == s@.skip(from as int),
                0 <= from <= to <= chars@.len(),
                line_length(rest) == (to - from) + line_length(rest.skip(to - from)),
            decreases chars@.len() - to,
        {
            assert(rest.skip(to - from).drop_first() == rest.skip(to - from + 1));
            to = to + 1;
        }
        let ghost line = rest.take(to - from);
        assert(line == s@.subrange(from as int, to as int));
        let ghost before = res@;
        if to == chars.len() {
            assert(line == rest);
            let text = s.substring_char(from, to).to_owned();
            res.push(text);
            assert(texts(res@) =~= texts(before).push(rest));
            assert(s@.skip(to as int) =~= seq![]);
            assert(lines_of(rest) =~= seq![rest]);
            from = to;
        } else {
            assert(line_length(rest) == to - from);
            let end: usize = if to > from && chars[to - 1] == '\r' {
                to - 1
            } else {
                to
            };
            assert(without_return(line) == s@.subrange(from as int, end as int));
            let text = s.substring_char(from, end).to_owned();
            res.push(text);
            assert(texts(res@) =~= texts(before).push(without_return(line)));
            assert(rest.skip(line_length(rest) as int + 1) == s@.skip(to + 1));
            assert(texts(before) + lines_of(rest) =~= texts(res@) + lines_of(s@.skip(to + 1)));
            from = to + 1;
        }
    }
    assert(s@.skip(from as int) =~= seq![]);
    assert(texts(res@) + seq![] =~= texts(res@));
    res
}

/// Nothing but white space stands in the text.
pub fn is_blank(s: &str) -> (res: bool)
    ensures
        res == (trimmed(s@).len() == 0),
{
    trim(s).as_str().is_empty()
}

// ---- Laws ----

/// Among the ASCII characters the space, the tab, the vertical tab, the line and form feeds and the
/// carriage return are white space. No-break and ideographic spaces are, and no character behind
/// the latter is.
pub proof fn law_white_space_characters(c: char)
    ensures
        c <= '\u{7f}' ==> (is_white_space(c) <==> (c == ' ' || c == '\t' || c == '\n' || c == '\r'
            || c == '\u{b}' || c == '\u{c}')),
        is_white_space('\u{a0}'),
        is_white_space('\u{3000}'),
        c > '\u{3000}' ==> !is_white_space(c),
{
}

/// Trimming cuts off white space on either side and nothing else: of a text between two runs of
/// white space, that neither starts nor ends with white space, it leaves exactly that text.
pub proof fn law_trim_cuts_white_space_only(
    before: Seq<char>,
    kept: Seq<char>,
    after: Seq<char>,
)
    requires
        forall|i: int| 0 <= i < before.len() ==> is_white_space(#[trigger] before[i]),
        forall|i: int| 0 <= i < after.len() ==> is_white_space(#[trigger] after[i]),
        kept.len() > 0 ==> !is_white_space(kept[0]) && !is_white_space(kept[kept.len() - 1]),
    ensures
        trimmed(before + kept + after) == kept,
    decreases before.len() + after.len(),
{
    let s = before + kept + after;
    if before.len() > 0 {
        let rest = before.drop_first();
        assert forall|i: int| 0 <= i < rest.len() implies is_white_space(#[trigger] rest[i]) by {
            assert(rest[i] == before[i + 1]);
        }
        law_trim_cuts_white_space_only(rest, kept, after);
        assert(s.first() == before[0]);
        assert(s.drop_first() =~= rest + kept + after);
    } else if after.len() > 0 {
        if kept.len() > 0 {
            let rest = after.drop_last();
            assert forall|i: int| 0 <= i < rest.len() implies is_white_space(
                #[trigger] rest[i],
            ) by {
                assert(rest[i] == after[i]);
            }
            law_trim_cuts_white_space_only(before, kept, rest);
            assert(s.first() == kept[0]);
            assert(s.last() == after[after.len() - 1]);
            assert(s.drop_last() =~= before + kept + rest);
        } else {
            let rest = after.drop_first();
            assert forall|i: int| 0 <= i < rest.len() implies is_white_space(
                #[trigger] rest[i],
            ) by {
                assert(rest[i] == after[i + 1]);
            }
            law_trim_cuts_white_space_only(before, kept, rest);
            assert(s.first() == after[0]);
            assert(s.drop_first() =~= before + kept + rest);
        }
    } else {
        assert(s =~= kept);
    }
}

/// Every text is one that trimming leaves, between two runs of white space.
pub proof fn law_trim_leaves_a_part(s: Seq<char>) -> (parts: (Seq<char>, Seq<char>))
    ensures
        s == parts.0 + trimmed(s) + parts.1,
        forall|i: int| 0 <= i < parts.0.len() ==> is_white_space(#[trigger] parts.0[i]),
        forall|i: int| 0 <= i < parts.1.len() ==> is_white_space(#[trigger] parts.1[i]),
        trimmed(s).len() > 0 ==> {
            &&& !is_white_space(trimmed(s)[0])
            &&& !is_white_space(trimmed(s)[trimmed(s).len() - 1])
        },
    decreases s.len(),
{
    let none = Seq::<char>::empty();
    if s.len() == 0 {
        assert(s =~= none + trimmed(s) + none);
        (none, none)
    } else if is_white_space(s.first()) {
        let (a, b) = law_trim_leaves_a_part(s.drop_first());
        let before = seq![s.first()] + a;
        let t = trimmed(s);
        assert(s =~= seq![s.first()] + (a + t + b)) by {
            assert(s =~= seq![s.first()] + s.drop_first());
        }
        assert(before + t + b =~= seq![s.first()] + (a + t + b));
        (before, b)
    } else if is_white_space(s.last()) {
        let (a, b) = law_trim_leaves_a_part(s.drop_last());
        let after = b.push(s.last());
        let t = trimmed(s);
        assert(s =~= (a + t + b).push(s.last())) by {
            assert(s =~= s.drop_last().push(s.last()));
        }
        assert(a + t + after =~= (a + t + b).push(s.last()));
        (a, after)
    } else {
        assert(s =~= none + trimmed(s) + none);
        (none, none)
    }
}

/// Of a run of a character and a text that does not start with it, the text is left.
pub proof fn law_leading_run_is_cut(run: Seq<char>, rest: Seq<char>, c: char)
    requires
        forall|i: int| 0 <= i < run.len() ==> #[trigger] run[i] == c,
        rest.len() > 0 ==> rest[0] != c,
    ensures
        without_leading(run + rest, c) == rest,
    decreases run.len(),
{
    if run.len() > 0 {
        let shorter = run.drop_first();
        assert forall|i: int| 0 <= i < shorter.len() implies #[trigger] shorter[i] == c by {
            assert(shorter[i] == run[i + 1]);
        }
        law_leading_run_is_cut(shorter, rest, c);
        assert((run + rest).first() == run[0]);
        assert((run + rest).drop_first() =~= shorter + rest);
    } else {
        assert(run + rest =~= rest);
    }
}

/// What follows a prefix is what was put behind it, and there is nothing where the text does not
/// start with the prefix.
pub proof fn law_prefix_is_taken_off(prefix: Seq<char>, rest: Seq<char>, s: Seq<char>)
    ensures
        stripped(prefix + rest, prefix) == Some(rest),
        stripped(s, prefix) is Some ==> s == prefix + stripped(s, prefix)->0,
{
    assert((prefix + rest).skip(prefix.len() as int) =~= rest);
    assert(prefix.is_prefix_of(prefix + rest));
    if stripped(s, prefix) is Some {
        assert(s =~= prefix + s.skip(prefix.len() as int));
    }
}

proof fn lemma_line_length(line: Seq<char>, rest: Seq<char>)
    requires
        !line.contains('\n'),
        rest.len() > 0 ==> rest[0] == '\n',
    ensures
        line_length(line + rest) == line.len(),
    decreases line.len(),
{
    let s = line + rest;
    if line.len() > 0 {
        let shorter = line.drop_first();
        assert forall|c: char| shorter.contains(c) implies line.contains(c) by {
            let k = choose|k: int| 0 <= k < shorter.len() && shorter[k] == c;
            assert(line[k + 1] == c);
        }
        lemma_line_length(shorter, rest);
        assert(line.contains(line[0]));
        assert(s.first() == line[0]);
        assert(s.drop_first() =~= shorter + rest);
    } else {
        assert(s =~= rest);
    }
}

/// A line ends at a line feed, or at a carriage return and a line feed, and the lines of the rest
/// follow it. What stands behind the last line feed is a line where it is not empty.
pub proof fn law_lines_end_at_feeds(line: Seq<char>, rest: Seq<char>)
    requires
        !line.contains('\n'),
    ensures
        lines_of(line + seq!['\r', '\n'] + rest) == seq![line] + lines_of(rest),
        line.len() == 0 || line[line.len() - 1] != '\r' ==> lines_of(line + seq!['\n'] + rest)
            == seq![line] + lines_of(rest),
        line.len() > 0 ==> lines_of(line) == seq![line],
        lines_of(Seq::<char>::empty()) == Seq::<Seq<char>>::empty(),
{
    let bare = line + seq!['\n'] + rest;
    lemma_line_length(line, seq!['\n'] + rest);
    assert(bare =~= line + (seq!['\n'] + rest));
    assert(bare.take(line.len() as int) =~= line);
    assert(bare.skip(line.len() as int + 1) =~= rest);
    let returned = line.push('\r');
    let both = line + seq!['\r', '\n'] + rest;
    assert(!returned.contains('\n')) by {
        if returned.contains('\n') {
            let k = choose|k: int| 0 <= k < returned.len() && returned[k] == '\n';
            assert(line[k] == '\n');
        }
    }
    lemma_line_length(returned, seq!['\n'] + rest);
    assert(both =~= returned + (seq!['\n'] + rest));
    assert(both.take(returned.len() as int) =~= returned);
    assert(both.skip(returned.len() as int + 1) =~= rest);
    assert(returned.drop_last() =~= line);
    lemma_line_length(line, seq![]);
    assert(line + seq![] =~= line);
}

/// Well-formed bytes are quoted as the text that they encode.
pub proof fn law_text_is_quoted(text: Seq<char>)
    ensures
        quoted(encode_utf8(text)) == text,
{
    encode_utf8_valid_utf8(text);
    encode_utf8_decode_utf8(text);
}

/// The texts of a list are those of each of its strings, in their order.
pub proof fn law_texts_are_those_of_the_list(list: Seq<String>, i: int)
    ensures
        texts(list).len() == list.len(),
        0 <= i < list.len() ==> texts(list)[i] == list[i]@,
{
}

} // verus!
