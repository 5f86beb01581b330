//! Splitting, joining and decoding text.

use vstd::prelude::*;
use vstd::utf8::{
    decode_utf8, encode_utf8, encode_utf8_decode_utf8, encode_utf8_valid_utf8, valid_utf8,
};

verus! {

/// The parts of `s` between its occurrences of `sep`: one part more than there
/// are separators, the last one being what follows the last separator.
pub open spec fn pieces<T>(s: Seq<T>, sep: T) -> Seq<Seq<T>>
    decreases s.len(),
{
    if s.len() == 0 {
        seq![Seq::empty()]
    } else {
        let before = pieces(s.drop_last(), sep);
        if s.last() == sep {
            before.push(Seq::empty())
        } else {
            before.drop_last().push(before.last().push(s.last()))
        }
    }
}

/// The parts in order, with `sep` between each two of them.
pub open spec fn joined<T>(parts: Seq<Seq<T>>, sep: Seq<T>) -> Seq<T>
    decreases parts.len(),
{
    if parts.len() == 0 {
        Seq::empty()
    } else if parts.len() == 1 {
        parts[0]
    } else {
        joined(parts.drop_last(), sep) + sep + parts.last()
    }
}

/// The contents of each string.
pub open spec fn texts(strings: Seq<String>) -> Seq<Seq<char>> {
    strings.map_values(|s: String| s@)
}

/// There is always a last part.
pub proof fn lemma_pieces_nonempty<T>(s: Seq<T>, sep: T)
    ensures
        pieces(s, sep).len() >= 1,
    decreases s.len(),
{
    if s.len() > 0 {
        lemma_pieces_nonempty(s.drop_last(), sep);
    }
}

/// Splitting loses nothing: joined again with the separator, the parts give the
/// text they came from.
pub proof fn law_pieces_joined<T>(s: Seq<T>, sep: T)
    ensures
        joined(pieces(s, sep), seq![sep]) == s,
    decreases s.len(),
{
    lemma_pieces_nonempty(s, sep);
    if s.len() > 0 {
        let front = s.drop_last();
        let before = pieces(front, sep);
        lemma_pieces_nonempty(front, sep);
        law_pieces_joined(front, sep);
        if s.last() == sep {
            assert(pieces(s, sep).drop_last() =~= before);
            assert(joined(pieces(s, sep), seq![sep]) =~= front.push(sep));
        } else {
            assert(pieces(s, sep).drop_last() =~= before.drop_last());
            if before.len() == 1 {
                assert(joined(pieces(s, sep), seq![sep]) =~= front.push(s.last()));
            } else {
                assert(joined(pieces(s, sep), seq![sep]) =~= front.push(s.last()));
            }
        }
        assert(front.push(s.last()) =~= s);
    }
}

/// Without a separator there is one part: the whole text.
pub proof fn law_pieces_without_separator<T>(s: Seq<T>, sep: T)
    requires
        !s.contains(sep),
    ensures
        pieces(s, sep) == seq![s],
    decreases s.len(),
{
    if s.len() > 0 {
        let front = s.drop_last();
        assert forall|i: int| 0 <= i < front.len() implies front[i] != sep by {
            assert(s.contains(s[i]));
        }
        law_pieces_without_separator(front, sep);
        assert(s.contains(s.last()));
        assert(front.push(s.last()) =~= s);
        assert(pieces(s, sep) =~= seq![s]);
    } else {
        assert(s =~= Seq::empty());
    }
}

/// No part holds a separator.
pub proof fn law_pieces_hold_no_separator<T>(s: Seq<T>, sep: T)
    ensures
        forall|i: int|
            0 <= i < pieces(s, sep).len() ==> !(#[trigger] pieces(s, sep)[i]).contains(sep),
    decreases s.len(),
{
    if s.len() > 0 {
        let before = pieces(s.drop_last(), sep);
        lemma_pieces_nonempty(s.drop_last(), sep);
        law_pieces_hold_no_separator(s.drop_last(), sep);
        assert forall|i: int| 0 <= i < pieces(s, sep).len() implies !(
        #[trigger] pieces(s, sep)[i]).contains(sep) by {
            if s.last() != sep && i == before.len() - 1 {
                let part = before.last().push(s.last());
                assert(!before.last().contains(sep));
                assert forall|k: int| 0 <= k < part.len() implies part[k] != sep by {
                    if k < before.last().len() {
                        assert(before.last().contains(before.last()[k]));
                    }
                }
            }
        }
    }
}

/// Splitting two texts one after the other is splitting them as one text: only
/// the last part of the first and the first part of the second meet.
pub proof fn law_pieces_of_concatenation<T>(a: Seq<T>, b: Seq<T>, sep: T)
    ensures
        pieces(a + b, sep) == pieces(a, sep).drop_last().push(
            pieces(a, sep).last() + pieces(b, sep)[0],
        ) + pieces(b, sep).skip(1),
    decreases b.len(),
{
    let pa = pieces(a, sep);
    lemma_pieces_nonempty(a, sep);
    lemma_pieces_nonempty(b, sep);
    if b.len() == 0 {
        assert(a + b =~= a);
        assert(pa.last() + Seq::<T>::empty() =~= pa.last());
        assert(pa.drop_last().push(pa.last() + pieces(b, sep)[0]) + pieces(b, sep).skip(1) =~= pa);
    } else {
        let front = b.drop_last();
        let pf = pieces(front, sep);
        lemma_pieces_nonempty(front, sep);
        law_pieces_of_concatenation(a, front, sep);
        assert((a + b).drop_last() =~= a + front);
        let whole = pieces(a + front, sep);
        if b.last() == sep {
            assert(pieces(b, sep).skip(1) =~= pf.skip(1).push(Seq::empty()));
        } else if pf.len() == 1 {
            assert(pieces(b, sep).skip(1) =~= Seq::empty());
            assert(whole.drop_last() =~= pa.drop_last());
            assert(whole.last().push(b.last()) =~= pa.last() + pf[0].push(b.last()));
        } else {
            assert(pieces(b, sep).skip(1) =~= pf.skip(1).drop_last().push(
                pf.last().push(b.last()),
            ));
            assert(whole.drop_last() =~= pa.drop_last().push(pa.last() + pf[0]) + pf.skip(
                1,
            ).drop_last());
        }
        assert(pieces(a + b, sep) =~= pa.drop_last().push(pa.last() + pieces(b, sep)[0]) + pieces(
            b,
            sep,
        ).skip(1));
    }
}

/// How often `x` occurs in `s`.
pub open spec fn occurrences<T>(s: Seq<T>, x: T) -> nat
    decreases s.len(),
{
    if s.len() == 0 {
        0
    } else {
        occurrences(s.drop_last(), x) + if s.last() == x {
            1nat
        } else {
            0nat
        }
    }
}

/// There is one part more than there are separators.
pub proof fn law_pieces_are_one_more<T>(s: Seq<T>, sep: T)
    ensures
        pieces(s, sep).len() == occurrences(s, sep) + 1,
    decreases s.len(),
{
    if s.len() > 0 {
        lemma_pieces_nonempty(s.drop_last(), sep);
        law_pieces_are_one_more(s.drop_last(), sep);
    }
}

/// Nothing joined is nothing, and one part joined is that part.
pub proof fn law_joined_of_one<T>(part: Seq<T>, sep: Seq<T>)
    ensures
        joined(Seq::<Seq<T>>::empty(), sep) == Seq::<T>::empty(),
        joined(seq![part], sep) == part,
{
}

/// Joining two lists of parts is joining each of them and putting one separator in
/// between: every part stays whole and in its place.
pub proof fn law_joined_of_concatenation<T>(a: Seq<Seq<T>>, b: Seq<Seq<T>>, sep: Seq<T>)
    requires
        a.len() > 0,
        b.len() > 0,
    ensures
        joined(a + b, sep) == joined(a, sep) + sep + joined(b, sep),
    decreases b.len(),
{
    assert((a + b).drop_last() =~= a + b.drop_last());
    assert((a + b).last() == b.last());
    if b.len() == 1 {
        assert(a + b.drop_last() =~= a);
        assert(joined(b, sep) == b[0]);
    } else {
        law_joined_of_concatenation(a, b.drop_last(), sep);
        assert(joined(a, sep) + sep + joined(b.drop_last(), sep) + sep + b.last() =~= joined(
            a,
            sep,
        ) + sep + (joined(b.drop_last(), sep) + sep + b.last()));
    }
}

/// The parts are determined by what they join to: there is no other way to cut a text
/// at every separator.
pub proof fn law_pieces_are_unique<T>(parts: Seq<Seq<T>>, sep: T)
    requires
        parts.len() > 0,
        forall|i: int| 0 <= i < parts.len() ==> !(#[trigger] parts[i]).contains(sep),
    ensures
        pieces(joined(parts, seq![sep]), sep) == parts,
    decreases parts.len(),
{
    if parts.len() == 1 {
        assert(!parts[0].contains(sep));
        law_pieces_without_separator(parts[0], sep);
        assert(seq![parts[0]] =~= parts);
    } else {
        let front = parts.drop_last();
        let last = parts.last();
        let a = joined(front, seq![sep]);
        assert forall|i: int| 0 <= i < front.len() implies !(#[trigger] front[i]).contains(sep) by {
            assert(!parts[i].contains(sep));
        }
        law_pieces_are_unique(front, sep);
        assert(!parts[parts.len() - 1].contains(sep));
        law_pieces_without_separator(last, sep);
        law_pieces_of_concatenation(seq![sep], last, sep);
        reveal_with_fuel(pieces, 2);
        assert(seq![sep].drop_last() =~= Seq::empty());
        assert(pieces(seq![sep], sep) =~= seq![Seq::empty(), Seq::empty()]);
        assert(Seq::<T>::empty() + last =~= last);
        assert(pieces(seq![sep] + last, sep) =~= seq![Seq::empty(), last]);
        law_pieces_of_concatenation(a, seq![sep] + last, sep);
        assert(a + seq![sep] + last =~= a + (seq![sep] + last));
        assert(front.last() + Seq::<T>::empty() =~= front.last());
        assert(pieces(a + (seq![sep] + last), sep) =~= parts);
    }
}

/// The contents of strings are those of each string, in order.
pub proof fn law_texts_are_the_strings(strings: Seq<String>)
    ensures
        texts(strings).len() == strings.len(),
        forall|i: int| 0 <= i < strings.len() ==> #[trigger] texts(strings)[i] == strings[i]@,
{
}

/// What bytes are read as: the text that they encode if they are UTF-8, and otherwise
/// what `String::from_utf8_lossy` makes of them.
pub proof fn law_bytes_are_read_whole(bytes: Seq<u8>)
    ensures
        valid_utf8(bytes) ==> decoded(bytes) == decode_utf8(bytes),
        !valid_utf8(bytes) ==> decoded(bytes) == utf8_lossy(bytes),
{
}

/// `String::push` puts the character at the end of the string.
pub assume_specification[ String::push ](s: &mut String, ch: char)
    ensures
        final(s)@ == old(s)@.push(ch),
;

/// What `String::from_utf8_lossy` reads out of bytes that are not UTF-8.
pub uninterp spec fn utf8_lossy(bytes: Seq<u8>) -> Seq<char>;

/// The text that bytes are read as: the text they encode, or, if they are not
/// UTF-8, a text with something in the place of what is wrong.
pub open spec fn decoded(bytes: Seq<u8>) -> Seq<char> {
    if valid_utf8(bytes) {
        decode_utf8(bytes)
    } else {
        utf8_lossy(bytes)
    }
}

/// Text that is written as bytes is read as the same text.
pub proof fn law_text_survives_encoding(text: Seq<char>)
    ensures
        decoded(encode_utf8(text)) == text,
{
    encode_utf8_valid_utf8(text);
    encode_utf8_decode_utf8(text);
}

/// Wraps `String::from_utf8_lossy`. Bytes that are UTF-8 give the text they encode.
/// For others the result depends on the bytes alone; what it is, is left to the
/// name.
#[verifier::external_body]
pub(crate) fn decode_lossy(bytes: &[u8]) -> (text: String)
    ensures
        valid_utf8(bytes@) ==> text@ == decode_utf8(bytes@),
        !valid_utf8(bytes@) ==> text@ == utf8_lossy(bytes@),
{
    String::from_utf8_lossy(bytes).into_owned()
}

/// The characters of `s`.
pub fn chars_of(s: &str) -> (chars: Vec<char>)
    ensures
        chars@ == s@,
{
    let mut chars: Vec<char> = Vec::new();
    for c in it: s.chars()
        invariant
            it.seq() == s@,
            chars@ == s@.take(it.index()),
    {
        chars.push(c);
        assert(s@.take(it.index() + 1) =~= s@.take(it.index()).push(c));
    }
    assert(s@.take(s@.len() as int) =~= s@);
    chars
}

/// Splits `s` at the first `sep`, which belongs to neither half.
pub fn split_at_first(s: &str, sep: char) -> (halves: Option<(String, String)>)
    ensures
        halves is Some <==> s@.contains(sep),
        halves matches Some((head, tail)) ==> {
            &&& s@ == head@.push(sep) + tail@
            &&& !head@.contains(sep)
        },
{
    let chars = chars_of(s);
    let mut head = String::new();
    let mut i: usize = 0;
    while i < chars.len() && chars[i] != sep
        invariant
            i <= chars.len(),
            chars@ == s@,
            head@ == s@.take(i as int),
            forall|k: int| 0 <= k < i ==> s@[k] != sep,
        decreases chars.len() - i,
    {
        head.push(chars[i]);
        i = i + 1;
        assert(s@.take(i as int) =~= s@.take(i - 1).push(s@[i - 1]));
    }
    if i == chars.len() {
        return None;
    }
    let ghost at = i as int;
    assert(s@.contains(s@[at]));
    let mut tail = String::new();
    i = i + 1;
    while i < chars.len()
        invariant
            0 <= at < i <= chars.len(),
            chars@ == s@,
            tail@ == s@.subrange(at + 1, i as int),
        decreases chars.len() - i,
    {
        tail.push(chars[i]);
        i = i + 1;
        assert(s@.subrange(at + 1, i as int) =~= s@.subrange(at + 1, i - 1).push(s@[i - 1]));
    }
    assert(s@ =~= head@.push(sep) + tail@);
    Some((head, tail))
}

/// Splits `s` at every `sep`.
pub fn split(s: &str, sep: char) -> (parts: Vec<String>)
    ensures
        texts(parts@) == pieces(s@, sep),
        parts@.len() == occurrences(s@, sep) + 1,
        forall|i: int| 0 <= i < parts@.len() ==> !(#[trigger] parts@[i])@.contains(sep),
        joined(texts(parts@), seq![sep]) == s@,
{
    let chars = chars_of(s);
    let mut parts: Vec<String> = Vec::new();
    let mut part = String::new();
    let mut i: usize = 0;
    assert(s@.take(0) =~= Seq::empty());
    assert(texts(parts@).push(part@) =~= pieces(s@.take(0), sep));
    while i < chars.len()
        invariant
            i <= chars.len(),
            chars@ == s@,
            texts(parts@).push(part@) == pieces(s@.take(i as int), sep),
        decreases chars.len() - i,
    {
        let ghost before = texts(parts@);
        let ghost prefix = s@.take(i + 1);
        assert(prefix.drop_last() =~= s@.take(i as int));
        let c = chars[i];
        if c == sep {
            parts.push(part);
            part = String::new();
            assert(texts(parts@) =~= pieces(s@.take(i as int), sep));
        } else {
            let ghost old_part = part@;
            part.push(c);
            assert(before.push(old_part).drop_last() =~= before);
        }
        i = i + 1;
    }
    assert(s@.take(s@.len() as int) =~= s@);
    parts.push(part);
    assert(texts(parts@) =~= pieces(s@, sep));
    proof {
        law_pieces_are_one_more(s@, sep);
        law_pieces_hold_no_separator(s@, sep);
        law_pieces_joined(s@, sep);
        assert(texts(parts@).len() == parts@.len());
        assert forall|i: int| 0 <= i < parts@.len() implies !(
        #[trigger] parts@[i])@.contains(sep) by {
            assert(texts(parts@)[i] == parts@[i]@);
        }
    }
    parts
}

/// Joins the strings with `sep` between each two of them.
pub fn join(parts: &Vec<String>, sep: &str) -> (whole: String)
    ensures
        whole@ == joined(texts(parts@), sep@),
{
    let mut whole = String::new();
    let mut i: usize = 0;
    assert(texts(parts@).take(0) =~= Seq::empty());
    while i < parts.len()
        invariant
            i <= parts.len(),
            whole@ == joined(texts(parts@).take(i as int), sep@),
        decreases parts.len() - i,
    {
        let ghost taken = texts(parts@).take(i + 1);
        assert(taken.drop_last() =~= texts(parts@).take(i as int));
        if i > 0 {
            whole.append(sep);
        }
        whole.append(parts[i].as_str());
        if i == 0 {
            assert(whole@ =~= taken[0]);
        }
        i = i + 1;
    }
    assert(texts(parts@).take(parts@.len() as int) =~= texts(parts@));
    whole
}

} // verus!
