//! Lines of text, as they came in and as a person reads them.

use crate::text::{chars_of, decode_lossy, decoded, law_text_survives_encoding, utf8_lossy};
use vstd::prelude::*;
use vstd::utf8::{decode_utf8, encode_utf8, valid_utf8};

verus! {

/// The character that opens a terminal escape sequence.
pub const ESCAPE: char = '\u{1b}';

/// What is known about a line beside its text.
#[derive(Clone, Copy, Debug, PartialEq, Eq, Structural)]
pub struct Flags {
    /// Scripts are not to see this line.
    pub bypass_script: bool,
    /// The line is not to be shown.
    pub gag: bool,
    /// A trigger has matched this line.
    pub matched: bool,
}

/// A line sent to or received from a server.
#[derive(Debug, PartialEq, Eq)]
pub struct Line {
    content: Vec<u8>,
    line: String,
    clean_line: String,
    pub flags: Flags,
}

/// The bytes, the text, the text without escape sequences, and the flags.
pub ghost struct LineView {
    pub content: Seq<u8>,
    pub line: Seq<char>,
    pub clean_line: Seq<char>,
    pub flags: Flags,
}

impl View for Line {
    type V = LineView;

    closed spec fn view(&self) -> LineView {
        LineView {
            content: self.content@,
            line: self.line@,
            clean_line: self.clean_line@,
            flags: self.flags,
        }
    }
}

impl Clone for Line {
    fn clone(&self) -> (copy: Line)
        ensures
            copy@ == self@,
    {
        let content = self.content.clone();
        assert(content@ =~= self.content@);
        Line {
            content,
            line: self.line.clone(),
            clean_line: self.clean_line.clone(),
            flags: self.flags,
        }
    }
}

/// The flags of a line that nothing has happened to.
pub open spec fn no_flags() -> Flags {
    Flags { bypass_script: false, gag: false, matched: false }
}

/// How many characters belong to a control sequence, given those that follow its
/// opening bracket: all up to and with the first one from `@` to `~`, or every
/// one if the sequence is cut short.
pub open spec fn control_length(s: Seq<char>) -> nat
    decreases s.len(),
{
    if s.len() == 0 {
        0
    } else if '@' <= s[0] <= '~' {
        1
    } else {
        1 + control_length(s.skip(1))
    }
}

/// How many characters the escape sequence at the front of `s` takes: an escape
/// with the one character behind it, or, where that is an opening bracket, with a
/// whole control sequence.
pub open spec fn escape_length(s: Seq<char>) -> nat
    recommends
        s.len() > 0,
        s[0] == ESCAPE,
{
    if s.len() < 2 {
        s.len()
    } else if s[1] == '[' {
        2 + control_length(s.skip(2))
    } else {
        2
    }
}

/// `s` without its escape sequences.
pub open spec fn stripped(s: Seq<char>) -> Seq<char>
    decreases s.len(),
{
    if s.len() == 0 {
        Seq::empty()
    } else if s[0] != ESCAPE {
        seq![s[0]] + stripped(s.skip(1))
    } else if 0 < escape_length(s) <= s.len() {
        stripped(s.skip(escape_length(s) as int))
    } else {
        Seq::empty()
    }
}

proof fn lemma_control_length(s: Seq<char>)
    ensures
        control_length(s) <= s.len(),
    decreases s.len(),
{
    if s.len() > 0 && !('@' <= s[0] <= '~') {
        lemma_control_length(s.skip(1));
    }
}

/// Text without an escape stays as it is.
pub proof fn law_plain_text_is_kept(s: Seq<char>)
    requires
        !s.contains(ESCAPE),
    ensures
        stripped(s) == s,
    decreases s.len(),
{
    if s.len() > 0 {
        assert(s.contains(s[0]));
        let rest = s.skip(1);
        assert forall|i: int| 0 <= i < rest.len() implies rest[i] != ESCAPE by {
            assert(s.contains(s[i + 1]));
        }
        law_plain_text_is_kept(rest);
        assert(seq![s[0]] + rest =~= s);
    } else {
        assert(s =~= Seq::empty());
    }
}

/// Removing escape sequences adds no character and leaves no escape.
pub proof fn law_stripping_only_removes(s: Seq<char>)
    ensures
        stripped(s).len() <= s.len(),
        forall|c: char| #[trigger] stripped(s).contains(c) ==> s.contains(c),
        !stripped(s).contains(ESCAPE),
    decreases s.len(),
{
    if s.len() > 0 {
        let step: int = if s[0] != ESCAPE {
            1
        } else {
            escape_length(s) as int
        };
        if s.len() >= 2 {
            lemma_control_length(s.skip(2));
        }
        let rest = s.skip(step);
        law_stripping_only_removes(rest);
        assert forall|c: char| #[trigger] stripped(s).contains(c) implies s.contains(c) && c
            != ESCAPE by {
            if stripped(rest).contains(c) {
                assert(rest.contains(c));
                let i = choose|i: int| 0 <= i < rest.len() && rest[i] == c;
                assert(s[i + step] == c);
            } else {
                let i = choose|i: int| 0 <= i < stripped(s).len() && stripped(s)[i] == c;
                if i > 0 {
                    assert(stripped(rest)[i - 1] == c);
                }
                assert(s[0] == c);
            }
        }
    }
}

/// What goes before the first escape is kept as it is.
pub proof fn law_text_before_an_escape_is_kept(plain: Seq<char>, rest: Seq<char>)
    requires
        !plain.contains('\u{1b}'),
    ensures
        stripped(plain + rest) == plain + stripped(rest),
    decreases plain.len(),
{
    if plain.len() == 0 {
        assert(plain + rest =~= rest);
        assert(plain + stripped(rest) =~= stripped(rest));
    } else {
        let tail = plain.skip(1);
        assert(plain.contains(plain[0]));
        assert forall|i: int| 0 <= i < tail.len() implies tail[i] != '\u{1b}' by {
            assert(plain.contains(plain[i + 1]));
        }
        law_text_before_an_escape_is_kept(tail, rest);
        assert((plain + rest).skip(1) =~= tail + rest);
        assert((plain + rest)[0] == plain[0]);
        assert(seq![plain[0]] + (tail + stripped(rest)) =~= plain + stripped(rest));
    }
}

proof fn lemma_control_length_of(middle: Seq<char>, end: char, rest: Seq<char>)
    requires
        forall|i: int| 0 <= i < middle.len() ==> !('@' <= #[trigger] middle[i] <= '~'),
        '@' <= end <= '~',
    ensures
        control_length(middle.push(end) + rest) == middle.len() + 1,
        control_length(middle) == middle.len(),
    decreases middle.len(),
{
    let s = middle.push(end) + rest;
    if middle.len() > 0 {
        assert(s[0] == middle[0]);
        assert(s.skip(1) =~= middle.skip(1).push(end) + rest);
        assert forall|i: int| 0 <= i < middle.skip(1).len() implies !('@'
            <= #[trigger] middle.skip(1)[i] <= '~') by {
            assert(middle.skip(1)[i] == middle[i + 1]);
        }
        lemma_control_length_of(middle.skip(1), end, rest);
    } else {
        assert(s[0] == end);
    }
}

/// A control sequence goes whole, and nothing of what follows it: an escape, an opening
/// bracket, and all up to the first character from `@` to `~`.
pub proof fn law_control_sequence_is_removed(middle: Seq<char>, end: char, rest: Seq<char>)
    requires
        forall|i: int| 0 <= i < middle.len() ==> !('@' <= #[trigger] middle[i] <= '~'),
        '@' <= end <= '~',
    ensures
        stripped(seq!['\u{1b}', '['] + middle.push(end) + rest) == stripped(rest),
{
    let s = seq!['\u{1b}', '['] + middle.push(end) + rest;
    lemma_control_length_of(middle, end, rest);
    assert(s[0] == ESCAPE);
    assert(s[1] == '[');
    assert(s.skip(2) =~= middle.push(end) + rest);
    assert(escape_length(s) == middle.len() + 3);
    assert(s.skip(middle.len() as int + 3) =~= rest);
}

/// Any other escape goes with the one character behind it.
pub proof fn law_short_escape_is_removed(c: char, rest: Seq<char>)
    requires
        c != '[',
    ensures
        stripped(seq!['\u{1b}', c] + rest) == stripped(rest),
{
    let s = seq!['\u{1b}', c] + rest;
    assert(s[0] == ESCAPE);
    assert(s[1] == c);
    assert(s.skip(2) =~= rest);
}

/// An escape sequence that is cut short goes as far as it is there.
pub proof fn law_unfinished_escape_is_removed(middle: Seq<char>)
    requires
        forall|i: int| 0 <= i < middle.len() ==> !('@' <= #[trigger] middle[i] <= '~'),
    ensures
        stripped(seq!['\u{1b}']) == Seq::<char>::empty(),
        stripped(seq!['\u{1b}', '['] + middle) == Seq::<char>::empty(),
{
    assert(seq!['\u{1b}'].skip(1) =~= Seq::empty());
    let s = seq!['\u{1b}', '['] + middle;
    lemma_control_length_of(middle, '@', Seq::empty());
    assert(s[0] == ESCAPE);
    assert(s[1] == '[');
    assert(s.skip(2) =~= middle);
    assert(s.skip(s.len() as int) =~= Seq::empty());
    assert(stripped(Seq::<char>::empty()) == Seq::<char>::empty());
}

/// A line keeps its bytes and its text as they are, is cleaned of escape sequences, and
/// starts without a flag.
pub proof fn law_line_keeps_its_text(content: Seq<u8>, text: Seq<char>)
    ensures
        line_of(content, text).content == content,
        line_of(content, text).line == text,
        line_of(content, text).clean_line == stripped(text),
        !line_of(content, text).flags.bypass_script,
        !line_of(content, text).flags.gag,
        !line_of(content, text).flags.matched,
{
}

/// The view of a line that holds `content`, read as `text`, with no flag set.
pub open spec fn line_of(content: Seq<u8>, text: Seq<char>) -> LineView {
    LineView { content, line: text, clean_line: stripped(text), flags: no_flags() }
}

/// A line made of the bytes of a text is the line made of the text.
pub proof fn law_line_of_encoded_text(text: Seq<char>)
    ensures
        line_of(encode_utf8(text), decoded(encode_utf8(text))) == line_of(encode_utf8(text), text),
{
    law_text_survives_encoding(text);
}

/// Removes the escape sequences from `text`.
pub fn strip_escapes(text: &str) -> (clean: String)
    ensures
        clean@ == stripped(text@),
{
    let chars = chars_of(text);
    let mut clean = String::new();
    let mut i: usize = 0;
    assert(text@.skip(0) =~= text@);
    while i < chars.len()
        invariant
            i <= chars.len(),
            chars@ == text@,
            stripped(text@) == clean@ + stripped(text@.skip(i as int)),
        decreases chars.len() - i,
    {
        let ghost rest = text@.skip(i as int);
        if chars[i] != ESCAPE {
            let ghost before = clean@;
            clean.push(chars[i]);
            i = i + 1;
            assert(rest.skip(1) =~= text@.skip(i as int));
            assert(before + (seq![rest[0]] + stripped(rest.skip(1))) =~= clean@ + stripped(
                text@.skip(i as int),
            ));
        } else if i + 1 < chars.len() && chars[i + 1] == '[' {
            let ghost start = i as int;
            let ghost tail = rest.skip(2);
            i = i + 2;
            assert(tail =~= text@.skip(i as int));
            while i < chars.len() && !('@' <= chars[i] && chars[i] <= '~')
                invariant
                    start + 2 <= i <= chars.len(),
                    chars@ == text@,
                    control_length(tail) == i - (start + 2) + control_length(
                        text@.skip(i as int),
                    ),
                decreases chars.len() - i,
            {
                i = i + 1;
                assert(text@.skip(i - 1).skip(1) =~= text@.skip(i as int));
            }
            if i < chars.len() {
                i = i + 1;
            }
            proof {
                lemma_control_length(tail);
                assert(escape_length(rest) == i - start);
                assert(rest.skip(escape_length(rest) as int) =~= text@.skip(i as int));
            }
        } else {
            let ghost start = i as int;
            if i + 1 < chars.len() {
                i = i + 2;
            } else {
                i = i + 1;
            }
            assert(escape_length(rest) == i - start);
            assert(rest.skip(escape_length(rest) as int) =~= text@.skip(i as int));
        }
    }
    assert(clean@ + stripped(text@.skip(i as int)) =~= clean@);
    clean
}

impl Line {
    fn new(content: Vec<u8>, line: String) -> (res: Line)
        ensures
            res@ == line_of(content@, line@),
    {
        let clean_line = strip_escapes(line.as_str());
        Line {
            content,
            line,
            clean_line,
            flags: Flags { bypass_script: false, gag: false, matched: false },
        }
    }

    /// The line as text.
    pub fn line(&self) -> (text: &str)
        ensures
            text@ == self@.line,
    {
        self.line.as_str()
    }

    /// The line as text, without escape sequences.
    pub fn clean_line(&self) -> (text: &str)
        ensures
            text@ == self@.clean_line,
    {
        self.clean_line.as_str()
    }

    /// The flags of the line.
    pub fn flags(&self) -> (flags: Flags)
        ensures
            flags == self@.flags,
    {
        self.flags
    }

    /// Gives the line other flags.
    pub fn set_flags(&mut self, flags: Flags)
        ensures
            final(self)@ == (LineView { flags, ..old(self)@ }),
    {
        self.flags = flags;
    }

    /// The bytes of the line.
    pub fn content(&self) -> (bytes: &[u8])
        ensures
            bytes@ == self@.content,
    {
        self.content.as_slice()
    }
}

impl From<&str> for Line {
    fn from(text: &str) -> (res: Line)
        ensures
            res@ == line_of(encode_utf8(text@), text@),
            res@.content == encode_utf8(text@),
            res@.line == text@,
    {
        Line::new(text.as_bytes_vec(), text.to_string())
    }
}

impl vstd::std_specs::convert::FromSpecImpl<&str> for Line {
    open spec fn obeys_from_spec() -> bool {
        false
    }

    open spec fn from_spec(text: &str) -> Line {
        arbitrary()
    }
}

impl From<String> for Line {
    fn from(text: String) -> (res: Line)
        ensures
            res@ == line_of(encode_utf8(text@), text@),
            res@.content == encode_utf8(text@),
            res@.line == text@,
    {
        Line::new(text.as_str().as_bytes_vec(), text)
    }
}

impl vstd::std_specs::convert::FromSpecImpl<String> for Line {
    open spec fn obeys_from_spec() -> bool {
        false
    }

    open spec fn from_spec(text: String) -> Line {
        arbitrary()
    }
}

impl From<Vec<u8>> for Line {
    fn from(content: Vec<u8>) -> (res: Line)
        ensures
            res@ == line_of(content@, decoded(content@)),
            res@.content == content@,
            valid_utf8(content@) ==> res@.line == decode_utf8(content@),
            !valid_utf8(content@) ==> res@.line == utf8_lossy(content@),
    {
        let line = decode_lossy(content.as_slice());
        Line::new(content, line)
    }
}

impl vstd::std_specs::convert::FromSpecImpl<Vec<u8>> for Line {
    open spec fn obeys_from_spec() -> bool {
        false
    }

    open spec fn from_spec(content: Vec<u8>) -> Line {
        arbitrary()
    }
}

impl From<&Vec<u8>> for Line {
    fn from(content: &Vec<u8>) -> (res: Line)
        ensures
            res@ == line_of(content@, decoded(content@)),
            res@.content == content@,
            valid_utf8(content@) ==> res@.line == decode_utf8(content@),
            !valid_utf8(content@) ==> res@.line == utf8_lossy(content@),
    {
        let mut bytes: Vec<u8> = Vec::new();
        bytes.extend_from_slice(content.as_slice());
        assert(bytes@ =~= content@);
        Line::from(bytes)
    }
}

impl vstd::std_specs::convert::FromSpecImpl<&Vec<u8>> for Line {
    open spec fn obeys_from_spec() -> bool {
        false
    }

    open spec fn from_spec(content: &Vec<u8>) -> Line {
        arbitrary()
    }
}

} // verus!
