//! Cutting the bytes of a connection into lines and prompts.

use crate::text::{
    decode_lossy, decoded, joined, law_pieces_are_one_more, law_pieces_hold_no_separator,
    law_pieces_joined, law_pieces_of_concatenation, law_pieces_without_separator,
    lemma_pieces_nonempty, occurrences, pieces, texts, utf8_lossy,
};
use vstd::prelude::*;
use vstd::utf8::{decode_utf8, valid_utf8};

verus! {

/// The byte that ends a line.
pub const LINE_FEED: u8 = 10;

/// The byte that may stand before the end of a line.
pub const CARRIAGE_RETURN: u8 = 13;

/// Holds the bytes of a line that has not ended yet, and the last prompt.
pub struct OutputBuffer {
    buffer: Vec<u8>,
    prompt: String,
}

pub ghost struct OutputBufferView {
    pub buffer: Seq<u8>,
    pub prompt: Seq<char>,
}

impl View for OutputBuffer {
    type V = OutputBufferView;

    closed spec fn view(&self) -> OutputBufferView {
        OutputBufferView { buffer: self.buffer@, prompt: self.prompt@ }
    }
}

/// The bytes of a line without a carriage return at its end.
pub open spec fn without_return(line: Seq<u8>) -> Seq<u8> {
    if line.len() > 0 && line.last() == CARRIAGE_RETURN {
        line.drop_last()
    } else {
        line
    }
}

/// The text of the lines that end in `bytes`.
pub open spec fn finished_lines(bytes: Seq<u8>) -> Seq<Seq<char>> {
    pieces(bytes, LINE_FEED).drop_last().map_values(
        |line: Seq<u8>| decoded(without_return(line)),
    )
}

/// What follows the last line that ends in `bytes`.
pub open spec fn unfinished_line(bytes: Seq<u8>) -> Seq<u8> {
    pieces(bytes, LINE_FEED).last()
}

impl OutputBufferView {
    /// No whole line is waiting.
    pub open spec fn wf(self) -> bool {
        !self.buffer.contains(LINE_FEED)
    }

    /// The buffer once `data` has come in.
    pub open spec fn received(self, data: Seq<u8>) -> OutputBufferView {
        OutputBufferView { buffer: unfinished_line(self.buffer + data), ..self }
    }

    /// The lines that `data` finishes.
    pub open spec fn new_lines(self, data: Seq<u8>) -> Seq<Seq<char>> {
        finished_lines(self.buffer + data)
    }

    /// The buffer once its unfinished line has become the prompt.
    pub open spec fn prompted(self) -> OutputBufferView {
        OutputBufferView { buffer: Seq::empty(), prompt: decoded(self.buffer) }
    }
}

/// Whole lines do not stay in the buffer.
pub proof fn lemma_received_wf(state: OutputBufferView, data: Seq<u8>)
    ensures
        state.received(data).wf(),
{
    lemma_pieces_nonempty(state.buffer + data, LINE_FEED);
    law_pieces_hold_no_separator(state.buffer + data, LINE_FEED);
}

impl OutputBuffer {
    pub fn new() -> (res: OutputBuffer)
        ensures
            res@.buffer == Seq::<u8>::empty(),
            res@.prompt == Seq::<char>::empty(),
            res@.wf(),
    {
        OutputBuffer { buffer: Vec::new(), prompt: String::new() }
    }

    /// The last prompt.
    pub fn prompt(&self) -> (text: &str)
        ensures
            text@ == self@.prompt,
    {
        self.prompt.as_str()
    }

    /// Makes what has come in since the last line the prompt.
    pub fn buffer_to_prompt(&mut self)
        ensures
            final(self)@ == old(self)@.prompted(),
            final(self)@.wf(),
    {
        self.prompt = decode_lossy(self.buffer.as_slice());
        self.buffer = Vec::new();
    }

    /// Takes bytes in and gives the lines that they finish.
    pub fn receive(&mut self, data: &[u8]) -> (lines: Vec<String>)
        requires
            old(self)@.wf(),
        ensures
            final(self)@ == old(self)@.received(data@),
            final(self)@.wf(),
            texts(lines@) == old(self)@.new_lines(data@),
    {
        let ghost start = self.buffer@;
        let ghost prompt = self.prompt@;
        let mut lines: Vec<String> = Vec::new();
        let mut i: usize = 0;
        proof {
            assert(start + data@.take(0) =~= start);
            law_pieces_without_separator(start, LINE_FEED);
            assert(texts(lines@) =~= finished_lines(start + data@.take(0)));
        }
        while i < data.len()
            invariant
                i <= data.len(),
                self.prompt@ == prompt,
                texts(lines@) == finished_lines(start + data@.take(i as int)),
                self.buffer@ == unfinished_line(start + data@.take(i as int)),
            decreases data.len() - i,
        {
            let ghost seen = start + data@.take(i as int);
            let ghost before = texts(lines@);
            let byte = data[i];
            proof {
                lemma_pieces_nonempty(seen, LINE_FEED);
                assert((start + data@.take(i + 1)) =~= seen.push(byte));
                assert(seen.push(byte).drop_last() =~= seen);
            }
            if byte == LINE_FEED {
                let mut line: Vec<u8> = Vec::new();
                std::mem::swap(&mut line, &mut self.buffer);
                let ghost whole = line@;
                if line.len() > 0 && line[line.len() - 1] == CARRIAGE_RETURN {
                    let _ = line.pop();
                }
                assert(line@ =~= without_return(whole));
                lines.push(decode_lossy(line.as_slice()));
                assert(texts(lines@) =~= before.push(decoded(without_return(whole))));
                assert(pieces(seen, LINE_FEED) =~= pieces(seen, LINE_FEED).drop_last().push(whole));
                assert(pieces(seen.push(byte), LINE_FEED).drop_last() =~= pieces(seen, LINE_FEED));
                assert(texts(lines@) =~= finished_lines(seen.push(byte)));
            } else {
                self.buffer.push(byte);
                assert(pieces(seen.push(byte), LINE_FEED).drop_last() =~= pieces(
                    seen,
                    LINE_FEED,
                ).drop_last());
            }
            i = i + 1;
        }
        proof {
            assert(data@.take(data@.len() as int) =~= data@);
            lemma_pieces_nonempty(start + data@, LINE_FEED);
            law_pieces_hold_no_separator(start + data@, LINE_FEED);
        }
        lines
    }
}

/// Nothing that comes in is lost or made up: the lines and what is left in the buffer
/// are all the bytes, cut at every line feed. A line is read without the carriage return
/// at its end, if there is one.
pub proof fn law_nothing_is_lost(state: OutputBufferView, data: Seq<u8>)
    ensures
        state.new_lines(data).len() == occurrences(state.buffer + data, 10u8),
        exists|parts: Seq<Seq<u8>>|
            {
                &&& #[trigger] joined(parts, seq![10u8]) == state.buffer + data
                &&& parts.len() == state.new_lines(data).len() + 1
                &&& forall|i: int| 0 <= i < parts.len() ==> !(#[trigger] parts[i]).contains(10u8)
                &&& forall|i: int|
                    0 <= i < parts.len() - 1 ==> {
                        let line = if (#[trigger] parts[i]).len() > 0 && parts[i].last() == 13u8 {
                            parts[i].drop_last()
                        } else {
                            parts[i]
                        };
                        &&& valid_utf8(line) ==> state.new_lines(data)[i] == decode_utf8(line)
                        &&& !valid_utf8(line) ==> state.new_lines(data)[i] == utf8_lossy(line)
                    }
                &&& state.received(data).buffer == parts.last()
            },
        state.received(data).prompt == state.prompt,
{
    let bytes = state.buffer + data;
    let parts = pieces(bytes, 10u8);
    law_pieces_are_one_more(bytes, 10u8);
    law_pieces_hold_no_separator(bytes, 10u8);
    law_pieces_joined(bytes, 10u8);
    assert(joined(parts, seq![10u8]) == bytes);
}

/// The prompt is all that has come in since the last line, and none of it is left.
pub proof fn law_prompt_is_the_unfinished_line(state: OutputBufferView)
    ensures
        state.prompted().buffer == Seq::<u8>::empty(),
        valid_utf8(state.buffer) ==> state.prompted().prompt == decode_utf8(state.buffer),
        !valid_utf8(state.buffer) ==> state.prompted().prompt == utf8_lossy(state.buffer),
{
}

/// It does not matter how the bytes of a connection are divided: two pieces that
/// come in one after the other finish the lines, and leave the buffer, that they
/// would as one.
pub proof fn law_receiving_in_pieces(state: OutputBufferView, first: Seq<u8>, second: Seq<u8>)
    requires
        state.wf(),
    ensures
        state.received(first).received(second) == state.received(first + second),
        state.new_lines(first) + state.received(first).new_lines(second) == state.new_lines(
            first + second,
        ),
{
    let a = state.buffer + first;
    let rest = unfinished_line(a);
    lemma_pieces_nonempty(a, LINE_FEED);
    lemma_pieces_nonempty(second, LINE_FEED);
    law_pieces_hold_no_separator(a, LINE_FEED);
    law_pieces_without_separator(rest, LINE_FEED);
    law_pieces_of_concatenation(a, second, LINE_FEED);
    law_pieces_of_concatenation(rest, second, LINE_FEED);
    assert(a + second =~= state.buffer + (first + second));
    let whole = pieces(a + second, LINE_FEED);
    let tail = pieces(rest + second, LINE_FEED);
    assert(tail =~= seq![rest + pieces(second, LINE_FEED)[0]] + pieces(second, LINE_FEED).skip(1));
    assert(whole =~= pieces(a, LINE_FEED).drop_last() + tail);
    assert(whole.last() == tail.last());
    assert(whole.drop_last() =~= pieces(a, LINE_FEED).drop_last() + tail.drop_last());
    assert(finished_lines(a) + finished_lines(rest + second) =~= finished_lines(a + second));
}

} // verus!
