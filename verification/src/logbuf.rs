//! In-memory log ring buffer.
//!
//! While the terminal is owned by an interactive display, log output is appended
//! line by line to a bounded buffer that the display renders.

use crate::text::trim_end;
use std::collections::VecDeque;
use vstd::prelude::*;

verus! {

/// How many recent log lines to retain.
pub const CAPACITY: usize = 1000;

/// What the standard library makes of bytes as text, with a replacement character
/// for what is not UTF-8.
pub uninterp spec fn lossy_text(bytes: Seq<u8>) -> Seq<char>;

/// `String::from_utf8_lossy`: depends on the bytes alone, and gives the text that
/// they encode where they are UTF-8.
#[verifier::external_body]
fn from_utf8_lossy(bytes: &[u8]) -> (r: String)
    ensures
        r@ == lossy_text(bytes@),
        vstd::utf8::valid_utf8(bytes@) ==> r@ == vstd::utf8::decode_utf8(bytes@),
{
    String::from_utf8_lossy(bytes).into_owned()
}

/// The captured log lines, oldest first.
#[derive(Debug)]
pub struct LogBuffer {
    lines: VecDeque<String>,
}

impl View for LogBuffer {
    type V = Seq<Seq<char>>;

    closed spec fn view(&self) -> Seq<Seq<char>> {
        crate::client::string_texts(self.lines@)
    }
}

/// The lines after one more, with the oldest dropped where there is no room.
pub open spec fn pushed(lines: Seq<Seq<char>>, line: Seq<char>) -> Seq<Seq<char>> {
    if lines.len() >= CAPACITY {
        lines.drop_first().push(line)
    } else {
        lines.push(line)
    }
}

/// The text of a line's bytes: what they encode where they are UTF-8.
pub open spec fn line_text(bytes: Seq<u8>) -> Seq<char> {
    if vstd::utf8::valid_utf8(bytes) {
        vstd::utf8::decode_utf8(bytes)
    } else {
        lossy_text(bytes)
    }
}

/// The lines and the pending part of a line after `data` was written.
pub open spec fn written(
    lines: Seq<Seq<char>>,
    pending: Seq<u8>,
    data: Seq<u8>,
) -> (Seq<Seq<char>>, Seq<u8>)
    decreases data.len(),
{
    if data.len() == 0 {
        (lines, pending)
    } else {
        let (l, p) = written(lines, pending, data.drop_last());
        if data.last() == 0x0a {
            (pushed(l, crate::text::trimmed_end(line_text(p))), Seq::empty())
        } else {
            (l, p.push(data.last()))
        }
    }
}

/// Creates an empty log buffer.
pub fn new_buffer() -> (r: LogBuffer)
    ensures
        r@ == Seq::<Seq<char>>::empty(),
{
    let r = LogBuffer { lines: VecDeque::with_capacity(CAPACITY) };
    proof {
        assert(r@ =~= Seq::<Seq<char>>::empty());
    }
    r
}

impl LogBuffer {
    /// How many lines there are.
    pub fn len(&self) -> (r: usize)
        ensures
            r == self@.len(),
    {
        self.lines.len()
    }

    /// The line number `i`, counted from the oldest.
    pub fn line(&self, i: usize) -> (r: Option<&str>)
        ensures
            match r {
                Some(s) => i < self@.len() && s@ == self@[i as int],
                None => i >= self@.len(),
            },
    {
        if i < self.lines.len() {
            Some(self.lines[i].as_str())
        } else {
            None
        }
    }

    fn push(&mut self, line: &str)
        requires
            old(self)@.len() <= CAPACITY,
        ensures
            final(self)@ == pushed(old(self)@, line@),
            final(self)@.len() <= CAPACITY,
    {
        let ghost before = self@;
        if self.lines.len() >= CAPACITY {
            let _ = self.lines.pop_front();
            proof {
                assert(self@ =~= before.drop_first());
            }
        }
        let ghost mid = self@;
        self.lines.push_back(line.to_owned());
        proof {
            assert(self@ =~= mid.push(line@));
        }
    }
}

/// Splits `data` on newlines and appends the complete lines to the buffer, without
/// their trailing white space. `pending` carries an unfinished line from one write
/// to the next.
pub fn write_to(buf: &mut LogBuffer, pending: &mut Vec<u8>, data: &[u8]) -> (n: usize)
    requires
        old(buf)@.len() <= CAPACITY,
    ensures
        n == data@.len(),
        (final(buf)@, final(pending)@) == written(old(buf)@, old(pending)@, data@),
        final(buf)@.len() <= CAPACITY,
{
    let mut i: usize = 0;
    proof {
        assert(data@.take(0) =~= Seq::<u8>::empty());
    }
    while i < data.len()
        invariant
            i <= data@.len(),
            buf@.len() <= CAPACITY,
            (buf@, pending@) == written(old(buf)@, old(pending)@, data@.take(i as int)),
        decreases data@.len() - i,
    {
        proof {
            assert(data@.take(i + 1).drop_last() =~= data@.take(i as int));
            assert(data@.take(i + 1).last() == data@[i as int]);
        }
        if data[i] == 0x0a {
            let text: String = from_utf8_lossy(pending.as_slice());
            buf.push(trim_end(text.as_str()));
            pending.clear();
        } else {
            pending.push(data[i]);
        }
        i = i + 1;
    }
    proof {
        assert(data@.take(i as int) =~= data@);
    }
    data.len()
}

/// A sink that appends what is written to a buffer.
pub struct LogWriter {
    pub buf: LogBuffer,
    /// An unfinished line, carried from one write to the next.
    pub pending: Vec<u8>,
}

impl LogWriter {
    /// Writes `data`.
    pub fn write(&mut self, data: &[u8]) -> (n: usize)
        requires
            old(self).buf@.len() <= CAPACITY,
        ensures
            n == data@.len(),
            (final(self).buf@, final(self).pending@) == written(
                old(self).buf@,
                old(self).pending@,
                data@,
            ),
            final(self).buf@.len() <= CAPACITY,
    {
        write_to(&mut self.buf, &mut self.pending, data)
    }
}

/// Makes writers on a buffer.
pub struct MakeLogWriter {
    pub buf: LogBuffer,
}

impl MakeLogWriter {
    /// A maker of writers on `buf`.
    pub fn new(buf: LogBuffer) -> (r: MakeLogWriter)
        ensures
            r.buf@ == buf@,
    {
        MakeLogWriter { buf }
    }

    /// The writer on the buffer, with nothing pending.
    pub fn make_writer(self) -> (r: LogWriter)
        ensures
            r.buf@ == self.buf@,
            r.pending@ == Seq::<u8>::empty(),
    {
        LogWriter { buf: self.buf, pending: Vec::new() }
    }
}

/// The lines after several more.
pub open spec fn all_pushed(lines: Seq<Seq<char>>, more: Seq<Seq<char>>) -> Seq<Seq<char>>
    decreases more.len(),
{
    if more.len() == 0 {
        lines
    } else {
        pushed(all_pushed(lines, more.drop_last()), more.last())
    }
}

/// The buffer holds the most recent lines, as many as it has room for, in order.
pub proof fn law_keeps_newest(more: Seq<Seq<char>>)
    ensures
        ({
            let n = if more.len() <= CAPACITY { more.len() as int } else { CAPACITY as int };
            all_pushed(Seq::empty(), more) == more.skip(more.len() - n)
        }),
    decreases more.len(),
{
    if more.len() > 0 {
        let t = more.drop_last();
        law_keeps_newest(t);
        let n = if more.len() <= CAPACITY { more.len() as int } else { CAPACITY as int };
        assert(all_pushed(Seq::empty(), more) =~= more.skip(more.len() - n));
    } else {
        assert(more.skip(0) =~= Seq::<Seq<char>>::empty());
    }
}

/// The buffer never holds more lines than it has room for.
pub proof fn law_bounded(lines: Seq<Seq<char>>, pending: Seq<u8>, data: Seq<u8>)
    requires
        lines.len() <= CAPACITY,
    ensures
        written(lines, pending, data).0.len() <= CAPACITY,
    decreases data.len(),
{
    if data.len() > 0 {
        law_bounded(lines, pending, data.drop_last());
    }
}

/// How a text is cut into writes does not matter.
pub proof fn law_writes_compose(
    lines: Seq<Seq<char>>,
    pending: Seq<u8>,
    a: Seq<u8>,
    b: Seq<u8>,
)
    ensures
        ({
            let (l, p) = written(lines, pending, a);
            written(lines, pending, a + b) == written(l, p, b)
        }),
    decreases b.len(),
{
    if b.len() == 0 {
        assert(a + b =~= a);
    } else {
        law_writes_compose(lines, pending, a, b.drop_last());
        assert((a + b).drop_last() =~= a + b.drop_last());
        assert((a + b).last() == b.last());
    }
}

/// Lines of bytes, each with its newline.
pub open spec fn with_newlines(raw: Seq<Seq<u8>>) -> Seq<u8>
    decreases raw.len(),
{
    if raw.len() == 0 {
        Seq::empty()
    } else {
        with_newlines(raw.drop_last()) + raw.last().push(0x0a)
    }
}

/// The texts of lines of bytes, without their trailing white space.
pub open spec fn line_texts(raw: Seq<Seq<u8>>) -> Seq<Seq<char>> {
    raw.map_values(|b: Seq<u8>| crate::text::trimmed_end(line_text(b)))
}

/// No newline occurs in the bytes.
pub open spec fn one_line(bytes: Seq<u8>) -> bool {
    forall|i: int| 0 <= i < bytes.len() ==> #[trigger] bytes[i] != 0x0a
}

/// Bytes without a newline are added to the unfinished line.
proof fn lemma_unfinished(lines: Seq<Seq<char>>, pending: Seq<u8>, data: Seq<u8>)
    requires
        one_line(data),
    ensures
        written(lines, pending, data) == (lines, pending + data),
    decreases data.len(),
{
    if data.len() == 0 {
        assert(pending + data =~= pending);
    } else {
        let t = data.drop_last();
        assert forall|i: int| 0 <= i < t.len() implies #[trigger] t[i] != 0x0a by {
            assert(t[i] == data[i]);
        }
        lemma_unfinished(lines, pending, t);
        assert(data[data.len() - 1] != 0x0a);
        assert((pending + t).push(data.last()) =~= pending + data);
    }
}

/// Lines that are written, with nothing pending, are added with their texts one by
/// one, and what follows the last newline stays pending.
pub proof fn law_lines_are_pushed(lines: Seq<Seq<char>>, raw: Seq<Seq<u8>>, rest: Seq<u8>)
    requires
        forall|i: int| 0 <= i < raw.len() ==> one_line(#[trigger] raw[i]),
        one_line(rest),
    ensures
        written(lines, Seq::empty(), with_newlines(raw) + rest) == (
            all_pushed(lines, line_texts(raw)),
            rest,
        ),
    decreases raw.len(),
{
    let none = Seq::<u8>::empty();
    let whole = with_newlines(raw);
    if raw.len() > 0 {
        let before = raw.drop_last();
        let last = raw.last();
        let data = last.push(0x0a);
        assert(one_line(raw[raw.len() - 1]));
        law_lines_are_pushed(lines, before, none);
        assert(with_newlines(before) + none =~= with_newlines(before));
        let l = all_pushed(lines, line_texts(before));
        law_writes_compose(lines, none, with_newlines(before), data);
        lemma_unfinished(l, none, last);
        assert(none + last =~= last);
        assert(data.drop_last() =~= last);
        assert(line_texts(raw).drop_last() =~= line_texts(before));
        assert(line_texts(raw).last() == crate::text::trimmed_end(line_text(last)));
        assert(written(lines, none, whole) == (all_pushed(lines, line_texts(raw)), none));
    }
    law_writes_compose(lines, none, whole, rest);
    lemma_unfinished(all_pushed(lines, line_texts(raw)), none, rest);
    assert(none + rest =~= rest);
}

/// A new buffer that lines are written to holds the newest of them, as many as it has
/// room for, in order.
pub proof fn law_holds_newest_written(raw: Seq<Seq<u8>>, rest: Seq<u8>)
    requires
        forall|i: int| 0 <= i < raw.len() ==> one_line(#[trigger] raw[i]),
        one_line(rest),
    ensures
        ({
            let n = if raw.len() <= CAPACITY { raw.len() as int } else { CAPACITY as int };
            written(Seq::empty(), Seq::empty(), with_newlines(raw) + rest) == (
                line_texts(raw).skip(raw.len() - n),
                rest,
            )
        }),
{
    law_lines_are_pushed(Seq::empty(), raw, rest);
    law_keeps_newest(line_texts(raw));
}

/// A line that was written as text is kept as that text, but for the blanks at its end.
pub proof fn law_text_is_kept(lines: Seq<Seq<char>>, s: Seq<char>)
    requires
        one_line(vstd::utf8::encode_utf8(s)),
    ensures
        line_text(vstd::utf8::encode_utf8(s)) == s,
        written(lines, vstd::utf8::encode_utf8(s), seq![0x0au8]).0.last()
            == crate::text::trimmed_end(s),
        written(lines, vstd::utf8::encode_utf8(s), seq![0x0au8]).1.len() == 0,
{
    vstd::utf8::encode_utf8_valid_utf8(s);
    vstd::utf8::encode_utf8_decode_utf8(s);
    let nl = seq![0x0au8];
    assert(nl.drop_last() =~= Seq::<u8>::empty());
    reveal_with_fuel(written, 2);
}

} // verus!
