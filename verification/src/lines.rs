//! Lines of bounded length out of a stream of bytes.

use crate::text;
use crate::text::{from_chars, strip_end_chars, to_chars};
use vstd::prelude::*;
use vstd::slice::slice_subrange;
use vstd::utf8;

verus! {

/// The text that bytes stand for when every invalid part is replaced.
pub uninterp spec fn lossy_text(bytes: Seq<u8>) -> Seq<char>;

/// `String::from_utf8_lossy`: the text depends on the bytes alone, and is named
/// `lossy_text`. Bytes that are valid UTF-8 are kept as they are.
#[verifier::external_body]
fn utf8_lossy(bytes: &[u8]) -> (s: String)
    ensures
        s@ == lossy_text(bytes@),
        utf8::valid_utf8(bytes@) ==> s@ == utf8::decode_utf8(bytes@),
{
    String::from_utf8_lossy(bytes).into_owned()
}

/// Where the first line feed stands, or where the bytes end.
pub open spec fn line_end(bytes: Seq<u8>) -> nat
    decreases bytes.len(),
{
    if bytes.len() == 0 || bytes[0] == 10 {
        0
    } else {
        1 + line_end(bytes.drop_first())
    }
}

/// A line feed stands among the bytes.
pub open spec fn has_line_feed(bytes: Seq<u8>) -> bool {
    line_end(bytes) < bytes.len()
}

proof fn lemma_line_end(bytes: Seq<u8>)
    ensures
        line_end(bytes) <= bytes.len(),
    decreases bytes.len(),
{
    if bytes.len() > 0 && bytes[0] != 10 {
        lemma_line_end(bytes.drop_first());
    }
}

/// What has been read of a line: the bytes that are kept, and whether there were
/// more.
pub struct PartialLineView {
    pub limit: nat,
    pub kept: Seq<u8>,
    pub too_long: bool,
}

impl PartialLineView {
    /// A line of which nothing has been read.
    pub open spec fn start(limit: nat) -> PartialLineView {
        PartialLineView { limit, kept: Seq::empty(), too_long: false }
    }

    /// The line with more bytes of it.
    pub open spec fn extended(self, bytes: Seq<u8>) -> PartialLineView {
        let all = self.kept + bytes;
        PartialLineView {
            kept: if all.len() <= self.limit {
                all
            } else {
                all.take(self.limit as int)
            },
            too_long: self.too_long || all.len() > self.limit,
            ..self
        }
    }

    /// The line with what the next bytes of the stream say of it.
    pub open spec fn fed(self, buffer: Seq<u8>) -> PartialLineView {
        self.extended(buffer.take(line_end(buffer) as int))
    }

    /// The text of the line without carriage returns at its end.
    pub open spec fn text(self) -> Seq<char> {
        text::strip_end(lossy_text(self.kept), '\r')
    }

    /// The text of a line that is valid UTF-8, without carriage returns at its
    /// end.
    pub open spec fn plain_text(self) -> Seq<char> {
        text::strip_end(utf8::decode_utf8(self.kept), '\r')
    }

    /// The line that is left when the stream has ended, and whether it was cut.
    pub open spec fn left_over(self) -> Option<(Seq<char>, bool)> {
        if self.kept.len() == 0 {
            None
        } else {
            Some((self.text(), self.too_long))
        }
    }

    /// No more bytes are kept than the limit allows.
    pub open spec fn bounded(self) -> bool {
        self.kept.len() <= self.limit
    }
}

/// The mathematical form of a line.
pub open spec fn line_view(line: Option<(String, bool)>) -> Option<(Seq<char>, bool)> {
    match line {
        Some((s, too_long)) => Some((s@, too_long)),
        None => None,
    }
}

/// A line that is being read.
pub struct PartialLine {
    limit: usize,
    kept: Vec<u8>,
    too_long: bool,
}

impl View for PartialLine {
    type V = PartialLineView;

    closed spec fn view(&self) -> PartialLineView {
        PartialLineView {
            limit: self.limit as nat,
            kept: self.kept@,
            too_long: self.too_long,
        }
    }
}

/// What came of a buffer: how many bytes were used up, and whether the line is
/// complete.
#[derive(Clone, Copy, Debug, PartialEq, Eq, Structural)]
pub struct Fed {
    pub consumed: usize,
    pub complete: bool,
}

/// What a buffer is good for: its bytes up to the first line feed and that line
/// feed are used up, and a line feed completes the line.
pub open spec fn fed_by(buffer: Seq<u8>) -> (nat, bool) {
    if has_line_feed(buffer) {
        (line_end(buffer) + 1, true)
    } else {
        (buffer.len(), false)
    }
}

fn find_line_feed(buffer: &[u8]) -> (n: usize)
    ensures
        n == line_end(buffer@),
        n <= buffer@.len(),
{
    let mut n: usize = 0;
    assert(buffer@.skip(0) =~= buffer@);
    while n < buffer.len() && buffer[n] != 10
        invariant
            n <= buffer@.len(),
            line_end(buffer@) == n + line_end(buffer@.skip(n as int)),
        decreases buffer@.len() - n,
    {
        assert(buffer@.skip(n as int).drop_first() =~= buffer@.skip(n + 1));
        n += 1;
    }
    assert(line_end(buffer@.skip(n as int)) == 0);
    n
}

impl PartialLine {
    pub fn new(limit: usize) -> (line: PartialLine)
        ensures
            line@ == PartialLineView::start(limit as nat),
            line@.bounded(),
    {
        PartialLine { limit, kept: Vec::new(), too_long: false }
    }

    /// Takes the next bytes of the stream.
    pub fn feed(&mut self, buffer: &[u8]) -> (fed: Fed)
        requires
            old(self)@.bounded(),
        ensures
            final(self)@ == old(self)@.fed(buffer@),
            final(self)@.bounded(),
            fed.consumed == fed_by(buffer@).0,
            fed.complete == fed_by(buffer@).1,
    {
        let end: usize = find_line_feed(buffer);
        let ghost content = buffer@.take(end as int);
        let ghost all = self.kept@ + content;
        if self.kept.len() < self.limit {
            let remaining: usize = self.limit - self.kept.len();
            let take: usize = if remaining < end {
                remaining
            } else {
                end
            };
            self.kept.extend_from_slice(slice_subrange(buffer, 0, take));
            if take < end {
                self.too_long = true;
                assert(self.kept@ =~= all.take(self.limit as int));
            } else {
                assert(self.kept@ =~= all);
            }
        } else if end > 0 {
            self.too_long = true;
            assert(self.kept@ =~= all.take(self.limit as int));
        } else {
            assert(self.kept@ =~= all);
        }
        if end < buffer.len() {
            Fed { consumed: end + 1, complete: true }
        } else {
            Fed { consumed: buffer.len(), complete: false }
        }
    }

    /// The line as it stands: its text, and whether it was cut.
    pub fn line(&self) -> (r: (String, bool))
        ensures
            r.0@ == self@.text(),
            utf8::valid_utf8(self@.kept) ==> r.0@ == self@.plain_text(),
            r.1 == self@.too_long,
    {
        (without_returns(utf8_lossy(self.kept.as_slice()).as_str()), self.too_long)
    }

    /// What is left when the stream has ended: a line, unless nothing of it was
    /// kept.
    pub fn at_end(&self) -> (r: Option<(String, bool)>)
        ensures
            line_view(r) == self@.left_over(),
            match r {
                None => self@.kept.len() == 0,
                Some(line) => {
                    &&& self@.kept.len() > 0
                    &&& line.0@ == self@.text()
                    &&& utf8::valid_utf8(self@.kept) ==> line.0@ == self@.plain_text()
                    &&& line.1 == self@.too_long
                },
            },
    {
        if self.kept.len() == 0 {
            None
        } else {
            Some(self.line())
        }
    }
}

/// The text without carriage returns at its end.
pub fn without_returns(s: &str) -> (r: String)
    ensures
        r@ == text::strip_end(s@, '\r'),
{
    let chars: Vec<char> = to_chars(s);
    from_chars(strip_end_chars(chars.as_slice(), '\r'))
}

/// The first line of the bytes, whether it was cut, and how many bytes it used up.
pub open spec fn first_line(bytes: Seq<u8>, limit: nat) -> Option<((Seq<char>, bool), nat)> {
    let line = PartialLineView::start(limit).fed(bytes);
    if has_line_feed(bytes) || line.kept.len() > 0 {
        Some(((line.text(), line.too_long), fed_by(bytes).0))
    } else {
        None
    }
}

/// Reads the first line out of bytes that are there all at once. Returned are
/// its text, whether it was cut, and how many bytes were used up. There is no
/// line where the bytes end before anything was kept.
pub fn read_bounded_line(bytes: &[u8], limit: usize) -> (r: Option<((String, bool), usize)>)
    ensures
        match r {
            Some((line, consumed)) => first_line(bytes@, limit as nat) == Some(
                ((line.0@, line.1), consumed as nat),
            ),
            None => first_line(bytes@, limit as nat) is None,
        },
        ({
            let line = PartialLineView::start(limit as nat).fed(bytes@);
            match r {
                None => !has_line_feed(bytes@) && line.kept.len() == 0,
                Some(((s, too_long), consumed)) => {
                    &&& has_line_feed(bytes@) || line.kept.len() > 0
                    &&& s@ == line.text()
                    &&& utf8::valid_utf8(line.kept) ==> s@ == line.plain_text()
                    &&& too_long == line.too_long
                    &&& consumed == fed_by(bytes@).0
                },
            }
        }),
{
    let mut line: PartialLine = PartialLine::new(limit);
    let fed: Fed = line.feed(bytes);
    if fed.complete {
        Some((line.line(), fed.consumed))
    } else {
        match line.at_end() {
            None => None,
            Some(l) => Some((l, fed.consumed)),
        }
    }
}

/// What the input brings: a line, a line that was cut, or its end.
#[derive(Clone, Debug, PartialEq, Eq)]
pub enum InputEvent {
    Line(String),
    TooLong,
    Eof,
}

/// What a line that was read, or its absence, means.
pub open spec fn event_of(line: Option<(String, bool)>) -> InputEvent {
    match line {
        None => InputEvent::Eof,
        Some((s, too_long)) => if too_long {
            InputEvent::TooLong
        } else {
            InputEvent::Line(s)
        },
    }
}

/// What reading a line comes to. A line that was cut is not handed on.
pub fn input_event(line: Option<(String, bool)>) -> (e: InputEvent)
    ensures
        e == event_of(line),
        match line {
            None => e == InputEvent::Eof,
            Some((s, too_long)) => e == if too_long {
                InputEvent::TooLong
            } else {
                InputEvent::Line(s)
            },
        },
{
    match line {
        None => InputEvent::Eof,
        Some((s, too_long)) => if too_long {
            InputEvent::TooLong
        } else {
            InputEvent::Line(s)
        },
    }
}

// ---------------------------------------------------------------------------
// Laws
// ---------------------------------------------------------------------------

proof fn lemma_line_end_append(a: Seq<u8>, b: Seq<u8>)
    requires
        !has_line_feed(a),
    ensures
        line_end(a + b) == a.len() + line_end(b),
    decreases a.len(),
{
    lemma_line_end(a);
    if a.len() == 0 {
        assert(a + b =~= b);
    } else {
        lemma_line_end_append(a.drop_first(), b);
        assert((a + b).drop_first() =~= a.drop_first() + b);
    }
}

/// How the stream is cut into buffers does not matter: a buffer without a line
/// feed and the next one do what both do together.
pub proof fn law_buffers_do_not_matter(line: PartialLineView, a: Seq<u8>, b: Seq<u8>)
    requires
        line.bounded(),
        !has_line_feed(a),
    ensures
        line.fed(a).fed(b) == line.fed(a + b),
{
    lemma_line_end(a);
    lemma_line_end(b);
    lemma_line_end_append(a, b);
    let content = b.take(line_end(b) as int);
    assert(a.take(line_end(a) as int) =~= a);
    assert((a + b).take(line_end(a + b) as int) =~= a + content);
    let all = line.kept + (a + content);
    assert(all =~= line.kept + a + content);
    let one = line.fed(a).fed(b);
    let two = line.fed(a + b);
    if line.kept.len() + a.len() > line.limit {
        let cut = (line.kept + a).take(line.limit as int);
        assert(cut + content =~= cut || content.len() > 0);
        assert((cut + content).take(line.limit as int) =~= all.take(line.limit as int));
    }
    assert(one.kept =~= two.kept);
}

/// A line is cut exactly when it is longer than the limit; what is kept is the
/// start of it, and the whole line is used up either way.
pub proof fn law_long_lines_are_drained(content: Seq<u8>, rest: Seq<u8>, limit: nat)
    requires
        !has_line_feed(content),
    ensures
        ({
            let bytes = content + seq![10u8] + rest;
            let line = PartialLineView::start(limit).fed(bytes);
            &&& line.too_long <==> content.len() > limit
            &&& line.kept == if content.len() > limit {
                content.take(limit as int)
            } else {
                content
            }
            &&& fed_by(bytes) == (content.len() + 1, true)
        }),
{
    let bytes = content + seq![10u8] + rest;
    let tail = seq![10u8] + rest;
    assert(bytes =~= content + tail);
    assert(tail[0] == 10);
    lemma_line_end_append(content, tail);
    assert(bytes.take(content.len() as int) =~= content);
    let line = PartialLineView::start(limit).fed(bytes);
    assert(Seq::<u8>::empty() + content =~= content);
}

/// The first line feed, or the end of the bytes.
pub proof fn law_line_end(bytes: Seq<u8>, n: int)
    requires
        0 <= n <= bytes.len(),
        forall|i: int| 0 <= i < n ==> #[trigger] bytes[i] != 10,
        n < bytes.len() ==> bytes[n] == 10,
    ensures
        line_end(bytes) == n,
        has_line_feed(bytes) <==> n < bytes.len(),
        fed_by(bytes) == (if n < bytes.len() {
            ((n + 1) as nat, true)
        } else {
            (n as nat, false)
        }),
    decreases bytes.len(),
{
    if n > 0 {
        let rest = bytes.drop_first();
        assert forall|i: int| 0 <= i < n - 1 implies #[trigger] rest[i] != 10 by {
            assert(rest[i] == bytes[i + 1]);
        }
        law_line_end(rest, n - 1);
    }
}

/// Of a line up to the limit everything is kept, of a longer one the start; it is
/// cut exactly when something was left out.
pub proof fn law_line_is_kept(line: PartialLineView, buffer: Seq<u8>)
    requires
        line.bounded(),
    ensures
        ({
            let content = buffer.take(line_end(buffer) as int);
            let t = line.fed(buffer);
            &&& t.limit == line.limit
            &&& t.kept.len() == if line.kept.len() + content.len() <= line.limit {
                line.kept.len() + content.len()
            } else {
                line.limit
            }
            &&& t.kept == (line.kept + content).take(t.kept.len() as int)
            &&& t.too_long <==> line.too_long || line.kept.len() + content.len() > line.limit
        }),
{
    lemma_line_end(buffer);
    let content = buffer.take(line_end(buffer) as int);
    let all = line.kept + content;
    assert(all.take(all.len() as int) =~= all);
}

/// The text of a line is what was kept, without the carriage returns at its end.
pub proof fn law_line_text(line: PartialLineView)
    ensures
        ({
            let whole = lossy_text(line.kept);
            let t = line.text();
            &&& t.len() <= whole.len()
            &&& t == whole.take(t.len() as int)
            &&& forall|i: int| t.len() <= i < whole.len() ==> #[trigger] whole[i] == '\r'
            &&& t.len() > 0 ==> t.last() != '\r'
        }),
        ({
            let whole = utf8::decode_utf8(line.kept);
            let t = line.plain_text();
            &&& t.len() <= whole.len()
            &&& t == whole.take(t.len() as int)
            &&& forall|i: int| t.len() <= i < whole.len() ==> #[trigger] whole[i] == '\r'
            &&& t.len() > 0 ==> t.last() != '\r'
        }),
{
    crate::text_laws::law_strip_end(lossy_text(line.kept), '\r');
    crate::text_laws::law_strip_end(utf8::decode_utf8(line.kept), '\r');
}

/// There is a line where a line feed ends it or something of it was kept; with
/// nothing more to read there is one only in the latter case.
pub proof fn law_there_is_a_line(bytes: Seq<u8>, limit: nat, line: PartialLineView)
    ensures
        first_line(bytes, limit) is Some <==> (exists|i: int|
            0 <= i < bytes.len() && #[trigger] bytes[i] == 10) || (bytes.len() > 0 && limit > 0),
        first_line(bytes, limit) matches Some((l, used)) ==> {
            &&& l == (
                PartialLineView::start(limit).fed(bytes).text(),
                PartialLineView::start(limit).fed(bytes).too_long,
            )
            &&& used == fed_by(bytes).0
        },
        line.left_over() == (if line.kept.len() > 0 {
            Some((line.text(), line.too_long))
        } else {
            None
        }),
{
    lemma_feed_place(bytes);
    law_line_is_kept(PartialLineView::start(limit), bytes);
    if exists|i: int| 0 <= i < bytes.len() && #[trigger] bytes[i] == 10 {
        let i = choose|i: int| 0 <= i < bytes.len() && #[trigger] bytes[i] == 10;
        if !has_line_feed(bytes) {
            assert(bytes[i] != 10);
        }
    }
    if has_line_feed(bytes) {
        assert(bytes[line_end(bytes) as int] == 10);
    }
}

/// No line feed stands before the end of the line, and one stands there if it is
/// not the end of the bytes.
proof fn lemma_feed_place(bytes: Seq<u8>)
    ensures
        line_end(bytes) <= bytes.len(),
        forall|i: int| 0 <= i < line_end(bytes) ==> #[trigger] bytes[i] != 10,
        line_end(bytes) < bytes.len() ==> bytes[line_end(bytes) as int] == 10,
    decreases bytes.len(),
{
    if bytes.len() > 0 && bytes[0] != 10 {
        let rest = bytes.drop_first();
        lemma_feed_place(rest);
        assert forall|i: int| 0 <= i < line_end(bytes) implies #[trigger] bytes[i] != 10 by {
            if i > 0 {
                assert(rest[i - 1] == bytes[i]);
            }
        }
        if line_end(bytes) < bytes.len() {
            assert(rest[line_end(rest) as int] == bytes[line_end(bytes) as int]);
        }
    }
}

/// A line is handed on unless it was cut; without one the input has ended.
pub proof fn law_input_events(s: String)
    ensures
        event_of(None) == InputEvent::Eof,
        event_of(Some((s, true))) == InputEvent::TooLong,
        event_of(Some((s, false))) == InputEvent::Line(s),
{
}

} // verus!
