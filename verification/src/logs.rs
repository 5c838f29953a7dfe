//! The output of an agent process as log lines: how bytes that arrive in
//! arbitrary portions become lines, and how a line is stamped.
use vstd::prelude::*;
use vstd::utf8::{decode_utf8, valid_utf8};

use crate::clock::{datable, format_utc, utc_now, utc_text, LOG_TIME_FORMAT};
use crate::text::{chars_of, opt_view, string_of, views};
use crate::utf8::{
    lemma_decode_concat, lemma_portions_join, lemma_whole_part_is_valid, unfinished_len, unfinished_part, whole_part,
};

verus! {

// ---------------------------------------------------------------------------
// Time stamps
// ---------------------------------------------------------------------------

/// A line behind the time at which it was logged.
pub open spec fn stamped(time: Seq<char>, line: Seq<char>) -> Seq<char> {
    "["@ + time + "] "@ + line
}

/// The lines behind the same time, each ended by a newline.
pub open spec fn stamped_lines(time: Seq<char>, lines: Seq<Seq<char>>) -> Seq<char>
    decreases lines.len(),
{
    if lines.len() == 0 {
        Seq::empty()
    } else {
        stamped_lines(time, lines.drop_last()) + stamped(time, lines.last()) + "\n"@
    }
}

/// Puts the given time in front of a line:
/// `[YYYY-MM-DD HH:MM:SS UTC] <line>`.
pub fn timestamp_line_at(secs: i64, line: &str) -> (out: String)
    requires
        datable(secs as int, 0),
    ensures
        out@ == stamped(utc_text(secs, LOG_TIME_FORMAT@), line@),
{
    let mut out = "[".to_string();
    out.append(format_utc(secs, LOG_TIME_FORMAT).as_str());
    out.append("] ");
    out.append(line);
    out
}

/// Puts the current time in front of a line for log file output.
pub fn timestamp_line(line: &str) -> (out: String)
    ensures
        exists|secs: i64|
            datable(secs as int, 0) && out@ == #[trigger] stamped(
                utc_text(secs, LOG_TIME_FORMAT@),
                line@,
            ),
{
    let (secs, _nanos) = utc_now();
    timestamp_line_at(secs, line)
}

/// Puts the given time in front of every line of a text.
pub fn timestamp_log_string_at(secs: i64, text: &str) -> (out: String)
    requires
        datable(secs as int, 0),
    ensures
        out@ == stamped_lines(utc_text(secs, LOG_TIME_FORMAT@), all_lines(text@)),
{
    let lines = lines_of(text);
    let mut out = String::new();
    let mut i: usize = 0;
    let ghost time = utc_text(secs, LOG_TIME_FORMAT@);
    assert(views(lines@).take(0) =~= Seq::<Seq<char>>::empty());
    while i < lines.len()
        invariant
            i <= lines.len(),
            datable(secs as int, 0),
            time == utc_text(secs, LOG_TIME_FORMAT@),
            out@ == stamped_lines(time, views(lines@).take(i as int)),
        decreases lines.len() - i,
    {
        let line = timestamp_line_at(secs, lines[i].as_str());
        out.append(line.as_str());
        out.append("\n");
        i += 1;
        assert(views(lines@).take(i as int).drop_last() =~= views(lines@).take(i - 1));
        assert(views(lines@).take(i as int).last() == lines@[i - 1]@);
    }
    assert(views(lines@).take(i as int) =~= views(lines@));
    out
}

/// Puts the current time in front of every line of a text.
pub fn timestamp_log_string(text: &str) -> (out: String)
    ensures
        exists|secs: i64|
            datable(secs as int, 0) && out@ == #[trigger] stamped_lines(
                utc_text(secs, LOG_TIME_FORMAT@),
                all_lines(text@),
            ),
{
    let (secs, _nanos) = utc_now();
    timestamp_log_string_at(secs, text)
}

// ---------------------------------------------------------------------------
// Lines
// ---------------------------------------------------------------------------

/// A line without the carriage return that may stand before its newline.
pub open spec fn without_cr(line: Seq<char>) -> Seq<char> {
    if line.len() > 0 && line.last() == '\r' {
        line.drop_last()
    } else {
        line
    }
}

/// A text as the lines that a newline ends, and what stands behind the last
/// newline.
pub open spec fn split_lines(s: Seq<char>) -> (Seq<Seq<char>>, Seq<char>)
    decreases s.len(),
{
    if s.len() == 0 {
        (Seq::empty(), Seq::empty())
    } else {
        let (lines, tail) = split_lines(s.drop_last());
        if s.last() == '\n' {
            (lines.push(without_cr(tail)), Seq::empty())
        } else {
            (lines, tail.push(s.last()))
        }
    }
}

/// All lines of a text: those that a newline ends, and the rest behind the
/// last newline unless it is empty.
pub open spec fn all_lines(s: Seq<char>) -> Seq<Seq<char>> {
    let (lines, tail) = split_lines(s);
    if tail.len() == 0 {
        lines
    } else {
        lines.push(tail)
    }
}

/// The lines, each followed by a newline.
pub open spec fn with_newlines(lines: Seq<Seq<char>>) -> Seq<char>
    decreases lines.len(),
{
    if lines.len() == 0 {
        Seq::empty()
    } else {
        with_newlines(lines.drop_last()) + lines.last() + seq!['\n']
    }
}

/// Splits a text at its newlines.
fn split_text(text: &Vec<char>) -> (out: (Vec<String>, Vec<char>))
    ensures
        (views(out.0@), out.1@) == split_lines(text@),
{
    let mut lines: Vec<String> = Vec::new();
    let mut tail: Vec<char> = Vec::new();
    let mut i: usize = 0;
    assert(views(lines@) =~= Seq::<Seq<char>>::empty());
    assert(text@.take(0) =~= Seq::<char>::empty());
    while i < text.len()
        invariant
            i <= text.len(),
            (views(lines@), tail@) == split_lines(text@.take(i as int)),
        decreases text.len() - i,
    {
        let ghost before = views(lines@);
        let c = text[i];
        i += 1;
        assert(text@.take(i as int).drop_last() =~= text@.take(i - 1));
        assert(text@.take(i as int).last() == c);
        if c == '\n' {
            if tail.len() > 0 && tail[tail.len() - 1] == '\r' {
                let ghost whole = tail@;
                let _ = tail.pop();
                assert(tail@ =~= whole.drop_last());
            }
            let line = string_of(&tail);
            lines.push(line);
            assert(views(lines@) =~= before.push(line@));
            tail = Vec::new();
            assert(tail@ =~= Seq::<char>::empty());
        } else {
            tail.push(c);
        }
    }
    assert(text@.take(i as int) =~= text@);
    (lines, tail)
}

/// All lines of a text.
pub fn lines_of(text: &str) -> (lines: Vec<String>)
    ensures
        views(lines@) == all_lines(text@),
{
    let (mut lines, tail) = split_text(&chars_of(text));
    if tail.len() > 0 {
        let ghost before = views(lines@);
        let last = string_of(&tail);
        lines.push(last);
        assert(views(lines@) =~= before.push(last@));
    }
    lines
}

// ---------------------------------------------------------------------------
// Draining a stream
// ---------------------------------------------------------------------------

/// The text that the standard library reads from bytes, with a replacement
/// character for each invalid part.
pub uninterp spec fn utf8_lossy(bytes: Seq<u8>) -> Seq<char>;

/// `String::from_utf8_lossy`: the text depends on the bytes alone, and bytes
/// that are valid UTF-8 are read as what they encode.
#[verifier::external_body]
fn decode_lossy(bytes: &[u8]) -> (text: String)
    ensures
        text@ == utf8_lossy(bytes@),
        valid_utf8(bytes@) ==> text@ == decode_utf8(bytes@),
{
    String::from_utf8_lossy(bytes).into_owned()
}

/// What bytes are read as: what they encode, or, where they are not valid
/// UTF-8, what the standard library makes of them.
pub open spec fn read_text(bytes: Seq<u8>) -> Seq<char> {
    if valid_utf8(bytes) {
        decode_utf8(bytes)
    } else {
        utf8_lossy(bytes)
    }
}

/// What has arrived on an output stream of a process and is not a complete
/// line yet, the bytes of a character that is not complete yet, and, if
/// wanted, a copy of everything that has been read.
pub struct StreamDrain {
    pub remainder: String,
    pub pending: Vec<u8>,
    pub capture: Option<String>,
}

/// The state of a stream.
pub struct DrainState {
    pub remainder: Seq<char>,
    pub pending: Seq<u8>,
    pub capture: Option<Seq<char>>,
}

/// A copy of what has been read, with more behind it, if a copy is wanted.
pub open spec fn captured(capture: Option<Seq<char>>, text: Seq<char>) -> Option<Seq<char>> {
    match capture {
        Some(c) => Some(c + text),
        None => None,
    }
}

impl DrainState {
    /// A stream on which nothing has arrived yet.
    pub open spec fn fresh(capture: bool) -> DrainState {
        DrainState {
            remainder: Seq::empty(),
            pending: Seq::empty(),
            capture: if capture {
                Some(Seq::empty())
            } else {
                None
            },
        }
    }

    /// The lines that a portion of text completes, and the state after it.
    pub open spec fn fed_text(self, text: Seq<char>) -> (Seq<Seq<char>>, DrainState) {
        let (lines, remainder) = split_lines(self.remainder + text);
        (
            lines,
            DrainState {
                remainder,
                pending: self.pending,
                capture: captured(self.capture, text),
            },
        )
    }

    /// The lines that a portion of bytes completes, and the state after it.
    /// The bytes of a character that is not complete wait for the rest of it.
    pub open spec fn fed(self, bytes: Seq<u8>) -> (Seq<Seq<char>>, DrainState) {
        let arrived = self.pending + bytes;
        let (lines, state) = self.fed_text(read_text(whole_part(arrived)));
        (lines, DrainState { pending: unfinished_part(arrived), ..state })
    }

    /// The lines that portions of bytes complete, and the state after them.
    pub open spec fn fed_all(self, portions: Seq<Seq<u8>>) -> (Seq<Seq<char>>, DrainState)
        decreases portions.len(),
    {
        if portions.len() == 0 {
            (Seq::empty(), self)
        } else {
            let (lines, state) = self.fed_all(portions.drop_last());
            let (more, after) = state.fed(portions.last());
            (lines + more, after)
        }
    }

    /// The line that is left when the stream has ended, and the state then.
    pub open spec fn ended(self) -> (Option<Seq<char>>, DrainState) {
        let rest = read_text(self.pending);
        let last = self.remainder + rest;
        (
            if last.len() > 0 {
                Some(last)
            } else {
                None
            },
            DrainState {
                remainder: Seq::empty(),
                pending: Seq::empty(),
                capture: captured(self.capture, rest),
            },
        )
    }
}

impl View for StreamDrain {
    type V = DrainState;

    open spec fn view(&self) -> DrainState {
        DrainState {
            remainder: self.remainder@,
            pending: self.pending@,
            capture: opt_view(self.capture),
        }
    }
}

fn read_bytes(bytes: &Vec<u8>) -> (text: String)
    ensures
        text@ == read_text(bytes@),
{
    decode_lossy(bytes.as_slice())
}

impl StreamDrain {
    /// A stream on which nothing has arrived yet.
    pub fn new(capture: bool) -> (drain: StreamDrain)
        ensures
            drain@ == DrainState::fresh(capture),
    {
        let drain = StreamDrain {
            remainder: String::new(),
            pending: Vec::new(),
            capture: if capture {
                Some(String::new())
            } else {
                None
            },
        };
        assert(drain.remainder@ =~= Seq::<char>::empty());
        assert(drain.pending@ =~= Seq::<u8>::empty());
        assert(capture ==> drain.capture->0@ =~= Seq::<char>::empty());
        drain
    }

    /// Takes a portion of text and returns the lines that it completes.
    pub fn feed_text(&mut self, chunk: &str) -> (lines: Vec<String>)
        ensures
            (views(lines@), final(self)@) == old(self)@.fed_text(chunk@),
    {
        if let Some(captured) = self.capture.as_mut() {
            captured.append(chunk);
        }
        let mut text = self.remainder.clone();
        text.append(chunk);
        let (lines, tail) = split_text(&chars_of(text.as_str()));
        self.remainder = string_of(&tail);
        lines
    }

    /// Takes a portion of bytes and returns the lines that it completes.
    pub fn feed(&mut self, bytes: &[u8]) -> (lines: Vec<String>)
        ensures
            (views(lines@), final(self)@) == old(self)@.fed(bytes@),
    {
        let mut arrived = self.pending.clone();
        assert(arrived@ =~= self.pending@);
        arrived.extend_from_slice(bytes);
        assert(arrived@ =~= self.pending@ + bytes@);
        let ghost all = arrived@;
        let rest = arrived.split_off(arrived.len() - unfinished_len(&arrived));
        assert(arrived@ =~= whole_part(all));
        assert(rest@ =~= unfinished_part(all));
        let chunk = read_bytes(&arrived);
        let lines = self.feed_text(chunk.as_str());
        self.pending = rest;
        lines
    }

    /// Ends the stream and returns the line that is left.
    pub fn finish(&mut self) -> (last: Option<String>)
        ensures
            (opt_view(last), final(self)@) == old(self)@.ended(),
    {
        let rest = read_bytes(&self.pending);
        if let Some(captured) = self.capture.as_mut() {
            captured.append(rest.as_str());
        }
        let mut last = self.remainder.clone();
        last.append(rest.as_str());
        self.remainder = String::new();
        self.pending = Vec::new();
        assert(self.remainder@ =~= Seq::<char>::empty());
        assert(self.pending@ =~= Seq::<u8>::empty());
        if last.as_str().is_empty() {
            None
        } else {
            Some(last)
        }
    }
}

// ---------------------------------------------------------------------------
// Laws
// ---------------------------------------------------------------------------

/// The lines of a stream do not depend on the portions in which its text
/// arrives: what a second portion completes, together with what the first one
/// left over, are the lines of the whole.
pub proof fn law_lines_ignore_chunking(a: Seq<char>, b: Seq<char>)
    ensures
        ({
            let (first, rest) = split_lines(a);
            let (second, tail) = split_lines(rest + b);
            split_lines(a + b) == (first + second, tail)
        }),
    decreases b.len(),
{
    let (first, rest) = split_lines(a);
    lemma_tail_is_one_piece(a);
    if b.len() == 0 {
        assert(rest + b =~= rest);
        assert(a + b =~= a);
        assert(first + Seq::<Seq<char>>::empty() =~= first);
    } else {
        law_lines_ignore_chunking(a, b.drop_last());
        assert((a + b).drop_last() =~= a + b.drop_last());
        assert((rest + b).drop_last() =~= rest + b.drop_last());
        let (second, tail) = split_lines(rest + b.drop_last());
        if b.last() == '\n' {
            assert(first + second.push(without_cr(tail)) =~= (first + second).push(
                without_cr(tail),
            ));
        }
    }
}

proof fn lemma_newline_free_has_no_line(s: Seq<char>)
    requires
        forall|i: int| 0 <= i < s.len() ==> #[trigger] s[i] != '\n',
    ensures
        split_lines(s) == (Seq::<Seq<char>>::empty(), s),
    decreases s.len(),
{
    if s.len() > 0 {
        assert forall|i: int| 0 <= i < s.drop_last().len() implies #[trigger] s.drop_last()[i]
            != '\n' by {
            assert(s.drop_last()[i] == s[i]);
        }
        lemma_newline_free_has_no_line(s.drop_last());
        assert(s.drop_last().push(s.last()) =~= s);
        assert(s[s.len() - 1] != '\n');
    }
}

proof fn lemma_tail_is_one_piece(s: Seq<char>)
    ensures
        forall|i: int| 0 <= i < split_lines(s).1.len() ==> #[trigger] split_lines(s).1[i] != '\n',
        split_lines(split_lines(s).1) == (Seq::<Seq<char>>::empty(), split_lines(s).1),
    decreases s.len(),
{
    if s.len() > 0 {
        lemma_tail_is_one_piece(s.drop_last());
    }
    lemma_newline_free_has_no_line(split_lines(s).1);
}

/// The bytes of portions, one behind the other.
pub open spec fn all_bytes(portions: Seq<Seq<u8>>) -> Seq<u8>
    decreases portions.len(),
{
    if portions.len() == 0 {
        Seq::empty()
    } else {
        all_bytes(portions.drop_last()) + portions.last()
    }
}

proof fn lemma_drain_follows(portions: Seq<Seq<u8>>, bytes: Seq<u8>, capture: bool)
    requires
        valid_utf8(bytes),
        all_bytes(portions).len() <= bytes.len(),
        all_bytes(portions) == bytes.take(all_bytes(portions).len() as int),
    ensures
        ({
            let arrived = all_bytes(portions);
            let text = decode_utf8(whole_part(arrived));
            let (lines, state) = DrainState::fresh(capture).fed_all(portions);
            &&& valid_utf8(whole_part(arrived))
            &&& (lines, state.remainder) == split_lines(text)
            &&& state.pending == unfinished_part(arrived)
            &&& state.capture == if capture {
                Some(text)
            } else {
                None
            }
        }),
    decreases portions.len(),
{
    let arrived = all_bytes(portions);
    let fresh = DrainState::fresh(capture);
    if portions.len() == 0 {
        assert(whole_part(arrived) =~= Seq::<u8>::empty());
        assert(unfinished_part(arrived) =~= Seq::<u8>::empty());
        assert(decode_utf8(whole_part(arrived)) =~= Seq::<char>::empty());
    } else {
        let before = all_bytes(portions.drop_last());
        let last = portions.last();
        assert(before =~= bytes.take(before.len() as int)) by {
            assert(arrived.take(before.len() as int) =~= before);
            assert(bytes.take(arrived.len() as int).take(before.len() as int) =~= bytes.take(
                before.len() as int,
            ));
        }
        lemma_drain_follows(portions.drop_last(), bytes, capture);
        assert(bytes.subrange(before.len() as int, arrived.len() as int) =~= last) by {
            assert(arrived.skip(before.len() as int) =~= last);
        }
        lemma_portions_join(bytes, before.len() as int, arrived.len() as int);
        let read = whole_part(unfinished_part(before) + last);
        lemma_decode_concat(whole_part(before), read);
        let text = decode_utf8(whole_part(before));
        law_lines_ignore_chunking(text, decode_utf8(read));
    }
}

/// A stream of valid UTF-8 gives the lines of its text, and a copy that is its
/// text, however it is cut into portions: also where a cut falls into a
/// character.
pub proof fn law_drain_ignores_cuts(portions: Seq<Seq<u8>>, capture: bool)
    requires
        valid_utf8(all_bytes(portions)),
    ensures
        ({
            let text = decode_utf8(all_bytes(portions));
            let (lines, state) = DrainState::fresh(capture).fed_all(portions);
            let (last, after) = state.ended();
            &&& (lines, state.remainder) == split_lines(text)
            &&& state.pending.len() == 0
            &&& all_lines(text) == match last {
                Some(l) => lines.push(l),
                None => lines,
            }
            &&& state.capture == if capture {
                Some(text)
            } else {
                None
            }
            &&& after.capture == state.capture
        }),
{
    let bytes = all_bytes(portions);
    assert(bytes.take(bytes.len() as int) =~= bytes);
    lemma_drain_follows(portions, bytes, capture);
    lemma_whole_part_is_valid(bytes, bytes.len() as int);
    assert(whole_part(bytes) =~= bytes);
    let text = decode_utf8(bytes);
    let (_, state) = DrainState::fresh(capture).fed_all(portions);
    assert(state.pending =~= Seq::<u8>::empty());
    assert(read_text(state.pending) =~= Seq::<char>::empty());
    assert(state.remainder + Seq::<char>::empty() =~= state.remainder);
    assert(text + Seq::<char>::empty() =~= text);
}

/// Two portions of valid UTF-8 give the lines of the whole text, and a copy
/// that is the whole text, wherever the cut between them falls.
pub proof fn law_two_portions(a: Seq<u8>, b: Seq<u8>, capture: bool)
    requires
        valid_utf8(a + b),
    ensures
        ({
            let (first, between) = DrainState::fresh(capture).fed(a);
            let (second, state) = between.fed(b);
            let text = decode_utf8(a + b);
            &&& (first + second, state.remainder) == split_lines(text)
            &&& state.pending.len() == 0
            &&& state.capture == if capture {
                Some(text)
            } else {
                None
            }
        }),
{
    let portions = seq![a, b];
    let one = portions.drop_last();
    assert(one =~= seq![a]);
    assert(one.drop_last() =~= Seq::<Seq<u8>>::empty());
    assert(all_bytes(one.drop_last()) =~= Seq::<u8>::empty());
    assert(all_bytes(one) =~= a);
    assert(all_bytes(portions) =~= a + b);
    law_drain_ignores_cuts(portions, capture);
    let fresh = DrainState::fresh(capture);
    assert(fresh.fed_all(one.drop_last()) == (Seq::<Seq<char>>::empty(), fresh));
    let (first, between) = fresh.fed(a);
    assert(Seq::<Seq<char>>::empty() + first =~= first);
    assert(fresh.fed_all(one) == (first, between));
    let (second, state) = between.fed(b);
    assert(fresh.fed_all(portions) == (first + second, state));
}

/// Nothing that arrives on a stream is lost: the completed lines, each with
/// its newline, followed by the remainder, are the text that arrived. (A
/// carriage return right before a newline is the one thing that lines drop.)
pub proof fn law_lines_are_complete(s: Seq<char>)
    requires
        forall|i: int| 0 <= i < s.len() - 1 && #[trigger] s[i] == '\r' ==> s[i + 1] != '\n',
    ensures
        with_newlines(split_lines(s).0) + split_lines(s).1 == s,
    decreases s.len(),
{
    if s.len() == 0 {
        assert(with_newlines(split_lines(s).0) + split_lines(s).1 =~= s);
    } else {
        let front = s.drop_last();
        assert forall|i: int| 0 <= i < front.len() - 1 && #[trigger] front[i]
            == '\r' implies front[i + 1] != '\n' by {
            assert(front[i] == s[i]);
        }
        law_lines_are_complete(front);
        let (lines, tail) = split_lines(front);
        assert(with_newlines(lines) + tail == front);
        if tail.len() > 0 {
            assert((with_newlines(lines) + tail).last() == tail.last());
            assert(s[front.len() - 1] == tail.last());
        }
        if s.last() == '\n' {
            let all = lines.push(tail);
            assert(all.drop_last() =~= lines);
            assert(split_lines(s).0 == all);
            assert(with_newlines(all) + Seq::<char>::empty() =~= front + seq!['\n']);
        } else {
            assert(with_newlines(lines) + tail.push(s.last()) =~= front.push(s.last()));
        }
        assert(front.push(s.last()) =~= s);
    }
}

/// A line is stamped with the time in brackets, the date before the hour, and a
/// space.
pub proof fn law_line_is_stamped(secs: i64, line: &str, out: String)
    requires
        datable(secs as int, 0),
        call_ensures(timestamp_line_at, (secs, line), out),
    ensures
        out@ == "["@ + utc_text(secs, "%Y-%m-%d %H:%M:%S UTC"@) + "] "@ + line@,
{
}

/// A line that a newline ends, or a carriage return and a newline, is the first
/// line of a text, without either; the lines of the rest follow.
pub proof fn law_first_line(
    line: Seq<char>,
    ending: Seq<char>,
    rest: &str,
    text: &str,
    lines: Vec<String>,
    rest_lines: Vec<String>,
)
    requires
        call_ensures(lines_of, (text,), lines),
        call_ensures(lines_of, (rest,), rest_lines),
        forall|i: int| 0 <= i < line.len() ==> #[trigger] line[i] != '\n',
        ending == seq!['\r', '\n'] || ending == seq!['\n'] && (line.len() > 0 ==> line.last()
            != '\r'),
        text@ == line + ending + rest@,
    ensures
        views(lines@) == seq![line] + views(rest_lines@),
{
    let start = line + ending;
    let before = start.drop_last();
    assert(start.last() == '\n');
    assert forall|i: int| 0 <= i < before.len() implies #[trigger] before[i] != '\n' by {
        if i < line.len() {
            assert(before[i] == line[i]);
        }
    }
    lemma_newline_free_has_no_line(before);
    if ending == seq!['\r', '\n'] {
        assert(before =~= line.push('\r'));
        assert(before.drop_last() =~= line);
    } else {
        assert(before =~= line);
    }
    assert(without_cr(before) == line);
    assert(split_lines(start).0 =~= seq![line]);
    assert(split_lines(start).1 =~= Seq::<char>::empty());
    law_lines_ignore_chunking(start, rest@);
    assert(Seq::<char>::empty() + rest@ =~= rest@);
    assert(start + rest@ =~= text@);
    let (more, tail) = split_lines(rest@);
    assert(seq![line] + more.push(tail) =~= (seq![line] + more).push(tail));
}

/// A text without a newline is one line, and no line if it is empty.
pub proof fn law_last_line(text: &str, lines: Vec<String>)
    requires
        call_ensures(lines_of, (text,), lines),
        forall|i: int| 0 <= i < text@.len() ==> #[trigger] text@[i] != '\n',
    ensures
        text@.len() == 0 ==> lines@.len() == 0,
        text@.len() > 0 ==> lines@.len() == 1 && lines@[0]@ == text@,
{
    lemma_newline_free_has_no_line(text@);
    assert(views(lines@).len() == lines@.len());
    if text@.len() > 0 {
        assert(views(lines@)[0] == lines@[0]@);
    }
}

proof fn lemma_stamped_lines(time: Seq<char>, first: Seq<char>, rest: Seq<Seq<char>>)
    ensures
        stamped_lines(time, seq![first] + rest) == stamped(time, first) + "\n"@ + stamped_lines(
            time,
            rest,
        ),
    decreases rest.len(),
{
    let all = seq![first] + rest;
    if rest.len() == 0 {
        assert(all.drop_last() =~= Seq::<Seq<char>>::empty());
        assert(all.last() == first);
        assert(stamped_lines(time, all.drop_last()) =~= Seq::<char>::empty());
        assert(stamped_lines(time, all) =~= stamped(time, first) + "\n"@ + stamped_lines(
            time,
            rest,
        ));
    } else {
        lemma_stamped_lines(time, first, rest.drop_last());
        assert(all.drop_last() =~= seq![first] + rest.drop_last());
        assert(all.last() == rest.last());
        assert(stamped_lines(time, all) =~= stamped(time, first) + "\n"@ + stamped_lines(
            time,
            rest,
        ));
    }
}

/// Every line of a text is stamped on its own: the first one, as a line by
/// itself is, with a newline behind it, and then the rest, as a text by itself
/// is.
pub proof fn law_every_line_is_stamped(
    secs: i64,
    line: &str,
    rest: &str,
    text: &str,
    line_out: String,
    rest_out: String,
    out: String,
)
    requires
        datable(secs as int, 0),
        call_ensures(timestamp_line_at, (secs, line), line_out),
        call_ensures(timestamp_log_string_at, (secs, rest), rest_out),
        call_ensures(timestamp_log_string_at, (secs, text), out),
        forall|i: int| 0 <= i < line@.len() ==> #[trigger] line@[i] != '\n',
        line@.len() > 0 ==> line@.last() != '\r',
        text@ == line@ + "\n"@ + rest@,
    ensures
        out@ == line_out@ + "\n"@ + rest_out@,
{
    reveal_strlit("\n");
    let time = utc_text(secs, LOG_TIME_FORMAT@);
    let start = line@ + "\n"@;
    assert(start.drop_last() =~= line@);
    assert(start.last() == '\n');
    lemma_newline_free_has_no_line(line@);
    assert(split_lines(start).0 =~= seq![line@]);
    assert(split_lines(start).1 =~= Seq::<char>::empty());
    law_lines_ignore_chunking(start, rest@);
    assert(Seq::<char>::empty() + rest@ =~= rest@);
    assert(start + rest@ =~= text@);
    let (more, tail) = split_lines(rest@);
    assert(seq![line@] + more.push(tail) =~= (seq![line@] + more).push(tail));
    assert(all_lines(text@) == seq![line@] + all_lines(rest@));
    lemma_stamped_lines(time, line@, all_lines(rest@));
}

/// A portion of text that arrives is not lost: the lines that it completes, each
/// with its newline, and what is left over then are what was left over before
/// and the portion, if no carriage return stands before a newline. What is left
/// over holds no newline; a copy, if one is kept, grows by the portion.
pub proof fn law_portion_is_not_lost(drain: &mut StreamDrain, chunk: &str, lines: Vec<String>)
    requires
        call_ensures(StreamDrain::feed_text, (drain, chunk), lines),
        ({
            let text = old(drain).remainder@ + chunk@;
            forall|i: int|
                0 <= i < text.len() - 1 && #[trigger] text[i] == '\r' ==> text[i + 1] != '\n'
        }),
    ensures
        with_newlines(views(lines@)) + final(drain).remainder@ == old(drain).remainder@ + chunk@,
        forall|i: int|
            0 <= i < final(drain).remainder@.len() ==> #[trigger] final(drain).remainder@[i]
                != '\n',
        old(drain).capture matches Some(copy) ==> final(drain).capture is Some
            && final(drain).capture->0@ == copy@ + chunk@,
        old(drain).capture is None ==> final(drain).capture is None,
{
    let text = old(drain).remainder@ + chunk@;
    law_lines_are_complete(text);
    lemma_no_newline_left(text);
    let after = final(drain)@;
    assert(after.remainder == final(drain).remainder@);
    assert(after.capture == opt_view(final(drain).capture));
    assert(old(drain)@.capture == opt_view(old(drain).capture));
}

proof fn lemma_no_newline_left(s: Seq<char>)
    ensures
        forall|i: int|
            0 <= i < split_lines(s).1.len() ==> #[trigger] split_lines(s).1[i] != '\n',
    decreases s.len(),
{
    if s.len() > 0 {
        let before = split_lines(s.drop_last()).1;
        let tail = split_lines(s).1;
        lemma_no_newline_left(s.drop_last());
        assert forall|i: int| 0 <= i < tail.len() implies #[trigger] tail[i] != '\n' by {
            if i < before.len() {
                assert(before[i] != '\n');
                assert(tail[i] == before[i]);
            }
        }
    }
}

/// When a stream has ended, what is left over is its last line, unless it is
/// nothing, and nothing is left over any more.
pub proof fn law_rest_is_the_last_line(drain: &mut StreamDrain, last: Option<String>)
    requires
        call_ensures(StreamDrain::finish, (drain,), last),
        old(drain).pending@.len() == 0,
    ensures
        last is Some <==> old(drain).remainder@.len() > 0,
        last matches Some(line) ==> line@ == old(drain).remainder@,
        final(drain).remainder@.len() == 0,
        final(drain).pending@.len() == 0,
{
    let before = old(drain)@;
    assert(before.pending =~= Seq::<u8>::empty());
    assert(valid_utf8(before.pending));
    assert(decode_utf8(before.pending) =~= Seq::<char>::empty());
    assert(before.remainder + Seq::<char>::empty() =~= before.remainder);
    assert(final(drain)@.remainder == final(drain).remainder@);
    assert(final(drain)@.pending == final(drain).pending@);
}

/// Of the bytes that arrive, those of a character that is not complete wait for
/// the rest of it: they are the last ones that have arrived, and at most three.
pub proof fn law_bytes_wait_for_their_character(
    drain: &mut StreamDrain,
    bytes: &[u8],
    lines: Vec<String>,
)
    requires
        call_ensures(StreamDrain::feed, (drain, bytes), lines),
    ensures
        final(drain).pending@.len() <= 3,
        exists|read: Seq<u8>|
            old(drain).pending@ + bytes@ == #[trigger] (read + final(drain).pending@),
{
    let arrived = old(drain)@.pending + bytes@;
    assert(final(drain)@.pending == final(drain).pending@);
    assert(final(drain).pending@ == unfinished_part(arrived));
    assert(arrived =~= whole_part(arrived) + unfinished_part(arrived));
}

} // verus!
