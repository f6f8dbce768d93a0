//! The server-sent event stream: text arrives in pieces, a blank line ends
//! each event, and the event's `data:` lines make up its payload.

use vstd::prelude::*;
use vstd::slice::slice_subrange;
use vstd::utf8::{decode_utf8, pop_first_scalar, valid_utf8};

use crate::text::{
    from_chars, is_white, is_white_space, parses, reads_back, texts, to_chars, writes,
};

verus! {

/// Whether two line feeds in a row start at `i`.
pub open spec fn blank_line_at(s: Seq<char>, i: int) -> bool {
    0 <= i && i + 1 < s.len() && s[i] == '\n' && s[i + 1] == '\n'
}

/// Whether `i` is where the first two line feeds in a row start.
pub open spec fn first_blank_line(s: Seq<char>, i: int) -> bool {
    blank_line_at(s, i) && forall|j: int| 0 <= j < i ==> !blank_line_at(s, j)
}

/// Whether the text holds two line feeds in a row.
pub open spec fn has_blank_line(s: Seq<char>) -> bool {
    exists|i: int| blank_line_at(s, i)
}

/// Cuts a text at its blank lines: the events that are complete, and the text
/// after the last blank line.
pub open spec fn split_events(s: Seq<char>) -> (Seq<Seq<char>>, Seq<char>)
    decreases s.len(),
{
    if exists|i: int| first_blank_line(s, i) {
        let i = choose|i: int| first_blank_line(s, i);
        let (events, rest) = split_events(s.skip(i + 2));
        (seq![s.take(i)] + events, rest)
    } else {
        (Seq::empty(), s)
    }
}

/// Whether `i` is where the first line feed stands.
pub open spec fn first_line_feed(s: Seq<char>, i: int) -> bool {
    0 <= i < s.len() && s[i] == '\n' && forall|j: int| 0 <= j < i ==> s[j] != '\n'
}

/// A line without the carriage return at its end.
pub open spec fn without_return(line: Seq<char>) -> Seq<char> {
    if line.len() > 0 && line.last() == '\r' {
        line.drop_last()
    } else {
        line
    }
}

/// The lines of a text. A line ends with a line feed, which may follow a
/// carriage return; the last line may lack its end.
pub open spec fn lines(s: Seq<char>) -> Seq<Seq<char>>
    decreases s.len(),
{
    if exists|i: int| first_line_feed(s, i) {
        let i = choose|i: int| first_line_feed(s, i);
        seq![without_return(s.take(i))] + lines(s.skip(i + 1))
    } else if s.len() == 0 {
        Seq::empty()
    } else {
        seq![s]
    }
}

/// The field name that marks a payload line.
pub open spec fn data_field() -> Seq<char> {
    seq!['d', 'a', 't', 'a', ':']
}

/// A text without the white space at its start.
pub open spec fn trim_start(s: Seq<char>) -> Seq<char>
    decreases s.len(),
{
    if s.len() > 0 && is_white(s[0]) {
        trim_start(s.skip(1))
    } else {
        s
    }
}

/// What a line adds to the payload, if it is a `data:` line.
pub open spec fn data_of(line: Seq<char>) -> Option<Seq<char>> {
    if data_field().is_prefix_of(line) {
        Some(trim_start(line.skip(5)))
    } else {
        None
    }
}

/// What the `data:` lines among `list` add, in order.
pub open spec fn data_lines(list: Seq<Seq<char>>) -> Seq<Seq<char>>
    decreases list.len(),
{
    if list.len() == 0 {
        Seq::empty()
    } else {
        match data_of(list.last()) {
            Some(data) => data_lines(list.drop_last()).push(data),
            None => data_lines(list.drop_last()),
        }
    }
}

/// The lines one after the other, a line feed after each.
pub open spec fn terminated(list: Seq<Seq<char>>) -> Seq<char>
    decreases list.len(),
{
    if list.len() == 0 {
        Seq::empty()
    } else {
        terminated(list.drop_last()) + list.last().push('\n')
    }
}

/// The lines one after the other, a line feed between any two.
pub open spec fn line_joined(list: Seq<Seq<char>>) -> Seq<char> {
    terminated(list).drop_last()
}

/// The payload of an event: its data lines, joined by line feeds. An event
/// without data lines has none.
pub open spec fn payload_of(event: Seq<char>) -> Option<Seq<char>> {
    let data = data_lines(lines(event));
    if data.len() == 0 {
        None
    } else {
        Some(line_joined(data))
    }
}

/// The payloads of those events that have one, in order.
pub open spec fn payloads_of(events: Seq<Seq<char>>) -> Seq<Seq<char>>
    decreases events.len(),
{
    if events.len() == 0 {
        Seq::empty()
    } else {
        match payload_of(events.last()) {
            Some(payload) => payloads_of(events.drop_last()).push(payload),
            None => payloads_of(events.drop_last()),
        }
    }
}

proof fn lemma_first_blank_line_unique(s: Seq<char>, i: int)
    requires
        first_blank_line(s, i),
    ensures
        (choose|k: int| first_blank_line(s, k)) == i,
{
    let k = choose|k: int| first_blank_line(s, k);
    assert(first_blank_line(s, k));
    assert(blank_line_at(s, k) && blank_line_at(s, i));
}

proof fn lemma_first_line_feed_unique(s: Seq<char>, i: int)
    requires
        first_line_feed(s, i),
    ensures
        lines(s) == seq![without_return(s.take(i))] + lines(s.skip(i + 1)),
{
    let k = choose|k: int| first_line_feed(s, k);
    assert(first_line_feed(s, k));
    if k < i {
        assert(s[k] != '\n');
    } else if i < k {
        assert(s[i] != '\n');
    }
}

proof fn lemma_trim_start(s: Seq<char>, k: int)
    requires
        0 <= k <= s.len(),
        forall|j: int| 0 <= j < k ==> is_white(s[j]),
        k < s.len() ==> !is_white(s[k]),
    ensures
        trim_start(s) == s.skip(k),
    decreases k,
{
    if k == 0 {
        assert(s.skip(0) =~= s);
    } else {
        let rest = s.skip(1);
        assert forall|j: int| 0 <= j < k - 1 implies is_white(rest[j]) by {
            assert(is_white(s[j + 1]));
        }
        lemma_trim_start(rest, k - 1);
        assert(rest.skip(k - 1) =~= s.skip(k));
    }
}

proof fn lemma_terminated_len(list: Seq<Seq<char>>)
    ensures
        terminated(list).len() == 0 <==> list.len() == 0,
{
}

/// Finds the first two line feeds in a row at or after `from`.
fn find_blank_line(s: &Vec<char>, from: usize) -> (r: Option<usize>)
    requires
        from <= s@.len(),
    ensures
        match r {
            Some(i) => {
                &&& from <= i
                &&& i + 2 <= s.len()
                &&& first_blank_line(s@.skip(from as int), i - from)
            },
            None => !has_blank_line(s@.skip(from as int)),
        },
{
    let ghost tail = s@.skip(from as int);
    let mut i: usize = from;
    while i < s.len()
        invariant
            from <= i <= s@.len(),
            tail == s@.skip(from as int),
            forall|j: int| 0 <= j < i - from ==> !blank_line_at(tail, j),
        decreases s@.len() - i,
    {
        if s.len() - i >= 2 && s[i] == '\n' && s[i + 1] == '\n' {
            assert(blank_line_at(tail, i - from));
            return Some(i);
        }
        assert(!blank_line_at(tail, i - from));
        i = i + 1;
    }
    None
}

/// Finds the end of the line that starts at `from`: the next line feed, or
/// the end of the text.
fn line_end(s: &Vec<char>, from: usize) -> (r: usize)
    requires
        from <= s@.len(),
    ensures
        from <= r <= s@.len(),
        r < s@.len() ==> s@[r as int] == '\n',
        forall|j: int| from <= j < r ==> s@[j] != '\n',
{
    let mut i: usize = from;
    while i < s.len() && s[i] != '\n'
        invariant
            from <= i <= s@.len(),
            forall|j: int| from <= j < i ==> s@[j] != '\n',
        decreases s@.len() - i,
    {
        i = i + 1;
    }
    i
}

/// Whether `data:` stands at `from`, before `to`.
fn data_field_at(s: &Vec<char>, from: usize, to: usize) -> (r: bool)
    requires
        from <= to <= s@.len(),
    ensures
        r == data_field().is_prefix_of(s@.subrange(from as int, to as int)),
{
    let ghost line = s@.subrange(from as int, to as int);
    if to - from < 5 {
        return false;
    }
    let r: bool = s[from] == 'd' && s[from + 1] == 'a' && s[from + 2] == 't' && s[from + 3] == 'a'
        && s[from + 4] == ':';
    proof {
        assert(line[0] == s@[from as int] && line[1] == s@[from + 1] && line[2] == s@[from + 2]
            && line[3] == s@[from + 3] && line[4] == s@[from + 4]);
        let head = line.subrange(0, 5);
        if r {
            assert(head =~= data_field());
        } else if head == data_field() {
            assert(head[0] == 'd' && head[1] == 'a' && head[2] == 't' && head[3] == 'a' && head[4]
                == ':');
        }
    }
    r
}

/// Adds to `out` the characters from `from` up to `to` without the white
/// space at their start.
fn push_trimmed(out: &mut Vec<char>, s: &Vec<char>, from: usize, to: usize)
    requires
        from <= to <= s@.len(),
    ensures
        final(out)@ == old(out)@ + trim_start(s@.subrange(from as int, to as int)),
{
    let ghost field = s@.subrange(from as int, to as int);
    let ghost before = out@;
    let mut i: usize = from;
    while i < to && is_white_space(s[i])
        invariant
            from <= i <= to <= s@.len(),
            field == s@.subrange(from as int, to as int),
            forall|j: int| 0 <= j < i - from ==> is_white(field[j]),
        decreases to - i,
    {
        assert(field[i - from] == s@[i as int]);
        i = i + 1;
    }
    proof {
        if i < to {
            assert(field[i - from] == s@[i as int]);
        }
        lemma_trim_start(field, i - from);
    }
    let ghost start = i - from;
    let mut k: usize = i;
    assert(out@ =~= before + field.subrange(start, start));
    while k < to
        invariant
            from <= i <= k <= to <= s@.len(),
            start == i - from,
            field == s@.subrange(from as int, to as int),
            out@ == before + field.subrange(start, k - from),
        decreases to - k,
    {
        out.push(s[k]);
        assert(field.subrange(start, k + 1 - from) =~= field.subrange(start, k - from).push(
            s@[k as int],
        ));
        assert(out@ =~= before + field.subrange(start, k + 1 - from));
        k = k + 1;
    }
    assert(field.subrange(start, to - from) =~= field.skip(start));
}

/// Reads the payload out of one event's text: the `data:` lines, without the
/// field name and the white space after it, joined by line feeds. Other lines
/// are ignored. The result is `None` for an event without data lines.
pub fn parse_sse(raw: &str) -> (r: Option<String>)
    ensures
        match r {
            Some(payload) => payload_of(raw@) == Some(payload@),
            None => payload_of(raw@) is None,
        },
{
    let s: Vec<char> = to_chars(raw);
    let mut out: Vec<char> = Vec::new();
    let mut at: usize = 0;
    let ghost mut seen: Seq<Seq<char>> = Seq::empty();
    proof {
        assert(s@.skip(0) =~= s@);
        assert(seen + lines(s@) =~= lines(s@));
    }
    while at < s.len()
        invariant
            at <= s@.len(),
            lines(s@) == seen + lines(s@.skip(at as int)),
            out@ == terminated(data_lines(seen)),
        decreases s@.len() - at,
    {
        let end: usize = line_end(&s, at);
        let stop: usize = if end < s.len() && end > at && s[end - 1] == '\r' {
            end - 1
        } else {
            end
        };
        let next: usize = if end < s.len() {
            end + 1
        } else {
            end
        };
        let ghost tail = s@.skip(at as int);
        let ghost line = s@.subrange(at as int, stop as int);
        let ghost before = seen;
        proof {
            seen = seen.push(line);
            if end < s@.len() {
                assert(first_line_feed(tail, end - at));
                lemma_first_line_feed_unique(tail, end - at);
                assert(tail.take(end - at) =~= s@.subrange(at as int, end as int));
                assert(tail.skip(end - at + 1) =~= s@.skip(next as int));
                assert(line =~= without_return(tail.take(end - at)));
            } else {
                assert forall|i: int| !first_line_feed(tail, i) by {
                    if 0 <= i < tail.len() {
                        assert(tail[i] == s@[at + i]);
                    }
                }
                assert(line =~= tail);
                assert(s@.skip(next as int) =~= Seq::<char>::empty());
                assert forall|i: int| !first_line_feed(s@.skip(next as int), i) by {}
                assert(lines(s@.skip(next as int)) =~= Seq::empty());
            }
            assert(lines(tail) =~= seq![line] + lines(s@.skip(next as int)));
            assert(before + lines(tail) =~= seen + lines(s@.skip(next as int)));
            assert(seen.drop_last() =~= before);
        }
        if data_field_at(&s, at, stop) {
            proof {
                assert(line.skip(5) =~= s@.subrange(at + 5, stop as int));
            }
            let ghost sofar = out@;
            push_trimmed(&mut out, &s, at + 5, stop);
            out.push('\n');
            proof {
                let data = trim_start(line.skip(5));
                assert(data_lines(seen) == data_lines(before).push(data));
                assert(data_lines(seen).drop_last() =~= data_lines(before));
                assert(out@ =~= sofar + data.push('\n'));
            }
        }
        at = next;
    }
    proof {
        assert(s@.skip(at as int) =~= Seq::<char>::empty());
        assert forall|i: int| !first_line_feed(s@.skip(at as int), i) by {}
        assert(lines(s@.skip(at as int)) =~= Seq::empty());
        assert(seen + lines(s@.skip(at as int)) =~= seen);
        lemma_terminated_len(data_lines(seen));
    }
    if out.len() == 0 {
        None
    } else {
        out.pop();
        Some(from_chars(out.as_slice()))
    }
}

/// Whether `value` is what one event's text comes to: what `parse` makes of
/// its payload, and nothing where it has none.
pub open spec fn event_parses<E, P: Fn(&str) -> Option<E>>(
    parse: P,
    raw: Seq<char>,
    value: Option<E>,
) -> bool {
    match payload_of(raw) {
        Some(payload) => parses(parse, payload, value),
        None => value is None,
    }
}

/// Reads one event's text: `parse` takes its payload, or rejects it. An event
/// without a payload is nothing.
pub fn parse_event<E, P: Fn(&str) -> Option<E>>(raw: &str, parse: P) -> (r: Option<E>)
    requires
        forall|t: &str| call_requires(parse, (t,)),
    ensures
        event_parses(parse, raw@, r),
        match payload_of(raw@) {
            Some(payload) => exists|t: &str|
                #![trigger call_ensures(parse, (t,), r)]
                t@ == payload && call_ensures(parse, (t,), r),
            None => r is None,
        },
{
    match parse_sse(raw) {
        Some(payload) => parse(payload.as_str()),
        None => None,
    }
}

/// The values among the outcomes of parsing, in order.
pub open spec fn accepted<E>(outcomes: Seq<Option<E>>) -> Seq<E>
    decreases outcomes.len(),
{
    if outcomes.len() == 0 {
        Seq::empty()
    } else {
        match outcomes.last() {
            Some(value) => accepted(outcomes.drop_last()).push(value),
            None => accepted(outcomes.drop_last()),
        }
    }
}

/// Whether `outcomes` are results of `parse` on these payloads, one for each.
pub open spec fn parses_each<E, P: Fn(&str) -> Option<E>>(
    parse: P,
    payloads: Seq<Seq<char>>,
    outcomes: Seq<Option<E>>,
) -> bool {
    &&& outcomes.len() == payloads.len()
    &&& forall|k: int|
        0 <= k < outcomes.len() ==> parses(parse, payloads[k], #[trigger] outcomes[k])
}

/// Whether `values` is what `parse` makes of these payloads, in order. A
/// payload that it rejects is skipped.
pub open spec fn payloads_parse<E, P: Fn(&str) -> Option<E>>(
    parse: P,
    payloads: Seq<Seq<char>>,
    values: Seq<E>,
) -> bool {
    exists|outcomes: Seq<Option<E>>| #[trigger]
        parses_each(parse, payloads, outcomes) && values == accepted(outcomes)
}

/// Text received and not yet cut into events.
#[derive(Debug)]
pub struct SseBuffer {
    buffer: Vec<char>,
}

impl View for SseBuffer {
    type V = Seq<char>;

    closed spec fn view(&self) -> Seq<char> {
        self.buffer@
    }
}

/// What `String::from_utf8_lossy` makes of a sequence of bytes.
pub uninterp spec fn utf8_lossy(bytes: Seq<u8>) -> Seq<char>;

/// `String::from_utf8_lossy`: bytes that are UTF-8 are decoded. What stands in
/// place of a malformed sequence is named, not stated.
#[verifier::external_body]
fn decode_lossy(chunk: &[u8]) -> (r: String)
    ensures
        r@ == utf8_lossy(chunk@),
        valid_utf8(chunk@) ==> r@ == decode_utf8(chunk@),
{
    String::from_utf8_lossy(chunk).into_owned()
}

impl SseBuffer {
    /// A buffer at the start of a stream.
    pub fn new() -> (r: Self)
        ensures
            r@ == Seq::<char>::empty(),
    {
        SseBuffer { buffer: Vec::new() }
    }

    /// Takes in a piece of the stream's text, and hands out the payloads of
    /// the events that it completes.
    pub fn receive_text(&mut self, text: &str) -> (r: Vec<String>)
        ensures
            texts(r@) == payloads_of(split_events(old(self)@ + text@).0),
            final(self)@ == split_events(old(self)@ + text@).1,
            !has_blank_line(final(self)@),
    {
        let mut more: Vec<char> = to_chars(text);
        self.buffer.append(&mut more);
        let ghost all = self.buffer@;
        assert(all == old(self)@ + text@);
        let mut out: Vec<String> = Vec::new();
        let mut at: usize = 0;
        let ghost mut done: Seq<Seq<char>> = Seq::empty();
        proof {
            assert(all.skip(0) =~= all);
            assert(done + split_events(all).0 =~= split_events(all).0);
            assert(texts(out@) =~= payloads_of(done));
        }
        loop
            invariant_except_break
                at <= all.len(),
                self.buffer@ == all,
                split_events(all).0 == done + split_events(all.skip(at as int)).0,
                split_events(all).1 == split_events(all.skip(at as int)).1,
                texts(out@) == payloads_of(done),
            ensures
                at <= all.len(),
                self.buffer@ == all,
                split_events(all) == (done, all.skip(at as int)),
                texts(out@) == payloads_of(done),
                !has_blank_line(all.skip(at as int)),
            decreases all.len() - at,
        {
            let ghost tail = all.skip(at as int);
            let i: usize = match find_blank_line(&self.buffer, at) {
                Some(i) => i,
                None => {
                    assert(done + split_events(tail).0 =~= done);
                    break;
                },
            };
            let event: String = from_chars(slice_subrange(self.buffer.as_slice(), at, i));
            proof {
                lemma_first_blank_line_unique(tail, i - at);
                assert(tail.take(i - at) =~= event@);
                assert(tail.skip(i - at + 2) =~= all.skip(i + 2));
                let rest = split_events(all.skip(i + 2)).0;
                assert(done + (seq![event@] + rest) =~= done.push(event@) + rest);
                assert(done.push(event@).drop_last() =~= done);
            }
            let ghost before = out@;
            match parse_sse(event.as_str()) {
                Some(payload) => {
                    out.push(payload);
                    assert(texts(out@) =~= texts(before).push(payload@));
                },
                None => {},
            }
            proof {
                done = done.push(event@);
            }
            at = i + 2;
        }
        self.buffer = self.buffer.split_off(at);
        out
    }

    /// Takes in a piece of the stream's bytes, and hands out the payloads of
    /// the events that it completes.
    pub fn receive(&mut self, chunk: &[u8]) -> (r: Vec<String>)
        ensures
            texts(r@) == payloads_of(split_events(old(self)@ + utf8_lossy(chunk@)).0),
            final(self)@ == split_events(old(self)@ + utf8_lossy(chunk@)).1,
            !has_blank_line(final(self)@),
            valid_utf8(chunk@) ==> {
                &&& texts(r@) == payloads_of(split_events(old(self)@ + decode_utf8(chunk@)).0)
                &&& final(self)@ == split_events(old(self)@ + decode_utf8(chunk@)).1
            },
    {
        let text: String = decode_lossy(chunk);
        self.receive_text(text.as_str())
    }

    /// Takes in a piece of the stream's bytes, and hands out what `parse`
    /// makes of the payloads that it completes. A payload that `parse` rejects
    /// is skipped.
    pub fn receive_events<E, P: Fn(&str) -> Option<E>>(&mut self, chunk: &[u8], parse: P) -> (r:
        Vec<E>)
        requires
            forall|t: &str| call_requires(parse, (t,)),
        ensures
            payloads_parse(
                parse,
                payloads_of(split_events(old(self)@ + utf8_lossy(chunk@)).0),
                r@,
            ),
            final(self)@ == split_events(old(self)@ + utf8_lossy(chunk@)).1,
            !has_blank_line(final(self)@),
            valid_utf8(chunk@) ==> {
                &&& payloads_parse(
                    parse,
                    payloads_of(split_events(old(self)@ + decode_utf8(chunk@)).0),
                    r@,
                )
                &&& final(self)@ == split_events(old(self)@ + decode_utf8(chunk@)).1
            },
    {
        let payloads: Vec<String> = self.receive(chunk);
        let mut out: Vec<E> = Vec::new();
        let ghost mut outcomes: Seq<Option<E>> = Seq::empty();
        let mut i: usize = 0;
        while i < payloads.len()
            invariant
                i <= payloads@.len(),
                forall|t: &str| call_requires(parse, (t,)),
                parses_each(parse, texts(payloads@).take(i as int), outcomes),
                out@ == accepted(outcomes),
            decreases payloads@.len() - i,
        {
            let outcome: Option<E> = parse(payloads[i].as_str());
            let ghost before = outcomes;
            proof {
                outcomes = outcomes.push(outcome);
                assert(outcomes.drop_last() =~= before);
                let seen = texts(payloads@).take(i + 1);
                assert forall|k: int| 0 <= k < outcomes.len() implies parses(
                    parse,
                    seen[k],
                    #[trigger] outcomes[k],
                ) by {
                    if k < i {
                        assert(parses(parse, texts(payloads@).take(i as int)[k], before[k]));
                    }
                }
            }
            match outcome {
                Some(value) => out.push(value),
                None => {},
            }
            i = i + 1;
        }
        assert(texts(payloads@).take(i as int) =~= texts(payloads@));
        out
    }
}

/// Text without a blank line: cutting it changes nothing.
proof fn lemma_split_none(s: Seq<char>)
    requires
        forall|i: int| !blank_line_at(s, i),
    ensures
        split_events(s) == (Seq::<Seq<char>>::empty(), s),
{
}

proof fn lemma_split_step(s: Seq<char>, i: int)
    requires
        first_blank_line(s, i),
    ensures
        split_events(s).0 == seq![s.take(i)] + split_events(s.skip(i + 2)).0,
        split_events(s).1 == split_events(s.skip(i + 2)).1,
{
    lemma_first_blank_line_unique(s, i);
}

/// How a stream is cut into pieces does not matter: cutting `a`, keeping what
/// is left and going on with `b` gives the events, and the rest, of the whole.
pub proof fn law_pieces_do_not_matter(a: Seq<char>, b: Seq<char>)
    ensures
        split_events(a + b).0 == split_events(a).0 + split_events(split_events(a).1 + b).0,
        split_events(a + b).1 == split_events(split_events(a).1 + b).1,
    decreases a.len(),
{
    if exists|i: int| first_blank_line(a, i) {
        let i = choose|i: int| first_blank_line(a, i);
        let whole = a + b;
        assert(blank_line_at(a, i));
        assert(blank_line_at(whole, i));
        assert forall|j: int| 0 <= j < i implies !blank_line_at(whole, j) by {
            assert(!blank_line_at(a, j));
        }
        lemma_split_step(whole, i);
        lemma_split_step(a, i);
        let rest = a.skip(i + 2);
        assert(whole.skip(i + 2) =~= rest + b);
        assert(whole.take(i) =~= a.take(i));
        law_pieces_do_not_matter(rest, b);
        let first = seq![a.take(i)];
        assert(first + (split_events(rest).0 + split_events(split_events(rest).1 + b).0) =~= (first
            + split_events(rest).0) + split_events(split_events(rest).1 + b).0);
    } else {
        assert(split_events(a).0 + split_events(a + b).0 =~= split_events(a + b).0);
    }
}

/// The payloads of two runs of events are those of the first and then those of
/// the second.
pub proof fn law_payloads_concat(a: Seq<Seq<char>>, b: Seq<Seq<char>>)
    ensures
        payloads_of(a + b) == payloads_of(a) + payloads_of(b),
    decreases b.len(),
{
    if b.len() == 0 {
        assert(a + b =~= a);
        assert(payloads_of(a) + payloads_of(b) =~= payloads_of(a));
    } else {
        assert((a + b).drop_last() =~= a + b.drop_last());
        law_payloads_concat(a, b.drop_last());
        assert(payloads_of(a + b) =~= payloads_of(a) + payloads_of(b));
    }
}

/// Two calls of [`SseBuffer::receive_text`] on the pieces of a text hand out
/// the same payloads, and leave the same text, as one call on the whole.
pub proof fn law_receive_in_pieces(buffer: Seq<char>, a: Seq<char>, b: Seq<char>)
    ensures
        payloads_of(split_events(buffer + (a + b)).0) == payloads_of(split_events(buffer + a).0)
            + payloads_of(split_events(split_events(buffer + a).1 + b).0),
        split_events(buffer + (a + b)).1 == split_events(split_events(buffer + a).1 + b).1,
{
    assert(buffer + (a + b) =~= (buffer + a) + b);
    law_pieces_do_not_matter(buffer + a, b);
    law_payloads_concat(
        split_events(buffer + a).0,
        split_events(split_events(buffer + a).1 + b).0,
    );
}

/// The payloads handed out, and the text left, once the buffer has received
/// all pieces, one call for each.
pub open spec fn receive_run(buffer: Seq<char>, pieces: Seq<Seq<char>>) -> (
    Seq<Seq<char>>,
    Seq<char>,
)
    decreases pieces.len(),
{
    if pieces.len() == 0 {
        (Seq::empty(), buffer)
    } else {
        let (payloads, left) = receive_run(buffer, pieces.drop_last());
        let (events, rest) = split_events(left + pieces.last());
        (payloads + payloads_of(events), rest)
    }
}

/// The pieces, one after the other.
pub open spec fn joined_pieces<T>(pieces: Seq<Seq<T>>) -> Seq<T>
    decreases pieces.len(),
{
    if pieces.len() == 0 {
        Seq::empty()
    } else {
        joined_pieces(pieces.drop_last()) + pieces.last()
    }
}

/// However many pieces a text comes in, and wherever it is cut, the payloads
/// handed out and the text left are those of one call on the whole.
pub proof fn law_receive_in_any_pieces(buffer: Seq<char>, pieces: Seq<Seq<char>>)
    requires
        !has_blank_line(buffer),
    ensures
        receive_run(buffer, pieces).0 == payloads_of(
            split_events(buffer + joined_pieces(pieces)).0,
        ),
        receive_run(buffer, pieces).1 == split_events(buffer + joined_pieces(pieces)).1,
    decreases pieces.len(),
{
    if pieces.len() == 0 {
        assert(buffer + joined_pieces(pieces) =~= buffer);
        lemma_split_none(buffer);
    } else {
        law_receive_in_any_pieces(buffer, pieces.drop_last());
        law_receive_in_pieces(buffer, joined_pieces(pieces.drop_last()), pieces.last());
    }
}

/// Two calls of [`SseBuffer::receive`] on the pieces of a byte stream hand out
/// the same payloads, and leave the same text, as one call on the whole, where
/// no character is torn in two.
pub proof fn law_receive_bytes_in_pieces(buffer: Seq<char>, a: Seq<u8>, b: Seq<u8>)
    requires
        valid_utf8(a),
        valid_utf8(b),
    ensures
        valid_utf8(a + b),
        payloads_of(split_events(buffer + decode_utf8(a + b)).0) == payloads_of(
            split_events(buffer + decode_utf8(a)).0,
        ) + payloads_of(
            split_events(split_events(buffer + decode_utf8(a)).1 + decode_utf8(b)).0,
        ),
        split_events(buffer + decode_utf8(a + b)).1 == split_events(
            split_events(buffer + decode_utf8(a)).1 + decode_utf8(b),
        ).1,
{
    lemma_decode_concat(a, b);
    law_receive_in_pieces(buffer, decode_utf8(a), decode_utf8(b));
}

/// However many pieces a byte stream comes in, the payloads handed out and the
/// text left are those of one call on the whole, where no character is torn in
/// two.
pub proof fn law_receive_bytes_in_any_pieces(buffer: Seq<char>, pieces: Seq<Seq<u8>>)
    requires
        !has_blank_line(buffer),
        forall|k: int| 0 <= k < pieces.len() ==> valid_utf8(#[trigger] pieces[k]),
    ensures
        valid_utf8(joined_pieces(pieces)),
        receive_run(buffer, pieces.map_values(|piece: Seq<u8>| decode_utf8(piece))).0
            == payloads_of(split_events(buffer + decode_utf8(joined_pieces(pieces))).0),
        receive_run(buffer, pieces.map_values(|piece: Seq<u8>| decode_utf8(piece))).1
            == split_events(buffer + decode_utf8(joined_pieces(pieces))).1,
{
    lemma_decode_pieces(pieces);
    law_receive_in_any_pieces(
        buffer,
        pieces.map_values(|piece: Seq<u8>| decode_utf8(piece)),
    );
}

proof fn lemma_decode_pieces(pieces: Seq<Seq<u8>>)
    requires
        forall|k: int| 0 <= k < pieces.len() ==> valid_utf8(#[trigger] pieces[k]),
    ensures
        valid_utf8(joined_pieces(pieces)),
        decode_utf8(joined_pieces(pieces)) == joined_pieces(
            pieces.map_values(|piece: Seq<u8>| decode_utf8(piece)),
        ),
    decreases pieces.len(),
{
    let decoded = pieces.map_values(|piece: Seq<u8>| decode_utf8(piece));
    if pieces.len() > 0 {
        let before = pieces.drop_last();
        assert forall|k: int| 0 <= k < before.len() implies valid_utf8(#[trigger] before[k]) by {
            assert(valid_utf8(pieces[k]));
        }
        lemma_decode_pieces(before);
        assert(valid_utf8(pieces[pieces.len() - 1]));
        lemma_decode_concat(joined_pieces(before), pieces.last());
        assert(decoded.drop_last() =~= before.map_values(|piece: Seq<u8>| decode_utf8(piece)));
    }
}

proof fn lemma_decode_concat(a: Seq<u8>, b: Seq<u8>)
    requires
        valid_utf8(a),
        valid_utf8(b),
    ensures
        valid_utf8(a + b),
        decode_utf8(a + b) == decode_utf8(a) + decode_utf8(b),
    decreases a.len(),
{
    if a.len() == 0 {
        assert(a + b =~= b);
        assert(decode_utf8(a) + decode_utf8(b) =~= decode_utf8(b));
    } else {
        let rest = pop_first_scalar(a);
        assert(pop_first_scalar(a + b) =~= rest + b);
        lemma_decode_concat(rest, b);
        assert(decode_utf8(a + b) =~= decode_utf8(a) + decode_utf8(b));
    }
}

/// A payload that can be sent and read back: it has a line, no line holds a
/// line feed or starts with white space, and no line but the last ends with a
/// carriage return.
pub open spec fn sendable(payload: Seq<Seq<char>>) -> bool {
    &&& payload.len() > 0
    &&& whole_lines(payload)
    &&& forall|k: int|
        0 <= k < payload.len() && (#[trigger] payload[k]).len() > 0 ==> !is_white(payload[k][0])
    &&& forall|k: int|
        0 <= k < payload.len() - 1 && (#[trigger] payload[k]).len() > 0 ==> payload[k].last()
            != '\r'
}

/// A payload line as it is sent.
pub open spec fn data_line(line: Seq<char>) -> Seq<char> {
    data_field().push(' ') + line
}

/// An event as it is sent: a data line for each payload line.
pub open spec fn event_text(payload: Seq<Seq<char>>) -> Seq<char> {
    line_joined(payload.map_values(|line: Seq<char>| data_line(line)))
}

/// A stream of events as it is sent, a blank line after each.
pub open spec fn stream_text(payloads: Seq<Seq<Seq<char>>>) -> Seq<char>
    decreases payloads.len(),
{
    if payloads.len() == 0 {
        Seq::empty()
    } else {
        event_text(payloads[0]) + seq!['\n', '\n'] + stream_text(payloads.skip(1))
    }
}

/// Lines that hold no line feed.
pub open spec fn whole_lines(list: Seq<Seq<char>>) -> bool {
    forall|k: int, i: int|
        0 <= k < list.len() && 0 <= i < list[k].len() ==> #[trigger] list[k][i] != '\n'
}

proof fn lemma_terminated_front(list: Seq<Seq<char>>)
    requires
        list.len() > 0,
    ensures
        terminated(list) == list[0].push('\n') + terminated(list.skip(1)),
    decreases list.len(),
{
    if list.len() == 1 {
        assert(list.drop_last() =~= Seq::empty());
        assert(list.skip(1) =~= Seq::empty());
        assert(terminated(list) =~= list[0].push('\n') + terminated(list.skip(1)));
    } else {
        lemma_terminated_front(list.drop_last());
        assert(list.drop_last().skip(1) =~= list.skip(1).drop_last());
        assert(list.skip(1).last() == list.last());
        assert(terminated(list) =~= list[0].push('\n') + terminated(list.skip(1)));
    }
}

proof fn lemma_whole_lines_skip(list: Seq<Seq<char>>)
    requires
        whole_lines(list),
        list.len() > 0,
    ensures
        whole_lines(list.skip(1)),
        whole_lines(list.drop_last()),
{
    let rest = list.skip(1);
    assert forall|k: int, i: int|
        0 <= k < rest.len() && 0 <= i < rest[k].len() implies #[trigger] rest[k][i] != '\n' by {
        assert(list[k + 1][i] != '\n');
    }
    let head = list.drop_last();
    assert forall|k: int, i: int|
        0 <= k < head.len() && 0 <= i < head[k].len() implies #[trigger] head[k][i] != '\n' by {
        assert(list[k][i] != '\n');
    }
}

/// The lines of a text that is made of lines are those lines, without the
/// carriage returns at their ends.
pub proof fn law_lines_of_terminated(list: Seq<Seq<char>>, tail: Seq<char>)
    requires
        whole_lines(list),
    ensures
        lines(terminated(list) + tail) == list.map_values(|line: Seq<char>| without_return(line))
            + lines(tail),
    decreases list.len(),
{
    let stripped = list.map_values(|line: Seq<char>| without_return(line));
    if list.len() == 0 {
        assert(terminated(list) + tail =~= tail);
        assert(stripped + lines(tail) =~= lines(tail));
    } else {
        lemma_terminated_front(list);
        let s = terminated(list) + tail;
        let n = list[0].len() as int;
        assert(s[n] == '\n');
        assert forall|j: int| 0 <= j < n implies s[j] != '\n' by {
            assert(s[j] == list[0][j]);
        }
        assert(first_line_feed(s, n));
        lemma_first_line_feed_unique(s, n);
        assert(s.take(n) =~= list[0]);
        let rest = list.skip(1);
        assert(s.skip(n + 1) =~= terminated(rest) + tail);
        lemma_whole_lines_skip(list);
        law_lines_of_terminated(rest, tail);
        let stripped_rest = rest.map_values(|line: Seq<char>| without_return(line));
        assert(seq![without_return(list[0])] + (stripped_rest + lines(tail)) =~= stripped + lines(
            tail,
        ));
    }
}

/// Line ends may carry a carriage return or not: the payload is the same.
pub proof fn law_carriage_returns_do_not_matter(list: Seq<Seq<char>>)
    requires
        whole_lines(list),
        forall|k: int|
            0 <= k < list.len() && (#[trigger] list[k]).len() > 0 ==> list[k].last() != '\r',
    ensures
        payload_of(terminated(list.map_values(|line: Seq<char>| line.push('\r')))) == payload_of(
            terminated(list),
        ),
{
    let with_returns = list.map_values(|line: Seq<char>| line.push('\r'));
    let none = Seq::<char>::empty();
    assert forall|k: int, i: int|
        0 <= k < with_returns.len() && 0 <= i < with_returns[k].len() implies #[trigger]
    with_returns[k][i] != '\n' by {
        if i < list[k].len() {
            assert(list[k][i] != '\n');
        }
    }
    law_lines_of_terminated(with_returns, none);
    law_lines_of_terminated(list, none);
    assert(terminated(with_returns) + none =~= terminated(with_returns));
    assert(terminated(list) + none =~= terminated(list));
    let strip = |line: Seq<char>| without_return(line);
    assert forall|k: int| 0 <= k < list.len() implies with_returns.map_values(strip)[k]
        == list.map_values(strip)[k] by {
        assert(list[k].push('\r').drop_last() =~= list[k]);
        assert(without_return(list[k]) == list[k]);
    }
    assert(with_returns.map_values(strip) =~= list.map_values(strip));
}

/// The data of two runs of lines is that of the first and then that of the
/// second.
proof fn lemma_data_lines_concat(a: Seq<Seq<char>>, b: Seq<Seq<char>>)
    ensures
        data_lines(a + b) == data_lines(a) + data_lines(b),
    decreases b.len(),
{
    if b.len() == 0 {
        assert(a + b =~= a);
        assert(data_lines(a) + data_lines(b) =~= data_lines(a));
    } else {
        assert((a + b).drop_last() =~= a + b.drop_last());
        lemma_data_lines_concat(a, b.drop_last());
        assert(data_lines(a + b) =~= data_lines(a) + data_lines(b));
    }
}

/// Lines that are not data lines make no difference to the payload, wherever
/// they stand.
pub proof fn law_other_lines_do_not_matter(
    event: Seq<char>,
    other: Seq<char>,
    before: Seq<Seq<char>>,
    line: Seq<char>,
    after: Seq<Seq<char>>,
)
    requires
        lines(event) == before + seq![line] + after,
        lines(other) == before + after,
        data_of(line) is None,
    ensures
        payload_of(event) == payload_of(other),
{
    lemma_data_lines_concat(before + seq![line], after);
    lemma_data_lines_concat(before, seq![line]);
    lemma_data_lines_concat(before, after);
    reveal_with_fuel(data_lines, 2);
    assert(seq![line].drop_last() =~= Seq::empty());
    assert(data_lines(before) + data_lines(seq![line]) =~= data_lines(before));
}

proof fn lemma_no_blank_in_terminated(list: Seq<Seq<char>>)
    requires
        whole_lines(list),
        forall|k: int| 0 <= k < list.len() ==> (#[trigger] list[k]).len() > 0,
    ensures
        forall|i: int| !blank_line_at(terminated(list), i),
        list.len() > 0 ==> terminated(list).len() > 0 && terminated(list)[0] != '\n',
    decreases list.len(),
{
    if list.len() > 0 {
        lemma_terminated_front(list);
        let s = terminated(list);
        let rest = list.skip(1);
        let n = list[0].len() as int;
        assert(list[0][0] != '\n');
        assert(s[0] == list[0][0]);
        lemma_whole_lines_skip(list);
        assert forall|k: int| 0 <= k < rest.len() implies (#[trigger] rest[k]).len() > 0 by {
            assert(list[k + 1].len() > 0);
        }
        lemma_no_blank_in_terminated(rest);
        lemma_terminated_len(rest);
        assert forall|i: int| !blank_line_at(s, i) by {
            if blank_line_at(s, i) {
                if i < n {
                    assert(s[i] == list[0][i]);
                } else if i == n {
                    assert(s[n + 1] == terminated(rest)[0]);
                } else {
                    assert(blank_line_at(terminated(rest), i - n - 1));
                }
            }
        }
    }
}

proof fn lemma_data_line(line: Seq<char>)
    requires
        line.len() > 0 ==> !is_white(line[0]),
    ensures
        data_of(data_line(line)) == Some(line),
{
    let s = data_line(line);
    assert(s.subrange(0, 5) =~= data_field());
    assert(s.skip(5) =~= seq![' '] + line);
    let field = s.skip(5);
    assert(line.len() > 0 ==> field[1] == line[0]);
    lemma_trim_start(field, 1);
    assert(field.skip(1) =~= line);
}

proof fn lemma_data_lines(payload: Seq<Seq<char>>)
    requires
        forall|k: int|
            0 <= k < payload.len() && (#[trigger] payload[k]).len() > 0 ==> !is_white(
                payload[k][0],
            ),
    ensures
        data_lines(payload.map_values(|line: Seq<char>| data_line(line))) == payload,
    decreases payload.len(),
{
    let sent = payload.map_values(|line: Seq<char>| data_line(line));
    if payload.len() > 0 {
        let before = payload.drop_last();
        assert(sent.drop_last() =~= before.map_values(|line: Seq<char>| data_line(line)));
        assert forall|k: int| 0 <= k < before.len() && (#[trigger] before[k]).len() > 0 implies
            !is_white(before[k][0]) by {
            assert(payload[k].len() > 0);
        }
        lemma_data_lines(before);
        assert(payload.last() == payload[payload.len() - 1]);
        lemma_data_line(payload.last());
        assert(before.push(payload.last()) =~= payload);
    }
}

proof fn lemma_sent_lines(payload: Seq<Seq<char>>)
    requires
        whole_lines(payload),
    ensures
        whole_lines(payload.map_values(|line: Seq<char>| data_line(line))),
{
    let sent = payload.map_values(|line: Seq<char>| data_line(line));
    assert forall|k: int, i: int| 0 <= k < sent.len() && 0 <= i < sent[k].len() implies #[trigger]
        sent[k][i] != '\n' by {
        if i >= 6 {
            assert(sent[k][i] == payload[k][i - 6]);
        }
    }
}

/// An event gives back what was sent: its payload is the payload lines joined
/// by line feeds.
pub proof fn law_event_round_trip(payload: Seq<Seq<char>>)
    requires
        sendable(payload),
    ensures
        payload_of(event_text(payload)) == Some(line_joined(payload)),
{
    let sent = payload.map_values(|line: Seq<char>| data_line(line));
    lemma_sent_lines(payload);
    lemma_data_lines(payload);
    let head = sent.drop_last();
    let last = sent.last();
    lemma_whole_lines_skip(sent);
    assert(event_text(payload) =~= terminated(head) + last);
    law_lines_of_terminated(head, last);
    let strip = |line: Seq<char>| without_return(line);
    assert forall|k: int| 0 <= k < head.len() implies head.map_values(strip)[k] == head[k] by {
        if payload[k].len() > 0 {
            assert(head[k].last() == payload[k].last());
        } else {
            assert(head[k].last() == ' ');
        }
    }
    assert(head.map_values(strip) =~= head);
    assert forall|i: int| !first_line_feed(last, i) by {
        if 0 <= i < last.len() {
            assert(sent[sent.len() - 1][i] != '\n');
        }
    }
    assert(head + seq![last] =~= sent);
}

/// A stream gives back what was sent: each event's payload, in order, and
/// nothing is left over.
pub proof fn law_stream_round_trip(payloads: Seq<Seq<Seq<char>>>)
    requires
        forall|n: int| 0 <= n < payloads.len() ==> sendable(#[trigger] payloads[n]),
    ensures
        payloads_of(split_events(stream_text(payloads)).0) == payloads.map_values(
            |payload: Seq<Seq<char>>| line_joined(payload),
        ),
        split_events(stream_text(payloads)).1 == Seq::<char>::empty(),
    decreases payloads.len(),
{
    let expected = payloads.map_values(|payload: Seq<Seq<char>>| line_joined(payload));
    if payloads.len() == 0 {
        lemma_split_none(stream_text(payloads));
        assert(expected =~= Seq::empty());
    } else {
        let first = payloads[0];
        let rest = payloads.skip(1);
        let event = event_text(first);
        let s = stream_text(payloads);
        let sent = first.map_values(|line: Seq<char>| data_line(line));
        lemma_sent_lines(first);
        lemma_no_blank_in_terminated(sent);
        lemma_terminated_len(sent);
        let n = event.len() as int;
        assert(terminated(sent).last() == '\n');
        assert(event.push('\n') =~= terminated(sent));
        assert(blank_line_at(s, n));
        assert forall|j: int| 0 <= j < n implies !blank_line_at(s, j) by {
            if blank_line_at(s, j) {
                assert(blank_line_at(terminated(sent), j));
            }
        }
        lemma_split_step(s, n);
        assert(s.take(n) =~= event);
        assert(s.skip(n + 2) =~= stream_text(rest));
        assert forall|m: int| 0 <= m < rest.len() implies sendable(#[trigger] rest[m]) by {
            assert(sendable(payloads[m + 1]));
        }
        law_stream_round_trip(rest);
        law_event_round_trip(first);
        law_payloads_concat(seq![event], split_events(stream_text(rest)).0);
        assert(seq![event].drop_last() =~= Seq::empty());
        reveal_with_fuel(payloads_of, 2);
        assert(payloads_of(seq![event]) =~= seq![line_joined(first)]);
        assert(expected =~= seq![line_joined(first)] + rest.map_values(
            |payload: Seq<Seq<char>>| line_joined(payload),
        ));
    }
}

/// Whether `write` writes every value on one line that does not start with
/// white space.
pub open spec fn writes_single_lines<E, W: Fn(&E) -> String>(write: W) -> bool {
    forall|value: E, text: Seq<char>| #[trigger]
        writes(write, value, text) ==> sendable(seq![text])
}

/// An event that was written as one `data:` line is read back as it was. This
/// holds for any way to write events on single lines and to parse them that
/// gives back what was written.
pub proof fn law_written_event_is_read_back<
    E,
    W: Fn(&E) -> String,
    P: Fn(&str) -> Option<E>,
>(write: W, parse: P, event: E, text: Seq<char>, parsed: Option<E>)
    requires
        reads_back(write, parse),
        writes_single_lines(write),
        writes(write, event, text),
        event_parses(parse, data_line(text), parsed),
    ensures
        parsed == Some(event),
{
    lemma_single_line(text);
    law_event_round_trip(seq![text]);
}

/// An event of one payload line, as it is sent.
proof fn lemma_single_line(text: Seq<char>)
    ensures
        event_text(seq![text]) == data_line(text),
        line_joined(seq![text]) == text,
{
    let sent = seq![text].map_values(|line: Seq<char>| data_line(line));
    reveal_with_fuel(terminated, 2);
    assert(sent.drop_last() =~= Seq::empty());
    assert(seq![text].drop_last() =~= Seq::empty());
    assert(terminated(sent) =~= data_line(text).push('\n'));
    assert(terminated(seq![text]) =~= text.push('\n'));
    assert(event_text(seq![text]) =~= data_line(text));
    assert(line_joined(seq![text]) =~= text);
}

proof fn lemma_accepted_all<E>(outcomes: Seq<Option<E>>, values: Seq<E>)
    requires
        outcomes.len() == values.len(),
        forall|k: int| 0 <= k < values.len() ==> outcomes[k] == Some(#[trigger] values[k]),
    ensures
        accepted(outcomes) == values,
    decreases values.len(),
{
    if values.len() == 0 {
        assert(accepted(outcomes) =~= values);
    } else {
        let before = values.drop_last();
        assert forall|k: int| 0 <= k < before.len() implies outcomes.drop_last()[k] == Some(
            #[trigger] before[k],
        ) by {
            assert(outcomes[k] == Some(values[k]));
        }
        lemma_accepted_all(outcomes.drop_last(), before);
        assert(outcomes[values.len() - 1] == Some(values[values.len() - 1]));
        assert(accepted(outcomes) =~= values);
    }
}

/// Parsing the payloads of a stream piece by piece gives the values of the
/// whole: those of the first piece, then those of the second.
pub proof fn law_parse_in_pieces<E, P: Fn(&str) -> Option<E>>(
    parse: P,
    a: Seq<Seq<char>>,
    b: Seq<Seq<char>>,
    values_a: Seq<E>,
    values_b: Seq<E>,
)
    requires
        payloads_parse(parse, a, values_a),
        payloads_parse(parse, b, values_b),
    ensures
        payloads_parse(parse, a + b, values_a + values_b),
{
    let first = choose|outcomes: Seq<Option<E>>| #[trigger]
        parses_each(parse, a, outcomes) && values_a == accepted(outcomes);
    let second = choose|outcomes: Seq<Option<E>>| #[trigger]
        parses_each(parse, b, outcomes) && values_b == accepted(outcomes);
    let all = first + second;
    assert forall|k: int| 0 <= k < all.len() implies parses(
        parse,
        (a + b)[k],
        #[trigger] all[k],
    ) by {
        if k < first.len() {
            assert(parses(parse, a[k], first[k]));
        } else {
            assert(parses(parse, b[k - first.len()], second[k - first.len()]));
        }
    }
    lemma_accepted_concat(first, second);
    assert(parses_each(parse, a + b, all));
}

proof fn lemma_accepted_concat<E>(a: Seq<Option<E>>, b: Seq<Option<E>>)
    ensures
        accepted(a + b) == accepted(a) + accepted(b),
    decreases b.len(),
{
    if b.len() == 0 {
        assert(a + b =~= a);
        assert(accepted(a) + accepted(b) =~= accepted(a));
    } else {
        assert((a + b).drop_last() =~= a + b.drop_last());
        lemma_accepted_concat(a, b.drop_last());
        assert(accepted(a + b) =~= accepted(a) + accepted(b));
    }
}

/// A stream of events, each written as one `data:` line, is read back as it
/// was: every event, in order, and nothing is left over. This holds for any
/// way to write events on single lines and to parse them that gives back what
/// was written.
pub proof fn law_written_stream_is_read_back<
    E,
    W: Fn(&E) -> String,
    P: Fn(&str) -> Option<E>,
>(write: W, parse: P, events: Seq<E>, texts: Seq<Seq<char>>, parsed: Seq<E>)
    requires
        reads_back(write, parse),
        writes_single_lines(write),
        texts.len() == events.len(),
        forall|k: int| 0 <= k < events.len() ==> writes(write, #[trigger] events[k], texts[k]),
        payloads_parse(
            parse,
            payloads_of(
                split_events(stream_text(texts.map_values(|text: Seq<char>| seq![text]))).0,
            ),
            parsed,
        ),
    ensures
        parsed == events,
        split_events(stream_text(texts.map_values(|text: Seq<char>| seq![text]))).1 == Seq::<
            char,
        >::empty(),
{
    let payloads = texts.map_values(|text: Seq<char>| seq![text]);
    assert forall|n: int| 0 <= n < payloads.len() implies sendable(#[trigger] payloads[n]) by {
        assert(writes(write, events[n], texts[n]));
    }
    law_stream_round_trip(payloads);
    let joined = payloads.map_values(|payload: Seq<Seq<char>>| line_joined(payload));
    assert forall|k: int| 0 <= k < joined.len() implies joined[k] == texts[k] by {
        lemma_single_line(texts[k]);
    }
    assert(joined =~= texts);
    let outcomes = choose|outcomes: Seq<Option<E>>| #[trigger]
        parses_each(parse, texts, outcomes) && parsed == accepted(outcomes);
    assert forall|k: int| 0 <= k < events.len() implies outcomes[k] == Some(
        #[trigger] events[k],
    ) by {
        assert(writes(write, events[k], texts[k]));
        assert(parses(parse, texts[k], outcomes[k]));
    }
    lemma_accepted_all(outcomes, events);
}

/// A blank line ends an event: what stands before the first one is the first
/// event, whatever it holds and however long it is, and what follows is cut in
/// the same way. The condition says that `a` holds no blank line and does not
/// end in a line feed.
pub proof fn law_blank_line_ends_event(a: Seq<char>, b: Seq<char>)
    requires
        forall|i: int|
            0 <= i < a.len() && #[trigger] a[i] == '\n' ==> i + 1 < a.len() && a[i + 1] != '\n',
    ensures
        split_events(a + seq!['\n', '\n'] + b).0 == seq![a] + split_events(b).0,
        split_events(a + seq!['\n', '\n'] + b).1 == split_events(b).1,
{
    let s = a + seq!['\n', '\n'] + b;
    let n = a.len() as int;
    assert(s[n] == '\n' && s[n + 1] == '\n');
    assert(blank_line_at(s, n));
    assert forall|j: int| 0 <= j < n implies !blank_line_at(s, j) by {
        assert(s[j] == a[j]);
        if a[j] == '\n' {
            assert(s[j + 1] == a[j + 1]);
        }
    }
    assert(first_blank_line(s, n));
    lemma_split_step(s, n);
    assert(s.take(n) =~= a);
    assert(s.skip(n + 2) =~= b);
}

/// A text without a blank line holds no complete event: all of it waits for
/// more.
pub proof fn law_no_event_without_blank_line(s: Seq<char>)
    requires
        forall|i: int|
            0 <= i && i + 1 < s.len() && #[trigger] s[i] == '\n' ==> s[i + 1] != '\n',
    ensures
        split_events(s).0 == Seq::<Seq<char>>::empty(),
        split_events(s).1 == s,
        !has_blank_line(s),
{
    assert forall|i: int| !blank_line_at(s, i) by {
        if 0 <= i && i + 1 < s.len() && s[i] == '\n' {
        }
    }
    lemma_split_none(s);
}

/// A text has a blank line just where two line feeds stand side by side.
pub proof fn law_blank_lines_are_two_line_feeds(s: Seq<char>)
    ensures
        has_blank_line(s) <==> exists|i: int|
            0 <= i && i + 1 < s.len() && #[trigger] s[i] == '\n' && s[i + 1] == '\n',
{
    if has_blank_line(s) {
        let i = choose|i: int| blank_line_at(s, i);
        assert(s[i] == '\n');
    }
    if exists|i: int| 0 <= i && i + 1 < s.len() && #[trigger] s[i] == '\n' && s[i + 1] == '\n' {
        let i = choose|i: int|
            0 <= i && i + 1 < s.len() && #[trigger] s[i] == '\n' && s[i + 1] == '\n';
        assert(blank_line_at(s, i));
    }
}

/// A line goes up to its line feed, and a carriage return right before that
/// belongs to the line's end. Whatever follows makes further lines. A last
/// line without an end is a line as it stands.
pub proof fn law_lines_one_by_one(a: Seq<char>, b: Seq<char>)
    requires
        forall|i: int| 0 <= i < a.len() ==> #[trigger] a[i] != '\n',
    ensures
        a.len() == 0 || a.last() != '\r' ==> lines(a + seq!['\n'] + b) == seq![a] + lines(b),
        lines(a + seq!['\r', '\n'] + b) == seq![a] + lines(b),
        a.len() > 0 ==> lines(a) == seq![a],
        lines(Seq::empty()) == Seq::<Seq<char>>::empty(),
{
    let n = a.len() as int;
    let s = a + seq!['\n'] + b;
    assert forall|j: int| 0 <= j < n implies s[j] != '\n' by {
        assert(s[j] == a[j]);
    }
    assert(s[n] == '\n');
    assert(first_line_feed(s, n));
    lemma_first_line_feed_unique(s, n);
    assert(s.take(n) =~= a);
    assert(s.skip(n + 1) =~= b);
    let t = a + seq!['\r', '\n'] + b;
    assert forall|j: int| 0 <= j < n + 1 implies t[j] != '\n' by {
        if j < n {
            assert(t[j] == a[j]);
        }
    }
    assert(t[n + 1] == '\n');
    assert(first_line_feed(t, n + 1));
    lemma_first_line_feed_unique(t, n + 1);
    assert(t.take(n + 1).drop_last() =~= a);
    assert(t.take(n + 1).last() == '\r');
    assert(t.skip(n + 2) =~= b);
    assert forall|i: int| !first_line_feed(a, i) by {
        if 0 <= i < a.len() {
            assert(a[i] != '\n');
        }
    }
    assert forall|i: int| !first_line_feed(Seq::<char>::empty(), i) by {}
    assert(lines(Seq::empty()) =~= Seq::<Seq<char>>::empty());
}

/// A `data:` line carries all that follows the field name and the white space
/// behind it. Any other line carries nothing.
pub proof fn law_data_lines_carry_their_rest(
    line: Seq<char>,
    white: Seq<char>,
    rest: Seq<char>,
)
    requires
        forall|i: int| 0 <= i < white.len() ==> is_white(#[trigger] white[i]),
        rest.len() > 0 ==> !is_white(rest[0]),
    ensures
        data_of(seq!['d', 'a', 't', 'a', ':'] + white + rest) == Some(rest),
        !(line.len() >= 5 && line[0] == 'd' && line[1] == 'a' && line[2] == 't' && line[3] == 'a'
            && line[4] == ':') ==> data_of(line) is None,
{
    let s = seq!['d', 'a', 't', 'a', ':'] + white + rest;
    assert(s.subrange(0, 5) =~= data_field());
    let field = s.skip(5);
    assert(field =~= white + rest);
    assert forall|j: int| 0 <= j < white.len() implies is_white(field[j]) by {
        assert(field[j] == white[j]);
    }
    lemma_trim_start(field, white.len() as int);
    assert(field.skip(white.len() as int) =~= rest);
    if data_field().is_prefix_of(line) {
        let head = line.subrange(0, 5);
        assert(head =~= data_field());
        assert(line[0] == head[0] && line[1] == head[1] && line[2] == head[2] && line[3] == head[3]
            && line[4] == head[4]);
    }
}

/// The data of an event's lines is what each `data:` line carries, in order.
pub proof fn law_data_lines_in_order(list: Seq<Seq<char>>)
    ensures
        data_lines(list) == list.filter_map(|line: Seq<char>| data_of(line)),
    decreases list.len(),
{
    reveal(Seq::filter_map);
    if list.len() > 0 {
        law_data_lines_in_order(list.drop_last());
    }
    assert(data_lines(list) =~= list.filter_map(|line: Seq<char>| data_of(line)));
}

/// The payloads of a run of events are those of the events that have one, in
/// order.
pub proof fn law_payloads_in_order(events: Seq<Seq<char>>)
    ensures
        payloads_of(events) == events.filter_map(|event: Seq<char>| payload_of(event)),
    decreases events.len(),
{
    reveal(Seq::filter_map);
    if events.len() > 0 {
        law_payloads_in_order(events.drop_last());
    }
    assert(payloads_of(events) =~= events.filter_map(|event: Seq<char>| payload_of(event)));
}

/// The values that parsing accepts are those it gave, in order.
pub proof fn law_accepted_in_order<E>(outcomes: Seq<Option<E>>)
    ensures
        accepted(outcomes) == outcomes.filter_map(|outcome: Option<E>| outcome),
    decreases outcomes.len(),
{
    reveal(Seq::filter_map);
    if outcomes.len() > 0 {
        law_accepted_in_order(outcomes.drop_last());
    }
    assert(accepted(outcomes) =~= outcomes.filter_map(|outcome: Option<E>| outcome));
}

/// Data lines are joined by a line feed between any two, each of them whole.
pub proof fn law_lines_are_joined_by_line_feeds(list: Seq<Seq<char>>, line: Seq<char>)
    ensures
        line_joined(seq![line]) == line,
        list.len() > 0 ==> line_joined(list.push(line)) == line_joined(list) + seq!['\n'] + line,
{
    lemma_single_line(line);
    if list.len() > 0 {
        assert(list.push(line).drop_last() =~= list);
        assert(terminated(list.push(line)) == terminated(list) + line.push('\n'));
        lemma_terminated_len(list);
        assert(terminated(list).last() == '\n');
        assert(terminated(list) =~= line_joined(list) + seq!['\n']);
        assert(line_joined(list.push(line)) =~= line_joined(list) + seq!['\n'] + line);
    }
}

/// An event has a payload just where it has a `data:` line, and the payload is
/// the data of all its lines, joined.
pub proof fn law_payload_is_all_data(event: Seq<char>)
    ensures
        payload_of(event) is Some <==> exists|k: int|
            0 <= k < lines(event).len() && data_of(#[trigger] lines(event)[k]) is Some,
        payload_of(event) matches Some(payload) ==> payload == line_joined(
            lines(event).filter_map(|line: Seq<char>| data_of(line)),
        ),
{
    law_data_lines_in_order(lines(event));
    lemma_some_data(lines(event));
}

proof fn lemma_some_data(list: Seq<Seq<char>>)
    ensures
        data_lines(list).len() > 0 <==> exists|k: int|
            0 <= k < list.len() && data_of(#[trigger] list[k]) is Some,
    decreases list.len(),
{
    if list.len() > 0 {
        let before = list.drop_last();
        lemma_some_data(before);
        if data_lines(list).len() > 0 {
            if data_of(list.last()) is Some {
                assert(data_of(list[list.len() - 1]) is Some);
            } else {
                let k = choose|k: int|
                    0 <= k < before.len() && data_of(#[trigger] before[k]) is Some;
                assert(data_of(list[k]) is Some);
            }
        }
        if exists|k: int| 0 <= k < list.len() && data_of(#[trigger] list[k]) is Some {
            let k = choose|k: int| 0 <= k < list.len() && data_of(#[trigger] list[k]) is Some;
            if k < before.len() {
                assert(data_of(before[k]) is Some);
            }
        }
    }
}

/// What is made of payloads comes from a call on each of them, whole, and in
/// order: every value that such a call gave, and no other.
pub proof fn law_every_payload_is_parsed<E, P: Fn(&str) -> Option<E>>(
    parse: P,
    payloads: Seq<Seq<char>>,
    values: Seq<E>,
)
    requires
        payloads_parse(parse, payloads, values),
    ensures
        exists|outcomes: Seq<Option<E>>|
            #![trigger accepted(outcomes)]
            {
                &&& outcomes.len() == payloads.len()
                &&& forall|k: int|
                    0 <= k < outcomes.len() ==> parses(parse, payloads[k], #[trigger] outcomes[k])
                &&& values == outcomes.filter_map(|outcome: Option<E>| outcome)
            },
{
    let outcomes = choose|outcomes: Seq<Option<E>>| #[trigger]
        parses_each(parse, payloads, outcomes) && values == accepted(outcomes);
    law_accepted_in_order(outcomes);
    assert(values == accepted(outcomes));
}

/// One event's text comes to what `parse` makes of its whole payload.
pub proof fn law_event_is_parsed_whole<E, P: Fn(&str) -> Option<E>>(
    parse: P,
    raw: Seq<char>,
    value: Option<E>,
)
    requires
        event_parses(parse, raw, value),
    ensures
        match payload_of(raw) {
            Some(payload) => exists|t: &str|
                #![trigger call_ensures(parse, (t,), value)]
                t@ == payload && call_ensures(parse, (t,), value),
            None => value is None,
        },
{
}

} // verus!
