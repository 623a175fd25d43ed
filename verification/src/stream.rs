//! Streamed responses, watched until the first piece of output.
use crate::channel;
use crate::json;
use crate::json::{Json, JsonTree};
use crate::numeral;
use crate::text;
use vstd::prelude::*;
use vstd::string::*;
use vstd::utf8::*;

verus! {

/// What `String::from_utf8_lossy` makes of `bytes`.
pub uninterp spec fn lossy_text(bytes: Seq<u8>) -> Seq<char>;

/// Calls `String::from_utf8_lossy`. Its result is named `lossy_text`; of bytes
/// that are UTF-8 it is claimed that it is the text they stand for.
#[verifier::external_body]
fn std_from_utf8_lossy(bytes: &[u8]) -> (r: String)
    ensures
        r@ == lossy_text(bytes@),
        valid_utf8(bytes@) ==> r@ == decode_utf8(bytes@),
{
    String::from_utf8_lossy(bytes).into_owned()
}

/// The text that `bytes` stand for, with a mark in the place of what is not
/// UTF-8.
pub fn text_of_bytes(bytes: &[u8]) -> (r: String)
    ensures
        r@ == lossy_text(bytes@),
        valid_utf8(bytes@) ==> r@ == decode_utf8(bytes@),
{
    std_from_utf8_lossy(bytes)
}

/// The text of what may be there is not empty.
pub open spec fn some_text(tree: Option<JsonTree>) -> bool {
    match json::text_in(tree) {
        Some(text) => text.len() > 0,
        None => false,
    }
}

/// The choice brings text or calls of tools.
pub open spec fn choice_speaks(choice: JsonTree) -> bool {
    let delta = choice.get("delta"@);
    ||| some_text(json::member_of(delta, "content"@))
    ||| (match json::member_of(delta, "tool_calls"@) {
        Some(calls) => match calls.as_array() {
            Some(items) => items.len() > 0,
            None => false,
        },
        None => false,
    })
    ||| some_text(json::member_of(choice.get("message"@), "content"@))
}

/// Is the text of what may be there not empty?
fn has_text(value: Option<&Json>) -> (r: bool)
    ensures
        r == some_text(json::maybe_tree_ref(value)),
{
    match json::text_found(value) {
        Some(text) => !text.is_empty(),
        None => false,
    }
}

/// Does the choice bring text or calls of tools?
pub fn choice_has_output(choice: &Json) -> (r: bool)
    ensures
        r == choice_speaks(choice.tree()),
{
    let delta: Option<&Json> = choice.get("delta");
    if has_text(json::member_in(delta, "content")) {
        return true;
    }
    if let Some(calls) = json::member_in(delta, "tool_calls") {
        if let Some(items) = calls.as_array() {
            if items.len() > 0 {
                return true;
            }
        }
    }
    has_text(json::member_in(choice.get("message"), "content"))
}

/// One of `choices` brings text or calls of tools.
pub open spec fn any_speaks(choices: Seq<JsonTree>) -> bool {
    exists|i: int| 0 <= i < choices.len() && choice_speaks(#[trigger] choices[i])
}

/// One of the choices of an event brings text or calls of tools.
pub open spec fn event_speaks(event: JsonTree) -> bool {
    match json::array_member(event, "choices"@) {
        Some(choices) => any_speaks(choices),
        None => false,
    }
}

/// Does one of the choices of an event bring text or calls of tools?
pub fn event_has_output(event: &Json) -> (r: bool)
    ensures
        r == event_speaks(event.tree()),
{
    let choices: &Vec<Json> = match event.array_member("choices") {
        Some(choices) => choices,
        None => {
            return false;
        },
    };
    let ghost all = json::trees(choices@);
    let mut i: usize = 0;
    while i < choices.len()
        invariant
            i <= choices@.len(),
            all == json::trees(choices@),
            json::array_member(event.tree(), "choices"@) == Some(all),
            forall|j: int| 0 <= j < i ==> !choice_speaks(#[trigger] all[j]),
        decreases choices@.len() - i,
    {
        assert(all[i as int] == choices@[i as int].tree());
        if choice_has_output(&choices[i]) {
            assert(choice_speaks(all[i as int]));
            assert(any_speaks(all));
            return true;
        }
        i += 1;
    }
    false
}

/// The data of an event tell of output. Where they are not JSON, the names of
/// the members that hold output count.
pub open spec fn data_speaks(data: Seq<char>) -> bool {
    if data.len() == 0 || data == "[DONE]"@ {
        false
    } else {
        match json::parsed_text(data) {
            Some(event) => event_speaks(event),
            None => text::contains_text(data, "\"content\""@) || text::contains_text(
                data,
                "\"tool_calls\""@,
            ),
        }
    }
}

/// Do the data of an event tell of output?
pub fn sse_data_has_output(data: &str) -> (r: bool)
    ensures
        r == data_speaks(data@),
{
    if data.is_empty() || text::same_text(data, "[DONE]") {
        return false;
    }
    match Json::parse_text(data) {
        Some(event) => event_has_output(&event),
        None => text::contains(data, "\"content\"") || text::contains(data, "\"tool_calls\""),
    }
}

/// The line of an event stream tells of output.
pub open spec fn line_speaks(line: Seq<char>) -> bool {
    let plain = text::trimmed(line);
    text::begins_with(plain, "data:"@) && data_speaks(
        text::trimmed(plain.skip("data:"@.len() as int)),
    )
}

/// Does the line of an event stream tell of output?
fn line_has_output(line: &str) -> (r: bool)
    ensures
        r == line_speaks(line@),
{
    let plain: &str = text::trim(line);
    if !text::starts_with(plain, "data:") {
        return false;
    }
    let from: usize = "data:".unicode_len();
    let to: usize = plain.unicode_len();
    assert(plain@.subrange(from as int, to as int) =~= plain@.skip(from as int));
    sse_data_has_output(text::trim(plain.substring_char(from, to)))
}

/// One of the lines of `text` that have ended tells of output.
pub open spec fn lines_speak(text: Seq<char>) -> bool {
    let lines = text::pieces(text, '\n');
    exists|i: int| 0 <= i < lines.len() - 1 && line_speaks(#[trigger] lines[i])
}

/// Takes the lines that have ended out of `buffer`, once `text` has been put at
/// its end, and says whether one of them tells of output.
pub fn sse_text_has_output(buffer: &mut String, text: &str) -> (r: bool)
    ensures
        r == lines_speak(old(buffer)@ + text@),
        final(buffer)@ == text::pieces(old(buffer)@ + text@, '\n').last(),
{
    let whole: String = text::concat2(buffer.as_str(), text);
    let lines: Vec<String> = text::split(whole.as_str(), '\n');
    let ghost all = text::texts(lines@);
    let mut seen: bool = false;
    let mut i: usize = 0;
    while i < lines.len() - 1
        invariant
            i < lines@.len(),
            all == text::texts(lines@),
            seen == exists|j: int| 0 <= j < i && line_speaks(#[trigger] all[j]),
        decreases lines@.len() - i,
    {
        assert(all[i as int] == lines@[i as int]@);
        if line_has_output(lines[i].as_str()) {
            assert(line_speaks(all[i as int]));
            seen = true;
        }
        i += 1;
    }
    *buffer = lines[lines.len() - 1].clone();
    seen
}

/// Takes the lines that have ended out of `buffer`, once `chunk` has been put at
/// its end, and says whether one of them tells of output.
pub fn sse_chunk_has_output(buffer: &mut String, chunk: &[u8]) -> (r: bool)
    ensures
        r == lines_speak(old(buffer)@ + lossy_text(chunk@)),
        final(buffer)@ == text::pieces(old(buffer)@ + lossy_text(chunk@), '\n').last(),
{
    let text: String = text_of_bytes(chunk);
    sse_text_has_output(buffer, text.as_str())
}

/// The digits of `s` are those of a decimal number.
pub open spec fn all_digits(s: Seq<char>) -> bool {
    forall|i: int| 0 <= i < s.len() ==> '0' <= #[trigger] s[i] <= '9'
}

/// The number that the digits `s` stand for.
pub open spec fn digits_value(s: Seq<char>) -> int
    decreases s.len(),
{
    if s.len() == 0 {
        0
    } else {
        10 * digits_value(s.drop_last()) + (s.last() as int - '0' as int)
    }
}

/// The number that `s` spells: digits, behind a plus sign if there is one, for a
/// number that fits in 64 bits.
pub open spec fn number_in(s: Seq<char>) -> Option<u64> {
    let digits = if s.len() > 0 && s[0] == '+' {
        s.skip(1)
    } else {
        s
    };
    if digits.len() > 0 && all_digits(digits) && digits_value(digits) <= u64::MAX {
        Some(digits_value(digits) as u64)
    } else {
        None
    }
}

proof fn lemma_longer_digits(s: Seq<char>, n: int)
    requires
        0 <= n <= s.len(),
        all_digits(s),
    ensures
        0 <= digits_value(s.take(n)) <= digits_value(s),
    decreases s.len(),
{
    if n == s.len() {
        assert(s.take(n) =~= s);
        if s.len() > 0 {
            assert(s.last() == s[s.len() - 1]);
            assert forall|i: int| 0 <= i < s.drop_last().len() implies '0'
                <= #[trigger] s.drop_last()[i] <= '9' by {
                assert(s.drop_last()[i] == s[i]);
            }
            lemma_longer_digits(s.drop_last(), n - 1);
            assert(s.drop_last().take(n - 1) =~= s.drop_last());
        }
    } else {
        assert(s.last() == s[s.len() - 1]);
        assert forall|i: int| 0 <= i < s.drop_last().len() implies '0'
            <= #[trigger] s.drop_last()[i] <= '9' by {
            assert(s.drop_last()[i] == s[i]);
        }
        lemma_longer_digits(s.drop_last(), n);
        assert(s.drop_last().take(n) =~= s.take(n));
    }
}

/// The number that `s` spells, where it spells one.
pub fn parse_u64(s: &str) -> (r: Option<u64>)
    ensures
        r == number_in(s@),
{
    let chars: Vec<char> = text::chars_of(s);
    let start: usize = if chars.len() > 0 && chars[0] == '+' {
        1
    } else {
        0
    };
    let ghost digits = if s@.len() > 0 && s@[0] == '+' {
        s@.skip(1)
    } else {
        s@
    };
    assert(digits =~= s@.skip(start as int));
    if start == chars.len() {
        return None;
    }
    let mut value: u64 = 0;
    let mut i: usize = start;
    assert(digits.take(0) =~= Seq::<char>::empty());
    while i < chars.len()
        invariant
            start <= i <= chars@.len(),
            start <= 1,
            chars@ == s@,
            digits == s@.skip(start as int),
            number_in(s@) == (if digits.len() > 0 && all_digits(digits) && digits_value(digits)
                <= u64::MAX {
                Some(digits_value(digits) as u64)
            } else {
                None
            }),
            forall|j: int| 0 <= j < i - start ==> '0' <= #[trigger] digits[j] <= '9',
            value == digits_value(digits.take(i - start)),
        decreases chars@.len() - i,
    {
        let c: char = chars[i];
        assert(digits[i - start] == c);
        if !('0' <= c && c <= '9') {
            assert(!all_digits(digits));
            return None;
        }
        let ghost longer = digits.take(i - start + 1);
        assert(longer.drop_last() =~= digits.take(i - start));
        let wide: u128 = (value as u128) * 10 + (c as u8 - 48) as u128;
        assert(wide == digits_value(longer));
        if wide > u64::MAX as u128 {
            proof {
                if all_digits(digits) {
                    lemma_longer_digits(digits, i - start + 1);
                }
            }
            return None;
        }
        value = wide as u64;
        i += 1;
    }
    assert(digits.take(digits.len() as int) =~= digits);
    Some(value)
}

/// A time in milliseconds as it was configured, or `default` where it was not;
/// never less than one.
pub open spec fn wait_ms(configured: Option<Seq<char>>, default: u64) -> u64 {
    let ms = match configured {
        Some(value) => match number_in(text::trimmed(value)) {
            Some(ms) => ms,
            None => default,
        },
        None => default,
    };
    if ms < 1 {
        1
    } else {
        ms
    }
}

/// A time in milliseconds as it was configured, or `default` where it was not.
pub fn configured_ms(configured: Option<&str>, default: u64) -> (r: u64)
    ensures
        r == wait_ms(text::maybe_str(configured), default),
{
    let ms: u64 = match configured {
        Some(value) => match parse_u64(text::trim(value)) {
            Some(ms) => ms,
            None => default,
        },
        None => default,
    };
    if ms < 1 {
        1
    } else {
        ms
    }
}

/// How long to wait for the first piece of output, in milliseconds.
pub fn first_text_timeout(configured: Option<&str>) -> (r: u64)
    ensures
        r == wait_ms(text::maybe_str(configured), 9_000),
{
    configured_ms(configured, 9_000)
}

/// The milliseconds in a span of time that was measured in nanoseconds, as far
/// as they fit in 64 bits.
pub open spec fn whole_ms(nanos: u128) -> u64 {
    if nanos / 1_000_000 <= u64::MAX {
        (nanos / 1_000_000) as u64
    } else {
        u64::MAX
    }
}

/// The milliseconds in a span of time that was measured in nanoseconds.
pub fn elapsed_ms(nanos: u128) -> (r: u64)
    ensures
        r == whole_ms(nanos),
{
    let ms: u128 = nanos / 1_000_000;
    if ms <= u64::MAX as u128 {
        ms as u64
    } else {
        u64::MAX
    }
}

/// What was seen of a stream so far.
pub struct StreamProbe {
    /// The chunks that came, in their order.
    pub buffered: Vec<Vec<u8>>,
    pub first_chunk_ms: Option<u64>,
    pub first_text_ms: Option<u64>,
    pub timed_out: bool,
    pub error: Option<String>,
    /// The line that has not ended yet.
    pub pending: String,
    /// Nothing more is to be read before the stream goes to the client.
    pub ended: bool,
}

/// What a probe holds.
#[verifier::ext_equal]
pub struct StreamProbeView {
    pub buffered: Seq<Seq<u8>>,
    pub first_chunk_ms: Option<u64>,
    pub first_text_ms: Option<u64>,
    pub timed_out: bool,
    pub error: Option<Seq<char>>,
    pub pending: Seq<char>,
    pub ended: bool,
}

/// The content of a list of chunks.
pub open spec fn chunk_views(chunks: Seq<Vec<u8>>) -> Seq<Seq<u8>> {
    Seq::new(chunks.len(), |i: int| chunks[i]@)
}

impl View for StreamProbe {
    type V = StreamProbeView;

    open spec fn view(&self) -> StreamProbeView {
        StreamProbeView {
            buffered: chunk_views(self.buffered@),
            first_chunk_ms: self.first_chunk_ms,
            first_text_ms: self.first_text_ms,
            timed_out: self.timed_out,
            error: channel::maybe_text(self.error),
            pending: self.pending@,
            ended: self.ended,
        }
    }
}

/// What came of waiting for the next chunk.
pub enum ProbeEvent {
    Chunk(Vec<u8>),
    Failed(String),
    Closed,
    TimedOut,
}

/// What an event of a probe holds.
pub enum ProbeEventView {
    Chunk(Seq<u8>),
    Failed(Seq<char>),
    Closed,
    TimedOut,
}

impl View for ProbeEvent {
    type V = ProbeEventView;

    open spec fn view(&self) -> ProbeEventView {
        match self {
            ProbeEvent::Chunk(bytes) => ProbeEventView::Chunk(bytes@),
            ProbeEvent::Failed(error) => ProbeEventView::Failed(error@),
            ProbeEvent::Closed => ProbeEventView::Closed,
            ProbeEvent::TimedOut => ProbeEventView::TimedOut,
        }
    }
}

/// A probe that has seen nothing.
pub open spec fn fresh_probe() -> StreamProbeView {
    StreamProbeView {
        buffered: Seq::empty(),
        first_chunk_ms: None,
        first_text_ms: None,
        timed_out: false,
        error: None,
        pending: Seq::<char>::empty(),
        ended: false,
    }
}

impl StreamProbeView {
    /// The nanoseconds to wait for the next chunk, `elapsed` nanoseconds after the
    /// probe began; none where the probe is over or the time is up.
    pub open spec fn wait(self, timeout_ms: u64, elapsed: u128) -> Option<u128> {
        if self.ended || elapsed >= timeout_ms * 1_000_000 {
            None
        } else {
            Some((timeout_ms * 1_000_000 - elapsed) as u128)
        }
    }

    /// The probe after it was asked whether to wait on.
    pub open spec fn asked(self, timeout_ms: u64, elapsed: u128) -> StreamProbeView {
        if !self.ended && elapsed >= timeout_ms * 1_000_000 {
            StreamProbeView { timed_out: true, ended: true, ..self }
        } else {
            self
        }
    }

    /// The probe after `event`, `now_ms` milliseconds after the request came.
    pub open spec fn after(self, event: ProbeEventView, now_ms: u64) -> StreamProbeView {
        match event {
            ProbeEventView::Chunk(bytes) => {
                let text = self.pending + lossy_text(bytes);
                let speaks = lines_speak(text);
                StreamProbeView {
                    buffered: self.buffered.push(bytes),
                    first_chunk_ms: if self.first_chunk_ms is None {
                        Some(now_ms)
                    } else {
                        self.first_chunk_ms
                    },
                    first_text_ms: if speaks {
                        Some(now_ms)
                    } else {
                        self.first_text_ms
                    },
                    pending: text::pieces(text, '\n').last(),
                    ended: speaks || self.ended,
                    ..self
                }
            },
            ProbeEventView::Failed(error) => StreamProbeView {
                error: Some(error),
                ended: true,
                ..self
            },
            ProbeEventView::Closed => StreamProbeView { ended: true, ..self },
            ProbeEventView::TimedOut => StreamProbeView { timed_out: true, ended: true, ..self },
        }
    }
}

impl StreamProbe {
    /// A probe that has seen nothing.
    pub fn new() -> (r: Self)
        ensures
            r@ == fresh_probe(),
    {
        let r: StreamProbe = StreamProbe {
            buffered: Vec::new(),
            first_chunk_ms: None,
            first_text_ms: None,
            timed_out: false,
            error: None,
            pending: String::new(),
            ended: false,
        };
        assert(r@.buffered =~= Seq::<Seq<u8>>::empty());
        r
    }

    /// The nanoseconds to wait for the next chunk, `elapsed` nanoseconds after the
    /// probe began; none where the probe is over.
    pub fn next_wait(&mut self, timeout_ms: u64, elapsed: u128) -> (r: Option<u128>)
        ensures
            r == old(self)@.wait(timeout_ms, elapsed),
            final(self)@ == old(self)@.asked(timeout_ms, elapsed),
    {
        if self.ended {
            return None;
        }
        let timeout: u128 = (timeout_ms as u128) * 1_000_000;
        if elapsed >= timeout {
            self.timed_out = true;
            self.ended = true;
            return None;
        }
        Some(timeout - elapsed)
    }

    /// Takes in what came of waiting, `now_ms` milliseconds after the request
    /// came.
    pub fn observe(&mut self, event: ProbeEvent, now_ms: u64)
        ensures
            final(self)@ == old(self)@.after(event@, now_ms),
    {
        match event {
            ProbeEvent::Chunk(bytes) => {
                let ghost before = self.buffered@;
                if self.first_chunk_ms.is_none() {
                    self.first_chunk_ms = Some(now_ms);
                }
                if sse_chunk_has_output(&mut self.pending, bytes.as_slice()) {
                    self.first_text_ms = Some(now_ms);
                    self.ended = true;
                }
                self.buffered.push(bytes);
                assert(chunk_views(self.buffered@) =~= chunk_views(before).push(bytes@));
            },
            ProbeEvent::Failed(error) => {
                self.error = Some(error);
                self.ended = true;
            },
            ProbeEvent::Closed => {
                self.ended = true;
            },
            ProbeEvent::TimedOut => {
                self.timed_out = true;
                self.ended = true;
            },
        }
    }
}

/// What holds of a probe all along: it stops once output was seen, an error came
/// or the time was up, and then it has come to an end for one of these alone.
pub open spec fn sound_probe(probe: StreamProbeView) -> bool {
    &&& probe.first_text_ms is Some ==> probe.ended && !probe.timed_out && probe.error is None
    &&& probe.timed_out ==> probe.ended && probe.first_text_ms is None && probe.error is None
    &&& probe.error is Some ==> probe.ended && !probe.timed_out && probe.first_text_ms is None
    &&& probe.first_chunk_ms is Some <==> probe.buffered.len() > 0
}

/// A fresh probe is sound, and stays so as long as it is asked before each wait
/// and told what came of it.
pub proof fn law_probe_stays_sound(
    probe: StreamProbeView,
    timeout_ms: u64,
    elapsed: u128,
    event: ProbeEventView,
    now_ms: u64,
)
    requires
        sound_probe(probe),
    ensures
        sound_probe(fresh_probe()),
        sound_probe(probe.asked(timeout_ms, elapsed)),
        probe.wait(timeout_ms, elapsed) is Some ==> sound_probe(probe.after(event, now_ms)),
        probe.wait(timeout_ms, elapsed) is None ==> probe.asked(timeout_ms, elapsed).ended,
{
}

/// A probe keeps every chunk that came, in its order.
pub proof fn law_probe_keeps_chunks(probe: StreamProbeView, event: ProbeEventView, now_ms: u64)
    ensures
        match event {
            ProbeEventView::Chunk(bytes) => probe.after(event, now_ms).buffered
                == probe.buffered.push(bytes),
            _ => probe.after(event, now_ms).buffered == probe.buffered,
        },
{
}

/// It does not matter how a stream is cut into parts: two parts, one after the
/// other, tell of output just where the whole does, and leave the same line open.
pub proof fn law_parts_of_stream(buffer: Seq<char>, first: Seq<char>, second: Seq<char>)
    ensures
        ({
            let open = text::pieces(buffer + first, '\n').last();
            let whole = buffer + (first + second);
            &&& lines_speak(whole) <==> lines_speak(buffer + first) || lines_speak(open + second)
            &&& text::pieces(whole, '\n').last() == text::pieces(open + second, '\n').last()
        }),
{
    let head = buffer + first;
    let whole = buffer + (first + second);
    assert(whole =~= head + second);
    text::law_pieces_of_parts(head, second, '\n');
    let start = text::pieces(head, '\n');
    let open = start.last();
    text::law_pieces_of_parts(open + second, Seq::<char>::empty(), '\n');
    let rest = text::pieces(open + second, '\n');
    let lines = text::pieces(whole, '\n');
    assert(lines == start.drop_last() + rest);
    if lines_speak(whole) {
        let i = choose|i: int| 0 <= i < lines.len() - 1 && line_speaks(#[trigger] lines[i]);
        if i < start.len() - 1 {
            assert(line_speaks(start[i]));
        } else {
            assert(line_speaks(rest[i - (start.len() - 1)]));
        }
    }
    if lines_speak(head) {
        let i = choose|i: int| 0 <= i < start.len() - 1 && line_speaks(#[trigger] start[i]);
        assert(line_speaks(lines[i]));
    }
    if lines_speak(open + second) {
        let i = choose|i: int| 0 <= i < rest.len() - 1 && line_speaks(#[trigger] rest[i]);
        assert(line_speaks(lines[i + start.len() - 1]));
    }
}

/// There is a text that is not empty.
pub open spec fn says_something(tree: Option<JsonTree>) -> bool {
    tree matches Some(JsonTree::Text(text)) && text.len() > 0
}

/// A choice tells of output where what it adds, or its message, has a content that is not
/// empty, or where what it adds calls tools.
pub proof fn law_choice_speaks(choice: JsonTree)
    ensures
        ({
            let delta = choice.get("delta"@);
            let message = choice.get("message"@);
            let said = delta is Some && says_something(delta->0.get("content"@));
            let whole = message is Some && says_something(message->0.get("content"@));
            let calls = delta is Some && (delta->0.get("tool_calls"@) matches Some(
                JsonTree::Array(items),
            ) && items.len() > 0);
            choice_speaks(choice) <==> said || whole || calls
        }),
{
}

/// An event tells of output where one of its choices does.
pub proof fn law_event_speaks(event: JsonTree, i: int)
    ensures
        event.get("choices"@) matches Some(JsonTree::Array(choices)) ==> {
            &&& 0 <= i < choices.len() && choice_speaks(choices[i]) ==> event_speaks(event)
            &&& (forall|j: int| 0 <= j < choices.len() ==> !choice_speaks(#[trigger] choices[j]))
                ==> !event_speaks(event)
        },
        !(event.get("choices"@) matches Some(JsonTree::Array(_))) ==> !event_speaks(event),
{
}

/// Data that mark the end, or are empty, tell of nothing; data that are JSON tell what the
/// event does; of others the names of the members that hold output count.
pub proof fn law_data_speaks(data: Seq<char>)
    ensures
        data.len() == 0 || data == "[DONE]"@ ==> !data_speaks(data),
        data.len() > 0 && data != "[DONE]"@ ==> {
            &&& json::parsed_text(data) matches Some(event) ==> (data_speaks(data) <==> event_speaks(
                event,
            ))
            &&& json::parsed_text(data) is None ==> (data_speaks(data) <==> text::contains_text(
                data,
                "\"content\""@,
            ) || text::contains_text(data, "\"tool_calls\""@))
        },
{
}

/// Only a line of data tells of output: what stands behind `data:`, without white space
/// around it, does.
pub proof fn law_line_speaks(line: Seq<char>, rest: Seq<char>)
    ensures
        text::trimmed(line) == "data:"@ + rest ==> (line_speaks(line) <==> data_speaks(
            text::trimmed(rest),
        )),
        !text::begins_with(text::trimmed(line), "data:"@) ==> !line_speaks(line),
{
    let whole = "data:"@ + rest;
    assert(whole.subrange(0, "data:"@.len() as int) =~= "data:"@);
    assert(whole.skip("data:"@.len() as int) =~= rest);
}

proof fn lemma_unbroken(line: Seq<char>)
    requires
        !line.contains('\n'),
    ensures
        text::pieces(line, '\n') == seq![line],
    decreases line.len(),
{
    if line.len() > 0 {
        let rest = line.drop_last();
        assert(!rest.contains('\n')) by {
            if rest.contains('\n') {
                let k = choose|k: int| 0 <= k < rest.len() && rest[k] == '\n';
                assert(line[k] == '\n');
            }
        }
        lemma_unbroken(rest);
        assert(line[line.len() - 1] != '\n');
        assert(text::pieces(rest, '\n').drop_last() =~= Seq::<Seq<char>>::empty());
        assert(rest.push(line.last()) =~= line);
        assert(text::pieces(line, '\n') =~= seq![line]);
    } else {
        assert(line =~= Seq::<char>::empty());
    }
}

/// A line counts once it has ended: text with a first line tells of output where that line
/// does or what comes behind it does, and a line that has not ended tells of nothing yet,
/// but stays open.
pub proof fn law_lines_speak(line: Seq<char>, rest: Seq<char>)
    requires
        !line.contains('\n'),
    ensures
        lines_speak(line + seq!['\n'] + rest) <==> line_speaks(line) || lines_speak(rest),
        !lines_speak(line),
        text::pieces(line, '\n').last() == line,
        text::pieces(line + seq!['\n'] + rest, '\n').last() == text::pieces(rest, '\n').last(),
{
    lemma_unbroken(line);
    let head = line + seq!['\n'];
    let all = head + rest;
    assert(head.drop_last() =~= line);
    assert(text::pieces(head, '\n') =~= seq![line, Seq::<char>::empty()]);
    text::law_pieces_of_parts(head, rest, '\n');
    assert(text::pieces(head, '\n').drop_last() =~= seq![line]);
    assert(Seq::<char>::empty() + rest =~= rest);
    text::law_pieces(rest, '\n');
    let tail = text::pieces(rest, '\n');
    let lines = text::pieces(all, '\n');
    assert(lines == seq![line] + tail);
    assert(lines[0] == line);
    if lines_speak(all) {
        let i = choose|i: int| 0 <= i < lines.len() - 1 && line_speaks(#[trigger] lines[i]);
        if i > 0 {
            assert(tail[i - 1] == lines[i]);
        }
    }
    if lines_speak(rest) {
        let i = choose|i: int| 0 <= i < tail.len() - 1 && line_speaks(#[trigger] tail[i]);
        assert(lines[i + 1] == tail[i]);
    }
}

proof fn lemma_decimal_digits(n: int)
    requires
        0 <= n,
    ensures
        all_digits(numeral::decimal(n)),
        digits_value(numeral::decimal(n)) == n,
        numeral::decimal(n).len() > 0,
    decreases n,
{
    let s = numeral::decimal(n);
    if n < 10 {
        assert(s == seq![numeral::digit_char(n)]);
        assert(s.drop_last() =~= Seq::<char>::empty());
        reveal_with_fuel(digits_value, 2);
        assert(s.last() as int == 48 + n);
    } else {
        lemma_decimal_digits(n / 10);
        let start = numeral::decimal(n / 10);
        assert(s == start.push(numeral::digit_char(n % 10)));
        assert(s.drop_last() =~= start);
        assert(s.last() as int == 48 + n % 10);
        assert forall|i: int| 0 <= i < s.len() implies '0' <= #[trigger] s[i] <= '9' by {
            if i < start.len() {
                assert(start[i] == s[i]);
            }
        }
    }
}

/// A number that is written in decimal is read as that number, with or without a plus sign;
/// one that is too large is not read, nor is an empty text or one with anything but digits.
pub proof fn law_numbers_are_read(n: int, s: Seq<char>)
    requires
        0 <= n,
    ensures
        n <= u64::MAX ==> number_in(numeral::decimal(n)) == Some(n as u64) && number_in(
            seq!['+'] + numeral::decimal(n),
        ) == Some(n as u64),
        n > u64::MAX ==> number_in(numeral::decimal(n)) is None,
        s.len() == 0 || (exists|i: int|
            0 <= i < s.len() && s[0] != '+' && !('0' <= #[trigger] s[i] <= '9')) ==> number_in(
            s,
        ) is None,
{
    lemma_decimal_digits(n);
    let digits = numeral::decimal(n);
    assert('0' <= digits[0] <= '9');
    assert((seq!['+'] + digits).skip(1) =~= digits);
}

/// A time that is configured as a decimal number counts, but never as less than one; where
/// none is configured, or something else, the default does.
pub proof fn law_wait_ms(n: u64, spelled: Seq<char>, default: u64)
    ensures
        ({
            let least: u64 = if default >= 1 {
                default
            } else {
                1
            };
            &&& text::trimmed(spelled) == numeral::decimal(n as int) && n >= 1 ==> wait_ms(
                Some(spelled),
                default,
            ) == n
            &&& text::trimmed(spelled) == numeral::decimal(n as int) && n == 0 ==> wait_ms(
                Some(spelled),
                default,
            ) == 1
            &&& wait_ms(None, default) == least
            &&& number_in(text::trimmed(spelled)) is None ==> wait_ms(Some(spelled), default)
                == least
        }),
{
    law_numbers_are_read(n as int, spelled);
}

/// The whole milliseconds in a span of time are those that have passed in full.
pub proof fn law_whole_ms(nanos: u128)
    ensures
        nanos < 0x1_0000_0000_0000_0000 * 1_000_000 ==> whole_ms(nanos) * 1_000_000 <= nanos < (
        whole_ms(nanos) + 1) * 1_000_000,
        nanos >= 0x1_0000_0000_0000_0000 * 1_000_000 ==> whole_ms(nanos) == u64::MAX,
{
}

/// A probe waits for just the time that is left, and gives up when it is over.
pub proof fn law_time_left(probe: StreamProbeView, timeout_ms: u64, elapsed: u128)
    ensures
        probe.wait(timeout_ms, elapsed) matches Some(left) ==> left > 0 && left + elapsed
            == timeout_ms * 1_000_000 && !probe.ended && probe.asked(timeout_ms, elapsed) == probe,
        !probe.ended && elapsed < timeout_ms * 1_000_000 ==> probe.wait(timeout_ms, elapsed) is Some,
        !probe.ended && elapsed >= timeout_ms * 1_000_000 ==> probe.asked(
            timeout_ms,
            elapsed,
        ).timed_out && probe.asked(timeout_ms, elapsed).ended,
        probe.ended ==> probe.asked(timeout_ms, elapsed) == probe,
        probe.asked(timeout_ms, elapsed).buffered == probe.buffered,
        probe.asked(timeout_ms, elapsed).pending == probe.pending,
        probe.asked(timeout_ms, elapsed).error == probe.error,
        probe.asked(timeout_ms, elapsed).first_chunk_ms == probe.first_chunk_ms,
        probe.asked(timeout_ms, elapsed).first_text_ms == probe.first_text_ms,
{
}

/// The time of the first chunk is kept, and the time of the first output is that of the
/// chunk which brings it, and ends the probe; an error ends it with what it says, the end of
/// the stream without anything, and the end of the time as such.
pub proof fn law_probe_events(
    probe: StreamProbeView,
    bytes: Seq<u8>,
    error: Seq<char>,
    now_ms: u64,
)
    ensures
        ({
            let text = probe.pending + lossy_text(bytes);
            let chunk = probe.after(ProbeEventView::Chunk(bytes), now_ms);
            let failed = probe.after(ProbeEventView::Failed(error), now_ms);
            let closed = probe.after(ProbeEventView::Closed, now_ms);
            let late = probe.after(ProbeEventView::TimedOut, now_ms);
            &&& probe.first_chunk_ms is None ==> chunk.first_chunk_ms == Some(now_ms)
            &&& probe.first_chunk_ms is Some ==> chunk.first_chunk_ms == probe.first_chunk_ms
            &&& lines_speak(text) ==> chunk.first_text_ms == Some(now_ms) && chunk.ended
            &&& !lines_speak(text) ==> chunk.first_text_ms == probe.first_text_ms && chunk.ended
                == probe.ended
            &&& chunk.pending == text::pieces(text, '\n').last()
            &&& chunk.error == probe.error && chunk.timed_out == probe.timed_out
            &&& failed.error == Some(error) && failed.ended && failed.timed_out == probe.timed_out
            &&& closed.ended && closed.error == probe.error && closed.timed_out == probe.timed_out
            &&& late.ended && late.timed_out && late.error == probe.error
            &&& failed.first_text_ms == probe.first_text_ms
            &&& closed.first_text_ms == probe.first_text_ms
            &&& late.first_text_ms == probe.first_text_ms
        }),
{
}

} // verus!
