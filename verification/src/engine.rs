//! The proxy engine that the desktop client runs: its log, its byte totals, and
//! the thread that watches over it.

use crate::node::CONTROLLER_SECRET;
use crate::text::{
    chars_of, dec, find, from_utf8_lossy, is_digit, is_white, law_decimal_round_trip,
    law_split_needs_pattern, lemma_dec_chars, lemma_split_once, lemma_white_prefix_bound, lines, lossy_text, occurs_at,
    parse_digits, parse_number, read_number, skip_white, split_lines, split_once, string_of, texts, trim_start,
    views, white_prefix,
};
use vstd::prelude::*;

verus! {

// ---------------------------------------------------------------------------
// The log
// ---------------------------------------------------------------------------

/// How many lines of the engine's output are shown.
pub const LOG_LINES: usize = 20;

/// The first elements of `s`, at most `n` of them.
pub open spec fn first_of<T>(s: Seq<T>, n: nat) -> Seq<T> {
    if s.len() <= n {
        s
    } else {
        s.take(n as int)
    }
}

/// The first lines of the engine's output.
pub fn log_lines(output: &str) -> (shown: Vec<String>)
    ensures
        texts(shown@) == first_of(lines(output@), LOG_LINES as nat),
{
    let chars = chars_of(output);
    let all = split_lines(chars.as_slice());
    let mut shown: Vec<String> = Vec::new();
    let mut i: usize = 0;
    while i < all.len() && i < LOG_LINES
        invariant
            i <= all@.len(),
            i <= LOG_LINES,
            texts(shown@) == views(all@).take(i as int),
        decreases all@.len() - i,
    {
        let ghost before = shown@;
        let line = string_of(all[i].as_slice());
        shown.push(line);
        assert(texts(shown@) =~= texts(before).push(line@));
        assert(views(all@).take(i + 1) =~= views(all@).take(i as int).push(all@[i as int]@));
        i += 1;
    }
    assert(views(all@).take(all@.len() as int) =~= views(all@));
    shown
}

/// The first lines of the engine's output, from its bytes.
pub fn read_log(output: &[u8]) -> (shown: Vec<String>)
    ensures
        texts(shown@) == first_of(lines(lossy_text(output@)), LOG_LINES as nat),
{
    let text = from_utf8_lossy(output);
    log_lines(text.as_str())
}

// ---------------------------------------------------------------------------
// The totals
// ---------------------------------------------------------------------------

/// The request for the totals, to the control interface.
pub open spec fn totals_request_text() -> Seq<char> {
    "GET /connections HTTP/1.1\r\nHost: 127.0.0.1\r\nAuthorization: Bearer "@
        + CONTROLLER_SECRET@ + "\r\nConnection: close\r\n\r\n"@
}

/// The request for the totals, to the control interface.
pub fn totals_request() -> (text: String)
    ensures
        text@ == totals_request_text(),
{
    let mut text =
        "GET /connections HTTP/1.1\r\nHost: 127.0.0.1\r\nAuthorization: Bearer ".to_owned();
    text.append(CONTROLLER_SECRET);
    text.append("\r\nConnection: close\r\n\r\n");
    text
}

/// How many characters at the front of `s` are decimal digits.
pub open spec fn digit_prefix(s: Seq<char>) -> nat
    decreases s.len(),
{
    if s.len() > 0 && is_digit(s[0]) {
        1 + digit_prefix(s.skip(1))
    } else {
        0
    }
}

/// A key as it stands before its value.
pub open spec fn quoted_key(key: Seq<char>) -> Seq<char> {
    "\""@ + key + "\":"@
}

/// The whole number behind the first occurrence of a key.
pub open spec fn json_number(text: Seq<char>, key: Seq<char>) -> Option<u64> {
    match split_once(text, quoted_key(key)) {
        None => None,
        Some((_, after)) => {
            let tail = trim_start(after);
            match parse_number(tail.take(digit_prefix(tail) as int), 10, u64::MAX as nat) {
                Ok(n) => Some(n as u64),
                Err(_) => None,
            }
        },
    }
}

/// The upload and the download total in an answer, if both are there.
pub open spec fn totals_in(text: Seq<char>) -> Option<(u64, u64)> {
    match (json_number(text, "uploadTotal"@), json_number(text, "downloadTotal"@)) {
        (Some(upload), Some(download)) => Some((upload, download)),
        _ => None,
    }
}

proof fn lemma_digit_prefix(s: Seq<char>, n: int)
    requires
        0 <= n <= s.len(),
        forall|i: int| 0 <= i < n ==> is_digit(#[trigger] s[i]),
        n < s.len() ==> !is_digit(s[n]),
    ensures
        digit_prefix(s) == n,
    decreases s.len(),
{
    if n > 0 {
        assert(is_digit(s[0]));
        assert forall|i: int| 0 <= i < n - 1 implies is_digit(#[trigger] s.skip(1)[i]) by {
            assert(s.skip(1)[i] == s[i + 1]);
        }
        lemma_digit_prefix(s.skip(1), n - 1);
    }
}

/// The whole number behind the first occurrence of a key.
pub fn json_u64(text: &str, key: &str) -> (value: Option<u64>)
    ensures
        value == json_number(text@, key@),
{
    let chars = chars_of(text);
    let mut wanted = "\"".to_owned();
    wanted.append(key);
    wanted.append("\":");
    let wanted = chars_of(wanted.as_str());
    match find(chars.as_slice(), wanted.as_slice()) {
        None => None,
        Some(at) => {
            let len = chars.len();
            let from = skip_white(chars.as_slice(), at + wanted.len());
            let mut end: usize = from;
            while end < len && '0' <= chars[end] && chars[end] <= '9'
                invariant
                    from <= end <= len,
                    len == chars@.len(),
                    forall|i: int| from <= i < end ==> is_digit(#[trigger] chars@[i]),
                ensures
                    from <= end <= len,
                    forall|i: int| from <= i < end ==> is_digit(#[trigger] chars@[i]),
                    end < len ==> !is_digit(chars@[end as int]),
                decreases len - end,
            {
                end += 1;
            }
            let digits = vstd::slice::slice_subrange(chars.as_slice(), from, end);
            proof {
                let tail = chars@.skip(from as int);
                assert forall|i: int| 0 <= i < end - from implies is_digit(#[trigger] tail[i]) by {
                    assert(tail[i] == chars@[from + i]);
                }
                lemma_digit_prefix(tail, end - from);
                assert(digits@ =~= tail.take(end - from));
            }
            match read_number(digits, 10, u64::MAX) {
                Ok(n) => Some(n),
                Err(_) => None,
            }
        },
    }
}

/// The upload and the download total in an answer of the control interface.
pub fn read_totals(response: &str) -> (totals: Option<(u64, u64)>)
    ensures
        totals == totals_in(response@),
{
    match json_u64(response, "uploadTotal") {
        None => None,
        Some(upload) => match json_u64(response, "downloadTotal") {
            None => None,
            Some(download) => Some((upload, download)),
        },
    }
}

/// A number that is written behind its key, after any white space and before
/// anything but a digit, is read back, where the key stands nowhere before.
pub proof fn law_json_number_is_read(
    before: Seq<char>,
    key: Seq<char>,
    space: Seq<char>,
    n: u64,
    rest: Seq<char>,
)
    requires
        forall|j: int|
            0 <= j < before.len() ==> !(#[trigger] occurs_at(
                before + quoted_key(key) + space + dec(n as nat) + rest,
                quoted_key(key),
                j,
            )),
        forall|i: int| 0 <= i < space.len() ==> is_white(#[trigger] space[i]),
        rest.len() > 0 ==> !is_digit(rest[0]),
    ensures
        json_number(before + quoted_key(key) + space + dec(n as nat) + rest, key) == Some(n),
{
    let pat = quoted_key(key);
    let digits = dec(n as nat);
    let text = before + pat + space + digits + rest;
    let at = before.len() as int;
    lemma_dec_chars(n as nat);
    law_decimal_round_trip(n as nat, u64::MAX as nat);
    assert(text.subrange(at, at + pat.len()) =~= pat);
    assert(occurs_at(text, pat, at));
    lemma_split_once(text, pat, at);
    assert(text.skip(at + pat.len()) =~= space + digits + rest);
    assert forall|i: int| 0 <= i < digits.len() implies is_digit(#[trigger] digits[i]) by {}
    lemma_digits_behind_space(space, digits, rest);
}

// ---------------------------------------------------------------------------
// Watching over the engine
// ---------------------------------------------------------------------------

/// What the desktop client is told about the engine.
pub enum WorkerEvent {
    /// A line of its output.
    Log(String),
    /// It answers for the first time.
    Connected,
    /// Its totals.
    Traffic { upload: u64, download: u64 },
    /// It has ended, because it was told to or of itself.
    Exited { expected: bool },
    /// It could not be started, or not be watched any longer.
    Failed(String),
}

/// An event as a mathematical value.
pub ghost enum Told {
    Log(Seq<char>),
    Connected,
    Traffic(u64, u64),
    Exited(bool),
    Failed(Seq<char>),
}

impl View for WorkerEvent {
    type V = Told;

    open spec fn view(&self) -> Told {
        match self {
            WorkerEvent::Log(line) => Told::Log(line@),
            WorkerEvent::Connected => Told::Connected,
            WorkerEvent::Traffic { upload, download } => Told::Traffic(*upload, *download),
            WorkerEvent::Exited { expected } => Told::Exited(*expected),
            WorkerEvent::Failed(message) => Told::Failed(message@),
        }
    }
}

/// The events of a list.
pub open spec fn told(events: Seq<WorkerEvent>) -> Seq<Told> {
    events.map_values(|e: WorkerEvent| e@)
}

/// How the process of the engine is.
pub enum ChildStatus {
    Running,
    Exited,
    Unreadable(String),
}

/// What the watching thread does next.
#[derive(Clone, Copy, PartialEq, Eq, Structural)]
pub enum Phase {
    /// Look for the command to stop.
    Command,
    /// Look at the process.
    Child,
    /// Ask for the totals.
    Totals,
    /// Wait a second.
    Pause,
    /// Nothing: the watch is over.
    Over,
}

/// What the watching thread has found.
pub enum Finding {
    /// Whether there was a command to stop.
    Command(bool),
    /// How the process is.
    Child(ChildStatus),
    /// The totals, if the control interface gave them.
    Totals(Option<(u64, u64)>),
    /// The second is over.
    Pause,
}

/// A finding as a mathematical value.
pub ghost enum Found {
    Command(bool),
    Running,
    Exited,
    Unreadable(Seq<char>),
    Totals(Option<(u64, u64)>),
    Pause,
}

impl View for Finding {
    type V = Found;

    open spec fn view(&self) -> Found {
        match self {
            Finding::Command(stop) => Found::Command(*stop),
            Finding::Child(ChildStatus::Running) => Found::Running,
            Finding::Child(ChildStatus::Exited) => Found::Exited,
            Finding::Child(ChildStatus::Unreadable(error)) => Found::Unreadable(error@),
            Finding::Totals(totals) => Found::Totals(*totals),
            Finding::Pause => Found::Pause,
        }
    }
}

/// The watch over the engine.
#[derive(Clone, Copy, PartialEq, Eq, Structural)]
pub struct Supervisor {
    pub phase: Phase,
    pub connected: bool,
}

/// The finding is what the phase looks for.
pub open spec fn answers(phase: Phase, found: Found) -> bool {
    match found {
        Found::Command(_) => phase == Phase::Command,
        Found::Running | Found::Exited | Found::Unreadable(_) => phase == Phase::Child,
        Found::Totals(_) => phase == Phase::Totals,
        Found::Pause => phase == Phase::Pause,
    }
}

impl Supervisor {
    /// The watch before anything was looked at.
    pub open spec fn begun() -> Supervisor {
        Supervisor { phase: Phase::Command, connected: false }
    }

    /// The watch after a finding, and what is told because of it.
    pub open spec fn after(self, found: Found) -> (Supervisor, Seq<Told>) {
        match found {
            Found::Command(true) => (
                Supervisor { phase: Phase::Over, ..self },
                seq![Told::Exited(true)],
            ),
            Found::Command(false) => (Supervisor { phase: Phase::Child, ..self }, seq![]),
            Found::Running => (Supervisor { phase: Phase::Totals, ..self }, seq![]),
            Found::Exited => (Supervisor { phase: Phase::Over, ..self }, seq![Told::Exited(false)]),
            Found::Unreadable(error) => (
                Supervisor { phase: Phase::Over, ..self },
                seq![Told::Failed("无法读取代理状态："@ + error)],
            ),
            Found::Totals(None) => (Supervisor { phase: Phase::Pause, ..self }, seq![]),
            Found::Totals(Some((upload, download))) => (
                Supervisor { phase: Phase::Pause, connected: true },
                if self.connected {
                    seq![Told::Traffic(upload, download)]
                } else {
                    seq![Told::Connected, Told::Traffic(upload, download)]
                },
            ),
            Found::Pause => (Supervisor { phase: Phase::Command, ..self }, seq![]),
        }
    }

    /// The watch before anything was looked at.
    pub fn new() -> (watch: Self)
        ensures
            watch == Supervisor::begun(),
    {
        Supervisor { phase: Phase::Command, connected: false }
    }

    /// Goes on with what was found: whether the process is to be killed, and
    /// what is told after that.
    pub fn step(&mut self, finding: Finding) -> (result: (bool, Vec<WorkerEvent>))
        requires
            answers(old(self).phase, finding@),
        ensures
            result.0 == (finding@ == Found::Command(true)),
            (*final(self), told(result.1@)) == old(self).after(finding@),
    {
        let mut kill = false;
        let mut events: Vec<WorkerEvent> = Vec::new();
        match finding {
            Finding::Command(stop) => {
                if stop {
                    kill = true;
                    events.push(WorkerEvent::Exited { expected: true });
                    self.phase = Phase::Over;
                } else {
                    self.phase = Phase::Child;
                }
            },
            Finding::Child(ChildStatus::Running) => {
                self.phase = Phase::Totals;
            },
            Finding::Child(ChildStatus::Exited) => {
                events.push(WorkerEvent::Exited { expected: false });
                self.phase = Phase::Over;
            },
            Finding::Child(ChildStatus::Unreadable(error)) => {
                let mut message = "无法读取代理状态：".to_owned();
                message.append(error.as_str());
                events.push(WorkerEvent::Failed(message));
                self.phase = Phase::Over;
            },
            Finding::Totals(totals) => {
                if let Some((upload, download)) = totals {
                    if !self.connected {
                        self.connected = true;
                        events.push(WorkerEvent::Connected);
                    }
                    events.push(WorkerEvent::Traffic { upload, download });
                }
                self.phase = Phase::Pause;
            },
            Finding::Pause => {
                self.phase = Phase::Command;
            },
        }
        assert(told(events@) =~= old(self).after(finding@).1);
        (kill, events)
    }
}

/// Each finding is what the watch was looking for.
pub open spec fn all_answer(watch: Supervisor, findings: Seq<Found>) -> bool
    decreases findings.len(),
{
    findings.len() > 0 ==> all_answer(watch, findings.drop_last()) && answers(
        watched(watch, findings.drop_last()).0.phase,
        findings.last(),
    )
}

/// The watch after some findings, and all that was told meanwhile.
pub open spec fn watched(watch: Supervisor, findings: Seq<Found>) -> (Supervisor, Seq<Told>)
    decreases findings.len(),
{
    if findings.len() == 0 {
        (watch, seq![])
    } else {
        let (before, said) = watched(watch, findings.drop_last());
        let (after, more) = before.after(findings.last());
        (after, said + more)
    }
}

/// The event ends the watch.
pub open spec fn ends_watch(event: Told) -> bool {
    event is Exited || event is Failed
}

/// The engine is announced once, before its first totals; and the end of the
/// watch is told once, as the last thing, and nowhere but at the end.
pub proof fn law_watch_is_told_in_order(findings: Seq<Found>)
    requires
        all_answer(Supervisor::begun(), findings),
    ensures
        ({
            let (watch, said) = watched(Supervisor::begun(), findings);
            &&& forall|i: int, j: int|
                0 <= i < j < said.len() ==> !(#[trigger] said[i] is Connected && #[trigger] said[j]
                    is Connected)
            &&& forall|j: int|
                0 <= j < said.len() && (#[trigger] said[j]) is Traffic ==> exists|i: int|
                    0 <= i < j && said[i] is Connected
            &&& forall|i: int|
                0 <= i < said.len() && #[trigger] ends_watch(said[i]) ==> i == said.len() - 1
            &&& watch.phase == Phase::Over <==> said.len() > 0 && ends_watch(said.last())
            &&& watch.connected <==> exists|i: int| 0 <= i < said.len() && said[i] is Connected
        }),
    decreases findings.len(),
{
    if findings.len() > 0 {
        law_watch_is_told_in_order(findings.drop_last());
        let (watch, said) = watched(Supervisor::begun(), findings.drop_last());
        let found = findings.last();
        let (after, more) = watch.after(found);
        let all = said + more;
        let n = said.len() as int;
        assert forall|i: int| 0 <= i < n implies #[trigger] all[i] == said[i] by {}
        if watch.connected {
            let i = choose|i: int| 0 <= i < n && said[i] is Connected;
            assert(all[i] is Connected);
        }
        assert forall|i: int| 0 <= i < n implies !ends_watch(#[trigger] all[i]) by {
            assert(all[i] == said[i]);
            if ends_watch(said[i]) {
                assert(watch.phase == Phase::Over);
            }
        }
        if after.connected && !watch.connected {
            assert(all[n] is Connected);
        }
        assert forall|j: int| 0 <= j < all.len() && (#[trigger] all[j]) is Traffic implies exists|
            i: int,
        |
            0 <= i < j && all[i] is Connected by {
            if j < n {
                assert(said[j] is Traffic);
                let i = choose|i: int| 0 <= i < j && said[i] is Connected;
                assert(all[i] is Connected);
            } else if watch.connected {
                let i = choose|i: int| 0 <= i < n && said[i] is Connected;
                assert(all[i] is Connected);
            } else {
                assert(all[n] is Connected);
            }
        }
    }
}

/// [`log_lines`] shows the first twenty lines, each as it is and in its order, and
/// all of them where there are no more; [`read_log`] those of the bytes.
pub proof fn law_first_twenty_lines_are_shown(
    output: &str,
    shown: Vec<String>,
    bytes: &[u8],
    of_bytes: Vec<String>,
    i: int,
)
    ensures
        call_ensures(log_lines, (output,), shown) ==> {
            let all = lines(output@);
            &&& shown@.len() == if all.len() < 20 {
                all.len()
            } else {
                20
            }
            &&& 0 <= i < shown@.len() ==> shown@[i]@ == all[i]
        },
        call_ensures(read_log, (bytes,), of_bytes) ==> {
            let all = lines(lossy_text(bytes@));
            &&& of_bytes@.len() == if all.len() < 20 {
                all.len()
            } else {
                20
            }
            &&& 0 <= i < of_bytes@.len() ==> of_bytes@[i]@ == all[i]
        },
{
    assert(texts(shown@).len() == shown@.len());
    assert(0 <= i < shown@.len() ==> texts(shown@)[i] == shown@[i]@);
    assert(texts(of_bytes@).len() == of_bytes@.len());
    assert(0 <= i < of_bytes@.len() ==> texts(of_bytes@)[i] == of_bytes@[i]@);
}

/// [`json_u64`] reads all digits behind the first occurrence of its key, whatever
/// stands before the key, after any white space, up to the first character that is
/// no digit; and it reads nothing where they are no number of 64 bits.
pub proof fn law_json_u64_reads_all_digits(
    text: &str,
    key: &str,
    value: Option<u64>,
    before: Seq<char>,
    space: Seq<char>,
    digits: Seq<char>,
    rest: Seq<char>,
)
    requires
        call_ensures(json_u64, (text, key), value),
        text@ == before + (seq!['"'] + key@ + seq!['"', ':']) + space + digits + rest,
        split_once(text@, seq!['"'] + key@ + seq!['"', ':']) matches Some((b, _)) && b.len()
            == before.len(),
        forall|i: int| 0 <= i < space.len() ==> is_white(#[trigger] space[i]),
        digits.len() > 0,
        forall|i: int| 0 <= i < digits.len() ==> 48 <= #[trigger] digits[i] as int <= 57,
        rest.len() > 0 ==> (rest[0] as int) < 48 || rest[0] as int > 57,
    ensures
        match parse_number(digits, 10, 0xffff_ffff_ffff_ffff) {
            Ok(n) => value matches Some(v) && v == n,
            Err(_) => value is None,
        },
{
    let pat = seq!['"'] + key@ + seq!['"', ':'];
    reveal_strlit("\"");
    reveal_strlit("\":");
    assert("\""@ =~= seq!['"']);
    assert("\":"@ =~= seq!['"', ':']);
    assert(quoted_key(key@) == pat);
    let after = space + digits + rest;
    law_split_needs_pattern(text@, pat);
    if let Some((b, a)) = split_once(text@, pat) {
        assert(b + pat + a == text@);
        assert(text@.skip((before.len() + pat.len()) as int) =~= after);
        assert(text@.skip((b.len() + pat.len()) as int) =~= a);
        assert(a == after);
    }
    lemma_digits_behind_space(space, digits, rest);
    lemma_parsed_bound(digits, u64::MAX as nat);
}

/// Behind white space the digits are read up to the first other character.
proof fn lemma_digits_behind_space(space: Seq<char>, digits: Seq<char>, rest: Seq<char>)
    requires
        forall|i: int| 0 <= i < space.len() ==> is_white(#[trigger] space[i]),
        digits.len() > 0,
        forall|i: int| 0 <= i < digits.len() ==> is_digit(#[trigger] digits[i]),
        rest.len() > 0 ==> !is_digit(rest[0]),
    ensures
        ({
            let tail = trim_start(space + digits + rest);
            tail.take(digit_prefix(tail) as int) == digits
        }),
{
    let after = space + digits + rest;
    lemma_white_prefix_bound(after);
    assert(white_prefix(after) == space.len()) by {
        let w = white_prefix(after) as int;
        if w < space.len() {
            assert(after[w] == space[w]);
        } else if w > space.len() {
            let s = space.len() as int;
            assert(after[s] == digits[0]);
            assert(is_digit(digits[0]));
            assert(is_white(after[s]));
        }
    }
    let tail = trim_start(after);
    assert(tail =~= digits + rest);
    assert forall|i: int| 0 <= i < digits.len() implies is_digit(#[trigger] tail[i]) by {
        assert(tail[i] == digits[i]);
    }
    lemma_digit_prefix(tail, digits.len() as int);
    assert(tail.take(digits.len() as int) =~= digits);
}

/// A number that is read is at most the greatest one that fits.
proof fn lemma_parsed_bound(s: Seq<char>, max: nat)
    ensures
        parse_number(s, 10, max) matches Ok(n) ==> n <= max,
{
    if s.len() > 0 {
        lemma_digits_bound(s, max);
        lemma_digits_bound(s.skip(1), max);
    }
}

proof fn lemma_digits_bound(s: Seq<char>, max: nat)
    ensures
        parse_digits(s, 10, max) matches Ok(n) ==> n <= max,
    decreases s.len(),
{
    if s.len() > 0 {
        lemma_digits_bound(s.drop_last(), max);
    }
}

/// [`json_u64`] reads nothing where the key is missing, or where no digit stands
/// behind it.
pub proof fn law_json_u64_needs_key_and_digit(text: &str, key: &str, value: Option<u64>)
    requires
        call_ensures(json_u64, (text, key), value),
    ensures
        split_once(text@, seq!['"'] + key@ + seq!['"', ':']) is None ==> value is None,
        split_once(text@, seq!['"'] + key@ + seq!['"', ':']) matches Some((_, after)) ==> {
            let tail = trim_start(after);
            tail.len() == 0 || (tail[0] as int) < 48 || tail[0] as int > 57 ==> value is None
        },
{
    reveal_strlit("\"");
    reveal_strlit("\":");
    assert("\""@ =~= seq!['"']);
    assert("\":"@ =~= seq!['"', ':']);
    if let Some((_, after)) = split_once(text@, seq!['"'] + key@ + seq!['"', ':']) {
        let tail = trim_start(after);
        if tail.len() == 0 || (tail[0] as int) < 48 || tail[0] as int > 57 {
            assert(digit_prefix(tail) == 0);
            assert(tail.take(0).len() == 0);
        }
    }
}

/// [`read_totals`] gives the two numbers that [`json_u64`] reads, upload first, if
/// both are there.
pub proof fn law_totals_are_the_two_numbers(
    response: &str,
    upload: Option<u64>,
    download: Option<u64>,
    totals: Option<(u64, u64)>,
)
    requires
        call_ensures(json_u64, (response, "uploadTotal"), upload),
        call_ensures(json_u64, (response, "downloadTotal"), download),
        call_ensures(read_totals, (response,), totals),
    ensures
        upload is None || download is None ==> totals is None,
        upload matches Some(u) ==> (download matches Some(d) ==> totals == Some((u, d))),
{
}

/// [`Supervisor::step`]: the command to stop ends the watch and kills the process,
/// and nothing else does; totals are passed on as they are, with the news of the
/// connection before the first ones; and an error is passed on with its words.
pub proof fn law_findings_are_passed_on(
    watch: &mut Supervisor,
    finding: Finding,
    out: (bool, Vec<WorkerEvent>),
)
    requires
        call_ensures(Supervisor::step, (watch, finding), out),
    ensures
        out.0 <==> (finding matches Finding::Command(true)),
        finding matches Finding::Command(stop) ==> if stop {
            final(watch).phase == Phase::Over && out.1@.len() == 1 && out.1@[0]@ == Told::Exited(
                true,
            )
        } else {
            final(watch).phase == Phase::Child && out.1@.len() == 0
        },
        finding matches Finding::Child(ChildStatus::Running) ==> final(watch).phase == Phase::Totals
            && out.1@.len() == 0,
        finding matches Finding::Child(ChildStatus::Exited) ==> final(watch).phase == Phase::Over
            && out.1@.len() == 1 && out.1@[0]@ == Told::Exited(false),
        finding matches Finding::Child(ChildStatus::Unreadable(error)) ==> final(watch).phase
            == Phase::Over && out.1@.len() == 1 && out.1@[0]@ == Told::Failed(
            "无法读取代理状态："@ + error@,
        ),
        finding matches Finding::Totals(None) ==> final(watch).phase == Phase::Pause
            && out.1@.len() == 0,
        finding matches Finding::Totals(Some((upload, download))) ==> {
            &&& final(watch).phase == Phase::Pause && final(watch).connected
            &&& out.1@.len() == if old(watch).connected {
                1nat
            } else {
                2nat
            }
            &&& out.1@.last()@ == Told::Traffic(upload, download)
            &&& !old(watch).connected ==> out.1@[0]@ == Told::Connected
        },
        finding matches Finding::Pause ==> final(watch).phase == Phase::Command && out.1@.len() == 0,
        !(finding matches Finding::Totals(Some(_))) ==> final(watch).connected == old(watch).connected,
{
    let said = told(out.1@);
    assert(said.len() == out.1@.len());
    assert(out.1@.len() > 0 ==> said[0] == out.1@[0]@);
    assert(out.1@.len() > 1 ==> said[1] == out.1@[1]@);
}

} // verus!
