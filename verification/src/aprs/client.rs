//! What the feed client decides: what to send at login, how much of an
//! unfinished line to hold, when to send a keep-alive, and what to do with a
//! line. The connection itself is the caller's: it reads, hands over what it
//! read, and does what comes back.

use vstd::prelude::*;
use vstd::string::StringExecFns;
use vstd::utf8::{decode_utf8, valid_utf8};
use crate::aircraft::AircraftView;
use crate::aprs::conversion::{convert_at, decoded_line};
use crate::aprs::flags::ProtocolViolation;
use crate::aprs::matcher::{captured_groups, LineMatcher, LINE_PATTERN};
use crate::aprs::status::{Status, StatusView};
use crate::registry::Registry;
use crate::text::{
    chars_of, contains_chars, contains_text, lemma_split_grows, lemma_split_single, split,
    text_view,
};

verus! {

/// What a comment of the server starts with.
pub const IDENTIFIER_COMMENT: char = '#';

/// What a line that tells of the connection holds.
pub const IDENTIFIER_TCP_PACKET: &'static str = "TCPIP*";

/// After how many seconds the next keep-alive is due: ten minutes.
pub const KEEPALIVE_INTERVAL_SECONDS: u64 = 600;

/// What a keep-alive reads.
pub const KEEPALIVE_MESSAGE: &'static str = "#keep alive\n";

/// How many bytes a line may have.
pub const MAX_MESSAGE_SIZE: usize = 4096;

/// What ends a line.
pub const LINE_END: u8 = 10;

/// Where the feed is and how to log in.
#[derive(Debug)]
pub struct Config {
    /// Address to connect to, e.g. "aprs.example.com:14580".
    pub address: String,
    /// User name to log in with.
    pub user_name: String,
    /// Password to log in with.
    pub password: String,
    /// Name and version of this client.
    pub client_id: String,
    /// Filter that the server is to apply, if any.
    pub filter: Option<String>,
}

/// The line that logs in: `user`, `pass` and `vers`, and `filter` where there
/// is one, each followed by its value, with a line break at the end.
pub open spec fn login_text(
    user_name: Seq<char>,
    password: Seq<char>,
    client_id: Seq<char>,
    filter: Option<Seq<char>>,
) -> Seq<char> {
    "user "@ + user_name + " pass "@ + password + " vers "@ + client_id + match filter {
        Some(filter) => " filter "@ + filter,
        None => Seq::empty(),
    } + "\n"@
}

/// The line to send once after connecting.
pub fn login_message(config: &Config) -> (message: String)
    ensures
        message@ == login_text(
            config.user_name@,
            config.password@,
            config.client_id@,
            text_view(config.filter),
        ),
{
    let mut message = String::new();
    message.append("user ");
    message.append(config.user_name.as_str());
    message.append(" pass ");
    message.append(config.password.as_str());
    message.append(" vers ");
    message.append(config.client_id.as_str());
    match &config.filter {
        Some(filter) => {
            message.append(" filter ");
            message.append(filter.as_str());
        },
        None => {},
    }
    message.append("\n");
    proof {
        let head = "user "@ + config.user_name@ + " pass "@ + config.password@ + " vers "@
            + config.client_id@;
        match &config.filter {
            Some(filter) => {
                assert(head + " filter "@ + filter@ + "\n"@ =~= head + (" filter "@ + filter@)
                    + "\n"@);
            },
            None => {
            },
        }
    }
    message
}

/// A line grew beyond `MAX_MESSAGE_SIZE` bytes.
#[derive(Clone, Copy, Debug, PartialEq, Eq, Structural)]
pub struct MessageTooLarge;

/// Whether some line of `lines` has more than `MAX_MESSAGE_SIZE` bytes.
pub open spec fn has_oversized(lines: Seq<Seq<u8>>) -> bool {
    exists|i: int| 0 <= i < lines.len() && #[trigger] lines[i].len() > MAX_MESSAGE_SIZE
}

/// The views of lines of bytes.
pub open spec fn lines_view(lines: Seq<Vec<u8>>) -> Seq<Seq<u8>> {
    lines.map_values(|line: Vec<u8>| line@)
}

/// The bytes of a line that has not ended yet. Its view is those bytes: they
/// hold no line end and are at most `MAX_MESSAGE_SIZE`.
pub struct LineBuffer {
    pending: Vec<u8>,
}

impl View for LineBuffer {
    type V = Seq<u8>;

    closed spec fn view(&self) -> Seq<u8> {
        self.pending@
    }
}

impl LineBuffer {
    #[verifier::type_invariant]
    spec fn within_budget(&self) -> bool {
        self.pending@.len() <= MAX_MESSAGE_SIZE && !self.pending@.contains(LINE_END)
    }

    /// A buffer that holds nothing.
    pub fn new() -> (buffer: LineBuffer)
        ensures
            buffer@ == Seq::<u8>::empty(),
    {
        LineBuffer { pending: Vec::new() }
    }

    /// How many bytes of an unfinished line the buffer holds: never more than
    /// `MAX_MESSAGE_SIZE`.
    pub fn len(&self) -> (len: usize)
        ensures
            len == self@.len(),
            len <= MAX_MESSAGE_SIZE,
            !self@.contains(LINE_END),
    {
        proof {
            use_type_invariant(self);
        }
        self.pending.len()
    }

    /// Takes in the bytes `chunk` that were read. What the buffer held and
    /// the chunk are cut at the line ends: the lines that ended come back,
    /// without their line ends, and what follows the last line end stays in
    /// the buffer. Where a line, ended or not, has more than
    /// `MAX_MESSAGE_SIZE` bytes, the error comes back and the buffer is left
    /// empty.
    pub fn push(&mut self, chunk: &Vec<u8>) -> (lines: Result<Vec<Vec<u8>>, MessageTooLarge>)
        ensures
            match lines {
                Ok(ended) => {
                    &&& !has_oversized(split(old(self)@ + chunk@, LINE_END))
                    &&& lines_view(ended@) == split(old(self)@ + chunk@, LINE_END).drop_last()
                    &&& final(self)@ == split(old(self)@ + chunk@, LINE_END).last()
                },
                Err(_) => {
                    &&& has_oversized(split(old(self)@ + chunk@, LINE_END))
                    &&& final(self)@ == Seq::<u8>::empty()
                },
            },
    {
        proof {
            use_type_invariant(&*self);
        }
        let ghost held = self@;
        let mut current: Vec<u8> = Vec::new();
        core::mem::swap(&mut self.pending, &mut current);
        let mut ended: Vec<Vec<u8>> = Vec::new();
        let mut i: usize = 0;
        proof {
            lemma_split_single(held, LINE_END);
        }
        while i < chunk.len()
            invariant
                i <= chunk.len(),
                held == old(self)@,
                self@ == Seq::<u8>::empty(),
                lines_view(ended@).push(current@) == split(held + chunk@.take(i as int), LINE_END),
                !has_oversized(split(held + chunk@.take(i as int), LINE_END)),
                !current@.contains(LINE_END),
            decreases chunk.len() - i,
        {
            proof {
                assert((held + chunk@.take(i + 1)).drop_last() == held + chunk@.take(i as int));
            }
            let byte = chunk[i];
            if byte == LINE_END {
                ended.push(current);
                current = Vec::new();
            } else {
                current.push(byte);
                if current.len() > MAX_MESSAGE_SIZE {
                    proof {
                        assert(held + chunk@.take(i + 1) + chunk@.skip(i + 1) == held + chunk@);
                        lemma_split_grows(held + chunk@.take(i + 1), chunk@.skip(i + 1), LINE_END);
                    }
                    return Err(MessageTooLarge);
                }
            }
            i += 1;
        }
        proof {
            assert(chunk@.take(i as int) == chunk@);
            assert(split(held + chunk@, LINE_END).last().len() <= MAX_MESSAGE_SIZE);
        }
        core::mem::swap(&mut self.pending, &mut current);
        Ok(ended)
    }
}

/// `std::str::from_utf8`: the text that `bytes` encode in UTF-8, or `None`
/// where they are not valid UTF-8.
#[verifier::external_body]
fn text_of_bytes(bytes: &Vec<u8>) -> (text: Option<&str>)
    ensures
        match text {
            Some(decoded) => valid_utf8(bytes@) && decoded@ == decode_utf8(bytes@),
            None => !valid_utf8(bytes@),
        },
{
    std::str::from_utf8(bytes).ok()
}

/// What became of a line of the feed.
#[derive(Debug)]
pub enum LineOutcome {
    /// The bytes of the line are not valid UTF-8.
    Unreadable,
    /// The line is a comment of the server or tells of the connection.
    Ignored,
    /// The line is no telemetry line, or one that lacks what a status needs.
    Unparseable,
    /// The line was decoded, but its aircraft is not to be shown.
    Hidden,
    /// The line was decoded into a status that is to be passed on.
    Forward(Status),
    /// The line is one that the feed promises never to send.
    Violation(ProtocolViolation),
}

/// The mathematical value of a [`LineOutcome`].
pub enum LineOutcomeView {
    Unreadable,
    Ignored,
    Unparseable,
    Hidden,
    Forward(StatusView),
    Violation(ProtocolViolation),
}

impl View for LineOutcome {
    type V = LineOutcomeView;

    open spec fn view(&self) -> LineOutcomeView {
        match self {
            LineOutcome::Unreadable => LineOutcomeView::Unreadable,
            LineOutcome::Ignored => LineOutcomeView::Ignored,
            LineOutcome::Unparseable => LineOutcomeView::Unparseable,
            LineOutcome::Hidden => LineOutcomeView::Hidden,
            LineOutcome::Forward(status) => LineOutcomeView::Forward(status@),
            LineOutcome::Violation(violation) => LineOutcomeView::Violation(*violation),
        }
    }
}

/// Whether a line is left aside before decoding: it starts with `#` or holds
/// the mark of a line about the connection.
pub open spec fn is_ignored(line: Seq<char>) -> bool {
    (line.len() > 0 && line[0] == IDENTIFIER_COMMENT) || contains_text(
        line,
        IDENTIFIER_TCP_PACKET@,
    )
}

/// What becomes of the line `line`, given what the line pattern captures in
/// it: a status is passed on where the line is not left aside, decodes, and
/// is of a visible aircraft.
pub open spec fn line_outcome(
    line: Seq<char>,
    found: Option<Seq<Option<Seq<char>>>>,
    registry: Map<Seq<char>, AircraftView>,
    now: u64,
) -> LineOutcomeView {
    if is_ignored(line) {
        LineOutcomeView::Ignored
    } else {
        match decoded_line(found, registry, now) {
            Err(violation) => LineOutcomeView::Violation(violation),
            Ok(None) => LineOutcomeView::Unparseable,
            Ok(Some(status)) => if status.aircraft.visible {
                LineOutcomeView::Forward(status)
            } else {
                LineOutcomeView::Hidden
            },
        }
    }
}

/// No status of an aircraft that is not visible is passed on, and none of a
/// line that is left aside.
pub proof fn lemma_forwarded_is_visible(
    line: Seq<char>,
    found: Option<Seq<Option<Seq<char>>>>,
    registry: Map<Seq<char>, AircraftView>,
    now: u64,
)
    ensures
        line_outcome(line, found, registry, now) matches LineOutcomeView::Forward(status) ==> {
            &&& status.aircraft.visible
            &&& !is_ignored(line)
            &&& decoded_line(found, registry, now) == Ok::<Option<StatusView>, ProtocolViolation>(
                Some(status),
            )
        },
{
}

/// The outcome of a line that was decoded: a status is passed on where it is
/// of a visible aircraft.
pub fn decoded_outcome(decoded: Result<Option<Status>, ProtocolViolation>) -> (outcome:
    LineOutcome)
    ensures
        outcome@ == match decoded {
            Err(violation) => LineOutcomeView::Violation(violation),
            Ok(None) => LineOutcomeView::Unparseable,
            Ok(Some(status)) => if status.aircraft.visible {
                LineOutcomeView::Forward(status@)
            } else {
                LineOutcomeView::Hidden
            },
        },
{
    match decoded {
        Err(violation) => LineOutcome::Violation(violation),
        Ok(None) => LineOutcome::Unparseable,
        Ok(Some(status)) => {
            if status.aircraft.visible {
                LineOutcome::Forward(status)
            } else {
                LineOutcome::Hidden
            }
        },
    }
}

/// Whether a line is left aside before decoding.
pub fn is_ignored_line(line: &str) -> (ignored: bool)
    ensures
        ignored == is_ignored(line@),
{
    let chars = chars_of(line);
    if chars.len() > 0 && chars[0] == IDENTIFIER_COMMENT {
        return true;
    }
    let mark = chars_of(IDENTIFIER_TCP_PACKET);
    contains_chars(&chars, &mark)
}

/// Decides what becomes of `line`, read at the time `now`.
pub fn handle_line(line: &str, matcher: &LineMatcher, aircraft: &Registry, now: u64) -> (outcome:
    LineOutcome)
    ensures
        outcome@ == line_outcome(line@, captured_groups(LINE_PATTERN@, line@), aircraft@, now),
{
    if is_ignored_line(line) {
        LineOutcome::Ignored
    } else {
        decoded_outcome(convert_at(matcher, line, aircraft, now))
    }
}

/// What becomes of the bytes of a line: they are read as UTF-8, and the text
/// goes the way of a line.
pub open spec fn message_outcome(
    message: Seq<u8>,
    registry: Map<Seq<char>, AircraftView>,
    now: u64,
) -> LineOutcomeView {
    if valid_utf8(message) {
        line_outcome(
            decode_utf8(message),
            captured_groups(LINE_PATTERN@, decode_utf8(message)),
            registry,
            now,
        )
    } else {
        LineOutcomeView::Unreadable
    }
}

/// Decides what becomes of the bytes `message` of a line, read at the time
/// `now`.
pub fn handle_message(
    message: &Vec<u8>,
    matcher: &LineMatcher,
    aircraft: &Registry,
    now: u64,
) -> (outcome: LineOutcome)
    ensures
        outcome@ == message_outcome(message@, aircraft@, now),
{
    match text_of_bytes(message) {
        None => LineOutcome::Unreadable,
        Some(line) => handle_line(line, matcher, aircraft, now),
    }
}

/// Whether a keep-alive is due at `now`, the last one having gone out at
/// `last`: ten minutes or more have passed.
pub open spec fn keep_alive_due(last: u64, now: u64) -> bool {
    now - last >= KEEPALIVE_INTERVAL_SECONDS
}

/// What the client does after a line came in.
#[derive(Debug)]
pub struct Reaction {
    /// Whether to send a keep-alive to the server.
    pub send_keep_alive: bool,
    /// What became of the line.
    pub outcome: LineOutcome,
}

/// One connection to the feed, from the login on. Its view is the time at
/// which the client last sent something to keep the connection alive: the
/// login or a keep-alive.
#[derive(Debug)]
pub struct Session {
    last_keep_alive_timestamp: u64,
}

impl View for Session {
    type V = u64;

    closed spec fn view(&self) -> u64 {
        self.last_keep_alive_timestamp
    }
}

impl Session {
    /// The session of a client that logged in at `now`.
    pub fn start(now: u64) -> (session: Session)
        ensures
            session@ == now,
    {
        Session { last_keep_alive_timestamp: now }
    }

    /// When the client last sent something to keep the connection alive.
    pub fn last_keep_alive(&self) -> (time_stamp: u64)
        ensures
            time_stamp == self@,
    {
        self.last_keep_alive_timestamp
    }

    /// Says whether a keep-alive is due at `now`, and if so takes `now` as
    /// the time at which it goes out.
    pub fn keep_alive(&mut self, now: u64) -> (due: bool)
        ensures
            due == keep_alive_due(old(self)@, now),
            final(self)@ == if due {
                now
            } else {
                old(self)@
            },
    {
        if now >= self.last_keep_alive_timestamp && now - self.last_keep_alive_timestamp
            >= KEEPALIVE_INTERVAL_SECONDS {
            self.last_keep_alive_timestamp = now;
            true
        } else {
            false
        }
    }

    /// Reacts to the line `line` that came in at `now`: says whether a
    /// keep-alive is due, whatever the line holds, and what becomes of the
    /// line.
    pub fn on_line(
        &mut self,
        line: &str,
        matcher: &LineMatcher,
        aircraft: &Registry,
        now: u64,
    ) -> (reaction: Reaction)
        ensures
            reaction.send_keep_alive == keep_alive_due(old(self)@, now),
            final(self)@ == if reaction.send_keep_alive {
                now
            } else {
                old(self)@
            },
            reaction.outcome@ == line_outcome(
                line@,
                captured_groups(LINE_PATTERN@, line@),
                aircraft@,
                now,
            ),
    {
        let send_keep_alive = self.keep_alive(now);
        Reaction { send_keep_alive, outcome: handle_line(line, matcher, aircraft, now) }
    }

    /// Reacts to the bytes `message` of a line that came in at `now`.
    pub fn on_message(
        &mut self,
        message: &Vec<u8>,
        matcher: &LineMatcher,
        aircraft: &Registry,
        now: u64,
    ) -> (reaction: Reaction)
        ensures
            reaction.send_keep_alive == keep_alive_due(old(self)@, now),
            final(self)@ == if reaction.send_keep_alive {
                now
            } else {
                old(self)@
            },
            reaction.outcome@ == message_outcome(message@, aircraft@, now),
    {
        let send_keep_alive = self.keep_alive(now);
        Reaction { send_keep_alive, outcome: handle_message(message, matcher, aircraft, now) }
    }
}

/// The mathematical value of a [`Reaction`].
pub struct ReactionView {
    pub send_keep_alive: bool,
    pub outcome: LineOutcomeView,
}

impl View for Reaction {
    type V = ReactionView;

    open spec fn view(&self) -> ReactionView {
        ReactionView { send_keep_alive: self.send_keep_alive, outcome: self.outcome@ }
    }
}

/// The views of reactions.
pub open spec fn reactions_view(reactions: Seq<Reaction>) -> Seq<ReactionView> {
    reactions.map_values(|reaction: Reaction| reaction@)
}

/// What the client does after the lines `lines` came in together at `now`,
/// the last keep-alive having gone out at `last`: one reaction for each line,
/// in order. A keep-alive that is due goes out with the first line.
pub open spec fn reactions_to(
    lines: Seq<Seq<u8>>,
    last: u64,
    registry: Map<Seq<char>, AircraftView>,
    now: u64,
) -> Seq<ReactionView> {
    Seq::new(
        lines.len(),
        |i: int|
            ReactionView {
                send_keep_alive: i == 0 && keep_alive_due(last, now),
                outcome: message_outcome(lines[i], registry, now),
            },
    )
}

/// What a read from the connection led to.
#[derive(Debug)]
pub enum ReadOutcome {
    /// Nothing was read: the server closed the connection, and the client
    /// may connect again.
    Closed,
    /// The reactions to the lines that ended with what was read, in order.
    Lines(Vec<Reaction>),
    /// A line grew beyond `MAX_MESSAGE_SIZE` bytes: the connection is to be
    /// given up.
    TooLarge,
}

/// The state of one connection: when the client last kept it alive, and the
/// bytes of the line that has not ended yet.
pub struct Connection {
    session: Session,
    buffer: LineBuffer,
}

/// The mathematical value of a [`Connection`].
pub struct ConnectionView {
    pub last_keep_alive: u64,
    pub pending: Seq<u8>,
}

impl View for Connection {
    type V = ConnectionView;

    closed spec fn view(&self) -> ConnectionView {
        ConnectionView { last_keep_alive: self.session@, pending: self.buffer@ }
    }
}

impl Connection {
    /// The state of a connection on which the client logged in at `now`.
    pub fn open(now: u64) -> (connection: Connection)
        ensures
            connection@ == (ConnectionView { last_keep_alive: now, pending: Seq::empty() }),
    {
        Connection { session: Session::start(now), buffer: LineBuffer::new() }
    }

    /// Takes in the bytes `chunk` that were read at `now`. No bytes mean that
    /// the server closed the connection. Else the bytes are cut into lines as
    /// by [`LineBuffer::push`], and each line that ended is reacted to as by
    /// [`Session::on_message`].
    pub fn on_read(
        &mut self,
        chunk: &Vec<u8>,
        matcher: &LineMatcher,
        aircraft: &Registry,
        now: u64,
    ) -> (outcome: ReadOutcome)
        ensures
            match outcome {
                ReadOutcome::Closed => chunk@.len() == 0 && final(self)@ == old(self)@,
                ReadOutcome::TooLarge => {
                    &&& chunk@.len() > 0
                    &&& has_oversized(split(old(self)@.pending + chunk@, LINE_END))
                    &&& final(self)@ == (ConnectionView {
                        last_keep_alive: old(self)@.last_keep_alive,
                        pending: Seq::empty(),
                    })
                },
                ReadOutcome::Lines(reactions) => {
                    let lines = split(old(self)@.pending + chunk@, LINE_END);
                    &&& chunk@.len() > 0
                    &&& !has_oversized(lines)
                    &&& reactions_view(reactions@) == reactions_to(
                        lines.drop_last(),
                        old(self)@.last_keep_alive,
                        aircraft@,
                        now,
                    )
                    &&& final(self)@.pending == lines.last()
                    &&& final(self)@.last_keep_alive == if lines.len() > 1 && keep_alive_due(
                        old(self)@.last_keep_alive,
                        now,
                    ) {
                        now
                    } else {
                        old(self)@.last_keep_alive
                    }
                },
            },
    {
        if chunk.len() == 0 {
            return ReadOutcome::Closed;
        }
        let ghost last = self.session@;
        let ghost all = split(self.buffer@ + chunk@, LINE_END);
        let lines = match self.buffer.push(chunk) {
            Err(_) => {
                return ReadOutcome::TooLarge;
            },
            Ok(lines) => lines,
        };
        let ghost expected = reactions_to(all.drop_last(), last, aircraft@, now);
        let mut reactions: Vec<Reaction> = Vec::new();
        let mut i: usize = 0;
        while i < lines.len()
            invariant
                i <= lines.len(),
                lines_view(lines@) == all.drop_last(),
                expected == reactions_to(all.drop_last(), last, aircraft@, now),
                self.buffer@ == all.last(),
                reactions_view(reactions@) == expected.take(i as int),
                self.session@ == if i > 0 && keep_alive_due(last, now) {
                    now
                } else {
                    last
                },
            decreases lines.len() - i,
        {
            let reaction = self.session.on_message(&lines[i], matcher, aircraft, now);
            reactions.push(reaction);
            proof {
                assert(expected.take(i + 1) =~= expected.take(i as int).push(expected[i as int]));
            }
            i += 1;
        }
        ReadOutcome::Lines(reactions)
    }
}

} // verus!
