//! Slack events as the bot reads them from Socket Mode, the client that
//! receives them, and its decisions: which events reach the handler, what
//! is acknowledged, how long to wait before reconnecting.

use vstd::prelude::*;
use crate::text::{chars_of, extend_str, string_of, str_eq};
use crate::paths::opt_str_view;

verus! {

broadcast use vstd::string::group_string_axioms;

/// A Slack event received by the bot.
#[derive(Debug, Clone)]
pub struct SlackEvent {
    pub event_type: SlackEventType,
    pub channel: String,
    pub ts: String,
    pub user: String,
    pub text: String,
    pub files: Vec<SlackFile>,
}

/// How the bot was addressed.
#[derive(Debug, Clone, Copy, PartialEq, Eq, Structural)]
pub enum SlackEventType {
    Mention,
    DirectMessage,
}

/// A file attached to a message.
#[derive(Debug, Clone)]
pub struct SlackFile {
    pub name: String,
    pub url: String,
}

/// Where and to whom to answer.
#[derive(Debug, Clone)]
pub struct SlackContext {
    pub channel: String,
    pub thread_ts: Option<String>,
    pub user: String,
}

/// What is done with the events the client receives.
pub trait EventHandler {
    fn on_event(&self, event: SlackEvent, ctx: SlackContext);

    fn on_connect(&self);

    fn on_disconnect(&self);
}

/// The handler that only takes note of events.
pub struct DefaultEventHandler;

impl EventHandler for DefaultEventHandler {
    fn on_event(&self, event: SlackEvent, ctx: SlackContext) {
    }

    fn on_connect(&self) {
    }

    fn on_disconnect(&self) {
    }
}

/// The Socket Mode client: its tokens and the handler events go to.
pub struct SocketModeClient<H> {
    app_token: String,
    bot_token: String,
    event_handler: Option<H>,
}

impl<H: EventHandler> SocketModeClient<H> {
    /// A client with these tokens and no handler yet.
    pub fn new(app_token: String, bot_token: String) -> (r: Self)
        ensures
            r.app_token() == app_token@,
            r.bot_token() == bot_token@,
            r.handler() is None,
    {
        SocketModeClient { app_token, bot_token, event_handler: None }
    }

    pub closed spec fn app_token(&self) -> Seq<char> {
        self.app_token@
    }

    pub closed spec fn bot_token(&self) -> Seq<char> {
        self.bot_token@
    }

    pub closed spec fn handler(&self) -> Option<H> {
        self.event_handler
    }

    /// The client with `handler` receiving its events.
    pub fn with_handler(self, handler: H) -> (r: Self)
        ensures
            r.app_token() == self.app_token(),
            r.bot_token() == self.bot_token(),
            r.handler() == Some(handler),
    {
        SocketModeClient { app_token: self.app_token, bot_token: self.bot_token, event_handler: Some(handler) }
    }

    /// The token the connection is opened with.
    pub fn app_token_str(&self) -> (r: &str)
        ensures
            r@ == self.app_token(),
    {
        self.app_token.as_str()
    }

    /// The token messages are sent with.
    pub fn bot_token_str(&self) -> (r: &str)
        ensures
            r@ == self.bot_token(),
    {
        self.bot_token.as_str()
    }

    /// Hands an event to the handler, when there is one, with the context
    /// to answer in; `false` when the payload is no event for the bot or no
    /// handler is set.
    pub fn process_event(&self, fields: &EventFields) -> (r: bool)
        ensures
            r == (slack_event_of(fields@) is Some && self.handler() is Some),
    {
        match parse_event(fields) {
            Some(event) => match &self.event_handler {
                Some(h) => {
                    let ctx = event_context(&event);
                    h.on_event(event, ctx);
                    true
                },
                None => false,
            },
            None => false,
        }
    }

    /// Tells the handler that the connection is up.
    pub fn notify_connect(&self) {
        if let Some(h) = &self.event_handler {
            h.on_connect();
        }
    }

    /// Tells the handler that the connection is down.
    pub fn notify_disconnect(&self) {
        if let Some(h) = &self.event_handler {
            h.on_disconnect();
        }
    }
}

/// A file entry of an event payload: its `name` and `url_private`, when
/// they are strings.
pub struct FileFields {
    pub name: Option<String>,
    pub url_private: Option<String>,
}

/// What the client reads of an event payload: its string fields (`None`
/// when missing or not a string), whether it has `bot_id` or `subtype`, and
/// its files (`None` when `files` is no array).
pub struct EventFields {
    pub event_type: Option<String>,
    pub channel: Option<String>,
    pub ts: Option<String>,
    pub user: Option<String>,
    pub text: Option<String>,
    pub has_bot_id: bool,
    pub has_subtype: bool,
    pub channel_type: Option<String>,
    pub files: Option<Vec<FileFields>>,
}

/// [`EventFields`] as character sequences.
pub struct EventFieldsView {
    pub event_type: Option<Seq<char>>,
    pub channel: Option<Seq<char>>,
    pub ts: Option<Seq<char>>,
    pub user: Option<Seq<char>>,
    pub text: Option<Seq<char>>,
    pub has_bot_id: bool,
    pub has_subtype: bool,
    pub channel_type: Option<Seq<char>>,
    pub files: Option<Seq<(Option<Seq<char>>, Option<Seq<char>>)>>,
}

impl View for EventFields {
    type V = EventFieldsView;

    open spec fn view(&self) -> EventFieldsView {
        EventFieldsView {
            event_type: opt_str_view(self.event_type),
            channel: opt_str_view(self.channel),
            ts: opt_str_view(self.ts),
            user: opt_str_view(self.user),
            text: opt_str_view(self.text),
            has_bot_id: self.has_bot_id,
            has_subtype: self.has_subtype,
            channel_type: opt_str_view(self.channel_type),
            files: match self.files {
                Some(v) => Some(
                    v@.map_values(|f: FileFields| (opt_str_view(f.name), opt_str_view(f.url_private))),
                ),
                None => None,
            },
        }
    }
}

/// An event as characters: kind, channel, time stamp, user, text, files.
pub type EventView = (SlackEventType, Seq<char>, Seq<char>, Seq<char>, Seq<char>, Seq<(Seq<char>, Seq<char>)>);

/// The view of an event.
pub open spec fn event_view(e: SlackEvent) -> EventView {
    (e.event_type, e.channel@, e.ts@, e.user@, e.text@, e.files@.map_values(|f: SlackFile| (f.name@, f.url@)))
}

/// The files of a payload: those with both a name and a private URL, in
/// order; none when there is no file list.
pub open spec fn files_of(files: Option<Seq<(Option<Seq<char>>, Option<Seq<char>>)>>) -> Seq<(Seq<char>, Seq<char>)> {
    match files {
        Some(fs) => complete_files(fs),
        None => seq![],
    }
}

/// The entries with both fields, in order.
pub open spec fn complete_files(fs: Seq<(Option<Seq<char>>, Option<Seq<char>>)>) -> Seq<(Seq<char>, Seq<char>)>
    decreases fs.len(),
{
    if fs.len() == 0 {
        seq![]
    } else {
        complete_files(fs.drop_last()) + match fs.last() {
            (Some(n), Some(u)) => seq![(n, u)],
            _ => seq![],
        }
    }
}

/// The event a payload with all four string fields makes, of kind `kind`.
pub open spec fn event_with(kind: SlackEventType, f: EventFieldsView) -> Option<EventView> {
    match (f.channel, f.ts, f.user, f.text) {
        (Some(c), Some(t), Some(u), Some(x)) => Some((kind, c, t, u, x, files_of(f.files))),
        _ => None,
    }
}

/// The event a payload is for the bot: an `app_mention`, or a `message` in
/// a direct-message channel (`channel_type` `im`) that no bot sent and that
/// has no subtype; in both cases only when channel, time stamp, user and
/// text are strings.
pub open spec fn slack_event_of(f: EventFieldsView) -> Option<EventView> {
    if f.event_type == Some("app_mention"@) {
        event_with(SlackEventType::Mention, f)
    } else if f.event_type == Some("message"@) {
        if f.has_bot_id || f.has_subtype || f.channel_type != Some("im"@) {
            None
        } else {
            event_with(SlackEventType::DirectMessage, f)
        }
    } else {
        None
    }
}

fn copy_str(s: &String) -> (r: String)
    ensures
        r@ == s@,
{
    s.as_str().to_string()
}

fn parse_files(files: &Option<Vec<FileFields>>) -> (r: Vec<SlackFile>)
    ensures
        r@.map_values(|f: SlackFile| (f.name@, f.url@)) == files_of(
            match *files {
                Some(v) => Some(
                    v@.map_values(|f: FileFields| (opt_str_view(f.name), opt_str_view(f.url_private))),
                ),
                None => None,
            },
        ),
{
    let mut out: Vec<SlackFile> = Vec::new();
    match files {
        None => {
            assert(out@.map_values(|f: SlackFile| (f.name@, f.url@)) =~= Seq::<(Seq<char>, Seq<char>)>::empty());
        },
        Some(v) => {
            let ghost fv = v@.map_values(|f: FileFields| (opt_str_view(f.name), opt_str_view(f.url_private)));
            let mut i: usize = 0;
            while i < v.len()
                invariant
                    i <= v@.len(),
                    fv == v@.map_values(|f: FileFields| (opt_str_view(f.name), opt_str_view(f.url_private))),
                    out@.map_values(|f: SlackFile| (f.name@, f.url@)) == complete_files(fv.take(i as int)),
                decreases v.len() - i,
            {
                let ghost before = out@.map_values(|f: SlackFile| (f.name@, f.url@));
                proof {
                    assert(fv.take(i + 1).drop_last() =~= fv.take(i as int));
                    assert(fv.take(i + 1).last() == fv[i as int]);
                }
                match (&v[i].name, &v[i].url_private) {
                    (Some(n), Some(u)) => {
                        out.push(SlackFile { name: copy_str(n), url: copy_str(u) });
                        assert(out@.map_values(|f: SlackFile| (f.name@, f.url@)) =~= before.push((n@, u@)));
                    },
                    _ => {
                        assert(out@.map_values(|f: SlackFile| (f.name@, f.url@)) =~= before + Seq::<(Seq<char>, Seq<char>)>::empty());
                    },
                }
                i += 1;
            }
            assert(fv.take(v@.len() as int) =~= fv);
        },
    }
    out
}

fn event_with_exec(kind: SlackEventType, f: &EventFields) -> (r: Option<SlackEvent>)
    ensures
        match r {
            Some(e) => event_with(kind, f@) == Some(event_view(e)),
            None => event_with(kind, f@) is None,
        },
{
    match (&f.channel, &f.ts, &f.user, &f.text) {
        (Some(c), Some(t), Some(u), Some(x)) => Some(
            SlackEvent {
                event_type: kind,
                channel: copy_str(c),
                ts: copy_str(t),
                user: copy_str(u),
                text: copy_str(x),
                files: parse_files(&f.files),
            },
        ),
        _ => None,
    }
}

fn opt_is(o: &Option<String>, lit: &str) -> (r: bool)
    ensures
        r == (opt_str_view(*o) == Some(lit@)),
{
    match o {
        Some(s) => str_eq(s.as_str(), lit),
        None => false,
    }
}

/// Reads the event an event payload is for the bot, if any.
pub fn parse_event(fields: &EventFields) -> (r: Option<SlackEvent>)
    ensures
        match r {
            Some(e) => slack_event_of(fields@) == Some(event_view(e)),
            None => slack_event_of(fields@) is None,
        },
{
    if opt_is(&fields.event_type, "app_mention") {
        event_with_exec(SlackEventType::Mention, fields)
    } else if opt_is(&fields.event_type, "message") {
        if fields.has_bot_id || fields.has_subtype || !opt_is(&fields.channel_type, "im") {
            None
        } else {
            event_with_exec(SlackEventType::DirectMessage, fields)
        }
    } else {
        None
    }
}

/// Where to answer an event: in its channel, in the thread of its message,
/// to its user.
pub fn event_context(event: &SlackEvent) -> (r: SlackContext)
    ensures
        r.channel@ == event.channel@,
        opt_str_view(r.thread_ts) == Some(event.ts@),
        r.user@ == event.user@,
{
    SlackContext { channel: copy_str(&event.channel), thread_ts: Some(copy_str(&event.ts)), user: copy_str(&event.user) }
}

/// How an event was addressed, as the log shows it.
pub fn event_type_label(t: SlackEventType) -> (r: &'static str)
    ensures
        r@ == match t {
            SlackEventType::Mention => "mention"@,
            SlackEventType::DirectMessage => "DM"@,
        },
{
    match t {
        SlackEventType::Mention => "mention",
        SlackEventType::DirectMessage => "DM",
    }
}

/// What kind of Socket Mode message arrived.
#[derive(Debug, Clone)]
pub enum WsMessageKind {
    Hello { app_id: String },
    Disconnect { reason: Option<String> },
    EventsApi { envelope_id: String },
    Interactive { envelope_id: String },
    Unknown,
}

/// The envelope to acknowledge for a message: event and interactive
/// messages are acknowledged, others are not.
pub fn ack_envelope(msg: &WsMessageKind) -> (r: Option<String>)
    ensures
        opt_str_view(r) == match *msg {
            WsMessageKind::EventsApi { envelope_id } => Some(envelope_id@),
            WsMessageKind::Interactive { envelope_id } => Some(envelope_id@),
            _ => None,
        },
{
    match msg {
        WsMessageKind::EventsApi { envelope_id } => Some(copy_str(envelope_id)),
        WsMessageKind::Interactive { envelope_id } => Some(copy_str(envelope_id)),
        _ => None,
    }
}

/// The longest wait between reconnection attempts, in seconds.
pub const MAX_BACKOFF_SECS: u64 = 60;

/// After a session ends, the seconds to wait before reconnecting and the
/// wait to use after that: a session that ended cleanly restarts the waits
/// at one second; each wait doubles the next, up to a minute.
pub open spec fn backoff_after(backoff: u64, clean: bool) -> (u64, u64) {
    let wait = if clean {
        1u64
    } else {
        backoff
    };
    (wait, if wait * 2 < 60 {
        (wait * 2) as u64
    } else {
        60u64
    })
}

/// The wait before reconnecting and the next wait.
pub fn backoff_step(backoff: u64, clean: bool) -> (r: (u64, u64))
    requires
        1 <= backoff <= MAX_BACKOFF_SECS,
    ensures
        r == backoff_after(backoff, clean),
{
    let wait = if clean {
        1
    } else {
        backoff
    };
    let next = if wait * 2 < MAX_BACKOFF_SECS {
        wait * 2
    } else {
        MAX_BACKOFF_SECS
    };
    (wait, next)
}

/// The waits stay between one second and a minute.
pub proof fn backoff_stays_bounded(backoff: u64, clean: bool)
    requires
        1 <= backoff <= 60,
    ensures
        1 <= backoff_after(backoff, clean).0 <= 60,
        1 <= backoff_after(backoff, clean).1 <= 60,
        backoff_after(backoff, clean).1 >= backoff_after(backoff, clean).0,
{
}

/// What a Slack Web API reply means: success when `ok` is true; otherwise
/// the error it names (`Unknown error` when it names none).
pub open spec fn api_outcome(ok: Option<bool>, error: Option<Seq<char>>) -> Result<(), Seq<char>> {
    if ok == Some(true) {
        Ok(())
    } else {
        Err("Slack API error: "@ + match error {
            Some(e) => e,
            None => "Unknown error"@,
        })
    }
}

/// Reads a Slack Web API reply.
pub fn check_api_reply(ok: Option<bool>, error: Option<String>) -> (r: Result<(), String>)
    ensures
        match r {
            Ok(()) => api_outcome(ok, opt_str_view(error)) == Ok::<(), Seq<char>>(()),
            Err(m) => api_outcome(ok, opt_str_view(error)) == Err::<(), Seq<char>>(m@),
        },
{
    if ok == Some(true) {
        return Ok(());
    }
    let mut v = chars_of("Slack API error: ");
    match error {
        Some(e) => extend_str(&mut v, e.as_str()),
        None => extend_str(&mut v, "Unknown error"),
    }
    Err(string_of(v.as_slice()))
}

/// What the reply to opening a connection gives: the WebSocket URL, or why
/// there is none.
pub fn websocket_url_of(ok: bool, url: Option<String>, error: Option<String>) -> (r: Result<String, String>)
    ensures
        !ok ==> match r {
            Err(m) => api_outcome(Some(false), opt_str_view(error)) == Err::<(), Seq<char>>(m@),
            Ok(_) => false,
        },
        ok ==> match url {
            Some(u) => r matches Ok(x) && x@ == u@,
            None => r matches Err(m) && m@ == "No WebSocket URL in response"@,
        },
{
    if !ok {
        return match check_api_reply(Some(false), error) {
            Err(m) => Err(m),
            Ok(()) => Err(String::new()),
        };
    }
    match url {
        Some(u) => Ok(u),
        None => Err("No WebSocket URL in response".to_string()),
    }
}

/// The reply to an event with files: one `File: <name> (<url>)` line per
/// file; empty without files.
pub open spec fn files_reply(files: Seq<(Seq<char>, Seq<char>)>) -> Seq<char> {
    crate::text::join(files.map_values(|f: (Seq<char>, Seq<char>)| "File: "@ + f.0 + " ("@ + f.1 + ")"@), "\n"@)
}

/// Describes the files of an event.
pub fn handle_files(event: &SlackEvent) -> (r: String)
    ensures
        r@ == files_reply(event.files@.map_values(|f: SlackFile| (f.name@, f.url@))),
{
    let ghost fv = event.files@.map_values(|f: SlackFile| (f.name@, f.url@));
    let ghost lines = fv.map_values(|f: (Seq<char>, Seq<char>)| "File: "@ + f.0 + " ("@ + f.1 + ")"@);
    let mut parts: Vec<Vec<char>> = Vec::new();
    let mut i: usize = 0;
    while i < event.files.len()
        invariant
            i <= event.files@.len(),
            fv == event.files@.map_values(|f: SlackFile| (f.name@, f.url@)),
            lines == fv.map_values(|f: (Seq<char>, Seq<char>)| "File: "@ + f.0 + " ("@ + f.1 + ")"@),
            parts@.map_values(|p: Vec<char>| p@) == lines.take(i as int),
        decreases event.files.len() - i,
    {
        let mut v = chars_of("File: ");
        extend_str(&mut v, event.files[i].name.as_str());
        extend_str(&mut v, " (");
        extend_str(&mut v, event.files[i].url.as_str());
        extend_str(&mut v, ")");
        let ghost before = parts@.map_values(|p: Vec<char>| p@);
        parts.push(v);
        assert(parts@.map_values(|p: Vec<char>| p@) =~= before.push(lines[i as int]));
        assert(lines.take(i + 1) =~= lines.take(i as int).push(lines[i as int]));
        i += 1;
    }
    assert(lines.take(event.files@.len() as int) =~= lines);
    let j = crate::text::join_chars(&parts, chars_of("\n").as_slice());
    string_of(j.as_slice())
}

} // verus!
