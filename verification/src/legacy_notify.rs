//! The legacy notify payload: the `agent-turn-complete` notification passed
//! as the last argument of a user-configured notify command, and its
//! bounded form that keeps the argument under the size limit.
use vstd::prelude::*;
use vstd::string::*;

use crate::json::encode_all;
use crate::json::encode_opt;
use crate::json::encode_optional;
use crate::json::encode_string;
use crate::json::encode_strings;
use crate::json::json_array_frame;
use crate::json::json_string_literal;
use crate::json::opt_view;
use crate::json::push_json_array;
use crate::text::lemma_encode_utf8_concat;
use crate::text::lemma_utf8_len_push;
use crate::text::longest_fitting_prefix;
use crate::text::longest_fitting_prefix_len;
use crate::text::lemma_longest_fitting_prefix_exists;
use crate::text::string_views;
use crate::text::utf8_len;
use crate::text::utf8_len_within;

verus! {

broadcast use vstd::string::group_string_axioms;

/// Upper bound, in bytes, of the notification payload passed as the last
/// argv argument of the legacy notify command.
pub const LEGACY_NOTIFY_ARG_MAX_BYTES: usize = 8 * 1024;

/// Upper bound, in bytes, of each message copied into the payload.
pub const LEGACY_NOTIFY_MESSAGE_MAX_BYTES: usize = 2 * 1024;

/// Bytes kept from an overlong message before the truncation marker.
pub const LEGACY_NOTIFY_MESSAGE_PREFIX_BYTES: usize = LEGACY_NOTIFY_MESSAGE_MAX_BYTES - 3;

/// The text that replaces the dropped tail of a truncated message.
pub open spec fn truncated_marker() -> Seq<char> {
    seq!['.', '.', '.']
}

/// A message as it is copied into the payload: unchanged when its UTF-8
/// encoding fits in `LEGACY_NOTIFY_MESSAGE_MAX_BYTES`, otherwise the longest
/// prefix that leaves room for the marker, followed by the marker.
pub open spec fn truncated_for_argv(value: Seq<char>) -> Seq<char> {
    if utf8_len(value) <= LEGACY_NOTIFY_MESSAGE_MAX_BYTES {
        value
    } else {
        value.take(longest_fitting_prefix_len(value, LEGACY_NOTIFY_MESSAGE_PREFIX_BYTES as int))
            + truncated_marker()
    }
}

proof fn lemma_marker_len()
    ensures
        utf8_len(truncated_marker()) == 3,
{
    let m = truncated_marker();
    assert(m =~= seq!['.'].push('.').push('.'));
    assert(utf8_len(Seq::<char>::empty()) == 0);
    assert(Seq::<char>::empty().push('.') =~= seq!['.']);
    lemma_utf8_len_push(Seq::<char>::empty(), '.');
    lemma_utf8_len_push(seq!['.'], '.');
    lemma_utf8_len_push(seq!['.'].push('.'), '.');
}

/// Shortens one message for the legacy notify payload; see
/// [`truncated_for_argv`]. The result never exceeds
/// `LEGACY_NOTIFY_MESSAGE_MAX_BYTES` bytes.
pub fn truncate_for_argv(value: &str) -> (r: String)
    ensures
        r@ == truncated_for_argv(value@),
        utf8_len(r@) <= LEGACY_NOTIFY_MESSAGE_MAX_BYTES,
{
    if let Some(_) = utf8_len_within(value, LEGACY_NOTIFY_MESSAGE_MAX_BYTES) {
        return value.to_string();
    }
    let k = longest_fitting_prefix(value, LEGACY_NOTIFY_MESSAGE_PREFIX_BYTES);
    let prefix = value.substring_char(0, k);
    let mut out = prefix.to_string();
    out.append("...");
    proof {
        reveal_strlit("...");
        assert("..."@ =~= truncated_marker());
        assert(prefix@ =~= value@.take(k as int));
        lemma_marker_len();
        lemma_encode_utf8_concat(value@.take(k as int), truncated_marker());
    }
    out
}

/// The compact JSON object of the `agent-turn-complete` notification from
/// already encoded field values: fields in declaration order, `client`
/// omitted when absent, `last-assistant-message` written as `null` when
/// absent.
pub open spec fn agent_turn_complete_frame(
    thread_id: Seq<char>,
    turn_id: Seq<char>,
    cwd: Seq<char>,
    client: Option<Seq<char>>,
    input_messages: Seq<Seq<char>>,
    last_assistant_message: Option<Seq<char>>,
) -> Seq<char> {
    "{\"type\":\"agent-turn-complete\",\"thread-id\":"@ + thread_id + ",\"turn-id\":"@ + turn_id
        + ",\"cwd\":"@ + cwd + match client {
        Some(c) => ",\"client\":"@ + c,
        None => Seq::empty(),
    } + ",\"input-messages\":"@ + json_array_frame(input_messages)
        + ",\"last-assistant-message\":"@ + match last_assistant_message {
        Some(m) => m,
        None => "null"@,
    } + "}"@
}

/// The JSON text of the `agent-turn-complete` notification: every string
/// written as a JSON string literal, then framed by
/// [`agent_turn_complete_frame`].
pub open spec fn agent_turn_complete_json(
    thread_id: Seq<char>,
    turn_id: Seq<char>,
    cwd: Seq<char>,
    client: Option<Seq<char>>,
    input_messages: Seq<Seq<char>>,
    last_assistant_message: Option<Seq<char>>,
) -> Seq<char> {
    agent_turn_complete_frame(
        json_string_literal(thread_id),
        json_string_literal(turn_id),
        json_string_literal(cwd),
        encode_opt(client),
        encode_all(input_messages),
        encode_opt(last_assistant_message),
    )
}

/// Frames the `agent-turn-complete` notification from field values that are
/// already JSON-encoded; see [`agent_turn_complete_frame`].
pub fn frame_agent_turn_complete(
    thread_id: &str,
    turn_id: &str,
    cwd: &str,
    client: &Option<String>,
    input_messages: &Vec<String>,
    last_assistant_message: &Option<String>,
) -> (r: String)
    ensures
        r@ == agent_turn_complete_frame(
            thread_id@,
            turn_id@,
            cwd@,
            opt_view(*client),
            string_views(input_messages@),
            opt_view(*last_assistant_message),
        ),
{
    let mut out = String::new();
    out.append("{\"type\":\"agent-turn-complete\",\"thread-id\":");
    out.append(thread_id);
    out.append(",\"turn-id\":");
    out.append(turn_id);
    out.append(",\"cwd\":");
    out.append(cwd);
    let ghost before_client = out@;
    if let Some(name) = client {
        out.append(",\"client\":");
        out.append(name.as_str());
    } else {
        assert(out@ =~= before_client + Seq::<char>::empty());
    }
    out.append(",\"input-messages\":");
    push_json_array(&mut out, input_messages);
    out.append(",\"last-assistant-message\":");
    match last_assistant_message {
        Some(m) => {
            out.append(m.as_str());
        },
        None => {
            out.append("null");
        },
    }
    out.append("}");
    out
}

/// Encodes the fields with `serde_json` and frames the `agent-turn-complete`
/// notification; see [`agent_turn_complete_json`].
pub fn agent_turn_complete_to_json(
    thread_id: &str,
    turn_id: &str,
    cwd: &str,
    client: &Option<String>,
    input_messages: &Vec<String>,
    last_assistant_message: &Option<String>,
) -> (r: String)
    ensures
        r@ == agent_turn_complete_json(
            thread_id@,
            turn_id@,
            cwd@,
            opt_view(*client),
            string_views(input_messages@),
            opt_view(*last_assistant_message),
        ),
{
    let t = encode_string(thread_id);
    let u = encode_string(turn_id);
    let c = encode_string(cwd);
    let cl = encode_optional(client);
    let ms = encode_strings(input_messages);
    let l = encode_optional(last_assistant_message);
    frame_agent_turn_complete(t.as_str(), u.as_str(), c.as_str(), &cl, &ms, &l)
}

/// The `AfterAgent` hook event: what the agent turn produced.
pub struct HookEventAfterAgent {
    pub thread_id: String,
    pub turn_id: String,
    pub input_messages: Vec<String>,
    pub last_assistant_message: Option<String>,
}

/// The hook events that reach the legacy notify hook.
pub enum HookEvent {
    AfterAgent { event: HookEventAfterAgent },
}

/// What a hook receives: the working directory (as displayed), the client
/// name when known, and the event.
pub struct HookPayload {
    pub cwd: String,
    pub client: Option<String>,
    pub hook_event: HookEvent,
}

/// The legacy notification appended as the final argv argument.
pub enum UserNotification {
    AgentTurnComplete {
        thread_id: String,
        turn_id: String,
        cwd: String,
        client: Option<String>,
        input_messages: Vec<String>,
        last_assistant_message: Option<String>,
    },
}

/// The error type of the serialising functions. Encoding a notification
/// only encodes strings, which `serde_json` never refuses, so these
/// functions always return `Ok`.
pub enum LegacyNotifyError {
    /// `serde_json` refused to encode a value.
    Json(serde_json::Error),
}

/// The JSON text of a notification; see [`agent_turn_complete_json`].
pub open spec fn user_notification_json(n: UserNotification) -> Seq<char> {
    match n {
        UserNotification::AgentTurnComplete {
            thread_id,
            turn_id,
            cwd,
            client,
            input_messages,
            last_assistant_message,
        } => agent_turn_complete_json(
            thread_id@,
            turn_id@,
            cwd@,
            opt_view(client),
            string_views(input_messages@),
            opt_view(last_assistant_message),
        ),
    }
}

impl UserNotification {
    /// Serialises the notification to its compact JSON wire form; this
    /// always succeeds.
    pub fn to_json(&self) -> (r: Result<String, LegacyNotifyError>)
        ensures
            r matches Ok(s) && s@ == user_notification_json(*self),
    {
        match self {
            UserNotification::AgentTurnComplete {
                thread_id,
                turn_id,
                cwd,
                client,
                input_messages,
                last_assistant_message,
            } => Ok(
                agent_turn_complete_to_json(
                    thread_id.as_str(),
                    turn_id.as_str(),
                    cwd.as_str(),
                    client,
                    input_messages,
                    last_assistant_message,
                ),
            ),
        }
    }
}

/// The full (unbounded) legacy payload of a hook payload.
pub open spec fn legacy_payload_json(payload: HookPayload) -> Seq<char> {
    match payload.hook_event {
        HookEvent::AfterAgent { event } => agent_turn_complete_json(
            event.thread_id@,
            event.turn_id@,
            payload.cwd@,
            opt_view(payload.client),
            string_views(event.input_messages@),
            opt_view(event.last_assistant_message),
        ),
    }
}

/// Serialises the whole payload, messages untouched, as the legacy
/// `agent-turn-complete` notification; this always succeeds.
pub fn legacy_notify_json(payload: &HookPayload) -> (r: Result<String, LegacyNotifyError>)
    ensures
        r matches Ok(s) && s@ == legacy_payload_json(*payload),
{
    match &payload.hook_event {
        HookEvent::AfterAgent { event } => Ok(
            agent_turn_complete_to_json(
                event.thread_id.as_str(),
                event.turn_id.as_str(),
                payload.cwd.as_str(),
                &payload.client,
                &event.input_messages,
                &event.last_assistant_message,
            ),
        ),
    }
}

/// Each message shortened by [`truncated_for_argv`].
pub open spec fn truncated_messages(messages: Seq<Seq<char>>) -> Seq<Seq<char>> {
    messages.map_values(|m: Seq<char>| truncated_for_argv(m))
}

/// An optional message shortened by [`truncated_for_argv`].
pub open spec fn truncated_message(message: Option<Seq<char>>) -> Option<Seq<char>> {
    match message {
        Some(m) => Some(truncated_for_argv(m)),
        None => None,
    }
}

/// The messages kept by `Vec::truncate(1)`.
pub open spec fn at_most_first(messages: Seq<Seq<char>>) -> Seq<Seq<char>> {
    if messages.len() <= 1 {
        messages
    } else {
        messages.take(1)
    }
}

/// `candidate` when it fits in `LEGACY_NOTIFY_ARG_MAX_BYTES`, otherwise
/// `otherwise`.
pub open spec fn fits_or(candidate: Seq<char>, otherwise: Seq<char>) -> Seq<char> {
    if utf8_len(candidate) <= LEGACY_NOTIFY_ARG_MAX_BYTES {
        candidate
    } else {
        otherwise
    }
}

/// The bounded payload: messages truncated, then the first of these that
/// fits in `LEGACY_NOTIFY_ARG_MAX_BYTES`: all messages; only the first input
/// message; no input messages; no input messages and no last assistant
/// message (taken whatever its length).
pub open spec fn bounded_payload_json(payload: HookPayload) -> Seq<char> {
    match payload.hook_event {
        HookEvent::AfterAgent { event } => {
            let messages = truncated_messages(string_views(event.input_messages@));
            let last = truncated_message(opt_view(event.last_assistant_message));
            let t = event.thread_id@;
            let u = event.turn_id@;
            let cwd = payload.cwd@;
            let client = opt_view(payload.client);
            let none: Seq<Seq<char>> = Seq::empty();
            fits_or(
                agent_turn_complete_json(t, u, cwd, client, messages, last),
                fits_or(
                    agent_turn_complete_json(t, u, cwd, client, at_most_first(messages), last),
                    fits_or(
                        agent_turn_complete_json(t, u, cwd, client, none, last),
                        agent_turn_complete_json(t, u, cwd, client, none, None),
                    ),
                ),
            )
        },
    }
}

/// Whether a serialised payload fits in `LEGACY_NOTIFY_ARG_MAX_BYTES` bytes.
pub fn fits_legacy_notify_arg(serialized: &str) -> (r: bool)
    ensures
        r == (utf8_len(serialized@) <= LEGACY_NOTIFY_ARG_MAX_BYTES),
{
    utf8_len_within(serialized, LEGACY_NOTIFY_ARG_MAX_BYTES).is_some()
}

/// Truncates every message of `messages` for argv.
fn truncate_all_for_argv(messages: &Vec<String>) -> (r: Vec<String>)
    ensures
        string_views(r@) == truncated_messages(string_views(messages@)),
{
    let mut out: Vec<String> = Vec::new();
    let mut i: usize = 0;
    while i < messages.len()
        invariant
            0 <= i <= messages.len(),
            string_views(out@) == truncated_messages(string_views(messages@)).take(i as int),
        decreases messages.len() - i,
    {
        let t = truncate_for_argv(messages[i].as_str());
        let ghost before = out@;
        out.push(t);
        assert(string_views(out@) =~= string_views(before).push(t@));
        assert(truncated_messages(string_views(messages@)).take(i + 1) =~= truncated_messages(
            string_views(messages@),
        ).take(i as int).push(t@));
        i = i + 1;
    }
    assert(truncated_messages(string_views(messages@)).take(messages.len() as int)
        =~= truncated_messages(string_views(messages@)));
    out
}

/// Serialises the payload for the argv of the legacy notify command, kept
/// under `LEGACY_NOTIFY_ARG_MAX_BYTES` by truncating messages and then
/// dropping them; see [`bounded_payload_json`]. This always succeeds.
pub fn bounded_legacy_notify_json(payload: &HookPayload) -> (r: Result<String, LegacyNotifyError>)
    ensures
        r matches Ok(s) && s@ == bounded_payload_json(*payload),
{
    match &payload.hook_event {
        HookEvent::AfterAgent { event } => {
            let thread_id = event.thread_id.as_str();
            let turn_id = event.turn_id.as_str();
            let cwd = payload.cwd.as_str();
            let client = &payload.client;
            let mut input_messages = truncate_all_for_argv(&event.input_messages);
            let mut last_assistant_message = match &event.last_assistant_message {
                Some(m) => Some(truncate_for_argv(m.as_str())),
                None => None,
            };
            assert(opt_view(last_assistant_message) == truncated_message(
                opt_view(event.last_assistant_message),
            ));
            let serialized = agent_turn_complete_to_json(
                thread_id,
                turn_id,
                cwd,
                client,
                &input_messages,
                &last_assistant_message,
            );
            if fits_legacy_notify_arg(serialized.as_str()) {
                return Ok(serialized);
            }
            let ghost all = string_views(input_messages@);
            input_messages.truncate(1);
            assert(string_views(input_messages@) =~= at_most_first(all));
            let serialized = agent_turn_complete_to_json(
                thread_id,
                turn_id,
                cwd,
                client,
                &input_messages,
                &last_assistant_message,
            );
            if fits_legacy_notify_arg(serialized.as_str()) {
                return Ok(serialized);
            }
            input_messages.clear();
            assert(string_views(input_messages@) =~= Seq::<Seq<char>>::empty());
            let serialized = agent_turn_complete_to_json(
                thread_id,
                turn_id,
                cwd,
                client,
                &input_messages,
                &last_assistant_message,
            );
            if fits_legacy_notify_arg(serialized.as_str()) {
                return Ok(serialized);
            }
            last_assistant_message = None;
            Ok(
                agent_turn_complete_to_json(
                    thread_id,
                    turn_id,
                    cwd,
                    client,
                    &input_messages,
                    &last_assistant_message,
                ),
            )
        },
    }
}

/// The argv of the legacy notify command for `payload`: `None` when `argv`
/// names no program; otherwise `argv` followed by the bounded payload.
pub fn legacy_notify_command_argv(argv: &Vec<String>, payload: &HookPayload) -> (r: Option<
    Vec<String>,
>)
    ensures
        r is None <==> argv@.len() == 0,
        r matches Some(v) ==> string_views(v@) == string_views(argv@).push(
            bounded_payload_json(*payload),
        ),
{
    if argv.len() == 0 {
        return None;
    }
    let mut out: Vec<String> = Vec::new();
    let mut i: usize = 0;
    while i < argv.len()
        invariant
            i <= argv@.len(),
            string_views(out@) == string_views(argv@).take(i as int),
        decreases argv.len() - i,
    {
        let ghost before = string_views(out@);
        let arg = argv[i].clone();
        out.push(arg);
        assert(string_views(out@) =~= before.push(argv@[i as int]@));
        assert(string_views(argv@).take(i + 1) =~= string_views(argv@).take(i as int).push(
            argv@[i as int]@,
        ));
        i = i + 1;
    }
    assert(string_views(argv@).take(argv@.len() as int) =~= string_views(argv@));
    if let Ok(json) = bounded_legacy_notify_json(payload) {
        let ghost before = string_views(out@);
        out.push(json);
        assert(string_views(out@) =~= before.push(json@));
    }
    Some(out)
}

/// A message as copied into the payload never takes more than
/// `LEGACY_NOTIFY_MESSAGE_MAX_BYTES` bytes: one that fits is kept whole;
/// one that does not is cut after the longest prefix that fits in
/// `LEGACY_NOTIFY_MESSAGE_PREFIX_BYTES` (so never inside a character),
/// followed by `...`.
pub proof fn lemma_truncated_for_argv_fits(value: Seq<char>)
    ensures
        utf8_len(truncated_for_argv(value)) <= LEGACY_NOTIFY_MESSAGE_MAX_BYTES,
        utf8_len(value) <= LEGACY_NOTIFY_MESSAGE_MAX_BYTES ==> truncated_for_argv(value) == value,
        utf8_len(value) > LEGACY_NOTIFY_MESSAGE_MAX_BYTES ==> exists|k: int|
            {
                &&& 0 <= k < value.len()
                &&& truncated_for_argv(value) == value.take(k) + seq!['.', '.', '.']
                &&& utf8_len(value.take(k)) <= LEGACY_NOTIFY_MESSAGE_PREFIX_BYTES
                &&& utf8_len(#[trigger] value.take(k + 1)) > LEGACY_NOTIFY_MESSAGE_PREFIX_BYTES
            },
{
    if utf8_len(value) > LEGACY_NOTIFY_MESSAGE_MAX_BYTES {
        let budget = LEGACY_NOTIFY_MESSAGE_PREFIX_BYTES as int;
        lemma_longest_fitting_prefix_exists(value, budget);
        let k = longest_fitting_prefix_len(value, budget);
        lemma_marker_len();
        lemma_encode_utf8_concat(value.take(k), truncated_marker());
        if k == value.len() {
            assert(value.take(k) =~= value);
        }
        assert(0 <= k < value.len());
    }
}

/// Truncating a message twice is truncating it once.
pub proof fn lemma_truncate_for_argv_idempotent(value: Seq<char>)
    ensures
        truncated_for_argv(truncated_for_argv(value)) == truncated_for_argv(value),
{
    lemma_truncated_for_argv_fits(value);
}

/// The bounded payload either fits in `LEGACY_NOTIFY_ARG_MAX_BYTES` or is
/// the last resort: no input messages and no last assistant message.
pub proof fn lemma_bounded_payload_fits_or_is_minimal(payload: HookPayload)
    ensures
        utf8_len(bounded_payload_json(payload)) <= LEGACY_NOTIFY_ARG_MAX_BYTES
            || bounded_payload_json(payload) == minimal_payload_json(payload),
{
}

/// The payload with no input messages and no last assistant message.
pub open spec fn minimal_payload_json(payload: HookPayload) -> Seq<char> {
    match payload.hook_event {
        HookEvent::AfterAgent { event } => agent_turn_complete_json(
            event.thread_id@,
            event.turn_id@,
            payload.cwd@,
            opt_view(payload.client),
            Seq::empty(),
            None,
        ),
    }
}

/// Whenever the fixed fields alone fit, so does the bounded payload.
pub proof fn lemma_bounded_payload_fits_when_minimal_fits(payload: HookPayload)
    requires
        utf8_len(minimal_payload_json(payload)) <= LEGACY_NOTIFY_ARG_MAX_BYTES,
    ensures
        utf8_len(bounded_payload_json(payload)) <= LEGACY_NOTIFY_ARG_MAX_BYTES,
{
}

/// When no message needs truncating and the full payload already fits,
/// the bounded payload is the full legacy payload.
pub proof fn lemma_bounded_payload_is_legacy_when_it_fits(payload: HookPayload)
    requires
        match payload.hook_event {
            HookEvent::AfterAgent { event } => {
                &&& forall|i: int|
                    0 <= i < event.input_messages@.len() ==> utf8_len(
                        #[trigger] event.input_messages@[i]@,
                    ) <= LEGACY_NOTIFY_MESSAGE_MAX_BYTES
                &&& event.last_assistant_message matches Some(m) ==> utf8_len(m@)
                    <= LEGACY_NOTIFY_MESSAGE_MAX_BYTES
            },
        },
        utf8_len(legacy_payload_json(payload)) <= LEGACY_NOTIFY_ARG_MAX_BYTES,
    ensures
        bounded_payload_json(payload) == legacy_payload_json(payload),
{
    match payload.hook_event {
        HookEvent::AfterAgent { event } => {
            let views = string_views(event.input_messages@);
            assert(truncated_messages(views) =~= views);
            assert(truncated_message(opt_view(event.last_assistant_message)) == opt_view(
                event.last_assistant_message,
            ));
        },
    }
}

/// Whether `msgs` are the first input messages of `event`, each
/// truncated for argv, and `last` is absent or the event's last assistant
/// message truncated for argv; every one of them then fits in
/// `LEGACY_NOTIFY_MESSAGE_MAX_BYTES`.
pub open spec fn copies_truncated_messages(
    event: HookEventAfterAgent,
    msgs: Seq<Seq<char>>,
    last: Option<Seq<char>>,
) -> bool {
    &&& msgs.len() <= event.input_messages@.len()
    &&& forall|i: int|
        0 <= i < msgs.len() ==> #[trigger] msgs[i] == truncated_for_argv(event.input_messages@[i]@)
            && utf8_len(msgs[i]) <= LEGACY_NOTIFY_MESSAGE_MAX_BYTES
    &&& last matches Some(x) ==> {
        &&& event.last_assistant_message matches Some(m)
        &&& x == truncated_for_argv(m@)
        &&& utf8_len(x) <= LEGACY_NOTIFY_MESSAGE_MAX_BYTES
    }
}

/// Every message copied into the bounded payload, the input messages and
/// the last assistant message alike, is the given message truncated for
/// argv and fits in `LEGACY_NOTIFY_MESSAGE_MAX_BYTES`: the payload is the
/// notification of the given ids, cwd and client with such messages.
pub proof fn lemma_bounded_payload_messages_are_truncated(payload: HookPayload)
    ensures
        match payload.hook_event {
            HookEvent::AfterAgent { event } => exists|msgs: Seq<Seq<char>>, last: Option<Seq<char>>|
                {
                    &&& copies_truncated_messages(event, msgs, last)
                    &&& bounded_payload_json(payload) == #[trigger] agent_turn_complete_json(
                        event.thread_id@,
                        event.turn_id@,
                        payload.cwd@,
                        opt_view(payload.client),
                        msgs,
                        last,
                    )
                },
        },
{
    match payload.hook_event {
        HookEvent::AfterAgent { event } => {
            let t = event.thread_id@;
            let u = event.turn_id@;
            let cwd = payload.cwd@;
            let client = opt_view(payload.client);
            let all = truncated_messages(string_views(event.input_messages@));
            let last = truncated_message(opt_view(event.last_assistant_message));
            let none: Seq<Seq<char>> = Seq::empty();
            assert forall|i: int| 0 <= i < all.len() implies utf8_len(#[trigger] all[i])
                <= LEGACY_NOTIFY_MESSAGE_MAX_BYTES by {
                lemma_truncated_for_argv_fits(event.input_messages@[i]@);
            }
            if let Some(m) = event.last_assistant_message {
                lemma_truncated_for_argv_fits(m@);
            }
            assert(copies_truncated_messages(event, all, last));
            assert(copies_truncated_messages(event, at_most_first(all), last));
            assert(copies_truncated_messages(event, none, last));
            assert(copies_truncated_messages(event, none, None));
            let full = agent_turn_complete_json(t, u, cwd, client, all, last);
            let first = agent_turn_complete_json(t, u, cwd, client, at_most_first(all), last);
            let empty = agent_turn_complete_json(t, u, cwd, client, none, last);
            if utf8_len(full) <= LEGACY_NOTIFY_ARG_MAX_BYTES {
                assert(bounded_payload_json(payload) == full);
            } else if utf8_len(first) <= LEGACY_NOTIFY_ARG_MAX_BYTES {
                assert(bounded_payload_json(payload) == first);
            } else if utf8_len(empty) <= LEGACY_NOTIFY_ARG_MAX_BYTES {
                assert(bounded_payload_json(payload) == empty);
            } else {
                assert(bounded_payload_json(payload) == agent_turn_complete_json(
                    t,
                    u,
                    cwd,
                    client,
                    none,
                    None,
                ));
            }
        },
    }
}

/// The first `n` input messages of `event`, each truncated for argv.
pub open spec fn first_truncated(event: HookEventAfterAgent, n: int) -> Seq<Seq<char>> {
    Seq::new(n as nat, |i: int| truncated_for_argv(event.input_messages@[i]@))
}

/// The bounded payload gives up as little as it can: it keeps all input
/// messages (truncated) when they fit; it keeps only the first when all do
/// not fit but that one does; it drops the input messages only when the
/// first alone does not fit; and it drops the last assistant message only
/// when even the payload without input messages does not fit.
pub proof fn lemma_bounded_payload_keeps_what_fits(payload: HookPayload)
    ensures
        match payload.hook_event {
            HookEvent::AfterAgent { event } => {
                let n = event.input_messages@.len() as int;
                let last = match event.last_assistant_message {
                    Some(m) => Some(truncated_for_argv(m@)),
                    None => None,
                };
                let with = |msgs: Seq<Seq<char>>, l: Option<Seq<char>>|
                    agent_turn_complete_json(
                        event.thread_id@,
                        event.turn_id@,
                        payload.cwd@,
                        opt_view(payload.client),
                        msgs,
                        l,
                    );
                let fits = |json: Seq<char>| utf8_len(json) <= LEGACY_NOTIFY_ARG_MAX_BYTES;
                &&& fits(with(first_truncated(event, n), last)) ==> bounded_payload_json(payload)
                    == with(first_truncated(event, n), last)
                &&& !fits(with(first_truncated(event, n), last)) && n >= 1 && fits(
                    with(first_truncated(event, 1), last),
                ) ==> bounded_payload_json(payload) == with(first_truncated(event, 1), last)
                &&& !fits(with(first_truncated(event, n), last)) && !(n >= 1 && fits(
                    with(first_truncated(event, 1), last),
                )) && fits(with(Seq::empty(), last)) ==> bounded_payload_json(payload) == with(
                    Seq::empty(),
                    last,
                )
                &&& !fits(with(first_truncated(event, n), last)) && !(n >= 1 && fits(
                    with(first_truncated(event, 1), last),
                )) && !fits(with(Seq::empty(), last)) ==> bounded_payload_json(payload) == with(
                    Seq::empty(),
                    None,
                )
            },
        },
{
    match payload.hook_event {
        HookEvent::AfterAgent { event } => {
            let n = event.input_messages@.len() as int;
            let all = truncated_messages(string_views(event.input_messages@));
            assert(all =~= first_truncated(event, n));
            if n >= 1 {
                assert(at_most_first(all) =~= first_truncated(event, 1));
            } else {
                assert(at_most_first(all) =~= Seq::<Seq<char>>::empty());
                assert(first_truncated(event, n) =~= Seq::<Seq<char>>::empty());
            }
        },
    }
}

} // verus!
