//! The traffic log: the record written for a request, which address a
//! request is logged under, where a record goes, and what the background
//! writer of the in-memory log does in each round.
use vstd::prelude::*;

verus! {

/// What the background writer of the in-memory log does in one round.
pub enum LogAction {
    /// A halt was received: stop, successfully.
    Stop,
    /// A record was received: append it as a line, then wait a moment.
    Write(String),
    /// Nothing was received: wait a moment.
    Wait,
}

/// The writer's decision for a round in which a halt was (`halted`) or was
/// not received and `record` is what arrived on the data channel: a halt
/// comes first, then a record, else the writer waits.
pub fn log_step(halted: bool, record: Option<String>) -> (a: LogAction)
    ensures
        halted ==> a is Stop,
        !halted && record is Some ==> a == LogAction::Write(record->0),
        !halted && record is None ==> a is Wait,
{
    if halted {
        LogAction::Stop
    } else {
        match record {
            Some(line) => LogAction::Write(line),
            None => LogAction::Wait,
        }
    }
}

/// Where a log record goes.
pub enum LogDestination {
    /// Published on the `log` channel of the Redis server.
    Redis,
    /// Handed to the in-memory log.
    Memory,
}

/// A record goes to Redis when a Redis client was set up and a connection
/// to the server could be had; otherwise to the in-memory log.
pub fn log_destination(has_client: bool, connected: bool) -> (d: LogDestination)
    ensures
        d is Redis <==> has_client && connected,
{
    if has_client && connected {
        LogDestination::Redis
    } else {
        LogDestination::Memory
    }
}

/// The address a request is logged under: the `x-real-ip` header when it
/// is present and readable, else the peer's address, else `unknown`.
pub fn client_ip(real_ip: Option<String>, peer: Option<String>) -> (ip: String)
    ensures
        real_ip is Some ==> ip@ == real_ip->0@,
        real_ip is None && peer is Some ==> ip@ == peer->0@,
        real_ip is None && peer is None ==> ip@ == seq!['u', 'n', 'k', 'n', 'o', 'w', 'n'],
{
    match real_ip {
        Some(ip) => ip,
        None => match peer {
            Some(ip) => ip,
            None => {
                let mut ip = String::new();
                crate::strings::push_str_chars(&mut ip, &['u', 'n', 'k', 'n', 'o', 'w', 'n']);
                ip
            },
        },
    }
}

/// The user agent a request is logged under: the header when present and
/// readable, else the empty string.
pub fn user_agent(header: Option<String>) -> (ua: String)
    ensures
        header is Some ==> ua@ == header->0@,
        header is None ==> ua@ == Seq::<char>::empty(),
{
    match header {
        Some(ua) => ua,
        None => String::new(),
    }
}


/// What `serde_json` writes for a JSON object whose fields are the
/// (key, string value) pairs of `fields`, given in this order.
pub uninterp spec fn json_object(fields: Seq<(Seq<char>, Seq<char>)>) -> Seq<char>;

/// `serde_json`: collects the pairs into a `serde_json::Map` of string
/// values and writes the object (`Value::to_string`). This claims only that
/// the text is determined by the pairs, under the name `json_object`; the
/// key order and escaping that serde_json applies are left unsaid.
#[verifier::external_body]
fn json_object_text(fields: &[(&str, &str)]) -> (r: String)
    ensures
        r@ == json_object(fields@.map_values(|f: (&str, &str)| (f.0@, f.1@))),
{
    let object: serde_json::Map<String, serde_json::Value> = fields.iter().map(
        |(key, value)| (key.to_string(), serde_json::Value::from(*value)),
    ).collect();
    serde_json::Value::Object(object).to_string()
}

/// The JSON record logged for a request: an object with the fields
/// `user_agent`, `user_ip`, `path` and `method`, in that order.
pub fn log_record(user_agent: &str, user_ip: &str, path: &str, method: &str) -> (r: String)
    ensures
        r@ == json_object(
            seq![
                ("user_agent"@, user_agent@),
                ("user_ip"@, user_ip@),
                ("path"@, path@),
                ("method"@, method@),
            ],
        ),
{
    let fields = vec![
        ("user_agent", user_agent),
        ("user_ip", user_ip),
        ("path", path),
        ("method", method),
    ];
    proof {
        assert(fields@.map_values(|f: (&str, &str)| (f.0@, f.1@)) =~= seq![
            ("user_agent"@, user_agent@),
            ("user_ip"@, user_ip@),
            ("path"@, path@),
            ("method"@, method@),
        ]);
    }
    json_object_text(fields.as_slice())
}

} // verus!
