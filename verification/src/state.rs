//! The connections that are open.

use rdkafka::config::ClientConfig;
use vstd::hash_map::StringHashMap;
use vstd::prelude::*;
use vstd::string::*;

use crate::config::{clone_config, config_entries};
use crate::redact::{sanitize_error, sanitized};

verus! {

/// The client configuration of every open connection, by the connection's id.
pub struct AppState {
    /// The configurations by id.
    pub clients: StringHashMap<ClientConfig>,
}

impl View for AppState {
    type V = Map<Seq<char>, ClientConfig>;

    open spec fn view(&self) -> Map<Seq<char>, ClientConfig> {
        self.clients@
    }
}

impl AppState {
    /// No connection is open.
    pub fn new() -> (r: AppState)
        ensures
            (r@ == Map::<Seq<char>, ClientConfig>::empty()),
    {
        AppState { clients: StringHashMap::new() }
    }
}

/// The open connections after an attempt to open one more: a broker that
/// answered makes the connection known, in place of an older one of that id.
pub open spec fn after_connect(
    clients: Map<Seq<char>, ClientConfig>,
    id: Seq<char>,
    config: ClientConfig,
    answered: bool,
) -> Map<Seq<char>, ClientConfig> {
    if answered {
        clients.insert(id, config)
    } else {
        clients
    }
}

/// Ends an attempt to open a connection. `probe` is what came of asking a broker
/// for its metadata: only where it answered is the connection stored; otherwise
/// nothing changes, and the error is handed on redacted.
pub fn complete_connect(
    state: &mut AppState,
    id: String,
    config: ClientConfig,
    probe: Result<(), String>,
) -> (r: Result<(), String>)
    ensures
        final(state)@ == after_connect(old(state)@, id@, config, probe is Ok),
        r is Ok <==> probe is Ok,
        r matches Err(e) ==> probe matches Err(raw) && e@ == sanitized(raw@),
{
    match probe {
        Ok(()) => {
            state.clients.insert(id, config);
            Ok(())
        },
        Err(raw) => Err(sanitize_error(raw.as_str())),
    }
}

/// The configuration of an open connection; an id that is not known is an error.
pub fn get_config(state: &AppState, connection_id: &str) -> (r: Result<ClientConfig, String>)
    ensures
        r is Ok <==> state@.contains_key(connection_id@),
        r matches Ok(config) ==> config_entries(config) == config_entries(
            state@[connection_id@],
        ),
        r matches Err(e) ==> e@ == "Not connected"@,
{
    match state.clients.get(connection_id) {
        Some(config) => Ok(clone_config(config)),
        None => Err("Not connected".to_owned()),
    }
}

/// A connection that was opened is found under its id with the configuration it
/// was opened with; every other id is as before.
pub proof fn law_opened_connection_is_found(
    clients: Map<Seq<char>, ClientConfig>,
    id: Seq<char>,
    config: ClientConfig,
    other: Seq<char>,
)
    ensures
        after_connect(clients, id, config, true).contains_key(id),
        after_connect(clients, id, config, true)[id] == config,
        other != id ==> {
            &&& after_connect(clients, id, config, true).contains_key(other)
                <==> clients.contains_key(other)
            &&& clients.contains_key(other) ==> after_connect(clients, id, config, true)[other]
                == clients[other]
        },
{
}

/// A failed attempt leaves every connection as it was, the one it was about
/// included.
pub proof fn law_failed_connect_changes_nothing(
    clients: Map<Seq<char>, ClientConfig>,
    id: Seq<char>,
    config: ClientConfig,
)
    ensures
        after_connect(clients, id, config, false) == clients,
{
}

} // verus!
