//! The server's settings, read from its configuration text.

use vstd::prelude::*;
use crate::config::{config_text, parse};
use crate::description::{lookup, lookup_string, value_model, Dict, ParameterValue, Value};
use crate::text::parse_unsigned;

verus! {

pub struct ServerConfig {
    pub server_adminPort: u16,
    pub server_gamePort: u16,
    pub server_editorPort: u16,
    pub server_address: String,
    pub server_connectionsLimit: usize,
    pub server_playersLimit: usize,
    pub repositories: Vec<String>,
    pub loadMap: String,
    pub generateMap: String,
}

/// The number that the string parameter `name` holds, if it is at most
/// `max`.
pub open spec fn number_of(p: Seq<(Seq<char>, Value)>, name: Seq<char>, max: int) -> Option<int> {
    match lookup_string(p, name) {
        Some(v) => parse_unsigned(v, max),
        None => None,
    }
}

/// The strings of the list parameter `name`, if it is one and holds only
/// strings.
pub open spec fn string_list_of(p: Seq<(Seq<char>, Value)>, name: Seq<char>) -> Option<Seq<Seq<char>>> {
    match lookup(p, name) {
        Some(Value::List(_, e)) => if forall|i: int| 0 <= i < e.len() ==> #[trigger] e[i] is Str {
            Some(Seq::new(e.len(), |i: int| e[i]->Str_1))
        } else {
            None
        },
        _ => None,
    }
}

/// All settings are there and within their limits: fewer than 1500
/// connections and fewer than 1000 players.
pub open spec fn settings_ok(p: Seq<(Seq<char>, Value)>) -> bool {
    &&& number_of(p, "server.adminPort"@, 65535) is Some
    &&& number_of(p, "server.gamePort"@, 65535) is Some
    &&& number_of(p, "server.editorPort"@, 65535) is Some
    &&& lookup_string(p, "server.address"@) is Some
    &&& number_of(p, "server.connectionsLimit"@, usize::MAX as int) matches Some(n) && n < 1500
    &&& number_of(p, "server.playersLimit"@, usize::MAX as int) matches Some(n) && n < 1000
    &&& string_list_of(p, "repositories"@) is Some
    &&& lookup_string(p, "load map"@) is Some
    &&& lookup_string(p, "generate map"@) is Some
}

/// The settings hold what the parameters say.
pub open spec fn settings_match(c: ServerConfig, p: Seq<(Seq<char>, Value)>) -> bool {
    &&& number_of(p, "server.adminPort"@, 65535) == Some(c.server_adminPort as int)
    &&& number_of(p, "server.gamePort"@, 65535) == Some(c.server_gamePort as int)
    &&& number_of(p, "server.editorPort"@, 65535) == Some(c.server_editorPort as int)
    &&& lookup_string(p, "server.address"@) == Some(c.server_address@)
    &&& number_of(p, "server.connectionsLimit"@, usize::MAX as int) == Some(
        c.server_connectionsLimit as int,
    )
    &&& number_of(p, "server.playersLimit"@, usize::MAX as int) == Some(c.server_playersLimit as int)
    &&& string_list_of(p, "repositories"@) == Some(c.repositories@.map_values(|r: String| r@))
    &&& lookup_string(p, "load map"@) == Some(c.loadMap@)
    &&& lookup_string(p, "generate map"@) == Some(c.generateMap@)
}

fn port(root: &Dict, name: &str) -> (r: Result<u16, String>)
    ensures
        match number_of(root.model(), name@, 65535) {
            Some(n) => r matches Ok(x) && x == n,
            None => r is Err,
        },
{
    match root.getStringAs(name) {
        Ok(n) => {
            if n > 65535 {
                Err("Port number is too large".to_string())
            } else {
                Ok(n as u16)
            }
        },
        Err(e) => Err(e),
    }
}

fn strings(root: &Dict, name: &str) -> (r: Result<Vec<String>, String>)
    ensures
        match string_list_of(root.model(), name@) {
            Some(v) => r matches Ok(x) && x@.map_values(|s: String| s@) == v,
            None => r is Err,
        },
{
    let list = match root.getList(name) {
        Ok(l) => l,
        Err(e) => {
            return Err(e);
        },
    };
    let ghost e = crate::description::elements_model(list.elements@);
    proof {
        crate::description::lemma_elements_model(list.elements@);
    }
    let mut out: Vec<String> = Vec::new();
    let mut i: usize = 0;
    while i < list.elements.len()
        invariant
            e == crate::description::elements_model(list.elements@),
            e.len() == list.elements@.len(),
            forall|k: int| 0 <= k < e.len() ==> #[trigger] e[k] == value_model(list.elements@[k]),
            lookup(root.model(), name@) == Some(value_model(ParameterValue::List(*list))),
            i <= list.elements@.len(),
            out@.len() == i,
            forall|k: int| 0 <= k < i ==> #[trigger] e[k] is Str && out@[k]@ == e[k]->Str_1,
        decreases list.elements@.len() - i,
    {
        match list.elements[i].getString() {
            Ok(s) => {
                out.push(s.clone());
            },
            Err(err) => {
                assert(!(e[i as int] is Str));
                return Err(err);
            },
        }
        i = i + 1;
    }
    assert(out@.map_values(|s: String| s@) =~= Seq::new(e.len(), |k: int| e[k]->Str_1));
    Ok(out)
}

fn settings(root: Dict) -> (r: Result<ServerConfig, String>)
    ensures
        settings_ok(root.model()) ==> (r matches Ok(c) && settings_match(c, root.model())),
        !settings_ok(root.model()) ==> r is Err,
{
    let server_adminPort = match port(&root, "server.adminPort") {
        Ok(p) => p,
        Err(e) => {
            return Err(e);
        },
    };
    let server_gamePort = match port(&root, "server.gamePort") {
        Ok(p) => p,
        Err(e) => {
            return Err(e);
        },
    };
    let server_editorPort = match port(&root, "server.editorPort") {
        Ok(p) => p,
        Err(e) => {
            return Err(e);
        },
    };
    let server_address = match root.getString("server.address") {
        Ok(s) => s.clone(),
        Err(e) => {
            return Err(e);
        },
    };
    let server_connectionsLimit = match root.getStringAs("server.connectionsLimit") {
        Ok(n) => n,
        Err(e) => {
            return Err(e);
        },
    };
    if server_connectionsLimit >= 1500 {
        return Err("Too large number of connections".to_string());
    }
    let server_playersLimit = match root.getStringAs("server.playersLimit") {
        Ok(n) => n,
        Err(e) => {
            return Err(e);
        },
    };
    if server_playersLimit >= 1000 {
        return Err("Too large number of players".to_string());
    }
    let repositories = match strings(&root, "repositories") {
        Ok(r) => r,
        Err(e) => {
            return Err(e);
        },
    };
    let loadMap = match root.getString("load map") {
        Ok(s) => s.clone(),
        Err(e) => {
            return Err(e);
        },
    };
    let generateMap = match root.getString("generate map") {
        Ok(s) => s.clone(),
        Err(e) => {
            return Err(e);
        },
    };
    Ok(
        ServerConfig {
            server_adminPort,
            server_gamePort,
            server_editorPort,
            server_address,
            server_connectionsLimit,
            server_playersLimit,
            repositories,
            loadMap,
            generateMap,
        },
    )
}

impl ServerConfig {
    /// The settings in the configuration text `content`.
    pub fn read(content: &String) -> (r: Result<ServerConfig, String>)
        ensures
            match config_text(content@) {
                Some(Value::Dict(_, p)) => if settings_ok(p) {
                    r matches Ok(c) && settings_match(c, p)
                } else {
                    r is Err
                },
                _ => r is Err,
            },
    {
        parse(content, settings)
    }
}

} // verus!
