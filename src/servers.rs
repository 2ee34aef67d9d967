//! Operations on the saved server list: profiles are added with a fresh
//! identifier, replaced whole, and deleted by identifier.

use vstd::prelude::*;
use crate::models::{RealitySettings, ServerConfig, generate_id, is_uuid_text};
use crate::uri::fields_of;
use crate::network::str_eq;

verus! {

/// The position of the profile with identifier `id`.
pub fn position_of(servers: &Vec<ServerConfig>, id: &str) -> (r: Option<usize>)
    ensures
        match r {
            Some(i) => i < servers@.len() && servers@[i as int].id@ == id@ && forall|j: int|
                0 <= j < i ==> servers@[j].id@ != id@,
            None => forall|j: int| 0 <= j < servers@.len() ==> servers@[j].id@ != id@,
        },
{
    let mut i: usize = 0;
    while i < servers.len()
        invariant
            i <= servers.len(),
            forall|j: int| 0 <= j < i ==> servers@[j].id@ != id@,
        decreases servers.len() - i,
    {
        if str_eq(servers[i].id.as_str(), id) {
            return Some(i);
        }
        i += 1;
    }
    None
}

/// A copy of a profile.
pub fn copy_server(s: &ServerConfig) -> (r: ServerConfig)
    ensures
        fields_of(r) == fields_of(*s),
        r.id@ == s.id@,
{
    ServerConfig {
        id: s.id.clone(),
        name: s.name.clone(),
        address: s.address.clone(),
        port: s.port,
        uuid: s.uuid.clone(),
        flow: s.flow.clone(),
        reality: RealitySettings {
            public_key: s.reality.public_key.clone(),
            short_id: s.reality.short_id.clone(),
            server_name: s.reality.server_name.clone(),
            fingerprint: s.reality.fingerprint.clone(),
        },
    }
}

/// Appends a profile under a fresh identifier and returns what was stored.
pub fn add_server(servers: &mut Vec<ServerConfig>, server: ServerConfig) -> (r: ServerConfig)
    ensures
        final(servers)@.len() == old(servers)@.len() + 1,
        final(servers)@.subrange(0, old(servers)@.len() as int) == old(servers)@,
        fields_of(final(servers)@.last()) == fields_of(server),
        is_uuid_text(final(servers)@.last().id@),
        fields_of(r) == fields_of(server),
        r.id@ == final(servers)@.last().id@,
{
    let stored = ServerConfig { id: generate_id(), ..server };
    let copy = copy_server(&stored);
    let ghost before = servers@;
    servers.push(stored);
    assert(servers@.subrange(0, before.len() as int) =~= before);
    copy
}

/// Replaces the profile with the same identifier; an unknown identifier is
/// an error naming it.
pub fn update_server(servers: &mut Vec<ServerConfig>, server: ServerConfig) -> (r: Result<(), String>)
    ensures
        match r {
            Ok(()) => exists|i: int| 0 <= i < old(servers)@.len() && old(servers)@[i].id@ == server.id@
                && final(servers)@ == old(servers)@.update(i, server),
            Err(m) => (forall|j: int| 0 <= j < old(servers)@.len() ==> old(servers)@[j].id@ != server.id@)
                && final(servers)@ == old(servers)@ && m@ == "Server with id "@ + server.id@ + " not found"@,
        },
{
    match position_of(servers, server.id.as_str()) {
        Some(i) => {
            let ghost before = servers@;
            let ghost target = server;
            servers.set(i, server);
            assert(before[i as int].id@ == target.id@ && servers@ == before.update(i as int, target));
            Ok(())
        },
        None => {
            let mut m = String::from_str("Server with id ");
            m.append(server.id.as_str());
            m.append(" not found");
            Err(m)
        },
    }
}

/// The profiles whose identifier is not `id`, in order.
pub open spec fn without_id(v: Seq<ServerConfig>, id: Seq<char>) -> Seq<ServerConfig>
    decreases v.len(),
{
    if v.len() == 0 {
        seq![]
    } else if v.last().id@ == id {
        without_id(v.drop_last(), id)
    } else {
        without_id(v.drop_last(), id).push(v.last())
    }
}

/// Removes every profile with identifier `id`; finding none is an error
/// naming it.
pub fn delete_server(servers: &mut Vec<ServerConfig>, id: &str) -> (r: Result<(), String>)
    ensures
        final(servers)@ == without_id(old(servers)@, id@),
        r is Ok <==> exists|j: int| 0 <= j < old(servers)@.len() && old(servers)@[j].id@ == id@,
        r matches Err(m) ==> m@ == "Server with id "@ + id@ + " not found"@,
{
    let ghost before = servers@;
    let mut kept: Vec<ServerConfig> = Vec::new();
    let mut found = false;
    let ghost mut k: int = 0;
    while servers.len() > 0
        invariant
            0 <= k <= before.len(),
            servers@ == before.subrange(k, before.len() as int),
            kept@ == without_id(before.subrange(0, k), id@),
            found <==> exists|j: int| 0 <= j < k && before[j].id@ == id@,
        decreases servers.len(),
    {
        let s = servers.remove(0);
        proof {
            assert(before.subrange(0, k + 1).drop_last() =~= before.subrange(0, k));
            assert(before.subrange(0, k + 1).last() == before[k]);
        }
        if str_eq(s.id.as_str(), id) {
            found = true;
        } else {
            kept.push(s);
        }
        proof {
            k = k + 1;
            assert(servers@ =~= before.subrange(k, before.len() as int));
        }
    }
    assert(before.subrange(0, k) =~= before);
    *servers = kept;
    if found {
        Ok(())
    } else {
        let mut m = String::from_str("Server with id ");
        m.append(id);
        m.append(" not found");
        Err(m)
    }
}

/// Gives every imported profile a fresh identifier.
pub fn assign_fresh_ids(imported: Vec<ServerConfig>) -> (r: Vec<ServerConfig>)
    ensures
        r@.len() == imported@.len(),
        forall|i: int| 0 <= i < r@.len() ==> fields_of(#[trigger] r@[i]) == fields_of(imported@[i]) && is_uuid_text(r@[i].id@),
{
    let mut r: Vec<ServerConfig> = Vec::new();
    let mut i: usize = 0;
    while i < imported.len()
        invariant
            i <= imported.len(),
            r@.len() == i,
            forall|j: int| 0 <= j < i ==> fields_of(#[trigger] r@[j]) == fields_of(imported@[j]) && is_uuid_text(r@[j].id@),
        decreases imported.len() - i,
    {
        let mut s = copy_server(&imported[i]);
        s.id = generate_id();
        r.push(s);
        i += 1;
    }
    r
}

} // verus!
