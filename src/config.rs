use vstd::prelude::*;

use crate::json::JsonValue;
use crate::keyed::KeyedList;

verus! {

/// The tool providers a configuration source declares: provider name to the
/// provider's launch configuration, which this library carries without reading.
pub struct McpServerConfig {
    pub mcp_servers: KeyedList<JsonValue>,
}

/// The names that a merge reports as defined in both sources, as a set.
pub open spec fn name_set(names: Seq<String>) -> Set<Seq<char>> {
    names.map_values(|s: String| s@).to_set()
}

pub open spec fn names_distinct(names: Seq<String>) -> bool {
    names.map_values(|s: String| s@).no_duplicates()
}

/// What merging two optional sources yields: the map, and the names on which
/// the local source overrode the global one.
pub open spec fn merged(
    global: Option<Map<Seq<char>, JsonValue>>,
    local: Option<Map<Seq<char>, JsonValue>>,
) -> (Map<Seq<char>, JsonValue>, Set<Seq<char>>) {
    match (global, local) {
        (Some(g), Some(l)) => (g.union_prefer_right(l), g.dom().intersect(l.dom())),
        (Some(g), None) => (g, Set::empty()),
        (None, Some(l)) => (l, Set::empty()),
        (None, None) => (Map::empty(), Set::empty()),
    }
}

pub open spec fn view_of(c: Option<McpServerConfig>) -> Option<Map<Seq<char>, JsonValue>> {
    match c {
        Some(c) => Some(c.mcp_servers@),
        None => None,
    }
}

impl McpServerConfig {
    pub fn new() -> (r: Self)
        ensures
            r.mcp_servers@ == Map::<Seq<char>, JsonValue>::empty(),
    {
        McpServerConfig { mcp_servers: KeyedList::new() }
    }

    /// Merges the global and the workspace-local source, either of which may be
    /// absent. Where both define a provider the local definition wins, and the
    /// provider's name is reported once among the conflicts.
    pub fn load_config(global: Option<McpServerConfig>, local: Option<McpServerConfig>) -> (r: (
        McpServerConfig,
        Vec<String>,
    ))
        ensures
            r.0.mcp_servers@ == merged(view_of(global), view_of(local)).0,
            name_set(r.1@) == merged(view_of(global), view_of(local)).1,
            names_distinct(r.1@),
    {
        match (global, local) {
            (Some(g), Some(l)) => {
                let r = merge_into(g, l);
                r
            },
            (Some(g), None) => {
                assert(name_set(Seq::<String>::empty()) =~= Set::empty());
                (g, Vec::new())
            },
            (None, Some(l)) => {
                assert(name_set(Seq::<String>::empty()) =~= Set::empty());
                (l, Vec::new())
            },
            (None, None) => {
                assert(name_set(Seq::<String>::empty()) =~= Set::empty());
                (McpServerConfig::new(), Vec::new())
            },
        }
    }
}

fn merge_into(global: McpServerConfig, local: McpServerConfig) -> (r: (McpServerConfig, Vec<String>))
    ensures
        r.0.mcp_servers@ == global.mcp_servers@.union_prefer_right(local.mcp_servers@),
        name_set(r.1@) == global.mcp_servers@.dom().intersect(local.mcp_servers@.dom()),
        names_distinct(r.1@),
{
    let ghost g = global.mcp_servers@;
    let ghost l = local.mcp_servers@;
    let mut servers = global.mcp_servers;
    let mut rest = local.mcp_servers;
    let mut conflicts: Vec<String> = Vec::new();
    proof {
        assert(g =~= g.union_prefer_right(l.remove_keys(l.dom())));
        assert(name_set(conflicts@) =~= Set::empty());
    }
    loop
        invariant
            g == global.mcp_servers@,
            l == local.mcp_servers@,
            rest@.submap_of(l),
            servers@ == g.union_prefer_right(l.remove_keys(rest@.dom())),
            name_set(conflicts@) == g.dom().intersect(l.dom().difference(rest@.dom())),
            names_distinct(conflicts@),
        decreases rest.size(),
    {
        let (name, config) = match rest.pop() {
            Some(e) => e,
            None => {
                proof {
                    assert(l.dom().difference(rest@.dom()) =~= l.dom());
                    assert(l.remove_keys(rest@.dom()) =~= l);
                }
                return (McpServerConfig { mcp_servers: servers }, conflicts);
            },
        };
        let ghost key = name@;
        let name_copy = name.clone();
        let previous = servers.insert(name, config);
        proof {
            assert(servers@ =~= g.union_prefer_right(l.remove_keys(rest@.dom())));
        }
        if previous.is_some() {
            proof {
                assert(!name_set(conflicts@).contains(key));
                let seen = conflicts@.map_values(|s: String| s@);
                assert(conflicts@.push(name_copy).map_values(|s: String| s@) =~= seen.push(key));
                assert(seen.push(key).to_set() =~= seen.to_set().insert(key)) by {
                    seen.lemma_push_to_set_commute(key);
                }
                assert(!seen.contains(key));
                assert(seen.push(key).no_duplicates());
            }
            conflicts.push(name_copy);
            proof {
                assert(name_set(conflicts@) =~= g.dom().intersect(l.dom().difference(rest@.dom())));
            }
        } else {
            proof {
                assert(name_set(conflicts@) =~= g.dom().intersect(l.dom().difference(rest@.dom())));
            }
        }
    }
}

/// A provider defined in both sources takes the local definition, a provider
/// defined only locally is added, and the provider defined twice is the one
/// conflict reported.
pub proof fn lemma_local_definition_wins(
    a: Seq<char>,
    b: Seq<char>,
    x: JsonValue,
    y: JsonValue,
    z: JsonValue,
)
    requires
        a != b,
    ensures
        merged(Some(map![a => x]), Some(map![a => y, b => z])).0 == map![a => y, b => z],
        merged(Some(map![a => x]), Some(map![a => y, b => z])).1 == set![a],
{
    let m = merged(Some(map![a => x]), Some(map![a => y, b => z]));
    assert(m.0 =~= map![a => y, b => z]);
    assert(m.1 =~= set![a]);
}

/// With one source present, the merge is that source unchanged, with no conflicts.
pub proof fn lemma_single_source_unchanged(c: Map<Seq<char>, JsonValue>)
    ensures
        merged(Some(c), None) == (c, Set::<Seq<char>>::empty()),
        merged(None, Some(c)) == (c, Set::<Seq<char>>::empty()),
{
}

} // verus!
