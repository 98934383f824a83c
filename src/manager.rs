use vstd::prelude::*;

use crate::config::McpServerConfig;
use crate::json::JsonValue;
use crate::keyed::KeyedList;
use crate::sanitize::{sanitize_outcome, sanitize_server_name, sanitized, snake_case_of, to_snake_case};
use crate::text::push_char;

verus! {

/// `name` followed by `i` copies of the character `1`.
pub open spec fn suffixed(name: Seq<char>, i: nat) -> Seq<char> {
    name + Seq::new(i, |_j: int| '1')
}

/// The names `name`, `name1`, ... up to `k - 1` ones are taken in `m`, and the
/// one with `k` ones is free.
pub open spec fn free_after<C>(m: Map<Seq<char>, C>, name: Seq<char>, k: nat) -> bool {
    &&& forall|i: nat| i < k ==> m.contains_key(#[trigger] suffixed(name, i))
    &&& !m.contains_key(suffixed(name, k))
}

pub open spec fn in_chain(name: Seq<char>, key: Seq<char>, k: nat) -> bool {
    &&& name.len() < key.len() <= name.len() + k
    &&& key == suffixed(name, (key.len() - name.len()) as nat)
}

/// `m` after `c` is put under `name` where the chain of taken names is `k`
/// long: each client on the chain moves one `1` further along it.
pub open spec fn placed_at<C>(m: Map<Seq<char>, C>, name: Seq<char>, c: C, k: nat) -> Map<
    Seq<char>,
    C,
> {
    Map::new(
        |key: Seq<char>| m.contains_key(key) || key == suffixed(name, k),
        |key: Seq<char>|
            if key == name {
                c
            } else if in_chain(name, key, k) {
                m[key.drop_last()]
            } else {
                m[key]
            },
    )
}

/// `m` after `c` is put under `name`, displacing what stood there.
pub open spec fn placed<C>(m: Map<Seq<char>, C>, name: Seq<char>, c: C) -> Map<Seq<char>, C> {
    placed_at(m, name, c, choose|k: nat| free_after(m, name, k))
}

/// The clients that a sequence of start results leaves, in the order given.
pub open spec fn booted<C, E>(rs: Seq<(String, Result<C, E>)>) -> Map<Seq<char>, C>
    decreases rs.len(),
{
    if rs.len() == 0 {
        Map::empty()
    } else {
        let m = booted(rs.drop_last());
        match rs.last().1 {
            Ok(c) => placed(m, rs.last().0@, c),
            Err(_) => m,
        }
    }
}

/// The failed starts, in the order given.
pub open spec fn failures<C, E>(rs: Seq<(String, Result<C, E>)>) -> Seq<(String, E)>
    decreases rs.len(),
{
    if rs.len() == 0 {
        Seq::empty()
    } else {
        let f = failures(rs.drop_last());
        match rs.last().1 {
            Ok(_) => f,
            Err(e) => f.push((rs.last().0, e)),
        }
    }
}

pub proof fn lemma_free_after_unique<C>(m: Map<Seq<char>, C>, name: Seq<char>, k1: nat, k2: nat)
    requires
        free_after(m, name, k1),
        free_after(m, name, k2),
    ensures
        k1 == k2,
{
    if k1 < k2 {
        assert(m.contains_key(suffixed(name, k1)));
    }
    if k2 < k1 {
        assert(m.contains_key(suffixed(name, k2)));
    }
}

proof fn lemma_suffixed_push(name: Seq<char>, i: nat)
    ensures
        suffixed(name, i).push('1') == suffixed(name, i + 1),
        suffixed(name, i + 1).drop_last() == suffixed(name, i),
        suffixed(name, i).len() == name.len() + i,
        suffixed(name, 0) == name,
{
    assert(suffixed(name, i).push('1') =~= suffixed(name, i + 1));
    assert(suffixed(name, i + 1).drop_last() =~= suffixed(name, i));
    assert(suffixed(name, 0) =~= name);
}

proof fn lemma_place_step<C>(m: Map<Seq<char>, C>, name: Seq<char>, c: C, k: nat)
    requires
        forall|i: nat| i < k ==> m.contains_key(#[trigger] suffixed(name, i)),
    ensures
        (if k == 0 {
            m
        } else {
            placed_at(m, name, c, (k - 1) as nat)
        }).insert(
            suffixed(name, k),
            if k == 0 {
                c
            } else {
                m[suffixed(name, (k - 1) as nat)]
            },
        ) == placed_at(m, name, c, k),
{
    lemma_suffixed_push(name, 0);
    let state = if k == 0 {
        m
    } else {
        placed_at(m, name, c, (k - 1) as nat)
    };
    let target = placed_at(m, name, c, k);
    if k > 0 {
        lemma_suffixed_push(name, (k - 1) as nat);
        assert(m.contains_key(suffixed(name, (k - 1) as nat)));
        assert(state.dom() =~= m.dom());
    }
    let lhs = state.insert(
        suffixed(name, k),
        if k == 0 {
            c
        } else {
            m[suffixed(name, (k - 1) as nat)]
        },
    );
    assert forall|key: Seq<char>| #[trigger] lhs.contains_key(key) implies lhs[key] == target[key] by {
        if key != suffixed(name, k) && key != name && in_chain(name, key, k) {
            let j = (key.len() - name.len()) as nat;
            lemma_suffixed_push(name, (j - 1) as nat);
            assert(in_chain(name, key, (k - 1) as nat));
        }
        if key != suffixed(name, k) && key != name && !in_chain(name, key, k) && k > 0 {
            assert(!in_chain(name, key, (k - 1) as nat));
        }
    }
    assert(lhs.dom() =~= target.dom());
    assert(lhs =~= target);
}

/// Puts `client` under `name`; where the name is taken, the client found there
/// is moved to the name with one more `1`, and so on until a free name is met.
fn place_client<C>(clients: &mut KeyedList<C>, new_name: String, new_client: C)
    ensures
        final(clients)@ == placed(old(clients)@, new_name@, new_client),
{
    let ghost m = clients@;
    let ghost n0 = new_name@;
    let ghost c0 = new_client;
    let bound = clients.longest_key_len();
    let mut name = new_name;
    let mut client = new_client;
    let ghost mut k: nat = 0;
    proof {
        lemma_suffixed_push(n0, 0);
    }
    loop
        invariant
            name@ == suffixed(n0, k),
            m == old(clients)@,
            n0 == new_name@,
            c0 == new_client,
            forall|i: nat| i < k ==> m.contains_key(#[trigger] suffixed(n0, i)),
            clients@ == (if k == 0 {
                m
            } else {
                placed_at(m, n0, c0, (k - 1) as nat)
            }),
            client == (if k == 0 {
                c0
            } else {
                m[suffixed(n0, (k - 1) as nat)]
            }),
            forall|key: Seq<char>| #[trigger] m.contains_key(key) ==> key.len() <= bound,
            k <= bound + 1,
        decreases bound + 1 - k,
    {
        proof {
            lemma_place_step(m, n0, c0, k);
            lemma_suffixed_push(n0, k);
            if k > 0 {
                lemma_suffixed_push(n0, (k - 1) as nat);
                assert(m.contains_key(suffixed(n0, (k - 1) as nat)));
                assert(clients@.dom() =~= m.dom());
            }
        }
        let ghost state = clients@;
        let key_copy = name.clone();
        match clients.insert(key_copy, client) {
            None => {
                proof {
                    assert(clients@ == state.insert(suffixed(n0, k), client));
                    assert(clients@ == placed_at(m, n0, c0, k));
                    assert(free_after(m, n0, k));
                    let kk = choose|j: nat| free_after(m, n0, j);
                    lemma_free_after_unique(m, n0, k, kk);
                    assert(placed(m, n0, c0) == placed_at(m, n0, c0, kk));
                }
                return;
            },
            Some(previous) => {
                proof {
                    assert(m.contains_key(suffixed(n0, k)));
                    if k > 0 {
                        assert(!in_chain(n0, suffixed(n0, k), (k - 1) as nat));
                        assert(suffixed(n0, k) != n0);
                    }
                    assert(previous == m[suffixed(n0, k)]);
                    assert(n0.len() + k <= bound);
                    k = k + 1;
                }
                push_char(&mut name, '1');
                client = previous;
            },
        }
    }
}

/// The tool providers that started, under the names they are called by.
pub struct ToolManager<C> {
    pub clients: KeyedList<C>,
}

impl<C> ToolManager<C> {
    /// Gathers the providers that started, in the order of `init_results`.
    /// A provider whose name is taken displaces the one there, which moves to
    /// the name with a `1` appended (and so on). Providers that failed to
    /// start are handed back with their errors, in order.
    pub fn from_configs<E>(init_results: Vec<(String, Result<C, E>)>) -> (r: (ToolManager<C>, Vec<(String, E)>))
        ensures
            r.0.clients@ == booted(init_results@),
            r.1@ == failures(init_results@),
    {
        let ghost orig = init_results@;
        let total = init_results.len();
        let mut rest = init_results;
        let mut clients: KeyedList<C> = KeyedList::new();
        let mut failed: Vec<(String, E)> = Vec::new();
        let mut done: usize = 0;
        proof {
            assert(orig.subrange(0, 0) =~= Seq::<(String, Result<C, E>)>::empty());
            assert(orig.subrange(0, orig.len() as int) =~= orig);
        }
        while rest.len() > 0
            invariant
                done <= orig.len(),
                orig.len() == total,
                rest@ == orig.subrange(done as int, orig.len() as int),
                clients@ == booted(orig.subrange(0, done as int)),
                failed@ == failures(orig.subrange(0, done as int)),
            decreases rest@.len(),
        {
            let ghost prefix = orig.subrange(0, done + 1);
            proof {
                assert(prefix.drop_last() =~= orig.subrange(0, done as int));
                assert(prefix.last() == orig[done as int]);
                assert(rest@[0] == orig[done as int]);
                assert(rest@.remove(0) =~= orig.subrange(done + 1, orig.len() as int));
            }
            let (name, result) = rest.remove(0);
            match result {
                Ok(client) => {
                    place_client(&mut clients, name, client);
                },
                Err(e) => {
                    failed.push((name, e));
                },
            }
            done = done + 1;
        }
        proof {
            assert(orig.subrange(0, done as int) =~= orig);
        }
        (ToolManager { clients }, failed)
    }
}

/// Two providers started one after the other under one name `n`, where
/// neither `n` nor `n1` was taken by the providers started before them, are
/// both kept: the later one under `n`, the earlier one under `n1`, and every
/// other provider stays where it was.
pub proof fn lemma_same_name_both_kept<C, E>(
    before: Seq<(String, Result<C, E>)>,
    first: String,
    second: String,
    a: C,
    b: C,
)
    requires
        first@ == second@,
        !booted(before).contains_key(first@),
        !booted(before).contains_key(first@.push('1')),
    ensures
        booted(before.push((first, Ok::<C, E>(a))).push((second, Ok::<C, E>(b)))) == booted(
            before,
        ).insert(first@, b).insert(first@.push('1'), a),
{
    let n = first@;
    let m = booted(before);
    let r1 = before.push((first, Ok::<C, E>(a)));
    let rs = r1.push((second, Ok::<C, E>(b)));
    lemma_suffixed_push(n, 0);
    lemma_suffixed_push(n, 1);
    assert(rs.drop_last() == r1);
    assert(r1.drop_last() == before);
    assert(free_after(m, n, 0));
    let k0 = choose|k: nat| free_after(m, n, k);
    lemma_free_after_unique(m, n, 0, k0);
    let m1 = placed(m, n, a);
    assert(m1 =~= m.insert(n, a));
    assert(booted(r1) == m1);
    assert(n.push('1') != n);
    assert(free_after(m1, n, 1)) by {
        assert forall|i: nat| i < 1 implies m1.contains_key(#[trigger] suffixed(n, i)) by {
            assert(i == 0);
        }
    }
    let k1 = choose|k: nat| free_after(m1, n, k);
    lemma_free_after_unique(m1, n, 1, k1);
    let m2 = placed(m1, n, b);
    assert(in_chain(n, n.push('1'), 1));
    assert forall|key: Seq<char>| key != n && key != n.push('1') implies !#[trigger] in_chain(n, key, 1) by {
        if in_chain(n, key, 1) {
            assert(key.len() == n.len() + 1);
        }
    }
    assert(m2 =~= m.insert(n, b).insert(n.push('1'), a));
}

/// What the name pass gives for one provider: its name in snake case,
/// sanitized, with its configuration.
pub open spec fn renamed_from(
    config: Map<Seq<char>, JsonValue>,
    raw: Seq<char>,
    out: (String, JsonValue),
) -> bool {
    &&& config.contains_key(raw)
    &&& sanitized(snake_case_of(raw), out.0@)
    &&& out.1 == config[raw]
}

/// Renames every configured provider for use in tool names: each name is put
/// in snake case and then sanitized, sharing `hasher` across the names.
/// Each provider appears once in the result.
pub fn sanitize_providers(config: McpServerConfig, hasher: &mut std::hash::DefaultHasher) -> (r: Vec<
    (String, JsonValue),
>)
    ensures
        exists|raw: Seq<Seq<char>>|
            {
                &&& raw.len() == r@.len()
                &&& raw.no_duplicates()
                &&& raw.to_set() == config.mcp_servers@.dom()
                &&& forall|i: int|
                    0 <= i < r@.len() ==> renamed_from(config.mcp_servers@, raw[i], #[trigger] r@[i])
            },
{
    let ghost full = config.mcp_servers@;
    let mut rest = config.mcp_servers;
    let mut out: Vec<(String, JsonValue)> = Vec::new();
    let ghost mut raw: Seq<Seq<char>> = Seq::empty();
    proof {
        assert(raw.to_set() =~= full.dom().difference(rest@.dom()));
    }
    loop
        invariant
            full == config.mcp_servers@,
            rest@.submap_of(full),
            raw.len() == out@.len(),
            raw.no_duplicates(),
            raw.to_set() == full.dom().difference(rest@.dom()),
            forall|i: int| 0 <= i < out@.len() ==> renamed_from(full, raw[i], #[trigger] out@[i]),
        decreases rest.size(),
    {
        let (name, value) = match rest.pop() {
            Some(e) => e,
            None => {
                proof {
                    assert(raw.to_set() =~= full.dom());
                }
                return out;
            },
        };
        let ghost key = name@;
        let snake = to_snake_case(name.as_str());
        let ghost snake_view = snake@;
        let ghost state = hasher@;
        let clean = sanitize_server_name(snake, hasher);
        assert(sanitize_outcome(snake_view, state).0 == clean@);
        proof {
            assert(!raw.to_set().contains(key));
            raw.lemma_push_to_set_commute(key);
            assert(!raw.contains(key));
            assert(raw.push(key).no_duplicates());
            raw = raw.push(key);
            assert(raw.to_set() =~= full.dom().difference(rest@.dom()));
        }
        out.push((clean, value));
    }
}

} // verus!
