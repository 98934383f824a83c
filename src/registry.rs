use vstd::prelude::*;
use vstd::string::StringExecFns;

use crate::json::JsonValue;
use crate::keyed::KeyedList;
use crate::manager::ToolManager;

verus! {

/// A callable tool's declaration.
#[derive(Debug, PartialEq)]
pub struct ToolSpec {
    pub name: String,
    pub description: String,
    pub input_schema: JsonValue,
}

/// A tool declaration as name, description and input schema.
pub type SpecView = (Seq<char>, Seq<char>, JsonValue);

impl View for ToolSpec {
    type V = SpecView;

    open spec fn view(&self) -> SpecView {
        (self.name@, self.description@, self.input_schema)
    }
}

/// The name a provider's tool is called by: `{provider}___{tool}`.
pub open spec fn namespaced(provider: Seq<char>, tool: Seq<char>) -> Seq<char> {
    provider + seq!['_', '_', '_'] + tool
}

pub open spec fn spec_views(m: Map<Seq<char>, ToolSpec>) -> Map<Seq<char>, SpecView> {
    m.map_values(|t: ToolSpec| t@)
}

/// `m` with the tools `specs` of `provider` added under their namespaced names.
pub open spec fn with_provider_specs(
    m: Map<Seq<char>, SpecView>,
    provider: Seq<char>,
    specs: Seq<SpecView>,
) -> Map<Seq<char>, SpecView>
    decreases specs.len(),
{
    if specs.len() == 0 {
        m
    } else {
        let t = specs.last();
        with_provider_specs(m, provider, specs.drop_last()).insert(
            namespaced(provider, t.0),
            (namespaced(provider, t.0), t.1, t.2),
        )
    }
}

/// `m` with the tools of every provider whose declarations were obtained, in order.
pub open spec fn aggregated<E>(
    m: Map<Seq<char>, SpecView>,
    fetched: Seq<(String, Result<Vec<ToolSpec>, E>)>,
) -> Map<Seq<char>, SpecView>
    decreases fetched.len(),
{
    if fetched.len() == 0 {
        m
    } else {
        let before = aggregated(m, fetched.drop_last());
        match fetched.last().1 {
            Ok(specs) => with_provider_specs(
                before,
                fetched.last().0@,
                specs@.map_values(|t: ToolSpec| t@),
            ),
            Err(_) => before,
        }
    }
}

/// The providers whose declarations could not be obtained, in order.
pub open spec fn fetch_failures<E>(fetched: Seq<(String, Result<Vec<ToolSpec>, E>)>) -> Seq<
    (String, E),
>
    decreases fetched.len(),
{
    if fetched.len() == 0 {
        Seq::empty()
    } else {
        let f = fetch_failures(fetched.drop_last());
        match fetched.last().1 {
            Ok(_) => f,
            Err(e) => f.push((fetched.last().0, e)),
        }
    }
}

fn add_provider_specs(tools: &mut KeyedList<ToolSpec>, provider: &String, specs: Vec<ToolSpec>)
    ensures
        spec_views(final(tools)@) == with_provider_specs(
            spec_views(old(tools)@),
            provider@,
            specs@.map_values(|t: ToolSpec| t@),
        ),
{
    let ghost orig = specs@.map_values(|t: ToolSpec| t@);
    let ghost start = spec_views(tools@);
    let mut rest = specs;
    let mut done: usize = 0;
    let total = rest.len();
    proof {
        assert(orig.subrange(0, 0) =~= Seq::<SpecView>::empty());
    }
    while rest.len() > 0
        invariant
            total == orig.len(),
            done <= total,
            rest@.len() == total - done,
            forall|i: int| 0 <= i < rest@.len() ==> (#[trigger] rest@[i])@ == orig[done + i],
            spec_views(tools@) == with_provider_specs(start, provider@, orig.subrange(0, done as int)),
        decreases rest@.len(),
    {
        let ghost prefix = orig.subrange(0, done + 1);
        proof {
            assert(prefix.drop_last() =~= orig.subrange(0, done as int));
            assert(rest@[0]@ == orig[done as int]);
        }
        let spec = rest.remove(0);
        let mut full = String::from_str(provider.as_str());
        full.append("___");
        full.append(spec.name.as_str());
        let key = full.clone();
        let ghost before = tools@;
        tools.insert(key, ToolSpec { name: full, description: spec.description, input_schema: spec.input_schema });
        proof {
            assert(seq!['_', '_', '_'] == "___"@) by {
                reveal_strlit("___");
            }
            assert(spec_views(tools@) =~= spec_views(before).insert(
                namespaced(provider@, prefix.last().0),
                (namespaced(provider@, prefix.last().0), prefix.last().1, prefix.last().2),
            ));
        }
        done = done + 1;
    }
    proof {
        assert(orig.subrange(0, done as int) =~= orig);
    }
}

impl<C> ToolManager<C> {
    /// The tools callable by name: the built-in catalog, then the tools of each
    /// provider whose declarations were obtained, renamed `{provider}___{tool}`.
    /// A later entry under a name already present replaces it. Providers whose
    /// declarations could not be obtained are handed back with their errors.
    pub fn load_tools<E>(
        builtin: KeyedList<ToolSpec>,
        fetched: Vec<(String, Result<Vec<ToolSpec>, E>)>,
    ) -> (r: (KeyedList<ToolSpec>, Vec<(String, E)>))
        ensures
            spec_views(r.0@) == aggregated(spec_views(builtin@), fetched@),
            r.1@ == fetch_failures(fetched@),
    {
        let ghost orig = fetched@;
        let ghost start = spec_views(builtin@);
        let total = fetched.len();
        let mut rest = fetched;
        let mut tools = builtin;
        let mut failed: Vec<(String, E)> = Vec::new();
        let mut done: usize = 0;
        proof {
            assert(orig.subrange(0, 0) =~= Seq::<(String, Result<Vec<ToolSpec>, E>)>::empty());
        }
        while rest.len() > 0
            invariant
                orig.len() == total,
                done <= total,
                rest@ == orig.subrange(done as int, total as int),
                spec_views(tools@) == aggregated(start, orig.subrange(0, done as int)),
                failed@ == fetch_failures(orig.subrange(0, done as int)),
            decreases rest@.len(),
        {
            let ghost prefix = orig.subrange(0, done + 1);
            proof {
                assert(prefix.drop_last() =~= orig.subrange(0, done as int));
                assert(rest@[0] == orig[done as int]);
                assert(rest@.remove(0) =~= orig.subrange(done + 1, total as int));
            }
            let (provider, result) = rest.remove(0);
            match result {
                Ok(specs) => {
                    add_provider_specs(&mut tools, &provider, specs);
                },
                Err(e) => {
                    failed.push((provider, e));
                },
            }
            done = done + 1;
        }
        proof {
            assert(orig.subrange(0, done as int) =~= orig);
        }
        (tools, failed)
    }
}

proof fn lemma_provider_specs_present(m: Map<Seq<char>, SpecView>, provider: Seq<char>, specs: Seq<SpecView>)
    ensures
        m.dom().subset_of(with_provider_specs(m, provider, specs).dom()),
        forall|i: int|
            0 <= i < specs.len() ==> with_provider_specs(m, provider, specs).contains_key(
                namespaced(provider, #[trigger] specs[i].0),
            ),
    decreases specs.len(),
{
    if specs.len() > 0 {
        lemma_provider_specs_present(m, provider, specs.drop_last());
        assert forall|i: int| 0 <= i < specs.len() implies with_provider_specs(m, provider, specs).contains_key(
            namespaced(provider, #[trigger] specs[i].0),
        ) by {
            if i < specs.len() - 1 {
                assert(specs.drop_last()[i] == specs[i]);
            }
        }
    }
}

/// The aggregated tools hold every built-in name, and every tool of every
/// provider whose declarations were obtained, under `{provider}___{tool}`.
pub proof fn lemma_all_tools_present<E>(
    builtin: Map<Seq<char>, SpecView>,
    fetched: Seq<(String, Result<Vec<ToolSpec>, E>)>,
)
    ensures
        builtin.dom().subset_of(aggregated(builtin, fetched).dom()),
        forall|j: int, i: int|
            0 <= j < fetched.len() && (#[trigger] fetched[j]).1 is Ok && 0 <= i < fetched[j].1->Ok_0@.len()
                ==> aggregated(builtin, fetched).contains_key(
                namespaced(fetched[j].0@, (#[trigger] fetched[j].1->Ok_0@[i]).name@),
            ),
    decreases fetched.len(),
{
    if fetched.len() > 0 {
        let before = aggregated(builtin, fetched.drop_last());
        lemma_all_tools_present(builtin, fetched.drop_last());
        let last = fetched.last();
        if let Ok(specs) = last.1 {
            lemma_provider_specs_present(before, last.0@, specs@.map_values(|t: ToolSpec| t@));
        }
        assert forall|j: int, i: int|
            0 <= j < fetched.len() && (#[trigger] fetched[j]).1 is Ok && 0 <= i < fetched[j].1->Ok_0@.len()
                implies aggregated(builtin, fetched).contains_key(
            namespaced(fetched[j].0@, (#[trigger] fetched[j].1->Ok_0@[i]).name@),
        ) by {
            if j < fetched.len() - 1 {
                assert(fetched.drop_last()[j] == fetched[j]);
                assert(before.contains_key(namespaced(fetched[j].0@, fetched[j].1->Ok_0@[i].name@)));
            } else {
                let specs = fetched[j].1->Ok_0@.map_values(|t: ToolSpec| t@);
                assert(specs[i].0 == fetched[j].1->Ok_0@[i].name@);
            }
        }
    }
}

/// Every entry outside `base` is stored under its own name.
pub open spec fn named_by_key(m: Map<Seq<char>, SpecView>, base: Set<Seq<char>>) -> bool {
    forall|k: Seq<char>| #[trigger] m.contains_key(k) && !base.contains(k) ==> m[k].0 == k
}

proof fn lemma_provider_specs_named(
    m: Map<Seq<char>, SpecView>,
    base: Set<Seq<char>>,
    provider: Seq<char>,
    specs: Seq<SpecView>,
)
    requires
        named_by_key(m, base),
    ensures
        named_by_key(with_provider_specs(m, provider, specs), base),
    decreases specs.len(),
{
    if specs.len() > 0 {
        lemma_provider_specs_named(m, base, provider, specs.drop_last());
    }
}

/// Each tool a provider added is stored with its name set to the namespaced
/// name it is found under.
pub proof fn lemma_remote_tools_renamed<E>(
    builtin: Map<Seq<char>, SpecView>,
    fetched: Seq<(String, Result<Vec<ToolSpec>, E>)>,
)
    ensures
        named_by_key(aggregated(builtin, fetched), builtin.dom()),
    decreases fetched.len(),
{
    if fetched.len() > 0 {
        lemma_remote_tools_renamed(builtin, fetched.drop_last());
        if let Ok(specs) = fetched.last().1 {
            lemma_provider_specs_named(
                aggregated(builtin, fetched.drop_last()),
                builtin.dom(),
                fetched.last().0@,
                specs@.map_values(|t: ToolSpec| t@),
            );
        }
    }
}

} // verus!
