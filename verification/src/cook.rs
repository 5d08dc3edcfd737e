//! The cook pass: resource discovery, implicit-fetch injection and final
//! validation, followed by rendering.
//!
//! Each job's plan is walked in order. A scope tracks which resource names
//! are already available at the current point of the walk; a task whose
//! input or image names a resource outside the scope gets a synthetic fetch
//! group injected just before it. Every resource seen anywhere is collected,
//! keyed by name, in first-discovery order with later same-named definitions
//! replacing the value; the custom resource types those resources are built
//! from are collected along their base chains.

use vstd::prelude::*;
use crate::errors::Errors;
use crate::get::Get;
use crate::job::Job;
use crate::model::SpecGet;
use crate::model::SpecInParallel;
use crate::model::SpecInput;
use crate::model::SpecJob;
use crate::model::SpecOutput;
use crate::model::SpecPipeline;
use crate::model::SpecResource;
use crate::model::SpecResourceTypes;
use crate::model::SpecStep;
use crate::model::SpecTask;
use crate::model::SpecTaskConfig;
use crate::model::SpecTaskDef;
use crate::model::SpecTaskResource;
use crate::pipeline::Pipeline;
use crate::resource::Resource;
use crate::resource::ResourceTypes;
use crate::step::InParallel;
use crate::step::Step;
use crate::step::Try;
use crate::task::Input;
use crate::task::Output;
use crate::task::Task;
use crate::task::TaskDef;
use crate::task::TaskResource;

verus! {

/// The name under which a fetch step makes its resource available: the alias
/// when one is set, else the resource's own name.
pub open spec fn scope_key(g: SpecGet) -> Seq<char> {
    if g.get.len() > 0 {
        g.get
    } else {
        g.resource.name
    }
}

/// The position of the first resource with the given name, or -1.
pub open spec fn disc_index(s: Seq<SpecResource>, n: Seq<char>) -> int
    decreases s.len(),
{
    if s.len() == 0 {
        -1
    } else if s[0].name == n {
        0
    } else if disc_index(s.drop_first(), n) < 0 {
        -1
    } else {
        disc_index(s.drop_first(), n) + 1
    }
}

/// Whether a resource with the given name was already discovered.
pub open spec fn disc_has(s: Seq<SpecResource>, n: Seq<char>) -> bool {
    disc_index(s, n) >= 0
}

/// Records a discovered resource, keyed by name: a later definition replaces
/// an earlier one in place, so the order is first-discovery order and every
/// name occurs at most once.
pub open spec fn disc_insert(s: Seq<SpecResource>, r: SpecResource) -> Seq<SpecResource> {
    if disc_index(s, r.name) >= 0 {
        s.update(disc_index(s, r.name), r)
    } else {
        s.push(r)
    }
}

/// The synthetic fetch step injected for a resource a task needs.
pub open spec fn implicit_get(res: SpecResource, alias: Option<Seq<char>>) -> SpecGet {
    SpecGet {
        get: match alias {
            Some(a) => a,
            None => Seq::empty(),
        },
        resource: res,
        version: None,
        trigger: res.trigger,
        passed: None,
    }
}

/// The effect of one declared input on the walk: a resource binding not yet
/// in scope becomes available, is discovered, queues a fetch and declares an
/// input; one already in scope does nothing; an output binding only declares
/// an input.
pub open spec fn rewrite_input_one(
    inp: SpecTaskResource,
    scope: Set<Seq<char>>,
    disc: Seq<SpecResource>,
) -> (Set<Seq<char>>, Seq<SpecResource>, Seq<SpecStep>, Seq<SpecInput>) {
    match inp {
        SpecTaskResource::Resource { resource, get_as, .. } => {
            if scope.contains(resource.name) {
                (scope, disc, Seq::empty(), Seq::empty())
            } else {
                (
                    scope.insert(resource.name),
                    disc_insert(disc, resource),
                    seq![SpecStep::Get(implicit_get(resource, get_as))],
                    seq![SpecInput { name: resource.name, path: None, optional: false }],
                )
            }
        }
        SpecTaskResource::Output { name, .. } => (
            scope,
            disc,
            Seq::empty(),
            seq![SpecInput { name, path: None, optional: false }],
        ),
        SpecTaskResource::Unbound => (scope, disc, Seq::empty(), Seq::empty()),
    }
}

/// The effect of a task's declared inputs, walked left to right.
pub open spec fn rewrite_inputs(
    inputs: Seq<SpecTaskResource>,
    scope: Set<Seq<char>>,
    disc: Seq<SpecResource>,
) -> (Set<Seq<char>>, Seq<SpecResource>, Seq<SpecStep>, Seq<SpecInput>)
    decreases inputs.len(),
{
    if inputs.len() == 0 {
        (scope, disc, Seq::empty(), Seq::empty())
    } else {
        let (s1, d1, g1, in1) = rewrite_input_one(inputs[0], scope, disc);
        let (s2, d2, g2, in2) = rewrite_inputs(inputs.drop_first(), s1, d1);
        (s2, d2, g1 + g2, in1 + in2)
    }
}

/// The config output entries declared for a task: one per output binding.
pub open spec fn rewrite_outputs(outputs: Seq<SpecTaskResource>) -> Seq<SpecOutput>
    decreases outputs.len(),
{
    if outputs.len() == 0 {
        Seq::empty()
    } else {
        let rest = rewrite_outputs(outputs.drop_first());
        match outputs[0] {
            SpecTaskResource::Output { name, .. } => seq![SpecOutput { name, path: None }] + rest,
            _ => rest,
        }
    }
}

/// The effect of rewriting one task: its inputs and image are made available
/// and queued for fetching where needed, and an inline config receives the
/// synthesized input and output entries. A file-defined task is never
/// rewritten beyond the queued fetches.
pub open spec fn rewrite_task(t: SpecTask, scope: Set<Seq<char>>, disc: Seq<SpecResource>) -> (
    Set<Seq<char>>,
    Seq<SpecResource>,
    Seq<SpecStep>,
    SpecTask,
) {
    let inputs = match t.inputs {
        Some(v) => v,
        None => Seq::empty(),
    };
    let (s1, d1, gets1, new_inputs) = rewrite_inputs(inputs, scope, disc);
    let new_outputs = rewrite_outputs(
        match t.outputs {
            Some(v) => v,
            None => Seq::empty(),
        },
    );
    let def2 = match t.task_def {
        SpecTaskDef::File { .. } => t.task_def,
        SpecTaskDef::Config { config } => SpecTaskDef::Config {
            config: SpecTaskConfig {
                inputs: if new_inputs.len() > 0 {
                    Some(new_inputs)
                } else {
                    config.inputs
                },
                outputs: if new_outputs.len() > 0 {
                    Some(new_outputs)
                } else {
                    config.outputs
                },
                ..config
            },
        },
    };
    let adjusted = SpecTask { task_def: def2, ..t };
    match t.image {
        Some(img) => {
            if s1.contains(img.name) {
                (s1, d1, gets1, adjusted)
            } else {
                (
                    s1.insert(img.name),
                    disc_insert(d1, img),
                    gets1.push(SpecStep::Get(implicit_get(img, None))),
                    adjusted,
                )
            }
        }
        None => (s1, d1, gets1, adjusted),
    }
}

/// The effect of rewriting one step: the queued fetches, the adjusted step,
/// and the scope and discoveries after it.
pub open spec fn rewrite_step(s: SpecStep, scope: Set<Seq<char>>, disc: Seq<SpecResource>) -> (
    Set<Seq<char>>,
    Seq<SpecResource>,
    Seq<SpecStep>,
    SpecStep,
)
    decreases s,
{
    match s {
        SpecStep::Get(g) => (
            scope.insert(scope_key(g)),
            disc_insert(disc, g.resource),
            Seq::empty(),
            s,
        ),
        SpecStep::Put(_) => (scope, disc, Seq::empty(), s),
        SpecStep::Task(t) => {
            let (s2, d2, gets, t2) = rewrite_task(t, scope, disc);
            (s2, d2, gets, SpecStep::Task(t2))
        }
        SpecStep::Try(inner) => {
            let (s2, d2, gets, in2) = rewrite_step(*inner, scope, disc);
            (s2, d2, gets, SpecStep::Try(Box::new(in2)))
        }
        SpecStep::InParallel(ip) => match ip {
            SpecInParallel::Steps(children) => {
                let (s2, d2, flat) = rewrite_par(children, scope, disc);
                (s2, d2, Seq::empty(), SpecStep::InParallel(SpecInParallel::Steps(flat)))
            }
            SpecInParallel::InParallelConfig { .. } => (scope, disc, Seq::empty(), s),
        },
    }
}

/// The replacement for a rewritten step in its surrounding sequence: the
/// queued fetches coalesce into one parallel group placed just before it.
pub open spec fn replaced(gets: Seq<SpecStep>, adjusted: SpecStep) -> Seq<SpecStep> {
    if gets.len() > 0 {
        seq![SpecStep::InParallel(SpecInParallel::Steps(gets)), adjusted]
    } else {
        seq![adjusted]
    }
}

/// The effect of rewriting the children of a concurrent group: each child is
/// walked with its own fresh empty scope, so sibling branches cannot observe
/// each other's fetches; what each child made available is then merged into
/// the surrounding scope, and the children's replacements are flattened.
pub open spec fn rewrite_par(
    children: Seq<SpecStep>,
    scope: Set<Seq<char>>,
    disc: Seq<SpecResource>,
) -> (Set<Seq<char>>, Seq<SpecResource>, Seq<SpecStep>)
    decreases children,
{
    if children.len() == 0 {
        (scope, disc, Seq::empty())
    } else {
        let (cs, d1, gets, adj) = rewrite_step(children[0], Set::empty(), disc);
        let (s2, d2, rest) = rewrite_par(children.drop_first(), scope.union(cs), d1);
        (s2, d2, replaced(gets, adj) + rest)
    }
}

/// The effect of rewriting a job's plan in order, threading the scope.
pub open spec fn rewrite_plan(
    plan: Seq<SpecStep>,
    scope: Set<Seq<char>>,
    disc: Seq<SpecResource>,
) -> (Set<Seq<char>>, Seq<SpecResource>, Seq<SpecStep>)
    decreases plan,
{
    if plan.len() == 0 {
        (scope, disc, Seq::empty())
    } else {
        let (s1, d1, gets, adj) = rewrite_step(plan[0], scope, disc);
        let (s2, d2, rest) = rewrite_plan(plan.drop_first(), s1, d1);
        (s2, d2, replaced(gets, adj) + rest)
    }
}

/// The effect of rewriting every job: each starts with an empty scope, and
/// the discoveries accumulate across jobs.
pub open spec fn rewrite_jobs(jobs: Seq<SpecJob>, disc: Seq<SpecResource>) -> (
    Seq<SpecResource>,
    Seq<SpecJob>,
)
    decreases jobs,
{
    if jobs.len() == 0 {
        (disc, Seq::empty())
    } else {
        let (_, d1, plan1) = rewrite_plan(jobs[0].plan, Set::empty(), disc);
        let (d2, rest) = rewrite_jobs(jobs.drop_first(), d1);
        (d2, seq![SpecJob { plan: plan1, ..jobs[0] }] + rest)
    }
}

/// The chain of custom types a type is built from: the type itself when
/// custom, followed by its custom ancestors; a built-in type starts no chain.
pub open spec fn custom_chain(t: SpecResourceTypes) -> Seq<SpecResourceTypes>
    decreases t,
{
    match t {
        SpecResourceTypes::Custom { base, .. } => seq![t] + custom_chain(*base),
        _ => Seq::empty(),
    }
}

/// The position of the first type with the given rendered name, or -1.
pub open spec fn rt_index(s: Seq<SpecResourceTypes>, n: Seq<char>) -> int
    decreases s.len(),
{
    if s.len() == 0 {
        -1
    } else if s[0].rendered_name() == n {
        0
    } else if rt_index(s.drop_first(), n) < 0 {
        -1
    } else {
        rt_index(s.drop_first(), n) + 1
    }
}

/// Records a custom type, keyed by name: a later type under an already seen
/// name is dropped, so the order is first-discovery order.
pub open spec fn rt_insert(s: Seq<SpecResourceTypes>, t: SpecResourceTypes) -> Seq<SpecResourceTypes> {
    if rt_index(s, t.rendered_name()) >= 0 {
        s
    } else {
        s.push(t)
    }
}

/// Records a whole chain of custom types, left to right.
pub open spec fn collect_chain(acc: Seq<SpecResourceTypes>, chain: Seq<SpecResourceTypes>) -> Seq<
    SpecResourceTypes,
>
    decreases chain.len(),
{
    if chain.len() == 0 {
        acc
    } else {
        collect_chain(rt_insert(acc, chain[0]), chain.drop_first())
    }
}

/// The custom resource types referenced by the discovered resources, each
/// resource contributing its type's whole custom chain.
pub open spec fn collect_types(acc: Seq<SpecResourceTypes>, resources: Seq<SpecResource>) -> Seq<
    SpecResourceTypes,
>
    decreases resources.len(),
{
    if resources.len() == 0 {
        acc
    } else {
        collect_types(collect_chain(acc, custom_chain(resources[0].typ)), resources.drop_first())
    }
}

/// The cooked pipeline: every job's plan rewritten, the discovered resources
/// attached, and the custom types they reference attached.
pub open spec fn spec_cook(p: SpecPipeline) -> SpecPipeline {
    let (disc, jobs2) = rewrite_jobs(p.jobs, Seq::empty());
    SpecPipeline {
        display: p.display,
        jobs: jobs2,
        resources: disc,
        resource_types: collect_types(Seq::empty(), disc),
    }
}

/// Whether an optional binding list still holds an unresolved placeholder.
pub open spec fn bindings_have_unbound(v: Option<Seq<SpecTaskResource>>) -> bool {
    match v {
        Some(s) => exists|i: int| 0 <= i < s.len() && s[i] is Unbound,
        None => false,
    }
}

/// Whether a step's tree holds a task with an unresolved placeholder among
/// its declared inputs or outputs. Hooks are not walked: they are rendered
/// but take no part in discovery.
pub open spec fn step_has_unbound(s: SpecStep) -> bool
    decreases s,
{
    match s {
        SpecStep::Get(_) => false,
        SpecStep::Put(_) => false,
        SpecStep::Task(t) => bindings_have_unbound(t.inputs) || bindings_have_unbound(t.outputs),
        SpecStep::Try(inner) => step_has_unbound(*inner),
        SpecStep::InParallel(ip) => match ip {
            SpecInParallel::Steps(children) => steps_have_unbound(children),
            // The configuration form is passed through untouched, so its
            // contents take no part in the walk.
            SpecInParallel::InParallelConfig { .. } => false,
        },
    }
}

/// Whether any step of the sequence holds an unresolved placeholder.
pub open spec fn steps_have_unbound(v: Seq<SpecStep>) -> bool
    decreases v,
{
    v.len() > 0 && (step_has_unbound(v[0]) || steps_have_unbound(v.drop_first()))
}

/// Whether any job's plan holds an unresolved placeholder.
pub open spec fn pipeline_has_unbound(p: SpecPipeline) -> bool {
    exists|i: int| 0 <= i < p.jobs.len() && steps_have_unbound(p.jobs[i].plan)
}



/// The set of resource names available at the current point of a walk.
pub struct Scope {
    pub names: Vec<String>,
}

impl View for Scope {
    type V = Set<Seq<char>>;

    open spec fn view(&self) -> Set<Seq<char>> {
        Set::new(|n: Seq<char>| exists|i: int| 0 <= i < self.names@.len() && self.names@[i]@ == n)
    }
}

impl Scope {
    /// The empty scope.
    fn new() -> (r: Scope)
        ensures
            r@ == Set::<Seq<char>>::empty(),
    {
        let r = Scope { names: Vec::new() };
        proof {
            assert(r@ =~= Set::<Seq<char>>::empty());
        }
        r
    }

    /// Whether the scope holds the given name.
    fn contains(&self, name: &str) -> (r: bool)
        ensures
            r == self@.contains(name@),
    {
        let mut i: usize = 0;
        while i < self.names.len()
            invariant
                i <= self.names@.len(),
                forall|m: int| 0 <= m < i ==> #[trigger] self.names@[m]@ != name@,
            decreases self.names@.len() - i,
        {
            if matches!(crate::textutil::str_compare(self.names[i].as_str(), name), crate::textutil::StrOrder::Same) {
                return true;
            }
            i = i + 1;
        }
        false
    }

    /// Makes the given name available.
    fn add(&mut self, name: String)
        ensures
            final(self)@ == old(self)@.insert(name@),
    {
        let ghost oldv = self@;
        self.names.push(name);
        proof {
            let n2 = self.names@;
            assert forall|n: Seq<char>| self@.contains(n) <==> oldv.insert(name@).contains(n) by {
                if self@.contains(n) {
                    let i = choose|i: int| 0 <= i < n2.len() && n2[i]@ == n;
                    if i < n2.len() - 1 {
                        assert(old(self).names@[i]@ == n);
                    }
                }
                if oldv.contains(n) {
                    let i = choose|i: int| 0 <= i < old(self).names@.len()
                        && old(self).names@[i]@ == n;
                    assert(n2[i]@ == n);
                }
                if n == name@ {
                    assert(n2[n2.len() - 1]@ == n);
                }
            }
            assert(self@ =~= oldv.insert(name@));
        }
    }

    /// Makes every name of `other` available.
    fn add_all(&mut self, other: &Scope)
        ensures
            final(self)@ == old(self)@.union(other@),
    {
        let ghost oldv = self@;
        let ghost oldnames = self.names@;
        let mut copied = other.names.clone();
        let ghost copiedv = copied@;
        proof {
            assert forall|m: int| 0 <= m < copiedv.len() implies #[trigger] copiedv[m]
                == other.names@[m] by {
                assert(cloned::<String>(other.names@[m], copiedv[m]));
            }
        }
        self.names.append(&mut copied);
        proof {
            assert forall|n: Seq<char>| self@.contains(n) <==> oldv.union(other@).contains(n) by {
                if self@.contains(n) {
                    let i = choose|i: int| 0 <= i < self.names@.len() && self.names@[i]@ == n;
                    if i < oldnames.len() {
                        assert(oldnames[i]@ == n);
                        assert(oldv.contains(n));
                    } else {
                        assert(self.names@[i] == copiedv[i - oldnames.len()]);
                        assert(other.names@[i - oldnames.len()]@ == n);
                        assert(other@.contains(n));
                    }
                }
                if oldv.contains(n) {
                    let i = choose|i: int| 0 <= i < oldnames.len() && oldnames[i]@ == n;
                    assert(self.names@[i]@ == n);
                    assert(self@.contains(n));
                }
                if other@.contains(n) {
                    let m = choose|m: int| 0 <= m < other.names@.len() && other.names@[m]@ == n;
                    assert(self.names@[oldnames.len() + m]@ == n);
                    assert(self@.contains(n));
                }
            }
            assert(self@ =~= oldv.union(other@));
        }
    }
}

/// The resources discovered so far, keyed by name in first-discovery order.
pub struct Discovered {
    pub items: Vec<Resource>,
}

impl View for Discovered {
    type V = Seq<SpecResource>;

    open spec fn view(&self) -> Seq<SpecResource> {
        Seq::new(self.items@.len(), |i: int| self.items@[i].view())
    }
}

/// Where `disc_index` points, the name matches, and nowhere earlier.
proof fn lemma_disc_index_props(s: Seq<SpecResource>, n: Seq<char>)
    ensures
        disc_index(s, n) >= 0 ==> 0 <= disc_index(s, n) < s.len() && s[disc_index(s, n)].name == n,
        disc_index(s, n) < 0 ==> forall|m: int| 0 <= m < s.len() ==> (#[trigger] s[m]).name != n,
    decreases s.len(),
{
    if s.len() > 0 && s[0].name != n {
        lemma_disc_index_props(s.drop_first(), n);
        if disc_index(s, n) < 0 {
            assert forall|m: int| 0 <= m < s.len() implies (#[trigger] s[m]).name != n by {
                if m > 0 {
                    assert(s.drop_first()[m - 1] == s[m]);
                }
            }
        } else {
            assert(s.drop_first()[disc_index(s.drop_first(), n)] == s[disc_index(s, n)]);
        }
    }
}

/// A first match at `i` pins `disc_index` down; no match at all pins it to
/// -1.
proof fn lemma_disc_index_at(s: Seq<SpecResource>, n: Seq<char>, i: int)
    requires
        0 <= i <= s.len(),
        forall|m: int| 0 <= m < i ==> (#[trigger] s[m]).name != n,
        i < s.len() ==> s[i].name == n,
    ensures
        i < s.len() ==> disc_index(s, n) == i,
        i == s.len() ==> disc_index(s, n) == -1,
    decreases i,
{
    if s.len() == 0 {
    } else if i == 0 {
    } else {
        assert(s[0].name != n);
        assert forall|m: int| 0 <= m < i - 1 implies (#[trigger] s.drop_first()[m]).name != n by {
            assert(s.drop_first()[m] == s[m + 1]);
        }
        if i < s.len() {
            assert(s.drop_first()[i - 1] == s[i]);
        }
        lemma_disc_index_at(s.drop_first(), n, i - 1);
    }
}

impl Discovered {
    /// No resource discovered yet.
    fn new() -> (r: Discovered)
        ensures
            r@ == Seq::<SpecResource>::empty(),
    {
        let r = Discovered { items: Vec::new() };
        proof {
            assert(r@ =~= Seq::<SpecResource>::empty());
        }
        r
    }

    /// Records a discovered resource, keyed by name: a later definition
    /// replaces an earlier one in place.
    fn insert(&mut self, r: Resource)
        ensures
            final(self)@ == disc_insert(old(self)@, r@),
    {
        let ghost oldv = self@;
        let mut i: usize = 0;
        while i < self.items.len()
            invariant
                oldv == old(self)@,
                i <= self.items@.len(),
                self@ == oldv,
                self.items@.len() == oldv.len(),
                forall|m: int| 0 <= m < i ==> (#[trigger] oldv[m]).name != r@.name,
            decreases self.items@.len() - i,
        {
            if matches!(
                crate::textutil::str_compare(self.items[i].name.as_str(), r.name.as_str()),
                crate::textutil::StrOrder::Same
            ) {
                let ghost rv = r@;
                proof {
                    assert(oldv[i as int].name == rv.name);
                    lemma_disc_index_at(oldv, rv.name, i as int);
                }
                self.items.set(i, r);
                proof {
                    assert(self@ =~= oldv.update(i as int, rv));
                    assert(disc_insert(oldv, rv) == oldv.update(i as int, rv));
                }
                return;
            }
            i = i + 1;
        }
        let ghost rv = r@;
        proof {
            lemma_disc_index_at(oldv, rv.name, oldv.len() as int);
        }
        self.items.push(r);
        proof {
            assert(self@ =~= oldv.push(rv));
            assert(disc_insert(oldv, rv) == oldv.push(rv));
        }
    }
}

/// Where `rt_index` points, the rendered name matches, and nowhere earlier.
proof fn lemma_rt_index_at(s: Seq<SpecResourceTypes>, n: Seq<char>, i: int)
    requires
        0 <= i <= s.len(),
        forall|m: int| 0 <= m < i ==> (#[trigger] s[m]).rendered_name() != n,
        i < s.len() ==> s[i].rendered_name() == n,
    ensures
        i < s.len() ==> rt_index(s, n) == i,
        i == s.len() ==> rt_index(s, n) == -1,
    decreases i,
{
    if s.len() == 0 {
    } else if i == 0 {
    } else {
        assert(s[0].rendered_name() != n);
        assert forall|m: int| 0 <= m < i - 1 implies (#[trigger] s.drop_first()[m]).rendered_name()
            != n by {
            assert(s.drop_first()[m] == s[m + 1]);
        }
        if i < s.len() {
            assert(s.drop_first()[i - 1] == s[i]);
        }
        lemma_rt_index_at(s.drop_first(), n, i - 1);
    }
}

/// The views of a vector of resource types.
pub open spec fn types_view(v: Seq<ResourceTypes>) -> Seq<SpecResourceTypes> {
    Seq::new(v.len(), |i: int| v[i].view())
}

/// Whether the collection already holds a type of the given rendered name.
fn rt_contains(acc: &Vec<ResourceTypes>, name: &String) -> (r: bool)
    ensures
        r == (rt_index(types_view(acc@), name@) >= 0),
{
    let ghost av = types_view(acc@);
    let mut i: usize = 0;
    while i < acc.len()
        invariant
            i <= acc@.len(),
            av == types_view(acc@),
            av.len() == acc@.len(),
            forall|m: int| 0 <= m < i ==> (#[trigger] av[m]).rendered_name() != name@,
        decreases acc@.len() - i,
    {
        let tn = acc[i].to_string();
        if matches!(
            crate::textutil::str_compare(tn.as_str(), name.as_str()),
            crate::textutil::StrOrder::Same
        ) {
            proof {
                assert(av[i as int].rendered_name() == name@);
                lemma_rt_index_at(av, name@, i as int);
            }
            return true;
        }
        i = i + 1;
    }
    proof {
        lemma_rt_index_at(av, name@, av.len() as int);
    }
    false
}

/// Records the custom chain of one type, left to right.
fn collect_chain_exec(acc: &mut Vec<ResourceTypes>, t: &ResourceTypes)
    ensures
        types_view(final(acc)@) == collect_chain(types_view(old(acc)@), custom_chain(t@)),
    decreases *t,
{
    match t {
        ResourceTypes::Custom { type_, .. } => {
            let ghost before = types_view(acc@);
            let name = t.to_string();
            if !rt_contains(acc, &name) {
                acc.push(t.clone());
                proof {
                    assert(types_view(acc@) =~= before.push(t@));
                }
            }
            proof {
                assert(types_view(acc@) == rt_insert(before, t@));
                assert(custom_chain(t@).drop_first() =~= custom_chain(type_@));
            }
            collect_chain_exec(acc, &**type_);
        }
        _ => {
            proof {
                assert(collect_chain(types_view(acc@), custom_chain(t@)) == types_view(acc@));
            }
        }
    }
}

/// Extending the resource prefix extends the collected types by one chain.
proof fn lemma_collect_types_snoc(acc: Seq<SpecResourceTypes>, rs: Seq<SpecResource>, i: int)
    requires
        0 <= i < rs.len(),
    ensures
        collect_types(acc, rs.subrange(0, i + 1)) == collect_chain(
            collect_types(acc, rs.subrange(0, i)),
            custom_chain(rs[i].typ),
        ),
    decreases i,
{
    if i == 0 {
        assert(rs.subrange(0, 0) =~= Seq::<SpecResource>::empty());
        let s1 = rs.subrange(0, 1);
        assert(s1.len() == 1);
        assert(s1[0] == rs[0]);
        assert(s1.drop_first() =~= Seq::<SpecResource>::empty());
        assert(collect_types(acc, rs.subrange(0, 0)) == acc);
        let one = collect_chain(acc, custom_chain(s1[0].typ));
        assert(collect_types(acc, s1) == collect_types(one, s1.drop_first()));
        assert(collect_types(one, s1.drop_first()) == one);
    } else {
        let s1 = rs.subrange(0, i + 1);
        let s0 = rs.subrange(0, i);
        assert(s1[0] == rs[0]);
        assert(s0[0] == rs[0]);
        assert(s0.drop_first() =~= rs.drop_first().subrange(0, i - 1));
        assert(s1.drop_first() =~= rs.drop_first().subrange(0, i));
        lemma_collect_types_snoc(collect_chain(acc, custom_chain(rs[0].typ)), rs.drop_first(), i - 1);
        assert(rs.drop_first()[i - 1] == rs[i]);
    }
}

/// The custom resource types of every discovered resource, in
/// first-discovery order.
fn collect_types_exec(resources: &Vec<Resource>) -> (r: Vec<ResourceTypes>)
    ensures
        types_view(r@) == collect_types(
            Seq::empty(),
            Seq::new(resources@.len(), |i: int| resources@[i].view()),
        ),
{
    let ghost rv = Seq::new(resources@.len(), |i: int| resources@[i].view());
    let mut acc: Vec<ResourceTypes> = Vec::new();
    proof {
        assert(types_view(acc@) =~= Seq::<SpecResourceTypes>::empty());
        assert(rv.subrange(0, 0) =~= Seq::<SpecResource>::empty());
    }
    let mut i: usize = 0;
    while i < resources.len()
        invariant
            i <= rv.len(),
            rv == Seq::new(resources@.len(), |k: int| resources@[k].view()),
            rv.len() == resources@.len(),
            types_view(acc@) == collect_types(Seq::empty(), rv.subrange(0, i as int)),
        decreases rv.len() - i,
    {
        collect_chain_exec(&mut acc, &resources[i].type_);
        proof {
            lemma_collect_types_snoc(Seq::empty(), rv, i as int);
        }
        i = i + 1;
    }
    proof {
        assert(rv.subrange(0, rv.len() as int) =~= rv);
    }
    acc
}


/// Concatenation with the empty sequence changes nothing.
proof fn lemma_concat_empty<A>(s: Seq<A>)
    ensures
        s + Seq::<A>::empty() == s,
        Seq::<A>::empty() + s == s,
{
    assert(s + Seq::<A>::empty() =~= s);
    assert(Seq::<A>::empty() + s =~= s);
}

/// Walking one more input extends the fold by one step.
proof fn lemma_rewrite_inputs_snoc(
    v: Seq<SpecTaskResource>,
    i: int,
    scope: Set<Seq<char>>,
    disc: Seq<SpecResource>,
)
    requires
        0 <= i < v.len(),
    ensures
        ({
            let prev = rewrite_inputs(v.subrange(0, i), scope, disc);
            let one = rewrite_input_one(v[i], prev.0, prev.1);
            rewrite_inputs(v.subrange(0, i + 1), scope, disc) == (
                one.0,
                one.1,
                prev.2 + one.2,
                prev.3 + one.3,
            )
        }),
    decreases i,
{
    reveal_with_fuel(rewrite_inputs, 3);
    let prev = rewrite_inputs(v.subrange(0, i), scope, disc);
    let one = rewrite_input_one(v[i], prev.0, prev.1);
    if i == 0 {
        assert(v.subrange(0, 0) =~= Seq::<SpecTaskResource>::empty());
        let s1 = v.subrange(0, 1);
        assert(s1.len() == 1);
        assert(s1[0] == v[0]);
        assert(s1.drop_first() =~= Seq::<SpecTaskResource>::empty());
        let first = rewrite_input_one(v[0], scope, disc);
        assert(rewrite_inputs(s1, scope, disc) == (
            first.0,
            first.1,
            first.2 + Seq::<SpecStep>::empty(),
            first.3 + Seq::<SpecInput>::empty(),
        ));
        lemma_concat_empty(first.2);
        lemma_concat_empty(first.3);
        lemma_concat_empty(one.2);
        lemma_concat_empty(one.3);
    } else {
        let s1 = v.subrange(0, i + 1);
        let s0 = v.subrange(0, i);
        assert(s1[0] == v[0]);
        assert(s0[0] == v[0]);
        assert(s0.drop_first() =~= v.drop_first().subrange(0, i - 1));
        assert(s1.drop_first() =~= v.drop_first().subrange(0, i));
        let first = rewrite_input_one(v[0], scope, disc);
        lemma_rewrite_inputs_snoc(v.drop_first(), i - 1, first.0, first.1);
        assert(v.drop_first()[i - 1] == v[i]);
        let rprev = rewrite_inputs(v.drop_first().subrange(0, i - 1), first.0, first.1);
        let rone = rewrite_input_one(v[i], rprev.0, rprev.1);
        assert(prev == (rprev.0, rprev.1, first.2 + rprev.2, first.3 + rprev.3));
        assert(first.2 + (rprev.2 + rone.2) =~= (first.2 + rprev.2) + rone.2);
        assert(first.3 + (rprev.3 + rone.3) =~= (first.3 + rprev.3) + rone.3);
    }
}

/// Walking one more output extends the declared entries by at most one.
proof fn lemma_rewrite_outputs_snoc(v: Seq<SpecTaskResource>, i: int)
    requires
        0 <= i < v.len(),
    ensures
        rewrite_outputs(v.subrange(0, i + 1)) == rewrite_outputs(v.subrange(0, i)) + (
        match v[i] {
            SpecTaskResource::Output { name, .. } => seq![SpecOutput { name, path: None }],
            _ => Seq::<SpecOutput>::empty(),
        }),
    decreases i,
{
    reveal_with_fuel(rewrite_outputs, 3);
    let tail = (match v[i] {
        SpecTaskResource::Output { name, .. } => seq![SpecOutput { name, path: None }],
        _ => Seq::<SpecOutput>::empty(),
    });
    if i == 0 {
        assert(v.subrange(0, 0) =~= Seq::<SpecTaskResource>::empty());
        let s1 = v.subrange(0, 1);
        assert(s1.len() == 1);
        assert(s1[0] == v[0]);
        assert(s1.drop_first() =~= Seq::<SpecTaskResource>::empty());
        assert(rewrite_outputs(s1.drop_first()) == Seq::<SpecOutput>::empty());
        lemma_concat_empty(tail);
        assert(rewrite_outputs(s1) =~= Seq::<SpecOutput>::empty() + tail);
    } else {
        let s1 = v.subrange(0, i + 1);
        let s0 = v.subrange(0, i);
        assert(s1[0] == v[0]);
        assert(s0[0] == v[0]);
        assert(s0.drop_first() =~= v.drop_first().subrange(0, i - 1));
        assert(s1.drop_first() =~= v.drop_first().subrange(0, i));
        lemma_rewrite_outputs_snoc(v.drop_first(), i - 1);
        assert(v.drop_first()[i - 1] == v[i]);
        match v[0] {
            SpecTaskResource::Output { name, .. } => {
                let head = seq![SpecOutput { name, path: None }];
                assert(head + (rewrite_outputs(v.drop_first().subrange(0, i - 1)) + tail)
                    =~= (head + rewrite_outputs(v.drop_first().subrange(0, i - 1))) + tail);
            }
            _ => {}
        }
    }
}

/// Walking one more sibling of a parallel group extends the fold by one
/// child.
proof fn lemma_rewrite_par_snoc(
    v: Seq<SpecStep>,
    i: int,
    scope: Set<Seq<char>>,
    disc: Seq<SpecResource>,
)
    requires
        0 <= i < v.len(),
    ensures
        ({
            let prev = rewrite_par(v.subrange(0, i), scope, disc);
            let child = rewrite_step(v[i], Set::empty(), prev.1);
            rewrite_par(v.subrange(0, i + 1), scope, disc) == (
                prev.0.union(child.0),
                child.1,
                prev.2 + replaced(child.2, child.3),
            )
        }),
    decreases i,
{
    reveal_with_fuel(rewrite_par, 3);
    let prev = rewrite_par(v.subrange(0, i), scope, disc);
    let child = rewrite_step(v[i], Set::empty(), prev.1);
    if i == 0 {
        assert(v.subrange(0, 0) =~= Seq::<SpecStep>::empty());
        let s1 = v.subrange(0, 1);
        assert(s1.len() == 1);
        assert(s1[0] == v[0]);
        assert(s1.drop_first() =~= Seq::<SpecStep>::empty());
        lemma_concat_empty(replaced(child.2, child.3));
        assert(rewrite_par(s1, scope, disc).2 =~= replaced(child.2, child.3));
    } else {
        let s1 = v.subrange(0, i + 1);
        let s0 = v.subrange(0, i);
        assert(s1[0] == v[0]);
        assert(s0[0] == v[0]);
        assert(s0.drop_first() =~= v.drop_first().subrange(0, i - 1));
        assert(s1.drop_first() =~= v.drop_first().subrange(0, i));
        let first = rewrite_step(v[0], Set::empty(), disc);
        lemma_rewrite_par_snoc(v.drop_first(), i - 1, scope.union(first.0), first.1);
        assert(v.drop_first()[i - 1] == v[i]);
        let rprev = rewrite_par(v.drop_first().subrange(0, i - 1), scope.union(first.0), first.1);
        let rchild = rewrite_step(v[i], Set::empty(), rprev.1);
        assert(prev == (rprev.0, rprev.1, replaced(first.2, first.3) + rprev.2));
        assert(replaced(first.2, first.3) + (rprev.2 + replaced(rchild.2, rchild.3))
            =~= (replaced(first.2, first.3) + rprev.2) + replaced(rchild.2, rchild.3));
    }
}

/// Walking one more plan step extends the fold by one step.
proof fn lemma_rewrite_plan_snoc(
    v: Seq<SpecStep>,
    i: int,
    scope: Set<Seq<char>>,
    disc: Seq<SpecResource>,
)
    requires
        0 <= i < v.len(),
    ensures
        ({
            let prev = rewrite_plan(v.subrange(0, i), scope, disc);
            let one = rewrite_step(v[i], prev.0, prev.1);
            rewrite_plan(v.subrange(0, i + 1), scope, disc) == (
                one.0,
                one.1,
                prev.2 + replaced(one.2, one.3),
            )
        }),
    decreases i,
{
    reveal_with_fuel(rewrite_plan, 3);
    let prev = rewrite_plan(v.subrange(0, i), scope, disc);
    let one = rewrite_step(v[i], prev.0, prev.1);
    if i == 0 {
        assert(v.subrange(0, 0) =~= Seq::<SpecStep>::empty());
        let s1 = v.subrange(0, 1);
        assert(s1.len() == 1);
        assert(s1[0] == v[0]);
        assert(s1.drop_first() =~= Seq::<SpecStep>::empty());
        lemma_concat_empty(replaced(one.2, one.3));
        assert(rewrite_plan(s1, scope, disc).2 =~= replaced(one.2, one.3));
    } else {
        let s1 = v.subrange(0, i + 1);
        let s0 = v.subrange(0, i);
        assert(s1[0] == v[0]);
        assert(s0[0] == v[0]);
        assert(s0.drop_first() =~= v.drop_first().subrange(0, i - 1));
        assert(s1.drop_first() =~= v.drop_first().subrange(0, i));
        let first = rewrite_step(v[0], scope, disc);
        lemma_rewrite_plan_snoc(v.drop_first(), i - 1, first.0, first.1);
        assert(v.drop_first()[i - 1] == v[i]);
        let rprev = rewrite_plan(v.drop_first().subrange(0, i - 1), first.0, first.1);
        let rone = rewrite_step(v[i], rprev.0, rprev.1);
        assert(prev == (rprev.0, rprev.1, replaced(first.2, first.3) + rprev.2));
        assert(replaced(first.2, first.3) + (rprev.2 + replaced(rone.2, rone.3))
            =~= (replaced(first.2, first.3) + rprev.2) + replaced(rone.2, rone.3));
    }
}

/// Walking one more job extends the fold by one rewritten job.
proof fn lemma_rewrite_jobs_snoc(v: Seq<SpecJob>, i: int, disc: Seq<SpecResource>)
    requires
        0 <= i < v.len(),
    ensures
        ({
            let prev = rewrite_jobs(v.subrange(0, i), disc);
            let one = rewrite_plan(v[i].plan, Set::empty(), prev.0);
            rewrite_jobs(v.subrange(0, i + 1), disc) == (
                one.1,
                prev.1 + seq![SpecJob { plan: one.2, ..v[i] }],
            )
        }),
    decreases i,
{
    reveal_with_fuel(rewrite_jobs, 3);
    let prev = rewrite_jobs(v.subrange(0, i), disc);
    let one = rewrite_plan(v[i].plan, Set::empty(), prev.0);
    if i == 0 {
        assert(v.subrange(0, 0) =~= Seq::<SpecJob>::empty());
        let s1 = v.subrange(0, 1);
        assert(s1.len() == 1);
        assert(s1[0] == v[0]);
        assert(s1.drop_first() =~= Seq::<SpecJob>::empty());
        let first = rewrite_plan(v[0].plan, Set::empty(), disc);
        lemma_concat_empty(seq![SpecJob { plan: first.2, ..v[0] }]);
        assert(rewrite_jobs(s1, disc).1 =~= seq![SpecJob { plan: first.2, ..v[0] }]);
    } else {
        let s1 = v.subrange(0, i + 1);
        let s0 = v.subrange(0, i);
        assert(s1[0] == v[0]);
        assert(s0[0] == v[0]);
        assert(s0.drop_first() =~= v.drop_first().subrange(0, i - 1));
        assert(s1.drop_first() =~= v.drop_first().subrange(0, i));
        let first = rewrite_plan(v[0].plan, Set::empty(), disc);
        lemma_rewrite_jobs_snoc(v.drop_first(), i - 1, first.1);
        assert(v.drop_first()[i - 1] == v[i]);
        let rprev = rewrite_jobs(v.drop_first().subrange(0, i - 1), first.1);
        let rone = rewrite_plan(v[i].plan, Set::empty(), rprev.0);
        assert(prev == (rprev.0, seq![SpecJob { plan: first.2, ..v[0] }] + rprev.1));
        assert(seq![SpecJob { plan: first.2, ..v[0] }] + (rprev.1 + seq![SpecJob { plan: rone.2, ..v[i] }])
            =~= (seq![SpecJob { plan: first.2, ..v[0] }] + rprev.1) + seq![SpecJob { plan: rone.2, ..v[i] }]);
    }
}

/// A step sequence holds an unresolved placeholder exactly when one of its
/// steps does.
proof fn lemma_steps_have_unbound_iff(v: Seq<SpecStep>)
    ensures
        steps_have_unbound(v) <==> exists|i: int| 0 <= i < v.len() && step_has_unbound(#[trigger] v[i]),
    decreases v,
{
    if v.len() > 0 {
        lemma_steps_have_unbound_iff(v.drop_first());
        assert(forall|i: int| 1 <= i < v.len() ==> #[trigger] v[i] == v.drop_first()[i - 1]);
        if exists|i: int| 0 <= i < v.len() && step_has_unbound(#[trigger] v[i]) {
            let i = choose|i: int| 0 <= i < v.len() && step_has_unbound(#[trigger] v[i]);
            if i > 0 {
                assert(step_has_unbound(v.drop_first()[i - 1]));
            }
        }
        if steps_have_unbound(v) && !step_has_unbound(v[0]) {
            let i = choose|i: int|
                0 <= i < v.drop_first().len() && step_has_unbound(#[trigger] v.drop_first()[i]);
            assert(step_has_unbound(v[i + 1]));
        }
    }
}


/// The message reported when a plan still holds an unresolved placeholder.
pub open spec fn unbound_message() -> Seq<char> {
    "Cannot cook unbound TaskResource"@
}

/// Rewrites one task: queues fetches for inputs and image not yet available,
/// and writes the synthesized input and output entries into an inline
/// config.
fn collect_resource_in_task(task: &Task, scope: &mut Scope, disc: &mut Discovered) -> (r: Result<
    (Vec<Step>, Task),
    Errors,
>)
    ensures
        r is Ok <==> !bindings_have_unbound(task@.inputs) && !bindings_have_unbound(task@.outputs),
        r matches Err(e) ==> e matches Errors::CookError(m) && m@ == unbound_message(),
        r matches Ok(p) ==> ({
            let (s2, d2, gets, t2) = rewrite_task(task@, old(scope)@, old(disc)@);
            &&& final(scope)@ == s2
            &&& final(disc)@ == d2
            &&& crate::model::steps_view(p.0@) == gets
            &&& p.1@ == t2
        }),
{
    let ghost scope0 = scope@;
    let ghost disc0 = disc@;
    let ghost iv: Seq<SpecTaskResource> = (match task@.inputs {
        Some(v) => v,
        None => Seq::empty(),
    });
    let mut gets: Vec<Step> = Vec::new();
    let mut new_inputs: Vec<Input> = Vec::new();
    proof {
        assert(iv.subrange(0, 0) =~= Seq::<SpecTaskResource>::empty());
        assert(crate::model::steps_view(gets@) =~= Seq::<SpecStep>::empty());
        assert(crate::model::inputs_view(new_inputs@) =~= Seq::<SpecInput>::empty());
    }
    match &task.inputs {
        Some(inputs) => {
            proof {
                assert(iv =~= crate::model::task_resources_view(inputs@));
            }
            let mut i: usize = 0;
            while i < inputs.len()
                invariant
                    scope0 == old(scope)@,
                    disc0 == old(disc)@,
                    i <= iv.len(),
                    task@.inputs == Some(iv),
                    iv == crate::model::task_resources_view(inputs@),
                    iv.len() == inputs@.len(),
                    forall|m: int| 0 <= m < iv.len() ==> iv[m] == #[trigger] inputs@[m]@,
                    forall|m: int| 0 <= m < i ==> !(#[trigger] iv[m] is Unbound),
                    ({
                        let w = rewrite_inputs(iv.subrange(0, i as int), scope0, disc0);
                        &&& scope@ == w.0
                        &&& disc@ == w.1
                        &&& crate::model::steps_view(gets@) == w.2
                        &&& crate::model::inputs_view(new_inputs@) == w.3
                    }),
                decreases iv.len() - i,
            {
                let ghost gets_before = crate::model::steps_view(gets@);
                let ghost inputs_before = crate::model::inputs_view(new_inputs@);
                match &inputs[i] {
                    TaskResource::Resource { resource, get_as, .. } => {
                        if !scope.contains(resource.name.as_str()) {
                            scope.add(resource.name.clone());
                            disc.insert(resource.clone());
                            let g = match get_as {
                                Some(a) => Get::from(a.as_str(), resource, None),
                                None => {
                                    proof {
                                        crate::model::lemma_empty_strlit();
                                    }
                                    Get::from("", resource, None)
                                }
                            };
                            let ghost gv = g@;
                            proof {
                                assert(gv == implicit_get(
                                    resource@,
                                    crate::model::view_opt(*get_as),
                                ));
                            }
                            let st = Step::Get(g);
                            let ghost stv = crate::model::step_view(st);
                            proof {
                                assert(stv == SpecStep::Get(gv));
                            }
                            let ghost gets_old = gets@;
                            gets.push(st);
                            proof {
                                crate::model::lemma_steps_view_push(gets_old, gets@[gets_old.len() as int]);
                                assert(crate::model::step_view(gets@[gets_old.len() as int]) == stv);
                                assert(crate::model::steps_view(gets@)
                                    =~= gets_before + seq![SpecStep::Get(gv)]);
                            }
                            new_inputs.push(Input::new(resource.name.as_str()));
                            proof {
                                assert(crate::model::inputs_view(new_inputs@) =~= inputs_before
                                    + seq![SpecInput {
                                    name: resource@.name,
                                    path: None,
                                    optional: false,
                                }]);
                            }
                        } else {
                            proof {
                                lemma_concat_empty(gets_before);
                                lemma_concat_empty(inputs_before);
                            }
                        }
                    }
                    TaskResource::Output { name, .. } => {
                        new_inputs.push(Input::new(name.as_str()));
                        proof {
                            lemma_concat_empty(gets_before);
                            assert(crate::model::inputs_view(new_inputs@) =~= inputs_before
                                + seq![SpecInput { name: name@, path: None, optional: false }]);
                        }
                    }
                    TaskResource::Unbound => {
                        proof {
                            assert(iv[i as int] is Unbound);
                            assert(bindings_have_unbound(task@.inputs));
                        }
                        return Err(Errors::from("Cannot cook unbound TaskResource"));
                    }
                }
                proof {
                    lemma_rewrite_inputs_snoc(iv, i as int, scope0, disc0);
                }
                i = i + 1;
            }
            proof {
                assert(iv.subrange(0, iv.len() as int) =~= iv);
            }
        }
        None => {}
    }
    let ghost after_inputs = rewrite_inputs(iv, scope0, disc0);
    let ghost ov: Seq<SpecTaskResource> = (match task@.outputs {
        Some(v) => v,
        None => Seq::empty(),
    });
    let mut new_outputs: Vec<Output> = Vec::new();
    proof {
        assert(ov.subrange(0, 0) =~= Seq::<SpecTaskResource>::empty());
        assert(crate::model::outputs_view(new_outputs@) =~= Seq::<SpecOutput>::empty());
    }
    match &task.outputs {
        Some(outputs) => {
            proof {
                assert(ov =~= crate::model::task_resources_view(outputs@));
            }
            let mut i: usize = 0;
            while i < outputs.len()
                invariant
                    i <= ov.len(),
                    task@.outputs == Some(ov),
                    ov == crate::model::task_resources_view(outputs@),
                    ov.len() == outputs@.len(),
                    forall|m: int| 0 <= m < ov.len() ==> ov[m] == #[trigger] outputs@[m]@,
                    forall|m: int| 0 <= m < i ==> !(#[trigger] ov[m] is Unbound),
                    crate::model::outputs_view(new_outputs@) == rewrite_outputs(
                        ov.subrange(0, i as int),
                    ),
                decreases ov.len() - i,
            {
                let ghost before = crate::model::outputs_view(new_outputs@);
                match &outputs[i] {
                    TaskResource::Output { name, .. } => {
                        new_outputs.push(Output::new(name.as_str()));
                        proof {
                            assert(crate::model::outputs_view(new_outputs@) =~= before
                                + seq![SpecOutput { name: name@, path: None }]);
                        }
                    }
                    TaskResource::Resource { .. } => {
                        proof {
                            lemma_concat_empty(before);
                        }
                    }
                    TaskResource::Unbound => {
                        proof {
                            assert(ov[i as int] is Unbound);
                            assert(bindings_have_unbound(task@.outputs));
                        }
                        return Err(Errors::from("Cannot cook unbound TaskResource"));
                    }
                }
                proof {
                    lemma_rewrite_outputs_snoc(ov, i as int);
                }
                i = i + 1;
            }
            proof {
                assert(ov.subrange(0, ov.len() as int) =~= ov);
            }
        }
        None => {}
    }
    let ghost new_inputs_v = crate::model::inputs_view(new_inputs@);
    let ghost new_outputs_v = crate::model::outputs_view(new_outputs@);
    let mut adj = task.clone();
    let has_new_inputs = new_inputs.len() > 0;
    let has_new_outputs = new_outputs.len() > 0;
    match adj.task_def {
        TaskDef::File { file } => {
            adj.task_def = TaskDef::File { file };
        }
        TaskDef::Config { config } => {
            let mut config = config;
            if has_new_inputs {
                config.inputs = Some(new_inputs);
            }
            if has_new_outputs {
                config.outputs = Some(new_outputs);
            }
            adj.task_def = TaskDef::Config { config };
        }
    }
    match &task.image {
        Some(image) => {
            if !scope.contains(image.resource.name.as_str()) {
                scope.add(image.resource.name.clone());
                disc.insert(image.resource.clone());
                proof {
                    crate::model::lemma_empty_strlit();
                }
                let ghost gets_before = crate::model::steps_view(gets@);
                let g = Get::from("", &image.resource, None);
                let ghost gv = g@;
                let st = Step::Get(g);
                let ghost stv = crate::model::step_view(st);
                proof {
                    assert(stv == SpecStep::Get(gv));
                }
                let ghost gets_old = gets@;
                gets.push(st);
                proof {
                    crate::model::lemma_steps_view_push(gets_old, gets@[gets_old.len() as int]);
                    assert(crate::model::step_view(gets@[gets_old.len() as int]) == stv);
                    assert(crate::model::steps_view(gets@)
                        =~= gets_before.push(SpecStep::Get(gv)));
                }
            }
        }
        None => {}
    }
    Ok((gets, adj))
}


/// Rewrites one step of a plan, recording what it makes available, what it
/// discovers, and the fetches to inject just before it.
#[verifier::rlimit(60)]
#[verifier::spinoff_prover]
#[verifier::loop_isolation(false)]
fn collect_resource_in_step(step: &Step, scope: &mut Scope, disc: &mut Discovered) -> (r: Result<
    (Vec<Step>, Step),
    Errors,
>)
    ensures
        r is Ok <==> !step_has_unbound(step@),
        r matches Err(e) ==> e matches Errors::CookError(m) && m@ == unbound_message(),
        r matches Ok(p) ==> ({
            let (s2, d2, gets, adj) = rewrite_step(step@, old(scope)@, old(disc)@);
            &&& final(scope)@ == s2
            &&& final(disc)@ == d2
            &&& crate::model::steps_view(p.0@) == gets
            &&& p.1@ == adj
        }),
    decreases *step,
{
    match step {
        Step::Get(g) => {
            let key = if g.get.unicode_len() > 0 {
                g.get.clone()
            } else {
                g.resource.name.clone()
            };
            proof {
                assert(key@ == scope_key(g@));
            }
            scope.add(key);
            disc.insert(g.resource.clone());
            let adj = Step::Get(g.clone());
            let no_gets: Vec<Step> = Vec::new();
            proof {
                assert(crate::model::steps_view(no_gets@) =~= Seq::<SpecStep>::empty());
                assert(adj@ == step@);
            }
            Ok((no_gets, adj))
        }
        Step::Put(p) => {
            let adj = Step::Put(p.clone());
            let no_gets: Vec<Step> = Vec::new();
            proof {
                assert(crate::model::steps_view(no_gets@) =~= Seq::<SpecStep>::empty());
                assert(adj@ == step@);
            }
            Ok((no_gets, adj))
        }
        Step::Task(t) => {
            let pair = collect_resource_in_task(t, scope, disc)?;
            let (gets, adj) = pair;
            Ok((gets, Step::Task(adj)))
        }
        Step::Try(t) => {
            let pair = collect_resource_in_step(&*t.try_, scope, disc)?;
            let (gets, adj) = pair;
            Ok((gets, Step::Try(Try { try_: Box::new(adj) })))
        }
        Step::InParallel(ip) => {
            match ip {
                InParallel::Steps(children) => {
                    let ghost cv = crate::model::steps_view(children@);
                    let ghost scope0 = scope@;
                    let ghost disc0 = disc@;
                    proof {
                        crate::model::lemma_steps_view_len(children@);
                        assert(cv.subrange(0, 0) =~= Seq::<SpecStep>::empty());
                        lemma_steps_have_unbound_iff(cv);
                        assert(step@ == SpecStep::InParallel(crate::model::in_parallel_view(*ip)));
                        assert(crate::model::in_parallel_view(*ip) == SpecInParallel::Steps(cv));
                    }
                    let mut flat: Vec<Step> = Vec::new();
                    proof {
                        assert(crate::model::steps_view(flat@) =~= Seq::<SpecStep>::empty());
                    }
                    let mut i: usize = 0;
                    while i < children.len()
                        invariant
                            scope0 == old(scope)@,
                            disc0 == old(disc)@,
                            i <= cv.len(),
                            cv == crate::model::steps_view(children@),
                            cv.len() == children@.len(),
                            forall|m: int| 0 <= m < cv.len()
                                ==> cv[m] == crate::model::step_view(#[trigger] children@[m]),
                            forall|m: int| 0 <= m < i ==> !step_has_unbound(#[trigger] cv[m]),
                            ({
                                let w = rewrite_par(cv.subrange(0, i as int), scope0, disc0);
                                &&& scope@ == w.0
                                &&& disc@ == w.1
                                &&& crate::model::steps_view(flat@) == w.2
                            }),
                        decreases cv.len() - i,
                    {
                        let ghost flat_before = crate::model::steps_view(flat@);
                        let mut child_scope = Scope::new();
                        let pair = match collect_resource_in_step(&children[i], &mut child_scope, disc) {
                            Ok(p) => p,
                            Err(e) => {
                                proof {
                                    assert(step_has_unbound(cv[i as int]));
                                    assert(steps_have_unbound(cv));
                                    assert(step@ == SpecStep::InParallel(SpecInParallel::Steps(cv)));
                                }
                                return Err(e);
                            }
                        };
                        let (child_gets, child_adj) = pair;
                        let ghost child_gets_v = crate::model::steps_view(child_gets@);
                        let ghost child_adj_v = child_adj@;
                        if child_gets.len() > 0 {
                            let group = Step::InParallel(InParallel::Steps(child_gets));
                            let ghost groupv = crate::model::step_view(group);
                            proof {
                                assert(groupv == SpecStep::InParallel(crate::model::in_parallel_view(
                                    InParallel::Steps(child_gets),
                                )));
                                assert(crate::model::in_parallel_view(InParallel::Steps(child_gets))
                                    == SpecInParallel::Steps(child_gets_v));
                            }
                            let ghost flat_old = flat@;
                            flat.push(group);
                            proof {
                                crate::model::lemma_steps_view_push(
                                    flat_old,
                                    flat@[flat_old.len() as int],
                                );
                            }
                        }
                        let ghost flat_old2 = flat@;
                        flat.push(child_adj);
                        proof {
                            crate::model::lemma_steps_view_push(
                                flat_old2,
                                flat@[flat_old2.len() as int],
                            );
                            assert(crate::model::steps_view(flat@) =~= flat_before + replaced(
                                child_gets_v,
                                child_adj_v,
                            ));
                        }
                        scope.add_all(&child_scope);
                        proof {
                            lemma_rewrite_par_snoc(cv, i as int, scope0, disc0);
                        }
                        i = i + 1;
                    }
                    proof {
                        assert(cv.subrange(0, cv.len() as int) =~= cv);
                        assert(!steps_have_unbound(cv));
                        assert(step@ == SpecStep::InParallel(SpecInParallel::Steps(cv)));
                    }
                    let adj = Step::InParallel(InParallel::Steps(flat));
                    let ghost flat_v = crate::model::steps_view(flat@);
                    let no_gets: Vec<Step> = Vec::new();
                    proof {
                        assert(crate::model::steps_view(no_gets@) =~= Seq::<SpecStep>::empty());
                        assert(adj@ == SpecStep::InParallel(crate::model::in_parallel_view(
                            InParallel::Steps(flat),
                        )));
                        assert(crate::model::in_parallel_view(InParallel::Steps(flat))
                            == SpecInParallel::Steps(flat_v));
                    }
                    Ok((no_gets, adj))
                }
                InParallel::InParallelConfig { .. } => {
                    let adj = step.clone();
                    let no_gets: Vec<Step> = Vec::new();
                    proof {
                        assert(crate::model::steps_view(no_gets@) =~= Seq::<SpecStep>::empty());
                        assert(adj@ == step@);
                    }
                    Ok((no_gets, adj))
                }
            }
        }
    }
}

/// Rewrites one job's plan in order, threading the scope.
#[verifier::rlimit(60)]
#[verifier::spinoff_prover]
#[verifier::loop_isolation(false)]
fn collect_resource_in_plan(plan: &Vec<Step>, scope: &mut Scope, disc: &mut Discovered) -> (r:
    Result<Vec<Step>, Errors>)
    ensures
        r is Ok <==> !steps_have_unbound(crate::model::steps_view(plan@)),
        r matches Err(e) ==> e matches Errors::CookError(m) && m@ == unbound_message(),
        r matches Ok(np) ==> ({
            let w = rewrite_plan(crate::model::steps_view(plan@), old(scope)@, old(disc)@);
            &&& final(scope)@ == w.0
            &&& final(disc)@ == w.1
            &&& crate::model::steps_view(np@) == w.2
        }),
{
    let ghost scope0 = scope@;
    let ghost disc0 = disc@;
    let ghost pv = crate::model::steps_view(plan@);
    proof {
        crate::model::lemma_steps_view_len(plan@);
        assert(pv.subrange(0, 0) =~= Seq::<SpecStep>::empty());
        lemma_steps_have_unbound_iff(pv);
    }
    let mut new_plan: Vec<Step> = Vec::new();
    proof {
        assert(crate::model::steps_view(new_plan@) =~= Seq::<SpecStep>::empty());
    }
    let mut i: usize = 0;
    while i < plan.len()
        invariant
            i <= pv.len(),
            forall|m: int| 0 <= m < i ==> !step_has_unbound(#[trigger] pv[m]),
            ({
                let w = rewrite_plan(pv.subrange(0, i as int), scope0, disc0);
                &&& scope@ == w.0
                &&& disc@ == w.1
                &&& crate::model::steps_view(new_plan@) == w.2
            }),
        decreases pv.len() - i,
    {
        let ghost plan_before = crate::model::steps_view(new_plan@);
        let pair = match collect_resource_in_step(&plan[i], scope, disc) {
            Ok(p) => p,
            Err(e) => {
                proof {
                    assert(step_has_unbound(pv[i as int]));
                }
                return Err(e);
            }
        };
        let (step_gets, step_adj) = pair;
        let ghost gets_v = crate::model::steps_view(step_gets@);
        let ghost adj_v = step_adj@;
        if step_gets.len() > 0 {
            let group = Step::InParallel(InParallel::Steps(step_gets));
            let ghost groupv = crate::model::step_view(group);
            proof {
                assert(groupv == SpecStep::InParallel(crate::model::in_parallel_view(
                    InParallel::Steps(step_gets),
                )));
                assert(crate::model::in_parallel_view(InParallel::Steps(step_gets))
                    == SpecInParallel::Steps(gets_v));
            }
            let ghost plan_old = new_plan@;
            new_plan.push(group);
            proof {
                crate::model::lemma_steps_view_push(plan_old, new_plan@[plan_old.len() as int]);
            }
        }
        let ghost plan_old2 = new_plan@;
        new_plan.push(step_adj);
        proof {
            crate::model::lemma_steps_view_push(plan_old2, new_plan@[plan_old2.len() as int]);
            assert(crate::model::steps_view(new_plan@) =~= plan_before + replaced(gets_v, adj_v));
            lemma_rewrite_plan_snoc(pv, i as int, scope0, disc0);
        }
        i = i + 1;
    }
    proof {
        assert(pv.subrange(0, pv.len() as int) =~= pv);
    }
    Ok(new_plan)
}

/// Rewrites every job's plan, walking each with a fresh scope and collecting
/// every discovered resource across jobs.
#[verifier::rlimit(100)]
#[verifier::spinoff_prover]
#[verifier::loop_isolation(false)]
fn collect_resource(pipeline: &Pipeline, disc: &mut Discovered) -> (r: Result<Pipeline, Errors>)
    ensures
        r is Ok <==> !pipeline_has_unbound(pipeline@),
        r matches Err(e) ==> e matches Errors::CookError(m) && m@ == unbound_message(),
        r matches Ok(p2) ==> ({
            let (d2, jobs2) = rewrite_jobs(pipeline@.jobs, old(disc)@);
            &&& final(disc)@ == d2
            &&& p2@ == (SpecPipeline {
                display: pipeline@.display,
                jobs: jobs2,
                resources: Seq::empty(),
                resource_types: Seq::empty(),
            })
        }),
{
    let ghost disc0 = disc@;
    let ghost jv = crate::model::jobs_view(pipeline.jobs@);
    proof {
        crate::model::lemma_jobs_view_len(pipeline.jobs@);
        assert(jv.subrange(0, 0) =~= Seq::<SpecJob>::empty());
    }
    let mut new_jobs: Vec<Job> = Vec::new();
    proof {
        assert(crate::model::jobs_view(new_jobs@) =~= Seq::<SpecJob>::empty());
    }
    let mut j: usize = 0;
    while j < pipeline.jobs.len()
        invariant
            j <= jv.len(),
            forall|m: int| 0 <= m < j ==> !steps_have_unbound((#[trigger] jv[m]).plan),
            ({
                let w = rewrite_jobs(jv.subrange(0, j as int), disc0);
                &&& disc@ == w.0
                &&& crate::model::jobs_view(new_jobs@) == w.1
            }),
        decreases jv.len() - j,
    {
        let ghost jobs_before = crate::model::jobs_view(new_jobs@);
        let job = &pipeline.jobs[j];
        proof {
            assert(crate::model::job_view(pipeline.jobs@[j as int]) == jv[j as int]);
        }
        let mut scope = Scope::new();
        let ghost disc_before_job = disc@;
        let new_plan = match collect_resource_in_plan(&job.plan, &mut scope, disc) {
            Ok(p) => p,
            Err(e) => {
                proof {
                    assert(steps_have_unbound(jv[j as int].plan));
                    assert(steps_have_unbound(pipeline@.jobs[j as int].plan));
                    assert(pipeline_has_unbound(pipeline@));
                }
                return Err(e);
            }
        };
        let mut new_job = job.clone();
        let ghost new_plan_v = crate::model::steps_view(new_plan@);
        new_job.plan = new_plan;
        let ghost new_job_v = crate::model::job_view(new_job);
        proof {
            assert(new_plan_v == rewrite_plan(jv[j as int].plan, Set::empty(), disc_before_job).2);
            assert(new_job_v == (SpecJob {
                plan: rewrite_plan(jv[j as int].plan, Set::empty(), disc_before_job).2,
                ..jv[j as int]
            }));
        }
        let ghost jobs_old = new_jobs@;
        new_jobs.push(new_job);
        proof {
            crate::model::lemma_jobs_view_push(jobs_old, new_jobs@[jobs_old.len() as int]);
            lemma_rewrite_jobs_snoc(jv, j as int, disc0);
            assert(crate::model::jobs_view(new_jobs@) =~= jobs_before + seq![new_job_v]);
        }
        j = j + 1;
    }
    proof {
        assert(jv.subrange(0, jv.len() as int) =~= jv);
        if pipeline_has_unbound(pipeline@) {
            let m = choose|m: int|
                0 <= m < pipeline@.jobs.len() && steps_have_unbound(pipeline@.jobs[m].plan);
            assert(jv[m].plan == pipeline@.jobs[m].plan);
        }
    }
    let adjusted = Pipeline {
        display: match &pipeline.display {
            Some(d) => Some(crate::pipeline::DisplayConfig {
                background_image: d.background_image.clone(),
            }),
            None => None,
        },
        jobs: new_jobs,
        resources: Vec::new(),
        resource_types: Vec::new(),
    };
    proof {
        assert(adjusted@.resources =~= Seq::<SpecResource>::empty());
        assert(adjusted@.resource_types =~= Seq::<SpecResourceTypes>::empty());
    }
    Ok(adjusted)
}


/// Normalizes the pipeline: rewrites every job's plan, replaces the resource
/// collection with everything discovered, and attaches the custom resource
/// types those resources reference. A pipeline without jobs, or one still
/// holding an unresolved placeholder binding, is refused.
#[verifier::rlimit(60)]
#[verifier::spinoff_prover]
pub fn optimize_pipeline(pipeline: &Pipeline) -> (r: Result<Pipeline, Errors>)
    ensures
        r is Ok <==> pipeline@.jobs.len() > 0 && !pipeline_has_unbound(pipeline@),
        pipeline@.jobs.len() == 0 ==> (r matches Err(e) && e matches Errors::CookError(m) && m@
            == "Cannot cook a pipeline with no jobs"@),
        pipeline@.jobs.len() > 0 && pipeline_has_unbound(pipeline@) ==> (r matches Err(e)
            && e matches Errors::CookError(m) && m@ == unbound_message()),
        r matches Ok(p2) ==> p2@ == spec_cook(pipeline@),
{
    if pipeline.jobs.len() == 0 {
        proof {
            crate::model::lemma_jobs_view_len(pipeline.jobs@);
        }
        return Err(Errors::from("Cannot cook a pipeline with no jobs"));
    }
    proof {
        crate::model::lemma_jobs_view_len(pipeline.jobs@);
    }
    let mut disc = Discovered::new();
    let adjusted = collect_resource(pipeline, &mut disc)?;
    let types = collect_types_exec(&disc.items);
    let ghost disc_v = disc@;
    let ghost types_v = types_view(types@);
    let with_res = adjusted.with_resources(disc.items);
    let cooked = with_res.with_resource_types(types);
    proof {
        assert(Seq::new(cooked.resources@.len(), |i: int| cooked.resources@[i].view())
            =~= disc_v);
        assert(Seq::new(cooked.resource_types@.len(), |i: int| cooked.resource_types@[i].view())
            =~= types_v);
    }
    Ok(cooked)
}

/// Cooks the pipeline and renders the result as a YAML document. Each
/// failure cause is pinned to its error variant and message: a pipeline
/// without jobs and one with an unresolved placeholder are validation
/// errors, never render errors; only the unrenderable concurrent-group form
/// of an otherwise valid pipeline is a render error.
pub fn cook_pipeline(pipeline: &Pipeline) -> (r: Result<String, Errors>)
    ensures
        r is Ok <==> pipeline@.jobs.len() > 0 && !pipeline_has_unbound(pipeline@)
            && !crate::render::pipeline_has_cfg_parallel(spec_cook(pipeline@)),
        r matches Ok(yaml) ==> yaml@ == crate::render::spec_render_pipeline(spec_cook(pipeline@)),
        pipeline@.jobs.len() == 0 ==> (r matches Err(e) && e matches Errors::CookError(m) && m@
            == "Cannot cook a pipeline with no jobs"@),
        pipeline@.jobs.len() > 0 && pipeline_has_unbound(pipeline@) ==> (r matches Err(e)
            && e matches Errors::CookError(m) && m@ == unbound_message()),
        pipeline@.jobs.len() > 0 && !pipeline_has_unbound(pipeline@)
            && crate::render::pipeline_has_cfg_parallel(spec_cook(pipeline@)) ==> (r matches Err(e)
            && e matches Errors::RenderError(m) && m@ == crate::render::render_refused_message()),
{
    let cooked = optimize_pipeline(pipeline)?;
    crate::render::render_pipeline(&cooked)
}

} // verus!
