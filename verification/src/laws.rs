//! The laws the library stands for, each proved over the same spec functions
//! that the executable contracts use.

use vstd::prelude::*;
use crate::cook::disc_has;
use crate::cook::disc_index;
use crate::cook::disc_insert;
use crate::cook::rewrite_input_one;
use crate::cook::rewrite_inputs;
use crate::cook::rewrite_task;
use crate::cook::spec_cook;
use crate::model::SpecPipeline;
use crate::model::SpecResource;
use crate::model::SpecStep;
use crate::model::SpecTask;
use crate::model::SpecTaskResource;
use crate::render::spec_render_jobs;
use crate::render::spec_render_pipeline;

verus! {

/// Cooking and rendering are functions of the pipeline value alone, so
/// normalizing the same pipeline twice yields byte-identical output: any two
/// documents that `cook_pipeline`'s contract admits for equal inputs are the
/// same character sequence.
pub proof fn lemma_cook_deterministic(p1: SpecPipeline, p2: SpecPipeline, y1: Seq<char>, y2: Seq<char>)
    requires
        p1 == p2,
        y1 == spec_render_pipeline(spec_cook(p1)),
        y2 == spec_render_pipeline(spec_cook(p2)),
    ensures
        y1 == y2,
{
}

/// Recording a discovered resource makes its name present, keeps every name
/// that was present, and adds no other name: the discovered collection holds
/// exactly the names of the resources handed to it.
pub proof fn lemma_discovery_complete(s: Seq<SpecResource>, r: SpecResource)
    ensures
        disc_has(disc_insert(s, r), r.name),
        forall|n: Seq<char>| disc_has(s, n) ==> disc_has(disc_insert(s, r), n),
        forall|n: Seq<char>| disc_has(disc_insert(s, r), n) ==> disc_has(s, n) || n == r.name,
    decreases s.len(),
{
    let out = disc_insert(s, r);
    lemma_disc_index_range(s, r.name);
    if disc_index(s, r.name) >= 0 {
        assert forall|n: Seq<char>| disc_has(s, n) implies disc_has(out, n) by {
            lemma_disc_index_range(s, n);
            lemma_index_in_updated(s, disc_index(s, r.name), r, n);
        }
        assert(disc_has(out, r.name)) by {
            lemma_index_in_updated(s, disc_index(s, r.name), r, r.name);
        }
        assert forall|n: Seq<char>| disc_has(out, n) implies disc_has(s, n) || n == r.name by {
            lemma_names_of_updated(s, disc_index(s, r.name), r, n);
        }
    } else {
        assert forall|n: Seq<char>| disc_has(s, n) implies disc_has(out, n) by {
            lemma_disc_index_push_keeps(s, r, n);
        }
        assert(disc_has(out, r.name)) by {
            lemma_disc_index_push_finds(s, r);
        }
        assert forall|n: Seq<char>| disc_has(out, n) implies disc_has(s, n) || n == r.name by {
            lemma_names_of_push(s, r, n);
        }
    }
}

/// `disc_index` points inside the sequence whenever it is non-negative, at a
/// resource of the looked-up name.
proof fn lemma_disc_index_range(s: Seq<SpecResource>, n: Seq<char>)
    ensures
        disc_index(s, n) >= 0 ==> 0 <= disc_index(s, n) < s.len() && s[disc_index(s, n)].name == n,
    decreases s.len(),
{
    if s.len() > 0 && s[0].name != n {
        lemma_disc_index_range(s.drop_first(), n);
        if disc_index(s, n) >= 0 {
            assert(s.drop_first()[disc_index(s.drop_first(), n)] == s[disc_index(s, n)]);
        }
    }
}

/// A name found in `s` is still found after updating position `i` with a
/// resource, provided the updated slot keeps a resource whose name is found.
proof fn lemma_index_in_updated(s: Seq<SpecResource>, i: int, r: SpecResource, n: Seq<char>)
    requires
        0 <= i < s.len(),
        s[i].name == r.name,
        disc_has(s, n),
    ensures
        disc_has(s.update(i, r), n),
    decreases s.len(),
{
    lemma_disc_index_range(s, n);
    let j = disc_index(s, n);
    if s.update(i, r)[j].name == n {
        lemma_found_at(s.update(i, r), n, j);
    } else {
        assert(j == i && n == r.name ==> s.update(i, r)[j].name == n);
        lemma_found_at(s.update(i, r), n, j);
    }
}

/// A position holding the name witnesses that `disc_index` finds it.
proof fn lemma_found_at(s: Seq<SpecResource>, n: Seq<char>, j: int)
    requires
        0 <= j < s.len(),
        s[j].name == n,
    ensures
        disc_has(s, n),
    decreases j,
{
    if s[0].name == n {
    } else {
        assert(s.drop_first()[j - 1] == s[j]);
        lemma_found_at(s.drop_first(), n, j - 1);
    }
}

/// Every name found after an in-place update was already there or is the new
/// resource's name.
proof fn lemma_names_of_updated(s: Seq<SpecResource>, i: int, r: SpecResource, n: Seq<char>)
    requires
        0 <= i < s.len(),
        s[i].name == r.name,
        disc_has(s.update(i, r), n),
    ensures
        disc_has(s, n) || n == r.name,
{
    lemma_disc_index_range(s.update(i, r), n);
    let j = disc_index(s.update(i, r), n);
    if j == i {
    } else {
        assert(s[j].name == n);
        lemma_found_at(s, n, j);
    }
}

/// A name found in `s` is still found after pushing a resource.
proof fn lemma_disc_index_push_keeps(s: Seq<SpecResource>, r: SpecResource, n: Seq<char>)
    requires
        disc_has(s, n),
    ensures
        disc_has(s.push(r), n),
{
    lemma_disc_index_range(s, n);
    let j = disc_index(s, n);
    assert(s.push(r)[j] == s[j]);
    lemma_found_at(s.push(r), n, j);
}

/// The pushed resource's name is found.
proof fn lemma_disc_index_push_finds(s: Seq<SpecResource>, r: SpecResource)
    ensures
        disc_has(s.push(r), r.name),
{
    assert(s.push(r)[s.len() as int] == r);
    lemma_found_at(s.push(r), r.name, s.len() as int);
}

/// Every name found after a push was already there or is the new resource's
/// name.
proof fn lemma_names_of_push(s: Seq<SpecResource>, r: SpecResource, n: Seq<char>)
    requires
        disc_has(s.push(r), n),
    ensures
        disc_has(s, n) || n == r.name,
{
    lemma_disc_index_range(s.push(r), n);
    let j = disc_index(s.push(r), n);
    if j < s.len() {
        assert(s[j] == s.push(r)[j]);
        lemma_found_at(s, n, j);
    }
}

/// No duplicate fetch: the walk of a task's declared inputs never injects a
/// fetch for a resource name that is already available in the scope it
/// starts from.
pub proof fn lemma_no_duplicate_fetch(
    inputs: Seq<SpecTaskResource>,
    scope: Set<Seq<char>>,
    disc: Seq<SpecResource>,
    n: Seq<char>,
)
    requires
        scope.contains(n),
    ensures
        forall|k: int|
            0 <= k < rewrite_inputs(inputs, scope, disc).2.len()
                ==> !((#[trigger] rewrite_inputs(inputs, scope, disc).2[k]) matches SpecStep::Get(g)
                && g.resource.name == n),
    decreases inputs.len(),
{
    if inputs.len() > 0 {
        let one = rewrite_input_one(inputs[0], scope, disc);
        assert(one.0.contains(n));
        lemma_no_duplicate_fetch(inputs.drop_first(), one.0, one.1, n);
        let rest = rewrite_inputs(inputs.drop_first(), one.0, one.1);
        assert forall|k: int| 0 <= k < rewrite_inputs(inputs, scope, disc).2.len()
            implies !((#[trigger] rewrite_inputs(inputs, scope, disc).2[k])
            matches SpecStep::Get(g) && g.resource.name == n) by {
            if k < one.2.len() {
                assert(rewrite_inputs(inputs, scope, disc).2[k] == one.2[k]);
            } else {
                assert(rewrite_inputs(inputs, scope, disc).2[k] == rest.2[k - one.2.len()]);
            }
        }
    }
}

/// File-task immutability: rewriting a task defined by an external file
/// leaves the task itself untouched; only the fetches around it are queued.
pub proof fn lemma_file_task_untouched(t: SpecTask, scope: Set<Seq<char>>, disc: Seq<SpecResource>)
    requires
        t.task_def is File,
    ensures
        rewrite_task(t, scope, disc).3 == t,
{
    let adjusted = rewrite_task(t, scope, disc).3;
    assert(adjusted.task_def == t.task_def);
    assert(adjusted == t);
}

/// Empty-collection omission, the field half: an absent hook, name mapping,
/// params map, boolean flag or pinned version contributes nothing at all to
/// the document — the key is left out, never written with an empty value.
pub proof fn lemma_absent_fields_are_omitted(key: Seq<char>, p: Seq<char>)
    ensures
        crate::render::spec_render_hook(key, None, p) == Seq::<char>::empty(),
        crate::render::spec_render_map_field(key, None, p) == Seq::<char>::empty(),
        crate::render::spec_render_bool_field(key, None, p) == Seq::<char>::empty(),
        crate::render::spec_render_version_field(None, p) == Seq::<char>::empty(),
{
}

/// Empty-collection omission: a pipeline with no resources, no resource
/// types and no display metadata renders as its jobs section alone, and with
/// no jobs either, as the empty document.
pub proof fn lemma_empty_sections_are_omitted(pl: SpecPipeline)
    requires
        pl.display is None,
        pl.resources.len() == 0,
        pl.resource_types.len() == 0,
    ensures
        pl.jobs.len() > 0 ==> spec_render_pipeline(pl) == "jobs:\n"@ + spec_render_jobs(
            pl.jobs,
            "- "@,
            "  "@,
        ),
        pl.jobs.len() == 0 ==> spec_render_pipeline(pl) == Seq::<char>::empty(),
{
    if pl.jobs.len() > 0 {
        assert(spec_render_pipeline(pl) =~= "jobs:\n"@ + spec_render_jobs(pl.jobs, "- "@, "  "@));
    } else {
        assert(spec_render_pipeline(pl) =~= Seq::<char>::empty());
    }
}


/// Parallel isolation: every sibling of a concurrent group is walked with its
/// own fresh empty scope (`rewrite_par` hands each child `Set::empty()`), so
/// a branch that needs a resource always fetches it for itself, whatever the
/// surrounding scope already holds; the merged scope then keeps a later step
/// from fetching it again. Here: a branch that is a task with one resource
/// binding queues exactly the one fetch of that resource, and makes its name
/// available to the steps after the group.
pub proof fn lemma_parallel_branch_fetches(
    t: SpecTask,
    res: SpecResource,
    disc: Seq<SpecResource>,
)
    requires
        t.inputs == Some(seq![SpecTaskResource::Resource { resource: res, get_as: None, map_to: None }]),
        t.image is None,
    ensures
        crate::cook::rewrite_step(SpecStep::Task(t), Set::empty(), disc).2 == seq![SpecStep::Get(
            crate::cook::implicit_get(res, None),
        )],
        crate::cook::rewrite_step(SpecStep::Task(t), Set::empty(), disc).0.contains(res.name),
{
    let inputs = t.inputs.unwrap();
    assert(inputs.len() == 1);
    assert(inputs[0] == (SpecTaskResource::Resource { resource: res, get_as: None, map_to: None }));
    let one = rewrite_input_one(inputs[0], Set::empty(), disc);
    assert(!Set::<Seq<char>>::empty().contains(res.name));
    assert(inputs.drop_first() =~= Seq::<SpecTaskResource>::empty());
    let rest = rewrite_inputs(inputs.drop_first(), one.0, one.1);
    assert(rewrite_inputs(inputs, Set::empty(), disc).2 =~= seq![SpecStep::Get(
        crate::cook::implicit_get(res, None),
    )]);
    assert(rewrite_task(t, Set::empty(), disc).2 == rewrite_inputs(inputs, Set::empty(), disc).2);
    assert(rewrite_task(t, Set::empty(), disc).0.contains(res.name));
}



/// Every resource name occurs at most once in the collection.
pub open spec fn unique_names(s: Seq<SpecResource>) -> bool {
    forall|i: int, j: int| 0 <= i < j < s.len()
        ==> (#[trigger] s[i]).name != (#[trigger] s[j]).name
}

/// Recording a resource keyed by name keeps the names unique.
pub proof fn lemma_disc_insert_unique(s: Seq<SpecResource>, r: SpecResource)
    requires
        unique_names(s),
    ensures
        unique_names(disc_insert(s, r)),
{
    let out = disc_insert(s, r);
    if disc_index(s, r.name) >= 0 {
        lemma_disc_index_range(s, r.name);
        let at = disc_index(s, r.name);
        assert forall|i: int, j: int| 0 <= i < j < out.len() implies (#[trigger] out[i]).name
            != (#[trigger] out[j]).name by {
            assert(out[i].name == s[i].name);
            assert(out[j].name == s[j].name);
        }
    } else {
        assert forall|i: int, j: int| 0 <= i < j < out.len() implies (#[trigger] out[i]).name
            != (#[trigger] out[j]).name by {
            if j == s.len() {
                assert(out[i] == s[i]);
                assert(out[j] == r);
                if s[i].name == r.name {
                    lemma_found_at(s, r.name, i);
                }
            } else {
                assert(out[i] == s[i]);
                assert(out[j] == s[j]);
            }
        }
    }
}

/// Walking one declared input keeps the discovered names unique.
proof fn lemma_unique_input_one(
    inp: SpecTaskResource,
    scope: Set<Seq<char>>,
    disc: Seq<SpecResource>,
)
    requires
        unique_names(disc),
    ensures
        unique_names(rewrite_input_one(inp, scope, disc).1),
{
    match inp {
        SpecTaskResource::Resource { resource, .. } => {
            if !scope.contains(resource.name) {
                lemma_disc_insert_unique(disc, resource);
            }
        }
        _ => {}
    }
}

/// Walking a task's declared inputs keeps the discovered names unique.
proof fn lemma_unique_inputs(
    inputs: Seq<SpecTaskResource>,
    scope: Set<Seq<char>>,
    disc: Seq<SpecResource>,
)
    requires
        unique_names(disc),
    ensures
        unique_names(rewrite_inputs(inputs, scope, disc).1),
    decreases inputs.len(),
{
    if inputs.len() > 0 {
        let one = rewrite_input_one(inputs[0], scope, disc);
        lemma_unique_input_one(inputs[0], scope, disc);
        lemma_unique_inputs(inputs.drop_first(), one.0, one.1);
    }
}

/// Rewriting a task keeps the discovered names unique.
proof fn lemma_unique_task(t: SpecTask, scope: Set<Seq<char>>, disc: Seq<SpecResource>)
    requires
        unique_names(disc),
    ensures
        unique_names(rewrite_task(t, scope, disc).1),
{
    let inputs = (match t.inputs {
        Some(v) => v,
        None => Seq::<SpecTaskResource>::empty(),
    });
    let (s1, d1, _, _) = rewrite_inputs(inputs, scope, disc);
    lemma_unique_inputs(inputs, scope, disc);
    match t.image {
        Some(img) => {
            if !s1.contains(img.name) {
                lemma_disc_insert_unique(d1, img);
            }
        }
        None => {}
    }
}

/// Rewriting a step keeps the discovered names unique.
proof fn lemma_unique_step(s: SpecStep, scope: Set<Seq<char>>, disc: Seq<SpecResource>)
    requires
        unique_names(disc),
    ensures
        unique_names(crate::cook::rewrite_step(s, scope, disc).1),
    decreases s,
{
    match s {
        SpecStep::Get(g) => {
            lemma_disc_insert_unique(disc, g.resource);
        }
        SpecStep::Put(_) => {}
        SpecStep::Task(t) => {
            lemma_unique_task(t, scope, disc);
        }
        SpecStep::Try(inner) => {
            lemma_unique_step(*inner, scope, disc);
        }
        SpecStep::InParallel(ip) => match ip {
            crate::model::SpecInParallel::Steps(children) => {
                lemma_unique_par(children, scope, disc);
            }
            crate::model::SpecInParallel::InParallelConfig { .. } => {}
        },
    }
}

/// Rewriting the siblings of a concurrent group keeps the discovered names
/// unique.
proof fn lemma_unique_par(children: Seq<SpecStep>, scope: Set<Seq<char>>, disc: Seq<SpecResource>)
    requires
        unique_names(disc),
    ensures
        unique_names(crate::cook::rewrite_par(children, scope, disc).1),
    decreases children,
{
    if children.len() > 0 {
        let (cs, d1, _, _) = crate::cook::rewrite_step(children[0], Set::empty(), disc);
        lemma_unique_step(children[0], Set::empty(), disc);
        lemma_unique_par(children.drop_first(), scope.union(cs), d1);
    }
}

/// Rewriting a plan keeps the discovered names unique.
proof fn lemma_unique_plan(plan: Seq<SpecStep>, scope: Set<Seq<char>>, disc: Seq<SpecResource>)
    requires
        unique_names(disc),
    ensures
        unique_names(crate::cook::rewrite_plan(plan, scope, disc).1),
    decreases plan,
{
    if plan.len() > 0 {
        let (s1, d1, _, _) = crate::cook::rewrite_step(plan[0], scope, disc);
        lemma_unique_step(plan[0], scope, disc);
        lemma_unique_plan(plan.drop_first(), s1, d1);
    }
}

/// Rewriting every job keeps the discovered names unique.
proof fn lemma_unique_jobs(jobs: Seq<crate::model::SpecJob>, disc: Seq<SpecResource>)
    requires
        unique_names(disc),
    ensures
        unique_names(crate::cook::rewrite_jobs(jobs, disc).0),
    decreases jobs,
{
    if jobs.len() > 0 {
        let (_, d1, _) = crate::cook::rewrite_plan(jobs[0].plan, Set::empty(), disc);
        lemma_unique_plan(jobs[0].plan, Set::empty(), disc);
        lemma_unique_jobs(jobs.drop_first(), d1);
    }
}

/// Completeness, the exactly-one half at the whole pipeline: the cooked
/// resource collection never declares two resources under the same name,
/// whatever the pipeline.
pub proof fn lemma_cooked_resources_unique(p: SpecPipeline)
    ensures
        unique_names(spec_cook(p).resources),
{
    lemma_unique_jobs(p.jobs, Seq::empty());
}


/// The resource names a step references and the walk is asked to discover:
/// the resource of a fetch step, the resources bound as task inputs, and a
/// task's explicit image. Publishes are not fetched, hooks take no part in
/// the walk, and the untouched configuration form of a concurrent group is
/// passed through.
pub open spec fn step_refs(s: SpecStep) -> Set<Seq<char>>
    decreases s,
{
    match s {
        SpecStep::Get(g) => Set::empty().insert(g.resource.name),
        SpecStep::Put(_) => Set::empty(),
        SpecStep::Task(t) => inputs_refs(
            match t.inputs {
                Some(v) => v,
                None => Seq::empty(),
            },
        ).union(
            match t.image {
                Some(img) => Set::empty().insert(img.name),
                None => Set::empty(),
            },
        ),
        SpecStep::Try(inner) => step_refs(*inner),
        SpecStep::InParallel(ip) => match ip {
            crate::model::SpecInParallel::Steps(children) => steps_refs(children),
            crate::model::SpecInParallel::InParallelConfig { .. } => Set::empty(),
        },
    }
}

/// The resource names referenced by a sequence of steps.
pub open spec fn steps_refs(v: Seq<SpecStep>) -> Set<Seq<char>>
    decreases v,
{
    if v.len() == 0 {
        Set::empty()
    } else {
        step_refs(v[0]).union(steps_refs(v.drop_first()))
    }
}

/// The resource names bound as task inputs.
pub open spec fn inputs_refs(v: Seq<SpecTaskResource>) -> Set<Seq<char>>
    decreases v.len(),
{
    if v.len() == 0 {
        Set::empty()
    } else {
        (match v[0] {
            SpecTaskResource::Resource { resource, .. } => Set::empty().insert(resource.name),
            _ => Set::<Seq<char>>::empty(),
        }).union(inputs_refs(v.drop_first()))
    }
}

/// The resource names referenced by any job's plan.
pub open spec fn jobs_refs(v: Seq<crate::model::SpecJob>) -> Set<Seq<char>>
    decreases v,
{
    if v.len() == 0 {
        Set::empty()
    } else {
        steps_refs(v[0].plan).union(jobs_refs(v.drop_first()))
    }
}

/// Every fetch step in the tree makes its resource available under the
/// resource's own name: its alias is empty or coincides with that name. An
/// aliased fetch puts only the alias in scope, so a later binding of a
/// different resource that happens to bear that name would be treated as
/// available and never declared; the completeness statement below leaves
/// those pipelines out.
pub open spec fn step_fetches_plain(s: SpecStep) -> bool
    decreases s,
{
    match s {
        SpecStep::Get(g) => g.get.len() == 0 || g.get == g.resource.name,
        SpecStep::Put(_) => true,
        SpecStep::Task(_) => true,
        SpecStep::Try(inner) => step_fetches_plain(*inner),
        SpecStep::InParallel(ip) => match ip {
            crate::model::SpecInParallel::Steps(children) => steps_fetches_plain(children),
            crate::model::SpecInParallel::InParallelConfig { .. } => true,
        },
    }
}

/// Every fetch step of the sequence is plain.
pub open spec fn steps_fetches_plain(v: Seq<SpecStep>) -> bool
    decreases v,
{
    v.len() == 0 || (step_fetches_plain(v[0]) && steps_fetches_plain(v.drop_first()))
}

/// Every fetch step of every job is plain.
pub open spec fn jobs_fetches_plain(v: Seq<crate::model::SpecJob>) -> bool
    decreases v,
{
    v.len() == 0 || (steps_fetches_plain(v[0].plan) && jobs_fetches_plain(v.drop_first()))
}

/// Walking one declared input discovers exactly its referenced name, given
/// that every name in scope was already discovered.
proof fn lemma_refs_input_one(
    inp: SpecTaskResource,
    scope: Set<Seq<char>>,
    disc: Seq<SpecResource>,
)
    requires
        forall|n: Seq<char>| scope.contains(n) ==> disc_has(disc, n),
    ensures
        ({
            let out = rewrite_input_one(inp, scope, disc);
            &&& forall|n: Seq<char>| disc_has(out.1, n) <==> disc_has(disc, n) || (match inp {
                SpecTaskResource::Resource { resource, .. } => n == resource.name,
                _ => false,
            })
            &&& forall|n: Seq<char>| out.0.contains(n) ==> disc_has(out.1, n)
        }),
{
    match inp {
        SpecTaskResource::Resource { resource, .. } => {
            if scope.contains(resource.name) {
                assert(disc_has(disc, resource.name));
            } else {
                lemma_discovery_complete(disc, resource);
            }
        }
        _ => {}
    }
}

/// Walking a task's declared inputs discovers exactly their referenced
/// names, given that every name in scope was already discovered.
proof fn lemma_refs_inputs(
    inputs: Seq<SpecTaskResource>,
    scope: Set<Seq<char>>,
    disc: Seq<SpecResource>,
)
    requires
        forall|n: Seq<char>| scope.contains(n) ==> disc_has(disc, n),
    ensures
        ({
            let out = rewrite_inputs(inputs, scope, disc);
            &&& forall|n: Seq<char>| disc_has(out.1, n) <==> disc_has(disc, n)
                || inputs_refs(inputs).contains(n)
            &&& forall|n: Seq<char>| out.0.contains(n) ==> disc_has(out.1, n)
        }),
    decreases inputs.len(),
{
    if inputs.len() > 0 {
        let one = rewrite_input_one(inputs[0], scope, disc);
        lemma_refs_input_one(inputs[0], scope, disc);
        lemma_refs_inputs(inputs.drop_first(), one.0, one.1);
        let rest = rewrite_inputs(inputs.drop_first(), one.0, one.1);
        let out = rewrite_inputs(inputs, scope, disc);
        assert(out.1 == rest.1);
        assert(out.0 == rest.0);
        let head = (match inputs[0] {
            SpecTaskResource::Resource { resource, .. } => Set::empty().insert(resource.name),
            _ => Set::<Seq<char>>::empty(),
        });
        assert(inputs_refs(inputs) == head.union(inputs_refs(inputs.drop_first())));
        assert forall|n: Seq<char>| disc_has(out.1, n) <==> disc_has(disc, n) || inputs_refs(
            inputs,
        ).contains(n) by {
            assert(disc_has(rest.1, n) <==> disc_has(one.1, n) || inputs_refs(
                inputs.drop_first(),
            ).contains(n));
            assert(disc_has(one.1, n) <==> disc_has(disc, n) || (match inputs[0] {
                SpecTaskResource::Resource { resource, .. } => n == resource.name,
                _ => false,
            }));
            assert(inputs_refs(inputs).contains(n) <==> head.contains(n) || inputs_refs(
                inputs.drop_first(),
            ).contains(n));
        }
    }
}

/// Rewriting a task discovers exactly the names it references, given that
/// every name in scope was already discovered.
proof fn lemma_refs_task(t: SpecTask, scope: Set<Seq<char>>, disc: Seq<SpecResource>)
    requires
        forall|n: Seq<char>| scope.contains(n) ==> disc_has(disc, n),
    ensures
        ({
            let out = rewrite_task(t, scope, disc);
            &&& forall|n: Seq<char>| disc_has(out.1, n) <==> disc_has(disc, n) || step_refs(
                SpecStep::Task(t),
            ).contains(n)
            &&& forall|n: Seq<char>| out.0.contains(n) ==> disc_has(out.1, n)
        }),
{
    let inputs = (match t.inputs {
        Some(v) => v,
        None => Seq::<SpecTaskResource>::empty(),
    });
    lemma_refs_inputs(inputs, scope, disc);
    let folded = rewrite_inputs(inputs, scope, disc);
    assert(forall|m: Seq<char>| disc_has(folded.1, m) <==> disc_has(disc, m) || inputs_refs(
        inputs,
    ).contains(m));
    let s1 = folded.0;
    let d1 = folded.1;
    let out = rewrite_task(t, scope, disc);
    let image_set = (match t.image {
        Some(img) => Set::empty().insert(img.name),
        None => Set::<Seq<char>>::empty(),
    });
    assert(step_refs(SpecStep::Task(t)) == inputs_refs(inputs).union(image_set));
    match t.image {
        Some(img) => {
            if s1.contains(img.name) {
                assert(out.1 == d1);
                assert(out.0 == s1);
                assert(disc_has(d1, img.name));
                assert forall|n: Seq<char>| disc_has(out.1, n) <==> disc_has(disc, n)
                    || step_refs(SpecStep::Task(t)).contains(n) by {
                    assert(disc_has(d1, n) <==> disc_has(disc, n) || inputs_refs(inputs).contains(
                        n,
                    ));
                }
            } else {
                lemma_discovery_complete(d1, img);
                assert(out.1 == disc_insert(d1, img));
                assert(out.0 == s1.insert(img.name));
                assert forall|n: Seq<char>| disc_has(out.1, n) <==> disc_has(disc, n)
                    || step_refs(SpecStep::Task(t)).contains(n) by {
                    assert(disc_has(out.1, n) <==> disc_has(d1, n) || n == img.name);
                    assert(disc_has(d1, n) <==> disc_has(disc, n) || inputs_refs(inputs).contains(
                        n,
                    ));
                }
                assert forall|n: Seq<char>| out.0.contains(n) implies disc_has(out.1, n) by {
                    if n == img.name {
                        assert(disc_has(out.1, n));
                    } else {
                        assert(s1.contains(n));
                        assert(disc_has(d1, n));
                        assert(disc_has(out.1, n));
                    }
                }
            }
        }
        None => {
            assert(out.1 == d1);
            assert(out.0 == s1);
            assert forall|n: Seq<char>| disc_has(out.1, n) <==> disc_has(disc, n) || step_refs(
                SpecStep::Task(t),
            ).contains(n) by {
                assert(disc_has(d1, n) <==> disc_has(disc, n) || inputs_refs(inputs).contains(n));
            }
        }
    }
}

/// Rewriting a step discovers exactly the names it references, given plain
/// fetch aliases and that every name in scope was already discovered.
proof fn lemma_refs_step(s: SpecStep, scope: Set<Seq<char>>, disc: Seq<SpecResource>)
    requires
        step_fetches_plain(s),
        forall|n: Seq<char>| scope.contains(n) ==> disc_has(disc, n),
    ensures
        ({
            let out = crate::cook::rewrite_step(s, scope, disc);
            &&& forall|n: Seq<char>| disc_has(out.1, n) <==> disc_has(disc, n) || step_refs(
                s,
            ).contains(n)
            &&& forall|n: Seq<char>| out.0.contains(n) ==> disc_has(out.1, n)
        }),
    decreases s,
{
    let out = crate::cook::rewrite_step(s, scope, disc);
    match s {
        SpecStep::Get(g) => {
            lemma_discovery_complete(disc, g.resource);
            assert(crate::cook::scope_key(g) == g.resource.name);
            assert(step_refs(s) == Set::empty().insert(g.resource.name));
        }
        SpecStep::Put(_) => {}
        SpecStep::Task(t) => {
            lemma_refs_task(t, scope, disc);
            assert(out.0 == rewrite_task(t, scope, disc).0);
            assert(out.1 == rewrite_task(t, scope, disc).1);
            assert(step_refs(s) == step_refs(SpecStep::Task(t)));
        }
        SpecStep::Try(inner) => {
            lemma_refs_step(*inner, scope, disc);
            assert(out.0 == crate::cook::rewrite_step(*inner, scope, disc).0);
            assert(out.1 == crate::cook::rewrite_step(*inner, scope, disc).1);
            assert(step_refs(s) == step_refs(*inner));
        }
        SpecStep::InParallel(ip) => match ip {
            crate::model::SpecInParallel::Steps(children) => {
                lemma_refs_par(children, scope, disc);
                assert(out.0 == crate::cook::rewrite_par(children, scope, disc).0);
                assert(out.1 == crate::cook::rewrite_par(children, scope, disc).1);
                assert(step_refs(s) == steps_refs(children));
            }
            crate::model::SpecInParallel::InParallelConfig { .. } => {}
        },
    }
}

/// Rewriting the siblings of a concurrent group discovers exactly the names
/// they reference; each sibling starts from the empty scope, and the merged
/// scope holds only discovered names.
proof fn lemma_refs_par(children: Seq<SpecStep>, scope: Set<Seq<char>>, disc: Seq<SpecResource>)
    requires
        steps_fetches_plain(children),
        forall|n: Seq<char>| scope.contains(n) ==> disc_has(disc, n),
    ensures
        ({
            let out = crate::cook::rewrite_par(children, scope, disc);
            &&& forall|n: Seq<char>| disc_has(out.1, n) <==> disc_has(disc, n) || steps_refs(
                children,
            ).contains(n)
            &&& forall|n: Seq<char>| out.0.contains(n) ==> disc_has(out.1, n)
        }),
    decreases children,
{
    if children.len() > 0 {
        let (cs, d1, _, _) = crate::cook::rewrite_step(children[0], Set::empty(), disc);
        lemma_refs_step(children[0], Set::empty(), disc);
        assert forall|n: Seq<char>| scope.union(cs).contains(n) implies disc_has(d1, n) by {
            if scope.contains(n) {
                assert(disc_has(disc, n));
            }
        }
        lemma_refs_par(children.drop_first(), scope.union(cs), d1);
        let rest = crate::cook::rewrite_par(children.drop_first(), scope.union(cs), d1);
        let out = crate::cook::rewrite_par(children, scope, disc);
        assert(out.0 == rest.0);
        assert(out.1 == rest.1);
        assert(steps_refs(children) == step_refs(children[0]).union(steps_refs(
            children.drop_first(),
        )));
        assert forall|n: Seq<char>| disc_has(out.1, n) <==> disc_has(disc, n) || steps_refs(
            children,
        ).contains(n) by {
            assert(disc_has(rest.1, n) <==> disc_has(d1, n) || steps_refs(
                children.drop_first(),
            ).contains(n));
            assert(disc_has(d1, n) <==> disc_has(disc, n) || step_refs(children[0]).contains(n));
            assert(steps_refs(children).contains(n) <==> step_refs(children[0]).contains(n)
                || steps_refs(children.drop_first()).contains(n));
        }
    }
}

/// Rewriting a plan discovers exactly the names it references.
proof fn lemma_refs_plan(plan: Seq<SpecStep>, scope: Set<Seq<char>>, disc: Seq<SpecResource>)
    requires
        steps_fetches_plain(plan),
        forall|n: Seq<char>| scope.contains(n) ==> disc_has(disc, n),
    ensures
        ({
            let out = crate::cook::rewrite_plan(plan, scope, disc);
            &&& forall|n: Seq<char>| disc_has(out.1, n) <==> disc_has(disc, n) || steps_refs(
                plan,
            ).contains(n)
            &&& forall|n: Seq<char>| out.0.contains(n) ==> disc_has(out.1, n)
        }),
    decreases plan,
{
    if plan.len() > 0 {
        let (s1, d1, _, _) = crate::cook::rewrite_step(plan[0], scope, disc);
        lemma_refs_step(plan[0], scope, disc);
        lemma_refs_plan(plan.drop_first(), s1, d1);
        let rest = crate::cook::rewrite_plan(plan.drop_first(), s1, d1);
        let out = crate::cook::rewrite_plan(plan, scope, disc);
        assert(out.0 == rest.0);
        assert(out.1 == rest.1);
        assert(steps_refs(plan) == step_refs(plan[0]).union(steps_refs(plan.drop_first())));
        assert forall|n: Seq<char>| disc_has(out.1, n) <==> disc_has(disc, n) || steps_refs(
            plan,
        ).contains(n) by {
            assert(disc_has(rest.1, n) <==> disc_has(d1, n) || steps_refs(
                plan.drop_first(),
            ).contains(n));
            assert(disc_has(d1, n) <==> disc_has(disc, n) || step_refs(plan[0]).contains(n));
            assert(steps_refs(plan).contains(n) <==> step_refs(plan[0]).contains(n) || steps_refs(
                plan.drop_first(),
            ).contains(n));
        }
    }
}

/// Rewriting every job discovers exactly the names their plans reference.
/// The per-name reading of `lemma_refs_plan`.
proof fn lemma_refs_plan_at(
    plan: Seq<SpecStep>,
    scope: Set<Seq<char>>,
    disc: Seq<SpecResource>,
    n: Seq<char>,
)
    requires
        steps_fetches_plain(plan),
        forall|m: Seq<char>| scope.contains(m) ==> disc_has(disc, m),
    ensures
        disc_has(crate::cook::rewrite_plan(plan, scope, disc).1, n) <==> disc_has(disc, n)
            || steps_refs(plan).contains(n),
{
    lemma_refs_plan(plan, scope, disc);
    let out = crate::cook::rewrite_plan(plan, scope, disc);
    assert(forall|m: Seq<char>| disc_has(out.1, m) <==> disc_has(disc, m) || steps_refs(
        plan,
    ).contains(m));
}

#[verifier::rlimit(60)]
#[verifier::spinoff_prover]
proof fn lemma_refs_jobs(jobs: Seq<crate::model::SpecJob>, disc: Seq<SpecResource>)
    requires
        jobs_fetches_plain(jobs),
    ensures
        forall|n: Seq<char>| disc_has(crate::cook::rewrite_jobs(jobs, disc).0, n) <==> disc_has(
            disc,
            n,
        ) || jobs_refs(jobs).contains(n),
    decreases jobs,
{
    if jobs.len() > 0 {
        lemma_refs_plan(jobs[0].plan, Set::empty(), disc);
        let first = crate::cook::rewrite_plan(jobs[0].plan, Set::empty(), disc);
        assert(forall|m: Seq<char>| disc_has(first.1, m) <==> disc_has(disc, m) || steps_refs(
            jobs[0].plan,
        ).contains(m));
        let d1 = first.1;
        lemma_refs_jobs(jobs.drop_first(), d1);
        let out = crate::cook::rewrite_jobs(jobs, disc);
        assert(out.0 == crate::cook::rewrite_jobs(jobs.drop_first(), d1).0);
        assert(jobs_refs(jobs) == steps_refs(jobs[0].plan).union(jobs_refs(jobs.drop_first())));
        assert forall|n: Seq<char>| disc_has(out.0, n) <==> disc_has(disc, n) || jobs_refs(
            jobs,
        ).contains(n) by {
            assert(disc_has(crate::cook::rewrite_jobs(jobs.drop_first(), d1).0, n) <==> disc_has(
                d1,
                n,
            ) || jobs_refs(jobs.drop_first()).contains(n));
            lemma_refs_plan_at(jobs[0].plan, Set::empty(), disc, n);
            assert(disc_has(first.1, n) <==> disc_has(disc, n) || steps_refs(
                jobs[0].plan,
            ).contains(n));
            assert(jobs_refs(jobs).contains(n) <==> steps_refs(jobs[0].plan).contains(n)
                || jobs_refs(jobs.drop_first()).contains(n));
        }
    }
}

/// Completeness at the whole pipeline: when every fetch alias is absent or
/// coincides with its resource's own name, the cooked resource collection
/// holds a resource under a name exactly when some job's plan references
/// that name — via a fetch step, a bound task input, or a task's image —
/// and, by `lemma_cooked_resources_unique`, holds it exactly once.
#[verifier::rlimit(60)]
#[verifier::spinoff_prover]
pub proof fn lemma_discovery_exact(p: SpecPipeline)
    requires
        jobs_fetches_plain(p.jobs),
    ensures
        forall|n: Seq<char>| disc_has(spec_cook(p).resources, n) <==> jobs_refs(p.jobs).contains(n),
{
    lemma_refs_jobs(p.jobs, Seq::empty());
    assert(spec_cook(p).resources == crate::cook::rewrite_jobs(p.jobs, Seq::empty()).0);
    assert(forall|m: Seq<char>| disc_has(crate::cook::rewrite_jobs(p.jobs, Seq::empty()).0, m)
        <==> disc_has(Seq::empty(), m) || jobs_refs(p.jobs).contains(m));
    assert forall|n: Seq<char>| disc_has(spec_cook(p).resources, n) <==> jobs_refs(
        p.jobs,
    ).contains(n) by {
        assert(disc_index(Seq::<SpecResource>::empty(), n) == -1);
        assert(!disc_has(Seq::<SpecResource>::empty(), n));
        assert(disc_has(crate::cook::rewrite_jobs(p.jobs, Seq::empty()).0, n) <==> disc_has(
            Seq::empty(),
            n,
        ) || jobs_refs(p.jobs).contains(n));
    }
}


/// Rewriting a step keeps every name that was in scope and makes every name
/// the step references available, given plain fetch aliases.
proof fn lemma_scope_collects_step(s: SpecStep, scope: Set<Seq<char>>, disc: Seq<SpecResource>)
    requires
        step_fetches_plain(s),
    ensures
        forall|n: Seq<char>| scope.contains(n) || step_refs(s).contains(n)
            ==> crate::cook::rewrite_step(s, scope, disc).0.contains(n),
    decreases s,
{
    let out = crate::cook::rewrite_step(s, scope, disc);
    match s {
        SpecStep::Get(g) => {
            assert(crate::cook::scope_key(g) == g.resource.name);
            assert(step_refs(s) == Set::empty().insert(g.resource.name));
        }
        SpecStep::Put(_) => {}
        SpecStep::Task(t) => {
            lemma_scope_collects_task(t, scope, disc);
        }
        SpecStep::Try(inner) => {
            lemma_scope_collects_step(*inner, scope, disc);
            assert(out.0 == crate::cook::rewrite_step(*inner, scope, disc).0);
            assert(step_refs(s) == step_refs(*inner));
        }
        SpecStep::InParallel(ip) => match ip {
            crate::model::SpecInParallel::Steps(children) => {
                lemma_scope_collects_par(children, scope, disc);
                assert(out.0 == crate::cook::rewrite_par(children, scope, disc).0);
                assert(step_refs(s) == steps_refs(children));
            }
            crate::model::SpecInParallel::InParallelConfig { .. } => {}
        },
    }
}

/// Walking one declared input keeps the scope and makes a bound resource's
/// name available.
proof fn lemma_scope_collects_input_one(
    inp: SpecTaskResource,
    scope: Set<Seq<char>>,
    disc: Seq<SpecResource>,
)
    ensures
        forall|n: Seq<char>| scope.contains(n) || (match inp {
            SpecTaskResource::Resource { resource, .. } => n == resource.name,
            _ => false,
        }) ==> rewrite_input_one(inp, scope, disc).0.contains(n),
{
}

/// Walking a task's declared inputs keeps the scope and makes every bound
/// resource's name available.
proof fn lemma_scope_collects_inputs(
    inputs: Seq<SpecTaskResource>,
    scope: Set<Seq<char>>,
    disc: Seq<SpecResource>,
)
    ensures
        forall|n: Seq<char>| scope.contains(n) || inputs_refs(inputs).contains(n)
            ==> rewrite_inputs(inputs, scope, disc).0.contains(n),
    decreases inputs.len(),
{
    if inputs.len() > 0 {
        let one = rewrite_input_one(inputs[0], scope, disc);
        lemma_scope_collects_input_one(inputs[0], scope, disc);
        lemma_scope_collects_inputs(inputs.drop_first(), one.0, one.1);
        let head = (match inputs[0] {
            SpecTaskResource::Resource { resource, .. } => Set::empty().insert(resource.name),
            _ => Set::<Seq<char>>::empty(),
        });
        assert(inputs_refs(inputs) == head.union(inputs_refs(inputs.drop_first())));
        let out = rewrite_inputs(inputs, scope, disc);
        assert(out.0 == rewrite_inputs(inputs.drop_first(), one.0, one.1).0);
        assert forall|n: Seq<char>| scope.contains(n) || inputs_refs(inputs).contains(n)
            implies out.0.contains(n) by {
            if scope.contains(n) || head.contains(n) {
                assert(one.0.contains(n));
            } else {
                assert(inputs_refs(inputs.drop_first()).contains(n));
            }
        }
    }
}

/// Rewriting a task keeps the scope and makes every name it references
/// available.
proof fn lemma_scope_collects_task(t: SpecTask, scope: Set<Seq<char>>, disc: Seq<SpecResource>)
    ensures
        forall|n: Seq<char>| scope.contains(n) || step_refs(SpecStep::Task(t)).contains(n)
            ==> rewrite_task(t, scope, disc).0.contains(n),
{
    let inputs = (match t.inputs {
        Some(v) => v,
        None => Seq::<SpecTaskResource>::empty(),
    });
    lemma_scope_collects_inputs(inputs, scope, disc);
    let folded = rewrite_inputs(inputs, scope, disc);
    let s1 = folded.0;
    let out = rewrite_task(t, scope, disc);
    let image_set = (match t.image {
        Some(img) => Set::empty().insert(img.name),
        None => Set::<Seq<char>>::empty(),
    });
    assert(step_refs(SpecStep::Task(t)) == inputs_refs(inputs).union(image_set));
    assert forall|n: Seq<char>| scope.contains(n) || step_refs(SpecStep::Task(t)).contains(n)
        implies out.0.contains(n) by {
        if scope.contains(n) || inputs_refs(inputs).contains(n) {
            assert(s1.contains(n));
        } else {
            assert(image_set.contains(n));
        }
    }
}

/// Rewriting the siblings of a concurrent group merges into the surrounding
/// scope everything it held before plus every name any sibling references.
proof fn lemma_scope_collects_par(
    children: Seq<SpecStep>,
    scope: Set<Seq<char>>,
    disc: Seq<SpecResource>,
)
    requires
        steps_fetches_plain(children),
    ensures
        forall|n: Seq<char>| scope.contains(n) || steps_refs(children).contains(n)
            ==> crate::cook::rewrite_par(children, scope, disc).0.contains(n),
    decreases children,
{
    if children.len() > 0 {
        let (cs, d1, _, _) = crate::cook::rewrite_step(children[0], Set::empty(), disc);
        lemma_scope_collects_step(children[0], Set::empty(), disc);
        lemma_scope_collects_par(children.drop_first(), scope.union(cs), d1);
        let out = crate::cook::rewrite_par(children, scope, disc);
        assert(out.0 == crate::cook::rewrite_par(children.drop_first(), scope.union(cs), d1).0);
        assert(steps_refs(children) == step_refs(children[0]).union(steps_refs(
            children.drop_first(),
        )));
        assert forall|n: Seq<char>| scope.contains(n) || steps_refs(children).contains(n)
            implies out.0.contains(n) by {
            if step_refs(children[0]).contains(n) {
                assert(cs.contains(n));
                assert(scope.union(cs).contains(n));
            } else if scope.contains(n) {
                assert(scope.union(cs).contains(n));
            } else {
                assert(steps_refs(children.drop_first()).contains(n));
            }
        }
    }
}

/// Parallel isolation, the merge half: after a concurrent group is
/// rewritten, every resource name any of its siblings references is
/// available in the surrounding scope — so, by `lemma_no_duplicate_fetch`, a
/// later step in the same sequential scope queues no further fetch of it.
/// The per-name reading of `lemma_scope_collects_par`.
proof fn lemma_scope_collects_par_at(
    children: Seq<SpecStep>,
    scope: Set<Seq<char>>,
    disc: Seq<SpecResource>,
    n: Seq<char>,
)
    requires
        steps_fetches_plain(children),
        scope.contains(n) || steps_refs(children).contains(n),
    ensures
        crate::cook::rewrite_par(children, scope, disc).0.contains(n),
{
    lemma_scope_collects_par(children, scope, disc);
    let out = crate::cook::rewrite_par(children, scope, disc);
    assert(forall|m: Seq<char>| scope.contains(m) || steps_refs(children).contains(m)
        ==> out.0.contains(m));
}

#[verifier::rlimit(60)]
#[verifier::spinoff_prover]
pub proof fn lemma_parallel_merge(
    children: Seq<SpecStep>,
    scope: Set<Seq<char>>,
    disc: Seq<SpecResource>,
    i: int,
    n: Seq<char>,
)
    requires
        steps_fetches_plain(children),
        0 <= i < children.len(),
        step_refs(children[i]).contains(n),
    ensures
        crate::cook::rewrite_step(
            SpecStep::InParallel(crate::model::SpecInParallel::Steps(children)),
            scope,
            disc,
        ).0.contains(n),
{
    lemma_steps_refs_member(children, i, n);
    lemma_scope_collects_par_at(children, scope, disc, n);
    let group = SpecStep::InParallel(crate::model::SpecInParallel::Steps(children));
    assert(crate::cook::rewrite_step(group, scope, disc).0 == crate::cook::rewrite_par(
        children,
        scope,
        disc,
    ).0);
}

/// A name referenced by one step of a sequence is referenced by the
/// sequence.
proof fn lemma_steps_refs_member(children: Seq<SpecStep>, i: int, n: Seq<char>)
    requires
        0 <= i < children.len(),
        step_refs(children[i]).contains(n),
    ensures
        steps_refs(children).contains(n),
    decreases i,
{
    assert(steps_refs(children) == step_refs(children[0]).union(steps_refs(
        children.drop_first(),
    )));
    if i > 0 {
        assert(children.drop_first()[i - 1] == children[i]);
        lemma_steps_refs_member(children.drop_first(), i - 1, n);
    }
}


/// An explicit fetch followed by a task binding the same resource is kept
/// as those two steps, unchanged and in order: the fetch makes the name
/// available, so the task queues nothing, keeps its inline config, and the
/// fetch keeps its own fields — its trigger flag among them.
pub proof fn lemma_explicit_fetch_satisfies_task(
    g: crate::model::SpecGet,
    t: SpecTask,
    binding: SpecTaskResource,
    disc: Seq<SpecResource>,
)
    requires
        g.get.len() == 0 || g.get == g.resource.name,
        t.inputs == Some(seq![binding]),
        binding matches SpecTaskResource::Resource { resource, .. }
            && resource.name == g.resource.name,
        t.outputs is None,
        t.image is None,
    ensures
        crate::cook::rewrite_plan(
            seq![SpecStep::Get(g), SpecStep::Task(t)],
            Set::empty(),
            disc,
        ).2 == seq![SpecStep::Get(g), SpecStep::Task(t)],
{
    reveal_with_fuel(crate::cook::rewrite_plan, 4);
    reveal_with_fuel(rewrite_inputs, 3);
    let plan = seq![SpecStep::Get(g), SpecStep::Task(t)];
    let first = crate::cook::rewrite_step(plan[0], Set::empty(), disc);
    assert(crate::cook::scope_key(g) == g.resource.name);
    assert(first.0 == Set::<Seq<char>>::empty().insert(g.resource.name));
    assert(first.2 == Seq::<SpecStep>::empty());
    let second = crate::cook::rewrite_step(plan[1], first.0, first.1);
    let inputs = t.inputs.unwrap();
    assert(inputs.len() == 1);
    assert(inputs[0] == binding);
    let one = rewrite_input_one(inputs[0], first.0, first.1);
    assert(first.0.contains(g.resource.name));
    assert(one.2 == Seq::<SpecStep>::empty());
    assert(one.3 == Seq::<crate::model::SpecInput>::empty());
    assert(inputs.drop_first() =~= Seq::<SpecTaskResource>::empty());
    let folded = rewrite_inputs(inputs, first.0, first.1);
    assert(folded.2 =~= Seq::<SpecStep>::empty());
    assert(folded.3 =~= Seq::<crate::model::SpecInput>::empty());
    let adjusted = rewrite_task(t, first.0, first.1).3;
    assert(crate::cook::rewrite_outputs(Seq::empty()) == Seq::<crate::model::SpecOutput>::empty());
    assert(adjusted.task_def == t.task_def);
    assert(adjusted == t);
    assert(second.2 == Seq::<SpecStep>::empty());
    assert(second.3 == SpecStep::Task(t));
    let rest = crate::cook::rewrite_plan(plan.drop_first(), first.0, first.1);
    assert(plan.drop_first() =~= seq![SpecStep::Task(t)]);
    assert(plan.drop_first().drop_first() =~= Seq::<SpecStep>::empty());
    let out = crate::cook::rewrite_plan(plan, Set::empty(), disc);
    assert(out.2 == crate::cook::replaced(first.2, first.3) + rest.2);
    assert(crate::cook::replaced(first.2, first.3) == seq![SpecStep::Get(g)]);
    assert(rest.2 =~= crate::cook::replaced(second.2, second.3)
        + Seq::<SpecStep>::empty());
    assert(crate::cook::replaced(second.2, second.3) == seq![SpecStep::Task(t)]);
    assert(out.2 =~= seq![SpecStep::Get(g), SpecStep::Task(t)]);
}

} // verus!
