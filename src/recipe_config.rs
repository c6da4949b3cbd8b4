use vstd::prelude::*;
use crate::multi_extract::{all_error_texts, all_ok_rows, multi_extract, texts_view, ExtractError};
use crate::pipeline::{select, Pipeline};
use crate::registry::{
    filter_named, transform_named, transform_user, users_view, valid_flags, FilterFn, TransformFn,
};
use crate::user::{user_of, User, UserView};

verus! {

/// A named run: where the rows come from, the steps applied to them, and
/// where the result goes.
#[derive(Debug)]
pub struct RecipeConfig {
    pub name: String,
    pub source: SourceConfig,
    pub steps: Vec<StepConfig>,
    pub output: OutputConfig,
}

#[derive(Debug, Clone, Copy, PartialEq, Eq, Structural)]
pub enum FormatFile {
    CSV,
    JSON,
    SQLITE,
}

#[derive(Debug)]
pub struct SourceConfig {
    pub format: FormatFile,
    pub path: Vec<String>,
}

/// One step: `action` is "transform" or "filter", `value` the operation's name.
#[derive(Debug)]
pub struct StepConfig {
    pub action: String,
    pub value: String,
}

#[derive(Debug)]
pub struct OutputConfig {
    pub format: FormatFile,
    pub path: String,
}

/// Why a configured run could not produce a pipeline.
#[derive(Debug, Clone, PartialEq, Eq)]
pub enum ConfigError {
    /// Extraction could not start.
    Extract(ExtractError),
    /// The configuration has no step.
    NoSteps,
    /// The first step names no known transform; the name is given.
    UnknownTransform(String),
}

pub open spec fn step_view(s: StepConfig) -> (Seq<char>, Seq<char>) {
    (s.action@, s.value@)
}

/// The entities of a run with its transformed and filtered counts.
pub struct RunView {
    pub users: Seq<UserView>,
    pub transformed: nat,
    pub filtered: nat,
}

/// What one later step does: a known transform maps every entity and sets
/// the transformed count, a known filter keeps the valid entities and sets
/// the filtered count; an unknown name or action changes nothing.
pub open spec fn step_run(step: (Seq<char>, Seq<char>), st: RunView) -> RunView {
    if step.0 == "transform"@ {
        match transform_named(step.1) {
            Some(t) => RunView {
                users: st.users.map_values(|u: UserView| transform_user(t, u)),
                transformed: st.users.len(),
                ..st
            },
            None => st,
        }
    } else if step.0 == "filter"@ {
        match filter_named(step.1) {
            Some(_) => {
                let kept = select(st.users, valid_flags(st.users));
                RunView { users: kept, filtered: kept.len(), ..st }
            },
            None => st,
        }
    } else {
        st
    }
}

/// The steps applied one after the other.
pub open spec fn run_steps(steps: Seq<(Seq<char>, Seq<char>)>, st: RunView) -> RunView
    decreases steps.len(),
{
    if steps.len() == 0 {
        st
    } else {
        step_run(steps.last(), run_steps(steps.drop_last(), st))
    }
}

/// The view of a pipeline of entities as a run.
pub open spec fn run_of(p: Pipeline<User>) -> RunView {
    RunView { users: users_view(p.data@), transformed: p.stats@.transformed, filtered: p.stats@.filtered }
}

/// The run that the first step starts from: every parsed row turned into an
/// entity, all of them counted as transformed, none yet as filtered.
pub open spec fn first_run(texts: Seq<Seq<u8>>) -> RunView {
    let users = all_ok_rows(texts).map_values(|f: Seq<Seq<char>>| user_of(f));
    RunView { users, transformed: users.len(), filtered: 0 }
}

/// No later step names the row-only transform.
pub open spec fn later_steps_fit(steps: Seq<StepConfig>) -> bool {
    forall|i: int|
        1 <= i < steps.len() && (#[trigger] steps[i]).action@ == "transform"@ ==> transform_named(
            steps[i].value@,
        ) != Some(TransformFn::GenerateUser)
}

/// The first step, where it names a transform, names the row transform.
pub open spec fn first_step_fits(steps: Seq<StepConfig>) -> bool {
    steps.len() > 0 && transform_named(steps[0].value@) is Some ==> transform_named(steps[0].value@)
        == Some(TransformFn::GenerateUser)
}

/// Applies one later step: a known transform or filter, else nothing.
fn execute_step(step: &StepConfig, pipeline: Pipeline<User>) -> (r: Pipeline<User>)
    requires
        step.action@ == "transform"@ ==> transform_named(step.value@) != Some(TransformFn::GenerateUser),
    ensures
        run_of(r) == step_run(step_view(*step), run_of(pipeline)),
        r.stats@.extracted == pipeline.stats@.extracted,
        r.stats@.errors == pipeline.stats@.errors,
{
    proof {
        reveal_strlit("transform");
        reveal_strlit("filter");
    }
    if crate::registry::same_text(step.action.as_str(), "transform") {
        match TransformFn::from_str(step.value.as_str()) {
            Some(t) => {
                let ghost before = run_of(pipeline);
                let r = t.apply_to_user(pipeline);
                assert(run_of(r).users == step_run(step_view(*step), before).users);
                assert(run_of(r).transformed == step_run(step_view(*step), before).transformed);
                r
            },
            None => pipeline,
        }
    } else if crate::registry::same_text(step.action.as_str(), "filter") {
        match FilterFn::from_str(step.value.as_str()) {
            Some(f) => {
                let ghost before = run_of(pipeline);
                let r = f.apply_to_user(pipeline);
                assert(run_of(r).users == step_run(step_view(*step), before).users);
                assert(run_of(r).filtered == step_run(step_view(*step), before).filtered);
                r
            },
            None => pipeline,
        }
    } else {
        pipeline
    }
}

impl RecipeConfig {
    /// Runs the configuration over `sources`, the contents of the files that
    /// `source.path` lists, in that order: extracts them all, applies the
    /// first step, which must name the row transform, then every later step.
    pub fn execute(&self, sources: &[Vec<u8>]) -> (r: Result<Pipeline<User>, ConfigError>)
        requires
            first_step_fits(self.steps@),
            later_steps_fit(self.steps@),
        ensures
            sources@.len() == 0 <==> r == Err::<Pipeline<User>, ConfigError>(
                ConfigError::Extract(ExtractError::NoSources),
            ),
            sources@.len() > 0 && self.steps@.len() == 0 <==> r == Err::<Pipeline<User>, ConfigError>(
                ConfigError::NoSteps,
            ),
            r is Err && r->Err_0 is UnknownTransform <==> sources@.len() > 0 && self.steps@.len() > 0
                && transform_named(self.steps@[0].value@) is None,
            r is Err && r->Err_0 is UnknownTransform ==> r->Err_0->UnknownTransform_0@ == self.steps@[0].value@,
            r is Ok ==> run_of(r->Ok_0) == run_steps(
                self.steps@.map_values(|s: StepConfig| step_view(s)).drop_first(),
                first_run(texts_view(sources@)),
            ),
            r is Ok ==> r->Ok_0.stats@.errors == all_error_texts(texts_view(sources@)),
            r is Ok ==> r->Ok_0.stats@.extracted == all_ok_rows(texts_view(sources@)).len(),
    {
        let records = match multi_extract(sources) {
            Ok(p) => p,
            Err(e) => {
                return Err(ConfigError::Extract(e));
            },
        };
        if self.steps.len() == 0 {
            return Err(ConfigError::NoSteps);
        }
        let first = &self.steps[0];
        let transform_fn = match TransformFn::from_str(first.value.as_str()) {
            Some(t) => t,
            None => {
                return Err(ConfigError::UnknownTransform(first.value.clone()));
            },
        };
        let mut users = transform_fn.apply_to_csv(records);
        let ghost sv = self.steps@.map_values(|s: StepConfig| step_view(s));
        let ghost initial = run_of(users);
        assert(initial == first_run(texts_view(sources@)));
        let mut i: usize = 1;
        while i < self.steps.len()
            invariant
                sv == self.steps@.map_values(|s: StepConfig| step_view(s)),
                1 <= i <= self.steps@.len(),
                later_steps_fit(self.steps@),
                run_of(users) == run_steps(sv.subrange(1, i as int), initial),
                users.stats@.errors == all_error_texts(texts_view(sources@)),
                users.stats@.extracted == all_ok_rows(texts_view(sources@)).len(),
            decreases self.steps@.len() - i,
        {
            assert(sv.subrange(1, i + 1).drop_last() =~= sv.subrange(1, i as int));
            assert(sv.subrange(1, i + 1).last() == step_view(self.steps@[i as int]));
            users = execute_step(&self.steps[i], users);
            i += 1;
        }
        assert(sv.subrange(1, self.steps@.len() as int) =~= sv.drop_first());
        Ok(users)
    }
}

} // verus!
