//! Searching experiments and runs.

use vstd::prelude::*;
use vstd::string::*;
use crate::mlflow::conditions::{
    ExperimentCondition, ExperimentFilter, FieldFilter, RunCondition, experiment_conditions,
    experiment_meets, parse_experiment_filter, parse_run_filter, run_conditions, run_meets,
};
use crate::mlflow::double::Double;
use crate::mlflow::error::{
    ErrorModel, MlflowError, around, invalid_error, not_found_error, outcome, text_around,
};
use crate::mlflow::filter::upper_case;
use crate::mlflow::page::{opt_view, page_limit, page_of, page_start, page_view, paginate};
use crate::mlflow::records::{ExperimentRecord, ExperimentStage, RunLifecycle, RunRecord};
use crate::mlflow::wire::{
    ExperimentModel, ExperimentOut, RunModel, RunOut, experiment_out, experiment_shown, run_out,
    run_shown,
};
use crate::text::ascii::upper_text;
use crate::text::chars::{
    chars_of, lemma_views_push, opt_text, same_text, text_of_range, texts, views,
};
use crate::text::order::{
    comes_before, lemma_text_before_irreflexive, lemma_text_before_total,
    lemma_text_before_transitive, text_before,
};
use crate::text::search::{find_char_back, last_position_of_char};
use crate::text::sort::{
    Ranked, is_ranking, is_sorted, law_stable_sorting, lemma_sorted_map, rank_order, sort_stable,
    stable_sorted,
};
use crate::text::trim::{trim, trimmed};

verus! {

/// A page over the views of its results.
pub open spec fn page_views<T: View>(r: Result<(Vec<T>, Option<String>), MlflowError>) -> Result<
    (Seq<T::V>, Option<Seq<char>>),
    ErrorModel,
> {
    match r {
        Ok((items, next)) => Ok((views(items@), opt_text(next))),
        Err(e) => Err(e@),
    }
}

proof fn lemma_page_views<T: View>(
    r: Result<(Vec<T>, Option<String>), MlflowError>,
    items: Seq<T>,
    max_results: Option<u32>,
    token: Option<Seq<char>>,
)
    requires
        page_view(r) == page_of(items, max_results, token),
    ensures
        page_views(r) == page_of(views(items), max_results, token),
{
    if let Ok((page, _)) = r {
        let start = page_start(token)->0;
        let limit = page_limit(max_results);
        if start + limit < items.len() {
            assert(views(page@) =~= views(items).subrange(start as int, (start + limit) as int));
        } else {
            assert(views(page@) =~= views(items).skip(start as int));
        }
    }
}

/// The stage that a view type shows; `None` for all of them.
pub open spec fn viewed_stage(
    view_type: Option<Seq<char>>,
    field: Seq<char>,
) -> Result<Option<bool>, ErrorModel> {
    match view_type {
        None => Ok(Some(false)),
        Some(t) => if t == "ACTIVE_ONLY"@ {
            Ok(Some(false))
        } else if t == "DELETED_ONLY"@ {
            Ok(Some(true))
        } else if t == "ALL"@ {
            Ok(None)
        } else {
            Err(
                invalid_error(
                    "invalid "@ + field + " '"@ + t + "' (ACTIVE_ONLY | DELETED_ONLY | ALL)"@,
                ),
            )
        },
    }
}

/// Whether a view type shows deleted records only, active ones only, or all.
fn read_view_type(view_type: Option<&str>, field: &str) -> (r: Result<Option<bool>, MlflowError>)
    ensures
        outcome(r) == viewed_stage(opt_view(view_type), field@),
{
    match view_type {
        None => Ok(Some(false)),
        Some(t) => if same_text(t, "ACTIVE_ONLY") {
            Ok(Some(false))
        } else if same_text(t, "DELETED_ONLY") {
            Ok(Some(true))
        } else if same_text(t, "ALL") {
            Ok(None)
        } else {
            let mut message: String = "invalid ".to_owned();
            message.append(field);
            message.append(" '");
            message.append(t);
            message.append("' (ACTIVE_ONLY | DELETED_ONLY | ALL)");
            Err(MlflowError::invalid(message))
        },
    }
}

/// A search for experiments: the stage that is shown (`true` for deleted,
/// `None` for any), and the conditions.
#[derive(Debug)]
pub struct ExperimentsQuery {
    pub deleted: Option<bool>,
    pub filters: Vec<ExperimentFilter>,
}

pub struct ExperimentsQueryModel {
    pub deleted: Option<bool>,
    pub conditions: Seq<ExperimentCondition>,
}

impl View for ExperimentsQuery {
    type V = ExperimentsQueryModel;

    open spec fn view(&self) -> ExperimentsQueryModel {
        ExperimentsQueryModel { deleted: self.deleted, conditions: views(self.filters@) }
    }
}

/// The search that a request describes.
pub open spec fn experiments_query(
    view_type: Option<Seq<char>>,
    filter: Option<Seq<char>>,
) -> Result<ExperimentsQueryModel, ErrorModel> {
    match viewed_stage(view_type, "view_type"@) {
        Err(e) => Err(e),
        Ok(deleted) => match filter {
            None => Ok(ExperimentsQueryModel { deleted, conditions: Seq::empty() }),
            Some(f) => match experiment_conditions(f) {
                Err(e) => Err(e),
                Ok(conditions) => Ok(ExperimentsQueryModel { deleted, conditions }),
            },
        },
    }
}

/// Reads a search for experiments.
pub fn read_experiments_query(view_type: Option<&str>, filter: Option<&str>) -> (r: Result<
    ExperimentsQuery,
    MlflowError,
>)
    ensures
        outcome(r) == experiments_query(opt_view(view_type), opt_view(filter)),
{
    let deleted: Option<bool> = match read_view_type(view_type, "view_type") {
        Err(e) => {
            return Err(e);
        },
        Ok(deleted) => deleted,
    };
    let filters: Vec<ExperimentFilter> = match filter {
        None => Vec::new(),
        Some(f) => match parse_experiment_filter(f) {
            Err(e) => {
                return Err(e);
            },
            Ok(filters) => filters,
        },
    };
    proof {
        if filter is None {
            assert(views(filters@) =~= Seq::empty());
        }
    }
    Ok(ExperimentsQuery { deleted, filters })
}

impl ExperimentsQuery {
    /// Whether the search has to see deleted experiments.
    pub fn includes_deleted(&self) -> (r: bool)
        ensures
            r == (self@.deleted != Some(false) || exists|i: int|
                0 <= i < self@.conditions.len() && #[trigger] self@.conditions[i]
                    == ExperimentCondition::Lifecycle(ExperimentStage::Deleted)),
    {
        match self.deleted {
            Some(false) => {},
            _ => {
                return true;
            },
        }
        let mut i: usize = 0;
        while i < self.filters.len()
            invariant
                i <= self.filters@.len(),
                forall|j: int|
                    0 <= j < i ==> #[trigger] self@.conditions[j]
                        != ExperimentCondition::Lifecycle(ExperimentStage::Deleted),
            decreases self.filters@.len() - i,
        {
            assert(self@.conditions[i as int] == self.filters@[i as int]@);
            if let ExperimentFilter::Lifecycle(ExperimentStage::Deleted) = &self.filters[i] {
                return true;
            }
            i += 1;
        }
        false
    }
}

/// The experiment is among the results.
pub open spec fn experiment_selected(
    query: ExperimentsQueryModel,
    record: ExperimentRecord,
) -> bool {
    &&& match query.deleted {
        Some(deleted) => (record.stage is Deleted) == deleted,
        None => true,
    }
    &&& forall|i: int|
        0 <= i < query.conditions.len() ==> #[trigger] experiment_meets(
            query.conditions[i],
            record,
        )
}

/// The results of a search for experiments, in the order of the records.
pub open spec fn experiments_found(
    query: ExperimentsQueryModel,
    records: Seq<ExperimentRecord>,
) -> Seq<ExperimentModel>
    decreases records.len(),
{
    if records.len() == 0 {
        Seq::empty()
    } else if experiment_selected(query, records.last()) {
        experiments_found(query, records.drop_last()).push(experiment_shown(records.last()))
    } else {
        experiments_found(query, records.drop_last())
    }
}

fn selects_experiment(query: &ExperimentsQuery, record: &ExperimentRecord) -> (r: bool)
    ensures
        r == experiment_selected(query@, *record),
{
    if let Some(deleted) = query.deleted {
        let is_deleted: bool = match record.stage {
            ExperimentStage::Deleted => true,
            ExperimentStage::Active => false,
        };
        if is_deleted != deleted {
            return false;
        }
    }
    let mut i: usize = 0;
    while i < query.filters.len()
        invariant
            i <= query.filters@.len(),
            forall|j: int|
                0 <= j < i ==> #[trigger] experiment_meets(query@.conditions[j], *record),
        decreases query.filters@.len() - i,
    {
        assert(query@.conditions[i as int] == query.filters@[i as int]@);
        if !query.filters[i].matches(record) {
            assert(!experiment_meets(query@.conditions[i as int], *record));
            return false;
        }
        i += 1;
    }
    true
}

/// A page of the experiments that a search finds among the records.
pub fn experiments_search(
    query: &ExperimentsQuery,
    records: &Vec<ExperimentRecord>,
    max_results: Option<u32>,
    page_token: Option<&str>,
) -> (r: Result<(Vec<ExperimentOut>, Option<String>), MlflowError>)
    ensures
        page_views(r) == page_of(
            experiments_found(query@, records@),
            max_results,
            opt_view(page_token),
        ),
{
    let mut found: Vec<ExperimentOut> = Vec::new();
    let mut i: usize = 0;
    assert(views(found@) =~= experiments_found(query@, records@.take(0)));
    while i < records.len()
        invariant
            i <= records@.len(),
            views(found@) == experiments_found(query@, records@.take(i as int)),
        decreases records@.len() - i,
    {
        assert(records@.take(i + 1).drop_last() =~= records@.take(i as int));
        if selects_experiment(query, &records[i]) {
            let out: ExperimentOut = experiment_out(&records[i]);
            proof {
                lemma_views_push(found@, out);
            }
            found.push(out);
        }
        i += 1;
    }
    assert(records@.take(i as int) =~= records@);
    let ghost all = found@;
    let r = paginate(found, max_results, page_token);
    proof {
        lemma_page_views(r, all, max_results, opt_view(page_token));
    }
    r
}

/// The first experiment of a name, from index `i` on.
pub open spec fn named_from(
    records: Seq<ExperimentRecord>,
    name: Seq<char>,
    i: int,
) -> Option<ExperimentRecord>
    decreases records.len() - i,
{
    if i < 0 || i >= records.len() {
        None
    } else if records[i].name@ == name {
        Some(records[i])
    } else {
        named_from(records, name, i + 1)
    }
}

/// What a request for an experiment by its name is answered.
pub open spec fn experiment_by_name(records: Seq<ExperimentRecord>, name: Seq<char>) -> Result<
    ExperimentModel,
    ErrorModel,
> {
    if name.len() == 0 {
        Err(invalid_error("experiment_name must not be empty"@))
    } else {
        match named_from(records, name, 0) {
            Some(record) => Ok(experiment_shown(record)),
            None => Err(
                not_found_error(around("Could not find experiment with name '"@, name, "'"@)),
            ),
        }
    }
}

/// Finds an experiment by its name, deleted or not.
pub fn experiments_get_by_name(records: &Vec<ExperimentRecord>, name: &str) -> (r: Result<
    ExperimentOut,
    MlflowError,
>)
    ensures
        outcome(r) == experiment_by_name(records@, name@),
{
    if name.unicode_len() == 0 {
        return Err(MlflowError::invalid("experiment_name must not be empty".to_owned()));
    }
    let mut i: usize = 0;
    while i < records.len()
        invariant
            i <= records@.len(),
            name@.len() > 0,
            named_from(records@, name@, 0) == named_from(records@, name@, i as int),
        decreases records@.len() - i,
    {
        if same_text(records[i].name.as_str(), name) {
            return Ok(experiment_out(&records[i]));
        }
        i += 1;
    }
    Err(
        MlflowError::not_found(
            text_around("Could not find experiment with name '", name, "'"),
        ),
    )
}

/// A search for runs: the stage that is shown (`true` for deleted, `None` for
/// any), the conditions, and the order of the start times.
#[derive(Debug)]
pub struct RunsQuery {
    pub deleted: Option<bool>,
    pub filters: Vec<FieldFilter>,
    pub descending: bool,
}

pub struct RunsQueryModel {
    pub deleted: Option<bool>,
    pub conditions: Seq<RunCondition>,
    pub descending: bool,
}

impl View for RunsQuery {
    type V = RunsQueryModel;

    open spec fn view(&self) -> RunsQueryModel {
        RunsQueryModel {
            deleted: self.deleted,
            conditions: views(self.filters@),
            descending: self.descending,
        }
    }
}

/// Whether an order clause asks for the newest first.
pub open spec fn order_clause(given: Seq<char>) -> Result<bool, ErrorModel> {
    let clause = trim(given);
    match find_char_back(clause, ' ', clause.len() as int) {
        None => Err(invalid_error(around("invalid order_by '"@, clause, "'"@))),
        Some(k) => {
            let field = trim(clause.take(k));
            let direction = upper_text(trim(clause.skip(k + 1)));
            if field == "attributes.start_time"@ && direction == "ASC"@ {
                Ok(false)
            } else if field == "attributes.start_time"@ && direction == "DESC"@ {
                Ok(true)
            } else {
                Err(
                    invalid_error(
                        around(
                            "unsupported order_by '"@,
                            clause,
                            "' (slice 2: attributes.start_time ASC|DESC)"@,
                        ),
                    ),
                )
            }
        },
    }
}

/// The order that some clauses ask for: the last one counts, and the newest
/// come first where there is none.
pub open spec fn newest_first(clauses: Seq<Seq<char>>) -> Result<bool, ErrorModel>
    decreases clauses.len(),
{
    if clauses.len() == 0 {
        Ok(true)
    } else {
        match newest_first(clauses.drop_last()) {
            Err(e) => Err(e),
            Ok(_) => order_clause(clauses.last()),
        }
    }
}

proof fn lemma_newest_first_error(clauses: Seq<Seq<char>>, k: int)
    requires
        0 <= k <= clauses.len(),
        newest_first(clauses.take(k)) is Err,
    ensures
        newest_first(clauses) == newest_first(clauses.take(k)),
    decreases clauses.len() - k,
{
    if k < clauses.len() {
        assert(clauses.take(k + 1).drop_last() =~= clauses.take(k));
        lemma_newest_first_error(clauses, k + 1);
    } else {
        assert(clauses.take(k) =~= clauses);
    }
}

fn read_order_clause(given: &str) -> (r: Result<bool, MlflowError>)
    ensures
        outcome(r) == order_clause(given@),
{
    let clause: &str = trimmed(given);
    let c: Vec<char> = chars_of(clause);
    match last_position_of_char(c.as_slice(), ' ') {
        None => Err(MlflowError::invalid(text_around("invalid order_by '", clause, "'"))),
        Some(k) => {
            let field: String = text_of_range(c.as_slice(), 0, k);
            let direction: String = text_of_range(c.as_slice(), k + 1, c.len());
            assert(field@ =~= clause@.take(k as int));
            assert(direction@ =~= clause@.skip(k + 1));
            let by_start: bool = same_text(trimmed(field.as_str()), "attributes.start_time");
            let direction: String = upper_case(trimmed(direction.as_str()));
            if by_start && same_text(direction.as_str(), "ASC") {
                Ok(false)
            } else if by_start && same_text(direction.as_str(), "DESC") {
                Ok(true)
            } else {
                Err(
                    MlflowError::invalid(
                        text_around(
                            "unsupported order_by '",
                            clause,
                            "' (slice 2: attributes.start_time ASC|DESC)",
                        ),
                    ),
                )
            }
        },
    }
}

/// Reads the order of a search.
pub fn read_order(clauses: &Vec<String>) -> (r: Result<bool, MlflowError>)
    ensures
        outcome(r) == newest_first(texts(clauses@)),
{
    let mut descending: bool = true;
    let mut i: usize = 0;
    let ghost all = texts(clauses@);
    assert(all.take(0) =~= Seq::empty());
    while i < clauses.len()
        invariant
            i <= clauses@.len(),
            all == texts(clauses@),
            newest_first(all.take(i as int)) == Ok::<bool, ErrorModel>(descending),
        decreases clauses@.len() - i,
    {
        assert(all.take(i + 1).drop_last() =~= all.take(i as int));
        assert(all[i as int] == clauses@[i as int]@);
        match read_order_clause(clauses[i].as_str()) {
            Err(e) => {
                proof {
                    lemma_newest_first_error(all, i + 1);
                }
                return Err(e);
            },
            Ok(d) => {
                descending = d;
            },
        }
        i += 1;
    }
    assert(all.take(i as int) =~= all);
    Ok(descending)
}

/// The search that a request describes. It names at least one experiment.
pub open spec fn runs_query(
    experiments: nat,
    view_type: Option<Seq<char>>,
    filter: Option<Seq<char>>,
    order_by: Seq<Seq<char>>,
) -> Result<RunsQueryModel, ErrorModel> {
    if experiments == 0 {
        Err(invalid_error("experiment_ids must list at least one experiment"@))
    } else {
        match viewed_stage(view_type, "run_view_type"@) {
            Err(e) => Err(e),
            Ok(deleted) => {
                let conditions = match filter {
                    None => Ok(Seq::empty()),
                    Some(f) => run_conditions(f),
                };
                match conditions {
                    Err(e) => Err(e),
                    Ok(conditions) => match newest_first(order_by) {
                        Err(e) => Err(e),
                        Ok(descending) => Ok(
                            RunsQueryModel { deleted, conditions, descending },
                        ),
                    },
                }
            },
        }
    }
}

/// Reads a search for runs.
pub fn read_runs_query(
    experiment_ids: &Vec<String>,
    view_type: Option<&str>,
    filter: Option<&str>,
    order_by: &Vec<String>,
) -> (r: Result<RunsQuery, MlflowError>)
    ensures
        outcome(r) == runs_query(
            experiment_ids@.len(),
            opt_view(view_type),
            opt_view(filter),
            texts(order_by@),
        ),
{
    if experiment_ids.len() == 0 {
        return Err(
            MlflowError::invalid("experiment_ids must list at least one experiment".to_owned()),
        );
    }
    let deleted: Option<bool> = match read_view_type(view_type, "run_view_type") {
        Err(e) => {
            return Err(e);
        },
        Ok(deleted) => deleted,
    };
    let filters: Vec<FieldFilter> = match filter {
        None => Vec::new(),
        Some(f) => match parse_run_filter(f) {
            Err(e) => {
                return Err(e);
            },
            Ok(filters) => filters,
        },
    };
    proof {
        if filter is None {
            assert(views(filters@) =~= Seq::empty());
        }
    }
    let descending: bool = match read_order(order_by) {
        Err(e) => {
            return Err(e);
        },
        Ok(descending) => descending,
    };
    Ok(RunsQuery { deleted, filters, descending })
}

impl RunsQuery {
    /// Whether the search has to see deleted runs.
    pub fn includes_deleted(&self) -> (r: bool)
        ensures
            r == (self@.deleted != Some(false)),
    {
        match self.deleted {
            Some(false) => false,
            _ => true,
        }
    }
}

/// The run is among the results, where `numbers` are what the numbers of the
/// conditions denote, one for each condition.
pub open spec fn run_selected(
    query: RunsQueryModel,
    numbers: Seq<Double>,
    record: RunRecord,
) -> bool {
    &&& match query.deleted {
        Some(deleted) => (record.lifecycle is Deleted) == deleted,
        None => true,
    }
    &&& forall|i: int|
        0 <= i < query.conditions.len() ==> #[trigger] run_meets(
            query.conditions[i],
            record,
            numbers[i],
        )
}

/// The runs that a search selects, in the order of the records.
pub open spec fn runs_selected(
    query: RunsQueryModel,
    numbers: Seq<Double>,
    records: Seq<RunRecord>,
) -> Seq<RunModel>
    decreases records.len(),
{
    if records.len() == 0 {
        Seq::empty()
    } else if run_selected(query, numbers, records.last()) {
        runs_selected(query, numbers, records.drop_last()).push(run_shown(records.last()))
    } else {
        runs_selected(query, numbers, records.drop_last())
    }
}

/// The place of a run in the order of the start times.
pub open spec fn start_rank(descending: bool, run: RunModel) -> int {
    if descending {
        -(run.start_time as int)
    } else {
        run.start_time as int
    }
}

/// One run precedes another: by its start time, and by its id where these are
/// the same.
pub open spec fn run_precedes(descending: bool, a: RunModel, b: RunModel) -> bool {
    start_rank(descending, a) < start_rank(descending, b) || (start_rank(descending, a)
        == start_rank(descending, b) && text_before(a.run_id, b.run_id))
}

pub open spec fn run_order(descending: bool) -> spec_fn(RunModel, RunModel) -> bool {
    |a: RunModel, b: RunModel| run_precedes(descending, a, b)
}

/// The results of a search for runs.
pub open spec fn runs_found(
    query: RunsQueryModel,
    numbers: Seq<Double>,
    records: Seq<RunRecord>,
) -> Seq<RunModel> {
    stable_sorted(runs_selected(query, numbers, records), run_order(query.descending))
}

fn selects_run(query: &RunsQuery, numbers: &Vec<Double>, record: &RunRecord) -> (r: bool)
    requires
        numbers@.len() == query.filters@.len(),
    ensures
        r == run_selected(query@, numbers@, *record),
{
    if let Some(deleted) = query.deleted {
        let is_deleted: bool = match record.lifecycle {
            RunLifecycle::Deleted => true,
            RunLifecycle::Active => false,
        };
        if is_deleted != deleted {
            return false;
        }
    }
    let mut i: usize = 0;
    while i < query.filters.len()
        invariant
            i <= query.filters@.len(),
            numbers@.len() == query.filters@.len(),
            forall|j: int|
                0 <= j < i ==> #[trigger] run_meets(query@.conditions[j], *record, numbers@[j]),
        decreases query.filters@.len() - i,
    {
        assert(query@.conditions[i as int] == query.filters@[i as int]@);
        if !query.filters[i].matches(record, numbers[i]) {
            assert(!run_meets(query@.conditions[i as int], *record, numbers@[i as int]));
            return false;
        }
        i += 1;
    }
    true
}

/// A run with its place in the order of the start times.
struct RankedRun {
    rank: i128,
    run: RunOut,
}

spec fn pair_of(r: RankedRun) -> (int, RunModel) {
    (r.rank as int, r.run@)
}

spec fn pair_before(a: (int, RunModel), b: (int, RunModel)) -> bool {
    a.0 < b.0 || (a.0 == b.0 && text_before(a.1.run_id, b.1.run_id))
}

impl Ranked for RankedRun {
    closed spec fn ranks_before(&self, other: &Self) -> bool {
        pair_before(pair_of(*self), pair_of(*other))
    }

    fn is_before(&self, other: &Self) -> (r: bool) {
        self.rank < other.rank || (self.rank == other.rank && comes_before(
            self.run.info.run_id.as_str(),
            other.run.info.run_id.as_str(),
        ))
    }
}

proof fn lemma_ranked_runs(ranked: Seq<RankedRun>, models: Seq<RunModel>, descending: bool)
    requires
        ranked.map_values(|r: RankedRun| pair_of(r)) == models.map_values(
            |m: RunModel| (start_rank(descending, m), m),
        ),
    ensures
        stable_sorted(ranked, rank_order::<RankedRun>()).map_values(|r: RankedRun| pair_of(r))
            == stable_sorted(models, run_order(descending)).map_values(
            |m: RunModel| (start_rank(descending, m), m),
        ),
{
    let after = |a: (int, RunModel), b: (int, RunModel)| pair_before(a, b);
    lemma_sorted_map(ranked, rank_order::<RankedRun>(), |r: RankedRun| pair_of(r), after);
    lemma_sorted_map(
        models,
        run_order(descending),
        |m: RunModel| (start_rank(descending, m), m),
        after,
    );
}

fn sorted_runs(runs: Vec<RunOut>, descending: bool) -> (r: Vec<RunOut>)
    ensures
        views(r@) == stable_sorted(views(runs@), run_order(descending)),
{
    let ghost given = views(runs@);
    let ghost pair = |m: RunModel| (start_rank(descending, m), m);
    let mut runs: Vec<RunOut> = runs;
    let mut back: Vec<RankedRun> = Vec::new();
    while runs.len() > 0
        invariant
            runs@.len() + back@.len() == given.len(),
            views(runs@) == given.take(runs@.len() as int),
            forall|j: int|
                0 <= j < back@.len() ==> pair_of(#[trigger] back@[j]) == (
                    start_rank(descending, given[given.len() - 1 - j]),
                    given[given.len() - 1 - j],
                ),
        decreases runs@.len(),
    {
        let ghost n = runs@.len();
        let ghost before = runs@;
        if let Some(run) = runs.pop() {
            let rank: i128 = if descending {
                -(run.info.start_time as i128)
            } else {
                run.info.start_time as i128
            };
            assert(run@ == views(before)[n - 1]);
            assert(run@ == given[n - 1]);
            assert(views(runs@) =~= given.take(n - 1));
            back.push(RankedRun { rank, run });
        }
    }
    let mut ranked: Vec<RankedRun> = Vec::new();
    while back.len() > 0
        invariant
            ranked@.len() + back@.len() == given.len(),
            forall|j: int|
                0 <= j < back@.len() ==> pair_of(#[trigger] back@[j]) == (
                    start_rank(descending, given[given.len() - 1 - j]),
                    given[given.len() - 1 - j],
                ),
            forall|j: int|
                0 <= j < ranked@.len() ==> pair_of(#[trigger] ranked@[j]) == (
                    start_rank(descending, given[j]),
                    given[j],
                ),
        decreases back@.len(),
    {
        if let Some(run) = back.pop() {
            ranked.push(run);
        }
    }
    assert(ranked@.map_values(|r: RankedRun| pair_of(r)) =~= given.map_values(pair));
    proof {
        lemma_ranked_runs(ranked@, given, descending);
    }
    let ghost result = stable_sorted(given, run_order(descending));
    let sorted: Vec<RankedRun> = sort_stable(ranked);
    let ghost pairs = sorted@.map_values(|r: RankedRun| pair_of(r));
    assert(pairs == result.map_values(pair));
    assert(pairs.len() == result.len());
    assert forall|j: int| 0 <= j < sorted@.len() implies (#[trigger] sorted@[j]).run@
        == result[j] by {
        assert(pairs[j] == pair_of(sorted@[j]));
        assert(result.map_values(pair)[j] == pair(result[j]));
    }
    let mut rest: Vec<RankedRun> = sorted;
    let mut back: Vec<RunOut> = Vec::new();
    while rest.len() > 0
        invariant
            rest@.len() + back@.len() == result.len(),
            forall|j: int| 0 <= j < rest@.len() ==> (#[trigger] rest@[j]).run@ == result[j],
            forall|j: int|
                0 <= j < back@.len() ==> (#[trigger] back@[j])@ == result[result.len() - 1 - j],
        decreases rest@.len(),
    {
        if let Some(ranked_run) = rest.pop() {
            back.push(ranked_run.run);
        }
    }
    let mut r: Vec<RunOut> = Vec::new();
    while back.len() > 0
        invariant
            r@.len() + back@.len() == result.len(),
            forall|j: int|
                0 <= j < back@.len() ==> (#[trigger] back@[j])@ == result[result.len() - 1 - j],
            forall|j: int| 0 <= j < r@.len() ==> (#[trigger] r@[j])@ == result[j],
        decreases back@.len(),
    {
        if let Some(run) = back.pop() {
            r.push(run);
        }
    }
    assert(views(r@) =~= result);
    r
}

/// A page of the runs that a search finds among the records, where `numbers`
/// are what the numbers of the conditions denote, one for each condition.
pub fn runs_search(
    query: &RunsQuery,
    numbers: &Vec<Double>,
    records: &Vec<RunRecord>,
    max_results: Option<u32>,
    page_token: Option<&str>,
) -> (r: Result<(Vec<RunOut>, Option<String>), MlflowError>)
    requires
        numbers@.len() == query.filters@.len(),
    ensures
        page_views(r) == page_of(
            runs_found(query@, numbers@, records@),
            max_results,
            opt_view(page_token),
        ),
{
    let mut found: Vec<RunOut> = Vec::new();
    let mut i: usize = 0;
    assert(views(found@) =~= runs_selected(query@, numbers@, records@.take(0)));
    while i < records.len()
        invariant
            i <= records@.len(),
            numbers@.len() == query.filters@.len(),
            views(found@) == runs_selected(query@, numbers@, records@.take(i as int)),
        decreases records@.len() - i,
    {
        assert(records@.take(i + 1).drop_last() =~= records@.take(i as int));
        if selects_run(query, numbers, &records[i]) {
            let out: RunOut = run_out(&records[i]);
            proof {
                lemma_views_push(found@, out);
            }
            found.push(out);
        }
        i += 1;
    }
    assert(records@.take(i as int) =~= records@);
    let sorted: Vec<RunOut> = sorted_runs(found, query.descending);
    let ghost all = sorted@;
    let r = paginate(sorted, max_results, page_token);
    proof {
        lemma_page_views(r, all, max_results, opt_view(page_token));
    }
    r
}

proof fn lemma_run_order(descending: bool)
    ensures
        is_ranking(run_order(descending)),
{
    let before = run_order(descending);
    assert forall|a: RunModel, b: RunModel| #[trigger] before(a, b) implies !before(b, a) by {
        if text_before(a.run_id, b.run_id) && text_before(b.run_id, a.run_id) {
            lemma_text_before_transitive(a.run_id, b.run_id, a.run_id);
        }
        lemma_text_before_irreflexive(a.run_id);
    }
    assert forall|a: RunModel, b: RunModel, c: RunModel|
        !(#[trigger] before(a, b)) && !(#[trigger] before(b, c)) implies !before(a, c) by {
        if before(a, c) {
            lemma_text_before_total(a.run_id, b.run_id);
            lemma_text_before_total(b.run_id, c.run_id);
            if text_before(b.run_id, a.run_id) && text_before(a.run_id, c.run_id) {
                lemma_text_before_transitive(b.run_id, a.run_id, c.run_id);
            }
            if text_before(a.run_id, c.run_id) && text_before(c.run_id, b.run_id) {
                lemma_text_before_transitive(a.run_id, c.run_id, b.run_id);
            }
        }
    }
}

/// Runs come in the order of their start times, and of their ids where these
/// are the same; ordering them loses and adds none.
pub proof fn law_runs_come_in_order(
    query: RunsQueryModel,
    numbers: Seq<Double>,
    records: Seq<RunRecord>,
)
    ensures
        is_sorted(runs_found(query, numbers, records), run_order(query.descending)),
        runs_found(query, numbers, records).to_multiset() == runs_selected(
            query,
            numbers,
            records,
        ).to_multiset(),
{
    lemma_run_order(query.descending);
    law_stable_sorting(runs_selected(query, numbers, records), run_order(query.descending));
}

/// A filter is never ignored: what a search selects are the runs that meet
/// every condition, and all of them.
pub proof fn law_filters_decide(
    query: RunsQueryModel,
    numbers: Seq<Double>,
    records: Seq<RunRecord>,
)
    ensures
        forall|i: int|
            0 <= i < runs_selected(query, numbers, records).len() ==> exists|k: int|
                0 <= k < records.len() && run_selected(query, numbers, #[trigger] records[k])
                    && #[trigger] runs_selected(query, numbers, records)[i] == run_shown(
                    records[k],
                ),
        forall|k: int|
            0 <= k < records.len() && run_selected(query, numbers, #[trigger] records[k])
                ==> runs_selected(query, numbers, records).contains(run_shown(records[k])),
    decreases records.len(),
{
    if records.len() > 0 {
        let n = records.len() - 1;
        let before = runs_selected(query, numbers, records.drop_last());
        let all = runs_selected(query, numbers, records);
        law_filters_decide(query, numbers, records.drop_last());
        assert forall|i: int| 0 <= i < all.len() implies exists|k: int|
            0 <= k < records.len() && run_selected(query, numbers, #[trigger] records[k])
                && #[trigger] all[i] == run_shown(records[k]) by {
            if i < before.len() {
                assert(all[i] == before[i]);
                let k = choose|k: int|
                    0 <= k < n && run_selected(query, numbers, #[trigger] records.drop_last()[k])
                        && before[i] == run_shown(records.drop_last()[k]);
                assert(records[k] == records.drop_last()[k]);
            } else {
                assert(records[n] == records.last());
            }
        }
        assert forall|k: int|
            0 <= k < records.len() && run_selected(query, numbers, #[trigger] records[k]) implies all.contains(
            run_shown(records[k]),
        ) by {
            if k < n {
                assert(records.drop_last()[k] == records[k]);
                assert(before.contains(run_shown(records[k])));
                let j = choose|j: int| 0 <= j < before.len() && before[j] == run_shown(records[k]);
                assert(all[j] == before[j]);
            } else {
                assert(all[before.len() as int] == run_shown(records[k]));
            }
        }
    }
}

} // verus!
