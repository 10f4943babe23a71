//! The model registry of the API: registered models, their versions and aliases.

use vstd::prelude::*;
use vstd::string::*;
use crate::mlflow::conditions::after_prefix;
use crate::mlflow::error::{
    ErrorModel, MlflowError, around, exists_error, internal_error, invalid_error, not_found_error,
    outcome, outcomes, text_around,
};
use crate::mlflow::filter::{
    FilterParts, PartsModel, clause_parts, filter_clauses, lower_case, parse_filter_parts,
    split_filter_clauses,
};
use crate::mlflow::page::opt_view;
use crate::mlflow::pattern::{is_like, like_match};
use crate::mlflow::wire::KeyValue;
use crate::text::ascii::{eq_ci, lower_text};
use crate::text::chars::{
    chars_of, copied, lemma_views_push, opt_text, same_text, text_of, texts, views,
};
use crate::text::collect::{all_ok, lemma_all_ok_error, lemma_all_ok_step};
use crate::text::float::equal_ci;
use crate::text::map::TextMap;
use crate::text::number::{
    decimal, decimal_text, lemma_parse_decimal, parse_unsigned, read_unsigned,
};
use crate::text::search::starts_with;
use crate::text::trim::{trim, trim_char, trimmed, without_char_around};

verus! {

#[derive(Debug)]
pub struct ModelNameRequest {
    pub name: String,
}

#[derive(Debug)]
pub struct RegisteredModelsSearchRequest {
    pub filter: Option<String>,
    pub max_results: Option<u32>,
}

#[derive(Debug)]
pub struct AliasRequest {
    pub name: String,
    pub alias: String,
    pub version: Option<String>,
}

#[derive(Debug)]
pub struct ModelVersionRequest {
    pub name: String,
    pub version: String,
}

#[derive(Debug)]
pub struct ModelVersionsSearchRequest {
    pub name: String,
    /// Clients may pass the model name inside a filter.
    pub filter: Option<String>,
    pub max_results: Option<u32>,
}

#[derive(Debug)]
pub struct TransitionStageRequest {
    pub name: String,
    pub version: String,
    pub stage: String,
}

/// A version of a registered model.
#[derive(Debug)]
pub struct ModelVersion {
    pub version: u64,
    pub uri: String,
    pub source_run_id: Option<String>,
    pub created_at_ms: i64,
}

/// A registered model, with its versions in ascending order.
#[derive(Debug)]
pub struct ModelRegistry {
    pub name: String,
    pub revision: u64,
    pub aliases: TextMap<u64>,
    pub versions: Vec<ModelVersion>,
}

/// A contract that a change of the registry broke.
#[derive(Debug)]
pub enum ContractError {
    DuplicateVersion { version: u64 },
    UnknownAlias { alias: String },
    Other { message: String },
}

/// An error of the registry.
#[derive(Debug)]
pub enum ModelRegistryError {
    NotFound { name: String },
    AlreadyExists { name: String },
    InvalidName { reason: String },
    InvalidTenant { reason: String },
    /// A broken contract, with the text that describes it.
    Contract { error: ContractError, text: String },
    Other { text: String },
}

/// How an error of the registry is reported.
pub open spec fn registry_error_reported(e: ModelRegistryError) -> ErrorModel {
    match e {
        ModelRegistryError::NotFound { name } => not_found_error(
            around("Could not find registered model '"@, name@, "'"@),
        ),
        ModelRegistryError::AlreadyExists { name } => exists_error(
            around("Registered model '"@, name@, "' already exists"@),
        ),
        ModelRegistryError::InvalidName { reason } => invalid_error(reason@),
        ModelRegistryError::InvalidTenant { reason } => invalid_error(reason@),
        ModelRegistryError::Contract { error: _, text } => internal_error(text@),
        ModelRegistryError::Other { text } => internal_error(text@),
    }
}

/// Reports an error of the registry.
pub fn report_registry_error(e: ModelRegistryError) -> (r: MlflowError)
    ensures
        r@ == registry_error_reported(e),
{
    match e {
        ModelRegistryError::NotFound { name } => MlflowError::not_found(
            text_around("Could not find registered model '", name.as_str(), "'"),
        ),
        ModelRegistryError::AlreadyExists { name } => MlflowError::already_exists(
            text_around("Registered model '", name.as_str(), "' already exists"),
        ),
        ModelRegistryError::InvalidName { reason } => MlflowError::invalid(reason),
        ModelRegistryError::InvalidTenant { reason } => MlflowError::invalid(reason),
        ModelRegistryError::Contract { error: _, text } => MlflowError::internal(text),
        ModelRegistryError::Other { text } => MlflowError::internal(text),
    }
}

/// How an error of a change is reported: a broken contract is the caller's.
pub open spec fn change_error_reported(e: ModelRegistryError) -> ErrorModel {
    match e {
        ModelRegistryError::Contract { error, text: _ } => match error {
            ContractError::DuplicateVersion { version } => exists_error(
                around(
                    "Model version "@,
                    decimal(version as nat),
                    " already exists (versions are immutable)"@,
                ),
            ),
            ContractError::UnknownAlias { alias } => not_found_error(
                around("Alias '"@, alias@, "' is not registered"@),
            ),
            ContractError::Other { message } => invalid_error(message@),
        },
        _ => registry_error_reported(e),
    }
}

/// Reports an error of a change.
pub fn contract_error(e: ModelRegistryError) -> (r: MlflowError)
    ensures
        r@ == change_error_reported(e),
{
    match e {
        ModelRegistryError::Contract { error, text: _ } => match error {
            ContractError::DuplicateVersion { version } => {
                let version: String = decimal_text(version as u128);
                MlflowError::already_exists(
                    text_around(
                        "Model version ",
                        version.as_str(),
                        " already exists (versions are immutable)",
                    ),
                )
            },
            ContractError::UnknownAlias { alias } => MlflowError::not_found(
                text_around("Alias '", alias.as_str(), "' is not registered"),
            ),
            ContractError::Other { message } => MlflowError::invalid(message),
        },
        other => report_registry_error(other),
    }
}

/// A version as a response shows it.
#[derive(Debug)]
pub struct ModelVersionOut {
    pub name: String,
    pub version: String,
    pub source: String,
    pub run_id: String,
    pub status: &'static str,
    pub current_stage: &'static str,
    pub aliases: Vec<String>,
    pub creation_timestamp: i64,
    pub last_updated_timestamp: i64,
}

pub struct VersionModel {
    pub name: Seq<char>,
    pub version: Seq<char>,
    pub source: Seq<char>,
    pub run_id: Seq<char>,
    pub status: Seq<char>,
    pub current_stage: Seq<char>,
    pub aliases: Seq<Seq<char>>,
    pub creation_timestamp: i64,
    pub last_updated_timestamp: i64,
}

impl View for ModelVersionOut {
    type V = VersionModel;

    open spec fn view(&self) -> VersionModel {
        VersionModel {
            name: self.name@,
            version: self.version@,
            source: self.source@,
            run_id: self.run_id@,
            status: self.status@,
            current_stage: self.current_stage@,
            aliases: texts(self.aliases@),
            creation_timestamp: self.creation_timestamp,
            last_updated_timestamp: self.last_updated_timestamp,
        }
    }
}

/// The first `n` aliases, in their order, as far as they point at a version.
pub open spec fn aliases_of(aliases: TextMap<u64>, version: u64, n: int) -> Seq<Seq<char>>
    decreases n,
{
    if n <= 0 {
        Seq::empty()
    } else {
        let rest = aliases_of(aliases, version, n - 1);
        if aliases@[aliases.keys()[n - 1]] == version {
            rest.push(aliases.keys()[n - 1])
        } else {
            rest
        }
    }
}

/// How a version is shown.
pub open spec fn version_shown(registry: ModelRegistry, entry: ModelVersion) -> VersionModel {
    VersionModel {
        name: registry.name@,
        version: decimal(entry.version as nat),
        source: entry.uri@,
        run_id: match entry.source_run_id {
            Some(id) => id@,
            None => Seq::empty(),
        },
        status: "READY"@,
        current_stage: "None"@,
        aliases: aliases_of(
            registry.aliases,
            entry.version,
            registry.aliases.keys().len() as int,
        ),
        creation_timestamp: entry.created_at_ms,
        last_updated_timestamp: entry.created_at_ms,
    }
}

/// The entry of a version, from index `i` on.
pub open spec fn version_entry(versions: Seq<ModelVersion>, version: u64, i: int) -> Option<
    ModelVersion,
>
    decreases versions.len() - i,
{
    if i < 0 || i >= versions.len() {
        None
    } else if versions[i].version == version {
        Some(versions[i])
    } else {
        version_entry(versions, version, i + 1)
    }
}

/// How the version that a text names is shown; `None` where there is none.
pub open spec fn version_named(registry: ModelRegistry, version: Seq<char>) -> Option<
    VersionModel,
> {
    match parse_unsigned(version, u64::MAX as nat) {
        None => None,
        Some(key) => match version_entry(registry.versions@, key as u64, 0) {
            None => None,
            Some(entry) => Some(version_shown(registry, entry)),
        },
    }
}

fn show_version(registry: &ModelRegistry, entry: &ModelVersion) -> (r: ModelVersionOut)
    ensures
        r@ == version_shown(*registry, *entry),
{
    let n: usize = registry.aliases.len();
    let mut aliases: Vec<String> = Vec::new();
    let mut i: usize = 0;
    assert(texts(aliases@) =~= Seq::empty());
    while i < n
        invariant
            i <= n,
            n == registry.aliases.keys().len(),
            texts(aliases@) == aliases_of(registry.aliases, entry.version, i as int),
        decreases n - i,
    {
        if *registry.aliases.value_at(i) == entry.version {
            let ghost before = texts(aliases@);
            let alias: String = copied(registry.aliases.key_at(i));
            aliases.push(alias);
            assert(texts(aliases@) =~= before.push(alias@));
        }
        i += 1;
    }
    let run_id: String = match &entry.source_run_id {
        Some(id) => copied(id),
        None => String::new(),
    };
    ModelVersionOut {
        name: copied(&registry.name),
        version: decimal_text(entry.version as u128),
        source: copied(&entry.uri),
        run_id,
        status: "READY",
        current_stage: "None",
        aliases,
        creation_timestamp: entry.created_at_ms,
        last_updated_timestamp: entry.created_at_ms,
    }
}

pub open spec fn opt_version(r: Option<ModelVersionOut>) -> Option<VersionModel> {
    match r {
        Some(v) => Some(v@),
        None => None,
    }
}

/// Shows the version that a text names.
pub fn model_version_out(registry: &ModelRegistry, version: &str) -> (r: Option<ModelVersionOut>)
    ensures
        opt_version(r) == version_named(*registry, version@),
{
    let t: Vec<char> = chars_of(version);
    let key: u64 = match read_unsigned(t.as_slice(), u64::MAX) {
        Some(key) => key,
        None => {
            return None;
        },
    };
    let mut i: usize = 0;
    while i < registry.versions.len()
        invariant
            i <= registry.versions@.len(),
            parse_unsigned(version@, u64::MAX as nat) == Some(key as nat),
            version_entry(registry.versions@, key, 0) == version_entry(
                registry.versions@,
                key,
                i as int,
            ),
        decreases registry.versions@.len() - i,
    {
        if registry.versions[i].version == key {
            return Some(show_version(registry, &registry.versions[i]));
        }
        i += 1;
    }
    None
}

/// How the versions of a model are shown, in ascending order.
pub open spec fn versions_shown(registry: ModelRegistry) -> Seq<VersionModel> {
    registry.versions@.map_values(|v: ModelVersion| version_shown(registry, v))
}

fn show_versions(registry: &ModelRegistry) -> (r: Vec<ModelVersionOut>)
    ensures
        views(r@) == versions_shown(*registry),
{
    let mut r: Vec<ModelVersionOut> = Vec::new();
    let mut i: usize = 0;
    while i < registry.versions.len()
        invariant
            i <= registry.versions@.len(),
            views(r@) == versions_shown(*registry).take(i as int),
        decreases registry.versions@.len() - i,
    {
        let out: ModelVersionOut = show_version(registry, &registry.versions[i]);
        proof {
            lemma_views_push(r@, out);
        }
        r.push(out);
        assert(views(r@) =~= versions_shown(*registry).take(i + 1));
        i += 1;
    }
    assert(versions_shown(*registry).take(i as int) =~= versions_shown(*registry));
    r
}

/// A registered model as a response shows it.
#[derive(Debug)]
pub struct RegisteredModelOut {
    pub name: String,
    /// The aliases, each with its version.
    pub aliases: Vec<KeyValue>,
    pub latest_versions: Vec<ModelVersionOut>,
    pub creation_timestamp: i64,
    pub last_updated_timestamp: i64,
}

pub struct RegisteredModel {
    pub name: Seq<char>,
    pub aliases: Seq<(Seq<char>, Seq<char>)>,
    pub latest_versions: Seq<VersionModel>,
    pub creation_timestamp: i64,
    pub last_updated_timestamp: i64,
}

impl View for RegisteredModelOut {
    type V = RegisteredModel;

    open spec fn view(&self) -> RegisteredModel {
        RegisteredModel {
            name: self.name@,
            aliases: views(self.aliases@),
            latest_versions: views(self.latest_versions@),
            creation_timestamp: self.creation_timestamp,
            last_updated_timestamp: self.last_updated_timestamp,
        }
    }
}

/// The aliases of a model, each with the text of its version.
pub open spec fn aliases_shown(aliases: TextMap<u64>) -> Seq<(Seq<char>, Seq<char>)> {
    Seq::new(
        aliases.keys().len(),
        |i: int| (aliases.keys()[i], decimal(aliases@[aliases.keys()[i]] as nat)),
    )
}

/// How a registered model is shown.
pub open spec fn model_shown(registry: ModelRegistry) -> RegisteredModel {
    RegisteredModel {
        name: registry.name@,
        aliases: aliases_shown(registry.aliases),
        latest_versions: versions_shown(registry),
        creation_timestamp: 0,
        last_updated_timestamp: 0,
    }
}

/// Shows a registered model.
pub fn registered_model_out(registry: &ModelRegistry) -> (r: RegisteredModelOut)
    ensures
        r@ == model_shown(*registry),
{
    let n: usize = registry.aliases.len();
    let mut aliases: Vec<KeyValue> = Vec::new();
    let mut i: usize = 0;
    while i < n
        invariant
            i <= n,
            n == registry.aliases.keys().len(),
            views(aliases@) == aliases_shown(registry.aliases).take(i as int),
        decreases n - i,
    {
        let alias: KeyValue = KeyValue {
            key: copied(registry.aliases.key_at(i)),
            value: decimal_text(*registry.aliases.value_at(i) as u128),
        };
        proof {
            lemma_views_push(aliases@, alias);
        }
        aliases.push(alias);
        assert(views(aliases@) =~= aliases_shown(registry.aliases).take(i + 1));
        i += 1;
    }
    assert(aliases_shown(registry.aliases).take(i as int) =~= aliases_shown(registry.aliases));
    RegisteredModelOut {
        name: copied(&registry.name),
        aliases,
        latest_versions: show_versions(registry),
        creation_timestamp: 0,
        last_updated_timestamp: 0,
    }
}

/// A model can be registered.
pub open spec fn model_registered(name: Seq<char>, has_tags: bool, has_description: bool) -> Result<
    (),
    ErrorModel,
> {
    if trim(name).len() == 0 {
        Err(invalid_error("name must not be empty"@))
    } else if has_tags || has_description {
        Err(
            invalid_error(
                "MLflow registry tags/descriptions are not persisted by the compatibility adapter (the annotation facet ships with the native lifecycle API at /api/v2/abac/../model-registry); omit them here rather than lose them"@,
            ),
        )
    } else {
        Ok(())
    }
}

/// Whether a model can be registered: it has a name, and brings no tags and no
/// description, which would be lost.
pub fn registered_models_create(name: &str, has_tags: bool, has_description: bool) -> (r: Result<
    (),
    MlflowError,
>)
    ensures
        outcome(r) == model_registered(name@, has_tags, has_description),
{
    if trimmed(name).unicode_len() == 0 {
        return Err(MlflowError::invalid("name must not be empty".to_owned()));
    }
    if has_tags || has_description {
        return Err(
            MlflowError::invalid(
                "MLflow registry tags/descriptions are not persisted by the compatibility adapter (the annotation facet ships with the native lifecycle API at /api/v2/abac/../model-registry); omit them here rather than lose them".to_owned(),
            ),
        );
    }
    Ok(())
}

/// What a clause demands of a registered model.
#[derive(Debug)]
pub enum ModelClause {
    NameEq(String),
    NameLike(String),
    /// A tag has the value, or does not have it.
    Tag(String, String, bool),
}

pub enum ModelCondition {
    NameEq(Seq<char>),
    NameLike(Seq<char>),
    Tag(Seq<char>, Seq<char>, bool),
}

impl View for ModelClause {
    type V = ModelCondition;

    open spec fn view(&self) -> ModelCondition {
        match self {
            ModelClause::NameEq(v) => ModelCondition::NameEq(v@),
            ModelClause::NameLike(v) => ModelCondition::NameLike(v@),
            ModelClause::Tag(k, v, equal) => ModelCondition::Tag(k@, v@, *equal),
        }
    }
}

/// The key of a tag that a field names.
pub open spec fn tag_field(field: Seq<char>) -> Option<Seq<char>> {
    if starts_with(field, "tag."@) {
        Some(trim_char(field.skip(4), '`'))
    } else if starts_with(field, "tags."@) {
        Some(trim_char(field.skip(5), '`'))
    } else {
        None
    }
}

/// The condition that the parts of a clause state.
pub open spec fn model_clause_condition(clause: Seq<char>, parts: PartsModel) -> Result<
    ModelCondition,
    ErrorModel,
> {
    let field = lower_text(parts.key);
    match tag_field(field) {
        Some(key) => if key.len() == 0 {
            Err(invalid_error("tag filter needs a key"@))
        } else if parts.op == "="@ {
            Ok(ModelCondition::Tag(key, parts.value, true))
        } else if parts.op == "!="@ {
            Ok(ModelCondition::Tag(key, parts.value, false))
        } else {
            Err(invalid_error(around("tag filter supports = / !=, got '"@, parts.op, "'"@)))
        },
        None => if field == "name"@ || field == "attributes.name"@ {
            if parts.op == "="@ {
                Ok(ModelCondition::NameEq(parts.value))
            } else if parts.op == "LIKE"@ {
                Ok(ModelCondition::NameLike(parts.value))
            } else {
                Err(invalid_error(around("name filter supports = / LIKE, got '"@, parts.op, "'"@)))
            }
        } else {
            Err(
                invalid_error(
                    around("unsupported registered-model filter clause '"@, clause, "'"@),
                ),
            )
        },
    }
}

/// The condition that a clause states.
pub open spec fn model_condition(clause: Seq<char>) -> Result<ModelCondition, ErrorModel> {
    match clause_parts(clause, true) {
        Err(e) => Err(e),
        Ok(parts) => model_clause_condition(clause, parts),
    }
}

/// The conditions that a filter on registered models states.
pub open spec fn model_conditions(filter: Option<Seq<char>>) -> Result<
    Seq<ModelCondition>,
    ErrorModel,
> {
    match filter {
        None => Ok(Seq::empty()),
        Some(f) => match filter_clauses(f) {
            Err(e) => Err(e),
            Ok(clauses) => all_ok(clauses.map_values(|c: Seq<char>| model_condition(c))),
        },
    }
}

fn tag_key_of(field: &str) -> (r: Option<String>)
    ensures
        opt_text(r) == tag_field(field@),
{
    proof {
        reveal_strlit("tag.");
        reveal_strlit("tags.");
    }
    let rest: Option<String> = match after_prefix(field, "tag.") {
        Some(rest) => Some(rest),
        None => after_prefix(field, "tags."),
    };
    match rest {
        Some(rest) => {
            let t: Vec<char> = chars_of(rest.as_str());
            let key: Vec<char> = without_char_around(t.as_slice(), '`');
            Some(text_of(key.as_slice()))
        },
        None => None,
    }
}

/// Reads a clause on registered models from its parts.
pub fn model_clause(clause: &str, parts: FilterParts) -> (r: Result<ModelClause, MlflowError>)
    ensures
        outcome(r) == model_clause_condition(clause@, parts@),
{
    let field: String = lower_case(parts.key.as_str());
    let equals: bool = same_text(parts.op.as_str(), "=");
    match tag_key_of(field.as_str()) {
        Some(key) => {
            if key.as_str().unicode_len() == 0 {
                return Err(MlflowError::invalid("tag filter needs a key".to_owned()));
            }
            if equals {
                Ok(ModelClause::Tag(key, parts.value, true))
            } else if same_text(parts.op.as_str(), "!=") {
                Ok(ModelClause::Tag(key, parts.value, false))
            } else {
                Err(
                    MlflowError::invalid(
                        text_around("tag filter supports = / !=, got '", parts.op.as_str(), "'"),
                    ),
                )
            }
        },
        None => {
            if same_text(field.as_str(), "name") || same_text(field.as_str(), "attributes.name") {
                if equals {
                    Ok(ModelClause::NameEq(parts.value))
                } else if same_text(parts.op.as_str(), "LIKE") {
                    Ok(ModelClause::NameLike(parts.value))
                } else {
                    Err(
                        MlflowError::invalid(
                            text_around(
                                "name filter supports = / LIKE, got '",
                                parts.op.as_str(),
                                "'",
                            ),
                        ),
                    )
                }
            } else {
                Err(
                    MlflowError::invalid(
                        text_around(
                            "unsupported registered-model filter clause '",
                            clause,
                            "'",
                        ),
                    ),
                )
            }
        },
    }
}

/// Reads a filter on registered models.
pub fn read_models_filter(filter: Option<&str>) -> (r: Result<Vec<ModelClause>, MlflowError>)
    ensures
        outcomes(r) == model_conditions(opt_view(filter)),
{
    let mut r: Vec<ModelClause> = Vec::new();
    assert(views(r@) =~= Seq::empty());
    let text: &str = match filter {
        None => {
            return Ok(r);
        },
        Some(text) => text,
    };
    let clauses: Vec<String> = match split_filter_clauses(text) {
        Err(e) => {
            return Err(e);
        },
        Ok(clauses) => clauses,
    };
    let ghost results = texts(clauses@).map_values(|c: Seq<char>| model_condition(c));
    assert(texts(clauses@) =~= views(clauses@));
    let mut i: usize = 0;
    assert(results.take(0) =~= Seq::empty());
    while i < clauses.len()
        invariant
            i <= clauses@.len(),
            results == texts(clauses@).map_values(|c: Seq<char>| model_condition(c)),
            all_ok(results.take(i as int)) == Ok::<Seq<ModelCondition>, ErrorModel>(views(r@)),
            model_conditions(opt_view(filter)) == all_ok(results),
        decreases clauses@.len() - i,
    {
        proof {
            lemma_all_ok_step(results, i as int);
            assert(results[i as int] == model_condition(clauses@[i as int]@));
        }
        let clause: Result<ModelClause, MlflowError> = match parse_filter_parts(
            clauses[i].as_str(),
            true,
        ) {
            Err(e) => Err(e),
            Ok(parts) => model_clause(clauses[i].as_str(), parts),
        };
        match clause {
            Err(e) => {
                proof {
                    lemma_all_ok_error(results, i + 1);
                }
                return Err(e);
            },
            Ok(condition) => {
                proof {
                    lemma_views_push(r@, condition);
                }
                r.push(condition);
            },
        }
        i += 1;
    }
    assert(results.take(i as int) =~= results);
    Ok(r)
}

/// The name that the last such clause demands.
pub open spec fn wanted_name(conditions: Seq<ModelCondition>) -> Option<Seq<char>>
    decreases conditions.len(),
{
    if conditions.len() == 0 {
        None
    } else {
        match conditions.last() {
            ModelCondition::NameEq(v) => Some(v),
            _ => wanted_name(conditions.drop_last()),
        }
    }
}

/// The pattern that the last such clause demands.
pub open spec fn wanted_pattern(conditions: Seq<ModelCondition>) -> Option<Seq<char>>
    decreases conditions.len(),
{
    if conditions.len() == 0 {
        None
    } else {
        match conditions.last() {
            ModelCondition::NameLike(v) => Some(v),
            _ => wanted_pattern(conditions.drop_last()),
        }
    }
}

/// A model is among the results. Models have no tags: no tag has a value, so a
/// clause that demands one never holds, and one that denies it always does.
pub open spec fn model_selected(conditions: Seq<ModelCondition>, name: Seq<char>) -> bool {
    &&& match wanted_name(conditions) {
        Some(v) => name == v,
        None => true,
    }
    &&& match wanted_pattern(conditions) {
        Some(p) => is_like(name, p),
        None => true,
    }
    &&& forall|i: int|
        0 <= i < conditions.len() ==> !(#[trigger] conditions[i] matches ModelCondition::Tag(
            _,
            _,
            true,
        ))
}

/// The models that a search finds, in the order of the records.
pub open spec fn models_found(
    conditions: Seq<ModelCondition>,
    records: Seq<ModelRegistry>,
) -> Seq<RegisteredModel>
    decreases records.len(),
{
    if records.len() == 0 {
        Seq::empty()
    } else if model_selected(conditions, records.last().name@) {
        models_found(conditions, records.drop_last()).push(model_shown(records.last()))
    } else {
        models_found(conditions, records.drop_last())
    }
}

/// The first results, up to a limit.
pub open spec fn first_results<T>(s: Seq<T>, limit: Option<u32>) -> Seq<T> {
    match limit {
        Some(n) => if n < s.len() {
            s.take(n as int)
        } else {
            s
        },
        None => s,
    }
}

fn selects_model(clauses: &Vec<ModelClause>, name: &str) -> (r: bool)
    ensures
        r == model_selected(views(clauses@), name@),
{
    let ghost conditions = views(clauses@);
    let mut wanted: Option<&String> = None;
    let mut pattern: Option<&String> = None;
    let mut i: usize = 0;
    assert(conditions.take(0) =~= Seq::empty());
    while i < clauses.len()
        invariant
            i <= clauses@.len(),
            conditions == views(clauses@),
            (match wanted {
                Some(t) => Some(t@),
                None => None::<Seq<char>>,
            }) == wanted_name(conditions.take(i as int)),
            (match pattern {
                Some(t) => Some(t@),
                None => None::<Seq<char>>,
            }) == wanted_pattern(conditions.take(i as int)),
            forall|j: int|
                0 <= j < i ==> !(#[trigger] conditions[j] matches ModelCondition::Tag(_, _, true)),
        decreases clauses@.len() - i,
    {
        assert(conditions.take(i + 1).drop_last() =~= conditions.take(i as int));
        assert(conditions[i as int] == clauses@[i as int]@);
        match &clauses[i] {
            ModelClause::NameEq(v) => {
                wanted = Some(v);
            },
            ModelClause::NameLike(v) => {
                pattern = Some(v);
            },
            ModelClause::Tag(_, _, equal) => {
                if *equal {
                    return false;
                }
            },
        }
        i += 1;
    }
    assert(conditions.take(i as int) =~= conditions);
    if let Some(v) = wanted {
        if !same_text(name, v.as_str()) {
            return false;
        }
    }
    if let Some(p) = pattern {
        if !like_match(name, p.as_str()) {
            return false;
        }
    }
    true
}

/// The registered models that a search finds among the records.
pub fn registered_models_search(
    clauses: &Vec<ModelClause>,
    records: &Vec<ModelRegistry>,
    max_results: Option<u32>,
) -> (r: Vec<RegisteredModelOut>)
    ensures
        views(r@) == first_results(models_found(views(clauses@), records@), max_results),
{
    let mut models: Vec<RegisteredModelOut> = Vec::new();
    let mut i: usize = 0;
    assert(views(models@) =~= models_found(views(clauses@), records@.take(0)));
    while i < records.len()
        invariant
            i <= records@.len(),
            views(models@) == models_found(views(clauses@), records@.take(i as int)),
        decreases records@.len() - i,
    {
        assert(records@.take(i + 1).drop_last() =~= records@.take(i as int));
        if selects_model(clauses, records[i].name.as_str()) {
            let out: RegisteredModelOut = registered_model_out(&records[i]);
            proof {
                lemma_views_push(models@, out);
            }
            models.push(out);
        }
        i += 1;
    }
    assert(records@.take(i as int) =~= records@);
    truncated(models, max_results)
}

fn truncated<T: View>(v: Vec<T>, limit: Option<u32>) -> (r: Vec<T>)
    ensures
        views(r@) == first_results(views(v@), limit),
{
    let mut v: Vec<T> = v;
    let ghost all = views(v@);
    if let Some(n) = limit {
        if (n as usize) < v.len() {
            v.truncate(n as usize);
            assert(views(v@) =~= all.take(n as int));
        }
    }
    v
}

/// The version that a request to set an alias names.
pub open spec fn alias_version(version: Option<Seq<char>>) -> Result<u64, ErrorModel> {
    match version {
        None => Err(invalid_error("version is required (string)"@)),
        Some(v) => match parse_unsigned(v, u64::MAX as nat) {
            Some(n) => Ok(n as u64),
            None => Err(invalid_error(around("invalid version '"@, v, "'"@))),
        },
    }
}

/// The version that a request to set an alias names.
pub fn registered_models_alias_set(request: &AliasRequest) -> (r: Result<u64, MlflowError>)
    ensures
        outcome(r) == alias_version(opt_text(request.version)),
{
    match &request.version {
        None => Err(MlflowError::invalid("version is required (string)".to_owned())),
        Some(version) => {
            let t: Vec<char> = chars_of(version.as_str());
            match read_unsigned(t.as_slice(), u64::MAX) {
                Some(n) => Ok(n),
                None => Err(
                    MlflowError::invalid(
                        text_around("invalid version '", version.as_str(), "'"),
                    ),
                ),
            }
        },
    }
}

/// What a request for an alias is answered.
pub open spec fn alias_target(
    registry: ModelRegistry,
    name: Seq<char>,
    alias: Seq<char>,
) -> Result<VersionModel, ErrorModel> {
    if !registry.aliases@.dom().contains(alias) {
        Err(
            not_found_error(
                around(
                    around("Alias '"@, alias, "' is not set on registered model '"@),
                    name,
                    "'"@,
                ),
            ),
        )
    } else {
        let version = registry.aliases@[alias];
        match version_entry(registry.versions@, version, 0) {
            Some(entry) => Ok(version_shown(registry, entry)),
            None => Err(
                internal_error(
                    around("alias '"@, alias, "' points at missing version "@) + decimal(
                        version as nat,
                    ),
                ),
            ),
        }
    }
}

/// Finds the version that an alias points at.
pub fn registered_models_alias_get(registry: &ModelRegistry, request: &AliasRequest) -> (r: Result<
    ModelVersionOut,
    MlflowError,
>)
    ensures
        outcome(r) == alias_target(*registry, request.name@, request.alias@),
{
    let version: u64 = match registry.aliases.get(request.alias.as_str()) {
        Some(version) => *version,
        None => {
            let head: String = text_around(
                "Alias '",
                request.alias.as_str(),
                "' is not set on registered model '",
            );
            return Err(
                MlflowError::not_found(text_around(head.as_str(), request.name.as_str(), "'")),
            );
        },
    };
    let text: String = decimal_text(version as u128);
    proof {
        lemma_parse_decimal(version as nat, u64::MAX as nat);
    }
    match model_version_out(registry, text.as_str()) {
        Some(out) => Ok(out),
        None => {
            let mut message: String = text_around(
                "alias '",
                request.alias.as_str(),
                "' points at missing version ",
            );
            message.append(text.as_str());
            Err(MlflowError::internal(message))
        },
    }
}

/// Aliases are never removed: the request is refused.
pub fn registered_models_alias_delete(request: &AliasRequest) -> (r: MlflowError)
    ensures
        r@ == invalid_error(
            around(
                "alias deletion is not yet supported by the model-registry authority (set-only mutations); re-point '"@,
                request.alias@,
                "' via the alias set endpoint"@,
            ),
        ),
{
    MlflowError::invalid(
        text_around(
            "alias deletion is not yet supported by the model-registry authority (set-only mutations); re-point '",
            request.alias.as_str(),
            "' via the alias set endpoint",
        ),
    )
}

/// What a request for a version is answered.
pub open spec fn requested_version(
    registry: ModelRegistry,
    name: Seq<char>,
    version: Seq<char>,
) -> Result<VersionModel, ErrorModel> {
    match version_named(registry, version) {
        Some(out) => Ok(out),
        None => Err(
            not_found_error(
                around(around("Could not find model version '"@, name, "/"@), version, "'"@),
            ),
        ),
    }
}

/// Finds a version.
pub fn model_versions_get(registry: &ModelRegistry, request: &ModelVersionRequest) -> (r: Result<
    ModelVersionOut,
    MlflowError,
>)
    ensures
        outcome(r) == requested_version(*registry, request.name@, request.version@),
{
    match model_version_out(registry, request.version.as_str()) {
        Some(out) => Ok(out),
        None => {
            let head: String = text_around(
                "Could not find model version '",
                request.name.as_str(),
                "/",
            );
            Err(
                MlflowError::not_found(
                    text_around(head.as_str(), request.version.as_str(), "'"),
                ),
            )
        },
    }
}

/// The name that the parts of a clause on versions give.
pub open spec fn version_clause_name(clause: Seq<char>, parts: PartsModel) -> Result<
    Seq<char>,
    ErrorModel,
> {
    if eq_ci(parts.key, "name"@) && parts.op == "="@ {
        Ok(parts.value)
    } else {
        Err(invalid_error(around("unsupported model-version filter clause '"@, clause, "'"@)))
    }
}

/// The names that the clauses of a filter on versions give.
pub open spec fn filter_names(filter: Seq<char>) -> Result<Seq<Seq<char>>, ErrorModel> {
    match filter_clauses(filter) {
        Err(e) => Err(e),
        Ok(clauses) => all_ok(
            clauses.map_values(
                |c: Seq<char>|
                    match clause_parts(c, true) {
                        Err(e) => Err(e),
                        Ok(parts) => version_clause_name(c, parts),
                    },
            ),
        ),
    }
}

/// The model whose versions a search is for: the name that is given, or else
/// the last one in the filter.
pub open spec fn searched_name(name: Seq<char>, filter: Option<Seq<char>>) -> Result<
    Seq<char>,
    ErrorModel,
> {
    let found = if trim(name).len() == 0 && filter is Some {
        match filter_names(filter->0) {
            Err(e) => Err(e),
            Ok(names) => if names.len() > 0 {
                Ok(names.last())
            } else {
                Ok(trim(name))
            },
        }
    } else {
        Ok(trim(name))
    };
    match found {
        Err(e) => Err(e),
        Ok(n) => if n.len() == 0 {
            Err(invalid_error("name (or name='...' filter) is required"@))
        } else {
            Ok(n)
        },
    }
}

/// Reads a clause on versions from its parts.
pub fn version_clause(clause: &str, parts: FilterParts) -> (r: Result<String, MlflowError>)
    ensures
        outcome(r) == version_clause_name(clause@, parts@),
{
    let key: Vec<char> = chars_of(parts.key.as_str());
    if equal_ci(key.as_slice(), "name") && same_text(parts.op.as_str(), "=") {
        Ok(parts.value)
    } else {
        Err(
            MlflowError::invalid(
                text_around("unsupported model-version filter clause '", clause, "'"),
            ),
        )
    }
}

/// The model whose versions a search is for.
pub fn model_versions_name(request: &ModelVersionsSearchRequest) -> (r: Result<String, MlflowError>)
    ensures
        outcome(r) == searched_name(request.name@, opt_text(request.filter)),
{
    let given: String = trimmed(request.name.as_str()).to_owned();
    let mut name: String = given;
    if name.as_str().unicode_len() == 0 {
        if let Some(filter) = &request.filter {
            let clauses: Vec<String> = match split_filter_clauses(filter.as_str()) {
                Err(e) => {
                    return Err(e);
                },
                Ok(clauses) => clauses,
            };
            let ghost named = |c: Seq<char>|
                match clause_parts(c, true) {
                    Err(e) => Err(e),
                    Ok(parts) => version_clause_name(c, parts),
                };
            let ghost results = texts(clauses@).map_values(named);
            assert(texts(clauses@) =~= views(clauses@));
            assert(filter_names(filter@) == all_ok(results));
            let mut i: usize = 0;
            let ghost mut names: Seq<Seq<char>> = Seq::empty();
            assert(results.take(0) =~= Seq::empty());
            while i < clauses.len()
                invariant
                    i <= clauses@.len(),
                    results == texts(clauses@).map_values(named),
                    named == |c: Seq<char>|
                        match clause_parts(c, true) {
                            Err(e) => Err(e),
                            Ok(parts) => version_clause_name(c, parts),
                        },
                    all_ok(results.take(i as int)) == Ok::<Seq<Seq<char>>, ErrorModel>(names),
                    filter_names(filter@) == all_ok(results),
                    trim(request.name@).len() == 0,
                    opt_text(request.filter) == Some(filter@),
                    name@ == if names.len() > 0 {
                        names.last()
                    } else {
                        trim(request.name@)
                    },
                decreases clauses@.len() - i,
            {
                proof {
                    lemma_all_ok_step(results, i as int);
                    assert(results[i as int] == named(clauses@[i as int]@));
                }
                let clause: Result<String, MlflowError> = match parse_filter_parts(
                    clauses[i].as_str(),
                    true,
                ) {
                    Err(e) => Err(e),
                    Ok(parts) => version_clause(clauses[i].as_str(), parts),
                };
                match clause {
                    Err(e) => {
                        proof {
                            lemma_all_ok_error(results, i + 1);
                        }
                        return Err(e);
                    },
                    Ok(value) => {
                        proof {
                            names = names.push(value@);
                        }
                        name = value;
                    },
                }
                i += 1;
            }
            assert(results.take(i as int) =~= results);
        }
    }
    if name.as_str().unicode_len() == 0 {
        return Err(
            MlflowError::invalid("name (or name='...' filter) is required".to_owned()),
        );
    }
    Ok(name)
}

/// The versions that a search finds.
pub open spec fn versions_found(registry: ModelRegistry, max_results: Option<u32>) -> Seq<
    VersionModel,
> {
    first_results(versions_shown(registry).reverse(), max_results)
}

/// The versions of a model, the newest first.
pub fn model_versions_search(registry: &ModelRegistry, max_results: Option<u32>) -> (r: Vec<
    ModelVersionOut,
>)
    ensures
        views(r@) == versions_found(*registry, max_results),
{
    let mut r: Vec<ModelVersionOut> = Vec::new();
    let n: usize = registry.versions.len();
    let mut i: usize = 0;
    while i < n
        invariant
            i <= n,
            n == registry.versions@.len(),
            views(r@) == versions_shown(*registry).reverse().take(i as int),
        decreases n - i,
    {
        let out: ModelVersionOut = show_version(registry, &registry.versions[n - 1 - i]);
        proof {
            lemma_views_push(r@, out);
        }
        r.push(out);
        assert(views(r@) =~= versions_shown(*registry).reverse().take(i + 1));
        i += 1;
    }
    assert(versions_shown(*registry).reverse().take(i as int) =~= versions_shown(
        *registry,
    ).reverse());
    truncated(r, max_results)
}

/// Versions are not created here: the request is refused.
pub fn model_versions_create() -> (r: MlflowError)
    ensures
        r@ == invalid_error(
            "create-model-version is not supported through the MLflow adapter: an xCatalog model version is a typed executable contract (artifact digest, input/output contracts, governance). Register versions through the native model-registry lifecycle API; the MLflow surface projects them read-only"@,
        ),
{
    MlflowError::invalid(
        "create-model-version is not supported through the MLflow adapter: an xCatalog model version is a typed executable contract (artifact digest, input/output contracts, governance). Register versions through the native model-registry lifecycle API; the MLflow surface projects them read-only".to_owned(),
    )
}

/// There are no stages: the request is refused, with a pointer to aliases.
pub fn model_versions_transition_stage(request: &TransitionStageRequest) -> (r: MlflowError)
    ensures
        r@ == invalid_error(
            around(
                "stage transitions are not supported: the registry has no staging/production state machine. Point a '"@,
                request.stage@,
                "' alias at this version instead (registered-models/alias), and resolve deployments by alias"@,
            ),
        ),
{
    MlflowError::invalid(
        text_around(
            "stage transitions are not supported: the registry has no staging/production state machine. Point a '",
            request.stage.as_str(),
            "' alias at this version instead (registered-models/alias), and resolve deployments by alias",
        ),
    )
}

/// Clauses that only deny tags hide no model.
pub proof fn law_denied_tags_hide_nothing(conditions: Seq<ModelCondition>, name: Seq<char>)
    requires
        forall|i: int|
            0 <= i < conditions.len() ==> (#[trigger] conditions[i] matches ModelCondition::Tag(
                _,
                _,
                false,
            )),
    ensures
        model_selected(conditions, name),
{
    lemma_no_name(conditions);
}

proof fn lemma_no_name(conditions: Seq<ModelCondition>)
    requires
        forall|i: int| 0 <= i < conditions.len() ==> #[trigger] conditions[i] is Tag,
    ensures
        wanted_name(conditions) is None,
        wanted_pattern(conditions) is None,
    decreases conditions.len(),
{
    if conditions.len() > 0 {
        assert(conditions[conditions.len() - 1] is Tag);
        assert forall|i: int| 0 <= i < conditions.len() - 1 implies #[trigger] conditions.drop_last()[i] is Tag by {
            assert(conditions[i] is Tag);
        }
        lemma_no_name(conditions.drop_last());
    }
}

} // verus!
