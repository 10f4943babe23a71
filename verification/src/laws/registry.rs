//! The model registry, as its clients see it.

use vstd::prelude::*;
use vstd::string::*;
use crate::mlflow::error::ErrorModel;
use crate::mlflow::filter::PartsModel;
use crate::mlflow::pattern::is_like;
use crate::mlflow::registry::{
    ModelCondition, ModelRegistry, ModelVersion, VersionModel, alias_target, alias_version,
    aliases_of, filter_names, first_results, law_denied_tags_hide_nothing, model_clause_condition,
    model_registered, model_selected, model_shown, models_found, requested_version, searched_name,
    version_clause_name, version_entry, version_shown, versions_found, wanted_name, wanted_pattern,
};
use crate::text::ascii::{lower, lower_text};
use crate::text::map::TextMap;
use crate::text::number::{decimal, lemma_parse_decimal};
use crate::text::search::starts_with;
use crate::text::trim::{lemma_trim, trim, trim_char};

verus! {

/// A version is shown as it is, under its number.
pub proof fn law_versions_are_shown_as_they_are(registry: ModelRegistry, entry: ModelVersion)
    ensures
        version_shown(registry, entry).name == registry.name@,
        version_shown(registry, entry).version == decimal(entry.version as nat),
        version_shown(registry, entry).source == entry.uri@,
        entry.source_run_id matches Some(id) ==> version_shown(registry, entry).run_id == id@,
        entry.source_run_id is None ==> version_shown(registry, entry).run_id.len() == 0,
        version_shown(registry, entry).status == "READY"@,
        version_shown(registry, entry).current_stage == "None"@,
        version_shown(registry, entry).creation_timestamp == entry.created_at_ms,
        version_shown(registry, entry).last_updated_timestamp == entry.created_at_ms,
{
}

/// A version is shown with the aliases that point at it, and with no others.
pub proof fn law_versions_are_shown_with_their_aliases(
    registry: ModelRegistry,
    entry: ModelVersion,
    i: int,
)
    requires
        0 <= i < registry.aliases.keys().len(),
    ensures
        version_shown(registry, entry).aliases.contains(registry.aliases.keys()[i])
            <== registry.aliases@[registry.aliases.keys()[i]] == entry.version,
        forall|a: Seq<char>|
            version_shown(registry, entry).aliases.contains(a) ==> #[trigger] registry.aliases@[a]
                == entry.version,
{
    let n = registry.aliases.keys().len() as int;
    if registry.aliases@[registry.aliases.keys()[i]] == entry.version {
        lemma_alias_is_kept(registry.aliases, entry.version, i, n);
    }
    lemma_aliases_point(registry.aliases, entry.version, n);
}

proof fn lemma_alias_is_kept(aliases: TextMap<u64>, version: u64, i: int, n: int)
    requires
        0 <= i < n <= aliases.keys().len(),
        aliases@[aliases.keys()[i]] == version,
    ensures
        aliases_of(aliases, version, n).contains(aliases.keys()[i]),
    decreases n,
{
    let now = aliases_of(aliases, version, n);
    if i == n - 1 {
        assert(now[now.len() - 1] == aliases.keys()[i]);
    } else {
        lemma_alias_is_kept(aliases, version, i, n - 1);
        let rest = aliases_of(aliases, version, n - 1);
        let k = choose|k: int| 0 <= k < rest.len() && rest[k] == aliases.keys()[i];
        assert(now[k] == aliases.keys()[i]);
    }
}

proof fn lemma_aliases_point(aliases: TextMap<u64>, version: u64, n: int)
    requires
        0 <= n <= aliases.keys().len(),
    ensures
        forall|a: Seq<char>|
            aliases_of(aliases, version, n).contains(a) ==> #[trigger] aliases@[a] == version,
    decreases n,
{
    if n > 0 {
        lemma_aliases_point(aliases, version, n - 1);
        let now = aliases_of(aliases, version, n);
        let rest = aliases_of(aliases, version, n - 1);
        assert forall|a: Seq<char>| now.contains(a) implies #[trigger] aliases@[a] == version by {
            let k = choose|k: int| 0 <= k < now.len() && now[k] == a;
            if k < rest.len() {
                assert(rest[k] == a);
                assert(rest.contains(a));
            }
        }
    }
}

/// The version with a number is found under the digits of the number, and shown
/// as it is; a number that no version has is not found.
pub proof fn law_versions_are_found_by_number(
    registry: ModelRegistry,
    name: Seq<char>,
    i: int,
    missing: u64,
)
    requires
        0 <= i < registry.versions@.len(),
        forall|j: int|
            0 <= j < i ==> (#[trigger] registry.versions@[j]).version
                != registry.versions@[i].version,
        forall|j: int|
            0 <= j < registry.versions@.len() ==> (#[trigger] registry.versions@[j]).version
                != missing,
    ensures
        requested_version(registry, name, decimal(registry.versions@[i].version as nat)) == Ok::<
            VersionModel,
            ErrorModel,
        >(version_shown(registry, registry.versions@[i])),
        requested_version(registry, name, decimal(missing as nat)) matches Err(e) && e.status
            == 404,
{
    let version = registry.versions@[i].version;
    lemma_parse_decimal(version as nat, u64::MAX as nat);
    lemma_parse_decimal(missing as nat, u64::MAX as nat);
    lemma_entry(registry.versions@, version, 0, i);
    lemma_no_entry(registry.versions@, missing, 0);
}

proof fn lemma_entry(versions: Seq<ModelVersion>, version: u64, from: int, i: int)
    requires
        0 <= from <= i < versions.len(),
        versions[i].version == version,
        forall|j: int| 0 <= j < i ==> (#[trigger] versions[j]).version != version,
    ensures
        version_entry(versions, version, from) == Some(versions[i]),
    decreases i - from,
{
    if from < i {
        assert(versions[from].version != version);
        lemma_entry(versions, version, from + 1, i);
    }
}

proof fn lemma_no_entry(versions: Seq<ModelVersion>, version: u64, from: int)
    requires
        0 <= from <= versions.len(),
        forall|j: int| 0 <= j < versions.len() ==> (#[trigger] versions[j]).version != version,
    ensures
        version_entry(versions, version, from) is None,
    decreases versions.len() - from,
{
    if from < versions.len() {
        assert(versions[from].version != version);
        lemma_no_entry(versions, version, from + 1);
    }
}

/// An alias leads to the version that it points at; one that is not set is not
/// found.
pub proof fn law_aliases_lead_to_their_version(
    registry: ModelRegistry,
    name: Seq<char>,
    alias: Seq<char>,
    i: int,
)
    requires
        0 <= i < registry.versions@.len(),
        forall|j: int|
            0 <= j < i ==> (#[trigger] registry.versions@[j]).version
                != registry.versions@[i].version,
    ensures
        registry.aliases@.dom().contains(alias) && registry.aliases@[alias]
            == registry.versions@[i].version ==> alias_target(registry, name, alias) == Ok::<
            VersionModel,
            ErrorModel,
        >(version_shown(registry, registry.versions@[i])),
        !registry.aliases@.dom().contains(alias) ==> (alias_target(
            registry,
            name,
            alias,
        ) matches Err(e) && e.status == 404),
{
    lemma_entry(registry.versions@, registry.versions@[i].version, 0, i);
}

/// The version that an alias is set to is the one whose digits are given.
pub proof fn law_alias_versions_are_read(version: u64)
    ensures
        alias_version(Some(decimal(version as nat))) == Ok::<u64, ErrorModel>(version),
        alias_version(None) is Err,
{
    lemma_parse_decimal(version as nat, u64::MAX as nat);
}

/// A search for versions shows them from the newest on, up to the limit.
pub proof fn law_versions_are_found_newest_first(registry: ModelRegistry, n: u32, i: int)
    ensures
        versions_found(registry, None).len() == registry.versions@.len(),
        0 <= i < registry.versions@.len() ==> versions_found(registry, None)[i] == version_shown(
            registry,
            registry.versions@[registry.versions@.len() - 1 - i],
        ),
        versions_found(registry, Some(n)).len() == (if registry.versions@.len() < n {
            registry.versions@.len() as int
        } else {
            n as int
        }),
        0 <= i < versions_found(registry, Some(n)).len() ==> versions_found(registry, Some(n))[i]
            == versions_found(registry, None)[i],
{
}

/// A registered model is shown with its name, all its versions and all its
/// aliases.
pub proof fn law_models_are_shown_as_they_are(registry: ModelRegistry, i: int)
    ensures
        model_shown(registry).name == registry.name@,
        model_shown(registry).latest_versions.len() == registry.versions@.len(),
        0 <= i < registry.versions@.len() ==> model_shown(registry).latest_versions[i]
            == version_shown(registry, registry.versions@[i]),
        model_shown(registry).aliases.len() == registry.aliases.keys().len(),
        0 <= i < registry.aliases.keys().len() ==> model_shown(registry).aliases[i] == (
            registry.aliases.keys()[i],
            decimal(registry.aliases@[registry.aliases.keys()[i]] as nat),
        ),
{
}

/// A model needs a name, and brings no tags and no description that would be
/// lost.
pub proof fn law_models_are_registered_by_name(name: Seq<char>)
    requires
        trim(name).len() > 0,
    ensures
        model_registered(name, false, false) is Ok,
        model_registered(name, true, false) is Err,
        model_registered(name, false, true) is Err,
        model_registered(Seq::empty(), false, false) is Err,
{
    let (a, b) = lemma_trim(Seq::<char>::empty());
}

/// A clause on the name selects the models with the name, or those whose name
/// matches; a clause that demands a tag selects none, since models have none.
pub proof fn law_model_clauses_mean_what_they_say(
    clause: Seq<char>,
    key: Seq<char>,
    value: Seq<char>,
    name: Seq<char>,
)
    requires
        lower_text(key) == "name"@ || lower_text(key) == "attributes.name"@,
    ensures
        model_clause_condition(clause, PartsModel { key, op: "="@, value }) matches Ok(c) && (
        model_selected(seq![c], name) <==> name == value),
        model_clause_condition(clause, PartsModel { key, op: "LIKE"@, value }) matches Ok(c) && (
        model_selected(seq![c], name) <==> is_like(name, value)),
        model_clause_condition(clause, PartsModel { key, op: "!="@, value }) is Err,
{
    reveal_strlit("name");
    reveal_strlit("attributes.name");
    reveal_strlit("tag.");
    reveal_strlit("tags.");
    reveal_strlit("=");
    reveal_strlit("LIKE");
    reveal_strlit("!=");
    assert("="@.len() == 1 && "LIKE"@.len() == 4 && "!="@.len() == 2);
    let field = lower_text(key);
    assert(!starts_with(field, "tag."@)) by {
        if starts_with(field, "tag."@) {
            assert(field.subrange(0, 4)[0] == 't');
        }
    }
    assert(!starts_with(field, "tags."@)) by {
        if starts_with(field, "tags."@) {
            assert(field.subrange(0, 5)[0] == 't');
        }
    }
    reveal_with_fuel(wanted_name, 2);
    reveal_with_fuel(wanted_pattern, 2);
    let eq = seq![ModelCondition::NameEq(value)];
    let like = seq![ModelCondition::NameLike(value)];
    assert(eq.drop_last() =~= Seq::<ModelCondition>::empty());
    assert(like.drop_last() =~= Seq::<ModelCondition>::empty());
}

/// A clause on a tag: `=` selects no model, `!=` every one.
pub proof fn law_model_tag_clauses_mean_what_they_say(
    clause: Seq<char>,
    tag: Seq<char>,
    value: Seq<char>,
    name: Seq<char>,
)
    requires
        tag.len() > 0,
        tag[0] != '`' && tag.last() != '`',
        lower_text(tag) == tag,
    ensures
        model_clause_condition(
            clause,
            PartsModel { key: "tag."@ + tag, op: "="@, value },
        ) matches Ok(c) && !model_selected(seq![c], name),
        model_clause_condition(
            clause,
            PartsModel { key: "tags."@ + tag, op: "!="@, value },
        ) matches Ok(c) && model_selected(seq![c], name),
        model_clause_condition(
            clause,
            PartsModel { key: "tag."@ + tag, op: "LIKE"@, value },
        ) is Err,
{
    reveal_strlit("tag.");
    reveal_strlit("tags.");
    reveal_strlit("=");
    reveal_strlit("!=");
    reveal_strlit("LIKE");
    assert("="@.len() == 1 && "LIKE"@.len() == 4 && "!="@.len() == 2);
    let a = "tag."@ + tag;
    let b = "tags."@ + tag;
    assert forall|i: int| 0 <= i < tag.len() implies lower(tag[i]) == tag[i] by {
        assert(lower_text(tag)[i] == tag[i]);
    }
    assert(lower_text(a) =~= a);
    assert(lower_text(b) =~= b);
    assert(a.subrange(0, 4) =~= "tag."@);
    assert(b.subrange(0, 5) =~= "tags."@);
    assert(!starts_with(b, "tag."@)) by {
        if starts_with(b, "tag."@) {
            assert(b.subrange(0, 4)[3] == '.');
        }
    }
    assert(a.skip(4) =~= tag);
    assert(b.skip(5) =~= tag);
    assert(trim_char(tag, '`') == tag);
    let demanded = ModelCondition::Tag(tag, value, true);
    let denied = ModelCondition::Tag(tag, value, false);
    assert(seq![demanded][0] == demanded);
    law_denied_tags_hide_nothing(seq![denied], name);
}

/// A search for models shows the ones that are selected, in order, up to the
/// limit.
pub proof fn law_selected_models_are_found(
    conditions: Seq<ModelCondition>,
    records: Seq<ModelRegistry>,
    model: ModelRegistry,
    n: u32,
    i: int,
)
    ensures
        model_selected(conditions, model.name@) ==> models_found(conditions, records.push(model))
            == models_found(conditions, records).push(model_shown(model)),
        !model_selected(conditions, model.name@) ==> models_found(conditions, records.push(model))
            == models_found(conditions, records),
        first_results(models_found(conditions, records), None) == models_found(conditions, records),
        first_results(models_found(conditions, records), Some(n)).len() <= n,
        0 <= i < n && i < models_found(conditions, records).len() ==> first_results(
            models_found(conditions, records),
            Some(n),
        )[i] == models_found(conditions, records)[i],
{
    assert(records.push(model).drop_last() =~= records);
}

/// The versions of a search are those of the model that is named; the filter
/// names it where the request does not.
pub proof fn law_version_searches_name_their_model(
    name: Seq<char>,
    filter: Seq<char>,
    clause: Seq<char>,
    key: Seq<char>,
    value: Seq<char>,
)
    requires
        trim(name).len() > 0,
    ensures
        searched_name(name, None) == Ok::<Seq<char>, ErrorModel>(trim(name)),
        searched_name(name, Some(filter)) == Ok::<Seq<char>, ErrorModel>(trim(name)),
        searched_name(Seq::empty(), None) is Err,
        lower_text(key) == "name"@ ==> version_clause_name(
            clause,
            PartsModel { key, op: "="@, value },
        ) == Ok::<Seq<char>, ErrorModel>(value),
        version_clause_name(clause, PartsModel { key, op: "LIKE"@, value }) is Err,
        (filter_names(filter) matches Ok(names) && names.len() > 0 && names.last().len() > 0)
            ==> searched_name(Seq::empty(), Some(filter)) == Ok::<Seq<char>, ErrorModel>(
            filter_names(filter)->Ok_0.last(),
        ),
{
    reveal_strlit("name");
    reveal_strlit("=");
    reveal_strlit("LIKE");
    let (a, b) = lemma_trim(Seq::<char>::empty());
    assert(trim(Seq::<char>::empty()).len() == 0);
    if lower_text(key) == "name"@ {
        assert(lower_text(key).len() == key.len());
        assert forall|j: int| 0 <= j < 4 implies lower(key[0 + j]) == lower(
            #[trigger] "name"@[j],
        ) by {
            assert(lower_text(key)[j] == lower(key[j]));
        }
    }
    assert("="@.len() == 1 && "LIKE"@.len() == 4);
}

} // verus!
