//! Collecting the catalog targets from a walk through a syntax tree.

use vstd::prelude::*;
use vstd::string::*;
use crate::sql::authority::ast::{
    ArgumentModel, AstEvent, CallModel, EventModel, IdentModel, SetBody, SqlArgument, SqlCall,
    SqlIdent, SqlName, SqlQuery, SqlStatement, SqlTable, StatementModel, TableModel, opt_call,
};
use crate::text::ascii::{char_lower, eq_ci, lower, lower_text};
use crate::text::chars::{
    chars_of, copied, copied_opt, lemma_views_push, opt_text, same_text, texts, views,
};
use crate::text::float::equal_ci;
use crate::text::split::{join_texts, joined};

verus! {

/// The names that a query's common table expressions declare.
pub struct ScopeModel {
    pub aliases: Seq<Seq<char>>,
    pub recursive: bool,
    /// How many of the names are visible at the present step.
    pub visible: int,
    /// How many of the definitions have been entered.
    pub entered: int,
    /// The query is itself a definition of the enclosing query.
    pub definition: bool,
}

pub struct CollectorModel {
    pub scopes: Seq<ScopeModel>,
    pub targets: Seq<Seq<char>>,
}

/// What identifiers are compared by: without quotes, case does not count.
pub open spec fn identifier_key(ident: IdentModel) -> Seq<char> {
    if ident.quoted {
        ident.value
    } else {
        lower_text(ident.value)
    }
}

pub open spec fn identifier_keys(idents: Seq<IdentModel>) -> Seq<Seq<char>> {
    Seq::new(idents.len(), |i: int| identifier_key(idents[i]))
}

/// The last of the first `n` names that is `key`.
pub open spec fn last_alias(aliases: Seq<Seq<char>>, key: Seq<char>, n: int) -> Option<int>
    decreases n,
{
    if n <= 0 {
        None
    } else if aliases[n - 1] == key {
        Some(n - 1)
    } else {
        last_alias(aliases, key, n - 1)
    }
}

/// The scope declares the name, and it is visible.
pub open spec fn declares(scope: ScopeModel, key: Seq<char>) -> bool {
    last_alias(scope.aliases, key, scope.aliases.len() as int) matches Some(i) && i
        < scope.visible
}

/// The name is that of a visible common table expression.
pub open spec fn is_cte_reference(
    scopes: Seq<ScopeModel>,
    name: Seq<Option<IdentModel>>,
) -> bool {
    &&& name.len() == 1
    &&& name[0] matches Some(ident) && exists|i: int|
        0 <= i < scopes.len() && declares(#[trigger] scopes[i], identifier_key(ident))
}

pub open spec fn all_identifiers(name: Seq<Option<IdentModel>>) -> bool {
    forall|i: int| 0 <= i < name.len() ==> (#[trigger] name[i]) is Some
}

pub open spec fn part_values(name: Seq<Option<IdentModel>>) -> Seq<Seq<char>> {
    Seq::new(name.len(), |i: int| name[i]->0.value)
}

/// The dotted path of a name; none where a part is no identifier.
pub open spec fn relation_path(name: Seq<Option<IdentModel>>) -> Seq<Seq<char>> {
    if name.len() > 0 && all_identifiers(name) {
        seq![joined(part_values(name), "."@)]
    } else {
        Seq::empty()
    }
}

/// The functions whose first argument names a catalog object, in any case and
/// without quotes.
pub open spec fn is_catalog_function(name: Seq<Option<IdentModel>>) -> bool {
    &&& name.len() > 0
    &&& name.last() matches Some(ident) && !ident.quoted && is_catalog_function_name(ident.value)
}

pub open spec fn is_catalog_function_name(name: Seq<char>) -> bool {
    eq_ci(name, "VECTOR_SEARCH"@) || eq_ci(name, "DOCUMENT_QUERY"@) || eq_ci(name, "LOGS"@)
        || eq_ci(name, "METRICS"@) || eq_ci(name, "TRACES"@) || eq_ci(name, "RERANK"@)
}

/// A name that can be looked up: not blank and no placeholder.
pub open spec fn is_target(name: Seq<char>) -> bool {
    name.len() > 0 && name[0] != '$' && name != "?"@
}

/// The text of an argument that can name a target.
pub open spec fn argument_text(argument: ArgumentModel) -> Option<Seq<char>> {
    match argument {
        ArgumentModel::Literal(text) => text,
        ArgumentModel::Identifier(name) => Some(name),
        ArgumentModel::Compound(parts) => Some(joined(parts, "."@)),
        ArgumentModel::Other => None,
    }
}

/// The text of the first argument, where there is one that can name a target.
pub open spec fn first_text(args: Seq<ArgumentModel>) -> Option<Seq<char>> {
    if args.len() > 0 {
        argument_text(args[0])
    } else {
        None
    }
}

/// The target of a call of a catalog function: its first argument.
pub open spec fn call_targets(call: CallModel) -> Seq<Seq<char>> {
    if is_catalog_function(call.name) && first_text(call.args) is Some && is_target(
        first_text(call.args)->0,
    ) {
        seq![first_text(call.args)->0]
    } else {
        Seq::empty()
    }
}

pub open spec fn opt_call_targets(call: Option<CallModel>) -> Seq<Seq<char>> {
    match call {
        Some(c) => call_targets(c),
        None => Seq::empty(),
    }
}

/// The targets of the first `n` calls.
pub open spec fn calls_targets(calls: Seq<Option<CallModel>>, n: int) -> Seq<Seq<char>>
    decreases n,
{
    if n <= 0 {
        Seq::empty()
    } else {
        calls_targets(calls, n - 1) + opt_call_targets(calls[n - 1])
    }
}

/// The targets of a table that is read: a relation that no common table
/// expression stands for, or the target of a call.
pub open spec fn table_targets(scopes: Seq<ScopeModel>, table: TableModel) -> Seq<Seq<char>> {
    match table {
        TableModel::Relation(name) => if is_cte_reference(scopes, name) {
            Seq::empty()
        } else {
            relation_path(name)
        },
        TableModel::Call(call) => call_targets(call),
        TableModel::Other => Seq::empty(),
    }
}

/// The targets of a table that is written to: common table expressions cannot
/// be.
pub open spec fn written_targets(table: TableModel) -> Seq<Seq<char>> {
    match table {
        TableModel::Relation(name) => relation_path(name),
        _ => Seq::empty(),
    }
}

pub open spec fn written_tables(tables: Seq<TableModel>, n: int) -> Seq<Seq<char>>
    decreases n,
{
    if n <= 0 {
        Seq::empty()
    } else {
        written_tables(tables, n - 1) + written_targets(tables[n - 1])
    }
}

pub open spec fn written_names(names: Seq<Seq<Option<IdentModel>>>, n: int) -> Seq<Seq<char>>
    decreases n,
{
    if n <= 0 {
        Seq::empty()
    } else {
        written_names(names, n - 1) + relation_path(names[n - 1])
    }
}

/// The targets that a statement names. A `DELETE` with a list of tables
/// deletes from these, and else from its `FROM` tables.
pub open spec fn statement_targets(statement: StatementModel) -> Seq<Seq<char>> {
    match statement {
        StatementModel::InsertInto(name) => relation_path(name),
        StatementModel::InsertIntoCall(call) => opt_call_targets(call),
        StatementModel::Update(table) => written_targets(table),
        StatementModel::Delete { tables, from } => if tables.len() == 0 {
            written_tables(from, from.len() as int)
        } else {
            written_names(tables, tables.len() as int)
        },
        StatementModel::Merge(table) => written_targets(table),
        StatementModel::Call(call) => opt_call_targets(call),
        StatementModel::Other => Seq::empty(),
    }
}

/// The enclosing scopes when a query is entered. A definition sees the names
/// declared before it, and its own where the list is recursive.
pub open spec fn scopes_around(scopes: Seq<ScopeModel>) -> Seq<ScopeModel> {
    if is_definition(scopes) {
        let parent = scopes.last();
        scopes.drop_last().push(
            ScopeModel {
                visible: parent.entered + if parent.recursive {
                    1int
                } else {
                    0int
                },
                entered: parent.entered + 1,
                ..parent
            },
        )
    } else {
        scopes
    }
}

/// A query that is entered now is a definition of the innermost scope.
pub open spec fn is_definition(scopes: Seq<ScopeModel>) -> bool {
    scopes.len() > 0 && scopes.last().entered < scopes.last().aliases.len()
}

/// The enclosing scopes when a query is left: behind a definition all names of
/// the scope are visible again.
pub open spec fn scopes_behind(scopes: Seq<ScopeModel>) -> Seq<ScopeModel> {
    if scopes.len() == 0 {
        scopes
    } else {
        let outer = scopes.drop_last();
        if scopes.last().definition && outer.len() > 0 {
            let parent = outer.last();
            outer.drop_last().push(
                ScopeModel { visible: parent.aliases.len() as int, ..parent },
            )
        } else {
            outer
        }
    }
}

pub open spec fn collector_step(state: CollectorModel, event: EventModel) -> CollectorModel {
    match event {
        EventModel::EnterQuery(query) => CollectorModel {
            scopes: scopes_around(state.scopes).push(
                ScopeModel {
                    aliases: identifier_keys(query.ctes),
                    recursive: query.recursive,
                    visible: query.ctes.len() as int,
                    entered: 0,
                    definition: is_definition(state.scopes),
                },
            ),
            targets: state.targets + calls_targets(query.calls, query.calls.len() as int),
        },
        EventModel::LeaveQuery => CollectorModel {
            scopes: scopes_behind(state.scopes),
            targets: state.targets,
        },
        EventModel::Table(table) => CollectorModel {
            scopes: state.scopes,
            targets: state.targets + table_targets(state.scopes, table),
        },
        EventModel::Expression(call) => CollectorModel {
            scopes: state.scopes,
            targets: state.targets + opt_call_targets(call),
        },
        EventModel::Statement(statement) => CollectorModel {
            scopes: state.scopes,
            targets: state.targets + statement_targets(statement),
        },
    }
}

/// The state behind the first `n` steps of a walk.
pub open spec fn collector_at(events: Seq<EventModel>, n: int) -> CollectorModel
    decreases n,
{
    if n <= 0 {
        CollectorModel { scopes: Seq::empty(), targets: Seq::empty() }
    } else {
        collector_step(collector_at(events, n - 1), events[n - 1])
    }
}

/// The targets that a walk collects.
pub open spec fn collected_targets(events: Seq<EventModel>) -> Seq<Seq<char>> {
    collector_at(events, events.len() as int).targets
}

/// At every step of a walk: inside the definition of a common table expression
/// exactly the names declared before it are visible, with its own where the
/// list is recursive; elsewhere all names are.
pub proof fn law_cte_visibility(events: Seq<EventModel>, n: int, i: int)
    requires
        0 <= n <= events.len(),
        0 <= i < collector_at(events, n).scopes.len(),
    ensures
        ({
            let scopes = collector_at(events, n).scopes;
            let scope = scopes[i];
            &&& 0 <= scope.entered <= scope.aliases.len()
            &&& scope.visible == (if i + 1 < scopes.len() && scopes[i + 1].definition {
                scope.entered - 1 + if scope.recursive {
                    1int
                } else {
                    0int
                }
            } else {
                scope.aliases.len() as int
            })
        }),
    decreases n,
{
    let before = collector_at(events, n - 1).scopes;
    let now = collector_at(events, n).scopes;
    assert(n > 0);
    match events[n - 1] {
        EventModel::EnterQuery(query) => {
            if i < before.len() {
                law_cte_visibility(events, n - 1, i);
            }
        },
        EventModel::LeaveQuery => {
            law_cte_visibility(events, n - 1, i);
            if i + 1 < before.len() - 1 {
                assert(now[i + 1].definition == before[i + 1].definition);
            }
        },
        _ => {
            law_cte_visibility(events, n - 1, i);
        },
    }
}

/// The names that a query's common table expressions declare.
struct CteScope {
    aliases: Vec<String>,
    recursive: bool,
    visible: usize,
    entered: usize,
    definition: bool,
}

impl View for CteScope {
    type V = ScopeModel;

    closed spec fn view(&self) -> ScopeModel {
        ScopeModel {
            aliases: texts(self.aliases@),
            recursive: self.recursive,
            visible: self.visible as int,
            entered: self.entered as int,
            definition: self.definition,
        }
    }
}

fn key_of(ident: &SqlIdent) -> (r: String)
    ensures
        r@ == identifier_key(ident@),
{
    if ident.quoted {
        return copied(&ident.value);
    }
    let s: Vec<char> = chars_of(ident.value.as_str());
    let mut r: String = String::new();
    let mut i: usize = 0;
    while i < s.len()
        invariant
            i <= s@.len(),
            r@ == lower_text(s@).take(i as int),
        decreases s@.len() - i,
    {
        r.push(char_lower(s[i]));
        assert(lower_text(s@).take(i + 1) =~= lower_text(s@).take(i as int).push(
            lower(s@[i as int]),
        ));
        i += 1;
    }
    assert(lower_text(s@).take(s@.len() as int) =~= lower_text(s@));
    r
}

fn scope_declares(scope: &CteScope, key: &str) -> (r: bool)
    ensures
        r == declares(scope@, key@),
{
    let mut n: usize = scope.aliases.len();
    while n > 0
        invariant
            n <= scope.aliases@.len(),
            last_alias(scope@.aliases, key@, scope@.aliases.len() as int) == last_alias(
                scope@.aliases,
                key@,
                n as int,
            ),
        decreases n,
    {
        assert(scope@.aliases[n - 1] == scope.aliases@[n - 1]@);
        if same_text(scope.aliases[n - 1].as_str(), key) {
            return n - 1 < scope.visible;
        }
        n -= 1;
    }
    false
}

fn names_cte(scopes: &Vec<CteScope>, name: &SqlName) -> (r: bool)
    ensures
        r == is_cte_reference(views(scopes@), name@),
{
    if name.parts.len() != 1 {
        return false;
    }
    assert(name@[0] == (match name.parts@[0] {
        Some(ident) => Some(ident@),
        None => None,
    }));
    match &name.parts[0] {
        None => false,
        Some(ident) => {
            let key: String = key_of(ident);
            let ghost models = views(scopes@);
            let mut i: usize = scopes.len();
            while i > 0
                invariant
                    i <= scopes@.len(),
                    models == views(scopes@),
                    name@.len() == 1,
                    name@[0] == Some(ident@),
                    key@ == identifier_key(ident@),
                    forall|j: int|
                        i <= j < scopes@.len() ==> !declares(#[trigger] models[j], key@),
                decreases i,
            {
                assert(models[i - 1] == scopes@[i - 1]@);
                if scope_declares(&scopes[i - 1], key.as_str()) {
                    assert(declares(models[i - 1], key@));
                    return true;
                }
                i -= 1;
            }
            false
        },
    }
}

fn push_path(name: &SqlName, targets: &mut Vec<String>)
    ensures
        texts(final(targets)@) == texts(old(targets)@) + relation_path(name@),
{
    let ghost before = texts(targets@);
    let mut values: Vec<String> = Vec::new();
    let mut i: usize = 0;
    while i < name.parts.len()
        invariant
            i <= name.parts@.len(),
            values@.len() == i,
            before == texts(targets@),
            forall|j: int| 0 <= j < i ==> (#[trigger] name@[j]) is Some,
            forall|j: int| 0 <= j < i ==> (#[trigger] values@[j])@ == name@[j]->0.value,
        decreases name.parts@.len() - i,
    {
        match &name.parts[i] {
            None => {
                assert(name@[i as int] is None);
                assert(texts(targets@) =~= before + relation_path(name@));
                return;
            },
            Some(ident) => {
                values.push(copied(&ident.value));
            },
        }
        i += 1;
    }
    if values.len() == 0 {
        assert(texts(targets@) =~= before + relation_path(name@));
        return;
    }
    assert(texts(values@) =~= part_values(name@));
    let path: String = join_texts(values.as_slice(), ".");
    targets.push(path);
    assert(texts(targets@) =~= before + relation_path(name@));
}

fn name_is_catalog_function(name: &SqlName) -> (r: bool)
    ensures
        r == is_catalog_function(name@),
{
    let n: usize = name.parts.len();
    if n == 0 {
        return false;
    }
    match &name.parts[n - 1] {
        None => false,
        Some(ident) => {
            let s: Vec<char> = chars_of(ident.value.as_str());
            let s: &[char] = s.as_slice();
            !ident.quoted && (equal_ci(s, "VECTOR_SEARCH") || equal_ci(s, "DOCUMENT_QUERY")
                || equal_ci(s, "LOGS") || equal_ci(s, "METRICS") || equal_ci(s, "TRACES")
                || equal_ci(s, "RERANK"))
        },
    }
}

fn text_of_argument(argument: &SqlArgument) -> (r: Option<String>)
    ensures
        opt_text(r) == argument_text(argument@),
{
    match argument {
        SqlArgument::Literal(text) => copied_opt(text),
        SqlArgument::Identifier(name) => Some(copied(name)),
        SqlArgument::Compound(parts) => Some(join_texts(parts.as_slice(), ".")),
        SqlArgument::Other => None,
    }
}

pub fn name_is_target(name: &String) -> (r: bool)
    ensures
        r == is_target(name@),
{
    name.as_str().unicode_len() > 0 && name.as_str().get_char(0) != '$' && !same_text(
        name.as_str(),
        "?",
    )
}

fn push_call(call: &SqlCall, targets: &mut Vec<String>)
    ensures
        texts(final(targets)@) == texts(old(targets)@) + call_targets(call@),
{
    let ghost before = texts(targets@);
    if name_is_catalog_function(&call.name) && call.args.len() > 0 {
        assert(call@.args[0] == call.args@[0]@);
        if let Some(target) = text_of_argument(&call.args[0]) {
            if name_is_target(&target) {
                targets.push(target);
                assert(texts(targets@) =~= before + seq![target@]);
                return;
            }
        }
    }
    assert(texts(targets@) =~= before + call_targets(call@));
}

fn push_opt_call(call: &Option<SqlCall>, targets: &mut Vec<String>)
    ensures
        texts(final(targets)@) == texts(old(targets)@) + opt_call_targets(opt_call(*call)),
{
    match call {
        Some(call) => push_call(call, targets),
        None => {
            assert(texts(targets@) + Seq::<Seq<char>>::empty() =~= texts(targets@));
        },
    }
}

fn push_written(table: &SqlTable, targets: &mut Vec<String>)
    ensures
        texts(final(targets)@) == texts(old(targets)@) + written_targets(table@),
{
    match table {
        SqlTable::Relation(name) => push_path(name, targets),
        _ => {
            assert(texts(targets@) + Seq::<Seq<char>>::empty() =~= texts(targets@));
        },
    }
}

fn push_statement(statement: &SqlStatement, targets: &mut Vec<String>)
    ensures
        texts(final(targets)@) == texts(old(targets)@) + statement_targets(statement@),
{
    let ghost before = texts(targets@);
    match statement {
        SqlStatement::InsertInto(name) => push_path(name, targets),
        SqlStatement::InsertIntoCall(call) => push_opt_call(call, targets),
        SqlStatement::Update(table) => push_written(table, targets),
        SqlStatement::Delete { tables, from } => {
            if tables.len() == 0 {
                let ghost models = views(from@);
                let mut i: usize = 0;
                assert(before + Seq::<Seq<char>>::empty() =~= before);
                while i < from.len()
                    invariant
                        i <= from@.len(),
                        models == views(from@),
                        texts(targets@) == before + written_tables(models, i as int),
                    decreases from@.len() - i,
                {
                    let ghost done = written_tables(models, i as int);
                    push_written(&from[i], targets);
                    assert(models[i as int] == from@[i as int]@);
                    assert((before + done) + written_targets(models[i as int]) =~= before + (done
                        + written_targets(models[i as int])));
                    i += 1;
                }
            } else {
                let ghost models = views(tables@);
                let mut i: usize = 0;
                assert(before + Seq::<Seq<char>>::empty() =~= before);
                while i < tables.len()
                    invariant
                        i <= tables@.len(),
                        models == views(tables@),
                        texts(targets@) == before + written_names(models, i as int),
                    decreases tables@.len() - i,
                {
                    let ghost done = written_names(models, i as int);
                    push_path(&tables[i], targets);
                    assert(models[i as int] == tables@[i as int]@);
                    assert((before + done) + relation_path(models[i as int]) =~= before + (done
                        + relation_path(models[i as int])));
                    i += 1;
                }
            }
        },
        SqlStatement::Merge(table) => push_written(table, targets),
        SqlStatement::Call(call) => push_opt_call(call, targets),
        SqlStatement::Other => {
            assert(before + Seq::<Seq<char>>::empty() =~= before);
        },
    }
}

fn push_table(scopes: &Vec<CteScope>, table: &SqlTable, targets: &mut Vec<String>)
    ensures
        texts(final(targets)@) == texts(old(targets)@) + table_targets(views(scopes@), table@),
{
    match table {
        SqlTable::Relation(name) => {
            if !names_cte(scopes, name) {
                push_path(name, targets);
            } else {
                assert(texts(targets@) + Seq::<Seq<char>>::empty() =~= texts(targets@));
            }
        },
        SqlTable::Call(call) => push_call(call, targets),
        SqlTable::Other => {
            assert(texts(targets@) + Seq::<Seq<char>>::empty() =~= texts(targets@));
        },
    }
}

/// The state of a walk is within machine bounds.
spec fn scopes_fit(scopes: Seq<ScopeModel>) -> bool {
    forall|i: int|
        0 <= i < scopes.len() ==> 0 <= (#[trigger] scopes[i]).entered <= scopes[i].aliases.len()
}

fn enter_query(scopes: &mut Vec<CteScope>, query: &SqlQuery, targets: &mut Vec<String>)
    requires
        scopes_fit(views(old(scopes)@)),
    ensures
        scopes_fit(views(final(scopes)@)),
        collector_step(
            CollectorModel { scopes: views(old(scopes)@), targets: texts(old(targets)@) },
            EventModel::EnterQuery(query@),
        ) == (CollectorModel {
            scopes: views(final(scopes)@),
            targets: texts(final(targets)@),
        }),
{
    let ghost before = views(scopes@);
    let ghost collected = texts(targets@);
    let n: usize = scopes.len();
    let mut definition: bool = false;
    if n > 0 {
        assert(before.last() == scopes@[n - 1]@);
        assert(before[n - 1].entered <= before[n - 1].aliases.len());
        if scopes[n - 1].entered < scopes[n - 1].aliases.len() {
            definition = true;
            let parent: CteScope = scopes.pop().unwrap();
            let visible: usize = if parent.recursive {
                parent.entered + 1
            } else {
                parent.entered
            };
            let entered: usize = parent.entered + 1;
            scopes.push(
                CteScope {
                    aliases: parent.aliases,
                    recursive: parent.recursive,
                    visible,
                    entered,
                    definition: parent.definition,
                },
            );
        }
    }
    assert(views(scopes@) =~= scopes_around(before));
    let mut aliases: Vec<String> = Vec::new();
    let mut i: usize = 0;
    while i < query.ctes.len()
        invariant
            i <= query.ctes@.len(),
            aliases@.len() == i,
            forall|j: int|
                0 <= j < i ==> (#[trigger] aliases@[j])@ == identifier_keys(query@.ctes)[j],
        decreases query.ctes@.len() - i,
    {
        aliases.push(key_of(&query.ctes[i]));
        i += 1;
    }
    assert(texts(aliases@) =~= identifier_keys(query@.ctes));
    let visible: usize = aliases.len();
    let scope: CteScope = CteScope {
        aliases,
        recursive: query.recursive,
        visible,
        entered: 0,
        definition,
    };
    proof {
        lemma_views_push(scopes@, scope);
    }
    scopes.push(scope);
    let ghost calls = query@.calls;
    let mut k: usize = 0;
    assert(collected + Seq::<Seq<char>>::empty() =~= collected);
    while k < query.calls.len()
        invariant
            k <= query.calls@.len(),
            calls == query@.calls,
            texts(targets@) == collected + calls_targets(calls, k as int),
        decreases query.calls@.len() - k,
    {
        let ghost done = calls_targets(calls, k as int);
        push_opt_call(&query.calls[k], targets);
        assert(calls[k as int] == opt_call(query.calls@[k as int]));
        assert((collected + done) + opt_call_targets(calls[k as int]) =~= collected + (done
            + opt_call_targets(calls[k as int])));
        k += 1;
    }
}

fn leave_query(scopes: &mut Vec<CteScope>)
    requires
        scopes_fit(views(old(scopes)@)),
    ensures
        scopes_fit(views(final(scopes)@)),
        views(final(scopes)@) == scopes_behind(views(old(scopes)@)),
{
    let ghost before = views(scopes@);
    match scopes.pop() {
        None => {
            assert(views(scopes@) =~= before);
        },
        Some(left) => {
            assert(before.last() == left@);
            assert(views(scopes@) =~= before.drop_last());
            if left.definition && scopes.len() > 0 {
                let ghost outer = views(scopes@);
                let parent: CteScope = scopes.pop().unwrap();
                assert(outer.last() == parent@);
                let visible: usize = parent.aliases.len();
                scopes.push(
                    CteScope {
                        aliases: parent.aliases,
                        recursive: parent.recursive,
                        visible,
                        entered: parent.entered,
                        definition: parent.definition,
                    },
                );
            }
            assert(views(scopes@) =~= scopes_behind(before));
        },
    }
}

/// Appends the catalog targets that a walk collects.
pub fn collect_targets(events: &Vec<AstEvent>, targets: &mut Vec<String>)
    ensures
        texts(final(targets)@) == texts(old(targets)@) + collected_targets(views(events@)),
{
    let ghost start = texts(targets@);
    let ghost models = views(events@);
    let mut collected: Vec<String> = Vec::new();
    let mut scopes: Vec<CteScope> = Vec::new();
    let mut i: usize = 0;
    assert(views(scopes@) =~= Seq::<ScopeModel>::empty());
    assert(texts(collected@) =~= Seq::<Seq<char>>::empty());
    while i < events.len()
        invariant
            i <= events@.len(),
            models == views(events@),
            scopes_fit(views(scopes@)),
            collector_at(models, i as int) == (CollectorModel {
                scopes: views(scopes@),
                targets: texts(collected@),
            }),
        decreases events@.len() - i,
    {
        assert(models[i as int] == events@[i as int]@);
        match &events[i] {
            AstEvent::EnterQuery(query) => enter_query(&mut scopes, query, &mut collected),
            AstEvent::LeaveQuery => leave_query(&mut scopes),
            AstEvent::Table(table) => push_table(&scopes, table, &mut collected),
            AstEvent::Expression(call) => push_opt_call(call, &mut collected),
            AstEvent::Statement(statement) => push_statement(statement, &mut collected),
        }
        i += 1;
    }
    let ghost found = texts(collected@);
    targets.append(&mut collected);
    assert(texts(targets@) =~= start + found);
}

/// The number of `TABLE` operands in a query body, in the body of the query
/// itself.
pub open spec fn direct_tables(body: SetBody) -> nat
    decreases body,
{
    match body {
        SetBody::Table => 1,
        SetBody::Operation(left, right) => direct_tables(*left) + direct_tables(*right),
        SetBody::Other => 0,
    }
}

/// The number of `TABLE` operands in the queries of the first `n` steps.
pub open spec fn table_count(events: Seq<EventModel>, n: int) -> nat
    decreases n,
{
    if n <= 0 {
        0
    } else {
        table_count(events, n - 1) + match events[n - 1] {
            EventModel::EnterQuery(query) => direct_tables(query.body),
            _ => 0,
        }
    }
}

/// A number, or the greatest machine number where it is more.
pub open spec fn capped(n: nat) -> nat {
    if n <= usize::MAX {
        n
    } else {
        usize::MAX as nat
    }
}

fn direct_table_count(body: &SetBody) -> (r: usize)
    ensures
        r == capped(direct_tables(*body)),
    decreases body,
{
    match body {
        SetBody::Table => 1,
        SetBody::Operation(left, right) => {
            let a: usize = direct_table_count(left);
            let b: usize = direct_table_count(right);
            a.saturating_add(b)
        },
        SetBody::Other => 0,
    }
}

/// The number of `TABLE` operands in the queries of a walk, capped at the
/// greatest machine number.
pub fn count_tables(events: &Vec<AstEvent>) -> (r: usize)
    ensures
        r == capped(table_count(views(events@), events@.len() as int)),
{
    let ghost models = views(events@);
    let mut count: usize = 0;
    let mut i: usize = 0;
    while i < events.len()
        invariant
            i <= events@.len(),
            models == views(events@),
            count == capped(table_count(models, i as int)),
        decreases events@.len() - i,
    {
        assert(models[i as int] == events@[i as int]@);
        if let AstEvent::EnterQuery(query) = &events[i] {
            let more: usize = direct_table_count(&query.body);
            count = count.saturating_add(more);
        }
        i += 1;
    }
    count
}

} // verus!
