//! Contains the rules for running operations on units: which arguments a
//! unit accepts, which units its dependencies are, and which of the values
//! that they emitted it captures.

use super::unit_execution::{Call, ExecutionView, UnitExecution};
use crate::error::Error;
use crate::models::dep::{CaptureView, Dependencies, Dependency, DependencyView};
use crate::models::meta::Meta;
use crate::models::params::{Param, ParamView};
use crate::models::target::{clone_target, same_target, TargetView};
use crate::models::unit::{unit_id, Unit};
use crate::models::val::{ascending, bindings_map, binds, lemma_binding_at, listing, position_of, Binding, ValueSet, ValueType, ValueView};
use crate::models::{opt_view, seq_view};
use vstd::prelude::*;

verus! {

/// Why the arguments of a unit are refused.
pub ghost enum Refusal {
    /// A required parameter has no argument.
    Missing(Seq<char>),
    /// An argument is for no declared parameter.
    Unknown(Seq<char>),
    /// An argument is not of the type that its parameter declares.
    WrongType(Seq<char>, ValueType, ValueType),
}

/// The first of the parameters from the `i`th on that is required and has no
/// argument among `args`.
pub open spec fn first_missing(
    params: Seq<ParamView>,
    args: Map<Seq<char>, ValueView>,
    i: int,
) -> Option<Seq<char>>
    decreases params.len() - i,
{
    if 0 <= i < params.len() {
        if params[i].required && !args.contains_key(params[i].name) {
            Some(params[i].name)
        } else {
            first_missing(params, args, i + 1)
        }
    } else {
        None
    }
}

/// The first of the parameters from the `i`th on that is called `name`.
pub open spec fn param_named(params: Seq<ParamView>, name: Seq<char>, i: int) -> Option<ParamView>
    decreases params.len() - i,
{
    if 0 <= i < params.len() {
        if params[i].name == name {
            Some(params[i])
        } else {
            param_named(params, name, i + 1)
        }
    } else {
        None
    }
}

/// Why the first of the arguments from the `j`th on that does not fit the
/// parameters is refused, if one does not fit.
pub open spec fn first_misfit(params: Seq<ParamView>, args: Seq<Binding>, j: int) -> Option<Refusal>
    decreases args.len() - j,
{
    if 0 <= j < args.len() {
        match param_named(params, args[j].0, 0) {
            Some(param) => if args[j].1.value_type() != param.value_type {
                Some(Refusal::WrongType(args[j].0, args[j].1.value_type(), param.value_type))
            } else {
                first_misfit(params, args, j + 1)
            },
            None => Some(Refusal::Unknown(args[j].0)),
        }
    } else {
        None
    }
}

/// Why arguments are refused for parameters, if they are: for the first
/// required parameter that lacks an argument; else for the first argument, by
/// name, that is for no parameter or of the wrong type.
pub open spec fn refusal(params: Seq<ParamView>, args: Seq<Binding>) -> Option<Refusal> {
    match first_missing(params, bindings_map(args), 0) {
        Some(name) => Some(Refusal::Missing(name)),
        None => first_misfit(params, args, 0),
    }
}

/// Whether `e` reports the refusal `why`.
pub open spec fn reports_refusal(e: Error, why: Refusal) -> bool {
    match why {
        Refusal::Missing(name) => e matches Error::MissingParameter(n) && n@ == name,
        Refusal::Unknown(name) => e matches Error::UnknownParameter(n) && n@ == name,
        Refusal::WrongType(name, found, expected) => {
            &&& e matches Error::ArgumentType { name: n, found: f, expected: x }
            &&& n@ == name
            &&& f == found
            &&& x == expected
        },
    }
}

/// Whether arguments fit parameters: every required parameter has an
/// argument, every argument is for a declared parameter, and the value of
/// each is of the type that its parameter declares.
pub open spec fn accepts(params: Seq<ParamView>, args: Map<Seq<char>, ValueView>) -> bool {
    &&& forall|i: int|
        0 <= i < params.len() && (#[trigger] params[i]).required ==> args.contains_key(
            params[i].name,
        )
    &&& forall|name: Seq<char>| #[trigger]
        args.contains_key(name) ==> (exists|i: int|
            0 <= i < params.len() && (#[trigger] params[i]).name == name)
    &&& forall|name: Seq<char>| #[trigger]
        args.contains_key(name) ==> (param_named(params, name, 0) matches Some(param) ==> args[name].value_type()
            == param.value_type)
}

/// The first parameter called `name` exists exactly when some parameter is
/// called so.
pub proof fn lemma_param_named(params: Seq<ParamView>, name: Seq<char>, i: int)
    requires
        0 <= i <= params.len(),
    ensures
        param_named(params, name, i) is Some <==> (exists|k: int|
            i <= k < params.len() && (#[trigger] params[k]).name == name),
        param_named(params, name, i) matches Some(param) ==> param.name == name,
    decreases params.len() - i,
{
    if i < params.len() {
        lemma_param_named(params, name, i + 1);
        if params[i].name != name {
            if exists|k: int| i <= k < params.len() && (#[trigger] params[k]).name == name {
                let k = choose|k: int| i <= k < params.len() && (#[trigger] params[k]).name == name;
                assert(i + 1 <= k);
            }
        }
    }
}

/// No required parameter from the `i`th on lacks an argument exactly when
/// none is reported missing.
proof fn lemma_first_missing(params: Seq<ParamView>, args: Map<Seq<char>, ValueView>, i: int)
    requires
        0 <= i <= params.len(),
    ensures
        first_missing(params, args, i) is None <==> (forall|k: int|
            i <= k < params.len() && (#[trigger] params[k]).required ==> args.contains_key(
                params[k].name,
            )),
    decreases params.len() - i,
{
    if i < params.len() {
        lemma_first_missing(params, args, i + 1);
        if !(params[i].required && !args.contains_key(params[i].name)) {
            if first_missing(params, args, i + 1) is None {
                assert forall|k: int|
                    i <= k < params.len() && (#[trigger] params[k]).required implies args.contains_key(
                    params[k].name,
                ) by {
                    if k > i {
                    }
                }
            }
        }
    }
}

/// No argument from the `j`th on misfits exactly when each of them is for a
/// parameter and of its type.
proof fn lemma_first_misfit(params: Seq<ParamView>, args: Seq<Binding>, j: int)
    requires
        0 <= j <= args.len(),
    ensures
        first_misfit(params, args, j) is None <==> (forall|k: int|
            j <= k < args.len() ==> (param_named(params, (#[trigger] args[k]).0, 0) matches Some(
                param,
            ) && args[k].1.value_type() == param.value_type)),
    decreases args.len() - j,
{
    if j < args.len() {
        lemma_first_misfit(params, args, j + 1);
        if first_misfit(params, args, j) is None {
            assert forall|k: int| j <= k < args.len() implies (param_named(
                params,
                (#[trigger] args[k]).0,
                0,
            ) matches Some(param) && args[k].1.value_type() == param.value_type) by {
                if k > j {
                }
            }
        }
    }
}

/// Arguments are refused exactly when they do not fit the parameters: the
/// runner accepts them if and only if every required parameter has an
/// argument, every argument names a parameter, and the types match.
pub proof fn lemma_accepts_iff_not_refused(params: Seq<ParamView>, args: Seq<Binding>)
    requires
        ascending(args),
    ensures
        refusal(params, args) is None <==> accepts(params, bindings_map(args)),
{
    let map = bindings_map(args);
    lemma_first_missing(params, map, 0);
    lemma_first_misfit(params, args, 0);
    if refusal(params, args) is None {
        assert forall|name: Seq<char>| #[trigger] map.contains_key(name) implies (exists|i: int|
            0 <= i < params.len() && (#[trigger] params[i]).name == name) && (param_named(
            params,
            name,
            0,
        ) matches Some(param) ==> map[name].value_type() == param.value_type) by {
            assert(binds(args, name));
            let k = position_of(args, name);
            lemma_binding_at(args, k);
            assert(param_named(params, args[k].0, 0) is Some);
            lemma_param_named(params, name, 0);
        }
    }
    if accepts(params, map) {
        assert forall|k: int| 0 <= k < args.len() implies (param_named(
            params,
            (#[trigger] args[k]).0,
            0,
        ) matches Some(param) && args[k].1.value_type() == param.value_type) by {
            lemma_binding_at(args, k);
            assert(map.contains_key(args[k].0));
            lemma_param_named(params, args[k].0, 0);
        }
    }
}

/// The first of `params` that is called `name`.
fn find_param<'a>(params: &'a Vec<Param>, name: &str) -> (r: Option<&'a Param>)
    ensures
        match r {
            Some(param) => param_named(seq_view(params@), name@, 0) == Some(param@),
            None => param_named(seq_view(params@), name@, 0) is None,
        },
{
    let mut i: usize = 0;
    while i < params.len()
        invariant
            i <= params@.len(),
            param_named(seq_view(params@), name@, 0) == param_named(
                seq_view(params@),
                name@,
                i as int,
            ),
        decreases params@.len() - i,
    {
        assert(seq_view(params@)[i as int] == params@[i as int]@);
        if crate::text::same_text(params[i].name.as_str(), name) {
            return Some(&params[i]);
        }
        i = i + 1;
    }
    None
}

/// Checks the arguments given for a unit against the parameters that its
/// meta data declares, and hands them on if they fit.
///
/// A unit first needs to have its arguments injected. Values emitted by its
/// dependencies follow later, before check and apply: were they needed
/// here, the dependencies would have to have run before they are known.
#[verifier::loop_isolation(false)]
pub fn build_args_for(unit: &Unit, meta: &Meta) -> (r: Result<ValueSet, Error>)
    ensures
        match r {
            Ok(args) => refusal(meta@.params, listing(unit.args@)) is None && args@
                == unit.args@,
            Err(e) => refusal(meta@.params, listing(unit.args@)) matches Some(why)
                && reports_refusal(e, why),
        },
        r is Ok <==> accepts(meta@.params, unit.args@),
{
    let ghost params = meta@.params;
    let ghost args = unit.args.bindings();
    let count = unit.args.len();
    proof {
        lemma_accepts_iff_not_refused(params, args);
    }
    let mut i: usize = 0;
    while i < meta.params.len()
        invariant
            i <= meta.params@.len(),
            params == seq_view(meta.params@),
            first_missing(params, unit.args@, 0) == first_missing(params, unit.args@, i as int),
        decreases meta.params@.len() - i,
    {
        assert(params[i as int] == meta.params@[i as int]@);
        let param = &meta.params[i];
        if param.required && !unit.args.contains_key(param.name.as_str()) {
            return Err(Error::MissingParameter(param.name.clone()));
        }
        i = i + 1;
    }
    let mut j: usize = 0;
    while j < count
        invariant
            j <= count,
            count == args.len(),
            args == unit.args.bindings(),
            params == seq_view(meta.params@),
            first_misfit(params, args, 0) == first_misfit(params, args, j as int),
        decreases count - j,
    {
        let key = unit.args.name_at(j);
        let value = unit.args.value_at(j);
        match find_param(&meta.params, key.as_str()) {
            Some(param) => if value.get_type() != param.value_type {
                return Err(
                    Error::ArgumentType {
                        name: key.clone(),
                        found: value.get_type(),
                        expected: param.value_type,
                    },
                );
            },
            None => {
                return Err(Error::UnknownParameter(key.clone()));
            },
        }
        j = j + 1;
    }
    Ok(unit.args.clone())
}


/// What tells one execution from another: the identity of the unit and the
/// target on which it runs.
pub type ExecutionKey = (Seq<char>, Option<TargetView>);

/// The key of the execution of `unit`.
pub open spec fn key_of(unit: Unit) -> ExecutionKey {
    (unit.id(), opt_view(unit.target))
}

/// The executions of the units that have been loaded, each under the
/// identity and the target of its unit.
pub struct Executions {
    entries: Vec<(Unit, UnitExecution)>,
}

/// The keys of a list of executions, in order.
pub open spec fn keys_of(entries: Seq<(Unit, UnitExecution)>) -> Seq<ExecutionKey> {
    entries.map_values(|entry: (Unit, UnitExecution)| key_of(entry.0))
}

/// The mapping from keys to executions that a list makes up in which no key
/// occurs twice.
pub open spec fn table_of(entries: Seq<(Unit, UnitExecution)>) -> Map<ExecutionKey, UnitExecution> {
    Map::new(
        |key: ExecutionKey| keys_of(entries).contains(key),
        |key: ExecutionKey| entries[keys_of(entries).index_of(key)].1,
    )
}

/// In a list without a repeated key, the entry at a position is what the
/// mapping holds for its key.
proof fn lemma_entry_at(entries: Seq<(Unit, UnitExecution)>, i: int)
    requires
        keys_of(entries).no_duplicates(),
        0 <= i < entries.len(),
    ensures
        table_of(entries).contains_key(key_of(entries[i].0)),
        table_of(entries)[key_of(entries[i].0)] == entries[i].1,
        keys_of(entries).index_of(key_of(entries[i].0)) == i,
{
    let keys = keys_of(entries);
    let key = key_of(entries[i].0);
    assert(keys[i] == key);
    assert(keys.contains(key));
    let j = keys.index_of(key);
    assert(0 <= j < keys.len() && keys[j] == key);
    if j != i {
        assert(keys[i] != keys[j]);
    }
}

impl View for Executions {
    type V = Map<ExecutionKey, UnitExecution>;

    closed spec fn view(&self) -> Map<ExecutionKey, UnitExecution> {
        table_of(self.entries@)
    }
}

impl Executions {
    #[verifier::type_invariant]
    spec fn one_each(self) -> bool {
        keys_of(self.entries@).no_duplicates()
    }

    /// No executions.
    pub fn new() -> (table: Executions)
        ensures
            table@ == Map::<ExecutionKey, UnitExecution>::empty(),
    {
        let table = Executions { entries: Vec::new() };
        assert(table@ =~= Map::<ExecutionKey, UnitExecution>::empty());
        table
    }

    /// Where the execution of `unit` is kept, if it is.
    #[verifier::loop_isolation(false)]
    fn find(&self, unit: &Unit) -> (r: Option<usize>)
        ensures
            match r {
                Some(i) => i < self.entries@.len() && key_of(self.entries@[i as int].0) == key_of(
                    *unit,
                ),
                None => !keys_of(self.entries@).contains(key_of(*unit)),
            },
    {
        let id = unit.get_id();
        let mut i: usize = 0;
        while i < self.entries.len()
            invariant
                i <= self.entries@.len(),
                forall|j: int| 0 <= j < i ==> keys_of(self.entries@)[j] != key_of(*unit),
            decreases self.entries@.len() - i,
        {
            let other = &self.entries[i].0;
            let other_id = other.get_id();
            assert(keys_of(self.entries@)[i as int] == key_of(*other));
            if id == other_id && same_target(&unit.target, &other.target) {
                return Some(i);
            }
            i = i + 1;
        }
        None
    }

    /// The execution of `unit`, if it is kept.
    pub fn get(&self, unit: &Unit) -> (r: Option<&UnitExecution>)
        ensures
            match r {
                Some(execution) => self@.contains_key(key_of(*unit)) && *execution
                    == self@[key_of(*unit)],
                None => !self@.contains_key(key_of(*unit)),
            },
    {
        proof {
            use_type_invariant(self);
        }
        match self.find(unit) {
            Some(i) => {
                proof {
                    lemma_entry_at(self.entries@, i as int);
                }
                Some(&self.entries[i].1)
            },
            None => None,
        }
    }

    /// Whether the execution of `unit` is kept.
    pub fn contains(&self, unit: &Unit) -> (r: bool)
        ensures
            r == self@.contains_key(key_of(*unit)),
    {
        self.get(unit).is_some()
    }

    /// Keeps `execution` as the execution of `unit`, in place of the one kept
    /// for it before, which is handed back.
    pub fn insert(&mut self, unit: Unit, execution: UnitExecution) -> (before: Option<
        UnitExecution,
    >)
        ensures
            final(self)@ == old(self)@.insert(key_of(unit), execution),
            before == if old(self)@.contains_key(key_of(unit)) {
                Some(old(self)@[key_of(unit)])
            } else {
                None
            },
    {
        proof {
            use_type_invariant(&*self);
        }
        let ghost olds = self.entries@;
        let ghost mine = key_of(unit);
        let found = self.find(&unit);
        let mut entries: Vec<(Unit, UnitExecution)> = Vec::new();
        std::mem::swap(&mut entries, &mut self.entries);
        let before = match found {
            Some(i) => {
                proof {
                    lemma_entry_at(olds, i as int);
                }
                entries.push((unit, execution));
                let previous = entries.swap_remove(i);
                proof {
                    assert(entries@ =~= olds.update(i as int, (unit, execution)));
                    lemma_replaced_entry(olds, i as int, (unit, execution));
                }
                Some(previous.1)
            },
            None => {
                entries.push((unit, execution));
                proof {
                    lemma_added_entry(olds, (unit, execution));
                }
                None
            },
        };
        self.entries = entries;
        before
    }

    /// Takes the execution of `unit` out, if it is kept, so that it can be
    /// changed and put back.
    pub fn remove(&mut self, unit: &Unit) -> (taken: Option<UnitExecution>)
        ensures
            final(self)@ == old(self)@.remove(key_of(*unit)),
            taken == if old(self)@.contains_key(key_of(*unit)) {
                Some(old(self)@[key_of(*unit)])
            } else {
                None
            },
    {
        proof {
            use_type_invariant(&*self);
        }
        let ghost olds = self.entries@;
        let found = self.find(unit);
        match found {
            Some(i) => {
                proof {
                    lemma_entry_at(olds, i as int);
                }
                let mut entries: Vec<(Unit, UnitExecution)> = Vec::new();
                std::mem::swap(&mut entries, &mut self.entries);
                let entry = entries.swap_remove(i);
                proof {
                    assert(entries@ =~= olds.update(i as int, olds.last()).drop_last());
                    lemma_removed_entry(olds, i as int);
                }
                self.entries = entries;
                Some(entry.1)
            },
            None => {
                assert(self@ =~= old(self)@.remove(key_of(*unit)));
                None
            },
        }
    }
}

/// Putting another entry of the same key at a position changes the mapping
/// at that key alone.
proof fn lemma_replaced_entry(
    entries: Seq<(Unit, UnitExecution)>,
    i: int,
    entry: (Unit, UnitExecution),
)
    requires
        keys_of(entries).no_duplicates(),
        0 <= i < entries.len(),
        key_of(entry.0) == key_of(entries[i].0),
    ensures
        keys_of(entries.update(i, entry)).no_duplicates(),
        table_of(entries.update(i, entry)) == table_of(entries).insert(key_of(entry.0), entry.1),
{
    let after = entries.update(i, entry);
    assert(keys_of(after) =~= keys_of(entries));
    assert(keys_of(entries)[i] == key_of(entry.0));
    assert(keys_of(entries).contains(key_of(entry.0)));
    assert forall|key: ExecutionKey| #[trigger] table_of(after).contains_key(key) implies table_of(
        after,
    )[key] == table_of(entries).insert(key_of(entry.0), entry.1)[key] by {
        let j = keys_of(after).index_of(key);
        assert(0 <= j < after.len() && keys_of(after)[j] == key);
        lemma_entry_at(after, j);
        lemma_entry_at(entries, j);
        if j != i {
            assert(keys_of(entries)[j] != keys_of(entries)[i]);
        }
    }
    assert(table_of(after) =~= table_of(entries).insert(key_of(entry.0), entry.1));
}

/// Adding an entry of a new key adds it to the mapping.
proof fn lemma_added_entry(entries: Seq<(Unit, UnitExecution)>, entry: (Unit, UnitExecution))
    requires
        keys_of(entries).no_duplicates(),
        !keys_of(entries).contains(key_of(entry.0)),
    ensures
        keys_of(entries.push(entry)).no_duplicates(),
        table_of(entries.push(entry)) == table_of(entries).insert(key_of(entry.0), entry.1),
{
    let after = entries.push(entry);
    let n = entries.len() as int;
    assert(keys_of(after) =~= keys_of(entries).push(key_of(entry.0)));
    assert forall|a: int, b: int| 0 <= a < after.len() && 0 <= b < after.len() && a
        != b implies keys_of(after)[a] != keys_of(after)[b] by {
        if a < n && b < n {
            assert(keys_of(entries)[a] != keys_of(entries)[b]);
        } else if a < n {
            assert(keys_of(entries).contains(keys_of(entries)[a]));
        } else {
            assert(keys_of(entries).contains(keys_of(entries)[b]));
        }
    }
    assert forall|key: ExecutionKey|
        table_of(after).contains_key(key) <==> table_of(entries).insert(
            key_of(entry.0),
            entry.1,
        ).contains_key(key) by {
        if keys_of(after).contains(key) {
            let j = keys_of(after).index_of(key);
            assert(0 <= j < after.len() && keys_of(after)[j] == key);
            if j < n {
                assert(keys_of(entries)[j] == key);
            }
        }
        if keys_of(entries).contains(key) {
            let j = keys_of(entries).index_of(key);
            assert(0 <= j < n && keys_of(entries)[j] == key);
            assert(keys_of(after)[j] == key);
        }
        if key == key_of(entry.0) {
            assert(keys_of(after)[n] == key);
        }
    }
    assert forall|key: ExecutionKey| #[trigger] table_of(after).contains_key(key) implies table_of(
        after,
    )[key] == table_of(entries).insert(key_of(entry.0), entry.1)[key] by {
        let j = keys_of(after).index_of(key);
        assert(0 <= j < after.len() && keys_of(after)[j] == key);
        lemma_entry_at(after, j);
        if j < n {
            assert(keys_of(entries)[j] == key);
            lemma_entry_at(entries, j);
        }
    }
    assert(table_of(after) =~= table_of(entries).insert(key_of(entry.0), entry.1));
}

/// Taking the entry at a position out, and putting the last in its place,
/// takes its key out of the mapping.
proof fn lemma_removed_entry(entries: Seq<(Unit, UnitExecution)>, i: int)
    requires
        keys_of(entries).no_duplicates(),
        0 <= i < entries.len(),
    ensures
        keys_of(entries.update(i, entries.last()).drop_last()).no_duplicates(),
        table_of(entries.update(i, entries.last()).drop_last()) == table_of(entries).remove(
            key_of(entries[i].0),
        ),
{
    let n = entries.len() as int;
    let after = entries.update(i, entries.last()).drop_last();
    let gone = key_of(entries[i].0);
    // Where each entry that stays came from.
    let origin = |j: int| if j == i { n - 1 } else { j };
    assert forall|j: int| 0 <= j < after.len() implies after[j] == entries[origin(j)]
        && keys_of(after)[j] == keys_of(entries)[origin(j)] && keys_of(after)[j] != gone by {
        assert(keys_of(entries)[i] == gone);
        assert(keys_of(entries)[origin(j)] != keys_of(entries)[i]);
    }
    assert forall|a: int, b: int| 0 <= a < after.len() && 0 <= b < after.len() && a
        != b implies keys_of(after)[a] != keys_of(after)[b] by {
        assert(keys_of(entries)[origin(a)] != keys_of(entries)[origin(b)]);
    }
    assert forall|key: ExecutionKey|
        table_of(after).contains_key(key) <==> table_of(entries).remove(gone).contains_key(
            key,
        ) by {
        if keys_of(after).contains(key) {
            let j = keys_of(after).index_of(key);
            assert(0 <= j < after.len() && keys_of(after)[j] == key);
            assert(keys_of(entries)[origin(j)] == key);
        }
        if keys_of(entries).contains(key) && key != gone {
            let j = keys_of(entries).index_of(key);
            assert(0 <= j < n && keys_of(entries)[j] == key);
            if j == n - 1 {
                assert(keys_of(after)[i] == key);
            } else {
                assert(keys_of(after)[j] == key);
            }
        }
    }
    assert forall|key: ExecutionKey| #[trigger] table_of(after).contains_key(key) implies table_of(
        after,
    )[key] == table_of(entries).remove(gone)[key] by {
        let j = keys_of(after).index_of(key);
        assert(0 <= j < after.len() && keys_of(after)[j] == key);
        lemma_entry_at(after, j);
        lemma_entry_at(entries, origin(j));
    }
    assert(table_of(after) =~= table_of(entries).remove(gone));
}

/// The unit that the dependency `dep` of a unit on `target` stands for: the
/// dependency's name and arguments, on its own target where it names one,
/// else on that of the unit which depends on it.
pub open spec fn dependency_key(target: Option<TargetView>, dep: DependencyView) -> ExecutionKey {
    (
        unit_id(dep.name, dep.args),
        match dep.target {
            Some(own) => Some(own),
            None => target,
        },
    )
}

/// The unit that a dependency of `unit` stands for.
pub fn dependency_unit(unit: &Unit, dep: &Dependency) -> (r: Unit)
    ensures
        r.name@ == dep.name@,
        r.args@ == dep.args@,
        key_of(r) == dependency_key(opt_view(unit.target), dep@),
{
    let target = match &dep.target {
        Some(own) => Some(own.clone()),
        None => clone_target(&unit.target),
    };
    Unit::new(dep.name.clone(), dep.args.clone(), target)
}

/// The units that `unit` depends on, in the order in which it lists them.
pub fn dependency_units(unit: &Unit, deps: &Dependencies) -> (r: Vec<Unit>)
    ensures
        r@.len() == deps.units@.len(),
        forall|i: int|
            0 <= i < r@.len() ==> key_of(#[trigger] r@[i]) == dependency_key(
                opt_view(unit.target),
                deps@.units[i],
            ),
{
    let mut r: Vec<Unit> = Vec::new();
    let mut i: usize = 0;
    while i < deps.units.len()
        invariant
            i <= deps.units@.len(),
            r@.len() == i,
            forall|j: int|
                0 <= j < i ==> key_of(#[trigger] r@[j]) == dependency_key(
                    opt_view(unit.target),
                    deps@.units[j],
                ),
        decreases deps.units@.len() - i,
    {
        assert(deps@.units[i as int] == deps.units@[i as int]@);
        r.push(dependency_unit(unit, &deps.units[i]));
        i = i + 1;
    }
    r
}

/// Why a capture cannot be made.
pub ghost enum CaptureFault {
    /// The dependency emitted no value of the captured name.
    Missing(Seq<char>, Seq<char>),
    /// The dependency emitted a value of another type than the capture
    /// declares.
    WrongType(Seq<char>, Seq<char>, ValueType, ValueType),
}

/// The values that the captures from the `k`th on take from `emitted`, the
/// values that the dependency `dependency` emitted, added to `acc`, each
/// under its alias, or under its own name where it has none; or why the
/// first of them that cannot be made fails.
pub open spec fn captured(
    dependency: Seq<char>,
    captures: Seq<CaptureView>,
    emitted: Map<Seq<char>, ValueView>,
    k: int,
    acc: Map<Seq<char>, ValueView>,
) -> Result<Map<Seq<char>, ValueView>, CaptureFault>
    decreases captures.len() - k,
{
    if 0 <= k < captures.len() {
        let capture = captures[k];
        if !emitted.contains_key(capture.name) {
            Err(CaptureFault::Missing(dependency, capture.name))
        } else if emitted[capture.name].value_type() != capture.value_type {
            Err(
                CaptureFault::WrongType(
                    capture.name,
                    dependency,
                    emitted[capture.name].value_type(),
                    capture.value_type,
                ),
            )
        } else {
            captured(
                dependency,
                captures,
                emitted,
                k + 1,
                acc.insert(capture.bound_name(), emitted[capture.name]),
            )
        }
    } else {
        Ok(acc)
    }
}

/// The values that a unit on `target` captures from its dependencies from
/// the `i`th on, added to `acc`, where `emitted` gives what the execution
/// under a key has emitted.
pub open spec fn captures_from(
    target: Option<TargetView>,
    deps: Seq<DependencyView>,
    emitted: spec_fn(ExecutionKey) -> Map<Seq<char>, ValueView>,
    i: int,
    acc: Map<Seq<char>, ValueView>,
) -> Result<Map<Seq<char>, ValueView>, CaptureFault>
    decreases deps.len() - i,
{
    if 0 <= i < deps.len() {
        match captured(
            deps[i].name,
            deps[i].captures,
            emitted(dependency_key(target, deps[i])),
            0,
            acc,
        ) {
            Ok(more) => captures_from(target, deps, emitted, i + 1, more),
            Err(fault) => Err(fault),
        }
    } else {
        Ok(acc)
    }
}

/// Whether `e` reports that the unit `unit` cannot make a capture, for the
/// reason `fault`.
pub open spec fn reports_fault(e: Error, unit: Seq<char>, fault: CaptureFault) -> bool {
    match fault {
        CaptureFault::Missing(dependency, capture) => {
            &&& e matches Error::MissingCapture { unit: u, dependency: d, capture: c }
            &&& u@ == unit
            &&& d@ == dependency
            &&& c@ == capture
        },
        CaptureFault::WrongType(capture, dependency, found, expected) => {
            &&& e matches Error::CaptureType { capture: c, dependency: d, found: f, expected: x }
            &&& c@ == capture
            &&& d@ == dependency
            &&& f == found
            &&& x == expected
        },
    }
}

impl Executions {
    /// What the execution under `key` has emitted; nothing, where none is
    /// kept under it.
    pub open spec fn emitted(&self, key: ExecutionKey) -> Map<Seq<char>, ValueView> {
        if self@.contains_key(key) {
            self@[key]@.emit_data
        } else {
            Map::empty()
        }
    }

    /// Whether the execution of every dependency in `deps` of a unit on
    /// `target` is kept.
    pub open spec fn holds_all(&self, target: Option<TargetView>, deps: Seq<DependencyView>) -> bool {
        forall|i: int|
            0 <= i < deps.len() ==> self@.contains_key(dependency_key(target, #[trigger] deps[i]))
    }

    /// Whether the execution of every dependency of `unit` is kept.
    #[verifier::loop_isolation(false)]
    pub fn has_all(&self, unit: &Unit, deps: &Dependencies) -> (r: bool)
        ensures
            r == self.holds_all(opt_view(unit.target), deps@.units),
    {
        let mut i: usize = 0;
        while i < deps.units.len()
            invariant
                i <= deps.units@.len(),
                forall|j: int|
                    0 <= j < i ==> self@.contains_key(
                        dependency_key(opt_view(unit.target), #[trigger] deps@.units[j]),
                    ),
            decreases deps.units@.len() - i,
        {
            assert(deps@.units[i as int] == deps.units@[i as int]@);
            let dep_unit = dependency_unit(unit, &deps.units[i]);
            if !self.contains(&dep_unit) {
                return false;
            }
            i = i + 1;
        }
        true
    }
}

/// Assembles the values that `unit` captures from its dependencies, which
/// are passed to it as arguments beside those given for it: from each
/// dependency in turn, for each of its captures in turn, the emitted value
/// of that name, under the alias of the capture or, without one, under its
/// name. A later capture of a name replaces an earlier one.
///
/// Every dependency must have been loaded and run, so that its execution is
/// kept.
#[verifier::loop_isolation(false)]
pub fn get_captures(unit: &Unit, deps: &Dependencies, executions: &Executions) -> (r: Result<
    ValueSet,
    Error,
>)
    requires
        executions.holds_all(opt_view(unit.target), deps@.units),
    ensures
        match r {
            Ok(captures) => captures_from(
                opt_view(unit.target),
                deps@.units,
                |key: ExecutionKey| executions.emitted(key),
                0,
                Map::empty(),
            ) == Ok::<Map<Seq<char>, ValueView>, CaptureFault>(captures@),
            Err(e) => captures_from(
                opt_view(unit.target),
                deps@.units,
                |key: ExecutionKey| executions.emitted(key),
                0,
                Map::empty(),
            ) matches Err(fault) && reports_fault(e, unit.name@, fault),
        },
{
    let ghost target = opt_view(unit.target);
    let ghost emitted = |key: ExecutionKey| executions.emitted(key);
    let mut captures = ValueSet::new();
    let mut i: usize = 0;
    while i < deps.units.len()
        invariant
            i <= deps.units@.len(),
            captures_from(target, deps@.units, emitted, 0, Map::empty()) == captures_from(
                target,
                deps@.units,
                emitted,
                i as int,
                captures@,
            ),
        decreases deps.units@.len() - i,
    {
        let dep = &deps.units[i];
        assert(deps@.units[i as int] == dep@);
        let dep_unit = dependency_unit(unit, dep);
        let execution = match executions.get(&dep_unit) {
            Some(execution) => execution,
            None => {
                assert(false);
                return Ok(captures);
            },
        };
        let values = execution.emit_data();
        assert(values@ == emitted(dependency_key(target, dep@)));
        let ghost start = captures@;
        let mut k: usize = 0;
        while k < dep.captures.len()
            invariant
                k <= dep.captures@.len(),
                captured(dep@.name, dep@.captures, values@, 0, start) == captured(
                    dep@.name,
                    dep@.captures,
                    values@,
                    k as int,
                    captures@,
                ),
            decreases dep.captures@.len() - k,
        {
            let capture = &dep.captures[k];
            assert(dep@.captures[k as int] == capture@);
            let value = match values.get(capture.name.as_str()) {
                Some(value) => value,
                None => {
                    return Err(
                        Error::MissingCapture {
                            unit: unit.name.clone(),
                            dependency: dep.name.clone(),
                            capture: capture.name.clone(),
                        },
                    );
                },
            };
            if value.get_type() != capture.value_type {
                return Err(
                    Error::CaptureType {
                        capture: capture.name.clone(),
                        dependency: dep.name.clone(),
                        found: value.get_type(),
                        expected: capture.value_type,
                    },
                );
            }
            match &capture.alias {
                Some(alias) => captures.add_value(alias.as_str(), value.clone()),
                None => captures.add_value(capture.name.as_str(), value.clone()),
            }
            k = k + 1;
        }
        i = i + 1;
    }
    Ok(captures)
}


/// What is to be done next to load a unit.
#[derive(Debug, Clone, Copy, PartialEq, Eq, Structural)]
pub enum LoadStep {
    /// The meta operation is to be run, and what it gives handed to
    /// [`accept_meta`].
    Meta,
    /// The deps operation is to be run, and what it gives stored.
    Deps,
    /// The unit is loaded.
    Loaded,
}

/// What is to be done next to load the unit of an execution: its meta data
/// come first, against which its arguments are checked; its dependencies,
/// which may depend on the arguments, come after.
pub open spec fn next_load_step(execution: ExecutionView) -> LoadStep {
    if execution.needs_meta() {
        LoadStep::Meta
    } else if execution.needs_deps() {
        LoadStep::Deps
    } else {
        LoadStep::Loaded
    }
}

/// What is to be done next to load the unit of `execution`.
pub fn load_step(execution: &UnitExecution) -> (step: LoadStep)
    ensures
        step == next_load_step(execution@),
{
    if execution.get_meta().is_none() {
        LoadStep::Meta
    } else if execution.get_deps().is_none() {
        LoadStep::Deps
    } else {
        LoadStep::Loaded
    }
}

/// Takes in the meta data that the meta operation of `unit` gave: stores
/// them, unless some are kept already, checks the arguments of the unit
/// against the parameters that the kept meta data declare, and sets them as
/// the arguments of the execution if they fit. If they do not, the meta data
/// are stored all the same, and the arguments are not set.
pub fn accept_meta(unit: &Unit, execution: &mut UnitExecution, meta: Meta) -> (r: Result<(), Error>)
    ensures
        old(execution)@.after(Call::StoreMeta(meta@)).meta matches Some(kept) && match r {
            Ok(_) => {
                &&& refusal(kept.params, listing(unit.args@)) is None
                &&& final(execution)@ == old(execution)@.after(Call::StoreMeta(meta@)).after(
                    Call::SetArgs(unit.args@),
                )
            },
            Err(e) => {
                &&& refusal(kept.params, listing(unit.args@)) matches Some(why)
                &&& reports_refusal(e, why)
                &&& final(execution)@ == old(execution)@.after(Call::StoreMeta(meta@))
            },
        },
{
    let checked = {
        let kept = execution.store_meta(meta);
        build_args_for(unit, kept)
    };
    match checked {
        Ok(args) => {
            execution.set_args(&args);
            Ok(())
        },
        Err(e) => Err(e),
    }
}

/// Prepares the check of `unit`: assembles the values that it captures from
/// its dependencies and adds them to the arguments of its execution, where
/// they replace arguments of the same name. Every dependency must have been
/// loaded and run.
pub fn prepare_check(
    unit: &Unit,
    deps: &Dependencies,
    execution: &mut UnitExecution,
    executions: &Executions,
) -> (r: Result<(), Error>)
    requires
        executions.holds_all(opt_view(unit.target), deps@.units),
    ensures
        match captures_from(
            opt_view(unit.target),
            deps@.units,
            |key: ExecutionKey| executions.emitted(key),
            0,
            Map::empty(),
        ) {
            Ok(captures) => {
                &&& r is Ok
                &&& final(execution)@ == old(execution)@.after(Call::SetArgs(captures))
            },
            Err(fault) => {
                &&& r matches Err(e)
                &&& reports_fault(e, unit.name@, fault)
                &&& final(execution)@ == old(execution)@
            },
        },
{
    match get_captures(unit, deps, executions) {
        Ok(captures) => {
            execution.set_args(&captures);
            Ok(())
        },
        Err(e) => Err(e),
    }
}

} // verus!
