//! The log event as the engine sees it: named fields and an optional
//! per-event API key.

use crate::text::str_eq;
use vstd::prelude::*;

verus! {

/// A field's value: a text, a whole number, a truth value or null.
///
/// These four are all that an event can carry here. A time stamp is
/// carried as its text. A nested record, a list and a number with a
/// fraction have no place in a `FieldValue`: whoever hands events to the
/// engine flattens or drops them first.
#[derive(Clone, Debug, PartialEq, Eq)]
pub enum FieldValue {
    Text(String),
    Integer(i64),
    Boolean(bool),
    Null,
}

/// Mathematical model of a [`FieldValue`].
pub enum ValueModel {
    Text(Seq<char>),
    Integer(int),
    Boolean(bool),
    Null,
}

impl View for FieldValue {
    type V = ValueModel;

    open spec fn view(&self) -> ValueModel {
        match self {
            FieldValue::Text(s) => ValueModel::Text(s@),
            FieldValue::Integer(i) => ValueModel::Integer(*i as int),
            FieldValue::Boolean(b) => ValueModel::Boolean(*b),
            FieldValue::Null => ValueModel::Null,
        }
    }
}

/// A named field of an event.
#[derive(Clone, Debug, PartialEq, Eq)]
pub struct Field {
    pub name: String,
    pub value: FieldValue,
}

/// Mathematical model of a [`Field`].
pub struct FieldModel {
    pub name: Seq<char>,
    pub value: ValueModel,
}

impl View for Field {
    type V = FieldModel;

    open spec fn view(&self) -> FieldModel {
        FieldModel { name: self.name@, value: self.value@ }
    }
}

/// Mathematical model of a [`LogEvent`]: its fields in order, and its API key.
pub struct EventModel {
    pub fields: Seq<FieldModel>,
    pub api_key: Option<Seq<char>>,
}

/// The value of the first field called `name`, if there is one.
pub open spec fn lookup(fields: Seq<FieldModel>, name: Seq<char>) -> Option<ValueModel>
    decreases fields.len(),
{
    if fields.len() == 0 {
        None
    } else {
        match lookup(fields.drop_last(), name) {
            Some(v) => Some(v),
            None => if fields.last().name == name {
                Some(fields.last().value)
            } else {
                None
            },
        }
    }
}

/// The fields whose name is among `names` (`keep`), or is not (`!keep`), in
/// their order.
pub open spec fn project(fields: Seq<FieldModel>, names: Seq<Seq<char>>, keep: bool) -> Seq<
    FieldModel,
>
    decreases fields.len(),
{
    if fields.len() == 0 {
        Seq::empty()
    } else {
        let rest = project(fields.drop_last(), names, keep);
        if names.contains(fields.last().name) == keep {
            rest.push(fields.last())
        } else {
            rest
        }
    }
}

/// The fields without those called `name`.
pub open spec fn without(fields: Seq<FieldModel>, name: Seq<char>) -> Seq<FieldModel> {
    project(fields, seq![name], false)
}

/// The fields after `value` was stored under `name`: earlier fields of that
/// name are gone and the new field stands last.
pub open spec fn with_field(fields: Seq<FieldModel>, name: Seq<char>, value: ValueModel) -> Seq<
    FieldModel,
> {
    without(fields, name).push(FieldModel { name, value })
}

/// The fields after the field `from` was renamed to `to`; unchanged where no
/// field is called `from`.
pub open spec fn renamed(fields: Seq<FieldModel>, from: Seq<char>, to: Seq<char>) -> Seq<
    FieldModel,
> {
    match lookup(fields, from) {
        Some(v) => with_field(without(fields, from), to, v),
        None => fields,
    }
}

/// The names that a list of strings holds.
pub open spec fn names_of(names: Seq<String>) -> Seq<Seq<char>> {
    Seq::new(names.len(), |i: int| names[i]@)
}

/// What a list of fields holds.
pub open spec fn field_models(fields: Seq<Field>) -> Seq<FieldModel> {
    Seq::new(fields.len(), |i: int| fields[i]@)
}

/// Whether no two fields share a name: the fields are a mapping from
/// names to values.
pub open spec fn distinct_names(fields: Seq<FieldModel>) -> bool {
    forall|i: int, j: int|
        0 <= i < j < fields.len() ==> (#[trigger] fields[i]).name != (#[trigger] fields[j]).name
}

/// Whether a field of the list is called `name`.
pub open spec fn has_name(fields: Seq<FieldModel>, name: Seq<char>) -> bool {
    exists|i: int| 0 <= i < fields.len() && (#[trigger] fields[i]).name == name
}

/// Every field of a projection is a field of the list, and its name is
/// among `names` exactly where `keep` says so.
pub proof fn lemma_project_from(fields: Seq<FieldModel>, names: Seq<Seq<char>>, keep: bool)
    ensures
        forall|i: int|
            0 <= i < project(fields, names, keep).len() ==> has_name(
                fields,
                (#[trigger] project(fields, names, keep)[i]).name,
            ) && names.contains(project(fields, names, keep)[i].name) == keep,
    decreases fields.len(),
{
    if fields.len() > 0 {
        let init = fields.drop_last();
        lemma_project_from(init, names, keep);
        let rest = project(init, names, keep);
        let p = project(fields, names, keep);
        assert forall|i: int| 0 <= i < p.len() implies has_name(fields, (#[trigger] p[i]).name)
            && names.contains(p[i].name) == keep by {
            if i < rest.len() {
                assert(p[i] == rest[i]);
                let j = choose|j: int| 0 <= j < init.len() && (#[trigger] init[j]).name == rest[i].name;
                assert(fields[j] == init[j]);
            } else {
                assert(p[i] == fields[fields.len() - 1]);
            }
        }
    }
}

/// A projection of fields with distinct names has distinct names.
pub proof fn lemma_project_distinct(fields: Seq<FieldModel>, names: Seq<Seq<char>>, keep: bool)
    requires
        distinct_names(fields),
    ensures
        distinct_names(project(fields, names, keep)),
    decreases fields.len(),
{
    if fields.len() > 0 {
        let init = fields.drop_last();
        assert forall|i: int, j: int| 0 <= i < j < init.len() implies (#[trigger] init[i]).name
            != (#[trigger] init[j]).name by {
            assert(init[i] == fields[i] && init[j] == fields[j]);
        }
        lemma_project_distinct(init, names, keep);
        lemma_project_from(init, names, keep);
        let rest = project(init, names, keep);
        let p = project(fields, names, keep);
        assert forall|i: int, j: int| 0 <= i < j < p.len() implies (#[trigger] p[i]).name != (
        #[trigger] p[j]).name by {
            assert(p[i] == rest[i]);
            if j < rest.len() {
                assert(p[j] == rest[j]);
            } else {
                let k = choose|k: int| 0 <= k < init.len() && (#[trigger] init[k]).name == rest[i].name;
                assert(init[k] == fields[k]);
                assert(p[j] == fields[fields.len() - 1]);
                assert(fields[k].name != fields[fields.len() - 1].name);
            }
        }
    }
}

/// Storing a value under a name keeps names distinct.
pub proof fn lemma_with_field_distinct(fields: Seq<FieldModel>, name: Seq<char>, value: ValueModel)
    requires
        distinct_names(fields),
    ensures
        distinct_names(with_field(fields, name, value)),
{
    lemma_project_distinct(fields, seq![name], false);
    lemma_project_from(fields, seq![name], false);
    let rest = without(fields, name);
    let p = with_field(fields, name, value);
    assert(seq![name][0] == name);
    assert forall|i: int, j: int| 0 <= i < j < p.len() implies (#[trigger] p[i]).name != (
    #[trigger] p[j]).name by {
        assert(p[i] == rest[i]);
        if j < rest.len() {
            assert(p[j] == rest[j]);
        } else {
            assert(!seq![name].contains(rest[i].name));
        }
    }
}

/// Renaming a field keeps names distinct.
pub proof fn lemma_renamed_distinct(fields: Seq<FieldModel>, from: Seq<char>, to: Seq<char>)
    requires
        distinct_names(fields),
    ensures
        distinct_names(renamed(fields, from, to)),
{
    match lookup(fields, from) {
        Some(v) => {
            lemma_project_distinct(fields, seq![from], false);
            lemma_with_field_distinct(without(fields, from), to, v);
        },
        None => {},
    }
}

/// The fields called `name`, in order, start with the one that a lookup
/// finds; there is none exactly where the lookup finds nothing.
pub proof fn lemma_first_match(fields: Seq<FieldModel>, name: Seq<char>)
    ensures
        project(fields, seq![name], true).len() == 0 <==> lookup(fields, name) is None,
        project(fields, seq![name], true).len() > 0 ==> lookup(fields, name) == Some(
            project(fields, seq![name], true)[0].value,
        ),
    decreases fields.len(),
{
    if fields.len() > 0 {
        let init = fields.drop_last();
        lemma_first_match(init, name);
        let rest = project(init, seq![name], true);
        assert(seq![name][0] == name);
        assert(seq![name].contains(fields.last().name) <==> fields.last().name == name);
        if fields.last().name == name {
            let p = rest.push(fields.last());
            if rest.len() > 0 {
                assert(p[0] == rest[0]);
            }
        }
    }
}

/// Where no field is called `name`, removing that name changes nothing.
pub proof fn lemma_without_absent(fields: Seq<FieldModel>, name: Seq<char>)
    requires
        lookup(fields, name) is None,
    ensures
        without(fields, name) == fields,
    decreases fields.len(),
{
    if fields.len() > 0 {
        lemma_without_absent(fields.drop_last(), name);
        assert(seq![name][0] == name);
        assert(!seq![name].contains(fields.last().name));
        assert(fields.drop_last().push(fields.last()) =~= fields);
    } else {
        assert(without(fields, name) =~= fields);
    }
}

/// A log event: named fields in order, and the API key that its metadata
/// carries, if any.
#[derive(Clone, Debug, PartialEq, Eq)]
pub struct LogEvent {
    pub fields: Vec<Field>,
    pub api_key: Option<String>,
}

impl View for LogEvent {
    type V = EventModel;

    open spec fn view(&self) -> EventModel {
        EventModel {
            fields: Seq::new(self.fields.len() as nat, |i: int| self.fields[i]@),
            api_key: match self.api_key {
                Some(k) => Some(k@),
                None => None,
            },
        }
    }
}

/// Whether `name` is one of `names`.
pub fn name_in(names: &Vec<String>, name: &str) -> (found: bool)
    ensures
        found == names_of(names@).contains(name@),
{
    let mut i: usize = 0;
    while i < names.len()
        invariant
            i <= names.len(),
            forall|j: int| 0 <= j < i ==> names_of(names@)[j] != name@,
        decreases names.len() - i,
    {
        if str_eq(names[i].as_str(), name) {
            assert(names_of(names@)[i as int] == name@);
            return true;
        }
        i += 1;
    }
    false
}

impl LogEvent {
    /// Whether the event is well formed: no two of its fields share a
    /// name.
    pub open spec fn wf(&self) -> bool {
        distinct_names(self@.fields)
    }

    /// Whether no two fields share a name.
    pub fn is_wf(&self) -> (ok: bool)
        ensures
            ok == self.wf(),
    {
        let mut j: usize = 0;
        while j < self.fields.len()
            invariant
                j <= self.fields.len(),
                distinct_names(self@.fields.subrange(0, j as int)),
            decreases self.fields.len() - j,
        {
            let mut i: usize = 0;
            while i < j
                invariant
                    i <= j < self.fields.len(),
                    forall|k: int| 0 <= k < i ==> self@.fields[k].name != self@.fields[j as int].name,
                decreases j - i,
            {
                if str_eq(self.fields[i].name.as_str(), self.fields[j].name.as_str()) {
                    assert(self@.fields[i as int].name == self@.fields[j as int].name);
                    return false;
                }
                i += 1;
            }
            proof {
                let short = self@.fields.subrange(0, j as int);
                let long = self@.fields.subrange(0, j + 1);
                assert forall|a: int, b: int| 0 <= a < b < long.len() implies (
                #[trigger] long[a]).name != (#[trigger] long[b]).name by {
                    if b < j {
                        assert(short[a] == long[a] && short[b] == long[b]);
                    }
                }
            }
            j += 1;
        }
        assert(self@.fields.subrange(0, j as int) =~= self@.fields);
        true
    }

    /// An event without fields and without an API key of its own.
    pub fn new() -> (e: LogEvent)
        ensures
            e@.fields == Seq::<FieldModel>::empty(),
            e@.api_key is None,
            e.wf(),
    {
        let e = LogEvent { fields: Vec::new(), api_key: None };
        assert(e@.fields =~= Seq::<FieldModel>::empty());
        e
    }

    /// An event whose only field is `message`.
    pub fn from_message(message: &str) -> (e: LogEvent)
        ensures
            e@.fields == seq![
                FieldModel { name: "message"@, value: ValueModel::Text(message@) },
            ],
            e@.api_key is None,
            e.wf(),
    {
        let mut fields: Vec<Field> = Vec::new();
        fields.push(Field { name: "message".to_owned(), value: FieldValue::Text(message.to_owned()) });
        let e = LogEvent { fields, api_key: None };
        assert(e@.fields =~= seq![
            FieldModel { name: "message"@, value: ValueModel::Text(message@) },
        ]);
        e
    }

    /// The value of the first field called `name`.
    pub fn get(&self, name: &str) -> (r: Option<&FieldValue>)
        ensures
            match r {
                Some(v) => lookup(self@.fields, name@) == Some(v@),
                None => lookup(self@.fields, name@) is None,
            },
    {
        let mut i: usize = 0;
        while i < self.fields.len()
            invariant
                i <= self.fields.len(),
                lookup(self@.fields.subrange(0, i as int), name@) is None,
            decreases self.fields.len() - i,
        {
            proof {
                let next = self@.fields.subrange(0, i + 1);
                assert(next.drop_last() =~= self@.fields.subrange(0, i as int));
                assert(next.last() == self.fields[i as int]@);
            }
            if str_eq(self.fields[i].name.as_str(), name) {
                proof {
                    lemma_lookup_extends(self@.fields, name@, i + 1);
                }
                return Some(&self.fields[i].value);
            }
            i += 1;
        }
        assert(self@.fields.subrange(0, i as int) =~= self@.fields);
        None
    }

    /// Parts the fields in two: those whose name is among `names` stay
    /// (`keep`) or leave (`!keep`), and the others do the opposite. Both
    /// parts keep their order; the fields that leave are handed out.
    pub fn separate(&mut self, names: &Vec<String>, keep: bool) -> (gone: Vec<Field>)
        ensures
            final(self)@.fields == project(old(self)@.fields, names_of(names@), keep),
            field_models(gone@) == project(old(self)@.fields, names_of(names@), !keep),
            final(self)@.api_key == old(self)@.api_key,
            old(self).wf() ==> final(self).wf(),
    {
        let ghost orig = self@.fields;
        let ghost wanted = names_of(names@);
        let mut gone: Vec<Field> = Vec::new();
        let mut i: usize = 0;
        let mut seen: Ghost<int> = Ghost(0);
        while i < self.fields.len()
            invariant
                0 <= seen@ <= orig.len(),
                i <= self.fields.len(),
                self.fields.len() - i == orig.len() - seen@,
                wanted == names_of(names@),
                self@.api_key == old(self)@.api_key,
                self@.fields.subrange(0, i as int) == project(
                    orig.subrange(0, seen@),
                    wanted,
                    keep,
                ),
                field_models(gone@) == project(orig.subrange(0, seen@), wanted, !keep),
                self@.fields.subrange(i as int, self@.fields.len() as int) == orig.subrange(
                    seen@,
                    orig.len() as int,
                ),
            decreases self.fields.len() - i,
        {
            let ghost before = self@.fields;
            let ghost left = field_models(gone@);
            proof {
                let next = orig.subrange(0, seen@ + 1);
                assert(before.subrange(i as int, before.len() as int)[0] == before[i as int]);
                assert(orig.subrange(seen@, orig.len() as int)[0] == orig[seen@]);
                assert(next.drop_last() =~= orig.subrange(0, seen@));
                assert(next.last() == before[i as int]);
            }
            if name_in(names, self.fields[i].name.as_str()) == keep {
                i += 1;
                proof {
                    assert(self@.fields.subrange(0, i as int) =~= before.subrange(0, i - 1).push(
                        before[i - 1],
                    ));
                    assert(self@.fields.subrange(i as int, self@.fields.len() as int)
                        =~= before.subrange(i - 1, before.len() as int).drop_first());
                }
            } else {
                let field = self.fields.remove(i);
                gone.push(field);
                proof {
                    assert(self@.fields =~= before.remove(i as int));
                    assert(field_models(gone@) =~= left.push(before[i as int]));
                    assert(self@.fields.subrange(0, i as int) =~= before.subrange(0, i as int));
                    assert(self@.fields.subrange(i as int, self@.fields.len() as int)
                        =~= before.subrange(i as int, before.len() as int).drop_first());
                }
            }
            proof {
                assert(orig.subrange(seen@ + 1, orig.len() as int) =~= orig.subrange(
                    seen@,
                    orig.len() as int,
                ).drop_first());
                seen@ = seen@ + 1;
            }
        }
        proof {
            assert(self@.fields.subrange(i as int, self@.fields.len() as int).len() == 0);
            assert(seen@ == orig.len());
            assert(orig.subrange(0, seen@) =~= orig);
            assert(self@.fields.subrange(0, i as int) =~= self@.fields);
            if old(self).wf() {
                lemma_project_distinct(orig, wanted, keep);
            }
        }
        gone
    }

    /// Keeps the fields whose name is among `names` (`keep`), or drops them
    /// (`!keep`); the other fields stay in their order.
    pub fn project(&mut self, names: &Vec<String>, keep: bool)
        ensures
            final(self)@.fields == project(old(self)@.fields, names_of(names@), keep),
            final(self)@.api_key == old(self)@.api_key,
            old(self).wf() ==> final(self).wf(),
    {
        let _ = self.separate(names, keep);
    }

    /// Removes every field called `name` and hands out the value of the
    /// first of them.
    pub fn take(&mut self, name: &str) -> (r: Option<FieldValue>)
        ensures
            final(self)@.fields == without(old(self)@.fields, name@),
            final(self)@.api_key == old(self)@.api_key,
            old(self).wf() ==> final(self).wf(),
            match r {
                Some(v) => lookup(old(self)@.fields, name@) == Some(v@),
                None => lookup(old(self)@.fields, name@) is None,
            },
    {
        let mut names: Vec<String> = Vec::new();
        names.push(name.to_owned());
        assert(names_of(names@) =~= seq![name@]);
        let mut gone = self.separate(&names, false);
        proof {
            lemma_first_match(old(self)@.fields, name@);
        }
        if gone.len() > 0 {
            let first = gone.remove(0);
            Some(first.value)
        } else {
            None
        }
    }

    /// Stores `value` under `name`, in place of any field of that name.
    pub fn insert(&mut self, name: String, value: FieldValue)
        ensures
            final(self)@.fields == with_field(old(self)@.fields, name@, value@),
            final(self)@.api_key == old(self)@.api_key,
            old(self).wf() ==> final(self).wf(),
    {
        proof {
            if old(self).wf() {
                lemma_with_field_distinct(old(self)@.fields, name@, value@);
            }
        }
        let _ = self.take(name.as_str());
        let ghost before = self@.fields;
        self.fields.push(Field { name, value });
        assert(self@.fields =~= before.push(FieldModel { name: name@, value: value@ }));
    }

    /// Renames the field `from` to `to`; does nothing where no field is
    /// called `from`.
    pub fn rename(&mut self, from: &str, to: &str)
        ensures
            final(self)@.fields == renamed(old(self)@.fields, from@, to@),
            final(self)@.api_key == old(self)@.api_key,
            old(self).wf() ==> final(self).wf(),
    {
        proof {
            if old(self).wf() {
                lemma_renamed_distinct(old(self)@.fields, from@, to@);
            }
        }
        match self.take(from) {
            Some(v) => {
                self.insert(to.to_owned(), v);
            },
            None => {
                proof {
                    lemma_without_absent(old(self)@.fields, from@);
                }
            },
        }
    }
}

/// Looking a name up in a prefix that holds it gives what the whole list
/// gives.
pub proof fn lemma_lookup_extends(fields: Seq<FieldModel>, name: Seq<char>, k: int)
    requires
        0 <= k <= fields.len(),
        lookup(fields.subrange(0, k), name) is Some,
    ensures
        lookup(fields, name) == lookup(fields.subrange(0, k), name),
    decreases fields.len() - k,
{
    if k < fields.len() {
        let next = fields.subrange(0, k + 1);
        assert(next.drop_last() =~= fields.subrange(0, k));
        lemma_lookup_extends(fields, name, k + 1);
    } else {
        assert(fields.subrange(0, k) =~= fields);
    }
}

} // verus!
