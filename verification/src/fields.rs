//! Field lines and the folded name-to-value mapping of a record.

use vstd::prelude::*;
use crate::text::{
    chars_of, contains_seq, find, first_occurrence, lemma_first_occurrence_unique, occurs_at,
};

verus! {

/// Why a record or a line stream cannot be processed.
#[derive(Clone, Copy, Debug, PartialEq, Eq, Structural)]
pub enum RegistryError {
    /// A record line has no `": "` between a name and a value.
    MalformedLine,
    /// A continuation line came while the current record held no line.
    OrphanContinuation,
}

/// The two characters that part a field's name from its value.
pub open spec fn delimiter() -> Seq<char> {
    seq![':', ' ']
}

/// The token that joins the values of a repeated field.
pub open spec fn joiner() -> Seq<char> {
    " ::<sep_tzu>:: "@
}

/// A line split at its first delimiter into name and value; `None` where
/// the line holds no delimiter.
pub open spec fn split_field(line: Seq<char>) -> Option<(Seq<char>, Seq<char>)> {
    match first_occurrence(line, delimiter()) {
        Some(i) => Some((line.take(i), line.skip(i + 2))),
        None => None,
    }
}

/// Every line of the record splits into a name and a value.
pub open spec fn well_formed(lines: Seq<Seq<char>>) -> bool {
    forall|i: int| 0 <= i < lines.len() ==> (#[trigger] split_field(lines[i])) is Some
}

/// The views of a vector of strings, in order.
pub open spec fn texts(v: Seq<String>) -> Seq<Seq<char>> {
    Seq::new(v.len(), |i: int| v[i]@)
}

/// The mapping after one more field: a new name is added with its value, a
/// name already present has the value joined onto what it had.
pub open spec fn merge_field(
    m: Map<Seq<char>, Seq<char>>,
    name: Seq<char>,
    value: Seq<char>,
) -> Map<Seq<char>, Seq<char>> {
    if m.contains_key(name) {
        m.insert(name, m[name] + joiner() + value)
    } else {
        m.insert(name, value)
    }
}

/// The folded mapping of a record: its lines merged from first to last.
pub open spec fn fold_fields(lines: Seq<Seq<char>>) -> Map<Seq<char>, Seq<char>>
    decreases lines.len(),
{
    if lines.len() == 0 {
        Map::empty()
    } else {
        match split_field(lines.last()) {
            Some((name, value)) => merge_field(fold_fields(lines.drop_last()), name, value),
            None => fold_fields(lines.drop_last()),
        }
    }
}

/// The distinct names of a record in order of first appearance.
pub open spec fn first_names(lines: Seq<Seq<char>>) -> Seq<Seq<char>>
    decreases lines.len(),
{
    if lines.len() == 0 {
        Seq::empty()
    } else {
        let earlier = first_names(lines.drop_last());
        match split_field(lines.last()) {
            Some((name, _)) => if earlier.contains(name) {
                earlier
            } else {
                earlier.push(name)
            },
            None => earlier,
        }
    }
}

/// A name without a delimiter in it, a delimiter and any value make a line
/// that splits into that name and that value again.
pub proof fn lemma_split_joined(name: Seq<char>, value: Seq<char>)
    requires
        !contains_seq(name, delimiter()),
    ensures
        split_field(name + delimiter() + value) == Some((name, value)),
{
    let line = name + delimiter() + value;
    let i = name.len() as int;
    assert(line.subrange(i, i + 2) =~= delimiter());
    assert forall|j: int| 0 <= j < i implies !occurs_at(line, delimiter(), j) by {
        if j + 2 <= i {
            assert(!occurs_at(name, delimiter(), j));
            assert(line.subrange(j, j + 2) =~= name.subrange(j, j + 2));
        } else {
            assert(line.subrange(j, j + 2)[1] == line[j + 1]);
        }
    }
    lemma_first_occurrence_unique(line, delimiter(), i);
    assert(line.take(i) =~= name);
    assert(line.skip(i + 2) =~= value);
}

/// A record of two lines with one name folds to a single entry: the first
/// value, the joiner, the second value.
pub proof fn lemma_fold_repeated(name: Seq<char>, first: Seq<char>, second: Seq<char>)
    requires
        !contains_seq(name, delimiter()),
    ensures
        fold_fields(seq![name + delimiter() + first, name + delimiter() + second])
            == Map::<Seq<char>, Seq<char>>::empty().insert(name, first + joiner() + second),
{
    let a = name + delimiter() + first;
    let b = name + delimiter() + second;
    let lines = seq![a, b];
    lemma_split_joined(name, first);
    lemma_split_joined(name, second);
    assert(lines.drop_last() =~= seq![a]);
    assert(seq![a].drop_last() =~= Seq::<Seq<char>>::empty());
    assert(fold_fields(Seq::<Seq<char>>::empty()) == Map::<Seq<char>, Seq<char>>::empty());
    assert(fold_fields(seq![a]) == Map::<Seq<char>, Seq<char>>::empty().insert(name, first)) by {
        reveal_with_fuel(fold_fields, 2);
        assert(seq![a].last() == a);
    }
    assert(lines.last() == b);
    assert(fold_fields(lines) =~= Map::<Seq<char>, Seq<char>>::empty().insert(
        name,
        first + joiner() + second,
    ));
}

/// Splits a line at its first `": "`.
pub fn split_line(line: &str) -> (r: Option<(String, String)>)
    ensures
        match r {
            Some((name, value)) => split_field(line@) == Some((name@, value@)),
            None => split_field(line@) is None,
        },
{
    let chars = chars_of(line);
    let mut delim: Vec<char> = Vec::new();
    delim.push(':');
    delim.push(' ');
    assert(delim@ =~= delimiter());
    match find(&chars, &delim) {
        Some(i) => {
            let n = chars.len();
            let name = String::from_str(line.substring_char(0, i));
            let value = String::from_str(line.substring_char(i + 2, n));
            Some((name, value))
        },
        None => None,
    }
}

/// No two entries carry one name.
pub open spec fn distinct_names(entries: Seq<Field>) -> bool {
    forall|i: int, j: int| 0 <= i < j < entries.len() ==> entries[i].name@ != entries[j].name@
}

/// One entry of a mapping: a field's name and its value.
#[derive(Debug)]
pub struct Field {
    pub name: String,
    pub value: String,
}

/// A mapping from field names to text, kept in order of first insertion.
/// It serves both as the folded form of a record and as a filter.
#[derive(Debug)]
pub struct FieldMap {
    entries: Vec<Field>,
}

impl View for FieldMap {
    type V = Map<Seq<char>, Seq<char>>;

    closed spec fn view(&self) -> Map<Seq<char>, Seq<char>> {
        Map::new(
            |k: Seq<char>| self.has_name(k),
            |k: Seq<char>| self.entries@[self.position(k)].value@,
        )
    }
}

impl FieldMap {
    /// Some entry carries the name `k`.
    spec fn has_name(&self, k: Seq<char>) -> bool {
        exists|i: int| 0 <= i < self.entries@.len() && #[trigger] self.entries@[i].name@ == k
    }

    /// An index at which the name `k` stands.
    spec fn position(&self, k: Seq<char>) -> int {
        choose|i: int| 0 <= i < self.entries@.len() && #[trigger] self.entries@[i].name@ == k
    }

    /// No name stands twice. Every value of the type keeps to this.
    #[verifier::type_invariant]
    pub closed spec fn wf(&self) -> bool {
        distinct_names(self.entries@)
    }

    /// The number of names.
    pub closed spec fn count(&self) -> nat {
        self.entries@.len()
    }

    /// The name that was inserted as the `i`-th new one.
    pub closed spec fn name_at(&self, i: int) -> Seq<char> {
        self.entries@[i].name@
    }

    /// The names in the order in which they were first inserted.
    pub open spec fn names(&self) -> Seq<Seq<char>> {
        Seq::new(self.count(), |i: int| self.name_at(i))
    }

    /// The value that stands with the `i`-th name.
    pub closed spec fn value_at(&self, i: int) -> Seq<char> {
        self.entries@[i].value@
    }

    spec fn names_upto(&self, n: int) -> Set<Seq<char>> {
        Set::new(
            |k: Seq<char>| exists|i: int| 0 <= i < n && #[trigger] self.entries@[i].name@ == k,
        )
    }

    proof fn lemma_names_upto(&self, n: int)
        requires
            self.wf(),
            0 <= n <= self.entries@.len(),
        ensures
            self.names_upto(n).finite(),
            self.names_upto(n).len() == n,
        decreases n,
    {
        if n == 0 {
            assert(self.names_upto(0) =~= Set::<Seq<char>>::empty());
        } else {
            self.lemma_names_upto(n - 1);
            let last = self.entries@[n - 1].name@;
            assert forall|k: Seq<char>|
                self.names_upto(n).contains(k) == self.names_upto(n - 1).insert(last).contains(
                    k,
                ) by {
                if self.names_upto(n).contains(k) {
                    let i = choose|i: int| 0 <= i < n && #[trigger] self.entries@[i].name@ == k;
                    if i < n - 1 {
                        assert(self.names_upto(n - 1).contains(k));
                    }
                }
                if self.names_upto(n - 1).contains(k) {
                    let i = choose|i: int|
                        0 <= i < n - 1 && #[trigger] self.entries@[i].name@ == k;
                    assert(self.entries@[i].name@ == k);
                }
                if k == last {
                    assert(self.entries@[n - 1].name@ == k);
                }
            }
            assert(self.names_upto(n) =~= self.names_upto(n - 1).insert(last));
            if self.names_upto(n - 1).contains(last) {
                let i = choose|i: int|
                    0 <= i < n - 1 && #[trigger] self.entries@[i].name@ == last;
                assert(self.entries@[i].name@ != self.entries@[n - 1].name@);
            }
        }
    }

    /// The names are exactly the keys, and each entry holds its key's value.
    pub proof fn lemma_entries(&self)
        requires
            self.wf(),
        ensures
            forall|i: int|
                0 <= i < self.count() ==> self@.contains_key(#[trigger] self.name_at(i))
                    && self@[self.name_at(i)] == self.value_at(i),
            forall|k: Seq<char>| #[trigger]
                self@.contains_key(k) ==> exists|i: int|
                    0 <= i < self.count() && self.name_at(i) == k,
            forall|i: int, j: int|
                0 <= i < j < self.count() ==> self.name_at(i) != self.name_at(j),
            self.count() == 0 ==> self@ == Map::<Seq<char>, Seq<char>>::empty(),
            self@.dom().finite(),
            self@.len() == self.count(),
            forall|k: Seq<char>| self@.contains_key(k) <==> self.names().contains(k),
    {
        self.lemma_names_upto(self.entries@.len() as int);
        assert(self@.dom() =~= self.names_upto(self.entries@.len() as int));
        assert forall|i: int| 0 <= i < self.count() implies self@.contains_key(
            #[trigger] self.name_at(i),
        ) && self@[self.name_at(i)] == self.value_at(i) by {
            self.lemma_entry(i);
        }
        assert forall|k: Seq<char>| #[trigger] self@.contains_key(k) implies exists|i: int|
            0 <= i < self.count() && self.name_at(i) == k by {
            let i = self.position(k);
            assert(self.name_at(i) == k);
        }
        if self.count() == 0 {
            assert(self@ =~= Map::<Seq<char>, Seq<char>>::empty());
        }
        assert forall|k: Seq<char>| self.names().contains(k) implies self@.contains_key(k) by {
            let i = choose|i: int| 0 <= i < self.names().len() && self.names()[i] == k;
            assert(self.name_at(i) == k);
        }
        assert forall|k: Seq<char>| self@.contains_key(k) implies self.names().contains(k) by {
            let i = self.position(k);
            assert(self.names()[i] == k);
        }
    }

    proof fn lemma_entry(&self, i: int)
        requires
            self.wf(),
            0 <= i < self.entries@.len(),
        ensures
            self@.contains_key(self.entries@[i].name@),
            self@[self.entries@[i].name@] == self.entries@[i].value@,
            self.position(self.entries@[i].name@) == i,
    {
        let k = self.entries@[i].name@;
        assert(self.has_name(k));
        let p = self.position(k);
        assert(self.entries@[p].name@ == k);
    }

    /// The empty mapping.
    pub fn new() -> (m: FieldMap)
        ensures
            m@ == Map::<Seq<char>, Seq<char>>::empty(),
            m.names() == Seq::<Seq<char>>::empty(),
    {
        let m = FieldMap { entries: Vec::new() };
        assert(m.names() =~= Seq::<Seq<char>>::empty());
        assert(m@ =~= Map::<Seq<char>, Seq<char>>::empty());
        m
    }

    /// The number of names in the mapping.
    pub fn len(&self) -> (n: usize)
        ensures
            n == self@.len(),
            n == self.count(),
    {
        proof {
            use_type_invariant(self);
            self.lemma_entries();
        }
        self.entries.len()
    }

    /// Whether the mapping holds no name.
    pub fn is_empty(&self) -> (r: bool)
        ensures
            r == (self@ == Map::<Seq<char>, Seq<char>>::empty()),
            r == (self.count() == 0),
    {
        proof {
            use_type_invariant(self);
            self.lemma_entries();
            if self.entries@.len() > 0 {
                self.lemma_entry(0);
            }
        }
        self.entries.len() == 0
    }

    /// The `i`-th entry in order of first insertion, if there are that many.
    pub fn entry(&self, i: usize) -> (r: Option<&Field>)
        ensures
            match r {
                Some(f) => i < self.count() && f.name@ == self.name_at(i as int) && f.value@
                    == self.value_at(i as int),
                None => i >= self.count(),
            },
    {
        if i < self.entries.len() {
            Some(&self.entries[i])
        } else {
            None
        }
    }

    fn index_of(&self, name: &String) -> (r: Option<usize>)
        ensures
            match r {
                Some(i) => i < self.entries@.len() && self.entries@[i as int].name@ == name@,
                None => !self@.contains_key(name@),
            },
    {
        let mut i: usize = 0;
        while i < self.entries.len()
            invariant
                i <= self.entries@.len(),
                forall|j: int| 0 <= j < i ==> self.entries@[j].name@ != name@,
            decreases self.entries@.len() - i,
        {
            if self.entries[i].name == *name {
                return Some(i);
            }
            i += 1;
        }
        None
    }

    /// The value that stands under `name`, if any.
    pub fn get(&self, name: &String) -> (r: Option<&String>)
        ensures
            match r {
                Some(v) => self@.contains_key(name@) && v@ == self@[name@],
                None => !self@.contains_key(name@),
            },
    {
        match self.index_of(name) {
            Some(i) => {
                proof {
                    use_type_invariant(self);
                    self.lemma_entry(i as int);
                }
                Some(&self.entries[i].value)
            },
            None => None,
        }
    }

    /// Puts `value` under `name`, in place of what stood there.
    pub fn insert(&mut self, name: String, value: String)
        ensures
            final(self)@ == old(self)@.insert(name@, value@),
            final(self).names() == if old(self)@.contains_key(name@) {
                old(self).names()
            } else {
                old(self).names().push(name@)
            },
    {
        proof {
            use_type_invariant(&*self);
        }
        let ghost before = *self;
        let ghost n = before.entries@.len() as int;
        let found = self.index_of(&name);
        let mut entries: Vec<Field> = Vec::new();
        std::mem::swap(&mut self.entries, &mut entries);
        match found {
            Some(i) => {
                entries.set(i, Field { name, value });
            },
            None => {
                entries.push(Field { name, value });
            },
        }
        proof {
            if found is None {
                assert forall|j: int| 0 <= j < n implies before.entries@[j].name@ != name@ by {
                    if before.entries@[j].name@ == name@ {
                        assert(before.has_name(name@));
                    }
                }
            }
            assert(distinct_names(entries@));
        }
        std::mem::swap(&mut self.entries, &mut entries);
        proof {
            assert forall|k: Seq<char>| #[trigger]
                self@.contains_key(k) == before@.insert(name@, value@).contains_key(k) by {
                assert(self@.contains_key(k) == self.has_name(k));
                assert(before@.contains_key(k) == before.has_name(k));
                if before.has_name(k) {
                    let p = before.position(k);
                    assert(self.entries@[p].name@ == k);
                }
                if self.has_name(k) {
                    let p = self.position(k);
                    if p < n {
                        assert(before.entries@[p].name@ == k);
                    }
                }
                if k == name@ {
                    match found {
                        Some(i) => {
                            assert(self.entries@[i as int].name@ == k);
                            assert(before.entries@[i as int].name@ == k);
                        },
                        None => {
                            assert(self.entries@[n].name@ == k);
                        },
                    }
                }
            }
            assert forall|k: Seq<char>| self.has_name(k) implies #[trigger] self@[k]
                == before@.insert(name@, value@)[k] by {
                let p = self.position(k);
                self.lemma_entry(p);
                if k != name@ {
                    assert(self.entries@[p] == before.entries@[p]);
                    before.lemma_entry(p);
                } else {
                    assert(self.entries@[p].value@ == value@);
                }
            }
            assert(self@.dom() =~= before@.insert(name@, value@).dom());
            assert(self@ =~= before@.insert(name@, value@));
            match found {
                Some(_) => {
                    assert(self.names() =~= before.names());
                },
                None => {
                    assert(self.names() =~= before.names().push(name@));
                },
            }
        }
    }
}

/// Folds the lines of a record into its mapping from field name to value.
/// The values of a name that comes more than once are joined in order of
/// appearance. A line without a delimiter makes the whole record malformed.
pub fn vec_to_map(record: &Vec<String>) -> (r: Result<FieldMap, RegistryError>)
    ensures
        match r {
            Ok(m) => well_formed(texts(record@)) && m@ == fold_fields(texts(record@))
                && m.names() == first_names(texts(record@)),
            Err(e) => e == RegistryError::MalformedLine && !well_formed(texts(record@)),
        },
{
    let ghost lines = texts(record@);
    let mut m = FieldMap::new();
    let mut i: usize = 0;
    while i < record.len()
        invariant
            lines == texts(record@),
            i <= record.len(),
            m@ == fold_fields(lines.take(i as int)),
            m.names() == first_names(lines.take(i as int)),
            forall|j: int| 0 <= j < i ==> (#[trigger] split_field(lines[j])) is Some,
        decreases record.len() - i,
    {
        proof {
            use_type_invariant(&m);
            m.lemma_entries();
            assert(lines.take(i + 1).drop_last() =~= lines.take(i as int));
            assert(lines.take(i + 1).last() == lines[i as int]);
        }
        match split_line(record[i].as_str()) {
            None => {
                assert(split_field(lines[i as int]) is None);
                return Err(RegistryError::MalformedLine);
            },
            Some((name, value)) => {
                let joined = match m.get(&name) {
                    None => value,
                    Some(earlier) => {
                        let mut joined = earlier.clone();
                        joined.append(" ::<sep_tzu>:: ");
                        joined.append(value.as_str());
                        joined
                    },
                };
                m.insert(name, joined);
            },
        }
        i += 1;
    }
    proof {
        assert(lines.take(i as int) =~= lines);
    }
    Ok(m)
}

} // verus!
