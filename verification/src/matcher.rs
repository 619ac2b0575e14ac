//! Deciding whether a record satisfies a filter, and rendering it if so.

use vstd::prelude::*;
use crate::fields::{
    fold_fields, split_field, split_line, texts, vec_to_map, well_formed, FieldMap, RegistryError,
};
use crate::text::{chars_of, contains, contains_seq, same_text, to_upper, uppercase};

verus! {

/// A pattern that begins with `=` asks for the whole value.
pub open spec fn is_exact(pattern: Seq<char>) -> bool {
    pattern.len() > 0 && pattern[0] == '='
}

/// The test on texts already brought to one case: equality where the
/// pattern is exact, occurrence anywhere in the value where it is not.
pub open spec fn folded_match(value: Seq<char>, wanted: Seq<char>, exact: bool) -> bool {
    if exact {
        value == wanted
    } else {
        contains_seq(value, wanted)
    }
}

/// A value passes a pattern, regardless of case: it equals what follows
/// the `=` of an exact pattern, or holds any other pattern as a substring.
pub open spec fn pattern_holds(value: Seq<char>, pattern: Seq<char>) -> bool {
    if is_exact(pattern) {
        folded_match(uppercase(value), uppercase(pattern.skip(1)), true)
    } else {
        folded_match(uppercase(value), uppercase(pattern), false)
    }
}

/// A record satisfies a filter when every name of the filter stands in the
/// record with a value that passes the filter's pattern for it.
pub open spec fn satisfies(
    record: Map<Seq<char>, Seq<char>>,
    filter: Map<Seq<char>, Seq<char>>,
) -> bool {
    forall|name: Seq<char>| #[trigger]
        filter.contains_key(name) ==> record.contains_key(name) && pattern_holds(
            record[name],
            filter[name],
        )
}

/// A record that lacks a field of the filter does not satisfy it,
/// whatever its other fields hold.
pub proof fn lemma_missing_field_fails(
    record: Map<Seq<char>, Seq<char>>,
    filter: Map<Seq<char>, Seq<char>>,
    name: Seq<char>,
)
    requires
        filter.contains_key(name),
        !record.contains_key(name),
    ensures
        !satisfies(record, filter),
{
}

/// A filter with one more field is satisfied exactly when the filter
/// without it is satisfied and the record passes the new field too.
pub proof fn lemma_conjunction(
    record: Map<Seq<char>, Seq<char>>,
    filter: Map<Seq<char>, Seq<char>>,
    name: Seq<char>,
    pattern: Seq<char>,
)
    requires
        !filter.contains_key(name),
    ensures
        satisfies(record, filter.insert(name, pattern)) <==> satisfies(record, filter)
            && record.contains_key(name) && pattern_holds(record[name], pattern),
{
    let more = filter.insert(name, pattern);
    if satisfies(record, more) {
        assert(more.contains_key(name));
        assert forall|k: Seq<char>| #[trigger] filter.contains_key(k) implies record.contains_key(
            k,
        ) && pattern_holds(record[k], filter[k]) by {
            assert(more.contains_key(k));
        }
    }
}

/// Fields of the record that the filter does not name are ignored.
pub proof fn lemma_other_fields_ignored(
    record: Map<Seq<char>, Seq<char>>,
    filter: Map<Seq<char>, Seq<char>>,
    name: Seq<char>,
    value: Seq<char>,
)
    requires
        !filter.contains_key(name),
    ensures
        satisfies(record.insert(name, value), filter) == satisfies(record, filter),
{
    let more = record.insert(name, value);
    if satisfies(record, filter) {
        assert forall|k: Seq<char>| #[trigger] filter.contains_key(k) implies more.contains_key(k)
            && pattern_holds(more[k], filter[k]) by {}
    }
    if satisfies(more, filter) {
        assert forall|k: Seq<char>| #[trigger] filter.contains_key(k) implies record.contains_key(
            k,
        ) && pattern_holds(record[k], filter[k]) by {
            assert(more.contains_key(k) && pattern_holds(more[k], filter[k]));
        }
    }
}

/// Tests a value against what is wanted, both already in one case.
pub fn compare_folded(value: &str, wanted: &str, exact: bool) -> (r: bool)
    ensures
        r == folded_match(value@, wanted@, exact),
{
    if exact {
        same_text(value, wanted)
    } else {
        let v = chars_of(value);
        let w = chars_of(wanted);
        contains(&v, &w)
    }
}

/// Tests one field value against one pattern, ignoring case.
pub fn field_matches(value: &str, pattern: &str) -> (r: bool)
    ensures
        r == pattern_holds(value@, pattern@),
{
    let p = chars_of(pattern);
    let folded = to_upper(value);
    if p.len() > 0 && p[0] == '=' {
        let wanted = to_upper(pattern.substring_char(1, p.len()));
        compare_folded(folded.as_str(), wanted.as_str(), true)
    } else {
        let wanted = to_upper(pattern);
        compare_folded(folded.as_str(), wanted.as_str(), false)
    }
}

/// One entry of the filter holds of the record.
pub open spec fn entry_holds(record: Map<Seq<char>, Seq<char>>, filter: FieldMap, j: int) -> bool {
    record.contains_key(filter.name_at(j)) && pattern_holds(
        record[filter.name_at(j)],
        filter.value_at(j),
    )
}

/// Whether a folded record satisfies every entry of the filter.
pub fn record_satisfies(record: &FieldMap, filter: &FieldMap) -> (r: bool)
    ensures
        r == satisfies(record@, filter@),
{
    let mut ok = true;
    let mut i: usize = 0;
    while i < filter.len()
        invariant
            i <= filter.count(),
            ok == forall|j: int| 0 <= j < i ==> entry_holds(record@, *filter, j),
        decreases filter.count() - i,
    {
        match filter.entry(i) {
            Some(f) => {
                let held = match record.get(&f.name) {
                    Some(value) => field_matches(value.as_str(), f.value.as_str()),
                    None => false,
                };
                assert(held == entry_holds(record@, *filter, i as int));
                ok = ok && held;
            },
            None => {},
        }
        i += 1;
    }
    proof {
        use_type_invariant(filter);
        filter.lemma_entries();
        if ok {
            assert forall|name: Seq<char>| #[trigger]
                filter@.contains_key(name) implies record@.contains_key(name) && pattern_holds(
                record@[name],
                filter@[name],
            ) by {
                let j = choose|j: int| 0 <= j < filter.count() && filter.name_at(j) == name;
                assert(entry_holds(record@, *filter, j));
            }
        }
        if satisfies(record@, filter@) {
            assert forall|j: int| 0 <= j < i implies entry_holds(record@, *filter, j) by {
                assert(filter@.contains_key(filter.name_at(j)));
            }
        }
    }
    ok
}

/// Folds the record and tests it against the filter.
pub fn record_matches(section: &Vec<String>, filter: &FieldMap) -> (r: Result<
    bool,
    RegistryError,
>)
    ensures
        match r {
            Ok(b) => well_formed(texts(section@)) && b == satisfies(
                fold_fields(texts(section@)),
                filter@,
            ),
            Err(e) => e == RegistryError::MalformedLine && !well_formed(texts(section@)),
        },
{
    match vec_to_map(section) {
        Ok(record) => Ok(record_satisfies(&record, filter)),
        Err(e) => Err(e),
    }
}

/// The line that opens every rendered record and closes the output.
pub open spec fn separator() -> Seq<char> {
    "%%"@
}

/// A field line as it is shown: indented, the name and the value parted
/// again by a colon and a space, the name emphasised where colour is on.
pub open spec fn rendered(line: Seq<char>, color: bool) -> Seq<char> {
    match split_field(line) {
        Some((name, value)) => if color {
            "  \x1b[93m"@ + name + ":\x1b[m "@ + value
        } else {
            "  "@ + name + ": "@ + value
        },
        None => line,
    }
}

/// A record as it is shown: a separator line, then its lines in order.
pub open spec fn rendered_record(lines: Seq<Seq<char>>, color: bool) -> Seq<Seq<char>> {
    seq![separator()] + Seq::new(lines.len(), |i: int| rendered(lines[i], color))
}

/// What a record contributes to the output: itself rendered where it
/// satisfies the filter, nothing where it does not.
pub open spec fn record_output(
    lines: Seq<Seq<char>>,
    filter: Map<Seq<char>, Seq<char>>,
    color: bool,
) -> Seq<Seq<char>> {
    if satisfies(fold_fields(lines), filter) {
        rendered_record(lines, color)
    } else {
        Seq::empty()
    }
}

/// Renders one field line.
pub fn render_line(line: &str, color: bool) -> (r: Result<String, RegistryError>)
    ensures
        match r {
            Ok(out) => split_field(line@) is Some && out@ == rendered(line@, color),
            Err(e) => e == RegistryError::MalformedLine && split_field(line@) is None,
        },
{
    match split_line(line) {
        Some((name, value)) => {
            let mut out = String::from_str(if color { "  \x1b[93m" } else { "  " });
            out.append(name.as_str());
            out.append(if color { ":\x1b[m " } else { ": " });
            out.append(value.as_str());
            Ok(out)
        },
        None => Err(RegistryError::MalformedLine),
    }
}

/// Renders a record: the separator line, then each of its lines.
pub fn render_record(section: &Vec<String>, color: bool) -> (r: Result<Vec<String>, RegistryError>)
    ensures
        match r {
            Ok(out) => well_formed(texts(section@)) && texts(out@) == rendered_record(
                texts(section@),
                color,
            ),
            Err(e) => e == RegistryError::MalformedLine && !well_formed(texts(section@)),
        },
{
    let ghost lines = texts(section@);
    let mut out: Vec<String> = Vec::new();
    out.push(String::from_str("%%"));
    let mut i: usize = 0;
    while i < section.len()
        invariant
            lines == texts(section@),
            i <= section.len(),
            out@.len() == i + 1,
            out@[0]@ == separator(),
            forall|j: int| 0 <= j < i ==> (#[trigger] split_field(lines[j])) is Some,
            forall|j: int| 0 <= j < i ==> (#[trigger] out@[j + 1])@ == rendered(lines[j], color),
        decreases section.len() - i,
    {
        match render_line(section[i].as_str(), color) {
            Ok(line) => {
                out.push(line);
            },
            Err(e) => {
                assert(split_field(lines[i as int]) is None);
                return Err(e);
            },
        }
        i += 1;
    }
    proof {
        let want = rendered_record(lines, color);
        assert(want.len() == out@.len());
        assert forall|k: int| 0 <= k < out@.len() implies texts(out@)[k] == want[k] by {
            if k > 0 {
                assert(out@[(k - 1) + 1]@ == rendered(lines[k - 1], color));
            }
        }
        assert(texts(out@) =~= want);
    }
    Ok(out)
}

/// Evaluates one record against the filter and gives the lines to show
/// for it: the rendered record where it matches, none where it does not.
pub fn report_record(section: &Vec<String>, filter: &FieldMap, color: bool) -> (r: Result<
    Vec<String>,
    RegistryError,
>)
    ensures
        match r {
            Ok(out) => well_formed(texts(section@)) && texts(out@) == record_output(
                texts(section@),
                filter@,
                color,
            ),
            Err(e) => e == RegistryError::MalformedLine && !well_formed(texts(section@)),
        },
{
    match record_matches(section, filter) {
        Ok(true) => render_record(section, color),
        Ok(false) => {
            let out: Vec<String> = Vec::new();
            assert(texts(out@) =~= Seq::<Seq<char>>::empty());
            Ok(out)
        },
        Err(e) => Err(e),
    }
}

} // verus!
