//! The two result shapes, the keyed lists that stand for maps, and the
//! selection of a shape by its name.
use vstd::prelude::*;
use crate::error::CsvError;

verus! {

/// One value of a row, under its column's name.
pub struct Field {
    pub name: String,
    pub value: String,
}

impl View for Field {
    type V = (Seq<char>, Seq<char>);

    open spec fn view(&self) -> (Seq<char>, Seq<char>) {
        (self.name@, self.value@)
    }
}

/// One row: its fields, each name at most once, in the order the names first
/// came.
pub struct Record {
    pub fields: Vec<Field>,
}

impl View for Record {
    type V = Seq<(Seq<char>, Seq<char>)>;

    open spec fn view(&self) -> Seq<(Seq<char>, Seq<char>)> {
        fields_view(self.fields@)
    }
}

pub open spec fn fields_view(fs: Seq<Field>) -> Seq<(Seq<char>, Seq<char>)> {
    Seq::new(fs.len(), |i: int| fs[i]@)
}

/// One column: its name and its values, in line order.
pub struct Column {
    pub name: String,
    pub values: Vec<String>,
}

impl View for Column {
    type V = (Seq<char>, Seq<Seq<char>>);

    open spec fn view(&self) -> (Seq<char>, Seq<Seq<char>>) {
        (self.name@, self.values.deep_view())
    }
}

/// The result being built: column-major (a map from column name to its
/// values) or row-major (a list of row records). Each map is held as a list
/// of entries whose names are unique, in the order the names first came.
pub enum CsvResult {
    MapOfLists(Vec<Column>),
    ListOfMaps(Vec<Record>),
}

pub open spec fn columns_view(cols: Seq<Column>) -> Seq<(Seq<char>, Seq<Seq<char>>)> {
    Seq::new(cols.len(), |i: int| cols[i]@)
}

pub open spec fn records_view(recs: Seq<Record>) -> Seq<Seq<(Seq<char>, Seq<char>)>> {
    Seq::new(recs.len(), |i: int| recs[i]@)
}

/// No name occurs twice among the entries.
pub open spec fn keys_unique<V>(entries: Seq<(Seq<char>, V)>) -> bool {
    forall|a: int, b: int|
        0 <= a < b < entries.len() ==> #[trigger] entries[a].0 != #[trigger] entries[b].0
}

pub open spec fn has_key<V>(entries: Seq<(Seq<char>, V)>, k: Seq<char>) -> bool {
    exists|j: int| 0 <= j < entries.len() && entries[j].0 == k
}

/// The position of the entry named `k`, where there is one.
pub open spec fn key_index<V>(entries: Seq<(Seq<char>, V)>, k: Seq<char>) -> int {
    choose|j: int| 0 <= j < entries.len() && entries[j].0 == k
}

/// The entries with `k` mapped to `v`: the entry named `k` takes the new
/// value in its place, or a new entry comes last.
pub open spec fn put(entries: Seq<(Seq<char>, Seq<char>)>, k: Seq<char>, v: Seq<char>) -> Seq<
    (Seq<char>, Seq<char>),
> {
    if has_key(entries, k) {
        entries.update(key_index(entries, k), (k, v))
    } else {
        entries.push((k, v))
    }
}

/// The columns with `v` appended to the column named `k`, which is created,
/// last, where it does not exist yet.
pub open spec fn append_value(
    cols: Seq<(Seq<char>, Seq<Seq<char>>)>,
    k: Seq<char>,
    v: Seq<char>,
) -> Seq<(Seq<char>, Seq<Seq<char>>)> {
    if has_key(cols, k) {
        let j = key_index(cols, k);
        cols.update(j, (k, cols[j].1.push(v)))
    } else {
        cols.push((k, seq![v]))
    }
}

/// The record holds its names at most once.
pub open spec fn record_wf(r: Record) -> bool {
    keys_unique(r@)
}

/// Every column name occurs at most once.
pub open spec fn columns_wf(cols: Seq<Column>) -> bool {
    keys_unique(columns_view(cols))
}

/// Maps `name` to `value` in `fields`.
pub fn put_field(fields: &mut Vec<Field>, name: &String, value: String)
    requires
        keys_unique(fields_view(old(fields)@)),
    ensures
        fields_view(final(fields)@) == put(fields_view(old(fields)@), name@, value@),
        keys_unique(fields_view(final(fields)@)),
{
    let ghost before = fields_view(fields@);
    let mut j: usize = 0;
    while j < fields.len()
        invariant
            j <= fields.len(),
            *fields == *old(fields),
            before == fields_view(fields@),
            keys_unique(before),
            forall|t: int| 0 <= t < j ==> before[t].0 != name@,
        decreases fields.len() - j,
    {
        if fields[j].name == *name {
            proof {
                assert(before[j as int].0 == name@);
                assert(has_key(before, name@));
                let c = key_index(before, name@);
                assert(c == j as int);
            }
            fields.set(j, Field { name: name.clone(), value });
            let ghost after = fields_view(fields@);
            assert(after =~= put(before, name@, value@));
            return;
        }
        j = j + 1;
    }
    assert(!has_key(before, name@));
    fields.push(Field { name: name.clone(), value });
    let ghost after = fields_view(fields@);
    assert(after =~= put(before, name@, value@));
}

/// Appends `value` to the column named `name`, creating it with room for
/// `capacity` values where it does not exist yet.
pub fn push_to_column(cols: &mut Vec<Column>, name: &String, value: String, capacity: usize)
    requires
        columns_wf(old(cols)@),
    ensures
        columns_view(final(cols)@) == append_value(columns_view(old(cols)@), name@, value@),
        columns_wf(final(cols)@),
{
    let ghost before = columns_view(cols@);
    let mut j: usize = 0;
    while j < cols.len()
        invariant
            j <= cols.len(),
            *cols == *old(cols),
            before == columns_view(cols@),
            keys_unique(before),
            forall|t: int| 0 <= t < j ==> before[t].0 != name@,
        decreases cols.len() - j,
    {
        if cols[j].name == *name {
            proof {
                assert(before[j as int].0 == name@);
                assert(has_key(before, name@));
                let c = key_index(before, name@);
                assert(c == j as int);
            }
            let mut col = Column { name: String::new(), values: Vec::new() };
            cols.set_and_swap(j, &mut col);
            let ghost prev_values = col.values.deep_view();
            col.values.push(value);
            assert(col.values.deep_view() =~= prev_values.push(value@));
            cols.set_and_swap(j, &mut col);
            assert(columns_view(cols@) =~= append_value(before, name@, value@));
            return;
        }
        j = j + 1;
    }
    assert(!has_key(before, name@));
    let mut values: Vec<String> = Vec::with_capacity(capacity);
    values.push(value);
    assert(values.deep_view() =~= seq![value@]);
    cols.push(Column { name: name.clone(), values });
    assert(columns_view(cols@) =~= append_value(before, name@, value@));
}

/// The names that select the row-major shape.
pub open spec fn names_list_of_maps(s: Seq<char>) -> bool {
    s == "list-of-maps"@ || s == "lom"@ || s == "l"@
}

/// The names that select the column-major shape.
pub open spec fn names_map_of_lists(s: Seq<char>) -> bool {
    s == "map-of-lists"@ || s == "mol"@ || s == "m"@
}

impl CsvResult {
    /// The empty result of each shape under each of its names: full name,
    /// short name and first letter.
    pub fn _get_str_map() -> (table: Vec<(&'static str, CsvResult)>)
        ensures
            table@.len() == 6,
            table@[0].0@ == "list-of-maps"@,
            table@[1].0@ == "lom"@,
            table@[2].0@ == "l"@,
            table@[3].0@ == "map-of-lists"@,
            table@[4].0@ == "mol"@,
            table@[5].0@ == "m"@,
            forall|i: int|
                0 <= i < 3 ==> (#[trigger] table@[i]).1 is ListOfMaps && table@[i].1->ListOfMaps_0@.len() == 0,
            forall|i: int|
                3 <= i < 6 ==> (#[trigger] table@[i]).1 is MapOfLists && table@[i].1->MapOfLists_0@.len() == 0,
    {
        vec![
            ("list-of-maps", CsvResult::ListOfMaps(Vec::new())),
            ("lom", CsvResult::ListOfMaps(Vec::new())),
            ("l", CsvResult::ListOfMaps(Vec::new())),
            ("map-of-lists", CsvResult::MapOfLists(Vec::new())),
            ("mol", CsvResult::MapOfLists(Vec::new())),
            ("m", CsvResult::MapOfLists(Vec::new())),
        ]
    }

    /// The empty result of the shape that `s` names; an unknown name fails
    /// with `UnknownFormat` holding it.
    pub fn from_format_str(s: &str) -> (r: Result<CsvResult, CsvError>)
        ensures
            names_list_of_maps(s@) ==> r is Ok && r->Ok_0 is ListOfMaps
                && r->Ok_0->ListOfMaps_0@.len() == 0,
            !names_list_of_maps(s@) && names_map_of_lists(s@) ==> r is Ok && r->Ok_0 is MapOfLists
                && r->Ok_0->MapOfLists_0@.len() == 0,
            !names_list_of_maps(s@) && !names_map_of_lists(s@) ==> r is Err
                && r->Err_0 is UnknownFormat && r->Err_0->UnknownFormat_0@ == s@,
    {
        let table = CsvResult::_get_str_map();
        let wanted = s.to_owned();
        let mut i: usize = 0;
        while i < table.len()
            invariant
                i <= table@.len(),
                table@.len() == 6,
                wanted@ == s@,
                table@[0].0@ == "list-of-maps"@,
                table@[1].0@ == "lom"@,
                table@[2].0@ == "l"@,
                table@[3].0@ == "map-of-lists"@,
                table@[4].0@ == "mol"@,
                table@[5].0@ == "m"@,
                forall|j: int|
                    0 <= j < 3 ==> (#[trigger] table@[j]).1 is ListOfMaps,
                forall|j: int|
                    3 <= j < 6 ==> (#[trigger] table@[j]).1 is MapOfLists,
                forall|j: int| 0 <= j < i ==> (#[trigger] table@[j]).0@ != s@,
            decreases table.len() - i,
        {
            let name = table[i].0.to_owned();
            if name == wanted {
                proof {
                    assert(table@[0].0@ != s@ && table@[1].0@ != s@ && table@[2].0@ != s@ || i < 3);
                }
                return match &table[i].1 {
                    CsvResult::ListOfMaps(_) => Ok(CsvResult::ListOfMaps(Vec::new())),
                    CsvResult::MapOfLists(_) => Ok(CsvResult::MapOfLists(Vec::new())),
                };
            }
            i = i + 1;
        }
        proof {
            assert(table@[0].0@ != s@ && table@[1].0@ != s@ && table@[2].0@ != s@);
            assert(table@[3].0@ != s@ && table@[4].0@ != s@ && table@[5].0@ != s@);
        }
        Err(CsvError::UnknownFormat(wanted))
    }
}

} // verus!
