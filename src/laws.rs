//! Laws that relate the two shapes.
use vstd::prelude::*;
use crate::accumulate::{add_line, columns_prefix, record_of, record_prefix};
use crate::accumulate::line_anomalies;
use crate::driver::{all_anomalies, columns_of, rows_of};
use crate::shape::{append_value, has_key, key_index, keys_unique, put};

verus! {

/// No column name occurs twice in the header.
pub open spec fn names_distinct(header: Seq<Seq<char>>) -> bool {
    forall|a: int, b: int| 0 <= a < b < header.len() ==> #[trigger] header[a] != #[trigger] header[b]
}

proof fn lemma_full_record_prefix(header: Seq<Seq<char>>, tokens: Seq<Seq<char>>, n: nat)
    requires
        names_distinct(header),
        tokens.len() == header.len(),
        n <= header.len(),
    ensures
        record_prefix(header, tokens, n) == Seq::new(n, |i: int| (header[i], tokens[i])),
    decreases n,
{
    if n > 0 {
        let m = (n - 1) as nat;
        lemma_full_record_prefix(header, tokens, m);
        let prev = record_prefix(header, tokens, m);
        if has_key(prev, header[m as int]) {
            let j = choose|j: int| 0 <= j < prev.len() && prev[j].0 == header[m as int];
            assert(header[j] != header[m as int]);
        }
        assert(put(prev, header[m as int], tokens[m as int]) =~= Seq::new(n, |i: int| (header[i], tokens[i])));
    }
}

proof fn lemma_first_line_columns(header: Seq<Seq<char>>, tokens: Seq<Seq<char>>, n: nat)
    requires
        names_distinct(header),
        tokens.len() == header.len(),
        n <= header.len(),
    ensures
        columns_prefix(seq![], header, tokens, n) == Seq::new(n, |i: int| (header[i], seq![tokens[i]])),
    decreases n,
{
    if n > 0 {
        let m = (n - 1) as nat;
        lemma_first_line_columns(header, tokens, m);
        let prev = columns_prefix(seq![], header, tokens, m);
        if has_key(prev, header[m as int]) {
            let j = choose|j: int| 0 <= j < prev.len() && prev[j].0 == header[m as int];
            assert(header[j] != header[m as int]);
        }
        assert(append_value(prev, header[m as int], tokens[m as int]) =~= Seq::new(
            n,
            |i: int| (header[i], seq![tokens[i]]),
        ));
    }
}

proof fn lemma_next_line_columns(
    cols: Seq<(Seq<char>, Seq<Seq<char>>)>,
    header: Seq<Seq<char>>,
    tokens: Seq<Seq<char>>,
    n: nat,
)
    requires
        names_distinct(header),
        tokens.len() == header.len(),
        cols.len() == header.len(),
        forall|i: int| 0 <= i < cols.len() ==> (#[trigger] cols[i]).0 == header[i],
        n <= header.len(),
    ensures
        columns_prefix(cols, header, tokens, n) == Seq::new(
            cols.len(),
            |i: int| if i < n { (header[i], cols[i].1.push(tokens[i])) } else { cols[i] },
        ),
    decreases n,
{
    if n > 0 {
        let m = (n - 1) as nat;
        lemma_next_line_columns(cols, header, tokens, m);
        let prev = columns_prefix(cols, header, tokens, m);
        assert(prev[m as int].0 == header[m as int]);
        assert(has_key(prev, header[m as int]));
        let j = key_index(prev, header[m as int]);
        assert(prev[j].0 == header[j]);
        assert(j == m);
        assert(append_value(prev, header[m as int], tokens[m as int]) =~= Seq::new(
            cols.len(),
            |i: int| if i < n { (header[i], cols[i].1.push(tokens[i])) } else { cols[i] },
        ));
    }
}

proof fn lemma_full_columns(header: Seq<Seq<char>>, data: Seq<Seq<Seq<char>>>)
    requires
        names_distinct(header),
        data.len() > 0,
        forall|k: int| 0 <= k < data.len() ==> (#[trigger] data[k]).len() == header.len(),
    ensures
        columns_of(seq![], header, data) == Seq::new(
            header.len(),
            |i: int| (header[i], Seq::new(data.len(), |r: int| data[r][i])),
        ),
    decreases data.len(),
{
    let t = data.last();
    if data.len() == 1 {
        let empty = Seq::<(Seq<char>, Seq<Seq<char>>)>::empty();
        assert(data.drop_last().len() == 0);
        assert(columns_of(empty, header, data.drop_last()) == empty);
        assert(columns_of(empty, header, data) == add_line(empty, header, t));
        lemma_first_line_columns(header, t, header.len());
        assert forall|i: int| 0 <= i < header.len() implies seq![t[i]] =~= Seq::new(
            data.len(),
            |r: int| data[r][i],
        ) by {}
        assert(columns_of(seq![], header, data) =~= Seq::new(
            header.len(),
            |i: int| (header[i], Seq::new(data.len(), |r: int| data[r][i])),
        ));
    } else {
        let d = data.drop_last();
        lemma_full_columns(header, d);
        let prev = columns_of(seq![], header, d);
        lemma_next_line_columns(prev, header, t, header.len());
        assert forall|i: int| 0 <= i < header.len() implies Seq::new(d.len(), |r: int| d[r][i]).push(t[i])
            =~= Seq::new(data.len(), |r: int| data[r][i]) by {}
        assert(columns_of(seq![], header, data) =~= Seq::new(
            header.len(),
            |i: int| (header[i], Seq::new(data.len(), |r: int| data[r][i])),
        ));
    }
}

/// Where the header's names are distinct and every data line has one token
/// per column, the two shapes hold the same values: column `i` of the
/// column-major result is, line for line, the `i`-th field of each record
/// of the row-major one, under the same name.
pub proof fn law_shapes_transpose(header: Seq<Seq<char>>, data: Seq<Seq<Seq<char>>>)
    requires
        names_distinct(header),
        forall|k: int| 0 <= k < data.len() ==> (#[trigger] data[k]).len() == header.len(),
    ensures
        ({
            let cols = columns_of(seq![], header, data);
            let rows = rows_of(header, data);
            &&& rows.len() == data.len()
            &&& data.len() > 0 ==> cols.len() == header.len()
            &&& forall|r: int| 0 <= r < rows.len() ==> (#[trigger] rows[r]).len() == header.len()
            &&& forall|i: int|
                0 <= i < cols.len() ==> (#[trigger] cols[i]).1.len() == rows.len()
            &&& forall|i: int, r: int|
                0 <= i < cols.len() && 0 <= r < rows.len() ==> (#[trigger] cols[i]).0 == (
                #[trigger] rows[r])[i].0 && cols[i].1[r] == rows[r][i].1
        }),
{
    let rows = rows_of(header, data);
    assert forall|r: int| 0 <= r < data.len() implies (#[trigger] rows[r]) == Seq::new(
        header.len(),
        |i: int| (header[i], data[r][i]),
    ) by {
        lemma_full_record_prefix(header, data[r], header.len());
    }
    if data.len() > 0 {
        lemma_full_columns(header, data);
    } else {
        assert(columns_of(seq![], header, data) == Seq::<(Seq<char>, Seq<Seq<char>>)>::empty());
    }
}

/// The tokens at column index `i` of the data lines that have one, in line
/// order.
pub open spec fn supplied_values(data: Seq<Seq<Seq<char>>>, i: int) -> Seq<Seq<char>>
    decreases data.len(),
{
    if data.len() == 0 {
        seq![]
    } else if data.last().len() > i {
        supplied_values(data.drop_last(), i).push(data.last()[i])
    } else {
        supplied_values(data.drop_last(), i)
    }
}

/// The number of data lines that supply a token at column index `i`.
pub open spec fn supplying(data: Seq<Seq<Seq<char>>>, i: int) -> nat
    decreases data.len(),
{
    if data.len() == 0 {
        0
    } else {
        supplying(data.drop_last(), i) + if data.last().len() > i { 1nat } else { 0nat }
    }
}

/// The values of the column named `x`; none where there is no such column.
pub open spec fn values_of(cols: Seq<(Seq<char>, Seq<Seq<char>>)>, x: Seq<char>) -> Seq<Seq<char>> {
    if has_key(cols, x) {
        cols[key_index(cols, x)].1
    } else {
        seq![]
    }
}

/// Every name among the columns is a name of the header.
pub open spec fn named_by(cols: Seq<(Seq<char>, Seq<Seq<char>>)>, header: Seq<Seq<char>>) -> bool {
    forall|j: int| 0 <= j < cols.len() ==> exists|i: int| 0 <= i < header.len() && #[trigger] header[i] == (#[trigger] cols[j]).0
}

/// `x` names no column of the header.
pub open spec fn outside_header(header: Seq<Seq<char>>, x: Seq<char>) -> bool {
    forall|i: int| 0 <= i < header.len() ==> #[trigger] header[i] != x
}

proof fn lemma_append_value(cols: Seq<(Seq<char>, Seq<Seq<char>>)>, k: Seq<char>, v: Seq<char>)
    requires
        keys_unique(cols),
    ensures
        keys_unique(append_value(cols, k, v)),
        forall|x: Seq<char>| #[trigger] values_of(append_value(cols, k, v), x) == if x == k {
            values_of(cols, x).push(v)
        } else {
            values_of(cols, x)
        },
        forall|j: int| 0 <= j < append_value(cols, k, v).len() ==> (#[trigger] append_value(cols, k, v)[j]).0 == k
            || (j < cols.len() && append_value(cols, k, v)[j].0 == cols[j].0),
{
    let new = append_value(cols, k, v);
    if has_key(cols, k) {
        let j = key_index(cols, k);
        assert forall|t: int| 0 <= t < new.len() implies (#[trigger] new[t]).0 == cols[t].0 by {}
        assert forall|x: Seq<char>| #[trigger] values_of(new, x) == if x == k {
            values_of(cols, x).push(v)
        } else {
            values_of(cols, x)
        } by {
            if has_key(cols, x) {
                let a = key_index(cols, x);
                assert(new[a].0 == x);
                assert(has_key(new, x));
                let b = key_index(new, x);
                assert(cols[b].0 == x);
                assert(a == b);
                if x == k {
                    assert(a == j);
                } else {
                    assert(a != j);
                }
            } else {
                if has_key(new, x) {
                    let b = key_index(new, x);
                    assert(cols[b].0 == x);
                }
                assert(x != k);
            }
        }
    } else {
        assert forall|x: Seq<char>| #[trigger] values_of(new, x) == if x == k {
            values_of(cols, x).push(v)
        } else {
            values_of(cols, x)
        } by {
            if x == k {
                assert(new[cols.len() as int].0 == k);
                assert(has_key(new, k));
                let b = key_index(new, k);
                assert(b == cols.len());
                assert(seq![v] =~= Seq::<Seq<char>>::empty().push(v));
            } else if has_key(cols, x) {
                let a = key_index(cols, x);
                assert(new[a].0 == x);
                assert(has_key(new, x));
                let b = key_index(new, x);
                assert(b < cols.len());
                assert(cols[b].0 == x);
                assert(a == b);
            } else {
                if has_key(new, x) {
                    let b = key_index(new, x);
                    assert(b < cols.len());
                    assert(cols[b].0 == x);
                }
            }
        }
    }
}

proof fn lemma_columns_prefix_values(
    cols: Seq<(Seq<char>, Seq<Seq<char>>)>,
    header: Seq<Seq<char>>,
    tokens: Seq<Seq<char>>,
    n: nat,
)
    requires
        names_distinct(header),
        keys_unique(cols),
        n <= header.len(),
        n <= tokens.len(),
    ensures
        keys_unique(columns_prefix(cols, header, tokens, n)),
        named_by(cols, header) ==> named_by(columns_prefix(cols, header, tokens, n), header),
        forall|i: int| 0 <= i < header.len() ==> #[trigger] values_of(columns_prefix(cols, header, tokens, n), header[i])
            == if i < n { values_of(cols, header[i]).push(tokens[i]) } else { values_of(cols, header[i]) },
        forall|x: Seq<char>| outside_header(header, x) ==> #[trigger] values_of(columns_prefix(cols, header, tokens, n), x)
            == values_of(cols, x),
    decreases n,
{
    if n > 0 {
        let m = (n - 1) as nat;
        lemma_columns_prefix_values(cols, header, tokens, m);
        let prev = columns_prefix(cols, header, tokens, m);
        lemma_append_value(prev, header[m as int], tokens[m as int]);
        let new = columns_prefix(cols, header, tokens, n);
        assert(new == append_value(prev, header[m as int], tokens[m as int]));
        if named_by(cols, header) {
            assert forall|j: int| 0 <= j < new.len() implies exists|i: int| 0 <= i < header.len() && #[trigger] header[i] == (#[trigger] new[j]).0 by {
                if new[j].0 == header[m as int] {
                    assert(header[m as int] == new[j].0);
                } else {
                    assert(new[j].0 == prev[j].0);
                    let i = choose|i: int| 0 <= i < header.len() && #[trigger] header[i] == (#[trigger] prev[j]).0;
                    assert(header[i] == new[j].0);
                }
            }
        }
        assert forall|i: int| 0 <= i < header.len() implies #[trigger] values_of(new, header[i])
            == if i < n { values_of(cols, header[i]).push(tokens[i]) } else { values_of(cols, header[i]) } by {
            if i != m {
                assert(header[i] != header[m as int]);
            }
        }
        assert forall|x: Seq<char>| outside_header(header, x) implies #[trigger] values_of(new, x) == values_of(cols, x) by {
            assert(header[m as int] != x);
        }
    }
}

proof fn lemma_columns_of_values(header: Seq<Seq<char>>, data: Seq<Seq<Seq<char>>>)
    requires
        names_distinct(header),
    ensures
        keys_unique(columns_of(seq![], header, data)),
        named_by(columns_of(seq![], header, data), header),
        forall|i: int| 0 <= i < header.len() ==> #[trigger] values_of(columns_of(seq![], header, data), header[i])
            == supplied_values(data, i),
    decreases data.len(),
{
    if data.len() > 0 {
        let d = data.drop_last();
        let t = data.last();
        lemma_columns_of_values(header, d);
        let prev = columns_of(seq![], header, d);
        let n = if t.len() < header.len() { t.len() } else { header.len() };
        lemma_columns_prefix_values(prev, header, t, n);
        assert(columns_of(seq![], header, data) == columns_prefix(prev, header, t, n));
    } else {
        let empty = Seq::<(Seq<char>, Seq<Seq<char>>)>::empty();
        assert(columns_of(empty, header, data) == empty);
        assert forall|i: int| 0 <= i < header.len() implies #[trigger] values_of(empty, header[i]) == supplied_values(data, i) by {
            assert(!has_key(empty, header[i]));
        }
    }
}

proof fn lemma_supplied_count(data: Seq<Seq<Seq<char>>>, i: int)
    ensures
        supplied_values(data, i).len() == supplying(data, i),
        supplying(data, i) <= data.len(),
    decreases data.len(),
{
    if data.len() > 0 {
        lemma_supplied_count(data.drop_last(), i);
    }
}

/// Column `j` is named by some header column `i` and holds, in line order,
/// the token at index `i` of each data line that has one: as many values
/// as there are such lines.
pub open spec fn holds_supplied(
    cols: Seq<(Seq<char>, Seq<Seq<char>>)>,
    header: Seq<Seq<char>>,
    data: Seq<Seq<Seq<char>>>,
    j: int,
) -> bool {
    exists|i: int|
        0 <= i < header.len() && header[i] == cols[j].0 && #[trigger] supplied_values(data, i) == cols[j].1
            && cols[j].1.len() == supplying(data, i)
}

/// Where the header's names are distinct, each column of the column-major
/// result is named by some header column `i` and holds, in line order, the
/// token at index `i` of each data line that has one: never more values
/// than data lines.
pub proof fn law_column_values(header: Seq<Seq<char>>, data: Seq<Seq<Seq<char>>>)
    requires
        names_distinct(header),
    ensures
        forall|j: int| 0 <= j < columns_of(seq![], header, data).len() ==> #[trigger] holds_supplied(
            columns_of(seq![], header, data),
            header,
            data,
            j,
        ) && columns_of(seq![], header, data)[j].1.len() <= data.len(),
{
    let cols = columns_of(seq![], header, data);
    lemma_columns_of_values(header, data);
    assert forall|j: int| 0 <= j < cols.len() implies #[trigger] holds_supplied(cols, header, data, j)
        && cols[j].1.len() <= data.len() by {
        let i = choose|i: int| 0 <= i < header.len() && #[trigger] header[i] == (#[trigger] cols[j]).0;
        assert(has_key(cols, header[i]));
        let a = key_index(cols, header[i]);
        assert(a == j);
        assert(values_of(cols, header[i]) == supplied_values(data, i));
        lemma_supplied_count(data, i);
        assert(header[i] == cols[j].0 && supplied_values(data, i) == cols[j].1);
    }
}

/// Where the header's names are distinct, one data line appends to the
/// column named by header column `i` exactly its token at index `i`, where
/// it has one, and to no other column: every other list is unchanged.
pub proof fn law_line_grows_columns(
    cols: Seq<(Seq<char>, Seq<Seq<char>>)>,
    header: Seq<Seq<char>>,
    tokens: Seq<Seq<char>>,
)
    requires
        names_distinct(header),
        keys_unique(cols),
    ensures
        keys_unique(add_line(cols, header, tokens)),
        forall|i: int| 0 <= i < header.len() ==> #[trigger] values_of(add_line(cols, header, tokens), header[i])
            == if i < tokens.len() { values_of(cols, header[i]).push(tokens[i]) } else { values_of(cols, header[i]) },
        forall|x: Seq<char>| outside_header(header, x) ==> #[trigger] values_of(add_line(cols, header, tokens), x)
            == values_of(cols, x),
{
    let n = if tokens.len() < header.len() { tokens.len() } else { header.len() };
    lemma_columns_prefix_values(cols, header, tokens, n);
}

/// In tolerant mode every data line whose token count differs from the
/// header's column count is reported: its anomalies are not empty, and they
/// stand, in line order, among the anomalies of the whole input.
pub proof fn law_irregular_lines_reported(expected: nat, data: Seq<Seq<Seq<char>>>, k: int)
    requires
        0 <= k < data.len(),
        data[k].len() != expected,
    ensures
        line_anomalies(expected, data[k].len()).len() > 0,
        all_anomalies(expected, data) =~= all_anomalies(expected, data.take(k)) + line_anomalies(
            expected,
            data[k].len(),
        ) + all_anomalies(expected, data.skip(k + 1)),
{
    lemma_anomalies_split(expected, data, k);
}

proof fn lemma_anomalies_split(expected: nat, data: Seq<Seq<Seq<char>>>, k: int)
    requires
        0 <= k < data.len(),
    ensures
        all_anomalies(expected, data) =~= all_anomalies(expected, data.take(k)) + line_anomalies(
            expected,
            data[k].len(),
        ) + all_anomalies(expected, data.skip(k + 1)),
    decreases data.len(),
{
    if k == data.len() - 1 {
        assert(data.take(k) =~= data.drop_last());
        assert(data.skip(k + 1) =~= Seq::<Seq<Seq<char>>>::empty());
        assert(all_anomalies(expected, data.skip(k + 1)) =~= Seq::<crate::error::Anomaly>::empty());
    } else {
        let d = data.drop_last();
        lemma_anomalies_split(expected, d, k);
        assert(d.take(k) =~= data.take(k));
        assert(d.skip(k + 1) =~= data.skip(k + 1).drop_last());
        assert(data.skip(k + 1).last() == data.last());
    }
}

} // verus!
