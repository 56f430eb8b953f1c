//! The whole input: the first line binds the header, every later line is
//! added to the chosen shape in order.
use vstd::prelude::*;
use crate::accumulate::{
    add_line, line_anomalies, process_headers, process_line_for_list_of_maps,
    process_line_for_map_of_lists, record_of,
};
use crate::error::{Anomaly, CsvError};
use crate::shape::{columns_view, columns_wf, record_wf, records_view, CsvResult};
use crate::tokenize::{cleaned, fields, split_line};

verus! {

/// The column names: the fields of the first line.
pub open spec fn header_of(lines: Seq<Seq<char>>) -> Seq<Seq<char>> {
    if lines.len() > 0 {
        fields(lines[0])
    } else {
        seq![]
    }
}

/// The fields of each data line (every line but the first), in order.
pub open spec fn data_of(lines: Seq<Seq<char>>) -> Seq<Seq<Seq<char>>> {
    if lines.len() > 0 {
        Seq::new((lines.len() - 1) as nat, |k: int| fields(lines[k + 1]))
    } else {
        seq![]
    }
}

/// One record for each data line, in order.
pub open spec fn rows_of(header: Seq<Seq<char>>, data: Seq<Seq<Seq<char>>>) -> Seq<
    Seq<(Seq<char>, Seq<char>)>,
> {
    Seq::new(data.len(), |k: int| record_of(header, data[k]))
}

/// The columns after each data line is added, in order.
pub open spec fn columns_of(
    cols: Seq<(Seq<char>, Seq<Seq<char>>)>,
    header: Seq<Seq<char>>,
    data: Seq<Seq<Seq<char>>>,
) -> Seq<(Seq<char>, Seq<Seq<char>>)>
    decreases data.len(),
{
    if data.len() == 0 {
        cols
    } else {
        add_line(columns_of(cols, header, data.drop_last()), header, data.last())
    }
}

/// The anomalies of all data lines, line after line.
pub open spec fn all_anomalies(expected: nat, data: Seq<Seq<Seq<char>>>) -> Seq<Anomaly>
    decreases data.len(),
{
    if data.len() == 0 {
        seq![]
    } else {
        all_anomalies(expected, data.drop_last()) + line_anomalies(expected, data.last().len())
    }
}

/// The result's maps hold each name at most once.
pub open spec fn result_wf(r: CsvResult) -> bool {
    match r {
        CsvResult::MapOfLists(cols) => columns_wf(cols@),
        CsvResult::ListOfMaps(recs) => forall|k: int|
            0 <= k < recs@.len() ==> record_wf(#[trigger] recs@[k]),
    }
}

/// `after` is `before` of the same shape with the data lines added.
pub open spec fn accumulated(
    before: CsvResult,
    after: CsvResult,
    header: Seq<Seq<char>>,
    data: Seq<Seq<Seq<char>>>,
) -> bool {
    &&& result_wf(after)
    &&& match before {
        CsvResult::MapOfLists(cols) => after is MapOfLists && columns_view(after->MapOfLists_0@)
            == columns_of(columns_view(cols@), header, data),
        CsvResult::ListOfMaps(recs) => after is ListOfMaps && records_view(after->ListOfMaps_0@)
            == records_view(recs@) + rows_of(header, data),
    }
}

/// The anomalies of the first `m` lines come first among those of all lines.
pub proof fn lemma_anomalies_prefix(expected: nat, data: Seq<Seq<Seq<char>>>, m: int)
    requires
        0 <= m <= data.len(),
    ensures
        all_anomalies(expected, data.take(m)).len() <= all_anomalies(expected, data).len(),
        forall|i: int|
            0 <= i < all_anomalies(expected, data.take(m)).len() ==> #[trigger] all_anomalies(
                expected,
                data.take(m),
            )[i] == all_anomalies(expected, data)[i],
    decreases data.len(),
{
    if m == data.len() {
        assert(data.take(m) =~= data);
    } else {
        lemma_anomalies_prefix(expected, data.drop_last(), m);
        assert(data.drop_last().take(m) =~= data.take(m));
    }
}

/// There are anomalies exactly where some data line's token count differs
/// from the header's column count.
pub proof fn lemma_anomalies_iff_irregular(expected: nat, data: Seq<Seq<Seq<char>>>)
    ensures
        all_anomalies(expected, data).len() > 0 <==> exists|k: int|
            0 <= k < data.len() && #[trigger] data[k].len() != expected,
    decreases data.len(),
{
    if data.len() > 0 {
        lemma_anomalies_iff_irregular(expected, data.drop_last());
        if exists|k: int| 0 <= k < data.drop_last().len() && #[trigger] data.drop_last()[k].len() != expected {
            let k = choose|k: int| 0 <= k < data.drop_last().len() && #[trigger] data.drop_last()[k].len() != expected;
            assert(data[k].len() != expected);
        }
        if exists|k: int| 0 <= k < data.len() && #[trigger] data[k].len() != expected {
            let k = choose|k: int| 0 <= k < data.len() && #[trigger] data[k].len() != expected;
            if k < data.len() - 1 {
                assert(data.drop_last()[k].len() != expected);
            }
        }
    }
}

/// The first `n` lines hold the header and the first `n - 1` data lines.
proof fn lemma_data_of_prefix(lines: Seq<Seq<char>>, n: int)
    requires
        1 <= n <= lines.len(),
    ensures
        data_of(lines.take(n)) == data_of(lines).take(n - 1),
        header_of(lines.take(n)) == header_of(lines),
{
    assert(data_of(lines.take(n)) =~= data_of(lines).take(n - 1));
}

/// A conversion in progress. It awaits the header until the first line is
/// fed; every later line is added to the result as a data line.
pub struct Converter {
    headers: Option<Vec<String>>,
    result: CsvResult,
    warnings: Vec<Anomaly>,
    allow_anomalies: bool,
    capacity: usize,
    fed: Ghost<Seq<Seq<char>>>,
    initial: Ghost<CsvResult>,
}

impl Converter {
    /// The lines fed so far, in order.
    pub closed spec fn lines_fed(&self) -> Seq<Seq<char>> {
        self.fed@
    }

    /// The result that the lines are added to.
    pub closed spec fn initial(&self) -> CsvResult {
        self.initial@
    }

    pub closed spec fn tolerant(&self) -> bool {
        self.allow_anomalies
    }

    /// The result and the anomalies are those of the lines fed so far; the
    /// header is bound once the first line is fed.
    pub closed spec fn wf(&self) -> bool {
        let header = header_of(self.fed@);
        let data = data_of(self.fed@);
        &&& (self.fed@.len() == 0 <==> self.headers is None)
        &&& self.headers is Some ==> self.headers->0.deep_view() == header
        &&& accumulated(self.initial@, self.result, header, data)
        &&& self.warnings@ == all_anomalies(header.len(), data)
        &&& !self.allow_anomalies ==> all_anomalies(header.len(), data).len() == 0
    }

    /// A conversion into `result`, awaiting the header.
    pub fn new(result: CsvResult, allow_anomalies: bool, capacity: usize) -> (c: Converter)
        requires
            result_wf(result),
        ensures
            c.wf(),
            c.lines_fed() == Seq::<Seq<char>>::empty(),
            c.initial() == result,
            c.tolerant() == allow_anomalies,
    {
        let ghost initial = result;
        proof {
            if result is ListOfMaps {
                let recs = result->ListOfMaps_0;
                assert(records_view(recs@) + rows_of(seq![], seq![]) =~= records_view(recs@));
            }
        }
        Converter {
            headers: None,
            result,
            warnings: Vec::new(),
            allow_anomalies,
            capacity,
            fed: Ghost(Seq::empty()),
            initial: Ghost(initial),
        }
    }

    /// Feeds the next line: the first binds the header, each later one is
    /// added as a data line. In strict mode a data line with an anomaly
    /// fails with its first anomaly and changes nothing.
    pub fn feed(&mut self, line: &str) -> (r: Result<(), CsvError>)
        requires
            old(self).wf(),
        ensures
            final(self).wf(),
            final(self).initial() == old(self).initial(),
            final(self).tolerant() == old(self).tolerant(),
            ({
                let more = old(self).lines_fed().push(line@);
                let anomalies = all_anomalies(header_of(more).len(), data_of(more));
                &&& r is Ok <==> old(self).tolerant() || anomalies.len() == 0
                &&& r is Ok ==> final(self).lines_fed() == more
                &&& r is Err ==> final(self).lines_fed() == old(self).lines_fed() && r->Err_0
                    == CsvError::Anomaly(anomalies[0])
            }),
    {
        let ghost fed = self.fed@;
        let ghost more = fed.push(line@);
        let tokens = split_line(line);
        match &self.headers {
            None => {
                let headers = process_headers(&tokens);
                proof {
                    assert(data_of(more) =~= Seq::<Seq<Seq<char>>>::empty());
                    let h = header_of(more);
                    if self.result is ListOfMaps {
                        assert(rows_of(h, data_of(more)) =~= rows_of(header_of(fed), data_of(fed)));
                    }
                    assert(all_anomalies(h.len(), data_of(more)) =~= Seq::<Anomaly>::empty());
                }
                self.headers = Some(headers);
                self.fed = Ghost(more);
                Ok(())
            },
            Some(headers) => {
                let ghost header = header_of(fed);
                let ghost data = data_of(fed);
                proof {
                    assert(data_of(more) =~= data.push(fields(line@)));
                    assert(header_of(more) == header);
                    assert(data_of(more).drop_last() =~= data);
                    assert(cleaned(tokens.deep_view()) == fields(line@));
                }
                let step = match &mut self.result {
                    CsvResult::MapOfLists(cols) => process_line_for_map_of_lists(
                        &tokens,
                        headers,
                        cols,
                        self.allow_anomalies,
                        &mut self.warnings,
                        self.capacity,
                    ),
                    CsvResult::ListOfMaps(recs) => process_line_for_list_of_maps(
                        &tokens,
                        headers,
                        recs,
                        self.allow_anomalies,
                        &mut self.warnings,
                    ),
                };
                if step.is_ok() {
                    proof {
                        if self.result is ListOfMaps {
                            let start = records_view(self.initial@->ListOfMaps_0@);
                            assert(start + rows_of(header, data_of(more)) =~= (start + rows_of(header, data)).push(
                                record_of(header, fields(line@)),
                            ));
                        }
                    }
                    self.fed = Ghost(more);
                }
                step
            },
        }
    }

    /// The anomalies let pass so far, in order.
    pub fn warnings(&self) -> (w: &Vec<Anomaly>)
        requires
            self.wf(),
        ensures
            w@ == all_anomalies(header_of(self.lines_fed()).len(), data_of(self.lines_fed())),
    {
        &self.warnings
    }

    /// The result and the anomalies let pass, in order, of the lines fed.
    pub fn into_parts(self) -> (r: (CsvResult, Vec<Anomaly>))
        requires
            self.wf(),
        ensures
            accumulated(self.initial(), r.0, header_of(self.lines_fed()), data_of(self.lines_fed())),
            r.1@ == all_anomalies(header_of(self.lines_fed()).len(), data_of(self.lines_fed())),
            !self.tolerant() ==> r.1@.len() == 0,
    {
        (self.result, self.warnings)
    }
}

/// Adds every data line of `lines` to `result`, after binding the header
/// from the first line. In strict mode the first anomaly fails the whole
/// run; in tolerant mode every anomaly is returned, in order, beside the
/// result. With no lines the result comes back unchanged.
pub fn accumulate(lines: &Vec<String>, result: CsvResult, allow_anomalies: bool, capacity: usize) -> (r:
    Result<(CsvResult, Vec<Anomaly>), CsvError>)
    requires
        result_wf(result),
    ensures
        ({
            let header = header_of(lines.deep_view());
            let data = data_of(lines.deep_view());
            let anomalies = all_anomalies(header.len(), data);
            &&& !allow_anomalies && anomalies.len() > 0 ==> r == Err::<
                (CsvResult, Vec<Anomaly>),
                CsvError,
            >(CsvError::Anomaly(anomalies[0]))
            &&& allow_anomalies || anomalies.len() == 0 ==> {
                &&& r is Ok
                &&& r->Ok_0.1@ == anomalies
                &&& accumulated(result, r->Ok_0.0, header, data)
            }
            &&& !allow_anomalies ==> (r is Err <==> exists|k: int|
                0 <= k < data.len() && #[trigger] data[k].len() != header.len())
            &&& r is Ok && result is ListOfMaps ==> r->Ok_0.0->ListOfMaps_0@.len()
                == result->ListOfMaps_0@.len() + data.len()
        }),
{
    let ghost all = lines.deep_view();
    let ghost header = header_of(all);
    let ghost data = data_of(all);
    let mut converter = Converter::new(result, allow_anomalies, capacity);
    let mut k: usize = 0;
    while k < lines.len()
        invariant
            k <= lines.len(),
            all == lines.deep_view(),
            header == header_of(all),
            data == data_of(all),
            converter.wf(),
            converter.initial() == result,
            converter.tolerant() == allow_anomalies,
            converter.lines_fed() == all.take(k as int),
        decreases lines.len() - k,
    {
        let ghost next = all.take(k + 1);
        assert(converter.lines_fed().push(lines[k as int]@) =~= next);
        let step = converter.feed(lines[k].as_str());
        if step.is_err() {
            let ghost found = all_anomalies(header.len(), data.take(k as int));
            proof {
                lemma_data_of_prefix(all, k + 1);
                lemma_anomalies_prefix(header.len(), data, k as int);
                assert(found.len() > 0);
                assert(found[0] == all_anomalies(header.len(), data)[0]);
                lemma_anomalies_iff_irregular(header.len(), data);
            }
            return Err(step.unwrap_err());
        }
        k = k + 1;
    }
    proof {
        assert(all.take(k as int) =~= all);
        lemma_anomalies_iff_irregular(header.len(), data);
    }
    let parts = converter.into_parts();
    proof {
        if result is ListOfMaps {
            assert(records_view(parts.0->ListOfMaps_0@).len() == parts.0->ListOfMaps_0@.len());
        }
    }
    Ok(parts)
}

} // verus!
