//! Completed qualifying results: the per-round record, its verified
//! rendering, and the parsing of the season's qualifying pages.

use vstd::multiset::Multiset;
use vstd::prelude::*;

use crate::error::Error;
use crate::html::{
    extracted_cells, row_cells_view, rows_view, scrape_cells, selector_compiles, Cell, CellV,
};
use crate::results::{fetch_tasks_view, index_entries_view, FetchTask, FetchTaskV, IndexEntry, IndexEntryV, contains_round};
use crate::standings::spec_sentinel_position;
use crate::text::{
    append_pad_right, append_center, append_repeat, parse_usize, push_char, render_usize,
    replace_all, spec_pad_right, spec_center, spec_parse_usize, spec_repeat, spec_render_usize,
    spec_replace_all, spec_trim, trim_str,
};
use crate::utils::{opt_view, quali_rows_view, QualiPositionInfo, QualiPositionInfoV};

verus! {
/// The qualifying classification of one completed Grand Prix weekend.
#[derive(Debug, Clone, PartialEq, Eq)]
pub struct CompletedQualifying {
    round: usize,
    gp_name: String,
    results: Vec<QualiPositionInfo>,
}

/// The mathematical shape of a [`CompletedQualifying`].
pub struct CompletedQualifyingV {
    pub round: int,
    pub gp_name: Seq<char>,
    pub results: Seq<QualiPositionInfoV>,
}

impl View for CompletedQualifying {
    type V = CompletedQualifyingV;

    closed spec fn view(&self) -> CompletedQualifyingV {
        CompletedQualifyingV {
            round: self.round as int,
            gp_name: self.gp_name@,
            results: quali_rows_view(self.results@),
        }
    }
}

/// The text standing in for a lap time that was never set.
pub open spec fn spec_opt_time(o: Option<Seq<char>>) -> Seq<char> {
    match o {
        Some(s) => s,
        None => Seq::empty(),
    }
}

/// One line of a qualifying classification: position, name, and the three
/// session times in fixed-width columns.
pub open spec fn spec_pp_quali_row(p: QualiPositionInfoV) -> Seq<char> {
    spec_pad_right(spec_render_usize(p.position), 3) + seq![' ']
        + spec_pad_right(p.name, 20) + seq![' ']
        + spec_pad_right(spec_opt_time(p.q1), 8) + " | "@
        + spec_pad_right(spec_opt_time(p.q2), 8) + " | "@
        + spec_pad_right(spec_opt_time(p.q3), 8) + seq!['\n']
}

/// The qualifying classification lines, one per row, in order.
pub open spec fn spec_pp_quali_rows(rs: Seq<QualiPositionInfoV>) -> Seq<char>
    decreases rs.len(),
{
    if rs.len() == 0 {
        Seq::empty()
    } else {
        spec_pp_quali_rows(rs.drop_last()) + spec_pp_quali_row(rs.last())
    }
}

/// The header line naming the three qualifying sessions.
pub open spec fn spec_pp_quali_header() -> Seq<char> {
    spec_repeat(' ', 3) + seq![' '] + spec_repeat(' ', 20) + seq![' ']
        + spec_center("Q1"@, 8) + " | "@
        + spec_center("Q2"@, 8) + " | "@
        + spec_center("Q3"@, 8) + seq!['\n']
}

/// The full rendering of a completed qualifying: the name between dashed
/// rules, the session header, then the classification.
pub open spec fn spec_pp_quali(r: CompletedQualifyingV) -> Seq<char> {
    let dashes = spec_repeat('-', r.gp_name.len() as int);
    dashes + seq!['\n'] + r.gp_name + seq!['\n'] + dashes + seq!['\n']
        + spec_pp_quali_header() + spec_pp_quali_rows(r.results)
}

impl CompletedQualifying {
    /// Builds a completed qualifying record for `round`.
    pub fn new(round: usize, gp_name: String, results: Vec<QualiPositionInfo>) -> (r:
        CompletedQualifying)
        ensures
            r@.round == round as int,
            r@.gp_name == gp_name@,
            r@.results == quali_rows_view(results@),
    {
        CompletedQualifying { round, gp_name, results }
    }

    /// The 1-based round number of this weekend on the season index.
    pub fn round(&self) -> (r: usize)
        ensures
            r as int == self@.round,
    {
        self.round
    }

    /// The Grand Prix name as it stood on the index page.
    pub fn gp_name(&self) -> (r: &String)
        ensures
            r@ == self@.gp_name,
    {
        &self.gp_name
    }

    /// The qualifying rows of this weekend, in classified order.
    pub fn results(&self) -> (r: &Vec<QualiPositionInfo>)
        ensures
            quali_rows_view(r@) == self@.results,
    {
        &self.results
    }

    /// Applies the no-results policy: a fetched collection is handed back as
    /// it is, unless it is empty, which reports [`Error::NoResults`].
    pub fn get_completed_quali_results(results: Vec<CompletedQualifying>) -> (r: Result<
        Vec<CompletedQualifying>,
        Error,
    >)
        ensures
            results@.len() > 0 ==> (r matches Ok(v) && v == results),
            results@.len() == 0 ==> (r matches Err(e) && e == Error::NoResults),
    {
        if results.len() > 0 {
            Ok(results)
        } else {
            Err(Error::NoResults)
        }
    }

    /// Appends the formatted qualifying classification of this weekend to
    /// `output`.
    #[verifier::rlimit(100)]
    pub fn pp_completed_quali_results(&self, output: &mut String) -> (r: Result<(), Error>)
        ensures
            r is Ok,
            final(output)@ == old(output)@ + spec_pp_quali(self@),
    {
        let width: usize = self.gp_name.as_str().unicode_len();
        append_repeat('-', width, output);
        push_char(output, '\n');
        output.append(self.gp_name.as_str());
        push_char(output, '\n');
        append_repeat('-', width, output);
        push_char(output, '\n');
        append_repeat(' ', 3, output);
        push_char(output, ' ');
        append_repeat(' ', 20, output);
        push_char(output, ' ');
        append_center("Q1", 8, output);
        output.append(" | ");
        append_center("Q2", 8, output);
        output.append(" | ");
        append_center("Q3", 8, output);
        push_char(output, '\n');
        let ghost head = output@;
        proof {
            assert(head =~= old(output)@
                + (spec_repeat('-', self@.gp_name.len() as int) + seq!['\n'] + self@.gp_name
                + seq!['\n'] + spec_repeat('-', self@.gp_name.len() as int) + seq!['\n']
                + spec_pp_quali_header()));
        }
        let mut i: usize = 0;
        while i < self.results.len()
            invariant
                0 <= i <= self.results.len(),
                output@ == head + spec_pp_quali_rows(self@.results.take(i as int)),
            decreases self.results.len() - i,
        {
            let ghost pre = output@;
            let p = &self.results[i];
            let mut num = String::new();
            render_usize(p.position, &mut num);
            append_pad_right(num.as_str(), 3, output);
            push_char(output, ' ');
            append_pad_right(p.name.as_str(), 20, output);
            push_char(output, ' ');
            match &p.q1 {
                Some(t) => append_pad_right(t.as_str(), 8, output),
                None => append_repeat(' ', 8, output),
            }
            output.append(" | ");
            match &p.q2 {
                Some(t) => append_pad_right(t.as_str(), 8, output),
                None => append_repeat(' ', 8, output),
            }
            output.append(" | ");
            match &p.q3 {
                Some(t) => append_pad_right(t.as_str(), 8, output),
                None => append_repeat(' ', 8, output),
            }
            push_char(output, '\n');
            proof {
                let rs = self@.results;
                assert(rs.take(i + 1).drop_last() =~= rs.take(i as int));
                assert(rs.take(i + 1).last() == rs[i as int]);
                assert(output@ =~= pre + spec_pp_quali_row(rs[i as int]));
                assert(output@ =~= head + spec_pp_quali_rows(rs.take(i + 1)));
            }
            i = i + 1;
        }
        proof {
            assert(self@.results.take(self.results@.len() as int) =~= self@.results);
            assert(output@ =~= old(output)@ + spec_pp_quali(self@));
        }
        Ok(())
    }
}


impl CompletedQualifying {
    /// The name of the qualifying results cache file.
    pub fn cache_file_name() -> (r: String)
        ensures
            r@ == "2024_quali_results.json"@,
    {
        "2024_quali_results.json".to_owned()
    }

    /// The address of the results-index page a qualifying update starts
    /// from.
    pub fn resource_url() -> (r: String)
        ensures
            r@ == "https://www.formula1.com/en/results/2024/races"@,
    {
        "https://www.formula1.com/en/results/2024/races".to_owned()
    }
}

/// The views of a sequence of completed qualifying weekends.
pub open spec fn qualis_view(v: Seq<CompletedQualifying>) -> Seq<CompletedQualifyingV> {
    v.map_values(|r: CompletedQualifying| r@)
}

/// The extraction rule for one qualifying-classification row: position
/// cell, a skipped car-number cell, a name cell whose first and third text
/// fragments carry first and last name, a skipped team cell, then the
/// three session-time cells, each of which may be blank. A non-numeric
/// position cell degrades to the sentinel 0.
pub open spec fn spec_parse_quali_row(row: Seq<CellV>) -> Result<QualiPositionInfoV, Error> {
    if row.len() < 7 {
        Err(Error::ParseRaceResults)
    } else if row[0].texts.len() == 0 {
        Err(Error::ParseRaceResults)
    } else if row[2].texts.len() < 3 {
        Err(Error::ParseRaceResults)
    } else {
        Ok(
            QualiPositionInfoV {
                position: spec_sentinel_position(row[0].texts[0]),
                name: row[2].texts[0] + seq![' '] + row[2].texts[2],
                q1: if row[4].texts.len() == 0 { None } else { Some(row[4].texts[0]) },
                q2: if row[5].texts.len() == 0 { None } else { Some(row[5].texts[0]) },
                q3: if row[6].texts.len() == 0 { None } else { Some(row[6].texts[0]) },
            },
        )
    }
}

/// The qualifying row rule applied to every row of an extracted grid, in
/// document order, keeping the first error if any row is rejected.
pub open spec fn spec_parse_quali_rows(rows: Seq<Seq<CellV>>) -> Result<Seq<QualiPositionInfoV>, Error>
    decreases rows.len(),
{
    if rows.len() == 0 {
        Ok(Seq::empty())
    } else {
        match spec_parse_quali_rows(rows.drop_last()) {
            Err(e) => Err(e),
            Ok(acc) => match spec_parse_quali_row(rows.last()) {
                Err(e) => Err(e),
                Ok(p) => Ok(acc.push(p)),
            },
        }
    }
}

proof fn lemma_quali_rows_err(rows: Seq<Seq<CellV>>, j: int)
    requires
        0 <= j <= rows.len(),
        spec_parse_quali_rows(rows.take(j)) is Err,
    ensures
        spec_parse_quali_rows(rows) == spec_parse_quali_rows(rows.take(j)),
    decreases rows.len() - j,
{
    if j < rows.len() {
        assert(rows.take(j + 1).drop_last() =~= rows.take(j));
        lemma_quali_rows_err(rows, j + 1);
    } else {
        assert(rows.take(j) =~= rows);
    }
}

/// Parses one qualifying-classification table row.
pub fn parse_quali_result_row(cells: &Vec<Cell>) -> (r: Result<QualiPositionInfo, Error>)
    ensures
        (match r {
            Ok(p) => Ok(p@),
            Err(e) => Err(e),
        }) == spec_parse_quali_row(row_cells_view(cells@)),
{
    let ghost row = row_cells_view(cells@);
    if cells.len() < 7 {
        return Err(Error::ParseRaceResults);
    }
    let pos_cell = &cells[0];
    if pos_cell.texts.len() == 0 {
        return Err(Error::ParseRaceResults);
    }
    let name_cell = &cells[2];
    if name_cell.texts.len() < 3 {
        return Err(Error::ParseRaceResults);
    }
    let position = match parse_usize(pos_cell.texts[0].as_str()) {
        None => 0,
        Some(v) => v,
    };
    let mut name = name_cell.texts[0].as_str().to_owned();
    push_char(&mut name, ' ');
    name.append(name_cell.texts[2].as_str());
    proof {
        assert(name@ =~= row[2].texts[0] + seq![' '] + row[2].texts[2]);
    }
    let q1 = if cells[4].texts.len() == 0 {
        None
    } else {
        Some(cells[4].texts[0].clone())
    };
    let q2 = if cells[5].texts.len() == 0 {
        None
    } else {
        Some(cells[5].texts[0].clone())
    };
    let q3 = if cells[6].texts.len() == 0 {
        None
    } else {
        Some(cells[6].texts[0].clone())
    };
    Ok(QualiPositionInfo { position, name, q1, q2, q3 })
}

/// What parsing one qualifying detail page yields.
pub open spec fn spec_parse_quali_page(html: Seq<char>) -> Result<Seq<QualiPositionInfoV>, Error> {
    if !(selector_compiles("table.f1-table > tbody > tr"@) && selector_compiles("td"@)
        && selector_compiles("a"@)) {
        Err(Error::Scraper)
    } else {
        spec_parse_quali_rows(
            extracted_cells(html, "table.f1-table > tbody > tr"@, "td"@, "a"@, "href"@),
        )
    }
}

/// Parses one completed weekend's qualifying page into its rows.
#[verifier::loop_isolation(false)]
pub fn fetch_parse_individual_quali_result(body: &str) -> (r: Result<Vec<QualiPositionInfo>, Error>)
    ensures
        (match r {
            Ok(v) => Ok(quali_rows_view(v@)),
            Err(e) => Err(e),
        }) == spec_parse_quali_page(body@),
{
    let rows = match scrape_cells(body, "table.f1-table > tbody > tr", "td", "a", "href") {
        None => {
            return Err(Error::Scraper);
        },
        Some(rows) => rows,
    };
    let ghost grid = extracted_cells(body@, "table.f1-table > tbody > tr"@, "td"@, "a"@, "href"@);
    proof {
        assert(rows_view(rows@) == grid);
    }
    let mut out: Vec<QualiPositionInfo> = Vec::new();
    proof {
        assert(quali_rows_view(out@) =~= Seq::<QualiPositionInfoV>::empty());
        assert(grid.take(0) =~= Seq::<Seq<CellV>>::empty());
    }
    let mut i: usize = 0;
    while i < rows.len()
        invariant
            0 <= i <= rows.len(),
            spec_parse_quali_rows(grid.take(i as int)) == Ok::<Seq<QualiPositionInfoV>, Error>(
                quali_rows_view(out@),
            ),
        decreases rows.len() - i,
    {
        proof {
            assert(grid[i as int] == row_cells_view(rows@[i as int]@));
            assert(grid.take(i + 1).drop_last() =~= grid.take(i as int));
            assert(grid.take(i + 1).last() == grid[i as int]);
        }
        match parse_quali_result_row(&rows[i]) {
            Err(e) => {
                proof {
                    assert(spec_parse_quali_rows(grid.take(i + 1)) == Err::<
                        Seq<QualiPositionInfoV>,
                        Error,
                    >(e));
                    lemma_quali_rows_err(grid, i + 1);
                }
                return Err(e);
            },
            Ok(p) => {
                let ghost prev = quali_rows_view(out@);
                out.push(p);
                proof {
                    assert(quali_rows_view(out@) =~= prev.push(p@));
                }
            },
        }
        i = i + 1;
    }
    proof {
        assert(grid.take(grid.len() as int) =~= grid);
    }
    Ok(out)
}

/// The extraction rule for one qualifying-index row: the first cell must
/// hold a link element with an `href`, and its first text fragment,
/// trimmed, is the Grand Prix name.
pub open spec fn spec_parse_quali_index_row(row: Seq<CellV>) -> Result<IndexEntryV, Error> {
    if row.len() < 1 {
        Err(Error::ParseRaceResults)
    } else {
        match row[0].link {
            None => Err(Error::ParseRaceResults),
            Some(link) => if row[0].texts.len() == 0 {
                Err(Error::ParseRaceResults)
            } else {
                Ok(IndexEntryV { gp_name: spec_trim(row[0].texts[0]), link: link })
            },
        }
    }
}

/// The qualifying index row rule applied to every row, in document order.
pub open spec fn spec_parse_quali_index_rows(rows: Seq<Seq<CellV>>) -> Result<Seq<IndexEntryV>, Error>
    decreases rows.len(),
{
    if rows.len() == 0 {
        Ok(Seq::empty())
    } else {
        match spec_parse_quali_index_rows(rows.drop_last()) {
            Err(e) => Err(e),
            Ok(acc) => match spec_parse_quali_index_row(rows.last()) {
                Err(e) => Err(e),
                Ok(v) => Ok(acc.push(v)),
            },
        }
    }
}

proof fn lemma_quali_index_rows_err(rows: Seq<Seq<CellV>>, j: int)
    requires
        0 <= j <= rows.len(),
        spec_parse_quali_index_rows(rows.take(j)) is Err,
    ensures
        spec_parse_quali_index_rows(rows) == spec_parse_quali_index_rows(rows.take(j)),
    decreases rows.len() - j,
{
    if j < rows.len() {
        assert(rows.take(j + 1).drop_last() =~= rows.take(j));
        lemma_quali_index_rows_err(rows, j + 1);
    } else {
        assert(rows.take(j) =~= rows);
    }
}

/// What parsing the results-index page yields for a qualifying update.
pub open spec fn spec_parse_quali_index(html: Seq<char>) -> Result<Seq<IndexEntryV>, Error> {
    if !(selector_compiles("table.f1-table > tbody > tr"@) && selector_compiles("td"@)
        && selector_compiles("a"@)) {
        Err(Error::Scraper)
    } else {
        spec_parse_quali_index_rows(
            extracted_cells(html, "table.f1-table > tbody > tr"@, "td"@, "a"@, "href"@),
        )
    }
}

/// Parses the results-index page into its ordered entries for a
/// qualifying update; the 1-based position of an entry is its round.
#[verifier::loop_isolation(false)]
pub fn parse_quali_index(html: &str) -> (r: Result<Vec<IndexEntry>, Error>)
    ensures
        (match r {
            Ok(v) => Ok(index_entries_view(v@)),
            Err(e) => Err(e),
        }) == spec_parse_quali_index(html@),
{
    let rows = match scrape_cells(html, "table.f1-table > tbody > tr", "td", "a", "href") {
        None => {
            return Err(Error::Scraper);
        },
        Some(rows) => rows,
    };
    let ghost grid = extracted_cells(html@, "table.f1-table > tbody > tr"@, "td"@, "a"@, "href"@);
    proof {
        assert(rows_view(rows@) == grid);
    }
    let mut out: Vec<IndexEntry> = Vec::new();
    proof {
        assert(index_entries_view(out@) =~= Seq::<IndexEntryV>::empty());
        assert(grid.take(0) =~= Seq::<Seq<CellV>>::empty());
    }
    let mut i: usize = 0;
    while i < rows.len()
        invariant
            0 <= i <= rows.len(),
            spec_parse_quali_index_rows(grid.take(i as int)) == Ok::<Seq<IndexEntryV>, Error>(
                index_entries_view(out@),
            ),
        decreases rows.len() - i,
    {
        proof {
            assert(grid[i as int] == row_cells_view(rows@[i as int]@));
            assert(grid.take(i + 1).drop_last() =~= grid.take(i as int));
            assert(grid.take(i + 1).last() == grid[i as int]);
        }
        let cells = &rows[i];
        if cells.len() < 1 {
            proof {
                lemma_quali_index_rows_err(grid, i + 1);
            }
            return Err(Error::ParseRaceResults);
        }
        let cell = &cells[0];
        let link = match &cell.link {
            None => {
                proof {
                    lemma_quali_index_rows_err(grid, i + 1);
                }
                return Err(Error::ParseRaceResults);
            },
            Some(l) => l.as_str().to_owned(),
        };
        if cell.texts.len() == 0 {
            proof {
                lemma_quali_index_rows_err(grid, i + 1);
            }
            return Err(Error::ParseRaceResults);
        }
        let gp_name = trim_str(cell.texts[0].as_str());
        let ghost prev = index_entries_view(out@);
        out.push(IndexEntry { gp_name, link });
        proof {
            assert(index_entries_view(out@) =~= prev.push(
                IndexEntryV {
                    gp_name: spec_trim(grid[i as int][0].texts[0]),
                    link: grid[i as int][0].link->0,
                },
            ));
        }
        i = i + 1;
    }
    proof {
        assert(grid.take(grid.len() as int) =~= grid);
    }
    Ok(out)
}

/// The address of a weekend's qualifying page: the race detail address
/// with the race-result page name replaced by the qualifying one.
pub open spec fn spec_quali_url(link: Seq<char>) -> Seq<char> {
    spec_replace_all(
        "https://www.formula1.com/en/results/2024/"@ + link,
        "race-result"@,
        "qualifying"@,
    )
}

/// The detail fetches an incremental qualifying update still owes: one
/// per index entry whose 1-based position is not already cached.
pub open spec fn spec_plan_quali_fetches(entries: Seq<IndexEntryV>, cached: Seq<usize>) -> Seq<
    FetchTaskV,
>
    decreases entries.len(),
{
    if entries.len() == 0 {
        Seq::empty()
    } else {
        let head = spec_plan_quali_fetches(entries.drop_last(), cached);
        let idx = entries.len() - 1;
        if cached.contains((idx + 1) as usize) {
            head
        } else {
            head.push(
                FetchTaskV {
                    round: idx + 1,
                    gp_name: entries[idx].gp_name,
                    url: spec_quali_url(entries[idx].link),
                },
            )
        }
    }
}

/// Plans the detail fetches of an incremental qualifying update: rounds
/// already cached are skipped and never fetched again.
#[verifier::loop_isolation(false)]
pub fn plan_quali_fetches(entries: &Vec<IndexEntry>, cached_rounds: &Vec<usize>) -> (r: Vec<
    FetchTask,
>)
    ensures
        fetch_tasks_view(r@) == spec_plan_quali_fetches(
            index_entries_view(entries@),
            cached_rounds@,
        ),
{
    let ghost evs = index_entries_view(entries@);
    let mut out: Vec<FetchTask> = Vec::new();
    proof {
        assert(fetch_tasks_view(out@) =~= Seq::<FetchTaskV>::empty());
        assert(evs.take(0) =~= Seq::<IndexEntryV>::empty());
    }
    let mut i: usize = 0;
    while i < entries.len()
        invariant
            0 <= i <= entries.len(),
            fetch_tasks_view(out@) == spec_plan_quali_fetches(evs.take(i as int), cached_rounds@),
        decreases entries.len() - i,
    {
        proof {
            assert(evs.take(i + 1).drop_last() =~= evs.take(i as int));
            assert(evs.take(i + 1).last() == evs[i as int]);
        }
        let round = i + 1;
        if !contains_round(cached_rounds, round) {
            let mut race_url = "https://www.formula1.com/en/results/2024/".to_owned();
            race_url.append(entries[i].link.as_str());
            let url = replace_all(race_url.as_str(), "race-result", "qualifying");
            let ghost prev = fetch_tasks_view(out@);
            out.push(FetchTask { round, gp_name: entries[i].gp_name.clone(), url });
            proof {
                assert(fetch_tasks_view(out@) =~= prev.push(
                    FetchTaskV {
                        round: i + 1,
                        gp_name: evs[i as int].gp_name,
                        url: spec_quali_url(evs[i as int].link),
                    },
                ));
            }
        }
        i = i + 1;
    }
    proof {
        assert(evs.take(evs.len() as int) =~= evs);
    }
    out
}

/// The rounds already present in a cached qualifying collection.
pub fn cached_quali_rounds(results: &Vec<CompletedQualifying>) -> (r: Vec<usize>)
    ensures
        r@.len() == results@.len(),
        forall|i: int| 0 <= i < r@.len() ==> r@[i] as int == qualis_view(results@)[i].round,
{
    let mut out: Vec<usize> = Vec::new();
    let mut i: usize = 0;
    while i < results.len()
        invariant
            0 <= i <= results@.len(),
            out@.len() == i,
            forall|k: int| 0 <= k < i ==> out@[k] as int == qualis_view(results@)[k].round,
        decreases results@.len() - i,
    {
        out.push(results[i].round);
        i = i + 1;
    }
    out
}

/// Is a qualifying collection ordered by round number?
pub open spec fn sorted_by_round_quali(v: Seq<CompletedQualifyingV>) -> bool {
    forall|i: int, j: int| 0 <= i <= j < v.len() ==> v[i].round <= v[j].round
}

/// `x` placed into `v` from the right, before every strictly later round.
pub open spec fn spec_insert_by_round_quali(
    v: Seq<CompletedQualifyingV>,
    x: CompletedQualifyingV,
) -> Seq<CompletedQualifyingV>
    decreases v.len(),
{
    if v.len() == 0 {
        seq![x]
    } else if x.round < v.last().round {
        spec_insert_by_round_quali(v.drop_last(), x).push(v.last())
    } else {
        v.push(x)
    }
}

/// `v` rearranged in non-decreasing round order by repeated insertion.
pub open spec fn spec_sort_by_round_quali(v: Seq<CompletedQualifyingV>) -> Seq<CompletedQualifyingV>
    decreases v.len(),
{
    if v.len() == 0 {
        v
    } else {
        spec_insert_by_round_quali(spec_sort_by_round_quali(v.drop_last()), v.last())
    }
}

/// What merging an incremental qualifying fetch into the cache yields.
pub open spec fn spec_merge_sort_quali(
    cached: Seq<CompletedQualifyingV>,
    fetched: Seq<CompletedQualifyingV>,
) -> Seq<CompletedQualifyingV> {
    spec_sort_by_round_quali(cached + fetched)
}

fn insert_by_round_quali(v: Vec<CompletedQualifying>, x: CompletedQualifying) -> (r: Vec<
    CompletedQualifying,
>)
    ensures
        qualis_view(r@) == spec_insert_by_round_quali(qualis_view(v@), x@),
    decreases v@.len(),
{
    let ghost vv = qualis_view(v@);
    let mut v = v;
    if v.len() == 0 {
        v.push(x);
        proof {
            assert(qualis_view(v@) =~= seq![x@]);
        }
        v
    } else {
        let n = v.len();
        if x.round < v[n - 1].round {
            let last = v.pop().unwrap();
            proof {
                assert(qualis_view(v@) =~= vv.drop_last());
                assert(last@ == vv.last());
            }
            let mut r = insert_by_round_quali(v, x);
            let ghost rv = qualis_view(r@);
            r.push(last);
            proof {
                assert(qualis_view(r@) =~= rv.push(vv.last()));
            }
            r
        } else {
            v.push(x);
            proof {
                assert(qualis_view(v@) =~= vv.push(x@));
            }
            v
        }
    }
}

fn sort_by_round_quali(v: Vec<CompletedQualifying>) -> (r: Vec<CompletedQualifying>)
    ensures
        qualis_view(r@) == spec_sort_by_round_quali(qualis_view(v@)),
    decreases v@.len(),
{
    let ghost vv = qualis_view(v@);
    let mut v = v;
    if v.len() == 0 {
        v
    } else {
        let last = v.pop().unwrap();
        proof {
            assert(qualis_view(v@) =~= vv.drop_last());
            assert(last@ == vv.last());
        }
        let sorted = sort_by_round_quali(v);
        insert_by_round_quali(sorted, last)
    }
}

/// Merges newly fetched qualifying weekends into the cached collection and
/// sorts the whole by round number.
pub fn merge_and_sort_quali(
    cached: Vec<CompletedQualifying>,
    fetched: Vec<CompletedQualifying>,
) -> (r: Vec<CompletedQualifying>)
    ensures
        qualis_view(r@) == spec_merge_sort_quali(qualis_view(cached@), qualis_view(fetched@)),
{
    let ghost cv = qualis_view(cached@);
    let ghost fv = qualis_view(fetched@);
    let mut all = cached;
    let mut fetched = fetched;
    all.append(&mut fetched);
    proof {
        assert(qualis_view(all@) =~= cv + fv);
    }
    sort_by_round_quali(all)
}

/// Inserting into a round-sorted qualifying collection keeps it
/// round-sorted, adds exactly the new record, and keeps every old one.
pub proof fn lemma_insert_sorted_quali(v: Seq<CompletedQualifyingV>, x: CompletedQualifyingV)
    requires
        sorted_by_round_quali(v),
    ensures
        sorted_by_round_quali(spec_insert_by_round_quali(v, x)),
        spec_insert_by_round_quali(v, x).len() == v.len() + 1,
        spec_insert_by_round_quali(v, x).to_multiset() == v.to_multiset().insert(x),
    decreases v.len(),
{
    broadcast use vstd::seq_lib::group_to_multiset_ensures;

    let r = spec_insert_by_round_quali(v, x);
    if v.len() == 0 {
        assert(r =~= Seq::<CompletedQualifyingV>::empty().push(x));
        assert(Seq::<CompletedQualifyingV>::empty().to_multiset() =~= Multiset::<
            CompletedQualifyingV,
        >::empty());
        assert(r.to_multiset() =~= v.to_multiset().insert(x));
    } else if x.round < v.last().round {
        let head = v.drop_last();
        assert(forall|i: int| 0 <= i < head.len() ==> head[i] == v[i]);
        lemma_insert_sorted_quali(head, x);
        let inner = spec_insert_by_round_quali(head, x);
        assert(r == inner.push(v.last()));
        assert forall|i: int, j: int| 0 <= i <= j < r.len() implies r[i].round <= r[j].round by {
            if j < r.len() - 1 {
                assert(r[i] == inner[i] && r[j] == inner[j]);
            } else if i < r.len() - 1 {
                assert(r[i] == inner[i]);
                assert(inner.to_multiset().contains(inner[i]));
                assert(inner.to_multiset() == head.to_multiset().insert(x));
                if inner[i] == x {
                    assert(r[i].round <= r[j].round);
                } else {
                    assert(head.to_multiset().contains(inner[i]));
                    let k = choose|k: int| 0 <= k < head.len() && head[k] == inner[i];
                    assert(v[k].round <= v[v.len() - 1].round);
                }
            }
        }
        assert(head.push(v.last()) =~= v);
        assert(r.to_multiset() =~= v.to_multiset().insert(x));
    } else {
        assert(r == v.push(x));
        assert forall|i: int, j: int| 0 <= i <= j < r.len() implies r[i].round <= r[j].round by {
            if j < r.len() - 1 {
                assert(r[i] == v[i] && r[j] == v[j]);
            } else if i < r.len() - 1 {
                assert(r[i] == v[i]);
                assert(v[i].round <= v[v.len() - 1].round);
            }
        }
    }
}

/// Sorting orders a qualifying collection by round and neither loses,
/// invents nor duplicates a record.
pub proof fn lemma_sort_sorted_quali(v: Seq<CompletedQualifyingV>)
    ensures
        sorted_by_round_quali(spec_sort_by_round_quali(v)),
        spec_sort_by_round_quali(v).len() == v.len(),
        spec_sort_by_round_quali(v).to_multiset() == v.to_multiset(),
    decreases v.len(),
{
    broadcast use vstd::seq_lib::group_to_multiset_ensures;

    if v.len() > 0 {
        let head = v.drop_last();
        lemma_sort_sorted_quali(head);
        lemma_insert_sorted_quali(spec_sort_by_round_quali(head), v.last());
        assert(head.push(v.last()) =~= v);
        assert(spec_sort_by_round_quali(v).to_multiset() =~= v.to_multiset());
    }
}

/// Sorting a qualifying collection that is already in round order hands
/// it back unchanged.
pub proof fn lemma_sort_quali_of_sorted_id(v: Seq<CompletedQualifyingV>)
    requires
        sorted_by_round_quali(v),
    ensures
        spec_sort_by_round_quali(v) == v,
    decreases v.len(),
{
    if v.len() > 0 {
        let head = v.drop_last();
        assert(forall|i: int| 0 <= i < head.len() ==> head[i] == v[i]);
        lemma_sort_quali_of_sorted_id(head);
        if head.len() > 0 {
            assert(head.last().round <= v.last().round);
        }
        assert(spec_insert_by_round_quali(head, v.last()) == head.push(v.last()));
        assert(head.push(v.last()) =~= v);
    }
}

/// An index whose every listed round is already cached plans no
/// qualifying detail fetch, and merging nothing into a round-sorted cache
/// hands the cache back unchanged.
pub proof fn lemma_incremental_quali_idempotent(
    entries: Seq<IndexEntryV>,
    cached_rounds: Seq<usize>,
    cached: Seq<CompletedQualifyingV>,
)
    requires
        entries.len() <= usize::MAX,
        forall|r: usize| 1 <= r <= entries.len() ==> #[trigger] cached_rounds.contains(r),
        sorted_by_round_quali(cached),
    ensures
        spec_plan_quali_fetches(entries, cached_rounds) == Seq::<FetchTaskV>::empty(),
        spec_merge_sort_quali(cached, Seq::empty()) == cached,
    decreases entries.len(),
{
    if entries.len() > 0 {
        let head = entries.drop_last();
        lemma_incremental_quali_idempotent(head, cached_rounds, cached);
        assert(cached_rounds.contains((entries.len() as usize)));
        assert((((entries.len() - 1) + 1) as usize) == entries.len() as usize);
    } else {
        assert(cached + Seq::<CompletedQualifyingV>::empty() =~= cached);
        lemma_sort_quali_of_sorted_id(cached);
    }
}

} // verus!
