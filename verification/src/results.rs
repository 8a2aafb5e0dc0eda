//! Completed Grand Prix results: the per-round record, its verified
//! rendering, and the parsing of the season's race pages.

use vstd::multiset::Multiset;
use vstd::prelude::*;

use crate::error::Error;
use crate::html::{
    extracted_cells, row_cells_view, rows_view, scrape_cells, selector_compiles, Cell, CellV,
};
use crate::standings::spec_sentinel_position;
use crate::text::{
    append_pad_right, append_repeat, parse_usize, push_char, render_usize,
    spec_pad_right, spec_parse_usize, spec_repeat, spec_render_usize,
};
use crate::utils::{position_rows_view, PositionInfo, PositionInfoV};

verus! {
/// The classification of one completed Grand Prix, keyed by its 1-based
/// round number on the season's results index.
#[derive(Debug, Clone, PartialEq, Eq)]
pub struct CompletedRace {
    round: usize,
    gp_name: String,
    results: Vec<PositionInfo>,
}

/// The mathematical shape of a [`CompletedRace`].
pub struct CompletedRaceV {
    pub round: int,
    pub gp_name: Seq<char>,
    pub results: Seq<PositionInfoV>,
}

impl View for CompletedRace {
    type V = CompletedRaceV;

    closed spec fn view(&self) -> CompletedRaceV {
        CompletedRaceV {
            round: self.round as int,
            gp_name: self.gp_name@,
            results: position_rows_view(self.results@),
        }
    }
}

/// One line of a race classification: position and name left-justified,
/// then the points.
pub open spec fn spec_pp_race_row(p: PositionInfoV) -> Seq<char> {
    spec_pad_right(spec_render_usize(p.position), 3) + seq![' ']
        + spec_pad_right(p.name, 20) + seq![' ']
        + spec_render_usize(p.points) + seq!['\n']
}

/// The race classification lines, one per row, in order.
pub open spec fn spec_pp_race_rows(rs: Seq<PositionInfoV>) -> Seq<char>
    decreases rs.len(),
{
    if rs.len() == 0 {
        Seq::empty()
    } else {
        spec_pp_race_rows(rs.drop_last()) + spec_pp_race_row(rs.last())
    }
}

/// The full rendering of a completed race: the name between dashed rules,
/// then the classification.
pub open spec fn spec_pp_race(r: CompletedRaceV) -> Seq<char> {
    let dashes = spec_repeat('-', r.gp_name.len() as int);
    dashes + seq!['\n'] + r.gp_name + seq!['\n'] + dashes + seq!['\n'] + spec_pp_race_rows(r.results)
}

impl CompletedRace {
    /// Builds a completed race record for `round`.
    pub fn new(round: usize, gp_name: String, results: Vec<PositionInfo>) -> (r: CompletedRace)
        ensures
            r@.round == round as int,
            r@.gp_name == gp_name@,
            r@.results == position_rows_view(results@),
    {
        CompletedRace { round, gp_name, results }
    }

    /// The 1-based round number of this race on the season index.
    pub fn round(&self) -> (r: usize)
        ensures
            r as int == self@.round,
    {
        self.round
    }

    /// The Grand Prix name as it stood on the index page.
    pub fn gp_name(&self) -> (r: &String)
        ensures
            r@ == self@.gp_name,
    {
        &self.gp_name
    }

    /// The classification rows of this race, in finishing order.
    pub fn results(&self) -> (r: &Vec<PositionInfo>)
        ensures
            position_rows_view(r@) == self@.results,
    {
        &self.results
    }

    /// Appends the formatted classification of this race to `output`.
    pub fn pp_completed_race_results(&self, output: &mut String) -> (r: Result<(), Error>)
        ensures
            r is Ok,
            final(output)@ == old(output)@ + spec_pp_race(self@),
    {
        let width: usize = self.gp_name.as_str().unicode_len();
        append_repeat('-', width, output);
        push_char(output, '\n');
        output.append(self.gp_name.as_str());
        push_char(output, '\n');
        append_repeat('-', width, output);
        push_char(output, '\n');
        let ghost head = output@;
        let mut i: usize = 0;
        while i < self.results.len()
            invariant
                0 <= i <= self.results.len(),
                output@ == head + spec_pp_race_rows(self@.results.take(i as int)),
            decreases self.results.len() - i,
        {
            let p = &self.results[i];
            let mut num = String::new();
            render_usize(p.position, &mut num);
            append_pad_right(num.as_str(), 3, output);
            push_char(output, ' ');
            append_pad_right(p.name.as_str(), 20, output);
            push_char(output, ' ');
            render_usize(p.points, output);
            push_char(output, '\n');
            proof {
                let rs = self@.results;
                assert(rs.take(i + 1).drop_last() =~= rs.take(i as int));
                assert(rs.take(i + 1).last() == rs[i as int]);
                assert(output@ =~= head + spec_pp_race_rows(rs.take(i + 1)));
            }
            i = i + 1;
        }
        proof {
            assert(self@.results.take(self.results@.len() as int) =~= self@.results);
            assert(output@ =~= old(output)@ + spec_pp_race(self@));
        }
        Ok(())
    }
}


impl CompletedRace {
    /// The cache file name for a season's race results.
    pub fn cache_file_name(year: usize) -> (r: String)
        ensures
            r@ == spec_render_usize(year as int) + "_race_results.json"@,
    {
        let mut r = String::new();
        render_usize(year, &mut r);
        r.append("_race_results.json");
        r
    }

    /// The address of the season's results-index page.
    pub fn resource_url(year: usize) -> (r: String)
        ensures
            r@ == "https://www.formula1.com/en/results/"@ + spec_render_usize(year as int)
                + "/races"@,
    {
        let mut r = "https://www.formula1.com/en/results/".to_owned();
        render_usize(year, &mut r);
        r.append("/races");
        r
    }
}

/// One entry of the season's results index: the Grand Prix name shown on
/// the row and the link to its detail page.
#[derive(Debug, Clone, PartialEq, Eq)]
pub struct IndexEntry {
    pub gp_name: String,
    pub link: String,
}

/// The mathematical shape of an [`IndexEntry`].
pub struct IndexEntryV {
    pub gp_name: Seq<char>,
    pub link: Seq<char>,
}

impl View for IndexEntry {
    type V = IndexEntryV;

    open spec fn view(&self) -> IndexEntryV {
        IndexEntryV { gp_name: self.gp_name@, link: self.link@ }
    }
}

/// The views of a sequence of index entries.
pub open spec fn index_entries_view(v: Seq<IndexEntry>) -> Seq<IndexEntryV> {
    v.map_values(|e: IndexEntry| e@)
}

/// One detail-page fetch that an incremental update still owes: the round
/// it will fill, the Grand Prix name, and the page to get.
#[derive(Debug, Clone, PartialEq, Eq)]
pub struct FetchTask {
    pub round: usize,
    pub gp_name: String,
    pub url: String,
}

/// The mathematical shape of a [`FetchTask`].
pub struct FetchTaskV {
    pub round: int,
    pub gp_name: Seq<char>,
    pub url: Seq<char>,
}

impl View for FetchTask {
    type V = FetchTaskV;

    open spec fn view(&self) -> FetchTaskV {
        FetchTaskV { round: self.round as int, gp_name: self.gp_name@, url: self.url@ }
    }
}

/// The views of a sequence of fetch tasks.
pub open spec fn fetch_tasks_view(v: Seq<FetchTask>) -> Seq<FetchTaskV> {
    v.map_values(|t: FetchTask| t@)
}

/// The views of a sequence of completed races.
pub open spec fn races_view(v: Seq<CompletedRace>) -> Seq<CompletedRaceV> {
    v.map_values(|r: CompletedRace| r@)
}

/// The view of a result carrying completed races.
pub open spec fn races_result_view(r: Result<Vec<CompletedRace>, Error>) -> Result<
    Seq<CompletedRaceV>,
    Error,
> {
    match r {
        Ok(v) => Ok(races_view(v@)),
        Err(e) => Err(e),
    }
}

/// The extraction rule for one race-classification row: position cell, a
/// skipped car-number cell, a name cell whose first two nested name
/// elements carry first and last name, three skipped cells, then the
/// points cell. A non-numeric position cell degrades to the sentinel 0.
pub open spec fn spec_parse_race_row(row: Seq<CellV>) -> Result<PositionInfoV, Error> {
    if row.len() < 7 {
        Err(Error::ParseRaceResults)
    } else if row[0].texts.len() == 0 {
        Err(Error::ParseRaceResults)
    } else if row[2].subs.len() < 2 || row[2].subs[0].len() == 0 || row[2].subs[1].len() == 0 {
        Err(Error::ParseRaceResults)
    } else if row[6].texts.len() == 0 {
        Err(Error::ParseRaceResults)
    } else {
        match spec_parse_usize(row[6].texts[0]) {
            None => Err(Error::ParseInt),
            Some(points) => Ok(
                PositionInfoV {
                    position: spec_sentinel_position(row[0].texts[0]),
                    name: row[2].subs[0][0] + seq![' '] + row[2].subs[1][0],
                    points: points as int,
                },
            ),
        }
    }
}

/// The race row rule applied to every row of an extracted grid, in
/// document order, keeping the first error if any row is rejected.
pub open spec fn spec_parse_race_rows(rows: Seq<Seq<CellV>>) -> Result<Seq<PositionInfoV>, Error>
    decreases rows.len(),
{
    if rows.len() == 0 {
        Ok(Seq::empty())
    } else {
        match spec_parse_race_rows(rows.drop_last()) {
            Err(e) => Err(e),
            Ok(acc) => match spec_parse_race_row(rows.last()) {
                Err(e) => Err(e),
                Ok(p) => Ok(acc.push(p)),
            },
        }
    }
}

proof fn lemma_race_rows_err(rows: Seq<Seq<CellV>>, j: int)
    requires
        0 <= j <= rows.len(),
        spec_parse_race_rows(rows.take(j)) is Err,
    ensures
        spec_parse_race_rows(rows) == spec_parse_race_rows(rows.take(j)),
    decreases rows.len() - j,
{
    if j < rows.len() {
        assert(rows.take(j + 1).drop_last() =~= rows.take(j));
        lemma_race_rows_err(rows, j + 1);
    } else {
        assert(rows.take(j) =~= rows);
    }
}

/// Parses one race-classification table row.
pub fn parse_race_result_row(cells: &Vec<Cell>) -> (r: Result<PositionInfo, Error>)
    ensures
        (match r {
            Ok(p) => Ok(p@),
            Err(e) => Err(e),
        }) == spec_parse_race_row(row_cells_view(cells@)),
{
    let ghost row = row_cells_view(cells@);
    if cells.len() < 7 {
        return Err(Error::ParseRaceResults);
    }
    let pos_cell = &cells[0];
    if pos_cell.texts.len() == 0 {
        return Err(Error::ParseRaceResults);
    }
    let name_cell = &cells[2];
    if name_cell.subs.len() < 2 {
        return Err(Error::ParseRaceResults);
    }
    let first = &name_cell.subs[0];
    let second = &name_cell.subs[1];
    if first.len() == 0 || second.len() == 0 {
        return Err(Error::ParseRaceResults);
    }
    let pts_cell = &cells[6];
    if pts_cell.texts.len() == 0 {
        return Err(Error::ParseRaceResults);
    }
    let points = match parse_usize(pts_cell.texts[0].as_str()) {
        None => {
            return Err(Error::ParseInt);
        },
        Some(p) => p,
    };
    let position = match parse_usize(pos_cell.texts[0].as_str()) {
        None => 0,
        Some(v) => v,
    };
    let mut name = first[0].as_str().to_owned();
    push_char(&mut name, ' ');
    name.append(second[0].as_str());
    proof {
        assert(name@ =~= row[2].subs[0][0] + seq![' '] + row[2].subs[1][0]);
    }
    Ok(PositionInfo { position, name, points })
}

/// What parsing one race detail page yields.
pub open spec fn spec_parse_race_page(html: Seq<char>) -> Result<Seq<PositionInfoV>, Error> {
    if !(selector_compiles("table.f1-table > tbody > tr"@) && selector_compiles("td"@)
        && selector_compiles("p span.test span"@)) {
        Err(Error::Scraper)
    } else {
        spec_parse_race_rows(
            extracted_cells(
                html,
                "table.f1-table > tbody > tr"@,
                "td"@,
                "p span.test span"@,
                "href"@,
            ),
        )
    }
}

/// Parses one completed race's detail page into its classification rows.
#[verifier::loop_isolation(false)]
pub fn fetch_parse_individual_race(body: &str) -> (r: Result<Vec<PositionInfo>, Error>)
    ensures
        (match r {
            Ok(v) => Ok(position_rows_view(v@)),
            Err(e) => Err(e),
        }) == spec_parse_race_page(body@),
{
    let rows = match scrape_cells(body, "table.f1-table > tbody > tr", "td", "p span.test span", "href") {
        None => {
            return Err(Error::Scraper);
        },
        Some(rows) => rows,
    };
    let ghost grid = extracted_cells(
        body@,
        "table.f1-table > tbody > tr"@,
        "td"@,
        "p span.test span"@,
        "href"@,
    );
    proof {
        assert(rows_view(rows@) == grid);
    }
    let mut out: Vec<PositionInfo> = Vec::new();
    proof {
        assert(position_rows_view(out@) =~= Seq::<PositionInfoV>::empty());
        assert(grid.take(0) =~= Seq::<Seq<CellV>>::empty());
    }
    let mut i: usize = 0;
    while i < rows.len()
        invariant
            0 <= i <= rows.len(),
            spec_parse_race_rows(grid.take(i as int)) == Ok::<Seq<PositionInfoV>, Error>(
                position_rows_view(out@),
            ),
        decreases rows.len() - i,
    {
        proof {
            assert(grid[i as int] == row_cells_view(rows@[i as int]@));
            assert(grid.take(i + 1).drop_last() =~= grid.take(i as int));
            assert(grid.take(i + 1).last() == grid[i as int]);
        }
        match parse_race_result_row(&rows[i]) {
            Err(e) => {
                proof {
                    assert(spec_parse_race_rows(grid.take(i + 1)) == Err::<
                        Seq<PositionInfoV>,
                        Error,
                    >(e));
                    lemma_race_rows_err(grid, i + 1);
                }
                return Err(e);
            },
            Ok(p) => {
                let ghost prev = position_rows_view(out@);
                out.push(p);
                proof {
                    assert(position_rows_view(out@) =~= prev.push(p@));
                }
            },
        }
        i = i + 1;
    }
    proof {
        assert(grid.take(grid.len() as int) =~= grid);
    }
    Ok(out)
}

/// The extraction rule for one results-index row: the first cell must hold
/// a link element whose second text fragment is the Grand Prix name and
/// whose `href` leads to the detail page.
pub open spec fn spec_parse_race_index_row(row: Seq<CellV>) -> Result<IndexEntryV, Error> {
    if row.len() < 1 {
        Err(Error::ParseRaceResults)
    } else if row[0].subs.len() < 1 || row[0].subs[0].len() < 2 {
        Err(Error::ParseRaceResults)
    } else {
        match row[0].link {
            None => Err(Error::ParseRaceResults),
            Some(link) => Ok(IndexEntryV { gp_name: row[0].subs[0][1], link: link }),
        }
    }
}

/// The index row rule applied to every row, in document order.
pub open spec fn spec_parse_race_index_rows(rows: Seq<Seq<CellV>>) -> Result<Seq<IndexEntryV>, Error>
    decreases rows.len(),
{
    if rows.len() == 0 {
        Ok(Seq::empty())
    } else {
        match spec_parse_race_index_rows(rows.drop_last()) {
            Err(e) => Err(e),
            Ok(acc) => match spec_parse_race_index_row(rows.last()) {
                Err(e) => Err(e),
                Ok(v) => Ok(acc.push(v)),
            },
        }
    }
}

proof fn lemma_race_index_rows_err(rows: Seq<Seq<CellV>>, j: int)
    requires
        0 <= j <= rows.len(),
        spec_parse_race_index_rows(rows.take(j)) is Err,
    ensures
        spec_parse_race_index_rows(rows) == spec_parse_race_index_rows(rows.take(j)),
    decreases rows.len() - j,
{
    if j < rows.len() {
        assert(rows.take(j + 1).drop_last() =~= rows.take(j));
        lemma_race_index_rows_err(rows, j + 1);
    } else {
        assert(rows.take(j) =~= rows);
    }
}

/// What parsing the season's results-index page yields.
pub open spec fn spec_parse_race_index(html: Seq<char>) -> Result<Seq<IndexEntryV>, Error> {
    if !(selector_compiles("table.f1-table > tbody > tr"@) && selector_compiles("td"@)
        && selector_compiles("a"@)) {
        Err(Error::Scraper)
    } else {
        spec_parse_race_index_rows(
            extracted_cells(html, "table.f1-table > tbody > tr"@, "td"@, "a"@, "href"@),
        )
    }
}

/// Parses the season's results-index page into its ordered entries; the
/// 1-based position of an entry is the round number of its race.
#[verifier::loop_isolation(false)]
pub fn parse_race_index(html: &str) -> (r: Result<Vec<IndexEntry>, Error>)
    ensures
        (match r {
            Ok(v) => Ok(index_entries_view(v@)),
            Err(e) => Err(e),
        }) == spec_parse_race_index(html@),
{
    let rows = match scrape_cells(html, "table.f1-table > tbody > tr", "td", "a", "href") {
        None => {
            return Err(Error::Scraper);
        },
        Some(rows) => rows,
    };
    let ghost grid = extracted_cells(html@, "table.f1-table > tbody > tr"@, "td"@, "a"@, "href"@);
    proof {
        assert(rows_view(rows@) == grid);
    }
    let mut out: Vec<IndexEntry> = Vec::new();
    proof {
        assert(index_entries_view(out@) =~= Seq::<IndexEntryV>::empty());
        assert(grid.take(0) =~= Seq::<Seq<CellV>>::empty());
    }
    let mut i: usize = 0;
    while i < rows.len()
        invariant
            0 <= i <= rows.len(),
            spec_parse_race_index_rows(grid.take(i as int)) == Ok::<Seq<IndexEntryV>, Error>(
                index_entries_view(out@),
            ),
        decreases rows.len() - i,
    {
        proof {
            assert(grid[i as int] == row_cells_view(rows@[i as int]@));
            assert(grid.take(i + 1).drop_last() =~= grid.take(i as int));
            assert(grid.take(i + 1).last() == grid[i as int]);
        }
        let cells = &rows[i];
        if cells.len() < 1 {
            proof {
                lemma_race_index_rows_err(grid, i + 1);
            }
            return Err(Error::ParseRaceResults);
        }
        let cell = &cells[0];
        if cell.subs.len() < 1 {
            proof {
                lemma_race_index_rows_err(grid, i + 1);
            }
            return Err(Error::ParseRaceResults);
        }
        if cell.subs[0].len() < 2 {
            proof {
                lemma_race_index_rows_err(grid, i + 1);
            }
            return Err(Error::ParseRaceResults);
        }
        let link = match &cell.link {
            None => {
                proof {
                    lemma_race_index_rows_err(grid, i + 1);
                }
                return Err(Error::ParseRaceResults);
            },
            Some(l) => l.as_str().to_owned(),
        };
        let gp_name = cell.subs[0][1].as_str().to_owned();
        let ghost prev = index_entries_view(out@);
        out.push(IndexEntry { gp_name, link });
        proof {
            assert(index_entries_view(out@) =~= prev.push(
                IndexEntryV {
                    gp_name: grid[i as int][0].subs[0][1],
                    link: grid[i as int][0].link->0,
                },
            ));
        }
        i = i + 1;
    }
    proof {
        assert(grid.take(grid.len() as int) =~= grid);
    }
    Ok(out)
}

/// The address of a race detail page, from its index link.
pub open spec fn spec_race_url(link: Seq<char>) -> Seq<char> {
    "https://www.formula1.com/"@ + link
}

/// Does a sequence of rounds contain `x`?
pub fn contains_round(v: &Vec<usize>, x: usize) -> (r: bool)
    ensures
        r == v@.contains(x),
{
    let mut i: usize = 0;
    while i < v.len()
        invariant
            0 <= i <= v@.len(),
            forall|k: int| 0 <= k < i ==> v@[k] != x,
        decreases v@.len() - i,
    {
        if v[i] == x {
            return true;
        }
        i = i + 1;
    }
    proof {
        assert(!v@.contains(x));
    }
    false
}

/// The detail fetches an incremental race update still owes: one per index
/// entry whose 1-based position is not already cached, in index order.
pub open spec fn spec_plan_race_fetches(entries: Seq<IndexEntryV>, cached: Seq<usize>) -> Seq<
    FetchTaskV,
>
    decreases entries.len(),
{
    if entries.len() == 0 {
        Seq::empty()
    } else {
        let head = spec_plan_race_fetches(entries.drop_last(), cached);
        let idx = entries.len() - 1;
        if cached.contains((idx + 1) as usize) {
            head
        } else {
            head.push(
                FetchTaskV {
                    round: idx + 1,
                    gp_name: entries[idx].gp_name,
                    url: spec_race_url(entries[idx].link),
                },
            )
        }
    }
}

/// Plans the detail fetches of an incremental race update: rounds already
/// cached are skipped and never fetched again.
#[verifier::loop_isolation(false)]
pub fn plan_race_fetches(entries: &Vec<IndexEntry>, cached_rounds: &Vec<usize>) -> (r: Vec<
    FetchTask,
>)
    ensures
        fetch_tasks_view(r@) == spec_plan_race_fetches(index_entries_view(entries@), cached_rounds@),
{
    let ghost evs = index_entries_view(entries@);
    let mut out: Vec<FetchTask> = Vec::new();
    proof {
        assert(fetch_tasks_view(out@) =~= Seq::<FetchTaskV>::empty());
        assert(evs.take(0) =~= Seq::<IndexEntryV>::empty());
    }
    let mut i: usize = 0;
    while i < entries.len()
        invariant
            0 <= i <= entries.len(),
            fetch_tasks_view(out@) == spec_plan_race_fetches(evs.take(i as int), cached_rounds@),
        decreases entries.len() - i,
    {
        proof {
            assert(evs.take(i + 1).drop_last() =~= evs.take(i as int));
            assert(evs.take(i + 1).last() == evs[i as int]);
        }
        let round = i + 1;
        if !contains_round(cached_rounds, round) {
            let mut url = "https://www.formula1.com/".to_owned();
            url.append(entries[i].link.as_str());
            let ghost prev = fetch_tasks_view(out@);
            out.push(FetchTask { round, gp_name: entries[i].gp_name.clone(), url });
            proof {
                assert(fetch_tasks_view(out@) =~= prev.push(
                    FetchTaskV {
                        round: i + 1,
                        gp_name: evs[i as int].gp_name,
                        url: spec_race_url(evs[i as int].link),
                    },
                ));
            }
        }
        i = i + 1;
    }
    proof {
        assert(evs.take(evs.len() as int) =~= evs);
    }
    out
}

/// The rounds already present in a cached race collection, in cache order.
pub fn cached_race_rounds(results: &Vec<CompletedRace>) -> (r: Vec<usize>)
    ensures
        r@.len() == results@.len(),
        forall|i: int| 0 <= i < r@.len() ==> r@[i] as int == races_view(results@)[i].round,
{
    let mut out: Vec<usize> = Vec::new();
    let mut i: usize = 0;
    while i < results.len()
        invariant
            0 <= i <= results@.len(),
            out@.len() == i,
            forall|k: int| 0 <= k < i ==> out@[k] as int == races_view(results@)[k].round,
        decreases results@.len() - i,
    {
        out.push(results[i].round);
        i = i + 1;
    }
    out
}

/// Is a race collection ordered by round number?
pub open spec fn sorted_by_round(v: Seq<CompletedRaceV>) -> bool {
    forall|i: int, j: int| 0 <= i <= j < v.len() ==> v[i].round <= v[j].round
}

/// `x` placed into `v` from the right, before every strictly later round.
pub open spec fn spec_insert_by_round(v: Seq<CompletedRaceV>, x: CompletedRaceV) -> Seq<
    CompletedRaceV,
>
    decreases v.len(),
{
    if v.len() == 0 {
        seq![x]
    } else if x.round < v.last().round {
        spec_insert_by_round(v.drop_last(), x).push(v.last())
    } else {
        v.push(x)
    }
}

/// `v` rearranged in non-decreasing round order by repeated insertion.
pub open spec fn spec_sort_by_round(v: Seq<CompletedRaceV>) -> Seq<CompletedRaceV>
    decreases v.len(),
{
    if v.len() == 0 {
        v
    } else {
        spec_insert_by_round(spec_sort_by_round(v.drop_last()), v.last())
    }
}

/// What merging an incremental fetch into the cache yields: the two
/// collections side by side, sorted by round number.
pub open spec fn spec_merge_sort(cached: Seq<CompletedRaceV>, fetched: Seq<CompletedRaceV>) -> Seq<
    CompletedRaceV,
> {
    spec_sort_by_round(cached + fetched)
}

fn insert_by_round(v: Vec<CompletedRace>, x: CompletedRace) -> (r: Vec<CompletedRace>)
    ensures
        races_view(r@) == spec_insert_by_round(races_view(v@), x@),
    decreases v@.len(),
{
    let ghost vv = races_view(v@);
    let mut v = v;
    if v.len() == 0 {
        v.push(x);
        proof {
            assert(races_view(v@) =~= seq![x@]);
        }
        v
    } else {
        let n = v.len();
        if x.round < v[n - 1].round {
            let last = v.pop().unwrap();
            proof {
                assert(races_view(v@) =~= vv.drop_last());
                assert(last@ == vv.last());
            }
            let mut r = insert_by_round(v, x);
            let ghost rv = races_view(r@);
            r.push(last);
            proof {
                assert(races_view(r@) =~= rv.push(vv.last()));
            }
            r
        } else {
            v.push(x);
            proof {
                assert(races_view(v@) =~= vv.push(x@));
            }
            v
        }
    }
}

fn sort_by_round(v: Vec<CompletedRace>) -> (r: Vec<CompletedRace>)
    ensures
        races_view(r@) == spec_sort_by_round(races_view(v@)),
    decreases v@.len(),
{
    let ghost vv = races_view(v@);
    let mut v = v;
    if v.len() == 0 {
        v
    } else {
        let last = v.pop().unwrap();
        proof {
            assert(races_view(v@) =~= vv.drop_last());
            assert(last@ == vv.last());
        }
        let sorted = sort_by_round(v);
        insert_by_round(sorted, last)
    }
}

/// Merges newly fetched races into the cached collection and sorts the
/// whole by round number, so that output order never depends on fetch
/// completion order.
pub fn merge_and_sort(cached: Vec<CompletedRace>, fetched: Vec<CompletedRace>) -> (r: Vec<
    CompletedRace,
>)
    ensures
        races_view(r@) == spec_merge_sort(races_view(cached@), races_view(fetched@)),
{
    let ghost cv = races_view(cached@);
    let ghost fv = races_view(fetched@);
    let mut all = cached;
    let mut fetched = fetched;
    all.append(&mut fetched);
    proof {
        assert(races_view(all@) =~= cv + fv);
    }
    sort_by_round(all)
}

/// Inserting into a round-sorted collection keeps it round-sorted, adds
/// exactly the new record, and keeps every old one.
pub proof fn lemma_insert_sorted(v: Seq<CompletedRaceV>, x: CompletedRaceV)
    requires
        sorted_by_round(v),
    ensures
        sorted_by_round(spec_insert_by_round(v, x)),
        spec_insert_by_round(v, x).len() == v.len() + 1,
        spec_insert_by_round(v, x).to_multiset() == v.to_multiset().insert(x),
    decreases v.len(),
{
    broadcast use vstd::seq_lib::group_to_multiset_ensures;

    let r = spec_insert_by_round(v, x);
    if v.len() == 0 {
        assert(r =~= Seq::<CompletedRaceV>::empty().push(x));
        assert(Seq::<CompletedRaceV>::empty().to_multiset() =~= Multiset::<CompletedRaceV>::empty());
        assert(r.to_multiset() =~= v.to_multiset().insert(x));
    } else if x.round < v.last().round {
        let head = v.drop_last();
        assert(forall|i: int| 0 <= i < head.len() ==> head[i] == v[i]);
        lemma_insert_sorted(head, x);
        let inner = spec_insert_by_round(head, x);
        assert(r == inner.push(v.last()));
        assert forall|i: int, j: int| 0 <= i <= j < r.len() implies r[i].round <= r[j].round by {
            if j < r.len() - 1 {
                assert(r[i] == inner[i] && r[j] == inner[j]);
            } else if i < r.len() - 1 {
                assert(r[i] == inner[i]);
                assert(inner.to_multiset().contains(inner[i]));
                assert(inner.to_multiset() == head.to_multiset().insert(x));
                if inner[i] == x {
                    assert(r[i].round <= r[j].round);
                } else {
                    assert(head.to_multiset().contains(inner[i]));
                    let k = choose|k: int| 0 <= k < head.len() && head[k] == inner[i];
                    assert(v[k].round <= v[v.len() - 1].round);
                }
            }
        }
        assert(head.push(v.last()) =~= v);
        assert(r.to_multiset() =~= v.to_multiset().insert(x));
    } else {
        assert(r == v.push(x));
        assert forall|i: int, j: int| 0 <= i <= j < r.len() implies r[i].round <= r[j].round by {
            if j < r.len() - 1 {
                assert(r[i] == v[i] && r[j] == v[j]);
            } else if i < r.len() - 1 {
                assert(r[i] == v[i]);
                assert(v[i].round <= v[v.len() - 1].round);
            }
        }
    }
}

/// Sorting orders a race collection by round and neither loses, invents
/// nor duplicates a record.
pub proof fn lemma_sort_sorted(v: Seq<CompletedRaceV>)
    ensures
        sorted_by_round(spec_sort_by_round(v)),
        spec_sort_by_round(v).len() == v.len(),
        spec_sort_by_round(v).to_multiset() == v.to_multiset(),
    decreases v.len(),
{
    broadcast use vstd::seq_lib::group_to_multiset_ensures;

    if v.len() > 0 {
        let head = v.drop_last();
        lemma_sort_sorted(head);
        lemma_insert_sorted(spec_sort_by_round(head), v.last());
        assert(head.push(v.last()) =~= v);
        assert(spec_sort_by_round(v).to_multiset() =~= v.to_multiset());
    }
}

/// Sorting a collection that is already in round order hands it back
/// unchanged.
pub proof fn lemma_sort_of_sorted_id(v: Seq<CompletedRaceV>)
    requires
        sorted_by_round(v),
    ensures
        spec_sort_by_round(v) == v,
    decreases v.len(),
{
    if v.len() > 0 {
        let head = v.drop_last();
        assert(forall|i: int| 0 <= i < head.len() ==> head[i] == v[i]);
        lemma_sort_of_sorted_id(head);
        if head.len() > 0 {
            assert(head.last().round <= v.last().round);
        }
        assert(spec_insert_by_round(head, v.last()) == head.push(v.last()));
        assert(head.push(v.last()) =~= v);
    }
}

/// An index whose every listed round is already cached plans no detail
/// fetch at all, and merging nothing into a round-sorted cache hands the
/// cache back unchanged: the incremental fetch is idempotent.
pub proof fn lemma_incremental_fetch_idempotent(
    entries: Seq<IndexEntryV>,
    cached_rounds: Seq<usize>,
    cached: Seq<CompletedRaceV>,
)
    requires
        entries.len() <= usize::MAX,
        forall|r: usize| 1 <= r <= entries.len() ==> #[trigger] cached_rounds.contains(r),
        sorted_by_round(cached),
    ensures
        spec_plan_race_fetches(entries, cached_rounds) == Seq::<FetchTaskV>::empty(),
        spec_merge_sort(cached, Seq::empty()) == cached,
    decreases entries.len(),
{
    if entries.len() > 0 {
        let head = entries.drop_last();
        lemma_incremental_fetch_idempotent(head, cached_rounds, cached);
        assert(cached_rounds.contains((entries.len() as usize)));
        assert((((entries.len() - 1) + 1) as usize) == entries.len() as usize);
    } else {
        assert(cached + Seq::<CompletedRaceV>::empty() =~= cached);
        lemma_sort_of_sorted_id(cached);
    }
}

} // verus!
