//! Driver and team standings: the positional row-extraction rules for the
//! two standings tables, the table parse built on them, and the resource
//! names under which each standings kind is cached and fetched.

use vstd::prelude::*;

use crate::error::Error;
use crate::html::{
    extracted_cells, row_cells_view, rows_view, scrape_cells, selector_compiles, Cell, CellV,
};
use crate::text::{parse_usize, push_char, render_usize, spec_parse_usize, spec_render_usize};
use crate::utils::{position_rows_view, PositionInfo, PositionInfoV};

verus! {

/// The position a row is recorded under: the numeric value of its position
/// cell, or the sentinel 0 when the cell holds non-numeric text (seen for
/// drivers not classified). One malformed cell degrades one field; it never
/// fails the page.
pub open spec fn spec_sentinel_position(t: Seq<char>) -> int {
    match spec_parse_usize(t) {
        Some(v) => v as int,
        None => 0,
    }
}

/// The view of a parsed-row result.
pub open spec fn row_result_view(r: Result<PositionInfo, Error>) -> Result<PositionInfoV, Error> {
    match r {
        Ok(p) => Ok(p@),
        Err(e) => Err(e),
    }
}

/// The view of a parsed-table result.
pub open spec fn table_result_view(r: Result<Vec<PositionInfo>, Error>) -> Result<
    Seq<PositionInfoV>,
    Error,
> {
    match r {
        Ok(v) => Ok(position_rows_view(v@)),
        Err(e) => Err(e),
    }
}

/// The extraction rule for one driver-standings row: position cell, then a
/// name cell whose third and fourth nested name elements carry first and
/// last name, two skipped cells, then the points cell.
pub open spec fn spec_parse_driver_row(row: Seq<CellV>) -> Result<PositionInfoV, Error> {
    if row.len() < 5 {
        Err(Error::ParseDriverInfo)
    } else if row[0].texts.len() == 0 {
        Err(Error::ParseDriverInfo)
    } else if row[1].subs.len() < 4 || row[1].subs[2].len() == 0 || row[1].subs[3].len() == 0 {
        Err(Error::ParseDriverInfo)
    } else if row[4].texts.len() == 0 {
        Err(Error::ParseDriverInfo)
    } else {
        match spec_parse_usize(row[4].texts[0]) {
            None => Err(Error::ParseInt),
            Some(points) => Ok(
                PositionInfoV {
                    position: spec_sentinel_position(row[0].texts[0]),
                    name: row[1].subs[2][0] + seq![' '] + row[1].subs[3][0],
                    points: points as int,
                },
            ),
        }
    }
}

/// The extraction rule for one team-standings row: position cell, name
/// cell (first text fragment), then the points cell.
pub open spec fn spec_parse_team_row(row: Seq<CellV>) -> Result<PositionInfoV, Error> {
    if row.len() < 3 {
        Err(Error::ParseTeamInfo)
    } else if row[0].texts.len() == 0 {
        Err(Error::ParseTeamInfo)
    } else if row[1].texts.len() == 0 {
        Err(Error::ParseTeamInfo)
    } else if row[2].texts.len() == 0 {
        Err(Error::ParseTeamInfo)
    } else {
        match spec_parse_usize(row[2].texts[0]) {
            None => Err(Error::ParseInt),
            Some(points) => Ok(
                PositionInfoV {
                    position: spec_sentinel_position(row[0].texts[0]),
                    name: row[1].texts[0],
                    points: points as int,
                },
            ),
        }
    }
}

/// Parses one driver-standings table row.
pub fn parse_driver_table_row(cells: &Vec<Cell>) -> (r: Result<PositionInfo, Error>)
    ensures
        row_result_view(r) == spec_parse_driver_row(row_cells_view(cells@)),
{
    let ghost row = row_cells_view(cells@);
    if cells.len() < 5 {
        return Err(Error::ParseDriverInfo);
    }
    let pos_cell = &cells[0];
    if pos_cell.texts.len() == 0 {
        return Err(Error::ParseDriverInfo);
    }
    let name_cell = &cells[1];
    if name_cell.subs.len() < 4 {
        return Err(Error::ParseDriverInfo);
    }
    let first = &name_cell.subs[2];
    let second = &name_cell.subs[3];
    if first.len() == 0 || second.len() == 0 {
        return Err(Error::ParseDriverInfo);
    }
    let pts_cell = &cells[4];
    if pts_cell.texts.len() == 0 {
        return Err(Error::ParseDriverInfo);
    }
    let points = match parse_usize(pts_cell.texts[0].as_str()) {
        None => {
            return Err(Error::ParseInt);
        },
        Some(p) => p,
    };
    let position = match parse_usize(pos_cell.texts[0].as_str()) {
        None => 0,
        Some(v) => v,
    };
    let mut name = first[0].as_str().to_owned();
    push_char(&mut name, ' ');
    name.append(second[0].as_str());
    proof {
        assert(name@ =~= row[1].subs[2][0] + seq![' '] + row[1].subs[3][0]);
    }
    Ok(PositionInfo { position, name, points })
}

/// Parses one team-standings table row.
pub fn parse_team_table_row(cells: &Vec<Cell>) -> (r: Result<PositionInfo, Error>)
    ensures
        row_result_view(r) == spec_parse_team_row(row_cells_view(cells@)),
{
    if cells.len() < 3 {
        return Err(Error::ParseTeamInfo);
    }
    let pos_cell = &cells[0];
    if pos_cell.texts.len() == 0 {
        return Err(Error::ParseTeamInfo);
    }
    let name_cell = &cells[1];
    if name_cell.texts.len() == 0 {
        return Err(Error::ParseTeamInfo);
    }
    let pts_cell = &cells[2];
    if pts_cell.texts.len() == 0 {
        return Err(Error::ParseTeamInfo);
    }
    let points = match parse_usize(pts_cell.texts[0].as_str()) {
        None => {
            return Err(Error::ParseInt);
        },
        Some(p) => p,
    };
    let position = match parse_usize(pos_cell.texts[0].as_str()) {
        None => 0,
        Some(v) => v,
    };
    let name = name_cell.texts[0].as_str().to_owned();
    Ok(PositionInfo { position, name, points })
}

/// Which of the two standings kinds a fetch works on.
#[derive(Debug, Clone, Copy, PartialEq, Eq, Structural)]
pub enum GpResults {
    Driver,
    Team,
}

impl GpResults {
    /// The extraction rule this kind applies to a table row.
    pub open spec fn spec_parse_table_row(&self, row: Seq<CellV>) -> Result<PositionInfoV, Error> {
        match self {
            GpResults::Driver => spec_parse_driver_row(row),
            GpResults::Team => spec_parse_team_row(row),
        }
    }

    /// The sub-element selector whose matches carry the name fragments this
    /// kind reads.
    pub open spec fn spec_sub_selector(&self) -> Seq<char> {
        match self {
            GpResults::Driver => "p a span"@,
            GpResults::Team => "span"@,
        }
    }

    /// The sub-element selector handed to the scrape for this kind.
    pub fn sub_selector(&self) -> (r: &'static str)
        ensures
            r@ == self.spec_sub_selector(),
    {
        match self {
            GpResults::Driver => "p a span",
            GpResults::Team => "span",
        }
    }

    /// Parses one table row under this kind's extraction rule.
    pub fn parse_table_row(&self, cells: &Vec<Cell>) -> (r: Result<PositionInfo, Error>)
        ensures
            row_result_view(r) == self.spec_parse_table_row(row_cells_view(cells@)),
    {
        match self {
            GpResults::Driver => parse_driver_table_row(cells),
            GpResults::Team => parse_team_table_row(cells),
        }
    }

    /// The name of this kind's cache file.
    pub fn get_local_resource_loc(&self) -> (r: &'static str)
        ensures
            self is Driver ==> r@ == "2024_driver_standings.json"@,
            self is Team ==> r@ == "2024_team_standings.json"@,
    {
        match self {
            GpResults::Driver => "2024_driver_standings.json",
            GpResults::Team => "2024_team_standings.json",
        }
    }
}

/// What parsing a standings document yields: a selector failure is the
/// programmer-error report, anything else is the row-rule fold over the
/// extracted grid.
pub open spec fn spec_parse_standings(html: Seq<char>, kind: GpResults) -> Result<
    Seq<PositionInfoV>,
    Error,
> {
    if !(selector_compiles("table.f1-table > tbody > tr"@) && selector_compiles("td"@)
        && selector_compiles(kind.spec_sub_selector())) {
        Err(Error::Scraper)
    } else {
        spec_parse_standings_rows(
            extracted_cells(
                html,
                "table.f1-table > tbody > tr"@,
                "td"@,
                kind.spec_sub_selector(),
                "href"@,
            ),
            kind,
        )
    }
}

/// The row rule applied to every row of an extracted standings grid, in
/// document order, keeping the first error if any row is rejected.
pub open spec fn spec_parse_standings_rows(rows: Seq<Seq<CellV>>, kind: GpResults) -> Result<
    Seq<PositionInfoV>,
    Error,
>
    decreases rows.len(),
{
    if rows.len() == 0 {
        Ok(Seq::empty())
    } else {
        match spec_parse_standings_rows(rows.drop_last(), kind) {
            Err(e) => Err(e),
            Ok(acc) => match kind.spec_parse_table_row(rows.last()) {
                Err(e) => Err(e),
                Ok(p) => Ok(acc.push(p)),
            },
        }
    }
}

/// Once a prefix of the rows is rejected, the whole grid is rejected with
/// the same error.
proof fn lemma_standings_rows_err(rows: Seq<Seq<CellV>>, kind: GpResults, j: int)
    requires
        0 <= j <= rows.len(),
        spec_parse_standings_rows(rows.take(j), kind) is Err,
    ensures
        spec_parse_standings_rows(rows, kind) == spec_parse_standings_rows(rows.take(j), kind),
    decreases rows.len() - j,
{
    if j < rows.len() {
        assert(rows.take(j + 1).drop_last() =~= rows.take(j));
        lemma_standings_rows_err(rows, kind, j + 1);
    } else {
        assert(rows.take(j) =~= rows);
    }
}

/// Parses a whole standings page into ranked rows, in document order.
#[verifier::loop_isolation(false)]
pub fn parse_standings_html_table(html: &str, results: &GpResults) -> (r: Result<
    Vec<PositionInfo>,
    Error,
>)
    ensures
        table_result_view(r) == spec_parse_standings(html@, *results),
{
    let sub = results.sub_selector();
    let rows = match scrape_cells(html, "table.f1-table > tbody > tr", "td", sub, "href") {
        None => {
            return Err(Error::Scraper);
        },
        Some(rows) => rows,
    };
    let ghost grid = extracted_cells(
        html@,
        "table.f1-table > tbody > tr"@,
        "td"@,
        results.spec_sub_selector(),
        "href"@,
    );
    proof {
        assert(rows_view(rows@) == grid);
    }
    let mut out: Vec<PositionInfo> = Vec::new();
    proof {
        assert(position_rows_view(out@) =~= Seq::<PositionInfoV>::empty());
        assert(grid.take(0) =~= Seq::<Seq<CellV>>::empty());
    }
    let mut i: usize = 0;
    while i < rows.len()
        invariant
            0 <= i <= rows.len(),
            rows_view(rows@) == grid,
            grid.len() == rows@.len(),
            spec_parse_standings_rows(grid.take(i as int), *results) == Ok::<
                Seq<PositionInfoV>,
                Error,
            >(position_rows_view(out@)),
        decreases rows.len() - i,
    {
        proof {
            assert(grid[i as int] == row_cells_view(rows@[i as int]@));
            assert(grid.take(i + 1).drop_last() =~= grid.take(i as int));
            assert(grid.take(i + 1).last() == grid[i as int]);
        }
        match results.parse_table_row(&rows[i]) {
            Err(e) => {
                proof {
                    assert(spec_parse_standings_rows(grid.take(i + 1), *results) == Err::<
                        Seq<PositionInfoV>,
                        Error,
                    >(e));
                    lemma_standings_rows_err(grid, *results, i + 1);
                }
                return Err(e);
            },
            Ok(p) => {
                let ghost prev = position_rows_view(out@);
                out.push(p);
                proof {
                    assert(position_rows_view(out@) =~= prev.push(p@));
                }
            },
        }
        i = i + 1;
    }
    proof {
        assert(grid.take(grid.len() as int) =~= grid);
    }
    Ok(out)
}

/// The standings fetched for a season are cached under a name and fetched
/// from a location that carry the season year; rendering the year into
/// either text is verified here.
pub struct DriverStandings;

impl DriverStandings {
    /// The cache file name for a season's driver standings.
    pub fn cache_file_name(year: usize) -> (r: String)
        ensures
            r@ == spec_render_usize(year as int) + "_driver_standings.json"@,
    {
        let mut r = String::new();
        render_usize(year, &mut r);
        r.append("_driver_standings.json");
        r
    }

    /// The address of a season's driver-standings page.
    pub fn resource_url(year: usize) -> (r: String)
        ensures
            r@ == "https://www.formula1.com/en/results.html/"@ + spec_render_usize(year as int)
                + "/drivers.html"@,
    {
        let mut r = "https://www.formula1.com/en/results.html/".to_owned();
        render_usize(year, &mut r);
        r.append("/drivers.html");
        r
    }

    /// Parses a fetched driver-standings document.
    pub fn process_data(raw_data: &str) -> (r: Result<Vec<PositionInfo>, Error>)
        ensures
            table_result_view(r) == spec_parse_standings(raw_data@, GpResults::Driver),
    {
        parse_standings_html_table(raw_data, &GpResults::Driver)
    }
}

/// The team-standings resource: cache name, fetch location, and parse.
pub struct TeamStandings;

impl TeamStandings {
    /// The cache file name for a season's team standings.
    pub fn cache_file_name(year: usize) -> (r: String)
        ensures
            r@ == spec_render_usize(year as int) + "_team_standings.json"@,
    {
        let mut r = String::new();
        render_usize(year, &mut r);
        r.append("_team_standings.json");
        r
    }

    /// The address of a season's team-standings page.
    pub fn resource_url(year: usize) -> (r: String)
        ensures
            r@ == "https://www.formula1.com/en/results.html/"@ + spec_render_usize(year as int)
                + "/team.html"@,
    {
        let mut r = "https://www.formula1.com/en/results.html/".to_owned();
        render_usize(year, &mut r);
        r.append("/team.html");
        r
    }

    /// Parses a fetched team-standings document.
    pub fn process_data(raw_data: &str) -> (r: Result<Vec<PositionInfo>, Error>)
        ensures
            table_result_view(r) == spec_parse_standings(raw_data@, GpResults::Team),
    {
        parse_standings_html_table(raw_data, &GpResults::Team)
    }
}

/// Every well-formed row of a standings grid yields exactly one record, in
/// document order: the parse is complete on valid pages.
pub proof fn lemma_parse_table_complete(rows: Seq<Seq<CellV>>, kind: GpResults)
    requires
        forall|i: int| 0 <= i < rows.len() ==> (#[trigger] kind.spec_parse_table_row(rows[i])) is Ok,
    ensures
        spec_parse_standings_rows(rows, kind) is Ok,
        spec_parse_standings_rows(rows, kind)->Ok_0.len() == rows.len(),
        forall|i: int| 0 <= i < rows.len() ==> #[trigger] spec_parse_standings_rows(
            rows,
            kind,
        )->Ok_0[i] == kind.spec_parse_table_row(rows[i])->Ok_0,
    decreases rows.len(),
{
    if rows.len() > 0 {
        let head = rows.drop_last();
        assert(forall|i: int| 0 <= i < head.len() ==> head[i] == rows[i]);
        lemma_parse_table_complete(head, kind);
        assert(rows.last() == rows[rows.len() - 1]);
    }
}

/// On a valid standings page, whose rows carry the ranks 1 up to N in
/// order, the parsed positions run 1 up to N as well: in particular they
/// are monotonically non-decreasing and start at 1.
pub proof fn lemma_parse_table_positions(rows: Seq<Seq<CellV>>, kind: GpResults)
    requires
        forall|i: int| 0 <= i < rows.len() ==> (#[trigger] kind.spec_parse_table_row(rows[i])) is Ok,
        forall|i: int| 0 <= i < rows.len() ==> (#[trigger] kind.spec_parse_table_row(
            rows[i],
        ))->Ok_0.position == i + 1,
    ensures
        spec_parse_standings_rows(rows, kind) is Ok,
        forall|i: int| 0 <= i < rows.len() ==> (#[trigger] spec_parse_standings_rows(
            rows,
            kind,
        )->Ok_0[i]).position == i + 1,
        forall|i: int, j: int|
            0 <= i <= j < rows.len() ==> (#[trigger] spec_parse_standings_rows(rows, kind)->Ok_0[i]).position
                <= (#[trigger] spec_parse_standings_rows(rows, kind)->Ok_0[j]).position,
{
    lemma_parse_table_complete(rows, kind);
}

} // verus!
