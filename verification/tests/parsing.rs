use f1gp::error::Error;
use f1gp::quali::{fetch_parse_individual_quali_result, parse_quali_index};
use f1gp::results::{fetch_parse_individual_race, parse_race_index};
use f1gp::standings::{parse_standings_html_table, DriverStandings, GpResults, TeamStandings};
use f1gp::text::{parse_i64, parse_usize, replace_all, trim_str};

fn driver_row(pos: &str, first: &str, last: &str, points: &str) -> String {
    format!(
        "<tr><td>{pos}</td>\
         <td><p><a><span>abb</span><span>no</span><span>{first}</span><span>{last}</span></a></p></td>\
         <td>NED</td><td>Team</td><td>{points}</td></tr>"
    )
}

fn driver_page(rows: &str) -> String {
    format!("<html><body><table class=\"f1-table\"><tbody>{rows}</tbody></table></body></html>")
}

#[test]
fn driver_standings_page_parses_every_row_in_order() {
    let rows = format!(
        "{}{}{}",
        driver_row("1", "Max", "Verstappen", "575"),
        driver_row("2", "Sergio", "Perez", "285"),
        driver_row("3", "Lewis", "Hamilton", "234"),
    );
    let html = driver_page(&rows);
    let parsed = parse_standings_html_table(&html, &GpResults::Driver).unwrap();
    assert_eq!(parsed.len(), 3);
    assert_eq!(parsed[0].position, 1);
    assert_eq!(parsed[0].name, "Max Verstappen");
    assert_eq!(parsed[0].points, 575);
    assert_eq!(parsed[1].position, 2);
    assert_eq!(parsed[1].name, "Sergio Perez");
    assert_eq!(parsed[2].position, 3);
    // positions are monotonically non-decreasing from 1
    for (i, p) in parsed.iter().enumerate() {
        assert_eq!(p.position, i + 1);
    }
}

#[test]
fn non_numeric_position_degrades_to_sentinel_zero() {
    let rows = driver_row("NC", "Logan", "Sargeant", "0");
    let html = driver_page(&rows);
    let parsed = parse_standings_html_table(&html, &GpResults::Driver).unwrap();
    assert_eq!(parsed.len(), 1);
    assert_eq!(parsed[0].position, 0);
    assert_eq!(parsed[0].name, "Logan Sargeant");
    assert_eq!(parsed[0].points, 0);
}

#[test]
fn driver_row_with_missing_cells_is_rejected() {
    let html = driver_page("<tr><td>1</td><td>nope</td></tr>");
    let err = parse_standings_html_table(&html, &GpResults::Driver).unwrap_err();
    assert_eq!(err, Error::ParseDriverInfo);
}

#[test]
fn driver_row_with_non_numeric_points_is_rejected() {
    let rows = driver_row("1", "Max", "Verstappen", "abc");
    let html = driver_page(&rows);
    let err = parse_standings_html_table(&html, &GpResults::Driver).unwrap_err();
    assert_eq!(err, Error::ParseInt);
}

#[test]
fn team_standings_page_parses() {
    let html = "<table class=\"f1-table\"><tbody>\
        <tr><td>1</td><td>McLaren</td><td>666</td></tr>\
        <tr><td>2</td><td>Ferrari</td><td>652</td></tr>\
        </tbody></table>";
    let parsed = parse_standings_html_table(html, &GpResults::Team).unwrap();
    assert_eq!(parsed.len(), 2);
    assert_eq!(parsed[0].name, "McLaren");
    assert_eq!(parsed[0].points, 666);
    assert_eq!(parsed[1].position, 2);
}

#[test]
fn team_row_missing_points_is_rejected() {
    let html = "<table class=\"f1-table\"><tbody>\
        <tr><td>1</td><td>McLaren</td></tr>\
        </tbody></table>";
    let err = parse_standings_html_table(html, &GpResults::Team).unwrap_err();
    assert_eq!(err, Error::ParseTeamInfo);
}

#[test]
fn race_detail_page_parses_rows() {
    let html = "<table class=\"f1-table\"><tbody>\
        <tr><td>1</td><td>33</td>\
        <td><p><span class=\"test\"><span>Max</span><span>Verstappen</span></span></p></td>\
        <td>Red Bull</td><td>57</td><td>1:30:00</td><td>25</td></tr>\
        <tr><td>NC</td><td>2</td>\
        <td><p><span class=\"test\"><span>Logan</span><span>Sargeant</span></span></p></td>\
        <td>Williams</td><td>12</td><td>DNF</td><td>0</td></tr>\
        </tbody></table>";
    let parsed = fetch_parse_individual_race(html).unwrap();
    assert_eq!(parsed.len(), 2);
    assert_eq!(parsed[0].position, 1);
    assert_eq!(parsed[0].name, "Max Verstappen");
    assert_eq!(parsed[0].points, 25);
    // a non-numeric position cell degrades to 0, the rest stays intact
    assert_eq!(parsed[1].position, 0);
    assert_eq!(parsed[1].name, "Logan Sargeant");
}

#[test]
fn race_detail_short_row_is_rejected() {
    let html = "<table class=\"f1-table\"><tbody><tr><td>1</td></tr></tbody></table>";
    let err = fetch_parse_individual_race(html).unwrap_err();
    assert_eq!(err, Error::ParseRaceResults);
}

#[test]
fn quali_detail_page_parses_rows() {
    let html = "<table class=\"f1-table\"><tbody>\
        <tr><td>1</td><td>33</td><td>Max<span>VER</span>Verstappen</td><td>Red Bull</td>\
        <td>1:28.877</td><td>1:28.740</td><td>1:28.265</td></tr>\
        <tr><td>16</td><td>2</td><td>Logan<span>SAR</span>Sargeant</td><td>Williams</td>\
        <td>1:30.214</td><td></td><td></td></tr>\
        </tbody></table>";
    let parsed = fetch_parse_individual_quali_result(html).unwrap();
    assert_eq!(parsed.len(), 2);
    assert_eq!(parsed[0].name, "Max Verstappen");
    assert_eq!(parsed[0].q3.as_deref(), Some("1:28.265"));
    assert_eq!(parsed[1].position, 16);
    assert_eq!(parsed[1].q1.as_deref(), Some("1:30.214"));
    assert_eq!(parsed[1].q2, None);
    assert_eq!(parsed[1].q3, None);
}

#[test]
fn race_index_page_parses_entries() {
    let html = "<table class=\"f1-table\"><tbody>\
        <tr><td><a href=\"en/results/2024/races/1229/bahrain/race-result\">\
        <span>flag</span>Bahrain</a></td><td>02 Mar</td></tr>\
        <tr><td><a href=\"en/results/2024/races/1230/saudi-arabia/race-result\">\
        <span>flag</span>Saudi Arabia</a></td><td>09 Mar</td></tr>\
        </tbody></table>";
    let entries = parse_race_index(html).unwrap();
    assert_eq!(entries.len(), 2);
    assert_eq!(entries[0].gp_name, "Bahrain");
    assert_eq!(entries[0].link, "en/results/2024/races/1229/bahrain/race-result");
    assert_eq!(entries[1].gp_name, "Saudi Arabia");
}

#[test]
fn race_index_row_without_link_is_rejected() {
    let html = "<table class=\"f1-table\"><tbody>\
        <tr><td><a><span>flag</span>Bahrain</a></td></tr>\
        </tbody></table>";
    let err = parse_race_index(html).unwrap_err();
    assert_eq!(err, Error::ParseRaceResults);
}

#[test]
fn quali_index_page_parses_and_trims_names() {
    let html = "<table class=\"f1-table\"><tbody>\
        <tr><td><a href=\"en/results/2024/races/1229/bahrain/race-result\">  Bahrain  </a></td></tr>\
        </tbody></table>";
    let entries = parse_quali_index(html).unwrap();
    assert_eq!(entries.len(), 1);
    assert_eq!(entries[0].gp_name, "Bahrain");
    assert_eq!(entries[0].link, "en/results/2024/races/1229/bahrain/race-result");
}

#[test]
fn resource_names_carry_the_year() {
    assert_eq!(DriverStandings::cache_file_name(2024), "2024_driver_standings.json");
    assert_eq!(
        DriverStandings::resource_url(2024),
        "https://www.formula1.com/en/results.html/2024/drivers.html"
    );
    assert_eq!(TeamStandings::cache_file_name(2025), "2025_team_standings.json");
    assert_eq!(GpResults::Driver.get_local_resource_loc(), "2024_driver_standings.json");
    assert_eq!(GpResults::Team.get_local_resource_loc(), "2024_team_standings.json");
}

#[test]
fn parse_usize_accepts_digits_only() {
    assert_eq!(parse_usize("0"), Some(0));
    assert_eq!(parse_usize("575"), Some(575));
    assert_eq!(parse_usize(""), None);
    assert_eq!(parse_usize("12a"), None);
    assert_eq!(parse_usize("-3"), None);
    assert_eq!(parse_usize("99999999999999999999999999"), None);
}

#[test]
fn parse_i64_handles_signs_and_bounds() {
    assert_eq!(parse_i64("0"), Some(0));
    assert_eq!(parse_i64("-1"), Some(-1));
    assert_eq!(parse_i64("9223372036854775807"), Some(i64::MAX));
    assert_eq!(parse_i64("9223372036854775808"), None);
    assert_eq!(parse_i64("-9223372036854775808"), Some(i64::MIN));
    assert_eq!(parse_i64("-9223372036854775809"), None);
    assert_eq!(parse_i64("--5"), None);
    assert_eq!(parse_i64(""), None);
}

#[test]
fn trim_removes_surrounding_blanks_only() {
    assert_eq!(trim_str("  Bahrain \n"), "Bahrain");
    assert_eq!(trim_str("a b"), "a b");
    assert_eq!(trim_str("   "), "");
    assert_eq!(trim_str(""), "");
}

#[test]
fn replace_all_rewrites_every_occurrence() {
    assert_eq!(replace_all("a/race-result/b/race-result", "race-result", "qualifying"),
        "a/qualifying/b/qualifying");
    assert_eq!(replace_all("abc", "x", "y"), "abc");
    assert_eq!(replace_all("aaa", "aa", "b"), "ba");
    assert_eq!(replace_all("abc", "", "y"), "abc");
}
