use f1gp::error::Error;
use f1gp::quali::{merge_and_sort_quali, plan_quali_fetches, CompletedQualifying};
use f1gp::results::{
    cached_race_rounds, merge_and_sort, plan_race_fetches, CompletedRace, IndexEntry,
};
use f1gp::schedule::{pp_session, time_until_next_session, Schedule, Sessions};
use f1gp::utils::{fetch_decision, PositionInfo};

fn entry(slug: &str) -> IndexEntry {
    IndexEntry {
        gp_name: slug.to_string(),
        link: format!("en/results/2024/races/{slug}/race-result"),
    }
}

fn race(round: usize) -> CompletedRace {
    CompletedRace::new(
        round,
        format!("gp{round}"),
        vec![PositionInfo { position: 1, name: "Max".to_string(), points: 25 }],
    )
}

#[test]
fn partially_cached_index_plans_only_the_missing_rounds() {
    let entries: Vec<IndexEntry> =
        vec![entry("r1"), entry("r2"), entry("r3"), entry("r4"), entry("r5")];
    let cached: Vec<usize> = vec![1, 2, 3];
    let plan = plan_race_fetches(&entries, &cached);
    // exactly two detail fetches are dispatched, for rounds 4 and 5
    assert_eq!(plan.len(), 2);
    assert_eq!(plan[0].round, 4);
    assert_eq!(plan[0].gp_name, "r4");
    assert_eq!(plan[0].url, "https://www.formula1.com/en/results/2024/races/r4/race-result");
    assert_eq!(plan[1].round, 5);

    let cached_races = vec![race(1), race(2), race(3)];
    let fetched = vec![race(5), race(4)];
    let merged = merge_and_sort(cached_races, fetched);
    let rounds: Vec<usize> = merged.iter().map(|r| r.round()).collect();
    assert_eq!(rounds, vec![1, 2, 3, 4, 5]);
}

#[test]
fn fully_cached_index_plans_nothing_and_merge_returns_the_cache() {
    let entries: Vec<IndexEntry> = vec![entry("r1"), entry("r2"), entry("r3")];
    let cached_rounds: Vec<usize> = vec![1, 2, 3];
    let plan = plan_race_fetches(&entries, &cached_rounds);
    assert_eq!(plan.len(), 0);

    let cache = vec![race(1), race(2), race(3)];
    let merged = merge_and_sort(cache.clone(), Vec::new());
    assert_eq!(merged, cache);
}

#[test]
fn quali_plan_rewrites_the_detail_link() {
    let entries: Vec<IndexEntry> = vec![entry("bahrain")];
    let cached: Vec<usize> = Vec::new();
    let plan = plan_quali_fetches(&entries, &cached);
    assert_eq!(plan.len(), 1);
    assert_eq!(plan[0].round, 1);
    assert_eq!(
        plan[0].url,
        "https://www.formula1.com/en/results/2024/en/results/2024/races/bahrain/qualifying"
    );
}

#[test]
fn quali_merge_sorts_by_round() {
    let a = CompletedQualifying::new(2, "b".to_string(), Vec::new());
    let b = CompletedQualifying::new(1, "a".to_string(), Vec::new());
    let merged = merge_and_sort_quali(vec![a], vec![b]);
    let rounds: Vec<usize> = merged.iter().map(|r| r.round()).collect();
    assert_eq!(rounds, vec![1, 2]);
}

#[test]
fn cached_rounds_lists_the_rounds_in_cache_order() {
    let cache = vec![race(3), race(1)];
    assert_eq!(cached_race_rounds(&cache), vec![3, 1]);
}

#[test]
fn forced_refresh_always_fetches_and_cache_hits_never_do() {
    // a forced pull always goes to the network
    assert!(fetch_decision(true, true));
    assert!(fetch_decision(false, true));
    // without force, the network is used exactly when no cache entry exists
    assert!(!fetch_decision(true, false));
    assert!(fetch_decision(false, false));
}

#[test]
fn no_results_policy_reports_the_empty_fetch() {
    let empty: Vec<CompletedQualifying> = Vec::new();
    assert_eq!(CompletedQualifying::get_completed_quali_results(empty).unwrap_err(),
        Error::NoResults);
    let some = vec![CompletedQualifying::new(1, "a".to_string(), Vec::new())];
    let back = CompletedQualifying::get_completed_quali_results(some.clone()).unwrap();
    assert_eq!(back, some);
}

#[test]
fn race_results_render_as_a_ruled_table() {
    let race = CompletedRace::new(
        1,
        "Bahrain".to_string(),
        vec![
            PositionInfo { position: 1, name: "Max Verstappen".to_string(), points: 25 },
            PositionInfo { position: 2, name: "Sergio Perez".to_string(), points: 18 },
        ],
    );
    let mut out = String::new();
    race.pp_completed_race_results(&mut out).unwrap();
    let expected = "-------\nBahrain\n-------\n\
        1   Max Verstappen       25\n\
        2   Sergio Perez         18\n";
    assert_eq!(out, expected);
}

#[test]
fn quali_results_render_with_session_columns() {
    let quali = CompletedQualifying::new(
        1,
        "Bahrain".to_string(),
        vec![f1gp::utils::QualiPositionInfo {
            position: 1,
            name: "Max Verstappen".to_string(),
            q1: Some("1:28.877".to_string()),
            q2: None,
            q3: Some("1:28.265".to_string()),
        }],
    );
    let mut out = String::new();
    quali.pp_completed_quali_results(&mut out).unwrap();
    let expected = "-------\nBahrain\n-------\n\
        \u{20}   \u{20}                    \u{20}  Q1    |    Q2    |    Q3   \n\
        1   Max Verstappen       1:28.877 |          | 1:28.265\n";
    assert_eq!(out, expected);
}

#[test]
fn session_line_shows_mark_name_and_time() {
    let line = pp_session("Race", "Sun 02/03/2024 15:00", true, 5, 38);
    assert_eq!(line, "| [x] Race : Sun 02/03/2024 15:00        |");
    let line = pp_session("Race", "Sun 02/03/2024 15:00", false, 5, 38);
    assert_eq!(line, "| [ ] Race : Sun 02/03/2024 15:00        |");
}

#[test]
fn countdown_names_the_next_future_session() {
    let curr: i64 = 250;
    // the first two sessions are past; the third is two days, three hours
    // and four minutes away
    let last = curr + 2 * 86400 + 3 * 3600 + 4 * 60;
    let sessions: Vec<i64> = vec![100, 200, last];
    let text = time_until_next_session(&sessions, curr);
    assert_eq!(text, "Next session in: 2 days, 3 hours, 4 minutes");
    // once every session has started, there is nothing to count down to
    assert_eq!(time_until_next_session(&sessions, last + 1), "");
}

#[test]
fn sprint_schedule_feed_renders_sessions_in_fixed_order() {
    let feed = "{\"races\":[{\"name\":\"Chinese\",\"location\":\"Shanghai\",\
        \"latitude\":31.33,\"longitude\":121.22,\
        \"sessions\":{\"fp1\":\"2024-04-19T03:30:00Z\",\
        \"sprintQualifying\":\"2024-04-19T07:30:00Z\",\
        \"sprint\":\"2024-04-20T03:00:00Z\",\
        \"qualifying\":\"2024-04-20T07:00:00Z\",\
        \"gp\":\"2024-04-21T07:00:00Z\"}}]}";
    let schedule = Schedule::process_data(feed).unwrap();
    let races = schedule.race_schedule();
    assert_eq!(races.len(), 1);
    assert_eq!(races[0].name(), "Chinese");
    assert_eq!(races[0].location(), "Shanghai");
    let sessions = *races[0].sessions();
    let weekend = match sessions {
        Sessions::Sprint(w) => w,
        Sessions::Normal(_) => panic!("expected a sprint weekend"),
    };
    // the feed timestamps are four hours apart across those days
    assert_eq!(weekend.fp1, 1713497400);
    assert_eq!(weekend.sprint_qualifying, 1713511800);
    assert_eq!(weekend.sprint, 1713582000);
    assert_eq!(weekend.qualifying, 1713596400);
    assert_eq!(weekend.gp, 1713682800);
    assert_eq!(races[0].gp_start_dt(), 1713682800);

    // render between the sprint and qualifying: the race is still upcoming
    let now = weekend.sprint + 1;
    let dts: Vec<String> =
        vec!["t1".to_string(), "t2".to_string(), "t3".to_string(), "t4".to_string(),
            "t5".to_string()];
    let mut out = String::new();
    races[0].pp_race_schedule(&mut out, now, &dts).unwrap();
    let lines: Vec<&str> = out.lines().collect();
    // border, title, border, five sessions, border, countdown
    assert_eq!(lines.len(), 10);
    assert!(lines[3].starts_with("| [x] FP 1"));
    assert!(lines[4].starts_with("| [x] Spr Quali"));
    assert!(lines[5].starts_with("| [x] Sprint"));
    assert!(lines[6].starts_with("| [ ] Quali"));
    assert!(lines[7].starts_with("| [ ] Race"));
    assert!(lines[9].starts_with("Next session in: "));
}

#[test]
fn race_title_marks_completed_and_imminent_weekends() {
    let race = f1gp::schedule::GrandPrix::new(
        "Bahrain".to_string(),
        "Sakhir".to_string(),
        Sessions::Normal(f1gp::schedule::NormalWeekend {
            fp1: 1000,
            fp2: 2000,
            fp3: 3000,
            qualifying: 4000,
            gp: 1000000,
        }),
    );
    let mut out = String::new();
    race.pp_race_title(&mut out, 2000000, 3).unwrap();
    assert_eq!(out, "[x]   3. Bahrain Grand Prix / Sakhir\n");
    let mut out = String::new();
    race.pp_race_title(&mut out, 999999, 3).unwrap();
    assert_eq!(out, "[->   3. Bahrain Grand Prix / Sakhir\n");
    let mut out = String::new();
    race.pp_race_title(&mut out, 0, 12).unwrap();
    assert_eq!(out, "[ ]  12. Bahrain Grand Prix / Sakhir\n");
}

#[test]
fn error_messages_are_stable() {
    assert_eq!(Error::Scraper.describe(), "HTML parsing failed");
    assert_eq!(Error::InvalidArgs.describe(), "Invalid arguments provided");
    assert_eq!(
        Error::NoResults.describe(),
        "There are no results for any GP, yet. Try `f1gp pull` to get new data"
    );
}
