//! The season schedule: Grand Prix weekends with their session times, the
//! next-session arithmetic, and the rendering of schedules and titles.
//!
//! Session times are held as Unix epoch seconds; turning a feed timestamp
//! into an epoch goes through one trusted call, and turning an epoch into
//! display text is presentation work left to the surrounding program, which
//! hands the formatted texts in.

use vstd::prelude::*;

use crate::codec::{append_quoted, lookup, spec_lookup, spec_quoted, lemma_jsons_view_index};
use crate::error::Error;
use crate::json::{
    jfields_view, json_view, jsons_view, parse_json, spec_parse_json, Json, JsonV,
};
use crate::text::{
    append_center, append_pad_left, append_pad_right, append_repeat, parse_i64, push_char,
    render_i64, render_u64, render_usize, spec_center, spec_pad_left, spec_pad_right,
    spec_parse_i64, spec_render_i64, spec_repeat, spec_render_usize,
};

verus! {

/// The five sessions of a conventional race weekend, as epoch seconds.
#[derive(Debug, Clone, Copy, PartialEq, Eq, Structural)]
pub struct NormalWeekend {
    pub fp1: i64,
    pub fp2: i64,
    pub fp3: i64,
    pub qualifying: i64,
    pub gp: i64,
}

/// The five sessions of a sprint race weekend, as epoch seconds.
#[derive(Debug, Clone, Copy, PartialEq, Eq, Structural)]
pub struct SprintWeekend {
    pub fp1: i64,
    pub sprint_qualifying: i64,
    pub sprint: i64,
    pub qualifying: i64,
    pub gp: i64,
}

/// A weekend's session plan: the two formats a Grand Prix can follow.
#[derive(Debug, Clone, Copy, PartialEq, Eq, Structural)]
pub enum Sessions {
    Normal(NormalWeekend),
    Sprint(SprintWeekend),
}

impl Sessions {
    /// When the main race of this weekend starts.
    pub open spec fn spec_gp_start(&self) -> int {
        match self {
            Sessions::Normal(w) => w.gp as int,
            Sessions::Sprint(w) => w.gp as int,
        }
    }

    /// The weekend's session times in their fixed running order.
    pub open spec fn spec_session_times(&self) -> Seq<i64> {
        match self {
            Sessions::Normal(w) => seq![w.fp1, w.fp2, w.fp3, w.qualifying, w.gp],
            Sessions::Sprint(w) => seq![w.fp1, w.sprint_qualifying, w.sprint, w.qualifying, w.gp],
        }
    }

    /// When the main race of this weekend starts.
    pub fn gp_start_dt(&self) -> (r: i64)
        ensures
            r as int == self.spec_gp_start(),
    {
        match self {
            Sessions::Normal(w) => w.gp,
            Sessions::Sprint(w) => w.gp,
        }
    }
}

/// One formatted session line: the past mark, the session name padded to
/// its column, and the display text of its start time, the whole padded
/// into the schedule box.
pub open spec fn spec_pp_session(
    name: Seq<char>,
    dt: Seq<char>,
    is_past: bool,
    pad_session: int,
    line_width: int,
) -> Seq<char> {
    let mark = if is_past {
        seq!['x']
    } else {
        seq![' ']
    };
    let inner = seq!['['] + mark + "] "@ + spec_pad_right(name, pad_session) + ": "@ + dt;
    "| "@ + spec_pad_right(inner, line_width) + " |"@
}

/// Formats one session line of a schedule box.
pub fn pp_session(
    session_name: &str,
    session_dt: &str,
    is_past: bool,
    pad_session: usize,
    line_width: usize,
) -> (r: String)
    ensures
        r@ == spec_pp_session(session_name@, session_dt@, is_past, pad_session as int,
            line_width as int),
{
    let mut inner = String::new();
    push_char(&mut inner, '[');
    if is_past {
        push_char(&mut inner, 'x');
    } else {
        push_char(&mut inner, ' ');
    }
    inner.append("] ");
    append_pad_right(session_name, pad_session, &mut inner);
    inner.append(": ");
    inner.append(session_dt);
    let mut out = String::new();
    out.append("| ");
    append_pad_right(inner.as_str(), line_width, &mut out);
    out.append(" |");
    proof {
        assert(inner@ =~= seq!['['] + (if is_past {
            seq!['x']
        } else {
            seq![' ']
        }) + "] "@ + spec_pad_right(session_name@, pad_session as int) + ": "@ + session_dt@);
        assert(out@ =~= spec_pp_session(session_name@, session_dt@, is_past, pad_session as int,
            line_width as int));
    }
    out
}

/// The first session at or after which nothing has started yet: the
/// earliest listed time still in the future.
pub open spec fn spec_first_future(sessions: Seq<i64>, curr: int) -> Option<i64>
    decreases sessions.len(),
{
    if sessions.len() == 0 {
        None
    } else if curr < sessions[0] {
        Some(sessions[0])
    } else {
        spec_first_future(sessions.drop_first(), curr)
    }
}

/// The countdown text for a future session.
pub open spec fn spec_until_text(t: int, curr: int) -> Seq<char> {
    let diff = t - curr;
    "Next session in: "@ + spec_render_usize(diff / 86400) + " days, "@ + spec_render_usize(
        (diff / 3600) % 24,
    ) + " hours, "@ + spec_render_usize((diff / 60) % 60) + " minutes"@
}

/// What the countdown line shows: empty once every session has started.
pub open spec fn spec_time_until_next_session(sessions: Seq<i64>, curr: int) -> Seq<char> {
    match spec_first_future(sessions, curr) {
        None => Seq::empty(),
        Some(t) => spec_until_text(t as int, curr),
    }
}

/// Renders the time until the next session among the given start times,
/// or nothing if every session lies in the past.
pub fn time_until_next_session(sessions: &Vec<i64>, curr_dt: i64) -> (r: String)
    ensures
        r@ == spec_time_until_next_session(sessions@, curr_dt as int),
{
    let ghost sv = sessions@;
    proof {
        assert(sv.skip(0) =~= sv);
    }
    let mut i: usize = 0;
    while i < sessions.len()
        invariant
            0 <= i <= sv.len(),
            sv == sessions@,
            spec_first_future(sv, curr_dt as int) == spec_first_future(
                sv.skip(i as int),
                curr_dt as int,
            ),
        decreases sv.len() - i,
    {
        proof {
            assert(sv.skip(i as int)[0] == sv[i as int]);
            assert(sv.skip(i as int).drop_first() =~= sv.skip(i + 1));
        }
        let t = sessions[i];
        if curr_dt < t {
            let diff: u64 = ((t as i128) - (curr_dt as i128)) as u64;
            proof {
                assert(diff as int == t as int - curr_dt as int);
            }
            let mut out = String::new();
            out.append("Next session in: ");
            render_u64(diff / 86400, &mut out);
            out.append(" days, ");
            render_u64((diff / 3600) % 24, &mut out);
            out.append(" hours, ");
            render_u64((diff / 60) % 60, &mut out);
            out.append(" minutes");
            proof {
                assert(out@ =~= spec_until_text(t as int, curr_dt as int));
            }
            return out;
        }
        i = i + 1;
    }
    proof {
        assert(sv.skip(sv.len() as int) =~= Seq::<i64>::empty());
    }
    String::new()
}

/// The session labels of a conventional weekend, in running order.
pub open spec fn spec_normal_labels() -> Seq<Seq<char>> {
    seq!["FP 1"@, "FP 2"@, "FP 3"@, "Quali"@, "Race"@]
}

/// The session labels of a sprint weekend, in running order.
pub open spec fn spec_sprint_labels() -> Seq<Seq<char>> {
    seq!["FP 1"@, "Spr Quali"@, "Sprint"@, "Quali"@, "Race"@]
}

/// The five session lines of a weekend, in the fixed running order, each
/// marked past when its start lies before the current time.
pub open spec fn spec_pp_weekend(
    labels: Seq<Seq<char>>,
    times: Seq<i64>,
    dts: Seq<Seq<char>>,
    curr: int,
    pad_session: int,
    line_width: int,
) -> Seq<char>
    decreases labels.len(),
{
    if labels.len() == 0 || times.len() != labels.len() || dts.len() != labels.len() {
        Seq::empty()
    } else {
        spec_pp_session(labels[0], dts[0], curr > times[0] as int, pad_session, line_width) + seq![
            '\n',
        ] + spec_pp_weekend(
            labels.drop_first(),
            times.drop_first(),
            dts.drop_first(),
            curr,
            pad_session,
            line_width,
        )
    }
}

fn pp_weekend_lines(
    labels: &Vec<&'static str>,
    times: &Vec<i64>,
    dts: &Vec<String>,
    curr_dt: i64,
    pad_session: usize,
    line_width: usize,
    output: &mut String,
)
    requires
        labels@.len() == times@.len() == dts@.len(),
    ensures
        final(output)@ == old(output)@ + spec_pp_weekend(
            labels@.map_values(|l: &'static str| l@),
            times@,
            dts@.map_values(|d: String| d@),
            curr_dt as int,
            pad_session as int,
            line_width as int,
        ),
{
    let ghost lv = labels@.map_values(|l: &'static str| l@);
    let ghost tv = times@;
    let ghost dv = dts@.map_values(|d: String| d@);
    let mut i: usize = 0;
    proof {
        assert(lv.skip(0) =~= lv);
        assert(tv.skip(0) =~= tv);
        assert(dv.skip(0) =~= dv);
    }
    while i < labels.len()
        invariant
            0 <= i <= labels@.len(),
            labels@.len() == times@.len() == dts@.len(),
            lv == labels@.map_values(|l: &'static str| l@),
            tv == times@,
            dv == dts@.map_values(|d: String| d@),
            lv.len() == tv.len() == dv.len() == labels@.len(),
            output@ + spec_pp_weekend(
                lv.skip(i as int),
                tv.skip(i as int),
                dv.skip(i as int),
                curr_dt as int,
                pad_session as int,
                line_width as int,
            ) == old(output)@ + spec_pp_weekend(
                lv,
                tv,
                dv,
                curr_dt as int,
                pad_session as int,
                line_width as int,
            ),
        decreases labels@.len() - i,
    {
        let line = pp_session(labels[i], dts[i].as_str(), curr_dt > times[i], pad_session,
            line_width);
        let ghost pre = output@;
        output.append(line.as_str());
        push_char(output, '\n');
        proof {
            assert(lv.skip(i as int)[0] == lv[i as int] && lv[i as int] == labels@[i as int]@);
            assert(dv.skip(i as int)[0] == dv[i as int] && dv[i as int] == dts@[i as int]@);
            assert(tv.skip(i as int)[0] == tv[i as int]);
            assert(lv.skip(i as int).drop_first() =~= lv.skip(i + 1));
            assert(tv.skip(i as int).drop_first() =~= tv.skip(i + 1));
            assert(dv.skip(i as int).drop_first() =~= dv.skip(i + 1));
            assert(output@ =~= pre + (spec_pp_session(lv[i as int], dv[i as int], curr_dt as int
                > tv[i as int] as int, pad_session as int, line_width as int) + seq!['\n']));
        }
        i = i + 1;
    }
    proof {
        assert(lv.skip(lv.len() as int).len() == 0);
        assert(spec_pp_weekend(lv.skip(lv.len() as int), tv.skip(lv.len() as int), dv.skip(
            lv.len() as int,
        ), curr_dt as int, pad_session as int, line_width as int) =~= Seq::<char>::empty());
    }
}

impl NormalWeekend {
    /// What the five session lines of this weekend show.
    pub open spec fn spec_pp_normal(
        &self,
        line_width: int,
        curr: int,
        dts: Seq<Seq<char>>,
    ) -> Seq<char> {
        spec_pp_weekend(
            spec_normal_labels(),
            seq![self.fp1, self.fp2, self.fp3, self.qualifying, self.gp],
            dts,
            curr,
            5,
            line_width,
        )
    }

    /// Appends this weekend's five session lines, in the fixed order first
    /// practice, second practice, third practice, qualifying, race, each
    /// marked past or upcoming against the current time.
    pub fn pp_normal(
        &self,
        output: &mut String,
        line_width: usize,
        curr_dt: i64,
        dts: &Vec<String>,
    ) -> (r: Result<(), Error>)
        requires
            dts@.len() == 5,
        ensures
            r is Ok,
            final(output)@ == old(output)@ + self.spec_pp_normal(
                line_width as int,
                curr_dt as int,
                dts@.map_values(|d: String| d@),
            ),
    {
        let mut labels: Vec<&'static str> = Vec::new();
        labels.push("FP 1");
        labels.push("FP 2");
        labels.push("FP 3");
        labels.push("Quali");
        labels.push("Race");
        let mut times: Vec<i64> = Vec::new();
        times.push(self.fp1);
        times.push(self.fp2);
        times.push(self.fp3);
        times.push(self.qualifying);
        times.push(self.gp);
        proof {
            assert(labels@.map_values(|l: &'static str| l@) =~= spec_normal_labels());
            assert(times@ =~= seq![self.fp1, self.fp2, self.fp3, self.qualifying, self.gp]);
        }
        pp_weekend_lines(&labels, &times, dts, curr_dt, 5, line_width, output);
        Ok(())
    }

    /// The countdown to this weekend's next session.
    pub fn pp_until_next_normal(&self, curr_dt: i64) -> (r: String)
        ensures
            r@ == spec_time_until_next_session(
                seq![self.fp1, self.fp2, self.fp3, self.qualifying, self.gp],
                curr_dt as int,
            ),
    {
        let mut times: Vec<i64> = Vec::new();
        times.push(self.fp1);
        times.push(self.fp2);
        times.push(self.fp3);
        times.push(self.qualifying);
        times.push(self.gp);
        proof {
            assert(times@ =~= seq![self.fp1, self.fp2, self.fp3, self.qualifying, self.gp]);
        }
        time_until_next_session(&times, curr_dt)
    }
}

impl SprintWeekend {
    /// What the five session lines of this weekend show.
    pub open spec fn spec_pp_sprint(
        &self,
        line_width: int,
        curr: int,
        dts: Seq<Seq<char>>,
    ) -> Seq<char> {
        spec_pp_weekend(
            spec_sprint_labels(),
            seq![self.fp1, self.sprint_qualifying, self.sprint, self.qualifying, self.gp],
            dts,
            curr,
            9,
            line_width,
        )
    }

    /// Appends this weekend's five session lines, in the fixed order first
    /// practice, sprint qualifying, sprint, qualifying, race, each marked
    /// past or upcoming against the current time.
    pub fn pp_sprint(
        &self,
        output: &mut String,
        line_width: usize,
        curr_dt: i64,
        dts: &Vec<String>,
    ) -> (r: Result<(), Error>)
        requires
            dts@.len() == 5,
        ensures
            r is Ok,
            final(output)@ == old(output)@ + self.spec_pp_sprint(
                line_width as int,
                curr_dt as int,
                dts@.map_values(|d: String| d@),
            ),
    {
        let mut labels: Vec<&'static str> = Vec::new();
        labels.push("FP 1");
        labels.push("Spr Quali");
        labels.push("Sprint");
        labels.push("Quali");
        labels.push("Race");
        let mut times: Vec<i64> = Vec::new();
        times.push(self.fp1);
        times.push(self.sprint_qualifying);
        times.push(self.sprint);
        times.push(self.qualifying);
        times.push(self.gp);
        proof {
            assert(labels@.map_values(|l: &'static str| l@) =~= spec_sprint_labels());
            assert(times@ =~= seq![self.fp1, self.sprint_qualifying, self.sprint, self.qualifying,
                self.gp]);
        }
        pp_weekend_lines(&labels, &times, dts, curr_dt, 9, line_width, output);
        Ok(())
    }

    /// The countdown to this weekend's next session.
    pub fn pp_until_next_sprint(&self, curr_dt: i64) -> (r: String)
        ensures
            r@ == spec_time_until_next_session(
                seq![self.fp1, self.sprint_qualifying, self.sprint, self.qualifying, self.gp],
                curr_dt as int,
            ),
    {
        let mut times: Vec<i64> = Vec::new();
        times.push(self.fp1);
        times.push(self.sprint_qualifying);
        times.push(self.sprint);
        times.push(self.qualifying);
        times.push(self.gp);
        proof {
            assert(times@ =~= seq![self.fp1, self.sprint_qualifying, self.sprint, self.qualifying,
                self.gp]);
        }
        time_until_next_session(&times, curr_dt)
    }
}

impl Sessions {
    /// What this weekend's session lines show, by its format.
    pub open spec fn spec_pp_sessions(
        &self,
        line_width: int,
        curr: int,
        dts: Seq<Seq<char>>,
    ) -> Seq<char> {
        match self {
            Sessions::Normal(w) => w.spec_pp_normal(line_width, curr, dts),
            Sessions::Sprint(w) => w.spec_pp_sprint(line_width, curr, dts),
        }
    }

    /// The countdown to this weekend's next session.
    pub fn pp_time_until_next_session(&self, curr_dt: i64) -> (r: String)
        ensures
            r@ == spec_time_until_next_session(self.spec_session_times(), curr_dt as int),
    {
        match self {
            Sessions::Normal(w) => w.pp_until_next_normal(curr_dt),
            Sessions::Sprint(w) => w.pp_until_next_sprint(curr_dt),
        }
    }

    /// Appends this weekend's session lines, by its format.
    pub fn pp_sessions(
        &self,
        output: &mut String,
        line_width: usize,
        curr_dt: i64,
        dts: &Vec<String>,
    ) -> (r: Result<(), Error>)
        requires
            dts@.len() == 5,
        ensures
            r is Ok,
            final(output)@ == old(output)@ + self.spec_pp_sessions(
                line_width as int,
                curr_dt as int,
                dts@.map_values(|d: String| d@),
            ),
    {
        match self {
            Sessions::Normal(w) => w.pp_normal(output, line_width, curr_dt, dts),
            Sessions::Sprint(w) => w.pp_sprint(output, line_width, curr_dt, dts),
        }
    }
}

/// One Grand Prix weekend: its name, where it runs, and its session plan.
#[derive(Debug, Clone, PartialEq, Eq)]
pub struct GrandPrix {
    name: String,
    location: String,
    sessions: Sessions,
}

/// The mathematical shape of a [`GrandPrix`].
pub struct GrandPrixV {
    pub name: Seq<char>,
    pub location: Seq<char>,
    pub sessions: Sessions,
}

impl View for GrandPrix {
    type V = GrandPrixV;

    closed spec fn view(&self) -> GrandPrixV {
        GrandPrixV { name: self.name@, location: self.location@, sessions: self.sessions }
    }
}

/// The headline of a Grand Prix: its name and its location.
pub open spec fn spec_race_name(g: GrandPrixV) -> Seq<char> {
    g.name + " Grand Prix / "@ + g.location
}

/// What a race title line shows: completed, this weekend, or pending,
/// then the round and the headline.
pub open spec fn spec_pp_race_title(g: GrandPrixV, curr: int, round: int) -> Seq<char> {
    let start = g.sessions.spec_gp_start();
    let mark = if curr > start {
        "[x]"@
    } else if (start - curr) / 86400 < 7 {
        "[->"@
    } else {
        "[ ]"@
    };
    mark + "  "@ + spec_pad_left(spec_render_usize(round), 2) + ". "@ + spec_race_name(g) + seq![
        '\n',
    ]
}

impl GrandPrix {
    /// Builds a Grand Prix weekend record.
    pub fn new(name: String, location: String, sessions: Sessions) -> (r: GrandPrix)
        ensures
            r@.name == name@,
            r@.location == location@,
            r@.sessions == sessions,
    {
        GrandPrix { name, location, sessions }
    }

    /// The Grand Prix name.
    pub fn name(&self) -> (r: &String)
        ensures
            r@ == self@.name,
    {
        &self.name
    }

    /// Where the Grand Prix runs.
    pub fn location(&self) -> (r: &String)
        ensures
            r@ == self@.location,
    {
        &self.location
    }

    /// The weekend's session plan.
    pub fn sessions(&self) -> (r: &Sessions)
        ensures
            *r == self@.sessions,
    {
        &self.sessions
    }

    /// When the main race of this weekend starts.
    pub fn gp_start_dt(&self) -> (r: i64)
        ensures
            r as int == self@.sessions.spec_gp_start(),
    {
        self.sessions.gp_start_dt()
    }

    /// Appends this weekend's one-line title, marked by how near it is.
    pub fn pp_race_title(&self, output: &mut String, curr_dt: i64, round: usize) -> (r: Result<
        (),
        Error,
    >)
        ensures
            r is Ok,
            final(output)@ == old(output)@ + spec_pp_race_title(self@, curr_dt as int,
                round as int),
    {
        let start = self.sessions.gp_start_dt();
        let ghost pre = output@;
        if curr_dt > start {
            output.append("[x]");
        } else {
            let diff: u64 = ((start as i128) - (curr_dt as i128)) as u64;
            proof {
                assert(diff as int == start as int - curr_dt as int);
            }
            if diff / 86400 < 7 {
                output.append("[->");
            } else {
                output.append("[ ]");
            }
        }
        output.append("  ");
        let mut num = String::new();
        render_usize(round, &mut num);
        append_pad_left(num.as_str(), 2, output);
        output.append(". ");
        output.append(self.name.as_str());
        output.append(" Grand Prix / ");
        output.append(self.location.as_str());
        push_char(output, '\n');
        proof {
            assert(output@ =~= pre + spec_pp_race_title(self@, curr_dt as int, round as int));
        }
        Ok(())
    }

    /// What the full schedule box of this weekend shows.
    pub open spec fn spec_pp_race_schedule(
        g: GrandPrixV,
        curr: int,
        dts: Seq<Seq<char>>,
    ) -> Seq<char> {
        let name = spec_race_name(g);
        let width = if name.len() < 38 {
            38int
        } else {
            name.len() as int
        };
        let border = seq!['+'] + spec_repeat('-', width + 2) + seq!['+', '\n'];
        let title = "| "@ + spec_center(name, width) + " |\n"@;
        let until = spec_time_until_next_session(g.sessions.spec_session_times(), curr);
        border + title + border + g.sessions.spec_pp_sessions(width, curr, dts) + border + (
        if until.len() == 0 {
            Seq::empty()
        } else {
            until + seq!['\n']
        })
    }

    /// Appends the full schedule box of this weekend: the framed title,
    /// the session lines in running order, and the countdown to the next
    /// session if one is still to come.
    #[verifier::rlimit(100)]
    pub fn pp_race_schedule(&self, output: &mut String, curr_dt: i64, dts: &Vec<String>) -> (r:
        Result<(), Error>)
        requires
            dts@.len() == 5,
            spec_race_name(self@).len() + 2 <= usize::MAX,
        ensures
            r is Ok,
            final(output)@ == old(output)@ + GrandPrix::spec_pp_race_schedule(
                self@,
                curr_dt as int,
                dts@.map_values(|d: String| d@),
            ),
    {
        let mut name = self.name.clone();
        name.append(" Grand Prix / ");
        name.append(self.location.as_str());
        proof {
            assert(name@ =~= spec_race_name(self@));
        }
        let name_len: usize = name.as_str().unicode_len();
        let width: usize = if name_len < 38 {
            38
        } else {
            name_len
        };
        let mut border = String::new();
        push_char(&mut border, '+');
        append_repeat('-', width + 2, &mut border);
        push_char(&mut border, '+');
        push_char(&mut border, '\n');
        proof {
            assert(border@ =~= seq!['+'] + spec_repeat('-', width + 2) + seq!['+', '\n']);
        }
        let ghost pre = output@;
        output.append(border.as_str());
        output.append("| ");
        append_center(name.as_str(), width, output);
        output.append(" |\n");
        output.append(border.as_str());
        proof {
            assert(output@ =~= pre + (border@ + ("| "@ + spec_center(name@, width as int)
                + " |\n"@) + border@));
        }
        let ghost mid = output@;
        let _ = self.sessions.pp_sessions(output, width, curr_dt, dts);
        output.append(border.as_str());
        let ghost mid2 = output@;
        let until = self.sessions.pp_time_until_next_session(curr_dt);
        if until.as_str().unicode_len() > 0 {
            output.append(until.as_str());
            push_char(output, '\n');
            proof {
                assert(output@ =~= mid2 + (until@ + seq!['\n']));
            }
        }
        proof {
            assert(output@ =~= pre + GrandPrix::spec_pp_race_schedule(self@, curr_dt as int,
                dts@.map_values(|d: String| d@)));
        }
        Ok(())
    }
}

/// A season's calendar: its Grand Prix weekends in running order.
#[derive(Debug, Clone, PartialEq, Eq)]
pub struct Schedule {
    races: Vec<GrandPrix>,
}

/// The mathematical shape of a [`Schedule`].
pub struct ScheduleV {
    pub races: Seq<GrandPrixV>,
}

/// The views of a sequence of Grand Prix weekends.
pub open spec fn gps_view(v: Seq<GrandPrix>) -> Seq<GrandPrixV> {
    v.map_values(|g: GrandPrix| g@)
}

impl View for Schedule {
    type V = ScheduleV;

    closed spec fn view(&self) -> ScheduleV {
        ScheduleV { races: gps_view(self.races@) }
    }
}

impl Schedule {
    /// Builds a schedule from its weekends.
    pub fn new(races: Vec<GrandPrix>) -> (r: Schedule)
        ensures
            r@.races == gps_view(races@),
    {
        Schedule { races }
    }

    /// The weekends of the season, in running order.
    pub fn race_schedule(&self) -> (r: &Vec<GrandPrix>)
        ensures
            gps_view(r@) == self@.races,
    {
        &self.races
    }

    /// The name of the schedule cache file.
    pub fn cache_file_name() -> (r: String)
        ensures
            r@ == "2024_schedule.json"@,
    {
        "2024_schedule.json".to_owned()
    }

    /// The address of the season's schedule document.
    pub fn resource_url() -> (r: String)
        ensures
            r@ == "https://raw.githubusercontent.com/sportstimes/f1/main/_db/f1/2024.json"@,
    {
        "https://raw.githubusercontent.com/sportstimes/f1/main/_db/f1/2024.json".to_owned()
    }
}


/// Which Unix epoch second a feed timestamp denotes, if it is well formed:
/// a function of the text alone.
pub uninterp spec fn epoch_of(s: Seq<char>) -> Option<i64>;

/// Relies on chrono's `DateTime::parse_from_rfc3339` and
/// `DateTime::timestamp`: whether a timestamp text is a well-formed
/// RFC 3339 date-time, and which Unix epoch second it denotes, depend on
/// the text alone.
#[verifier::external_body]
fn rfc3339_epoch(s: &str) -> (r: Option<i64>)
    ensures
        r == epoch_of(s@),
{
    match chrono::DateTime::parse_from_rfc3339(s) {
        Ok(d) => Some(d.timestamp()),
        Err(_) => None,
    }
}

/// The epoch of the session stored under `key` as a feed timestamp text.
pub open spec fn spec_session_epoch(fields: Seq<(Seq<char>, JsonV)>, key: Seq<char>) -> Option<
    i64,
> {
    match spec_lookup(fields, key) {
        Some(JsonV::Str(t)) => epoch_of(t),
        _ => None,
    }
}

fn session_epoch(fields: &Vec<(String, Json)>, key: &str) -> (r: Option<i64>)
    ensures
        r == spec_session_epoch(jfields_view(fields@), key@),
{
    match lookup(fields, key) {
        Some(Json::Str(t)) => rfc3339_epoch(t.as_str()),
        _ => None,
    }
}

/// What a sessions object of the feed decodes to. The conventional field
/// set is tried first, then the sprint field set; a weekend matching
/// neither is rejected.
pub open spec fn spec_sessions_from_feed(j: JsonV) -> Option<Sessions> {
    match j {
        JsonV::Obj(fields) => match (
            spec_session_epoch(fields, "fp1"@),
            spec_session_epoch(fields, "fp2"@),
            spec_session_epoch(fields, "fp3"@),
            spec_session_epoch(fields, "qualifying"@),
            spec_session_epoch(fields, "gp"@),
        ) {
            (Some(fp1), Some(fp2), Some(fp3), Some(qualifying), Some(gp)) => Some(
                Sessions::Normal(NormalWeekend { fp1, fp2, fp3, qualifying, gp }),
            ),
            _ => match (
                spec_session_epoch(fields, "fp1"@),
                spec_session_epoch(fields, "sprintQualifying"@),
                spec_session_epoch(fields, "sprint"@),
                spec_session_epoch(fields, "qualifying"@),
                spec_session_epoch(fields, "gp"@),
            ) {
                (Some(fp1), Some(sprint_qualifying), Some(sprint), Some(qualifying), Some(gp)) => {
                    Some(
                        Sessions::Sprint(
                            SprintWeekend { fp1, sprint_qualifying, sprint, qualifying, gp },
                        ),
                    )
                },
                _ => None,
            },
        },
        _ => None,
    }
}

fn sessions_from_feed(j: &Json) -> (r: Option<Sessions>)
    ensures
        r == spec_sessions_from_feed(json_view(*j)),
{
    match j {
        Json::Obj(fields) => {
            let fp1 = session_epoch(fields, "fp1");
            let fp2 = session_epoch(fields, "fp2");
            let fp3 = session_epoch(fields, "fp3");
            let qualifying = session_epoch(fields, "qualifying");
            let gp = session_epoch(fields, "gp");
            match (fp1, fp2, fp3, qualifying, gp) {
                (Some(fp1), Some(fp2), Some(fp3), Some(qualifying), Some(gp)) => Some(
                    Sessions::Normal(NormalWeekend { fp1, fp2, fp3, qualifying, gp }),
                ),
                _ => {
                    let sprint_qualifying = session_epoch(fields, "sprintQualifying");
                    let sprint = session_epoch(fields, "sprint");
                    match (fp1, sprint_qualifying, sprint, qualifying, gp) {
                        (
                            Some(fp1),
                            Some(sprint_qualifying),
                            Some(sprint),
                            Some(qualifying),
                            Some(gp),
                        ) => Some(
                            Sessions::Sprint(
                                SprintWeekend { fp1, sprint_qualifying, sprint, qualifying, gp },
                            ),
                        ),
                        _ => None,
                    }
                },
            }
        },
        _ => None,
    }
}

/// What one weekend object of the feed decodes to.
pub open spec fn spec_gp_from_feed(j: JsonV) -> Option<GrandPrixV> {
    match j {
        JsonV::Obj(fields) => match spec_lookup(fields, "name"@) {
            Some(JsonV::Str(name)) => match spec_lookup(fields, "location"@) {
                Some(JsonV::Str(location)) => match spec_lookup(fields, "sessions"@) {
                    Some(sj) => match spec_sessions_from_feed(sj) {
                        Some(sessions) => Some(GrandPrixV { name, location, sessions }),
                        None => None,
                    },
                    None => None,
                },
                _ => None,
            },
            _ => None,
        },
        _ => None,
    }
}

fn gp_from_feed(j: &Json) -> (r: Option<GrandPrix>)
    ensures
        (match r {
            Some(g) => Some(g@),
            None => None,
        }) == spec_gp_from_feed(json_view(*j)),
{
    match j {
        Json::Obj(fields) => {
            let name = match lookup(fields, "name") {
                Some(Json::Str(name)) => name.clone(),
                _ => {
                    return None;
                },
            };
            let location = match lookup(fields, "location") {
                Some(Json::Str(location)) => location.clone(),
                _ => {
                    return None;
                },
            };
            match lookup(fields, "sessions") {
                Some(sj) => match sessions_from_feed(sj) {
                    Some(sessions) => Some(GrandPrix::new(name, location, sessions)),
                    None => None,
                },
                None => None,
            }
        },
        _ => None,
    }
}

/// What the weekends of the feed's race array decode to, all or nothing.
pub open spec fn spec_gps_from_items(items: Seq<JsonV>) -> Option<Seq<GrandPrixV>>
    decreases items.len(),
{
    if items.len() == 0 {
        Some(Seq::empty())
    } else {
        match spec_gp_from_feed(items[0]) {
            None => None,
            Some(g) => match spec_gps_from_items(items.drop_first()) {
                None => None,
                Some(acc) => Some(seq![g] + acc),
            },
        }
    }
}

/// What a whole feed document decodes to: the race array of its root
/// object, every weekend well formed.
pub open spec fn spec_schedule_from_feed(j: JsonV) -> Option<ScheduleV> {
    match j {
        JsonV::Obj(fields) => match spec_lookup(fields, "races"@) {
            Some(JsonV::Arr(items)) => match spec_gps_from_items(items) {
                Some(races) => Some(ScheduleV { races }),
                None => None,
            },
            _ => None,
        },
        _ => None,
    }
}

/// What processing a fetched schedule document yields.
pub open spec fn spec_process_schedule(s: Seq<char>) -> Result<ScheduleV, Error> {
    match spec_parse_json(s) {
        None => Err(Error::Decode),
        Some(j) => match spec_schedule_from_feed(j) {
            None => Err(Error::Decode),
            Some(v) => Ok(v),
        },
    }
}

impl Schedule {
    /// Parses a fetched schedule document into the season's calendar.
    #[verifier::loop_isolation(false)]
    pub fn process_data(raw_data: &str) -> (r: Result<Schedule, Error>)
        ensures
            (match r {
                Ok(v) => Ok(v@),
                Err(e) => Err(e),
            }) == spec_process_schedule(raw_data@),
    {
        let j = match parse_json(raw_data) {
            Err(_) => {
                return Err(Error::Decode);
            },
            Ok(j) => j,
        };
        match &j {
            Json::Obj(fields) => match lookup(fields, "races") {
                Some(races_j) => match races_j {
                    Json::Arr(items) => {
                        proof {
                            lemma_jsons_view_index(items@);
                        }
                        let ghost iv = jsons_view(items@);
                        let mut out: Vec<GrandPrix> = Vec::new();
                        proof {
                            assert(iv.skip(0) =~= iv);
                            assert(gps_view(out@) =~= Seq::<GrandPrixV>::empty());
                        }
                        let mut i: usize = 0;
                        while i < items.len()
                            invariant
                                0 <= i <= items@.len(),
                                (match spec_gps_from_items(iv.skip(i as int)) {
                                    Some(rest) => Some(gps_view(out@) + rest),
                                    None => None,
                                }) == spec_gps_from_items(iv),
                            decreases items@.len() - i,
                        {
                            proof {
                                assert(iv.skip(i as int)[0] == iv[i as int]);
                                assert(iv.skip(i as int).drop_first() =~= iv.skip(i + 1));
                            }
                            match gp_from_feed(&items[i]) {
                                None => {
                                    proof {
                                        assert(spec_gp_from_feed(iv[i as int]) is None);
                                        assert(spec_gps_from_items(iv.skip(i as int)) is None);
                                    }
                                    return Err(Error::Decode);
                                },
                                Some(g) => {
                                    let ghost pv = gps_view(out@);
                                    out.push(g);
                                    proof {
                                        assert(gps_view(out@) =~= pv.push(g@));
                                        match spec_gps_from_items(iv.skip(i + 1)) {
                                            Some(rest) => {
                                                assert(gps_view(out@) + rest =~= pv + (seq![g@]
                                                    + rest));
                                            },
                                            None => {},
                                        }
                                    }
                                },
                            }
                            i = i + 1;
                        }
                        proof {
                            assert(iv.skip(items@.len() as int) =~= Seq::<JsonV>::empty());
                            assert(gps_view(out@) + Seq::<GrandPrixV>::empty() =~= gps_view(out@));
                        }
                        Ok(Schedule::new(out))
                    },
                    _ => Err(Error::Decode),
                },
                None => Err(Error::Decode),
            },
            _ => Err(Error::Decode),
        }
    }
}

/// A weekend's session plan in cache form: its five epochs under the keys
/// of its format.
pub open spec fn spec_encode_sessions(ss: Sessions) -> Seq<char> {
    match ss {
        Sessions::Normal(w) => seq!['{'] + spec_quoted("fp1"@) + seq![':'] + spec_render_i64(
            w.fp1 as int,
        ) + seq![','] + spec_quoted("fp2"@) + seq![':'] + spec_render_i64(w.fp2 as int) + seq![',']
            + spec_quoted("fp3"@) + seq![':'] + spec_render_i64(w.fp3 as int) + seq![',']
            + spec_quoted("qualifying"@) + seq![':'] + spec_render_i64(w.qualifying as int)
            + seq![','] + spec_quoted("gp"@) + seq![':'] + spec_render_i64(w.gp as int)
            + seq!['}'],
        Sessions::Sprint(w) => seq!['{'] + spec_quoted("fp1"@) + seq![':'] + spec_render_i64(
            w.fp1 as int,
        ) + seq![','] + spec_quoted("sprintQualifying"@) + seq![':'] + spec_render_i64(
            w.sprint_qualifying as int,
        ) + seq![','] + spec_quoted("sprint"@) + seq![':'] + spec_render_i64(w.sprint as int)
            + seq![','] + spec_quoted("qualifying"@) + seq![':'] + spec_render_i64(
            w.qualifying as int,
        ) + seq![','] + spec_quoted("gp"@) + seq![':'] + spec_render_i64(w.gp as int) + seq!['}'],
    }
}

#[verifier::rlimit(100)]
fn append_sessions(ss: &Sessions, out: &mut String)
    ensures
        final(out)@ == old(out)@ + spec_encode_sessions(*ss),
{
    let ghost pre = out@;
    match ss {
        Sessions::Normal(w) => {
            push_char(out, '{');
            append_quoted("fp1", out);
            push_char(out, ':');
            render_i64(w.fp1, out);
            push_char(out, ',');
            append_quoted("fp2", out);
            push_char(out, ':');
            render_i64(w.fp2, out);
            push_char(out, ',');
            append_quoted("fp3", out);
            push_char(out, ':');
            render_i64(w.fp3, out);
            push_char(out, ',');
            append_quoted("qualifying", out);
            push_char(out, ':');
            render_i64(w.qualifying, out);
            push_char(out, ',');
            append_quoted("gp", out);
            push_char(out, ':');
            render_i64(w.gp, out);
            push_char(out, '}');
            proof {
                assert(out@ =~= pre + spec_encode_sessions(*ss));
            }
        },
        Sessions::Sprint(w) => {
            push_char(out, '{');
            append_quoted("fp1", out);
            push_char(out, ':');
            render_i64(w.fp1, out);
            push_char(out, ',');
            append_quoted("sprintQualifying", out);
            push_char(out, ':');
            render_i64(w.sprint_qualifying, out);
            push_char(out, ',');
            append_quoted("sprint", out);
            push_char(out, ':');
            render_i64(w.sprint, out);
            push_char(out, ',');
            append_quoted("qualifying", out);
            push_char(out, ':');
            render_i64(w.qualifying, out);
            push_char(out, ',');
            append_quoted("gp", out);
            push_char(out, ':');
            render_i64(w.gp, out);
            push_char(out, '}');
            proof {
                assert(out@ =~= pre + spec_encode_sessions(*ss));
            }
        },
    }
}

/// One weekend in cache form.
pub open spec fn spec_encode_gp(g: GrandPrixV) -> Seq<char> {
    seq!['{'] + spec_quoted("name"@) + seq![':'] + spec_quoted(g.name) + seq![','] + spec_quoted(
        "location"@,
    ) + seq![':'] + spec_quoted(g.location) + seq![','] + spec_quoted("sessions"@) + seq![':']
        + spec_encode_sessions(g.sessions) + seq!['}']
}

fn append_gp(g: &GrandPrix, out: &mut String)
    ensures
        final(out)@ == old(out)@ + spec_encode_gp(g@),
{
    let ghost pre = out@;
    push_char(out, '{');
    append_quoted("name", out);
    push_char(out, ':');
    append_quoted(g.name().as_str(), out);
    push_char(out, ',');
    append_quoted("location", out);
    push_char(out, ':');
    append_quoted(g.location().as_str(), out);
    push_char(out, ',');
    append_quoted("sessions", out);
    push_char(out, ':');
    append_sessions(g.sessions(), out);
    push_char(out, '}');
    proof {
        assert(out@ =~= pre + spec_encode_gp(g@));
    }
}

/// The weekends of a schedule in cache form, comma-separated.
pub open spec fn spec_enc_gp_items(v: Seq<GrandPrixV>) -> Seq<char>
    decreases v.len(),
{
    if v.len() == 0 {
        Seq::empty()
    } else if v.len() == 1 {
        spec_encode_gp(v[0])
    } else {
        spec_encode_gp(v[0]) + seq![','] + spec_enc_gp_items(v.drop_first())
    }
}

/// A schedule in cache form: one object holding the race array.
pub open spec fn spec_encode_schedule(s: ScheduleV) -> Seq<char> {
    seq!['{'] + spec_quoted("races"@) + seq![':'] + seq!['['] + spec_enc_gp_items(s.races)
        + seq![']'] + seq!['}']
}

/// Writes a schedule in cache form.
pub fn encode_schedule(s: &Schedule) -> (r: String)
    ensures
        r@ == spec_encode_schedule(s@),
{
    let ghost vv = s@.races;
    let mut out = String::new();
    push_char(&mut out, '{');
    append_quoted("races", &mut out);
    push_char(&mut out, ':');
    push_char(&mut out, '[');
    let races = s.race_schedule();
    let ghost mid = out@;
    proof {
        assert(vv.skip(0) =~= vv);
        assert(vv == gps_view(races@));
    }
    let mut i: usize = 0;
    while i < races.len()
        invariant
            0 <= i <= races@.len(),
            vv == gps_view(races@),
            vv.len() == races@.len(),
            out@ + spec_enc_gp_items(vv.skip(i as int)) == mid + spec_enc_gp_items(vv),
        decreases races@.len() - i,
    {
        let ghost pre = out@;
        append_gp(&races[i], &mut out);
        proof {
            assert(vv.skip(i as int)[0] == vv[i as int]);
            assert(vv[i as int] == races@[i as int]@);
            assert(vv.skip(i as int).drop_first() =~= vv.skip(i + 1));
        }
        if i + 1 < races.len() {
            push_char(&mut out, ',');
            proof {
                assert(vv.skip(i as int).len() > 1);
                assert(out@ + spec_enc_gp_items(vv.skip(i + 1)) =~= pre + spec_enc_gp_items(
                    vv.skip(i as int),
                ));
            }
        } else {
            proof {
                assert(vv.skip(i as int).len() == 1);
                assert(spec_enc_gp_items(vv.skip(i + 1)) =~= Seq::<char>::empty());
                assert(out@ + spec_enc_gp_items(vv.skip(i + 1)) =~= pre + spec_enc_gp_items(
                    vv.skip(i as int),
                ));
            }
        }
        i = i + 1;
    }
    proof {
        assert(spec_enc_gp_items(vv.skip(races@.len() as int)) =~= Seq::<char>::empty());
        assert(out@ =~= mid + spec_enc_gp_items(vv));
    }
    push_char(&mut out, ']');
    push_char(&mut out, '}');
    proof {
        assert(out@ =~= spec_encode_schedule(s@));
    }
    out
}

/// The epoch of the session stored under `key` as a cache number.
pub open spec fn spec_cached_session(fields: Seq<(Seq<char>, JsonV)>, key: Seq<char>) -> Option<
    i64,
> {
    match spec_lookup(fields, key) {
        Some(JsonV::Num(t)) => spec_parse_i64(t),
        _ => None,
    }
}

fn cached_session(fields: &Vec<(String, Json)>, key: &str) -> (r: Option<i64>)
    ensures
        r == spec_cached_session(jfields_view(fields@), key@),
{
    match lookup(fields, key) {
        Some(Json::Num(t)) => parse_i64(t.as_str()),
        _ => None,
    }
}

/// What a cached sessions object decodes to, the conventional field set
/// first.
pub open spec fn spec_sessions_from_cache(j: JsonV) -> Option<Sessions> {
    match j {
        JsonV::Obj(fields) => match (
            spec_cached_session(fields, "fp1"@),
            spec_cached_session(fields, "fp2"@),
            spec_cached_session(fields, "fp3"@),
            spec_cached_session(fields, "qualifying"@),
            spec_cached_session(fields, "gp"@),
        ) {
            (Some(fp1), Some(fp2), Some(fp3), Some(qualifying), Some(gp)) => Some(
                Sessions::Normal(NormalWeekend { fp1, fp2, fp3, qualifying, gp }),
            ),
            _ => match (
                spec_cached_session(fields, "fp1"@),
                spec_cached_session(fields, "sprintQualifying"@),
                spec_cached_session(fields, "sprint"@),
                spec_cached_session(fields, "qualifying"@),
                spec_cached_session(fields, "gp"@),
            ) {
                (Some(fp1), Some(sprint_qualifying), Some(sprint), Some(qualifying), Some(gp)) => {
                    Some(
                        Sessions::Sprint(
                            SprintWeekend { fp1, sprint_qualifying, sprint, qualifying, gp },
                        ),
                    )
                },
                _ => None,
            },
        },
        _ => None,
    }
}

fn sessions_from_cache(j: &Json) -> (r: Option<Sessions>)
    ensures
        r == spec_sessions_from_cache(json_view(*j)),
{
    match j {
        Json::Obj(fields) => {
            let fp1 = cached_session(fields, "fp1");
            let fp2 = cached_session(fields, "fp2");
            let fp3 = cached_session(fields, "fp3");
            let qualifying = cached_session(fields, "qualifying");
            let gp = cached_session(fields, "gp");
            match (fp1, fp2, fp3, qualifying, gp) {
                (Some(fp1), Some(fp2), Some(fp3), Some(qualifying), Some(gp)) => Some(
                    Sessions::Normal(NormalWeekend { fp1, fp2, fp3, qualifying, gp }),
                ),
                _ => {
                    let sprint_qualifying = cached_session(fields, "sprintQualifying");
                    let sprint = cached_session(fields, "sprint");
                    match (fp1, sprint_qualifying, sprint, qualifying, gp) {
                        (
                            Some(fp1),
                            Some(sprint_qualifying),
                            Some(sprint),
                            Some(qualifying),
                            Some(gp),
                        ) => Some(
                            Sessions::Sprint(
                                SprintWeekend { fp1, sprint_qualifying, sprint, qualifying, gp },
                            ),
                        ),
                        _ => None,
                    }
                },
            }
        },
        _ => None,
    }
}

/// What one cached weekend object decodes to.
pub open spec fn spec_gp_from_cache(j: JsonV) -> Option<GrandPrixV> {
    match j {
        JsonV::Obj(fields) => match spec_lookup(fields, "name"@) {
            Some(JsonV::Str(name)) => match spec_lookup(fields, "location"@) {
                Some(JsonV::Str(location)) => match spec_lookup(fields, "sessions"@) {
                    Some(sj) => match spec_sessions_from_cache(sj) {
                        Some(sessions) => Some(GrandPrixV { name, location, sessions }),
                        None => None,
                    },
                    None => None,
                },
                _ => None,
            },
            _ => None,
        },
        _ => None,
    }
}

fn gp_from_cache(j: &Json) -> (r: Option<GrandPrix>)
    ensures
        (match r {
            Some(g) => Some(g@),
            None => None,
        }) == spec_gp_from_cache(json_view(*j)),
{
    match j {
        Json::Obj(fields) => {
            let name = match lookup(fields, "name") {
                Some(Json::Str(name)) => name.clone(),
                _ => {
                    return None;
                },
            };
            let location = match lookup(fields, "location") {
                Some(Json::Str(location)) => location.clone(),
                _ => {
                    return None;
                },
            };
            match lookup(fields, "sessions") {
                Some(sj) => match sessions_from_cache(sj) {
                    Some(sessions) => Some(GrandPrix::new(name, location, sessions)),
                    None => None,
                },
                None => None,
            }
        },
        _ => None,
    }
}

/// What the weekends of a cached race array decode to, all or nothing.
pub open spec fn spec_gps_from_cache_items(items: Seq<JsonV>) -> Option<Seq<GrandPrixV>>
    decreases items.len(),
{
    if items.len() == 0 {
        Some(Seq::empty())
    } else {
        match spec_gp_from_cache(items[0]) {
            None => None,
            Some(g) => match spec_gps_from_cache_items(items.drop_first()) {
                None => None,
                Some(acc) => Some(seq![g] + acc),
            },
        }
    }
}

/// What reading a schedule cache file yields.
pub open spec fn spec_decode_schedule(s: Seq<char>) -> Result<ScheduleV, Error> {
    match spec_parse_json(s) {
        None => Err(Error::Decode),
        Some(j) => match j {
            JsonV::Obj(fields) => match spec_lookup(fields, "races"@) {
                Some(JsonV::Arr(items)) => match spec_gps_from_cache_items(items) {
                    Some(races) => Ok(ScheduleV { races }),
                    None => Err(Error::Decode),
                },
                _ => Err(Error::Decode),
            },
            _ => Err(Error::Decode),
        },
    }
}

/// Reads a schedule back from cache text.
#[verifier::loop_isolation(false)]
pub fn decode_schedule(s: &str) -> (r: Result<Schedule, Error>)
    ensures
        (match r {
            Ok(v) => Ok(v@),
            Err(e) => Err(e),
        }) == spec_decode_schedule(s@),
{
    let j = match parse_json(s) {
        Err(_) => {
            return Err(Error::Decode);
        },
        Ok(j) => j,
    };
    match &j {
        Json::Obj(fields) => match lookup(fields, "races") {
            Some(races_j) => match races_j {
                Json::Arr(items) => {
                    proof {
                        lemma_jsons_view_index(items@);
                    }
                    let ghost iv = jsons_view(items@);
                    let mut out: Vec<GrandPrix> = Vec::new();
                    proof {
                        assert(iv.skip(0) =~= iv);
                        assert(gps_view(out@) =~= Seq::<GrandPrixV>::empty());
                    }
                    let mut i: usize = 0;
                    while i < items.len()
                        invariant
                            0 <= i <= items@.len(),
                            (match spec_gps_from_cache_items(iv.skip(i as int)) {
                                Some(rest) => Some(gps_view(out@) + rest),
                                None => None,
                            }) == spec_gps_from_cache_items(iv),
                        decreases items@.len() - i,
                    {
                        proof {
                            assert(iv.skip(i as int)[0] == iv[i as int]);
                            assert(iv.skip(i as int).drop_first() =~= iv.skip(i + 1));
                        }
                        match gp_from_cache(&items[i]) {
                            None => {
                                proof {
                                    assert(spec_gp_from_cache(iv[i as int]) is None);
                                    assert(spec_gps_from_cache_items(iv.skip(i as int)) is None);
                                }
                                return Err(Error::Decode);
                            },
                            Some(g) => {
                                let ghost pv = gps_view(out@);
                                out.push(g);
                                proof {
                                    assert(gps_view(out@) =~= pv.push(g@));
                                    match spec_gps_from_cache_items(iv.skip(i + 1)) {
                                        Some(rest) => {
                                            assert(gps_view(out@) + rest =~= pv + (seq![g@]
                                                + rest));
                                        },
                                        None => {},
                                    }
                                }
                            },
                        }
                        i = i + 1;
                    }
                    proof {
                        assert(iv.skip(items@.len() as int) =~= Seq::<JsonV>::empty());
                        assert(gps_view(out@) + Seq::<GrandPrixV>::empty() =~= gps_view(out@));
                    }
                    Ok(Schedule::new(out))
                },
                _ => Err(Error::Decode),
            },
            None => Err(Error::Decode),
        },
        _ => Err(Error::Decode),
    }
}

} // verus!
