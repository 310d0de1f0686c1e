//! Queries over the league schedule: which days it covers, the games of a day, a
//! team's next games, the next day with games, and the coming week.
//!
//! Each query reads the date of every schedule day. The functions named as the
//! command uses them read those dates with chrono and hand them to a function with
//! the suffix `_in`, which takes them as an argument and holds the query's logic.
use vstd::prelude::*;
use crate::date::{Date, MAX_DAY, schedule_date, parse_schedule_date, schedule_format, chrono_format_date};
use crate::model::{
    Game, GameView, ScheduleGameDate, ScheduleGameDateView, ScheduleGameView, game_of_schedule,
    games_view, or_empty, schedule_view,
};
use crate::text::{ascii_lower, has_prefix, starts_with, eq_ascii_nocase, eq_ignore_ascii_case};

verus! {

/// The day number of an optional date.
pub open spec fn opt_day(o: Option<Date>) -> Option<i32> {
    match o {
        Some(d) => Some(d.day),
        None => None,
    }
}

/// The day numbers of optional dates.
pub open spec fn days_view(days: Seq<Option<Date>>) -> Seq<Option<i32>> {
    days.map_values(|o: Option<Date>| opt_day(o))
}

/// Every date given lies in chrono's range.
pub open spec fn days_valid(days: Seq<Option<Date>>) -> bool {
    forall|i: int| 0 <= i < days.len() ==> (#[trigger] days[i] matches Some(d) ==> d.valid())
}

/// The date that chrono reads at the start of each schedule day's text.
pub open spec fn schedule_days(dates: Seq<ScheduleGameDateView>) -> Seq<Option<i32>> {
    dates.map_values(|d: ScheduleGameDateView| schedule_date(d.game_date))
}

/// Reads the date of every schedule day.
pub fn parse_schedule_days(schedule: &[ScheduleGameDate]) -> (r: Vec<Option<Date>>)
    ensures
        r@.len() == schedule@.len(),
        days_view(r@) == schedule_days(schedule_view(schedule@)),
        days_valid(r@),
{
    let mut r: Vec<Option<Date>> = Vec::new();
    let n = schedule.len();
    for i in 0..n
        invariant
            n == schedule@.len(),
            r@.len() == i,
            days_valid(r@),
            forall|k: int| 0 <= k < i ==> opt_day(#[trigger] r@[k]) == schedule_date(schedule@[k].game_date@),
    {
        let d = parse_schedule_date(schedule[i].game_date.as_str());
        r.push(d);
    }
    assert(days_view(r@) =~= schedule_days(schedule_view(schedule@)));
    r
}

// ── The schedule covers a date ──────────────────────────────────────────────

/// Some schedule day falls on `today` or later.
pub open spec fn covers(days: Seq<Option<i32>>, today: int) -> bool {
    exists|i: int| 0 <= i < days.len() && (#[trigger] days[i] matches Some(d) && d >= today)
}

/// Whether some day falls on `today` or later, given the dates of the schedule days.
pub fn covers_date_in(days: &[Option<Date>], today: Date) -> (r: bool)
    ensures
        r == covers(days_view(days@), today.day as int),
{
    let n = days.len();
    for i in 0..n
        invariant
            n == days@.len(),
            forall|k: int| 0 <= k < i ==> !(#[trigger] days_view(days@)[k] matches Some(d) && d >= today.day),
    {
        match days[i] {
            Some(d) => {
                if d.day >= today.day {
                    assert(days_view(days@)[i as int] matches Some(x) && x >= today.day);
                    return true;
                }
            },
            None => {},
        }
        assert(!(days_view(days@)[i as int] matches Some(x) && x >= today.day));
    }
    false
}

/// Whether a stored schedule still reaches `today`: some day of it falls on
/// `today` or later.
pub fn covers_date(schedule: &[ScheduleGameDate], today: Date) -> (r: bool)
    ensures
        r == covers(schedule_days(schedule_view(schedule@)), today.day as int),
{
    let days = parse_schedule_days(schedule);
    covers_date_in(&days, today)
}

// ── The coming week ─────────────────────────────────────────────────────────

/// A day's date lies from `from` to `to`, both included.
pub open spec fn within(day: Option<i32>, from: int, to: int) -> bool {
    day matches Some(d) && from <= d <= to
}

/// The schedule days whose dates lie from `from` to `to`, in schedule order.
pub open spec fn days_within(
    dates: Seq<ScheduleGameDateView>,
    days: Seq<Option<i32>>,
    from: int,
    to: int,
) -> Seq<ScheduleGameDateView>
    decreases dates.len(),
{
    if dates.len() == 0 {
        Seq::empty()
    } else {
        let rest = days_within(dates.drop_last(), days.drop_last(), from, to);
        if within(days[dates.len() - 1], from, to) {
            rest.push(dates.last())
        } else {
            rest
        }
    }
}

/// The schedule days of the week from `today` to seven days later, given their dates.
pub fn filter_next_week_in(
    dates: &[ScheduleGameDate],
    days: &[Option<Date>],
    today: Date,
) -> (r: Vec<ScheduleGameDate>)
    requires
        today.valid(),
        today.day + 7 <= MAX_DAY,
        days@.len() == dates@.len(),
    ensures
        schedule_view(r@) == days_within(schedule_view(dates@), days_view(days@), today.day as int, today.day + 7),
{
    let end = match today.checked_add_days(7) {
        Some(e) => e,
        None => today,
    };
    let mut r: Vec<ScheduleGameDate> = Vec::new();
    let n = dates.len();
    for i in 0..n
        invariant
            n == dates@.len(),
            n == days@.len(),
            end.day == today.day + 7,
            schedule_view(r@) == days_within(
                schedule_view(dates@).take(i as int),
                days_view(days@).take(i as int),
                today.day as int,
                today.day + 7,
            ),
    {
        let keep = match days[i] {
            Some(d) => d.day >= today.day && d.day <= end.day,
            None => false,
        };
        proof {
            let dv = schedule_view(dates@);
            let ds = days_view(days@);
            assert(dv.take(i + 1).drop_last() =~= dv.take(i as int));
            assert(ds.take(i + 1).drop_last() =~= ds.take(i as int));
        }
        if keep {
            r.push(dates[i].duplicate());
        }
        assert(schedule_view(r@) =~= days_within(
            schedule_view(dates@).take(i + 1),
            days_view(days@).take(i + 1),
            today.day as int,
            today.day + 7,
        ));
    }
    assert(schedule_view(dates@).take(n as int) =~= schedule_view(dates@));
    assert(days_view(days@).take(n as int) =~= days_view(days@));
    r
}

/// The schedule days of the week from `today` to seven days later, in schedule order.
pub fn filter_next_week(dates: &[ScheduleGameDate], today: Date) -> (r: Vec<ScheduleGameDate>)
    requires
        today.valid(),
        today.day + 7 <= MAX_DAY,
    ensures
        schedule_view(r@) == days_within(
            schedule_view(dates@),
            schedule_days(schedule_view(dates@)),
            today.day as int,
            today.day + 7,
        ),
{
    let days = parse_schedule_days(dates);
    filter_next_week_in(dates, &days, today)
}


// ── The games of a day ──────────────────────────────────────────────────────

/// The first schedule day, from index `i` on, whose text begins with `prefix`.
pub open spec fn first_with_prefix(dates: Seq<ScheduleGameDateView>, prefix: Seq<char>, i: int) -> Option<int>
    decreases dates.len() - i,
{
    if i < 0 || i >= dates.len() {
        None
    } else if has_prefix(dates[i].game_date, prefix) {
        Some(i)
    } else {
        first_with_prefix(dates, prefix, i + 1)
    }
}

/// The games of a schedule day, each as `Game::from_schedule` gives it.
pub open spec fn games_of_day(games: Seq<ScheduleGameView>) -> Seq<GameView> {
    games.map_values(|g: ScheduleGameView| game_of_schedule(g))
}

/// The games of the first schedule day whose text begins with `prefix`; none if
/// no day does.
pub open spec fn games_with_prefix(dates: Seq<ScheduleGameDateView>, prefix: Seq<char>) -> Seq<GameView> {
    match first_with_prefix(dates, prefix, 0) {
        Some(i) => games_of_day(dates[i].games),
        None => Seq::empty(),
    }
}

/// The games of a schedule day.
pub fn day_games(day: &ScheduleGameDate) -> (r: Vec<Game>)
    ensures
        games_view(r@) == games_of_day(day@.games),
{
    let mut r: Vec<Game> = Vec::new();
    let n = day.games.len();
    for i in 0..n
        invariant
            n == day.games@.len(),
            r@.len() == i,
            forall|k: int| 0 <= k < i ==> (#[trigger] r@[k])@ == game_of_schedule(day.games@[k]@),
    {
        r.push(Game::from_schedule(&day.games[i]));
    }
    assert(games_view(r@) =~= games_of_day(day@.games));
    r
}

/// The games of the first schedule day whose text begins with `date_text`, or no
/// games if no day does.
pub fn games_with_date_text(schedule: &[ScheduleGameDate], date_text: &str) -> (r: Vec<Game>)
    ensures
        games_view(r@) == games_with_prefix(schedule_view(schedule@), date_text@),
{
    let n = schedule.len();
    let ghost dv = schedule_view(schedule@);
    for i in 0..n
        invariant
            n == schedule@.len(),
            dv == schedule_view(schedule@),
            first_with_prefix(dv, date_text@, 0) == first_with_prefix(dv, date_text@, i as int),
    {
        if starts_with(schedule[i].game_date.as_str(), date_text) {
            return day_games(&schedule[i]);
        }
    }
    Vec::new()
}

/// The games on `date`: those of the first schedule day whose text begins with the
/// date written as month/day/year.
pub fn games_for_date(schedule: &[ScheduleGameDate], date: Date) -> (r: Vec<Game>)
    requires
        date.valid(),
    ensures
        games_view(r@) == games_with_prefix(
            schedule_view(schedule@),
            chrono_format_date(date.day, schedule_format()),
        ),
{
    let date_str = date.format("%m/%d/%Y");
    games_with_date_text(schedule, date_str.as_str())
}

// ── The next day with games ─────────────────────────────────────────────────

/// The date of the first schedule day, from index `i` on, that falls on `start` or
/// later and has games.
pub open spec fn first_game_day(
    dates: Seq<ScheduleGameDateView>,
    days: Seq<Option<i32>>,
    start: int,
    i: int,
) -> Option<i32>
    decreases dates.len() - i,
{
    if i < 0 || i >= dates.len() {
        None
    } else if days[i] matches Some(d) && d >= start && dates[i].games.len() > 0 {
        days[i]
    } else {
        first_game_day(dates, days, start, i + 1)
    }
}

/// The next date after `after` with games: the first schedule day, in schedule
/// order, that falls after `after` and has games.
pub open spec fn next_day_with_games(
    dates: Seq<ScheduleGameDateView>,
    days: Seq<Option<i32>>,
    after: int,
) -> Option<i32> {
    if after + 1 > MAX_DAY {
        None
    } else {
        first_game_day(dates, days, after + 1, 0)
    }
}

/// The next date after `after` that has games, given the dates of the schedule days.
pub fn next_game_date_in(
    schedule: &[ScheduleGameDate],
    days: &[Option<Date>],
    after: Date,
) -> (r: Option<Date>)
    requires
        after.valid(),
        days@.len() == schedule@.len(),
        days_valid(days@),
    ensures
        opt_day(r) == next_day_with_games(schedule_view(schedule@), days_view(days@), after.day as int),
        r matches Some(d) ==> d.valid(),
{
    let start = match after.checked_add_days(1) {
        Some(s) => s,
        None => {
            return None;
        },
    };
    let n = schedule.len();
    let ghost dv = schedule_view(schedule@);
    let ghost ds = days_view(days@);
    for i in 0..n
        invariant
            n == schedule@.len(),
            n == days@.len(),
            dv == schedule_view(schedule@),
            ds == days_view(days@),
            days_valid(days@),
            start.day == after.day + 1,
            first_game_day(dv, ds, start.day as int, 0) == first_game_day(dv, ds, start.day as int, i as int),
    {
        match days[i] {
            Some(d) => {
                if d.day >= start.day && schedule[i].games.len() > 0 {
                    assert(ds[i as int] == Some(d.day));
                    return Some(d);
                }
            },
            None => {},
        }
        assert(ds[i as int] == opt_day(days@[i as int]));
    }
    None
}

/// The next date after `after` that has games.
pub fn next_game_date(schedule: &[ScheduleGameDate], after: Date) -> (r: Option<Date>)
    requires
        after.valid(),
    ensures
        opt_day(r) == next_day_with_games(
            schedule_view(schedule@),
            schedule_days(schedule_view(schedule@)),
            after.day as int,
        ),
        r matches Some(d) ==> d.valid(),
{
    let days = parse_schedule_days(schedule);
    next_game_date_in(schedule, &days, after)
}


// ── A team's coming games ───────────────────────────────────────────────────

/// `a` is the start of `b`.
pub open spec fn is_prefix<A>(a: Seq<A>, b: Seq<A>) -> bool {
    a.len() <= b.len() && b.subrange(0, a.len() as int) == a
}

/// The team plays in the game, as home or away team, by tricode up to ASCII case;
/// a missing tricode matches as the empty text.
pub open spec fn involves_team(g: ScheduleGameView, team: Seq<char>) -> bool {
    eq_ascii_nocase(or_empty(g.away_team.team_tricode), team)
        || eq_ascii_nocase(or_empty(g.home_team.team_tricode), team)
}

/// The games of one schedule day that the team plays, with the day's date, in order.
pub open spec fn team_games_of_day(day: i32, games: Seq<ScheduleGameView>, team: Seq<char>) -> Seq<(i32, GameView)>
    decreases games.len(),
{
    if games.len() == 0 {
        Seq::empty()
    } else {
        let rest = team_games_of_day(day, games.drop_last(), team);
        if involves_team(games.last(), team) {
            rest.push((day, game_of_schedule(games.last())))
        } else {
            rest
        }
    }
}

/// All games that the team plays on schedule days dated `today` or later, in
/// schedule order, each with its day's date.
pub open spec fn team_games(
    dates: Seq<ScheduleGameDateView>,
    days: Seq<Option<i32>>,
    team: Seq<char>,
    today: int,
) -> Seq<(i32, GameView)>
    decreases dates.len(),
{
    if dates.len() == 0 {
        Seq::empty()
    } else {
        let rest = team_games(dates.drop_last(), days.drop_last(), team, today);
        match days[dates.len() - 1] {
            Some(d) => if d >= today {
                rest + team_games_of_day(d, dates.last().games, team)
            } else {
                rest
            },
            None => rest,
        }
    }
}

/// The number of games a team query returns at most: `count`, but at least one.
pub open spec fn game_limit(count: int) -> int {
    if count < 1 { 1 } else { count }
}

/// The team's first games from `today` on, at most `count` of them (at most one
/// when `count` is zero).
pub open spec fn upcoming(
    dates: Seq<ScheduleGameDateView>,
    days: Seq<Option<i32>>,
    team: Seq<char>,
    count: int,
    today: int,
) -> Seq<(i32, GameView)> {
    let all = team_games(dates, days, team, today);
    if all.len() <= game_limit(count) {
        all
    } else {
        all.subrange(0, game_limit(count))
    }
}

/// The models of dated games.
pub open spec fn dated_games_view(v: Seq<(Date, Game)>) -> Seq<(i32, GameView)> {
    v.map_values(|p: (Date, Game)| (p.0.day, p.1@))
}

proof fn lemma_prefix_trans<A>(a: Seq<A>, b: Seq<A>, c: Seq<A>)
    requires
        is_prefix(a, b),
        is_prefix(b, c),
    ensures
        is_prefix(a, c),
{
    assert(c.subrange(0, a.len() as int) =~= b.subrange(0, a.len() as int));
}

proof fn lemma_day_prefix(day: i32, games: Seq<ScheduleGameView>, team: Seq<char>, j: int)
    requires
        0 <= j <= games.len(),
    ensures
        is_prefix(team_games_of_day(day, games.take(j), team), team_games_of_day(day, games, team)),
    decreases games.len(),
{
    let full = team_games_of_day(day, games, team);
    if j == games.len() {
        assert(games.take(j) =~= games);
        assert(full.subrange(0, full.len() as int) =~= full);
    } else {
        let g = games.drop_last();
        assert(games.take(j) =~= g.take(j));
        lemma_day_prefix(day, g, team, j);
        let mid = team_games_of_day(day, g, team);
        assert(full.subrange(0, mid.len() as int) =~= mid);
        lemma_prefix_trans(team_games_of_day(day, games.take(j), team), mid, full);
    }
}

proof fn lemma_team_prefix(
    dates: Seq<ScheduleGameDateView>,
    days: Seq<Option<i32>>,
    team: Seq<char>,
    today: int,
    i: int,
)
    requires
        0 <= i <= dates.len(),
        days.len() == dates.len(),
    ensures
        is_prefix(team_games(dates.take(i), days.take(i), team, today), team_games(dates, days, team, today)),
    decreases dates.len(),
{
    let full = team_games(dates, days, team, today);
    if i == dates.len() {
        assert(dates.take(i) =~= dates);
        assert(days.take(i) =~= days);
        assert(full.subrange(0, full.len() as int) =~= full);
    } else {
        let dd = dates.drop_last();
        let ds = days.drop_last();
        assert(dates.take(i) =~= dd.take(i));
        assert(days.take(i) =~= ds.take(i));
        lemma_team_prefix(dd, ds, team, today, i);
        let mid = team_games(dd, ds, team, today);
        assert(full.subrange(0, mid.len() as int) =~= mid);
        lemma_prefix_trans(team_games(dates.take(i), days.take(i), team, today), mid, full);
    }
}

/// The tricode of a schedule team, or the empty text where it is missing.
fn tricode_of(o: &Option<String>) -> (r: &str)
    ensures
        r@ == or_empty(crate::model::opt_text(*o)),
{
    match o {
        Some(s) => s.as_str(),
        None => {
            proof {
                reveal_strlit("");
            }
            ""
        },
    }
}

/// The team's first `count` games (at least one, where it has any) on schedule days
/// dated `today` or later, given the dates of the schedule days.
pub fn upcoming_team_games_in(
    schedule: &[ScheduleGameDate],
    days: &[Option<Date>],
    team: &str,
    count: usize,
    today: Date,
) -> (r: Vec<(Date, Game)>)
    requires
        days@.len() == schedule@.len(),
        days_valid(days@),
    ensures
        dated_games_view(r@) == upcoming(schedule_view(schedule@), days_view(days@), team@, count as int, today.day as int),
        forall|k: int| 0 <= k < r@.len() ==> (#[trigger] r@[k]).0.valid(),
{
    let ghost dv = schedule_view(schedule@);
    let ghost ds = days_view(days@);
    let ghost all = team_games(dv, ds, team@, today.day as int);
    let ghost limit = game_limit(count as int);
    let mut result: Vec<(Date, Game)> = Vec::new();
    let n = schedule.len();
    for i in 0..n
        invariant
            n == schedule@.len(),
            n == days@.len(),
            dv == schedule_view(schedule@),
            ds == days_view(days@),
            dv.len() == n,
            ds.len() == n,
            days_valid(days@),
            all == team_games(dv, ds, team@, today.day as int),
            limit == game_limit(count as int),
            dated_games_view(result@) == team_games(dv.take(i as int), ds.take(i as int), team@, today.day as int),
            result@.len() < limit,
            forall|k: int| 0 <= k < result@.len() ==> (#[trigger] result@[k]).0.valid(),
    {
        proof {
            assert(dv.take(i + 1).drop_last() =~= dv.take(i as int));
            assert(ds.take(i + 1).drop_last() =~= ds.take(i as int));
            assert(ds[i as int] == opt_day(days@[i as int]));
        }
        let ghost before = team_games(dv.take(i as int), ds.take(i as int), team@, today.day as int);
        match days[i] {
            Some(d) => {
                if d.day >= today.day {
                    let day = &schedule[i];
                    let m = day.games.len();
                    let ghost gv = dv[i as int].games;
                    assert(gv == schedule_view(schedule@)[i as int].games);
                    for j in 0..m
                        invariant
                            n == schedule@.len(),
                            i < n,
                            day == schedule@[i as int],
                            m == day.games@.len(),
                            gv == schedule_view(schedule@)[i as int].games,
                            gv.len() == m,
                            d.valid(),
                            dv == schedule_view(schedule@),
                            ds == days_view(days@),
                            dv.len() == n,
                            ds.len() == n,
                            ds[i as int] == Some(d.day),
                            d.day >= today.day,
                            all == team_games(dv, ds, team@, today.day as int),
                            before == team_games(dv.take(i as int), ds.take(i as int), team@, today.day as int),
                            team_games(dv.take(i + 1), ds.take(i + 1), team@, today.day as int)
                                == before + team_games_of_day(d.day, gv, team@),
                            limit == game_limit(count as int),
                            dated_games_view(result@) == before + team_games_of_day(d.day, gv.take(j as int), team@),
                            result@.len() < limit,
                            forall|k: int| 0 <= k < result@.len() ==> (#[trigger] result@[k]).0.valid(),
                    {
                        let sg = &day.games[j];
                        assert(gv[j as int] == sg@);
                        assert(gv.take(j + 1).drop_last() =~= gv.take(j as int));
                        let away = tricode_of(&sg.away_team.team_tricode);
                        let home = tricode_of(&sg.home_team.team_tricode);
                        let ghost prev = result@;
                        if eq_ignore_ascii_case(away, team) || eq_ignore_ascii_case(home, team) {
                            result.push((d, Game::from_schedule(sg)));
                            assert(dated_games_view(result@) =~= dated_games_view(prev).push((d.day, game_of_schedule(gv[j as int]))));
                            if result.len() >= count {
                                proof {
                                    let x = before + team_games_of_day(d.day, gv.take(j + 1), team@);
                                    lemma_day_prefix(d.day, gv, team@, j + 1);
                                    let y = team_games(dv.take(i + 1), ds.take(i + 1), team@, today.day as int);
                                    assert(y.subrange(0, x.len() as int) =~= x);
                                    lemma_team_prefix(dv, ds, team@, today.day as int, i + 1);
                                    lemma_prefix_trans(x, y, all);
                                }
                                return result;
                            }
                        } else {
                            assert(dated_games_view(result@) =~= dated_games_view(prev));
                        }
                    }
                    assert(gv.take(m as int) =~= gv);
                }
            },
            None => {},
        }
    }
    assert(dv.take(n as int) =~= dv);
    assert(ds.take(n as int) =~= ds);
    result
}

/// The team's first `count` games (at least one, where it has any) from today on,
/// by the local clock. Whatever day the clock gives, the games are those that
/// `upcoming_team_games_in` gives for that day.
pub fn upcoming_team_games(schedule: &[ScheduleGameDate], team: &str, count: usize) -> (r: Vec<(Date, Game)>)
    ensures
        exists|today: Date| #[trigger] today.valid() && dated_games_view(r@) == upcoming(
            schedule_view(schedule@),
            schedule_days(schedule_view(schedule@)),
            team@,
            count as int,
            today.day as int,
        ),
        forall|k: int| 0 <= k < r@.len() ==> (#[trigger] r@[k]).0.valid(),
{
    let today = Date::today();
    let days = parse_schedule_days(schedule);
    upcoming_team_games_in(schedule, &days, team, count, today)
}


// ── Laws ────────────────────────────────────────────────────────────────────

/// `x` is a schedule day dated from `from` to `to`.
pub open spec fn is_day_within(
    x: ScheduleGameDateView,
    dates: Seq<ScheduleGameDateView>,
    days: Seq<Option<i32>>,
    from: int,
    to: int,
) -> bool {
    exists|i: int| 0 <= i < dates.len() && within(#[trigger] days[i], from, to) && dates[i] == x
}

/// The coming week holds exactly the schedule days dated from `from` to `to`: each
/// day it holds is such a day of the schedule, each such day is in it, and it is
/// no longer than the schedule.
pub proof fn law_week_is_the_days_within(
    dates: Seq<ScheduleGameDateView>,
    days: Seq<Option<i32>>,
    from: int,
    to: int,
)
    requires
        days.len() == dates.len(),
    ensures
        days_within(dates, days, from, to).len() <= dates.len(),
        forall|k: int| 0 <= k < days_within(dates, days, from, to).len()
            ==> is_day_within(#[trigger] days_within(dates, days, from, to)[k], dates, days, from, to),
        forall|i: int| 0 <= i < dates.len() && within(#[trigger] days[i], from, to)
            ==> days_within(dates, days, from, to).contains(dates[i]),
    decreases dates.len(),
{
    if dates.len() > 0 {
        let dd = dates.drop_last();
        let ds = days.drop_last();
        law_week_is_the_days_within(dd, ds, from, to);
        let rest = days_within(dd, ds, from, to);
        let res = days_within(dates, days, from, to);
        let last = dates.len() - 1;
        assert forall|k: int| 0 <= k < res.len() implies is_day_within(#[trigger] res[k], dates, days, from, to) by {
            if k < rest.len() {
                assert(is_day_within(rest[k], dd, ds, from, to));
                let i = choose|i: int| 0 <= i < dd.len() && within(#[trigger] ds[i], from, to) && dd[i] == rest[k];
                assert(days[i] == ds[i]);
                assert(res[k] == rest[k]);
                assert(0 <= i < dates.len() && within(days[i], from, to) && dates[i] == res[k]);
            } else {
                assert(res[k] == dates[last]);
                assert(0 <= last < dates.len() && within(days[last], from, to) && dates[last] == res[k]);
            }
        }
        assert forall|i: int| 0 <= i < dates.len() && within(#[trigger] days[i], from, to)
            implies res.contains(dates[i]) by {
            if i < last {
                assert(ds[i] == days[i]);
                assert(rest.contains(dd[i]));
                let k = choose|k: int| 0 <= k < rest.len() && rest[k] == dd[i];
                assert(res[k] == rest[k]);
            } else {
                assert(res[res.len() - 1] == dates[last]);
            }
        }
    }
}

/// The next day with games lies after `after`, is the date of a schedule day that
/// has games, and no earlier schedule day after `after` has games; where there is
/// none, no schedule day after `after` has games.
pub proof fn law_next_game_day(
    dates: Seq<ScheduleGameDateView>,
    days: Seq<Option<i32>>,
    after: int,
)
    requires
        days.len() == dates.len(),
        after + 1 <= MAX_DAY,
    ensures
        next_day_with_games(dates, days, after) matches Some(d) ==> d > after && exists|i: int|
            0 <= i < dates.len() && #[trigger] days[i] == Some(d) && dates[i].games.len() > 0
                && forall|j: int| 0 <= j < i ==> !(#[trigger] days[j] matches Some(e) && e > after && dates[j].games.len() > 0),
        next_day_with_games(dates, days, after) is None ==> forall|i: int| 0 <= i < dates.len()
            ==> !(#[trigger] days[i] matches Some(e) && e > after && dates[i].games.len() > 0),
{
    lemma_first_game_day(dates, days, after + 1, 0);
}

proof fn lemma_first_game_day(dates: Seq<ScheduleGameDateView>, days: Seq<Option<i32>>, start: int, i: int)
    requires
        days.len() == dates.len(),
        0 <= i <= dates.len(),
    ensures
        first_game_day(dates, days, start, i) matches Some(d) ==> d >= start && exists|k: int|
            i <= k < dates.len() && #[trigger] days[k] == Some(d) && dates[k].games.len() > 0
                && forall|j: int| i <= j < k ==> !(#[trigger] days[j] matches Some(e) && e >= start && dates[j].games.len() > 0),
        first_game_day(dates, days, start, i) is None ==> forall|k: int| i <= k < dates.len()
            ==> !(#[trigger] days[k] matches Some(e) && e >= start && dates[k].games.len() > 0),
    decreases dates.len() - i,
{
    if i < dates.len() {
        lemma_first_game_day(dates, days, start, i + 1);
        if days[i] matches Some(d) && d >= start && dates[i].games.len() > 0 {
        } else {
            if let Some(d) = first_game_day(dates, days, start, i + 1) {
                let k = choose|k: int| i + 1 <= k < dates.len() && #[trigger] days[k] == Some(d) && dates[k].games.len() > 0
                    && forall|j: int| i + 1 <= j < k ==> !(#[trigger] days[j] matches Some(e) && e >= start && dates[j].games.len() > 0);
                assert(forall|j: int| i <= j < k ==> !(#[trigger] days[j] matches Some(e) && e >= start && dates[j].games.len() > 0));
            }
        }
    }
}

/// Every game of a team's list is one that the team plays, on a schedule day dated
/// `today` or later, and the list holds the team's games in schedule order up to the
/// limit: it is the start of all of them, as long as the limit allows.
pub proof fn law_upcoming_games_are_the_teams(
    dates: Seq<ScheduleGameDateView>,
    days: Seq<Option<i32>>,
    team: Seq<char>,
    count: int,
    today: int,
)
    requires
        days.len() == dates.len(),
    ensures
        upcoming(dates, days, team, count, today).len() <= game_limit(count),
        is_prefix(upcoming(dates, days, team, count, today), team_games(dates, days, team, today)),
        upcoming(dates, days, team, count, today).len() < game_limit(count)
            ==> upcoming(dates, days, team, count, today) == team_games(dates, days, team, today),
        forall|k: int| 0 <= k < upcoming(dates, days, team, count, today).len() ==> {
            let (d, g) = #[trigger] upcoming(dates, days, team, count, today)[k];
            d >= today && exists|i: int, j: int|
                0 <= i < dates.len() && days[i] == Some(d) && 0 <= j < dates[i].games.len()
                    && involves_team(#[trigger] dates[i].games[j], team) && g == game_of_schedule(dates[i].games[j])
        },
{
    let all = team_games(dates, days, team, today);
    let up = upcoming(dates, days, team, count, today);
    lemma_team_games_members(dates, days, team, today);
    assert(all.subrange(0, up.len() as int) =~= up);
    assert forall|k: int| 0 <= k < up.len() implies {
        let (d, g) = #[trigger] up[k];
        d >= today && exists|i: int, j: int|
            0 <= i < dates.len() && days[i] == Some(d) && 0 <= j < dates[i].games.len()
                && involves_team(#[trigger] dates[i].games[j], team) && g == game_of_schedule(dates[i].games[j])
    } by {
        assert(up[k] == all[k]);
    }
}

proof fn lemma_day_members(day: i32, games: Seq<ScheduleGameView>, team: Seq<char>)
    ensures
        forall|k: int| 0 <= k < team_games_of_day(day, games, team).len() ==> {
            let (d, g) = #[trigger] team_games_of_day(day, games, team)[k];
            d == day && exists|j: int| 0 <= j < games.len() && involves_team(#[trigger] games[j], team)
                && g == game_of_schedule(games[j])
        },
    decreases games.len(),
{
    if games.len() > 0 {
        let gl = games.drop_last();
        lemma_day_members(day, gl, team);
        let rest = team_games_of_day(day, gl, team);
        let res = team_games_of_day(day, games, team);
        assert forall|k: int| 0 <= k < res.len() implies {
            let (d, g) = #[trigger] res[k];
            d == day && exists|j: int| 0 <= j < games.len() && involves_team(#[trigger] games[j], team)
                && g == game_of_schedule(games[j])
        } by {
            if k < rest.len() {
                assert(res[k] == rest[k]);
                let (d, g) = rest[k];
                let j = choose|j: int| 0 <= j < gl.len() && involves_team(#[trigger] gl[j], team)
                    && g == game_of_schedule(gl[j]);
                assert(games[j] == gl[j]);
            } else {
                assert(games[games.len() - 1] == games.last());
            }
        }
    }
}

proof fn lemma_team_games_members(
    dates: Seq<ScheduleGameDateView>,
    days: Seq<Option<i32>>,
    team: Seq<char>,
    today: int,
)
    requires
        days.len() == dates.len(),
    ensures
        forall|k: int| 0 <= k < team_games(dates, days, team, today).len() ==> {
            let (d, g) = #[trigger] team_games(dates, days, team, today)[k];
            d >= today && exists|i: int, j: int|
                0 <= i < dates.len() && days[i] == Some(d) && 0 <= j < dates[i].games.len()
                    && involves_team(#[trigger] dates[i].games[j], team) && g == game_of_schedule(dates[i].games[j])
        },
    decreases dates.len(),
{
    if dates.len() > 0 {
        let dd = dates.drop_last();
        let ds = days.drop_last();
        let last = dates.len() - 1;
        lemma_team_games_members(dd, ds, team, today);
        let rest = team_games(dd, ds, team, today);
        let res = team_games(dates, days, team, today);
        assert forall|k: int| 0 <= k < res.len() implies {
            let (d, g) = #[trigger] res[k];
            d >= today && exists|i: int, j: int|
                0 <= i < dates.len() && days[i] == Some(d) && 0 <= j < dates[i].games.len()
                    && involves_team(#[trigger] dates[i].games[j], team) && g == game_of_schedule(dates[i].games[j])
        } by {
            if k < rest.len() {
                assert(res[k] == rest[k]);
                let (d, g) = rest[k];
                let (i, j) = choose|i: int, j: int|
                    0 <= i < dd.len() && ds[i] == Some(d) && 0 <= j < dd[i].games.len()
                        && involves_team(#[trigger] dd[i].games[j], team) && g == game_of_schedule(dd[i].games[j]);
                assert(dates[i] == dd[i]);
                assert(days[i] == ds[i]);
            } else {
                let d = days[last]->Some_0;
                let day_part = team_games_of_day(d, dates.last().games, team);
                lemma_day_members(d, dates.last().games, team);
                assert(res[k] == day_part[k - rest.len()]);
                let (d2, g) = day_part[k - rest.len()];
                let j = choose|j: int| 0 <= j < dates.last().games.len()
                    && involves_team(#[trigger] dates.last().games[j], team) && g == game_of_schedule(dates.last().games[j]);
                assert(dates[last] == dates.last());
            }
        }
    }
}


proof fn lemma_day_complete(day: i32, games: Seq<ScheduleGameView>, team: Seq<char>, j: int)
    requires
        0 <= j < games.len(),
        involves_team(games[j], team),
    ensures
        team_games_of_day(day, games, team).contains((day, game_of_schedule(games[j]))),
    decreases games.len(),
{
    let res = team_games_of_day(day, games, team);
    if j == games.len() - 1 {
        assert(res[res.len() - 1] == (day, game_of_schedule(games[j])));
    } else {
        let gl = games.drop_last();
        assert(gl[j] == games[j]);
        lemma_day_complete(day, gl, team, j);
        let rest = team_games_of_day(day, gl, team);
        let k = choose|k: int| 0 <= k < rest.len() && rest[k] == (day, game_of_schedule(games[j]));
        assert(res[k] == rest[k]);
    }
}

proof fn lemma_team_complete(
    dates: Seq<ScheduleGameDateView>,
    days: Seq<Option<i32>>,
    team: Seq<char>,
    today: int,
    i: int,
    j: int,
)
    requires
        days.len() == dates.len(),
        0 <= i < dates.len(),
        0 <= j < dates[i].games.len(),
        days[i] matches Some(d) && d >= today,
        involves_team(dates[i].games[j], team),
    ensures
        team_games(dates, days, team, today).contains((days[i]->Some_0, game_of_schedule(dates[i].games[j]))),
    decreases dates.len(),
{
    let x = (days[i]->Some_0, game_of_schedule(dates[i].games[j]));
    let res = team_games(dates, days, team, today);
    let dd = dates.drop_last();
    let ds = days.drop_last();
    let rest = team_games(dd, ds, team, today);
    if i == dates.len() - 1 {
        lemma_day_complete(days[i]->Some_0, dates[i].games, team, j);
        let part = team_games_of_day(days[i]->Some_0, dates.last().games, team);
        let k = choose|k: int| 0 <= k < part.len() && part[k] == x;
        assert(res[rest.len() + k] == part[k]);
    } else {
        assert(dd[i] == dates[i]);
        assert(ds[i] == days[i]);
        lemma_team_complete(dd, ds, team, today, i, j);
        let k = choose|k: int| 0 <= k < rest.len() && rest[k] == x;
        assert(res[k] == rest[k]);
    }
}

/// A team's list misses none of its games from `today` on: every game the team
/// plays, home or away, on a schedule day dated `today` or later (today's own games
/// included) is among all its games, and it is in the list whenever the team has
/// no more games than the limit.
pub proof fn law_upcoming_includes_every_game_from_today(
    dates: Seq<ScheduleGameDateView>,
    days: Seq<Option<i32>>,
    team: Seq<char>,
    count: int,
    today: int,
)
    requires
        days.len() == dates.len(),
    ensures
        forall|i: int, j: int|
            0 <= i < dates.len() && 0 <= j < dates[i].games.len() && (#[trigger] days[i] matches Some(d) && d >= today)
                && involves_team(#[trigger] dates[i].games[j], team) ==> {
                &&& team_games(dates, days, team, today).contains((days[i]->Some_0, game_of_schedule(dates[i].games[j])))
                &&& team_games(dates, days, team, today).len() <= game_limit(count) ==> upcoming(
                    dates,
                    days,
                    team,
                    count,
                    today,
                ).contains((days[i]->Some_0, game_of_schedule(dates[i].games[j])))
            },
{
    assert forall|i: int, j: int|
        0 <= i < dates.len() && 0 <= j < dates[i].games.len() && (#[trigger] days[i] matches Some(d) && d >= today)
            && involves_team(#[trigger] dates[i].games[j], team) implies {
            &&& team_games(dates, days, team, today).contains((days[i]->Some_0, game_of_schedule(dates[i].games[j])))
            &&& team_games(dates, days, team, today).len() <= game_limit(count) ==> upcoming(
                dates,
                days,
                team,
                count,
                today,
            ).contains((days[i]->Some_0, game_of_schedule(dates[i].games[j])))
        } by {
        lemma_team_complete(dates, days, team, today, i, j);
    }
}

proof fn lemma_nocase_same(a: Seq<char>, t1: Seq<char>, t2: Seq<char>)
    requires
        eq_ascii_nocase(t1, t2),
    ensures
        eq_ascii_nocase(a, t1) == eq_ascii_nocase(a, t2),
{
    if eq_ascii_nocase(a, t1) {
        assert forall|i: int| 0 <= i < a.len() implies ascii_lower(#[trigger] a[i]) == ascii_lower(t2[i]) by {
            assert(ascii_lower(t1[i]) == ascii_lower(t2[i]));
        }
    }
    if eq_ascii_nocase(a, t2) {
        assert forall|i: int| 0 <= i < a.len() implies ascii_lower(#[trigger] a[i]) == ascii_lower(t1[i]) by {
            assert(ascii_lower(t1[i]) == ascii_lower(t2[i]));
        }
    }
}

proof fn lemma_day_case(day: i32, games: Seq<ScheduleGameView>, t1: Seq<char>, t2: Seq<char>)
    requires
        eq_ascii_nocase(t1, t2),
    ensures
        team_games_of_day(day, games, t1) == team_games_of_day(day, games, t2),
    decreases games.len(),
{
    if games.len() > 0 {
        lemma_day_case(day, games.drop_last(), t1, t2);
        lemma_nocase_same(or_empty(games.last().away_team.team_tricode), t1, t2);
        lemma_nocase_same(or_empty(games.last().home_team.team_tricode), t1, t2);
    }
}

/// A team's games do not depend on the case of its tricode: two tricodes equal up
/// to ASCII case give the same games.
pub proof fn law_team_case_insensitive(
    dates: Seq<ScheduleGameDateView>,
    days: Seq<Option<i32>>,
    t1: Seq<char>,
    t2: Seq<char>,
    count: int,
    today: int,
)
    requires
        eq_ascii_nocase(t1, t2),
    ensures
        team_games(dates, days, t1, today) == team_games(dates, days, t2, today),
        upcoming(dates, days, t1, count, today) == upcoming(dates, days, t2, count, today),
    decreases dates.len(),
{
    if dates.len() > 0 {
        law_team_case_insensitive(dates.drop_last(), days.drop_last(), t1, t2, count, today);
        if let Some(d) = days[dates.len() - 1] {
            lemma_day_case(d, dates.last().games, t1, t2);
        }
    }
}

} // verus!
