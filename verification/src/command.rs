//! The choices the command makes between its views.
use vstd::prelude::*;
use crate::date::{Date, MAX_DAY, schedule_format, chrono_format_date};
use crate::model::{Game, GameView, ScheduleGameDate, ScheduleGameDateView, games_view, schedule_view};
use crate::schedule::{law_next_game_day, games_for_date, games_with_prefix, next_day_with_games, next_game_date, schedule_days};

verus! {

/// The live scoreboard is shown for today's date, when asked for or when no date
/// was given.
pub open spec fn wants_live(target: Date, today: Date, live: bool, date_given: bool) -> bool {
    target.day == today.day && (live || !date_given)
}

/// Whether to try the live scoreboard first.
pub fn use_live_scores(target: Date, today: Date, live: bool, date_given: bool) -> (r: bool)
    ensures
        r == wants_live(target, today, live, date_given),
{
    target.day == today.day && (live || !date_given)
}

/// The games of the schedule on the day `day`.
pub open spec fn games_on(dates: Seq<ScheduleGameDateView>, day: i32) -> Seq<GameView> {
    games_with_prefix(dates, chrono_format_date(day, schedule_format()))
}

/// The day and games that the schedule view shows for `target`: that day's games;
/// but when no date was given and the day has none, those of the next day with
/// games, where there is one.
pub open spec fn shown_day(dates: Seq<ScheduleGameDateView>, target: i32, date_given: bool) -> (i32, Seq<GameView>) {
    let games = games_on(dates, target);
    if !date_given && games.len() == 0 {
        match next_day_with_games(dates, schedule_days(dates), target as int) {
            Some(d) => (d, games_on(dates, d)),
            None => (target, games),
        }
    } else {
        (target, games)
    }
}

/// The day and games that the schedule view shows for `target`.
pub fn games_to_show(schedule: &[ScheduleGameDate], target: Date, date_given: bool) -> (r: (Date, Vec<Game>))
    requires
        target.valid(),
    ensures
        r.0.valid(),
        (r.0.day, games_view(r.1@)) == shown_day(schedule_view(schedule@), target.day, date_given),
{
    let mut date = target;
    let mut games = games_for_date(schedule, date);
    if !date_given && games.len() == 0 {
        match next_game_date(schedule, date) {
            Some(next) => {
                date = next;
                games = games_for_date(schedule, date);
            },
            None => {},
        }
    }
    (date, games)
}


/// The schedule days' dates rise in schedule order.
pub open spec fn dates_increasing(days: Seq<Option<i32>>) -> bool {
    forall|i: int, j: int| 0 <= i < j < days.len() ==> (#[trigger] days[i] matches Some(a) ==> (#[trigger] days[j] matches Some(b) ==> a <= b))
}

/// With a date given, or with games on the target day, the target day is shown.
/// Otherwise the day shown is either the target (when no later day has games) or a
/// later schedule day that has games, and no schedule day before it in the schedule
/// dated after the target has games; so when the schedule's dates rise, no day
/// strictly between the target and the day shown has games.
pub proof fn law_shown_day_is_next_game_day(dates: Seq<ScheduleGameDateView>, target: i32, date_given: bool)
    requires
        target + 1 <= MAX_DAY,
    ensures
        (date_given || games_on(dates, target).len() > 0) ==> shown_day(dates, target, date_given).0 == target,
        ({
            let d = shown_day(dates, target, date_given).0;
            let days = schedule_days(dates);
            (!date_given && games_on(dates, target).len() == 0 && d != target) ==> {
                &&& d > target
                &&& exists|i: int| 0 <= i < dates.len() && #[trigger] days[i] == Some(d) && dates[i].games.len() > 0
                &&& forall|j: int| 0 <= j < dates.len() && (#[trigger] days[j] matches Some(e) && target < e)
                    && dates[j].games.len() > 0 ==> (exists|i: int| 0 <= i <= j && days[i] == Some(d))
            }
        }),
        ({
            let d = shown_day(dates, target, date_given).0;
            let days = schedule_days(dates);
            (!date_given && games_on(dates, target).len() == 0 && dates_increasing(days)) ==>
                forall|j: int| 0 <= j < dates.len() && (#[trigger] days[j] matches Some(e) && target < e && (d == target || e < d))
                    ==> dates[j].games.len() == 0
        }),
{
    let days = schedule_days(dates);
    law_next_game_day(dates, days, target as int);
    let d = shown_day(dates, target, date_given).0;
    if !date_given && games_on(dates, target).len() == 0 {
        match next_day_with_games(dates, days, target as int) {
            Some(n) => {
                assert(d == n);
                let i = choose|i: int| 0 <= i < dates.len() && #[trigger] days[i] == Some(n) && dates[i].games.len() > 0
                    && forall|j: int| 0 <= j < i ==> !(#[trigger] days[j] matches Some(e) && e > target && dates[j].games.len() > 0);
                assert forall|j: int| 0 <= j < dates.len() && (#[trigger] days[j] matches Some(e) && target < e)
                    && dates[j].games.len() > 0 implies (exists|k: int| 0 <= k <= j && days[k] == Some(d)) by {
                    assert(j >= i);
                }
                if dates_increasing(days) {
                    assert forall|j: int| 0 <= j < dates.len() && (#[trigger] days[j] matches Some(e) && target < e && (d == target || e < d))
                        implies dates[j].games.len() == 0 by {
                        if j > i {
                            assert(days[i] matches Some(a) ==> (days[j] matches Some(b) ==> a <= b));
                        }
                    }
                }
            },
            None => {
                assert(d == target);
            },
        }
    }
}

} // verus!
