use nba::command::{games_to_show, use_live_scores};
use nba::date::{Date, MAX_DAY};
use nba::model::{Game, LiveGame, LiveTeam, ScheduleGame, ScheduleGameDate, ScheduleTeam, games_from_live};
use nba::schedule::{
    covers_date, covers_date_in, filter_next_week, games_for_date, games_with_date_text,
    next_game_date, next_game_date_in, parse_schedule_days, upcoming_team_games,
    upcoming_team_games_in,
};

fn team(tc: Option<&str>, wins: i32, losses: i32, score: i32) -> ScheduleTeam {
    ScheduleTeam {
        team_tricode: tc.map(|s| s.to_string()),
        team_name: tc.map(|s| format!("{s} name")),
        team_city: tc.map(|s| format!("{s} city")),
        wins,
        losses,
        score,
    }
}

fn game(away: Option<&str>, home: Option<&str>, text: &str) -> ScheduleGame {
    ScheduleGame {
        game_status: 1,
        game_status_text: text.to_string(),
        home_team: team(home, 0, 0, 0),
        away_team: team(away, 0, 0, 0),
    }
}

fn day(date: &str, games: Vec<ScheduleGame>) -> ScheduleGameDate {
    ScheduleGameDate { game_date: date.to_string(), games }
}

fn date(n: i32) -> Date {
    Date::from_day_number(n).unwrap()
}

fn schedule() -> Vec<ScheduleGameDate> {
    vec![
        day("10/20/2024 00:00:00", vec![game(Some("MIA"), Some("BOS"), "7:00 pm ET")]),
        day("10/22/2024 00:00:00", vec![
            game(Some("NYK"), Some("BOS"), " 7:30 pm ET "),
            game(Some("MIN"), Some("LAL"), "10:00 pm ET"),
        ]),
        day("10/23/2024 00:00:00", vec![]),
        day("not a date", vec![game(Some("MIA"), Some("ORL"), "TBD")]),
        day("10/25/2024 00:00:00", vec![
            game(Some("MIA"), Some("CHA"), "7:00 pm ET"),
            game(None, Some("PHX"), "9:00 pm ET"),
        ]),
        day("10/29/2024 00:00:00", vec![game(Some("BOS"), Some("MIA"), "7:30 pm ET")]),
        day("10/30/2024 00:00:00", vec![game(Some("mia"), Some("DET"), "7:00 pm ET")]),
    ]
}

#[test]
fn from_schedule_fills_missing_names() {
    let g = Game::from_schedule(&game(None, Some("PHX"), "  9:00 pm ET\n"));
    assert_eq!(g.away_tricode, "");
    assert_eq!(g.away_city, "");
    assert_eq!(g.home_tricode, "PHX");
    assert_eq!(g.home_city, "PHX city");
    assert_eq!(g.home_name, "PHX name");
    assert_eq!(g.game_status_text, "9:00 pm ET");
}

#[test]
fn from_live_keeps_fields_and_trims_status() {
    let lt = |tc: &str, score: i32| LiveTeam {
        team_tricode: tc.to_string(),
        team_name: format!("{tc} name"),
        team_city: format!("{tc} city"),
        score,
        wins: 3,
        losses: 1,
    };
    let live = LiveGame {
        game_status: 2,
        game_status_text: "Q3 5:12 ".to_string(),
        home_team: lt("BOS", 90),
        away_team: lt("MIA", 88),
    };
    let g = Game::from_live(&live);
    assert_eq!(g.game_status, 2);
    assert_eq!(g.game_status_text, "Q3 5:12");
    assert_eq!(g.home_tricode, "BOS");
    assert_eq!(g.home_score, 90);
    assert_eq!(g.away_tricode, "MIA");
    assert_eq!(g.away_city, "MIA city");
    assert_eq!(g.away_name, "MIA name");
    assert_eq!(g.away_wins, 3);
    let all = games_from_live(&vec![live]);
    assert_eq!(all.len(), 1);
    assert_eq!(all[0].away_score, 88);
}

#[test]
fn schedule_days_are_parsed() {
    let days = parse_schedule_days(&schedule());
    assert_eq!(days.len(), 7);
    assert_eq!(days[0], Some(date(739179)));
    assert_eq!(days[3], None);
}

#[test]
fn week_filter_keeps_days_within_seven_days() {
    let week = filter_next_week(&schedule(), date(739181));
    let kept: Vec<&str> = week.iter().map(|d| d.game_date.as_str()).collect();
    assert_eq!(kept, vec![
        "10/22/2024 00:00:00",
        "10/23/2024 00:00:00",
        "10/25/2024 00:00:00",
        "10/29/2024 00:00:00",
    ]);
    assert_eq!(week[0].games.len(), 2);
    assert_eq!(week[0].games[0].game_status_text, " 7:30 pm ET ");
}

#[test]
fn week_filter_at_the_end_of_the_schedule() {
    assert!(filter_next_week(&schedule(), date(739200)).is_empty());
    assert!(filter_next_week(&[], date(MAX_DAY - 7)).is_empty());
}

#[test]
fn cache_coverage() {
    let s = schedule();
    assert!(covers_date(&s, date(739189)));
    assert!(!covers_date(&s, date(739190)));
    assert!(!covers_date(&[], date(739181)));
    assert!(covers_date_in(&[None, Some(date(5))], date(5)));
    assert!(!covers_date_in(&[None, Some(date(4))], date(5)));
}

#[test]
fn games_of_a_day() {
    let s = schedule();
    let games = games_for_date(&s, date(739181));
    assert_eq!(games.len(), 2);
    assert_eq!(games[0].away_tricode, "NYK");
    assert_eq!(games[0].game_status_text, "7:30 pm ET");
    assert_eq!(games[1].home_tricode, "LAL");
    assert!(games_for_date(&s, date(739183)).is_empty());
    assert!(games_for_date(&s, date(739182)).is_empty());
    assert_eq!(games_with_date_text(&s, "10/25").len(), 2);
    assert!(games_with_date_text(&s, "11/").is_empty());
}

#[test]
fn next_day_with_games() {
    let s = schedule();
    assert_eq!(next_game_date(&s, date(739181)), Some(date(739184)));
    assert_eq!(next_game_date(&s, date(739179)), Some(date(739181)));
    assert_eq!(next_game_date(&s, date(739189)), None);
    assert_eq!(next_game_date(&s, date(MAX_DAY)), None);
    let days = vec![Some(date(10)), None, Some(date(12))];
    let three = vec![day("a", vec![game(None, None, "")]), day("b", vec![game(None, None, "")]), day("c", vec![game(None, None, "")])];
    assert_eq!(next_game_date_in(&three, &days, date(10)), Some(date(12)));
}

#[test]
fn team_games_from_today_on() {
    let s = schedule();
    let days = parse_schedule_days(&s);
    let games = upcoming_team_games_in(&s, &days, "mia", 6, date(739181));
    let found: Vec<(i32, &str, &str)> =
        games.iter().map(|(d, g)| (d.day, g.away_tricode.as_str(), g.home_tricode.as_str())).collect();
    assert_eq!(found, vec![(739184, "MIA", "CHA"), (739188, "BOS", "MIA"), (739189, "mia", "DET")]);
}

#[test]
fn team_games_are_limited_to_count() {
    let s = schedule();
    let days = parse_schedule_days(&s);
    assert_eq!(upcoming_team_games_in(&s, &days, "MIA", 2, date(739179)).len(), 2);
    assert_eq!(upcoming_team_games_in(&s, &days, "MIA", 0, date(739179)).len(), 1);
    assert_eq!(upcoming_team_games_in(&s, &days, "XYZ", 6, date(739179)).len(), 0);
    let first = upcoming_team_games_in(&s, &days, "bos", 1, date(739179));
    assert_eq!(first[0].0.day, 739179);
}

#[test]
fn missing_tricode_matches_empty_team() {
    let s = schedule();
    let days = parse_schedule_days(&s);
    let games = upcoming_team_games_in(&s, &days, "", 6, date(739179));
    assert_eq!(games.len(), 1);
    assert_eq!(games[0].1.home_tricode, "PHX");
}

#[test]
fn team_games_use_today() {
    let s = vec![day("01/01/9999 00:00:00", vec![game(Some("MIA"), Some("BOS"), "")])];
    assert_eq!(upcoming_team_games(&s, "MIA", 6).len(), 1);
    let old = vec![day("01/01/2000 00:00:00", vec![game(Some("MIA"), Some("BOS"), "")])];
    assert!(upcoming_team_games(&old, "MIA", 6).is_empty());
}

#[test]
fn live_scores_choice() {
    let t = date(739181);
    assert!(use_live_scores(t, t, false, false));
    assert!(use_live_scores(t, t, true, true));
    assert!(!use_live_scores(t, t, false, true));
    assert!(!use_live_scores(date(739182), t, true, false));
}

#[test]
fn shown_day_moves_to_next_game_day() {
    let s = schedule();
    let (d, games) = games_to_show(&s, date(739182), false);
    assert_eq!(d, date(739184));
    assert_eq!(games.len(), 2);
    let (d, games) = games_to_show(&s, date(739182), true);
    assert_eq!(d, date(739182));
    assert!(games.is_empty());
    let (d, games) = games_to_show(&s, date(739181), false);
    assert_eq!(d, date(739181));
    assert_eq!(games.len(), 2);
    let (d, games) = games_to_show(&s, date(739300), false);
    assert_eq!(d, date(739300));
    assert!(games.is_empty());
}
