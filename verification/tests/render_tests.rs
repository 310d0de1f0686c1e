use nba::date::Date;
use nba::model::Game;
use nba::render::{
    card_line, date_label, games_lines, hline, live_label, render_card, schedule_line_of,
    team_schedule_lines, W,
};

fn game(status: i32, text: &str, away: (&str, i32, i32, i32), home: (&str, i32, i32, i32)) -> Game {
    Game {
        game_status: status,
        game_status_text: text.to_string(),
        home_tricode: home.0.to_string(),
        home_city: String::new(),
        home_name: String::new(),
        home_score: home.3,
        home_wins: home.1,
        home_losses: home.2,
        away_tricode: away.0.to_string(),
        away_city: String::new(),
        away_name: String::new(),
        away_score: away.3,
        away_wins: away.1,
        away_losses: away.2,
    }
}

fn live_game() -> Game {
    game(2, "Q3 5:12", ("MIA", 3, 1, 88), ("BOS", 2, 2, 90))
}

fn scheduled_game() -> Game {
    game(1, "7:30 pm ET", ("", 0, 0, 0), ("LAL", 0, 0, 0))
}

fn final_game() -> Game {
    game(3, "Final", ("NYK", 10, 5, 101), ("CHI", 4, 11, 99))
}

fn boxed(inner: &str) -> String {
    format!("\u{2502}{inner}\u{2502}")
}

#[test]
fn edges_of_a_card() {
    let top = hline("\u{256d}", "\u{2500}", "\u{256e}");
    assert_eq!(top, format!("\u{256d}{}\u{256e}", "\u{2500}".repeat(24)));
    assert_eq!(top.chars().count(), W + 2);
}

#[test]
fn card_line_pads_or_overflows() {
    assert_eq!(card_line(" Final", 6), boxed(" Final                  "));
    assert_eq!(card_line("abc", 30), boxed("abc"));
    assert_eq!(card_line("", 24), boxed(""));
}

#[test]
fn live_card() {
    let lines = render_card(&live_game());
    assert_eq!(lines, vec![
        boxed(" \u{25cf} Q3 5:12              "),
        boxed("  MIA (3-1)        88   "),
        boxed("  BOS (2-2)        90 * "),
    ]);
    for l in &lines {
        assert_eq!(l.chars().count(), W + 2);
    }
}

#[test]
fn scheduled_card() {
    assert_eq!(render_card(&scheduled_game()), vec![
        boxed(" 7:30 pm ET             "),
        boxed("  TBD                   "),
        boxed("  LAL                   "),
    ]);
}

#[test]
fn final_card() {
    assert_eq!(render_card(&final_game()), vec![
        boxed(" Final                  "),
        boxed("  NYK (10-5)      101 * "),
        boxed("  CHI (4-11)       99   "),
    ]);
}

#[test]
fn tied_game_marks_no_winner() {
    let lines = render_card(&game(2, "Half", ("A", 0, 0, 50), ("B", 0, 0, 50)));
    assert!(!lines[1].contains('*'));
    assert!(!lines[2].contains('*'));
}

#[test]
fn long_record_leaves_one_space() {
    let lines = render_card(&game(3, "Final", ("TOR", 1000000, 2000000, 1234), ("B", 0, 0, 0)));
    assert_eq!(lines[1], boxed("  TOR (1000000-2000000) 1234 * "));
}

#[test]
fn no_games_view() {
    assert_eq!(games_lines("2024-10-22 (today)", &[]), vec![
        String::new(),
        "  \u{2500}\u{2500} NBA Scores \u{2014} 2024-10-22 (today) \u{2500}\u{2500}".to_string(),
        String::new(),
        "  No games scheduled.".to_string(),
        String::new(),
    ]);
}

#[test]
fn grid_of_three_games() {
    let games = vec![live_game(), scheduled_game(), final_game()];
    let lines = games_lines("x", &games);
    assert_eq!(lines.len(), 3 + 5 * 2);
    let top = hline("\u{256d}", "\u{2500}", "\u{256e}");
    let bot = hline("\u{2570}", "\u{2500}", "\u{256f}");
    let a = render_card(&games[0]);
    let b = render_card(&games[1]);
    let c = render_card(&games[2]);
    assert_eq!(lines[2], format!("  {top}  {top}"));
    assert_eq!(lines[3], format!("  {}  {}", a[0], b[0]));
    assert_eq!(lines[5], format!("  {}  {}", a[2], b[2]));
    assert_eq!(lines[6], format!("  {bot}  {bot}"));
    assert_eq!(lines[7], format!("  {top}"));
    assert_eq!(lines[8], format!("  {}", c[0]));
    assert_eq!(lines[11], format!("  {bot}"));
    assert_eq!(lines[12], "");
}

#[test]
fn team_schedule_view() {
    let d = Date::from_day_number(739181).unwrap();
    let lines = team_schedule_lines("lal", &[(d, scheduled_game()), (d, live_game())]);
    assert_eq!(lines, vec![
        String::new(),
        "  \u{2500}\u{2500} LAL Upcoming Games \u{2500}\u{2500}".to_string(),
        String::new(),
        "  Tue 10/22  vs TBD  7:30 pm ET".to_string(),
        "  Tue 10/22   @ BOS  Q3 5:12".to_string(),
        String::new(),
    ]);
    assert_eq!(team_schedule_lines("mia", &[]), vec![
        String::new(),
        "  \u{2500}\u{2500} MIA Upcoming Games \u{2500}\u{2500}".to_string(),
        String::new(),
        "  No upcoming games found.".to_string(),
        String::new(),
    ]);
}

#[test]
fn schedule_line_pads_short_opponent() {
    let g = game(1, "8:00 pm ET", ("LA", 0, 0, 0), ("MIA", 0, 0, 0));
    assert_eq!(schedule_line_of("Wed 10/23", "MIA", &g), "  Wed 10/23  vs LA   8:00 pm ET");
}

#[test]
fn labels() {
    let d = Date::from_day_number(739181).unwrap();
    let e = Date::from_day_number(739182).unwrap();
    assert_eq!(date_label(d, d), "2024-10-22 (today)");
    assert_eq!(date_label(e, d), "2024-10-23  Wednesday");
    assert_eq!(live_label("2024-10-22"), "2024-10-22 (live)");
}
