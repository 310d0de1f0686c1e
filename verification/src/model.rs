//! The games as the two NBA feeds give them, and the one `Game` type that the
//! rest of the library reads.
use vstd::prelude::*;
use crate::text::{trim, trimmed};

verus! {

/// A team in the live scoreboard feed.
#[derive(Debug)]
pub struct LiveTeam {
    pub team_tricode: String,
    pub team_name: String,
    pub team_city: String,
    pub score: i32,
    pub wins: i32,
    pub losses: i32,
}

/// A game in the live scoreboard feed.
#[derive(Debug)]
pub struct LiveGame {
    pub game_status: i32,
    pub game_status_text: String,
    pub home_team: LiveTeam,
    pub away_team: LiveTeam,
}

/// A team in the league schedule feed, whose names may be missing.
#[derive(Debug)]
pub struct ScheduleTeam {
    pub team_tricode: Option<String>,
    pub team_name: Option<String>,
    pub team_city: Option<String>,
    pub wins: i32,
    pub losses: i32,
    pub score: i32,
}

/// A game in the league schedule feed.
#[derive(Debug)]
pub struct ScheduleGame {
    pub game_status: i32,
    pub game_status_text: String,
    pub home_team: ScheduleTeam,
    pub away_team: ScheduleTeam,
}

/// One day of the league schedule: its date as the feed writes it
/// (such as `10/22/2024 00:00:00`) and its games.
#[derive(Debug)]
pub struct ScheduleGameDate {
    pub game_date: String,
    pub games: Vec<ScheduleGame>,
}

/// A game, from either feed. Status 1 is scheduled, 2 live, 3 final.
#[derive(Debug)]
pub struct Game {
    pub game_status: i32,
    pub game_status_text: String,
    pub home_tricode: String,
    pub home_city: String,
    pub home_name: String,
    pub home_score: i32,
    pub home_wins: i32,
    pub home_losses: i32,
    pub away_tricode: String,
    pub away_city: String,
    pub away_name: String,
    pub away_score: i32,
    pub away_wins: i32,
    pub away_losses: i32,
}

/// The model of a `LiveTeam`.
pub struct LiveTeamView {
    pub team_tricode: Seq<char>,
    pub team_name: Seq<char>,
    pub team_city: Seq<char>,
    pub score: i32,
    pub wins: i32,
    pub losses: i32,
}

/// The model of a `LiveGame`.
pub struct LiveGameView {
    pub game_status: i32,
    pub game_status_text: Seq<char>,
    pub home_team: LiveTeamView,
    pub away_team: LiveTeamView,
}

/// The model of a `ScheduleTeam`.
pub struct ScheduleTeamView {
    pub team_tricode: Option<Seq<char>>,
    pub team_name: Option<Seq<char>>,
    pub team_city: Option<Seq<char>>,
    pub wins: i32,
    pub losses: i32,
    pub score: i32,
}

/// The model of a `ScheduleGame`.
pub struct ScheduleGameView {
    pub game_status: i32,
    pub game_status_text: Seq<char>,
    pub home_team: ScheduleTeamView,
    pub away_team: ScheduleTeamView,
}

/// The model of a `ScheduleGameDate`.
pub struct ScheduleGameDateView {
    pub game_date: Seq<char>,
    pub games: Seq<ScheduleGameView>,
}

/// The model of a `Game`.
pub struct GameView {
    pub game_status: i32,
    pub game_status_text: Seq<char>,
    pub home_tricode: Seq<char>,
    pub home_city: Seq<char>,
    pub home_name: Seq<char>,
    pub home_score: i32,
    pub home_wins: i32,
    pub home_losses: i32,
    pub away_tricode: Seq<char>,
    pub away_city: Seq<char>,
    pub away_name: Seq<char>,
    pub away_score: i32,
    pub away_wins: i32,
    pub away_losses: i32,
}

/// The text of an optional string, as a sequence of characters.
pub open spec fn opt_text(o: Option<String>) -> Option<Seq<char>> {
    match o {
        Some(s) => Some(s@),
        None => None,
    }
}

/// An optional text, or the empty text where it is missing (`unwrap_or_default`).
pub open spec fn or_empty(o: Option<Seq<char>>) -> Seq<char> {
    match o {
        Some(s) => s,
        None => Seq::empty(),
    }
}

impl View for LiveTeam {
    type V = LiveTeamView;

    open spec fn view(&self) -> LiveTeamView {
        LiveTeamView {
            team_tricode: self.team_tricode@,
            team_name: self.team_name@,
            team_city: self.team_city@,
            score: self.score,
            wins: self.wins,
            losses: self.losses,
        }
    }
}

impl View for LiveGame {
    type V = LiveGameView;

    open spec fn view(&self) -> LiveGameView {
        LiveGameView {
            game_status: self.game_status,
            game_status_text: self.game_status_text@,
            home_team: self.home_team@,
            away_team: self.away_team@,
        }
    }
}

impl View for ScheduleTeam {
    type V = ScheduleTeamView;

    open spec fn view(&self) -> ScheduleTeamView {
        ScheduleTeamView {
            team_tricode: opt_text(self.team_tricode),
            team_name: opt_text(self.team_name),
            team_city: opt_text(self.team_city),
            wins: self.wins,
            losses: self.losses,
            score: self.score,
        }
    }
}

impl View for ScheduleGame {
    type V = ScheduleGameView;

    open spec fn view(&self) -> ScheduleGameView {
        ScheduleGameView {
            game_status: self.game_status,
            game_status_text: self.game_status_text@,
            home_team: self.home_team@,
            away_team: self.away_team@,
        }
    }
}

/// The models of a sequence of schedule games.
pub open spec fn schedule_games_view(games: Seq<ScheduleGame>) -> Seq<ScheduleGameView> {
    games.map_values(|g: ScheduleGame| g@)
}

impl View for ScheduleGameDate {
    type V = ScheduleGameDateView;

    open spec fn view(&self) -> ScheduleGameDateView {
        ScheduleGameDateView { game_date: self.game_date@, games: schedule_games_view(self.games@) }
    }
}

/// The models of a sequence of schedule days.
pub open spec fn schedule_view(dates: Seq<ScheduleGameDate>) -> Seq<ScheduleGameDateView> {
    dates.map_values(|d: ScheduleGameDate| d@)
}

impl View for Game {
    type V = GameView;

    open spec fn view(&self) -> GameView {
        GameView {
            game_status: self.game_status,
            game_status_text: self.game_status_text@,
            home_tricode: self.home_tricode@,
            home_city: self.home_city@,
            home_name: self.home_name@,
            home_score: self.home_score,
            home_wins: self.home_wins,
            home_losses: self.home_losses,
            away_tricode: self.away_tricode@,
            away_city: self.away_city@,
            away_name: self.away_name@,
            away_score: self.away_score,
            away_wins: self.away_wins,
            away_losses: self.away_losses,
        }
    }
}

/// The models of a sequence of games.
pub open spec fn games_view(games: Seq<Game>) -> Seq<GameView> {
    games.map_values(|g: Game| g@)
}

/// The game that a live scoreboard entry describes: its status text trimmed, all else kept.
pub open spec fn game_of_live(g: LiveGameView) -> GameView {
    GameView {
        game_status: g.game_status,
        game_status_text: trimmed(g.game_status_text),
        home_tricode: g.home_team.team_tricode,
        home_city: g.home_team.team_city,
        home_name: g.home_team.team_name,
        home_score: g.home_team.score,
        home_wins: g.home_team.wins,
        home_losses: g.home_team.losses,
        away_tricode: g.away_team.team_tricode,
        away_city: g.away_team.team_city,
        away_name: g.away_team.team_name,
        away_score: g.away_team.score,
        away_wins: g.away_team.wins,
        away_losses: g.away_team.losses,
    }
}

/// The game that a schedule entry describes: its status text trimmed, missing names
/// empty, all else kept.
pub open spec fn game_of_schedule(g: ScheduleGameView) -> GameView {
    GameView {
        game_status: g.game_status,
        game_status_text: trimmed(g.game_status_text),
        home_tricode: or_empty(g.home_team.team_tricode),
        home_city: or_empty(g.home_team.team_city),
        home_name: or_empty(g.home_team.team_name),
        home_score: g.home_team.score,
        home_wins: g.home_team.wins,
        home_losses: g.home_team.losses,
        away_tricode: or_empty(g.away_team.team_tricode),
        away_city: or_empty(g.away_team.team_city),
        away_name: or_empty(g.away_team.team_name),
        away_score: g.away_team.score,
        away_wins: g.away_team.wins,
        away_losses: g.away_team.losses,
    }
}

/// A game built from either feed keeps each side's own numbers and tricode: the
/// home team's score, record and tricode stay the home team's, the away team's stay
/// the away team's, and the status is kept.
pub proof fn law_games_keep_each_side(l: LiveGameView, s: ScheduleGameView)
    ensures
        game_of_live(l).game_status == l.game_status,
        game_of_live(l).home_score == l.home_team.score,
        game_of_live(l).away_score == l.away_team.score,
        game_of_live(l).home_wins == l.home_team.wins && game_of_live(l).home_losses == l.home_team.losses,
        game_of_live(l).away_wins == l.away_team.wins && game_of_live(l).away_losses == l.away_team.losses,
        game_of_live(l).home_tricode == l.home_team.team_tricode,
        game_of_live(l).away_tricode == l.away_team.team_tricode,
        game_of_schedule(s).game_status == s.game_status,
        game_of_schedule(s).home_score == s.home_team.score,
        game_of_schedule(s).away_score == s.away_team.score,
        game_of_schedule(s).home_wins == s.home_team.wins && game_of_schedule(s).home_losses == s.home_team.losses,
        game_of_schedule(s).away_wins == s.away_team.wins && game_of_schedule(s).away_losses == s.away_team.losses,
        s.home_team.team_tricode matches Some(t) ==> game_of_schedule(s).home_tricode == t,
        s.away_team.team_tricode matches Some(t) ==> game_of_schedule(s).away_tricode == t,
        s.home_team.team_tricode is None ==> game_of_schedule(s).home_tricode.len() == 0,
        s.away_team.team_tricode is None ==> game_of_schedule(s).away_tricode.len() == 0,
{
}

/// A copy of an optional string.
pub fn copy_opt(o: &Option<String>) -> (r: Option<String>)
    ensures
        opt_text(r) == opt_text(*o),
{
    match o {
        Some(s) => Some(s.clone()),
        None => None,
    }
}

/// The optional string's text, or an empty string.
pub fn text_or_empty(o: &Option<String>) -> (r: String)
    ensures
        r@ == or_empty(opt_text(*o)),
{
    match o {
        Some(s) => s.clone(),
        None => String::new(),
    }
}

impl Game {
    /// The game that a live scoreboard entry describes.
    pub fn from_live(g: &LiveGame) -> (r: Game)
        ensures
            r@ == game_of_live(g@),
            r.game_status == g.game_status,
            r.home_score == g.home_team.score,
            r.away_score == g.away_team.score,
            r.home_wins == g.home_team.wins,
            r.home_losses == g.home_team.losses,
            r.away_wins == g.away_team.wins,
            r.away_losses == g.away_team.losses,
            r.home_tricode@ == g.home_team.team_tricode@,
            r.away_tricode@ == g.away_team.team_tricode@,
    {
        Game {
            game_status: g.game_status,
            game_status_text: trim(g.game_status_text.as_str()),
            home_tricode: g.home_team.team_tricode.clone(),
            home_city: g.home_team.team_city.clone(),
            home_name: g.home_team.team_name.clone(),
            home_score: g.home_team.score,
            home_wins: g.home_team.wins,
            home_losses: g.home_team.losses,
            away_tricode: g.away_team.team_tricode.clone(),
            away_city: g.away_team.team_city.clone(),
            away_name: g.away_team.team_name.clone(),
            away_score: g.away_team.score,
            away_wins: g.away_team.wins,
            away_losses: g.away_team.losses,
        }
    }

    /// The game that a schedule entry describes.
    pub fn from_schedule(g: &ScheduleGame) -> (r: Game)
        ensures
            r@ == game_of_schedule(g@),
            r.game_status == g.game_status,
            r.home_score == g.home_team.score,
            r.away_score == g.away_team.score,
            r.home_wins == g.home_team.wins,
            r.home_losses == g.home_team.losses,
            r.away_wins == g.away_team.wins,
            r.away_losses == g.away_team.losses,
            r.home_tricode@ == or_empty(opt_text(g.home_team.team_tricode)),
            r.away_tricode@ == or_empty(opt_text(g.away_team.team_tricode)),
    {
        Game {
            game_status: g.game_status,
            game_status_text: trim(g.game_status_text.as_str()),
            home_tricode: text_or_empty(&g.home_team.team_tricode),
            home_city: text_or_empty(&g.home_team.team_city),
            home_name: text_or_empty(&g.home_team.team_name),
            home_score: g.home_team.score,
            home_wins: g.home_team.wins,
            home_losses: g.home_team.losses,
            away_tricode: text_or_empty(&g.away_team.team_tricode),
            away_city: text_or_empty(&g.away_team.team_city),
            away_name: text_or_empty(&g.away_team.team_name),
            away_score: g.away_team.score,
            away_wins: g.away_team.wins,
            away_losses: g.away_team.losses,
        }
    }
}

impl ScheduleTeam {
    /// A copy of the team.
    pub fn duplicate(&self) -> (r: ScheduleTeam)
        ensures
            r@ == self@,
    {
        ScheduleTeam {
            team_tricode: copy_opt(&self.team_tricode),
            team_name: copy_opt(&self.team_name),
            team_city: copy_opt(&self.team_city),
            wins: self.wins,
            losses: self.losses,
            score: self.score,
        }
    }
}

impl ScheduleGame {
    /// A copy of the game.
    pub fn duplicate(&self) -> (r: ScheduleGame)
        ensures
            r@ == self@,
    {
        ScheduleGame {
            game_status: self.game_status,
            game_status_text: self.game_status_text.clone(),
            home_team: self.home_team.duplicate(),
            away_team: self.away_team.duplicate(),
        }
    }
}

impl ScheduleGameDate {
    /// A copy of the day and its games.
    pub fn duplicate(&self) -> (r: ScheduleGameDate)
        ensures
            r@ == self@,
    {
        let mut games: Vec<ScheduleGame> = Vec::new();
        let n = self.games.len();
        for i in 0..n
            invariant
                n == self.games@.len(),
                games@.len() == i,
                forall|k: int| 0 <= k < i ==> (#[trigger] games@[k])@ == self.games@[k]@,
        {
            games.push(self.games[i].duplicate());
        }
        assert(schedule_games_view(games@) =~= schedule_games_view(self.games@));
        ScheduleGameDate { game_date: self.game_date.clone(), games }
    }
}

/// The games of the live scoreboard, each as `Game::from_live` gives it.
pub fn games_from_live(games: &Vec<LiveGame>) -> (r: Vec<Game>)
    ensures
        r@.len() == games@.len(),
        forall|i: int| 0 <= i < games@.len() ==> (#[trigger] r@[i])@ == game_of_live(games@[i]@),
{
    let mut r: Vec<Game> = Vec::new();
    let n = games.len();
    for i in 0..n
        invariant
            n == games@.len(),
            r@.len() == i,
            forall|k: int| 0 <= k < i ==> (#[trigger] r@[k])@ == game_of_live(games@[k]@),
    {
        r.push(Game::from_live(&games[i]));
    }
    r
}

} // verus!
