//! The text that the command prints: score cards laid out two to a row, and a
//! team's list of coming games.
use vstd::prelude::*;
use crate::date::{Date, chrono_format_date};
use crate::model::{Game, GameView, games_view};
use crate::schedule::dated_games_view;
use crate::text::{
    align_left, align_right, decimal, eq_ascii_nocase, eq_ignore_ascii_case, int_to_decimal,
    lemma_decimal_i32_len, lemma_repeat_len, lemma_spaces_len, pad_left, pad_right, push_char, repeat, repeat_str, spaces, spaces_str,
    to_ascii_uppercase, upper_ascii,
};

verus! {

/// The inner width of a score card, in characters.
pub const W: usize = 24;

/// The vertical edge of a card.
pub open spec fn bar() -> char {
    '\u{2502}'
}

/// A line of `left`, `W` copies of `fill`, and `right`.
pub open spec fn hline_text(left: Seq<char>, fill: Seq<char>, right: Seq<char>) -> Seq<char> {
    left + repeat(fill, W as nat) + right
}

/// Draws a horizontal edge: `left`, `W` copies of `fill`, `right`.
pub fn hline(left: &str, fill: &str, right: &str) -> (r: String)
    ensures
        r@ == hline_text(left@, fill@, right@),
{
    let mut r = String::from_str(left);
    let middle = repeat_str(fill, W);
    r.append(middle.as_str());
    r.append(right);
    r
}

/// A card line: `content` between two edges, padded with spaces to `W` characters
/// when `visible_len`, the width it takes, is below `W`.
pub open spec fn card_line_text(content: Seq<char>, visible_len: int) -> Seq<char> {
    let pad: nat = if visible_len < W { (W - visible_len) as nat } else { 0 };
    seq![bar()] + content + spaces(pad) + seq![bar()]
}

/// Draws a card line around `content`, which takes `visible_len` characters.
pub fn card_line(content: &str, visible_len: usize) -> (r: String)
    ensures
        r@ == card_line_text(content@, visible_len as int),
{
    let pad = if visible_len < W { W - visible_len } else { 0 };
    let mut r = String::new();
    push_char(&mut r, '\u{2502}');
    r.append(content);
    let gap = spaces_str(pad);
    r.append(gap.as_str());
    push_char(&mut r, '\u{2502}');
    assert(r@ =~= card_line_text(content@, visible_len as int));
    r
}

/// The tricode shown on a card: `TBD` where it is empty.
pub open spec fn shown_tricode(tc: Seq<char>) -> Seq<char> {
    if tc.len() == 0 { "TBD"@ } else { tc }
}

/// The status shown on a card: a dot before the clock of a live game, `Final` for a
/// finished one, else the feed's text.
pub open spec fn status_text(g: GameView) -> Seq<char> {
    if g.game_status == 2 {
        seq!['\u{25cf}', ' '] + g.game_status_text
    } else if g.game_status == 3 {
        "Final"@
    } else {
        g.game_status_text
    }
}

/// The first line of a card: its status.
pub open spec fn status_line(g: GameView) -> Seq<char> {
    card_line_text(seq![' '] + status_text(g), 1 + status_text(g).len() as int)
}

/// A team's record, ` (wins-losses)`, shown where either count is above zero.
pub open spec fn record_text(wins: i32, losses: i32) -> Seq<char> {
    if wins > 0 || losses > 0 {
        seq![' ', '('] + decimal(wins as int) + seq!['-'] + decimal(losses as int) + seq![')']
    } else {
        Seq::empty()
    }
}

/// A team's score, right-aligned in three characters and followed by ` *` for the
/// winner, shown once the game has started.
pub open spec fn score_text(has_score: bool, score: i32, winner: bool) -> Seq<char> {
    if has_score {
        pad_left(decimal(score as int), 3) + (if winner { seq![' ', '*'] } else { seq![' ', ' '] })
    } else {
        Seq::empty()
    }
}

/// The spaces between a team's record and its score: what fills the card to `W`
/// characters, or one space where nothing is left.
pub open spec fn team_gap(rec_len: int, has_score: bool) -> nat {
    let score_vis: int = if has_score { 5 } else { 0 };
    let left_vis = 2 + 3 + rec_len;
    let right_vis = score_vis + 1;
    if W > left_vis + right_vis { (W - left_vis - right_vis) as nat } else { 1 }
}

/// A team's line on a card: tricode, record, and score.
pub open spec fn team_line(tc: Seq<char>, wins: i32, losses: i32, score: i32, has_score: bool, winner: bool) -> Seq<char> {
    let rec = record_text(wins, losses);
    seq![bar(), ' ', ' '] + tc + rec + spaces(team_gap(rec.len() as int, has_score))
        + score_text(has_score, score, winner) + seq![' ', bar()]
}

/// The game has a score: it is live or finished.
pub open spec fn has_score(g: GameView) -> bool {
    g.game_status > 1
}

/// The away team leads or won.
pub open spec fn away_wins(g: GameView) -> bool {
    has_score(g) && g.away_score > g.home_score
}

/// The home team leads or won.
pub open spec fn home_wins(g: GameView) -> bool {
    has_score(g) && g.home_score > g.away_score
}

/// The three lines of a game's score card: status, away team, home team.
pub open spec fn card_lines(g: GameView) -> Seq<Seq<char>> {
    seq![
        status_line(g),
        team_line(shown_tricode(g.away_tricode), g.away_wins, g.away_losses, g.away_score, has_score(g), away_wins(g)),
        team_line(shown_tricode(g.home_tricode), g.home_wins, g.home_losses, g.home_score, has_score(g), home_wins(g)),
    ]
}

/// The texts of a sequence of strings.
pub open spec fn texts(v: Seq<String>) -> Seq<Seq<char>> {
    v.map_values(|s: String| s@)
}

fn shown_tricode_of(tc: &String) -> (r: String)
    ensures
        r@ == shown_tricode(tc@),
{
    if tc.as_str().unicode_len() == 0 {
        String::from_str("TBD")
    } else {
        tc.clone()
    }
}

fn record_of(wins: i32, losses: i32) -> (r: String)
    ensures
        r@ == record_text(wins, losses),
        r@.len() <= 26,
{
    let mut rec = String::new();
    if wins > 0 || losses > 0 {
        push_char(&mut rec, ' ');
        push_char(&mut rec, '(');
        let w = int_to_decimal(wins);
        rec.append(w.as_str());
        push_char(&mut rec, '-');
        let l = int_to_decimal(losses);
        rec.append(l.as_str());
        push_char(&mut rec, ')');
    }
    proof {
        lemma_decimal_i32_len(wins);
        lemma_decimal_i32_len(losses);
    }
    assert(rec@ =~= record_text(wins, losses));
    rec
}

fn score_of(has_score: bool, score: i32, winner: bool) -> (r: String)
    ensures
        r@ == score_text(has_score, score, winner),
{
    let mut score_str = String::new();
    if has_score {
        let digits = int_to_decimal(score);
        score_str = align_right(digits.as_str(), 3);
        if winner {
            push_char(&mut score_str, ' ');
            push_char(&mut score_str, '*');
        } else {
            push_char(&mut score_str, ' ');
            push_char(&mut score_str, ' ');
        }
    }
    assert(score_str@ =~= score_text(has_score, score, winner));
    score_str
}

fn team_line_of(tc: &str, wins: i32, losses: i32, score: i32, has_score: bool, winner: bool) -> (r: String)
    ensures
        r@ == team_line(tc@, wins, losses, score, has_score, winner),
{
    let rec = record_of(wins, losses);
    let score_str = score_of(has_score, score, winner);
    let score_vis: usize = if has_score { 5 } else { 0 };
    let left_vis: usize = 2 + 3 + rec.as_str().unicode_len();
    let right_vis: usize = score_vis + 1;
    let gap: usize = if W > left_vis + right_vis { W - left_vis - right_vis } else { 1 };
    assert(gap == team_gap(rec@.len() as int, has_score));
    let mut r = String::new();
    push_char(&mut r, '\u{2502}');
    push_char(&mut r, ' ');
    push_char(&mut r, ' ');
    r.append(tc);
    r.append(rec.as_str());
    let fill = spaces_str(gap);
    r.append(fill.as_str());
    r.append(score_str.as_str());
    push_char(&mut r, ' ');
    push_char(&mut r, '\u{2502}');
    assert(r@ =~= team_line(tc@, wins, losses, score, has_score, winner));
    r
}

/// The three lines of a game's score card.
pub fn render_card(game: &Game) -> (r: Vec<String>)
    ensures
        texts(r@) == card_lines(game@),
{
    let away_tc = shown_tricode_of(&game.away_tricode);
    let home_tc = shown_tricode_of(&game.home_tricode);
    let is_live = game.game_status == 2;
    let is_final = game.game_status == 3;
    let has_score = game.game_status > 1;

    let status = if is_live {
        let mut s = String::new();
        push_char(&mut s, '\u{25cf}');
        push_char(&mut s, ' ');
        s.append(game.game_status_text.as_str());
        s
    } else if is_final {
        String::from_str("Final")
    } else {
        game.game_status_text.clone()
    };
    assert(status@ =~= status_text(game@));
    let mut content = String::new();
    push_char(&mut content, ' ');
    content.append(status.as_str());
    assert(content@ =~= seq![' '] + status_text(game@));
    let n = status.as_str().unicode_len();
    let visible = if n < usize::MAX { n + 1 } else { n };
    let first = card_line(content.as_str(), visible);
    assert(first@ =~= status_line(game@));

    let mut lines: Vec<String> = Vec::new();
    lines.push(first);
    lines.push(team_line_of(
        away_tc.as_str(),
        game.away_wins,
        game.away_losses,
        game.away_score,
        has_score,
        has_score && game.away_score > game.home_score,
    ));
    lines.push(team_line_of(
        home_tc.as_str(),
        game.home_wins,
        game.home_losses,
        game.home_score,
        has_score,
        has_score && game.home_score > game.away_score,
    ));
    assert(texts(lines@) =~= card_lines(game@));
    lines
}


// ── The score grid ──────────────────────────────────────────────────────────

/// The top edge of a card.
pub open spec fn top_edge() -> Seq<char> {
    hline_text("\u{256d}"@, "\u{2500}"@, "\u{256e}"@)
}

/// The bottom edge of a card.
pub open spec fn bottom_edge() -> Seq<char> {
    hline_text("\u{2570}"@, "\u{2500}"@, "\u{256f}"@)
}

/// An edge line of a row of one or two cards.
pub open spec fn edge_row(pair: bool, edge: Seq<char>) -> Seq<char> {
    if pair {
        seq![' ', ' '] + edge + seq![' ', ' '] + edge
    } else {
        seq![' ', ' '] + edge
    }
}

/// Line `row` of the cards of `chunk`, side by side.
pub open spec fn card_row(chunk: Seq<GameView>, row: int) -> Seq<char> {
    if chunk.len() == 2 {
        seq![' ', ' '] + card_lines(chunk[0])[row] + seq![' ', ' '] + card_lines(chunk[1])[row]
    } else {
        seq![' ', ' '] + card_lines(chunk[0])[row]
    }
}

/// The lines of a row of one or two cards: top edge, the three card lines, bottom edge.
pub open spec fn chunk_lines(chunk: Seq<GameView>) -> Seq<Seq<char>> {
    seq![
        edge_row(chunk.len() == 2, top_edge()),
        card_row(chunk, 0),
        card_row(chunk, 1),
        card_row(chunk, 2),
        edge_row(chunk.len() == 2, bottom_edge()),
    ]
}

/// The cards of `games`, two to a row, in order; the last row holds one card when
/// the number of games is odd.
#[verifier::opaque]
pub open spec fn grid(games: Seq<GameView>) -> Seq<Seq<char>>
    decreases games.len(),
{
    if games.len() == 0 {
        Seq::empty()
    } else if games.len() == 1 {
        chunk_lines(games)
    } else {
        chunk_lines(games.take(2)) + grid(games.skip(2))
    }
}

/// The title line of the score view.
pub open spec fn scores_title(label: Seq<char>) -> Seq<char> {
    seq![' ', ' ', '\u{2500}', '\u{2500}'] + " NBA Scores "@ + seq!['\u{2014}', ' '] + label
        + seq![' ', '\u{2500}', '\u{2500}']
}

/// The lines that the score view prints for `games` under `label`: a blank line and
/// the title, then either a notice that no games are scheduled or the grid of cards,
/// and a blank line at the end.
pub open spec fn games_text(label: Seq<char>, games: Seq<GameView>) -> Seq<Seq<char>> {
    let head = seq![Seq::<char>::empty(), scores_title(label)];
    if games.len() == 0 {
        head + seq![Seq::<char>::empty(), "  No games scheduled."@, Seq::<char>::empty()]
    } else {
        head + grid(games) + seq![Seq::<char>::empty()]
    }
}

fn edge_row_of(pair: bool, edge: &String) -> (r: String)
    ensures
        r@ == edge_row(pair, edge@),
{
    let mut r = String::new();
    push_char(&mut r, ' ');
    push_char(&mut r, ' ');
    r.append(edge.as_str());
    if pair {
        push_char(&mut r, ' ');
        push_char(&mut r, ' ');
        r.append(edge.as_str());
    }
    assert(r@ =~= edge_row(pair, edge@));
    r
}

/// The lines of one row of the grid, for the one or two games of `chunk`.
fn chunk_lines_of(chunk: &[Game]) -> (r: Vec<String>)
    requires
        1 <= chunk@.len() <= 2,
    ensures
        texts(r@) == chunk_lines(games_view(chunk@)),
{
    let ghost gv = games_view(chunk@);
    let pair = chunk.len() == 2;
    let top = hline("\u{256d}", "\u{2500}", "\u{256e}");
    assert(top@ =~= top_edge());
    let mut lines: Vec<String> = Vec::new();
    lines.push(edge_row_of(pair, &top));

    let mut cards: Vec<Vec<String>> = Vec::new();
    let n = chunk.len();
    for k in 0..n
        invariant
            n == chunk@.len(),
            gv == games_view(chunk@),
            cards@.len() == k,
            forall|j: int| 0 <= j < k ==> texts((#[trigger] cards@[j])@) == card_lines(gv[j]),
    {
        cards.push(render_card(&chunk[k]));
    }
    let mut max_lines: usize = 0;
    for k in 0..n
        invariant
            n == chunk@.len(),
            cards@.len() == n,
            gv == games_view(chunk@),
            forall|j: int| 0 <= j < n ==> texts((#[trigger] cards@[j])@) == card_lines(gv[j]),
            max_lines == (if k == 0 { 0usize } else { 3usize }),
    {
        assert(texts(cards@[k as int]@).len() == 3);
        let len = cards[k].len();
        if len > max_lines {
            max_lines = len;
        }
    }
    let mut empty_inner = String::new();
    push_char(&mut empty_inner, '\u{2502}');
    let blank = spaces_str(W);
    empty_inner.append(blank.as_str());
    push_char(&mut empty_inner, '\u{2502}');
    for row in 0..max_lines
        invariant
            n == chunk@.len(),
            1 <= n <= 2,
            pair == (n == 2),
            max_lines == 3,
            cards@.len() == n,
            gv == games_view(chunk@),
            forall|j: int| 0 <= j < n ==> texts((#[trigger] cards@[j])@) == card_lines(gv[j]),
            lines@.len() == 1 + row,
            texts(lines@) == seq![edge_row(pair, top_edge())] + Seq::new(row as nat, |i: int| card_row(gv, i)),
    {
        let ghost before = texts(lines@);
        assert(texts(cards@[0]@).len() == 3);
        let left: &String = if row < cards[0].len() { &cards[0][row] } else { &empty_inner };
        assert(left@ == card_lines(gv[0])[row as int]);
        let mut line = String::new();
        push_char(&mut line, ' ');
        push_char(&mut line, ' ');
        line.append(left.as_str());
        if cards.len() > 1 {
            assert(texts(cards@[1]@).len() == 3);
            let right: &String = if row < cards[1].len() { &cards[1][row] } else { &empty_inner };
            assert(right@ == card_lines(gv[1])[row as int]);
            push_char(&mut line, ' ');
            push_char(&mut line, ' ');
            line.append(right.as_str());
        }
        assert(line@ =~= card_row(gv, row as int));
        lines.push(line);
        assert(texts(lines@) =~= before.push(card_row(gv, row as int)));
        assert(seq![edge_row(pair, top_edge())] + Seq::new((row + 1) as nat, |i: int| card_row(gv, i))
            =~= (seq![edge_row(pair, top_edge())] + Seq::new(row as nat, |i: int| card_row(gv, i))).push(card_row(gv, row as int)));
    }
    let bot = hline("\u{2570}", "\u{2500}", "\u{256f}");
    assert(bot@ =~= bottom_edge());
    let ghost before = texts(lines@);
    lines.push(edge_row_of(pair, &bot));
    assert(texts(lines@) =~= before.push(edge_row(pair, bottom_edge())));
    assert(texts(lines@) =~= chunk_lines(gv));
    lines
}

/// The first row of the grid, and the rest.
proof fn lemma_grid_step(g: Seq<GameView>)
    requires
        g.len() >= 1,
    ensures
        g.len() == 1 ==> grid(g) == chunk_lines(g) + grid(g.skip(1)),
        g.len() >= 2 ==> grid(g) == chunk_lines(g.take(2)) + grid(g.skip(2)),
{
    reveal(grid);
    if g.len() == 1 {
        assert(g.skip(1) =~= Seq::<GameView>::empty());
        assert(grid(g.skip(1)) == Seq::<Seq<char>>::empty());
        assert(chunk_lines(g) + Seq::<Seq<char>>::empty() =~= chunk_lines(g));
    }
}

/// Appends the lines of `part` to `lines`.
fn append_lines(lines: &mut Vec<String>, part: Vec<String>)
    ensures
        texts(final(lines)@) == texts(old(lines)@) + texts(part@),
{
    let mut k: usize = 0;
    let m = part.len();
    while k < m
        invariant
            m == part@.len(),
            k <= m,
            texts(lines@) == texts(old(lines)@) + texts(part@).take(k as int),
        decreases m - k,
    {
        let ghost cur = texts(lines@);
        lines.push(part[k].clone());
        assert(texts(part@).take(k + 1) =~= texts(part@).take(k as int).push(part@[k as int]@));
        assert(texts(lines@) =~= cur.push(part@[k as int]@));
        k = k + 1;
    }
    assert(texts(part@).take(m as int) =~= texts(part@));
}

/// The lines that the score view prints for `games` under `date_label`.
pub fn games_lines(date_label: &str, games: &[Game]) -> (r: Vec<String>)
    ensures
        texts(r@) == games_text(date_label@, games_view(games@)),
{
    let ghost gv = games_view(games@);
    let mut lines: Vec<String> = Vec::new();
    lines.push(String::new());
    let mut title = String::new();
    push_char(&mut title, ' ');
    push_char(&mut title, ' ');
    push_char(&mut title, '\u{2500}');
    push_char(&mut title, '\u{2500}');
    title.append(" NBA Scores ");
    push_char(&mut title, '\u{2014}');
    push_char(&mut title, ' ');
    title.append(date_label);
    push_char(&mut title, ' ');
    push_char(&mut title, '\u{2500}');
    push_char(&mut title, '\u{2500}');
    assert(title@ =~= scores_title(date_label@));
    lines.push(title);
    let ghost head = seq![Seq::<char>::empty(), scores_title(date_label@)];
    assert(texts(lines@) =~= head);

    let n = games.len();
    if n == 0 {
        lines.push(String::new());
        lines.push(String::from_str("  No games scheduled."));
        lines.push(String::new());
        assert(texts(lines@) =~= games_text(date_label@, gv));
        return lines;
    }
    let mut i: usize = 0;
    assert(gv.skip(0) =~= gv);
    while i < n
        invariant
            n == games@.len(),
            gv == games_view(games@),
            i <= n,
            head + grid(gv) == texts(lines@) + grid(gv.skip(i as int)),
        decreases n - i,
    {
        let end = if n - i >= 2 { i + 2 } else { n };
        let chunk = &games[i..end];
        let part = chunk_lines_of(chunk);
        let ghost rest = gv.skip(i as int);
        proof {
            lemma_grid_step(rest);
            assert(games_view(chunk@) =~= gv.subrange(i as int, end as int));
            if end == n && n - i == 1 {
                assert(gv.subrange(i as int, end as int) =~= rest);
                assert(rest.skip(1) =~= gv.skip(end as int));
            } else {
                assert(gv.subrange(i as int, end as int) =~= rest.take(2));
                assert(rest.skip(2) =~= gv.skip(end as int));
            }
        }
        let ghost old_lines = texts(lines@);
        append_lines(&mut lines, part);
        proof {
            assert(old_lines + (texts(part@) + grid(gv.skip(end as int)))
                =~= texts(lines@) + grid(gv.skip(end as int)));
        }
        i = end;
    }
    assert(gv.skip(n as int) =~= Seq::<GameView>::empty());
    assert(grid(gv.skip(n as int)) == Seq::<Seq<char>>::empty()) by {
        reveal(grid);
    }
    assert(texts(lines@) + Seq::<Seq<char>>::empty() =~= texts(lines@));
    let ghost done = texts(lines@);
    lines.push(String::new());
    assert(texts(lines@) =~= done.push(Seq::<char>::empty()));
    lines
}


// ── A team's coming games ───────────────────────────────────────────────────

/// The title line of a team's list of games.
pub open spec fn team_title(tc: Seq<char>) -> Seq<char> {
    seq![' ', ' ', '\u{2500}', '\u{2500}', ' '] + tc + " Upcoming Games "@ + seq!['\u{2500}', '\u{2500}']
}

/// The team's game is at home: the home tricode shown matches, up to ASCII case.
pub open spec fn at_home(team_upper: Seq<char>, g: GameView) -> bool {
    eq_ascii_nocase(shown_tricode(g.home_tricode), team_upper)
}

/// A line of a team's list: the day, `vs` for a home game or `@` for an away game,
/// the opponent's tricode left-aligned in three characters, and the game's status.
pub open spec fn schedule_line(day_text: Seq<char>, team_upper: Seq<char>, g: GameView) -> Seq<char> {
    let home = at_home(team_upper, g);
    let opponent = if home { shown_tricode(g.away_tricode) } else { shown_tricode(g.home_tricode) };
    let loc = if home { seq!['v', 's'] } else { seq![' ', '@'] };
    seq![' ', ' '] + day_text + seq![' ', ' '] + loc + seq![' '] + pad_right(opponent, 3) + seq![' ', ' ']
        + g.game_status_text
}

/// The format of the day in a team's list, such as `Tue 10/22`.
pub open spec fn weekday_format() -> Seq<char> {
    "%a %m/%d"@
}

/// The lines that the team view prints: a blank line, the title with the team in
/// upper case, a blank line, then either a notice that no games were found or one
/// line per game, and a blank line at the end.
pub open spec fn team_schedule_text(team: Seq<char>, games: Seq<(i32, GameView)>) -> Seq<Seq<char>> {
    let tc = upper_ascii(team);
    let head = seq![Seq::<char>::empty(), team_title(tc), Seq::<char>::empty()];
    if games.len() == 0 {
        head + seq!["  No upcoming games found."@, Seq::<char>::empty()]
    } else {
        head + Seq::new(
            games.len(),
            |i: int| schedule_line(chrono_format_date(games[i].0, weekday_format()), tc, games[i].1),
        ) + seq![Seq::<char>::empty()]
    }
}

/// One line of a team's list, for a game on the day written `day_text`, for the team
/// `team_upper` (in upper case).
pub fn schedule_line_of(day_text: &str, team_upper: &str, game: &Game) -> (r: String)
    ensures
        r@ == schedule_line(day_text@, team_upper@, game@),
{
    let away_tc = shown_tricode_of(&game.away_tricode);
    let home_tc = shown_tricode_of(&game.home_tricode);
    let is_home = eq_ignore_ascii_case(home_tc.as_str(), team_upper);
    let opponent = if is_home { &away_tc } else { &home_tc };
    let mut r = String::new();
    push_char(&mut r, ' ');
    push_char(&mut r, ' ');
    r.append(day_text);
    push_char(&mut r, ' ');
    push_char(&mut r, ' ');
    if is_home {
        push_char(&mut r, 'v');
        push_char(&mut r, 's');
    } else {
        push_char(&mut r, ' ');
        push_char(&mut r, '@');
    }
    push_char(&mut r, ' ');
    let opp = align_left(opponent.as_str(), 3);
    r.append(opp.as_str());
    push_char(&mut r, ' ');
    push_char(&mut r, ' ');
    r.append(game.game_status_text.as_str());
    assert(r@ =~= schedule_line(day_text@, team_upper@, game@));
    r
}

/// The lines that the team view prints for `team` and its games.
pub fn team_schedule_lines(team: &str, games: &[(Date, Game)]) -> (r: Vec<String>)
    requires
        forall|k: int| 0 <= k < games@.len() ==> (#[trigger] games@[k]).0.valid(),
    ensures
        texts(r@) == team_schedule_text(team@, dated_games_view(games@)),
{
    let ghost gv = dated_games_view(games@);
    let tc = to_ascii_uppercase(team);
    let mut lines: Vec<String> = Vec::new();
    lines.push(String::new());
    let mut title = String::new();
    push_char(&mut title, ' ');
    push_char(&mut title, ' ');
    push_char(&mut title, '\u{2500}');
    push_char(&mut title, '\u{2500}');
    push_char(&mut title, ' ');
    title.append(tc.as_str());
    title.append(" Upcoming Games ");
    push_char(&mut title, '\u{2500}');
    push_char(&mut title, '\u{2500}');
    assert(title@ =~= team_title(tc@));
    lines.push(title);
    lines.push(String::new());
    let ghost head = seq![Seq::<char>::empty(), team_title(tc@), Seq::<char>::empty()];
    assert(texts(lines@) =~= head);
    let n = games.len();
    if n == 0 {
        lines.push(String::from_str("  No upcoming games found."));
        lines.push(String::new());
        assert(texts(lines@) =~= team_schedule_text(team@, gv));
        return lines;
    }
    let ghost body = Seq::new(
        gv.len(),
        |i: int| schedule_line(chrono_format_date(gv[i].0, weekday_format()), tc@, gv[i].1),
    );
    for i in 0..n
        invariant
            n == games@.len(),
            gv == dated_games_view(games@),
            gv.len() == n,
            tc@ == upper_ascii(team@),
            body == Seq::new(
                gv.len(),
                |i: int| schedule_line(chrono_format_date(gv[i].0, weekday_format()), tc@, gv[i].1),
            ),
            forall|k: int| 0 <= k < games@.len() ==> (#[trigger] games@[k]).0.valid(),
            texts(lines@) == head + body.take(i as int),
    {
        let (date, game) = &games[i];
        let day = date.format("%a %m/%d");
        let line = schedule_line_of(day.as_str(), tc.as_str(), game);
        let ghost cur = texts(lines@);
        lines.push(line);
        assert(body.take(i + 1) =~= body.take(i as int).push(body[i as int]));
        assert(texts(lines@) =~= cur.push(line@));
    }
    assert(body.take(n as int) =~= body);
    let ghost done = texts(lines@);
    lines.push(String::new());
    assert(texts(lines@) =~= done.push(Seq::<char>::empty()));
    assert(texts(lines@) =~= team_schedule_text(team@, gv));
    lines
}

// ── Labels ──────────────────────────────────────────────────────────────────

/// The label of the score view for the schedule of `date`: the date with
/// `(today)` after it when it is today, else the date and the day of the week.
pub open spec fn date_label_text(date: i32, today: i32) -> Seq<char> {
    if date == today {
        chrono_format_date(date, "%Y-%m-%d"@) + " (today)"@
    } else {
        chrono_format_date(date, "%Y-%m-%d  %A"@)
    }
}

/// The label of the score view for the schedule of `date`.
pub fn date_label(date: Date, today: Date) -> (r: String)
    requires
        date.valid(),
    ensures
        r@ == date_label_text(date.day, today.day),
{
    if date.day == today.day {
        let mut r = date.format("%Y-%m-%d");
        r.append(" (today)");
        r
    } else {
        date.format("%Y-%m-%d  %A")
    }
}

/// The label of the score view for the live scoreboard of the day `date_text`.
pub fn live_label(date_text: &str) -> (r: String)
    ensures
        r@ == date_text@ + " (live)"@,
{
    let mut r = String::from_str(date_text);
    r.append(" (live)");
    r
}


// ── Laws ────────────────────────────────────────────────────────────────────

/// A team's line shows its record ` (wins-losses)` right after the tricode whenever
/// either count is above zero; when both are zero or below, only spaces come
/// between the tricode and the score.
pub proof fn law_team_line_record(tc: Seq<char>, wins: i32, losses: i32, score: i32, has_score: bool, winner: bool)
    ensures
        (wins > 0 || losses > 0) ==> {
            let shown = seq![' ', '('] + decimal(wins as int) + seq!['-'] + decimal(losses as int) + seq![')'];
            let line = team_line(tc, wins, losses, score, has_score, winner);
            &&& line.subrange(0, 3 + tc.len() as int) == seq![bar(), ' ', ' '] + tc
            &&& line.subrange(3 + tc.len() as int, 3 + tc.len() + shown.len() as int) == shown
        },
        (wins <= 0 && losses <= 0) ==> exists|gap: nat| gap >= 1 && team_line(tc, wins, losses, score, has_score, winner)
            == seq![bar(), ' ', ' '] + tc + spaces(gap) + score_text(has_score, score, winner) + seq![' ', bar()],
{
    let line = team_line(tc, wins, losses, score, has_score, winner);
    let rec = record_text(wins, losses);
    let rest = spaces(team_gap(rec.len() as int, has_score)) + score_text(has_score, score, winner) + seq![' ', bar()];
    assert(line =~= seq![bar(), ' ', ' '] + tc + rec + rest);
    if wins > 0 || losses > 0 {
        assert(line.subrange(0, 3 + tc.len() as int) =~= seq![bar(), ' ', ' '] + tc);
        assert(line.subrange(3 + tc.len() as int, 3 + tc.len() + rec.len() as int) =~= rec);
    } else {
        let gap = team_gap(0, has_score);
        assert(line =~= seq![bar(), ' ', ' '] + tc + spaces(gap) + score_text(has_score, score, winner) + seq![' ', bar()]);
    }
}

proof fn lemma_spaces_last(n: nat)
    requires
        n >= 1,
    ensures
        spaces(n).last() == ' ',
{
    lemma_spaces_len(n);
    assert(spaces(n) == spaces((n - 1) as nat) + seq![' ']);
}

/// The third character from the end of a team's line is `*` exactly when that team
/// leads or has won: the game has a score and the team's own score is the higher.
pub proof fn law_card_star(g: GameView)
    ensures
        ({
            let away = card_lines(g)[1];
            away.len() >= 3 && (away[away.len() - 3] == '*' <==> (g.game_status > 1 && g.away_score > g.home_score))
        }),
        ({
            let home = card_lines(g)[2];
            home.len() >= 3 && (home[home.len() - 3] == '*' <==> (g.game_status > 1 && g.home_score > g.away_score))
        }),
{
    lemma_star(shown_tricode(g.away_tricode), g.away_wins, g.away_losses, g.away_score, has_score(g), away_wins(g));
    lemma_star(shown_tricode(g.home_tricode), g.home_wins, g.home_losses, g.home_score, has_score(g), home_wins(g));
}

proof fn lemma_star(tc: Seq<char>, wins: i32, losses: i32, score: i32, has_score: bool, winner: bool)
    requires
        winner ==> has_score,
    ensures
        ({
            let line = team_line(tc, wins, losses, score, has_score, winner);
            line.len() >= 3 && (line[line.len() - 3] == '*' <==> winner)
        }),
{
    let line = team_line(tc, wins, losses, score, has_score, winner);
    let rec = record_text(wins, losses);
    let gap = team_gap(rec.len() as int, has_score);
    let st = score_text(has_score, score, winner);
    let front = seq![bar(), ' ', ' '] + tc + rec + spaces(gap);
    assert(line =~= front + st + seq![' ', bar()]);
    lemma_spaces_len(gap);
    if has_score {
        let p = pad_left(decimal(score as int), 3);
        let m: Seq<char> = if winner { seq![' ', '*'] } else { seq![' ', ' '] };
        assert(st =~= p + m);
        assert(line =~= (front + p) + m + seq![' ', bar()]);
        assert(line[line.len() - 3] == m[1]);
    } else {
        assert(gap >= 1);
        lemma_spaces_last(gap);
        assert(st.len() == 0);
        assert(line =~= front + seq![' ', bar()]);
        assert(line[line.len() - 3] == front.last());
        assert(front.last() == spaces(gap).last());
    }
}

/// Each line of a team's list carries its own game: line `3 + k` begins with two
/// spaces and the date of game `k` written as `%a %m/%d`, and ends with that
/// game's status text.
pub proof fn law_team_lines_carry_their_dates(team: Seq<char>, games: Seq<(i32, GameView)>)
    requires
        games.len() > 0,
    ensures
        team_schedule_text(team, games).len() == games.len() + 4,
        forall|k: int| 0 <= k < games.len() ==> {
            let line = #[trigger] team_schedule_text(team, games)[3 + k];
            let day = chrono_format_date(games[k].0, "%a %m/%d"@);
            let status = games[k].1.game_status_text;
            &&& line.len() >= 2 + day.len() + status.len()
            &&& line.subrange(0, 2 + day.len() as int) == seq![' ', ' '] + day
            &&& line.subrange(line.len() - status.len() as int, line.len() as int) == status
        },
{
    let t = team_schedule_text(team, games);
    let tc = upper_ascii(team);
    assert forall|k: int| 0 <= k < games.len() implies {
        let line = #[trigger] team_schedule_text(team, games)[3 + k];
        let day = chrono_format_date(games[k].0, "%a %m/%d"@);
        let status = games[k].1.game_status_text;
        &&& line.len() >= 2 + day.len() + status.len()
        &&& line.subrange(0, 2 + day.len() as int) == seq![' ', ' '] + day
        &&& line.subrange(line.len() - status.len() as int, line.len() as int) == status
    } by {
        let day = chrono_format_date(games[k].0, "%a %m/%d"@);
        let g = games[k].1;
        let line = schedule_line(day, tc, g);
        assert(t[3 + k] == line);
        let home = at_home(tc, g);
        let opponent = if home { shown_tricode(g.away_tricode) } else { shown_tricode(g.home_tricode) };
        let loc: Seq<char> = if home { seq!['v', 's'] } else { seq![' ', '@'] };
        let mid = seq![' ', ' '] + loc + seq![' '] + pad_right(opponent, 3) + seq![' ', ' '];
        assert(line =~= (seq![' ', ' '] + day) + mid + g.game_status_text);
        assert(line.subrange(0, 2 + day.len() as int) =~= seq![' ', ' '] + day);
        assert(line.subrange(line.len() - g.game_status_text.len() as int, line.len() as int) =~= g.game_status_text);
    }
}

/// At most one team of a card is marked as the winner, and neither before the game
/// has a score.
pub proof fn law_at_most_one_winner(g: GameView)
    ensures
        !(away_wins(g) && home_wins(g)),
        !has_score(g) ==> !away_wins(g) && !home_wins(g),
{
}

/// A card's status line is `W` characters wide between its edges when the status
/// fits in it.
pub proof fn law_status_line_width(g: GameView)
    requires
        1 + status_text(g).len() <= W,
    ensures
        status_line(g).len() == W + 2,
{
    lemma_spaces_len((W - 1 - status_text(g).len()) as nat);
}

/// A team's line is `W` characters wide between its edges when the tricode has
/// three characters, the score fits in three characters, and the record leaves
/// room for the score.
pub proof fn law_team_line_width(tc: Seq<char>, wins: i32, losses: i32, score: i32, has_score: bool, winner: bool)
    requires
        tc.len() == 3,
        has_score ==> decimal(score as int).len() <= 3,
        6 + record_text(wins, losses).len() + (if has_score { 5int } else { 0 }) < W,
    ensures
        team_line(tc, wins, losses, score, has_score, winner).len() == W + 2,
{
    let rec = record_text(wins, losses);
    lemma_spaces_len(team_gap(rec.len() as int, has_score));
    if has_score {
        let d = decimal(score as int);
        if d.len() < 3 {
            lemma_spaces_len((3 - d.len()) as nat);
        }
        assert(pad_left(d, 3).len() == 3);
    }
}

/// The edges of a card are `W` characters wide between their corners.
pub proof fn law_edge_width()
    ensures
        top_edge().len() == W + 2,
        bottom_edge().len() == W + 2,
{
    reveal_strlit("\u{256d}");
    reveal_strlit("\u{256e}");
    reveal_strlit("\u{2570}");
    reveal_strlit("\u{256f}");
    reveal_strlit("\u{2500}");
    lemma_repeat_len("\u{2500}"@, W as nat);
}

/// The grid has a row of five lines for every two games, and one for a last odd
/// game.
pub proof fn law_grid_rows(games: Seq<GameView>)
    ensures
        grid(games).len() == 5 * ((games.len() + 1) / 2),
    decreases games.len(),
{
    reveal(grid);
    if games.len() >= 2 {
        law_grid_rows(games.skip(2));
    }
}

/// The score view prints five lines when there are no games, else three lines
/// around the grid.
pub proof fn law_games_text_lines(label: Seq<char>, games: Seq<GameView>)
    ensures
        games.len() == 0 ==> games_text(label, games).len() == 5,
        games.len() > 0 ==> games_text(label, games).len() == 3 + 5 * ((games.len() + 1) / 2),
{
    law_grid_rows(games);
}

/// The team view prints one line per game between three lines above and one below,
/// or five lines when there are no games.
pub proof fn law_team_schedule_lines(team: Seq<char>, games: Seq<(i32, GameView)>)
    ensures
        games.len() == 0 ==> team_schedule_text(team, games).len() == 5,
        games.len() > 0 ==> team_schedule_text(team, games).len() == games.len() + 4,
{
}

} // verus!
