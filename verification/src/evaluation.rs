//! Match bookkeeping for evaluating a player over many games: seats, per-game
//! seeds, the division of games among workers, and the win/draw/loss tally.
use vstd::prelude::*;

use crate::rules::{can_drop, drop_stone, game_over, winner};
use crate::state::{Player, State};
use crate::text::{decimal, push_decimal, push_str, same_text};

verus! {

/// Wins, draws and losses from one player's point of view.
#[derive(Clone, Copy, Debug, Default, PartialEq, Eq, Structural)]
pub struct Record {
    pub wins: usize,
    pub draws: usize,
    pub losses: usize,
}

impl Record {
    /// Adds another tally to this one.
    pub fn add(&mut self, other: Self)
        requires
            old(self).wins + other.wins <= usize::MAX,
            old(self).draws + other.draws <= usize::MAX,
            old(self).losses + other.losses <= usize::MAX,
        ensures
            final(self).wins == old(self).wins + other.wins,
            final(self).draws == old(self).draws + other.draws,
            final(self).losses == old(self).losses + other.losses,
    {
        self.wins = self.wins + other.wins;
        self.draws = self.draws + other.draws;
        self.losses = self.losses + other.losses;
    }

    /// Counts one game that `winner` won (or nobody, a draw), seen from `side`.
    pub fn record(&mut self, winner: Option<Player>, side: Player)
        requires
            old(self).wins < usize::MAX,
            old(self).draws < usize::MAX,
            old(self).losses < usize::MAX,
        ensures
            *final(self) == record_spec(*old(self), winner, side),
    {
        match winner {
            None => self.draws = self.draws + 1,
            Some(player) => {
                if player == side {
                    self.wins = self.wins + 1;
                } else {
                    self.losses = self.losses + 1;
                }
            },
        }
    }

    /// The tally as a JSON object.
    pub fn json(&self) -> (r: Vec<char>)
        ensures
            r@ == "{\"wins\": "@ + decimal(self.wins as nat) + ", \"draws\": "@ + decimal(
                self.draws as nat,
            ) + ", \"losses\": "@ + decimal(self.losses as nat) + "}"@,
    {
        let mut r: Vec<char> = Vec::new();
        push_str(&mut r, "{\"wins\": ");
        push_decimal(&mut r, self.wins);
        push_str(&mut r, ", \"draws\": ");
        push_decimal(&mut r, self.draws);
        push_str(&mut r, ", \"losses\": ");
        push_decimal(&mut r, self.losses);
        push_str(&mut r, "}");
        r
    }
}

/// Tallies of the games in which the evaluated player moved first, and second.
#[derive(Clone, Copy, Debug, Default, PartialEq, Eq, Structural)]
pub struct Results {
    pub first: Record,
    pub second: Record,
}

impl Results {
    /// Both seats together.
    pub fn total(&self) -> (r: Record)
        requires
            self.first.wins + self.second.wins <= usize::MAX,
            self.first.draws + self.second.draws <= usize::MAX,
            self.first.losses + self.second.losses <= usize::MAX,
        ensures
            r.wins == self.first.wins + self.second.wins,
            r.draws == self.first.draws + self.second.draws,
            r.losses == self.first.losses + self.second.losses,
    {
        let mut total = self.first;
        total.add(self.second);
        total
    }

    /// Counts a finished game in the tally of the seat that `side` (the evaluated
    /// player) took: `first` when it was player A.
    pub fn record_game(&mut self, side: Player, winner: Option<Player>)
        requires
            side == Player::A ==> old(self).first.wins < usize::MAX && old(self).first.draws
                < usize::MAX && old(self).first.losses < usize::MAX,
            side == Player::B ==> old(self).second.wins < usize::MAX && old(self).second.draws
                < usize::MAX && old(self).second.losses < usize::MAX,
        ensures
            side == Player::A ==> final(self).second == old(self).second && final(self).first
                == record_spec(old(self).first, winner, side),
            side == Player::B ==> final(self).first == old(self).first && final(self).second
                == record_spec(old(self).second, winner, side),
    {
        if side == Player::A {
            self.first.record(winner, side);
        } else {
            self.second.record(winner, side);
        }
    }
}

/// A tally after counting one more game.
pub open spec fn record_spec(r: Record, winner: Option<Player>, side: Player) -> Record {
    match winner {
        None => Record { draws: (r.draws + 1) as usize, ..r },
        Some(p) => if p == side {
            Record { wins: (r.wins + 1) as usize, ..r }
        } else {
            Record { losses: (r.losses + 1) as usize, ..r }
        },
    }
}

/// The seat of the evaluated player in game `game`: A (moving first) in even
/// games, B in odd ones.
pub fn seat(game: usize) -> (r: Player)
    ensures
        r == if game % 2 == 0 {
            Player::A
        } else {
            Player::B
        },
{
    if game % 2 == 0 {
        Player::A
    } else {
        Player::B
    }
}

/// What became of a game after one move.
pub enum Turn {
    /// The game goes on from this position.
    Continue(State),
    /// The game ended: won by this player, or drawn.
    Finished(Option<Player>),
}

/// Plays column `x` in a game that is not over, and says whether it ended.
pub fn play_turn(state: State, x: usize) -> (r: Turn)
    requires
        !game_over(state@),
        x < 7,
        can_drop(state@, x as int),
    ensures
        match r {
            Turn::Continue(next) => next@ == drop_stone(state@, x as int) && !game_over(next@),
            Turn::Finished(w) => game_over(drop_stone(state@, x as int)) && w == winner(
                drop_stone(state@, x as int),
            ),
        },
{
    let next = state.put(x);
    if let Some(winner) = next.win_player() {
        return Turn::Finished(Some(winner));
    }
    if next.is_full() {
        return Turn::Finished(None);
    }
    Turn::Continue(next)
}

/// Reduces an integer to 64 bits.
pub open spec fn wrap64(v: int) -> u64 {
    (v % 0x1_0000_0000_0000_0000) as u64
}

/// SplitMix64 applied to `seed` plus `index` times the golden-ratio increment.
pub open spec fn split_mix(seed: u64, index: u64) -> u64 {
    let x0 = wrap64(seed + wrap64(index * 0x9e3779b97f4a7c15));
    let x1 = wrap64((x0 ^ (x0 >> 30u64)) * 0xbf58476d1ce4e5b9);
    let x2 = wrap64((x1 ^ (x1 >> 27u64)) * 0x94d049bb133111eb);
    x2 ^ (x2 >> 31u64)
}

/// Each game gets an independent, scheduling-independent seed.
pub fn game_seed(seed: u64, index: usize) -> (r: u64)
    ensures
        r == split_mix(seed, index as u64),
{
    let mut x = seed.wrapping_add((index as u64).wrapping_mul(0x9e3779b97f4a7c15));
    x = (x ^ (x >> 30u64)).wrapping_mul(0xbf58476d1ce4e5b9);
    x = (x ^ (x >> 27u64)).wrapping_mul(0x94d049bb133111eb);
    x ^ (x >> 31u64)
}

/// Why an evaluation request is refused.
#[derive(Clone, Copy, Debug, PartialEq, Eq, Structural)]
pub enum EvaluationError {
    /// The number of games is odd or below 2.
    Games,
    /// No worker threads.
    Threads,
    /// A Monte Carlo opponent without playouts.
    Attempts,
}

impl EvaluationError {
    /// The message shown for the error.
    pub fn message(&self) -> (r: &'static str)
        ensures
            *self == EvaluationError::Games ==> r@ == "--games must be even and at least 2"@,
            *self == EvaluationError::Threads ==> r@ == "--threads must be positive"@,
            *self == EvaluationError::Attempts ==> r@ == "--attempts must be positive"@,
    {
        match self {
            EvaluationError::Games => "--games must be even and at least 2",
            EvaluationError::Threads => "--threads must be positive",
            EvaluationError::Attempts => "--attempts must be positive",
        }
    }
}

/// Checks an evaluation of `games` games on `threads` threads, against a Monte
/// Carlo opponent with `monte_carlo_attempts` playouts if there is one, and gives
/// the number of workers: one per thread, but no more than there are games.
pub fn check_evaluation(games: usize, threads: usize, monte_carlo_attempts: Option<usize>) -> (r:
    Result<usize, EvaluationError>)
    ensures
        r == if games < 2 || games % 2 != 0 {
            Err(EvaluationError::Games)
        } else if threads == 0 {
            Err(EvaluationError::Threads)
        } else if monte_carlo_attempts == Some(0usize) {
            Err(EvaluationError::Attempts)
        } else {
            Ok(if threads < games {
                threads
            } else {
                games
            })
        },
{
    if games < 2 || games % 2 != 0 {
        return Err(EvaluationError::Games);
    }
    if threads == 0 {
        return Err(EvaluationError::Threads);
    }
    if let Some(0) = monte_carlo_attempts {
        return Err(EvaluationError::Attempts);
    }
    Ok(if threads < games {
        threads
    } else {
        games
    })
}

/// `s` lists the games a worker plays: every `workers`-th game below `games`,
/// starting from game `worker`.
pub open spec fn is_schedule(s: Seq<usize>, worker: int, workers: int, games: int) -> bool {
    &&& forall|i: int| 0 <= i < s.len() ==> #[trigger] s[i] == worker + i * workers && s[i] < games
    &&& worker + s.len() * workers >= games
}

/// The games that worker `worker` of `workers` plays, in order.
pub fn worker_games(worker: usize, workers: usize, games: usize) -> (r: Vec<usize>)
    requires
        workers > 0,
    ensures
        is_schedule(r@, worker as int, workers as int, games as int),
{
    let mut r: Vec<usize> = Vec::new();
    let mut game: usize = worker;
    proof {
        assert(r@.len() * workers == 0) by (nonlinear_arith)
            requires
                r@.len() == 0,
        ;
    }
    while game < games
        invariant
            workers > 0,
            worker <= game,
            forall|i: int|
                0 <= i < r.len() ==> #[trigger] r@[i] == worker + i * workers && r@[i] < games,
            game < games ==> game == worker + r.len() * workers,
            worker + r.len() * workers >= game,
        decreases games - game,
    {
        let ghost len = r.len();
        r.push(game);
        proof {
            assert(worker + (len + 1) * workers == worker + len * workers + workers) by (
            nonlinear_arith);
        }
        if games - game > workers {
            game = game + workers;
        } else {
            game = games;
        }
    }
    r
}

/// However many workers share the games, every game is played exactly once: it
/// is in the schedule of worker `g % workers` and in no other.
pub proof fn lemma_schedule_partition(
    s: Seq<usize>,
    worker: int,
    workers: int,
    games: int,
    g: int,
)
    requires
        0 <= worker < workers,
        is_schedule(s, worker, workers, games),
        0 <= g < games <= usize::MAX,
    ensures
        s.contains(g as usize) <==> worker == g % workers,
{
    if worker == g % workers {
        let i = g / workers;
        vstd::arithmetic::div_mod::lemma_fundamental_div_mod(g, workers);
        assert(g == i * workers + worker) by (nonlinear_arith)
            requires
                g == workers * i + worker,
        ;
        assert(i >= 0) by (nonlinear_arith)
            requires
                g >= 0,
                workers > 0,
                i == g / workers,
        ;
        if i >= s.len() {
            assert(i * workers >= s.len() * workers) by (nonlinear_arith)
                requires
                    i >= s.len(),
                    workers > 0,
            ;
        }
        assert(s[i] == g);
    }
    if s.contains(g as usize) {
        let i = choose|i: int| 0 <= i < s.len() && s[i] == g as usize;
        assert(s[i] == worker + i * workers);
        assert(g == i * workers + worker);
        vstd::arithmetic::div_mod::lemma_fundamental_div_mod_converse(g, workers, i, worker);
    }
}

/// The opponent an evaluation plays against.
#[derive(Clone, Copy, Debug, PartialEq, Eq, Structural)]
pub enum OpponentKind {
    /// Uniformly random legal moves.
    Random,
    /// The Monte Carlo player.
    MonteCarlo,
    /// A second exported value network.
    Checkpoint,
}

/// Why the options of an evaluation are refused.
#[derive(Clone, Copy, Debug, PartialEq, Eq, Structural)]
pub enum OptionsError {
    /// The opponent's name is none of `random`, `monte-carlo`, `checkpoint`.
    UnknownOpponent,
    /// A second model is given without a checkpoint opponent, or the reverse.
    OtherMismatch,
    /// The number of games is odd or below 2.
    Games,
    /// No threads or no playouts.
    ThreadsOrAttempts,
}

impl OptionsError {
    /// The message shown for the error.
    pub fn message(&self) -> (r: &'static str)
        ensures
            *self == OptionsError::UnknownOpponent ==> r@ == "unknown opponent"@,
            *self == OptionsError::OtherMismatch ==> r@
                == "--other must be supplied exactly when using a checkpoint opponent"@,
            *self == OptionsError::Games ==> r@ == "--games must be even and at least 2"@,
            *self == OptionsError::ThreadsOrAttempts ==> r@
                == "--threads and --attempts must be positive"@,
    {
        match self {
            OptionsError::UnknownOpponent => "unknown opponent",
            OptionsError::OtherMismatch => "--other must be supplied exactly when using a checkpoint opponent",
            OptionsError::Games => "--games must be even and at least 2",
            OptionsError::ThreadsOrAttempts => "--threads and --attempts must be positive",
        }
    }
}

/// The opponent a name selects; an empty name selects a checkpoint when a second
/// model is given and a random player otherwise.
pub open spec fn opponent_named(name: Seq<char>, other_given: bool) -> Option<OpponentKind> {
    if name.len() == 0 {
        Some(
            if other_given {
                OpponentKind::Checkpoint
            } else {
                OpponentKind::Random
            },
        )
    } else if name == "random"@ {
        Some(OpponentKind::Random)
    } else if name == "monte-carlo"@ {
        Some(OpponentKind::MonteCarlo)
    } else if name == "checkpoint"@ {
        Some(OpponentKind::Checkpoint)
    } else {
        None
    }
}

/// Each opponent's name selects that opponent, an empty name selects a
/// checkpoint exactly when a second model is given, and any other name selects none.
pub proof fn lemma_opponent_named(name: Seq<char>, other_given: bool)
    ensures
        name == "random"@ ==> opponent_named(name, other_given) == Some(OpponentKind::Random),
        name == "monte-carlo"@ ==> opponent_named(name, other_given) == Some(
            OpponentKind::MonteCarlo,
        ),
        name == "checkpoint"@ ==> opponent_named(name, other_given) == Some(
            OpponentKind::Checkpoint,
        ),
        name.len() == 0 ==> opponent_named(name, other_given) == Some(
            if other_given {
                OpponentKind::Checkpoint
            } else {
                OpponentKind::Random
            },
        ),
        !(name.len() == 0 || name == "random"@ || name == "monte-carlo"@ || name
            == "checkpoint"@) ==> opponent_named(name, other_given) is None,
{
    reveal_strlit("random");
    reveal_strlit("monte-carlo");
    reveal_strlit("checkpoint");
}

/// Checks the options of an evaluation: the opponent's name (empty when none was
/// given), whether a second model was given, and the numbers of games, threads and
/// playouts. Gives the opponent, or the first error in that order.
pub fn check_options(
    opponent: &str,
    other_given: bool,
    games: usize,
    threads: usize,
    attempts: usize,
) -> (r: Result<OpponentKind, OptionsError>)
    ensures
        r == match opponent_named(opponent@, other_given) {
            None => Err(OptionsError::UnknownOpponent),
            Some(kind) => if (kind == OpponentKind::Checkpoint) != other_given {
                Err(OptionsError::OtherMismatch)
            } else if games < 2 || games % 2 != 0 {
                Err(OptionsError::Games)
            } else if threads == 0 || attempts == 0 {
                Err(OptionsError::ThreadsOrAttempts)
            } else {
                Ok(kind)
            },
        },
        r is Ok <==> {
            &&& opponent@.len() == 0 || opponent@ == "random"@ || opponent@ == "monte-carlo"@
                || opponent@ == "checkpoint"@
            &&& (opponent@ == "checkpoint"@ || (opponent@.len() == 0 && other_given))
                == other_given
            &&& games >= 2 && games % 2 == 0
            &&& threads > 0 && attempts > 0
        },
        r is Ok && opponent@ == "random"@ ==> r == Ok::<OpponentKind, OptionsError>(
            OpponentKind::Random,
        ),
        r is Ok && opponent@ == "monte-carlo"@ ==> r == Ok::<OpponentKind, OptionsError>(
            OpponentKind::MonteCarlo,
        ),
        r is Ok && opponent@ == "checkpoint"@ ==> r == Ok::<OpponentKind, OptionsError>(
            OpponentKind::Checkpoint,
        ),
        r is Ok && opponent@.len() == 0 ==> r == Ok::<OpponentKind, OptionsError>(
            if other_given {
                OpponentKind::Checkpoint
            } else {
                OpponentKind::Random
            },
        ),
{
    proof {
        lemma_opponent_named(opponent@, other_given);
    }
    let kind = if opponent.unicode_len() == 0 {
        if other_given {
            OpponentKind::Checkpoint
        } else {
            OpponentKind::Random
        }
    } else if same_text(opponent, "random") {
        OpponentKind::Random
    } else if same_text(opponent, "monte-carlo") {
        OpponentKind::MonteCarlo
    } else if same_text(opponent, "checkpoint") {
        OpponentKind::Checkpoint
    } else {
        return Err(OptionsError::UnknownOpponent);
    };
    let is_checkpoint = match kind {
        OpponentKind::Checkpoint => true,
        _ => false,
    };
    if is_checkpoint != other_given {
        return Err(OptionsError::OtherMismatch);
    }
    if games < 2 || games % 2 != 0 {
        return Err(OptionsError::Games);
    }
    if threads == 0 || attempts == 0 {
        return Err(OptionsError::ThreadsOrAttempts);
    }
    Ok(kind)
}

} // verus!
