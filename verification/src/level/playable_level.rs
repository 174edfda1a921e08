use crate::entity::{Crate, Entity};
use crate::level::{
    is_storage_at, is_wall_at, positions_view, Level, LevelView,
};
use crate::vec2::Vec2;
use vstd::prelude::*;

verus! {

// ---------------------------------------------------------------------------
// Moves, intents and outcomes.
// ---------------------------------------------------------------------------
/// Direction the player moves in.
#[derive(Clone, Copy, Debug, PartialEq, Eq, Structural)]
pub enum Direction {
    Up,
    Down,
    Left,
    Right,
}

/// One accepted move, recorded so it can be undone exactly.
#[derive(Clone, Copy, Debug, PartialEq, Eq)]
pub struct RecordedMove {
    pub direction: Direction,
    /// index of the crate that was pushed, if any
    pub crate_index: Option<usize>,
}

impl View for RecordedMove {
    type V = (Direction, Option<int>);

    open spec fn view(&self) -> (Direction, Option<int>) {
        (
            self.direction,
            match self.crate_index {
                Some(i) => Some(i as int),
                None => None,
            },
        )
    }
}

/// An abstract request for one simulation step, fed in by the driver.
#[derive(Clone, Copy, Debug, PartialEq, Eq, Structural)]
pub enum Intent {
    MoveUp,
    MoveDown,
    MoveLeft,
    MoveRight,
    Reset,
    Rewind,
}

/// What one intent resolved to. A driver turns these into audio and visual
/// effects; the state machine itself only reports them.
#[derive(Clone, Copy, Debug, PartialEq, Eq, Structural)]
pub enum MoveOutcome {
    /// the player stepped onto a free cell
    Moved,
    /// the player pushed the crate with this index; `on_storage` tells
    /// whether the crate now rests on a storage location
    Pushed { crate_index: usize, on_storage: bool },
    /// the move was rejected; nothing changed
    Blocked,
    /// the accepted move completed the level, with the final counters
    LevelCompleted { steps: i32, pushes: i32 },
    /// the level was restored to its initial state
    ResetDone,
    /// the most recent move was undone
    Rewound,
    /// there was no move to undo
    RewindNothingToUndo,
    /// the level is complete, so only reset is meaningful
    Ignored,
}

// ---------------------------------------------------------------------------
// The mathematical model of an attempt.
// ---------------------------------------------------------------------------
/// Mathematical content of a [`PlayState`]: positions as integer pairs,
/// counters as integers, the history as a sequence of direction /
/// pushed-crate pairs. Storage flags are derived and therefore not part of
/// the model.
#[verifier::ext_equal]
pub ghost struct PlayView {
    pub level: LevelView,
    pub player: (int, int),
    pub crates: Seq<(int, int)>,
    pub steps: int,
    pub pushes: int,
    pub complete: bool,
    pub history: Seq<(Direction, Option<int>)>,
}

/// Unit displacement of a direction; the y axis grows downward.
pub open spec fn dir_delta(d: Direction) -> (int, int) {
    match d {
        Direction::Up => (0, -1),
        Direction::Down => (0, 1),
        Direction::Left => (-1, 0),
        Direction::Right => (1, 0),
    }
}

pub open spec fn add_pos(p: (int, int), q: (int, int)) -> (int, int) {
    (p.0 + q.0, p.1 + q.1)
}

pub open spec fn neg_pos(p: (int, int)) -> (int, int) {
    (-p.0, -p.1)
}

pub open spec fn crate_at(crates: Seq<(int, int)>, p: (int, int)) -> bool {
    crates.contains(p)
}

/// Index of the first crate at `p`; meaningful only when one is there.
pub open spec fn first_crate_idx(crates: Seq<(int, int)>, p: (int, int)) -> int
    decreases crates.len(),
{
    if crates.len() == 0 {
        0
    } else if crates[0] == p {
        0
    } else {
        1 + first_crate_idx(crates.drop_first(), p)
    }
}

/// Every crate rests on a storage location: the completion condition.
pub open spec fn all_stored(lv: LevelView, crates: Seq<(int, int)>) -> bool {
    forall|i: int| 0 <= i < crates.len() ==> is_storage_at(lv, #[trigger] crates[i])
}

/// How many recorded moves pushed a crate.
pub open spec fn push_count(h: Seq<(Direction, Option<int>)>) -> int
    decreases h.len(),
{
    if h.len() == 0 {
        0
    } else {
        push_count(h.drop_last()) + (if h.last().1 is Some {
            1int
        } else {
            0int
        })
    }
}

/// The state a fresh attempt at a level starts in; also what reset restores.
pub open spec fn initial_view(lv: LevelView) -> PlayView {
    PlayView {
        level: lv,
        player: lv.player,
        crates: lv.crates,
        steps: 0,
        pushes: 0,
        complete: false,
        history: Seq::empty(),
    }
}

pub open spec fn reset_view(v: PlayView) -> PlayView {
    initial_view(v.level)
}

/// Movement resolution for one directional intent: `None` when the move is
/// rejected (or ignored because the level is complete), otherwise the state
/// after the accepted move. A push succeeds exactly when the crate's
/// destination is free of walls and of other crates; completion is
/// recomputed after every accepted move.
pub open spec fn move_view(v: PlayView, d: Direction) -> Option<PlayView> {
    if v.complete {
        None
    } else {
        let t = add_pos(v.player, dir_delta(d));
        if crate_at(v.crates, t) {
            let b = add_pos(t, dir_delta(d));
            if is_wall_at(v.level, b) || crate_at(v.crates, b) {
                None
            } else {
                let i = first_crate_idx(v.crates, t);
                let crates2 = v.crates.update(i, b);
                Some(
                    PlayView {
                        player: t,
                        crates: crates2,
                        steps: v.steps + 1,
                        pushes: v.pushes + 1,
                        complete: all_stored(v.level, crates2),
                        history: v.history.push((d, Some(i))),
                        ..v
                    },
                )
            }
        } else if is_wall_at(v.level, t) {
            None
        } else {
            Some(
                PlayView {
                    player: t,
                    steps: v.steps + 1,
                    complete: all_stored(v.level, v.crates),
                    history: v.history.push((d, None)),
                    ..v
                },
            )
        }
    }
}

/// Undo resolution: `None` when the history is empty, otherwise the state
/// with the most recent move taken back. The inverse displacement is
/// applied without re-validation — the forward move was known valid — and
/// completion is deliberately not recomputed: it is a one-way ratchet.
pub open spec fn rewind_view(v: PlayView) -> Option<PlayView> {
    if v.history.len() == 0 {
        None
    } else {
        let m = v.history.last();
        let r = neg_pos(dir_delta(m.0));
        let crates2 = match m.1 {
            Some(i) => v.crates.update(i, add_pos(v.crates[i], r)),
            None => v.crates,
        };
        Some(
            PlayView {
                player: add_pos(v.player, r),
                crates: crates2,
                steps: v.steps - 1,
                pushes: v.pushes - (match m.1 {
                    Some(i) => 1int,
                    None => 0int,
                }),
                history: v.history.drop_last(),
                ..v
            },
        )
    }
}

/// The outcome reported for a directional intent on state `v`.
pub open spec fn move_outcome_view(v: PlayView, d: Direction) -> MoveOutcome {
    if v.complete {
        MoveOutcome::Ignored
    } else {
        match move_view(v, d) {
            None => MoveOutcome::Blocked,
            Some(w) => {
                let t = add_pos(v.player, dir_delta(d));
                if w.complete {
                    MoveOutcome::LevelCompleted { steps: w.steps as i32, pushes: w.pushes as i32 }
                } else if crate_at(v.crates, t) {
                    MoveOutcome::Pushed {
                        crate_index: first_crate_idx(v.crates, t) as usize,
                        on_storage: is_storage_at(v.level, add_pos(t, dir_delta(d))),
                    }
                } else {
                    MoveOutcome::Moved
                }
            },
        }
    }
}

/// The direction a movement intent asks for (meaningful only for the four
/// movement intents).
pub open spec fn intent_direction(intent: Intent) -> Direction {
    match intent {
        Intent::MoveUp => Direction::Up,
        Intent::MoveDown => Direction::Down,
        Intent::MoveLeft => Direction::Left,
        Intent::MoveRight => Direction::Right,
        Intent::Reset => Direction::Up,
        Intent::Rewind => Direction::Up,
    }
}

pub open spec fn is_move_intent(intent: Intent) -> bool {
    match intent {
        Intent::MoveUp | Intent::MoveDown | Intent::MoveLeft | Intent::MoveRight => true,
        Intent::Reset | Intent::Rewind => false,
    }
}

/// A position with room to step one cell in any direction without leaving
/// the machine integers. Positions come from parsed grids and change by one
/// cell per accepted move, so a driver only runs out of room after about two
/// billion accepted moves in one direction.
pub open spec fn pos_has_room(p: (int, int)) -> bool {
    &&& i32::MIN < p.0 < i32::MAX
    &&& i32::MIN < p.1 < i32::MAX
}

/// Every tracked position has room for one more step.
pub open spec fn move_room(v: PlayView) -> bool {
    &&& pos_has_room(v.player)
    &&& forall|i: int| 0 <= i < v.crates.len() ==> pos_has_room(#[trigger] v.crates[i])
}

// ---------------------------------------------------------------------------
// Facts about the model.
// ---------------------------------------------------------------------------
/// `first_crate_idx` names the least index holding `p` when `p` occurs.
pub proof fn lemma_first_crate_idx(s: Seq<(int, int)>, p: (int, int))
    requires
        s.contains(p),
    ensures
        0 <= first_crate_idx(s, p) < s.len(),
        s[first_crate_idx(s, p)] == p,
        forall|j: int| 0 <= j < first_crate_idx(s, p) ==> s[j] != p,
    decreases s.len(),
{
    if s[0] == p {
    } else {
        assert(s.drop_first().contains(p)) by {
            let k = choose|k: int| 0 <= k < s.len() && s[k] == p;
            assert(s.drop_first()[k - 1] == p);
        }
        lemma_first_crate_idx(s.drop_first(), p);
        let fi = first_crate_idx(s, p);
        assert(s[fi] == s.drop_first()[fi - 1]);
        assert forall|j: int| 0 <= j < fi implies s[j] != p by {
            if j > 0 {
                assert(s[j] == s.drop_first()[j - 1]);
            }
        }
    }
}

/// The push counter never exceeds the number of recorded moves.
pub proof fn lemma_push_count_bounds(h: Seq<(Direction, Option<int>)>)
    ensures
        0 <= push_count(h) <= h.len(),
    decreases h.len(),
{
    if h.len() > 0 {
        lemma_push_count_bounds(h.drop_last());
    }
}

/// Recording one more move raises the push count by one exactly for a push.
proof fn lemma_push_count_push(h: Seq<(Direction, Option<int>)>, m: (Direction, Option<int>))
    ensures
        push_count(h.push(m)) == push_count(h) + (if m.1 is Some {
            1int
        } else {
            0int
        }),
{
    assert(h.push(m).drop_last() =~= h);
    assert(h.push(m).last() == m);
}

/// Explicit tie-break for simultaneous directional input: up wins over
/// down, down over left, left over right.
pub fn resolve_direction(up: bool, down: bool, left: bool, right: bool) -> (r: Option<Direction>)
    ensures
        r == (if up {
            Some(Direction::Up)
        } else if down {
            Some(Direction::Down)
        } else if left {
            Some(Direction::Left)
        } else if right {
            Some(Direction::Right)
        } else {
            None::<Direction>
        }),
{
    if up {
        Some(Direction::Up)
    } else if down {
        Some(Direction::Down)
    } else if left {
        Some(Direction::Left)
    } else if right {
        Some(Direction::Right)
    } else {
        None
    }
}

// ---------------------------------------------------------------------------
// Laws of the state machine.
// ---------------------------------------------------------------------------
/// The state after the directional moves `ds`, provided every one is
/// accepted; `None` as soon as one is rejected.
pub open spec fn apply_moves(v: PlayView, ds: Seq<Direction>) -> Option<PlayView>
    decreases ds.len(),
{
    if ds.len() == 0 {
        Some(v)
    } else {
        match move_view(v, ds[0]) {
            Some(w) => apply_moves(w, ds.drop_first()),
            None => None,
        }
    }
}

/// The state after `n` rewinds, provided each finds a move to undo.
pub open spec fn rewind_n(v: PlayView, n: nat) -> Option<PlayView>
    decreases n,
{
    if n == 0 {
        Some(v)
    } else {
        match rewind_view(v) {
            Some(w) => rewind_n(w, (n - 1) as nat),
            None => None,
        }
    }
}

/// Law: in any well-formed state, `steps >= pushes`.
pub proof fn lemma_steps_ge_pushes(s: PlayState)
    requires
        s.wf(),
    ensures
        s@.steps >= s@.pushes,
{
    lemma_push_count_bounds(s@.history);
}

/// Law: an accepted move raises `steps` by exactly one, and `pushes` by one
/// exactly when it pushed a crate.
pub proof fn lemma_counters_per_move(v: PlayView, d: Direction)
    requires
        move_view(v, d) is Some,
    ensures
        ({
            let w = move_view(v, d)->0;
            &&& w.steps == v.steps + 1
            &&& w.pushes == v.pushes + (if crate_at(v.crates, add_pos(v.player, dir_delta(d))) {
                1int
            } else {
                0int
            })
        }),
{
}

/// Law: a push intent (a directional intent whose target holds a crate)
/// succeeds exactly when the crate's destination is free of walls and of
/// other crates. `apply_intent`'s contract adds that a rejected intent
/// leaves the state untouched.
pub proof fn lemma_push_legality(v: PlayView, d: Direction)
    requires
        !v.complete,
        crate_at(v.crates, add_pos(v.player, dir_delta(d))),
    ensures
        ({
            let b = add_pos(add_pos(v.player, dir_delta(d)), dir_delta(d));
            move_view(v, d) is Some <==> (!is_wall_at(v.level, b) && !crate_at(v.crates, b))
        }),
{
}

/// Law: after an accepted move the completion flag holds exactly when every
/// crate rests on a storage location, so it becomes true in the step whose
/// move stores the last free crate. (It starts false even for a level whose
/// crates all begin stored, and rewinding never clears it.)
pub proof fn lemma_completion_recomputed(v: PlayView, d: Direction)
    requires
        move_view(v, d) is Some,
    ensures
        ({
            let w = move_view(v, d)->0;
            w.complete == all_stored(w.level, w.crates)
        }),
{
}

/// Law: rewinding exactly undoes an accepted move. Everything returns to
/// its prior value except the completion flag, which stays where the move
/// left it.
pub proof fn lemma_rewind_undoes_move(v: PlayView, d: Direction)
    requires
        move_view(v, d) is Some,
    ensures
        ({
            let w = move_view(v, d)->0;
            rewind_view(w) == Some(PlayView { complete: w.complete, ..v })
        }),
{
    let w = move_view(v, d)->0;
    let t = add_pos(v.player, dir_delta(d));
    let r = neg_pos(dir_delta(d));
    assert(w.history.drop_last() =~= v.history);
    if crate_at(v.crates, t) {
        lemma_first_crate_idx(v.crates, t);
        let i = first_crate_idx(v.crates, t);
        let b = add_pos(t, dir_delta(d));
        assert(w.history.last() == (d, Some(i)));
        assert(w.crates[i] == b);
        assert(add_pos(b, r) == t);
        assert(w.crates.update(i, add_pos(w.crates[i], r)) =~= v.crates);
        assert(rewind_view(w)->0 =~= PlayView { complete: w.complete, ..v });
    } else {
        assert(w.history.last() == (d, None::<int>));
        assert(add_pos(add_pos(v.player, dir_delta(d)), r) == v.player);
        assert(rewind_view(w)->0 =~= PlayView { complete: w.complete, ..v });
    }
}

/// Peeling the last of `n + 1` rewinds off the end.
proof fn lemma_rewind_n_snoc(v: PlayView, n: nat)
    ensures
        rewind_n(v, n + 1) == (match rewind_n(v, n) {
            Some(u) => rewind_view(u),
            None => None::<PlayView>,
        }),
    decreases n,
{
    if n == 0 {
        assert(rewind_n(v, 1) == (match rewind_view(v) {
            Some(w) => rewind_n(w, 0),
            None => None::<PlayView>,
        }));
    } else {
        match rewind_view(v) {
            Some(w) => {
                lemma_rewind_n_snoc(w, (n - 1) as nat);
                assert(rewind_n(v, n + 1) == rewind_n(w, n));
                assert(rewind_n(v, n) == rewind_n(w, (n - 1) as nat));
            },
            None => {
                assert(rewind_n(v, n + 1) is None);
                assert(rewind_n(v, n) is None);
            },
        }
    }
}

/// Law: any sequence of accepted moves followed by as many rewinds restores
/// the player position, every crate position, both counters and the history
/// exactly; only the completion flag may differ, since it ratchets. In
/// particular, starting from a fresh attempt the history is empty again.
pub proof fn lemma_rewind_inverse(v: PlayView, ds: Seq<Direction>)
    requires
        apply_moves(v, ds) is Some,
    ensures
        ({
            let w = apply_moves(v, ds)->0;
            rewind_n(w, ds.len()) == Some(PlayView { complete: w.complete, ..v })
        }),
    decreases ds.len(),
{
    let w = apply_moves(v, ds)->0;
    if ds.len() == 0 {
        assert(PlayView { complete: w.complete, ..v } =~= v);
    } else {
        let w1 = move_view(v, ds[0])->0;
        lemma_rewind_inverse(w1, ds.drop_first());
        let u1 = PlayView { complete: w.complete, ..w1 };
        assert(rewind_n(w, ds.drop_first().len()) == Some(u1));
        lemma_rewind_n_snoc(w, ds.drop_first().len());
        lemma_rewind_undoes_move(v, ds[0]);
        assert(u1.history.len() > 0);
        assert(rewind_view(u1)->0 =~= PlayView { complete: w.complete, ..v });
        assert(rewind_n(w, ds.len()) == rewind_view(u1));
    }
}

/// Law: resetting twice in a row yields the same state as resetting once.
pub proof fn lemma_reset_idempotent(v: PlayView)
    ensures
        reset_view(reset_view(v)) == reset_view(v),
{
    assert(reset_view(reset_view(v)) =~= reset_view(v));
}

// ---------------------------------------------------------------------------
// The playable level.
// ---------------------------------------------------------------------------
pub open spec fn crate_positions(cs: Seq<Crate>) -> Seq<(int, int)> {
    cs.map_values(|c: Crate| c.pos@)
}

pub open spec fn moves_view(ms: Seq<RecordedMove>) -> Seq<(Direction, Option<int>)> {
    ms.map_values(|m: RecordedMove| m@)
}

/// Mutable per-attempt state derived from a [`Level`]: player position,
/// crate positions and storage flags, step and push counters, the
/// completion flag, and the move history that rewind pops.
#[derive(Clone, Debug)]
pub struct PlayState {
    pub complete: bool,
    pub steps: i32,
    pub pushes: i32,
    pub level: Level,
    pub player: Entity,
    pub crates: Vec<Crate>,
    /// the accepted moves, oldest first; rewind pops the last
    pub moves: Vec<RecordedMove>,
}

impl View for PlayState {
    type V = PlayView;

    open spec fn view(&self) -> PlayView {
        PlayView {
            level: self.level@,
            player: self.player.pos@,
            crates: crate_positions(self.crates@),
            steps: self.steps as int,
            pushes: self.pushes as int,
            complete: self.complete,
            history: moves_view(self.moves@),
        }
    }
}

impl PlayState {
    /// Structural well-formedness, established by [`PlayState::new`] and
    /// preserved by every operation: the step counter equals the history
    /// length, the push counter counts the history's pushes, recorded crate
    /// indices are in range, the crate list mirrors the level's, and each
    /// crate's storage flag is the value derived from its position.
    pub open spec fn wf(self) -> bool {
        &&& self@.steps == self@.history.len()
        &&& self@.pushes == push_count(self@.history)
        &&& forall|k: int|
            0 <= k < self@.history.len() ==> ((#[trigger] self@.history[k]).1 matches Some(i)
                ==> 0 <= i < self@.crates.len())
        &&& self@.crates.len() == self@.level.crates.len()
        &&& forall|i: int|
            0 <= i < self.crates@.len() ==> (#[trigger] self.crates@[i]).on_storage_location
                == is_storage_at(self.level@, self.crates@[i].pos@)
    }

    /// The crate list a fresh attempt starts with: the level's crate
    /// positions, each flag derived.
    fn build_crates(level: &Level) -> (cs: Vec<Crate>)
        ensures
            crate_positions(cs@) == level@.crates,
            forall|i: int|
                0 <= i < cs@.len() ==> (#[trigger] cs@[i]).on_storage_location == is_storage_at(
                    level@,
                    cs@[i].pos@,
                ),
    {
        let mut cs: Vec<Crate> = Vec::new();
        let mut i: usize = 0;
        while i < level.crates.len()
            invariant
                i <= level.crates@.len(),
                cs@.len() == i,
                forall|j: int|
                    0 <= j < i as int ==> (#[trigger] cs@[j]).pos == level.crates@[j]
                        && cs@[j].on_storage_location == is_storage_at(level@, cs@[j].pos@),
            decreases level.crates@.len() - i,
        {
            let pos = level.crates[i];
            let on = level.has_storage(&pos);
            cs.push(Crate { pos, on_storage_location: on });
            i = i + 1;
        }
        proof {
            assert(crate_positions(cs@) =~= level@.crates);
        }
        cs
    }

    /// A fresh attempt at `level`: player and crates at their initial
    /// placements, counters zeroed, history empty, not complete (even when
    /// every crate already starts stored — completion is only recomputed
    /// after an accepted move).
    pub fn new(level: Level) -> (s: PlayState)
        ensures
            s@ == initial_view(level@),
            s.wf(),
    {
        let crates = Self::build_crates(&level);
        let player = Entity { pos: level.player };
        let s = PlayState {
            complete: false,
            steps: 0,
            pushes: 0,
            player,
            crates,
            level,
            moves: Vec::new(),
        };
        proof {
            assert(s@ =~= initial_view(s.level@));
            assert(moves_view(s.moves@) =~= Seq::<(Direction, Option<int>)>::empty());
        }
        s
    }

    /// Restores the initial placements, recomputes every storage flag,
    /// zeroes the counters and the completion flag, and clears the history:
    /// rewind is not possible past a reset.
    pub fn reset(&mut self)
        ensures
            final(self).wf(),
            final(self)@ == reset_view(old(self)@),
    {
        self.player.pos = self.level.player;
        self.crates = Self::build_crates(&self.level);
        self.steps = 0;
        self.pushes = 0;
        self.moves.clear();
        self.complete = false;
        proof {
            assert(moves_view(self.moves@) =~= Seq::<(Direction, Option<int>)>::empty());
            assert(self@ =~= reset_view(old(self)@));
        }
    }

    /// Index of the first crate standing at `pos`, if any.
    fn find_crate_at(&self, pos: &Vec2) -> (r: Option<usize>)
        ensures
            match r {
                Some(i) => {
                    &&& crate_at(crate_positions(self.crates@), pos@)
                    &&& i < self.crates@.len()
                    &&& i as int == first_crate_idx(crate_positions(self.crates@), pos@)
                },
                None => !crate_at(crate_positions(self.crates@), pos@),
            },
    {
        let mut i: usize = 0;
        while i < self.crates.len()
            invariant
                i <= self.crates@.len(),
                forall|j: int| 0 <= j < i as int ==> crate_positions(self.crates@)[j] != pos@,
            decreases self.crates@.len() - i,
        {
            proof {
                assert(crate_positions(self.crates@)[i as int] == self.crates@[i as int].pos@);
            }
            let c = &self.crates[i];
            if c.pos.x == pos.x && c.pos.y == pos.y {
                proof {
                    let cp = crate_positions(self.crates@);
                    assert(cp[i as int] == pos@);
                    assert(cp.contains(pos@));
                    lemma_first_crate_idx(cp, pos@);
                    let fi = first_crate_idx(cp, pos@);
                    if fi < i as int {
                        assert(cp[fi] != pos@);
                    }
                }
                return Some(i);
            }
            i = i + 1;
        }
        proof {
            let cp = crate_positions(self.crates@);
            assert(forall|j: int| 0 <= j < cp.len() ==> cp[j] != pos@);
        }
        None
    }

    /// Whether every crate rests on a storage location, read off the
    /// derived flags.
    fn all_crates_stored(&self) -> (r: bool)
        requires
            forall|i: int|
                0 <= i < self.crates@.len() ==> (#[trigger] self.crates@[i]).on_storage_location
                    == is_storage_at(self.level@, self.crates@[i].pos@),
        ensures
            r == all_stored(self.level@, crate_positions(self.crates@)),
    {
        let mut i: usize = 0;
        while i < self.crates.len()
            invariant
                i <= self.crates@.len(),
                forall|j: int|
                    0 <= j < self.crates@.len() ==> (#[trigger] self.crates@[j]).on_storage_location
                        == is_storage_at(self.level@, self.crates@[j].pos@),
                forall|j: int|
                    0 <= j < i as int ==> is_storage_at(
                        self.level@,
                        #[trigger] crate_positions(self.crates@)[j],
                    ),
            decreases self.crates@.len() - i,
        {
            proof {
                assert(crate_positions(self.crates@)[i as int] == self.crates@[i as int].pos@);
            }
            if !self.crates[i].on_storage_location {
                return false;
            }
            i = i + 1;
        }
        true
    }

    /// Pops and undoes the most recent recorded move: the inverse
    /// displacement is applied to the player (and to the pushed crate, whose
    /// storage flag is recomputed) without re-validation, and the counters
    /// are decremented. Returns the undone move, or `None` — the
    /// distinguishable "nothing to rewind" signal — on an empty history.
    /// Completion is deliberately not recomputed: it is a one-way ratchet.
    pub fn rewind(&mut self) -> (r: Option<RecordedMove>)
        requires
            old(self).wf(),
            old(self)@.history.len() > 0 ==> move_room(old(self)@),
        ensures
            final(self).wf(),
            match r {
                None => {
                    &&& old(self)@.history.len() == 0
                    &&& final(self)@ == old(self)@
                },
                Some(m) => {
                    &&& old(self)@.history.len() > 0
                    &&& m@ == old(self)@.history.last()
                    &&& Some(final(self)@) == rewind_view(old(self)@)
                },
            },
    {
        proof {
            assert(moves_view(self.moves@).len() == self.moves@.len());
        }
        let popped = self.moves.pop();
        let m = match popped {
            None => {
                proof {
                    assert(self@ =~= old(self)@);
                }
                return None;
            },
            Some(m) => m,
        };
        proof {
            let h = old(self)@.history;
            assert(h.last() == old(self).moves@.last()@);
            assert(moves_view(self.moves@) =~= h.drop_last());
            lemma_push_count_bounds(h.drop_last());
            if m.crate_index is Some {
                assert(h.last().1 is Some);
            }
        }
        self.steps = self.steps - 1;
        if m.crate_index.is_some() {
            self.pushes = self.pushes - 1;
        }
        let rev: Vec2 = match m.direction {
            Direction::Up => Vec2 { x: 0, y: 1 },
            Direction::Down => Vec2 { x: 0, y: -1 },
            Direction::Left => Vec2 { x: 1, y: 0 },
            Direction::Right => Vec2 { x: -1, y: 0 },
        };
        proof {
            assert(rev@ == neg_pos(dir_delta(m.direction)));
        }
        self.player.pos.add(rev);
        if let Some(ci) = m.crate_index {
            proof {
                let h = old(self)@.history;
                assert(h[h.len() - 1].1 matches Some(i) ==> 0 <= i < old(self)@.crates.len());
                assert(crate_positions(old(self).crates@)[ci as int] == old(
                    self,
                ).crates@[ci as int].pos@);
            }
            let mut c = self.crates[ci];
            c.pos.add(rev);
            c.on_storage_location = self.level.has_storage(&c.pos);
            self.crates[ci] = c;
            proof {
                assert(crate_positions(self.crates@) =~= old(self)@.crates.update(
                    ci as int,
                    add_pos(old(self)@.crates[ci as int], neg_pos(dir_delta(m.direction))),
                ));
            }
        }
        proof {
            let ov = old(self)@;
            let w = rewind_view(ov)->0;
            assert(self@ =~= w);
            assert(forall|k: int|
                0 <= k < self@.history.len() ==> self@.history[k] == ov.history[k]);
        }
        Some(m)
    }

    /// Resolves one directional intent: pushes the crate ahead when its
    /// destination is free of walls and other crates, steps onto a free
    /// cell, or rejects the move with no state change.
    fn try_move(&mut self, d: Direction) -> (out: MoveOutcome)
        requires
            old(self).wf(),
            !old(self)@.complete,
            old(self)@.steps < i32::MAX,
            move_room(old(self)@),
        ensures
            final(self).wf(),
            final(self)@ == (match move_view(old(self)@, d) {
                Some(w) => w,
                None => old(self)@,
            }),
            out == move_outcome_view(old(self)@, d),
    {
        let delta: Vec2 = match d {
            Direction::Up => Vec2 { x: 0, y: -1 },
            Direction::Down => Vec2 { x: 0, y: 1 },
            Direction::Left => Vec2 { x: -1, y: 0 },
            Direction::Right => Vec2 { x: 1, y: 0 },
        };
        proof {
            assert(delta@ == dir_delta(d));
        }
        let mut target = self.player.pos;
        target.add(delta);
        proof {
            assert(target@ == add_pos(old(self)@.player, dir_delta(d)));
        }
        match self.find_crate_at(&target) {
            Some(i) => {
                proof {
                    let cp = crate_positions(self.crates@);
                    lemma_first_crate_idx(cp, target@);
                    assert(cp[i as int] == target@);
                    assert(pos_has_room(cp[i as int]));
                }
                let mut beyond = target;
                beyond.add(delta);
                proof {
                    assert(beyond@ == add_pos(target@, dir_delta(d)));
                }
                if self.level.has_wall(&beyond) || self.find_crate_at(&beyond).is_some() {
                    MoveOutcome::Blocked
                } else {
                    let mut c = self.crates[i];
                    c.pos = beyond;
                    let on = self.level.has_storage(&beyond);
                    c.on_storage_location = on;
                    self.crates[i] = c;
                    self.player.pos = target;
                    proof {
                        lemma_push_count_bounds(old(self)@.history);
                    }
                    self.steps = self.steps + 1;
                    self.pushes = self.pushes + 1;
                    self.moves.push(RecordedMove { direction: d, crate_index: Some(i) });
                    proof {
                        let ov = old(self)@;
                        assert(crate_positions(self.crates@) =~= ov.crates.update(
                            i as int,
                            add_pos(add_pos(ov.player, dir_delta(d)), dir_delta(d)),
                        ));
                        assert(moves_view(self.moves@) =~= ov.history.push((d, Some(i as int))));
                        lemma_push_count_push(ov.history, (d, Some(i as int)));
                    }
                    let complete_now = self.all_crates_stored();
                    self.complete = complete_now;
                    proof {
                        let ov = old(self)@;
                        let w = move_view(ov, d)->0;
                        assert(self@ =~= w);
                        assert(forall|k: int|
                            0 <= k < ov.history.len() ==> self@.history[k] == ov.history[k]);
                    }
                    if complete_now {
                        MoveOutcome::LevelCompleted { steps: self.steps, pushes: self.pushes }
                    } else {
                        MoveOutcome::Pushed { crate_index: i, on_storage: on }
                    }
                }
            },
            None => {
                if self.level.has_wall(&target) {
                    MoveOutcome::Blocked
                } else {
                    self.player.pos = target;
                    proof {
                        lemma_push_count_bounds(old(self)@.history);
                    }
                    self.steps = self.steps + 1;
                    self.moves.push(RecordedMove { direction: d, crate_index: None });
                    proof {
                        let ov = old(self)@;
                        assert(crate_positions(self.crates@) =~= ov.crates);
                        assert(moves_view(self.moves@) =~= ov.history.push((d, None)));
                        lemma_push_count_push(ov.history, (d, None));
                    }
                    let complete_now = self.all_crates_stored();
                    self.complete = complete_now;
                    proof {
                        let ov = old(self)@;
                        let w = move_view(ov, d)->0;
                        assert(self@ =~= w);
                        assert(forall|k: int|
                            0 <= k < ov.history.len() ==> self@.history[k] == ov.history[k]);
                    }
                    if complete_now {
                        MoveOutcome::LevelCompleted { steps: self.steps, pushes: self.pushes }
                    } else {
                        MoveOutcome::Moved
                    }
                }
            },
        }
    }

    /// Processes one intent for one simulation step: movement intents
    /// resolve as [`move_view`] says, reset restores the initial state,
    /// rewind undoes the most recent move. While the level is complete,
    /// movement and rewind intents are ignored; only reset is meaningful.
    pub fn apply_intent(&mut self, intent: Intent) -> (out: MoveOutcome)
        requires
            old(self).wf(),
            is_move_intent(intent) && !old(self)@.complete ==> old(self)@.steps < i32::MAX
                && move_room(old(self)@),
            intent == Intent::Rewind && !old(self)@.complete && old(self)@.history.len() > 0
                ==> move_room(old(self)@),
        ensures
            final(self).wf(),
            match intent {
                Intent::Reset => {
                    &&& final(self)@ == reset_view(old(self)@)
                    &&& out == MoveOutcome::ResetDone
                },
                Intent::Rewind => {
                    if old(self)@.complete {
                        final(self)@ == old(self)@ && out == MoveOutcome::Ignored
                    } else if old(self)@.history.len() == 0 {
                        final(self)@ == old(self)@ && out == MoveOutcome::RewindNothingToUndo
                    } else {
                        Some(final(self)@) == rewind_view(old(self)@) && out
                            == MoveOutcome::Rewound
                    }
                },
                _ => {
                    &&& final(self)@ == (match move_view(old(self)@, intent_direction(intent)) {
                        Some(w) => w,
                        None => old(self)@,
                    })
                    &&& out == move_outcome_view(old(self)@, intent_direction(intent))
                },
            },
    {
        match intent {
            Intent::Reset => {
                self.reset();
                MoveOutcome::ResetDone
            },
            Intent::Rewind => {
                if self.complete {
                    MoveOutcome::Ignored
                } else {
                    match self.rewind() {
                        None => MoveOutcome::RewindNothingToUndo,
                        Some(_) => MoveOutcome::Rewound,
                    }
                }
            },
            Intent::MoveUp => {
                if self.complete {
                    MoveOutcome::Ignored
                } else {
                    self.try_move(Direction::Up)
                }
            },
            Intent::MoveDown => {
                if self.complete {
                    MoveOutcome::Ignored
                } else {
                    self.try_move(Direction::Down)
                }
            },
            Intent::MoveLeft => {
                if self.complete {
                    MoveOutcome::Ignored
                } else {
                    self.try_move(Direction::Left)
                }
            },
            Intent::MoveRight => {
                if self.complete {
                    MoveOutcome::Ignored
                } else {
                    self.try_move(Direction::Right)
                }
            },
        }
    }

    /// How many accepted moves the history currently holds.
    pub fn history_len(&self) -> (n: usize)
        ensures
            n == self@.history.len(),
    {
        self.moves.len()
    }

    /// Whether every tracked position still has room to move one cell; a
    /// driver checks this before feeding movement or rewind intents.
    pub fn has_move_room(&self) -> (r: bool)
        ensures
            r == move_room(self@),
    {
        let p = self.player.pos;
        if !(p.x > i32::MIN && p.x < i32::MAX && p.y > i32::MIN && p.y < i32::MAX) {
            return false;
        }
        let mut i: usize = 0;
        while i < self.crates.len()
            invariant
                i <= self.crates@.len(),
                forall|j: int|
                    0 <= j < i as int ==> pos_has_room(#[trigger] crate_positions(self.crates@)[j]),
            decreases self.crates@.len() - i,
        {
            let c = self.crates[i].pos;
            if !(c.x > i32::MIN && c.x < i32::MAX && c.y > i32::MIN && c.y < i32::MAX) {
                proof {
                    assert(crate_positions(self.crates@).len() == self.crates@.len());
                    assert(crate_positions(self.crates@)[i as int] == self.crates@[i as int].pos@);
                    assert(!pos_has_room(self@.crates[i as int]));
                }
                return false;
            }
            i = i + 1;
        }
        true
    }
}

} // verus!
