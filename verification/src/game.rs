//! The gameplay mode: enemy movement, word spawning, and the typing-match
//! state machine.

use vstd::prelude::*;
use crate::States;
use crate::Key;
use crate::geometry::{COORD_LIMIT, clamp_coord, clamp_exec};
use crate::geometry::UNITS_PER_PIXEL;
use crate::objects::{Enemy, Player};
use crate::text::chars_of;
use crate::wording::{Enemies, WordProducer, WordV};

verus! {

/// Downward speed of a fresh enemy, in units per frame.
pub const ENEMY_BASE_SPEED: i64 = 50;

/// Fastest downward speed an enemy may have, before the level factor.
pub const ENEMY_MAX_SPEED: i64 = 1000;

/// Seconds that must pass between two spawns while enemies are on screen.
pub const SPAWN_PERIOD_SECS: u64 = 2;

pub open spec fn wf_enemy(e: Enemy) -> bool {
    &&& -COORD_LIMIT <= e.pos_x <= COORD_LIMIT
    &&& -COORD_LIMIT <= e.pos_y <= COORD_LIMIT
    &&& 0 <= e.speed <= ENEMY_MAX_SPEED
}

/// Relies on `rand::rng` and `rand::RngExt::random_range`: the sample lies in
/// `lo..hi`, and the call panics only on an empty range. Which value comes
/// back is chance; nothing more is assumed.
#[verifier::external_body]
pub(crate) fn sample_range(lo: i64, hi: i64) -> (r: i64)
    requires
        lo < hi,
    ensures
        lo <= r < hi,
{
    rand::RngExt::random_range(&mut rand::rng(), lo..hi)
}

/// Whether `x` lies in the horizontal band where enemies may appear: the
/// middle of the playable width, one tenth of it kept free on either side.
pub open spec fn in_spawn_band(x: int, width: int) -> bool {
    width / 10 <= x < width - width / 10
}

/// A horizontal position for a fresh enemy, drawn uniformly from the middle
/// of the playable width.
pub fn random_enemy_position(width: i64) -> (x: i64)
    requires
        1 <= width <= COORD_LIMIT,
    ensures
        in_spawn_band(x as int, width as int),
{
    sample_range(width / 10, width - width / 10)
}

/// `e` one frame later: moved down by its speed times `1 + level`, held
/// inside the coordinate range.
pub open spec fn advanced_enemy(e: Enemy, level: int) -> Enemy {
    Enemy {
        pos_x: e.pos_x,
        pos_y: clamp_coord(e.pos_y + clamp_coord(e.speed * (1 + level))) as i64,
        speed: e.speed,
        word: e.word,
        font_size: e.font_size,
    }
}

pub open spec fn advanced_seq(es: Seq<Enemy>, level: int) -> Seq<Enemy> {
    es.map_values(|e: Enemy| advanced_enemy(e, level))
}

pub open spec fn advanced_target(t: Option<Enemy>, level: int) -> Option<Enemy> {
    match t {
        Option::Some(e) => Option::Some(advanced_enemy(e, level)),
        Option::None => Option::None,
    }
}

/// `b` is `a` with the first letter of its word consumed and everything
/// else kept.
pub open spec fn stripped_from(a: Enemy, b: Enemy) -> bool {
    &&& b.pos_x == a.pos_x
    &&& b.pos_y == a.pos_y
    &&& b.speed == a.speed
    &&& b.font_size == a.font_size
    &&& b.word@ == a.word@.drop_first()
}

/// The index of the first enemy at `from` or later whose word starts with
/// `ch`.
pub open spec fn first_match(es: Seq<Enemy>, ch: char, from: int) -> Option<int>
    decreases es.len() - from,
{
    if from < 0 || from >= es.len() {
        Option::None
    } else if es[from].word@.len() > 0 && es[from].word@[0] == ch {
        Option::Some(from)
    } else {
        first_match(es, ch, from + 1)
    }
}

/// The gameplay mode: the player, the descending enemies, the single
/// current target, and the level and sequence counters driven by the word
/// source.
pub struct Game<P: WordProducer> {
    pub goto_state: Option<States>,
    pub level: usize,
    /// When the last enemy was spawned, on the front end's monotonic clock.
    pub last_spawn: u64,
    pub players: Vec<Player>,
    pub enemies: Vec<Enemy>,
    /// The enemy currently receiving typed input, never also in `enemies`.
    pub target: Option<Enemy>,
    pub sequence: usize,
    pub producer: P,
    pub font_size: u32,
}

/// What one update does, between the old and the new game value: every
/// enemy and the target move down, then the word source is consulted at the
/// old level and sequence; a finished game requests Victory once the field
/// is clear, a finished level advances the level once the field is clear,
/// and a word spawns a new enemy when the spawn period has passed or no
/// enemy remains.
pub open spec fn game_step<P: WordProducer>(g0: Game<P>, g1: Game<P>, width: int, now: int) -> bool {
    let me = advanced_seq(g0.enemies@, g0.level as int);
    let mt = advanced_target(g0.target, g0.level as int);
    let clear = g0.enemies@.len() == 0 && g0.target is None;
    match g0.producer.spec_next_word(g0.level as int, g0.sequence as int) {
        WordV::GameComplete => {
            &&& g1.enemies@ == me
            &&& g1.target == mt
            &&& g1.level == g0.level
            &&& g1.sequence == g0.sequence
            &&& g1.last_spawn == g0.last_spawn
            &&& g1.goto_state == (if clear {
                Option::Some(States::Victory)
            } else {
                g0.goto_state
            })
        },
        WordV::LevelComplete => {
            &&& g1.enemies@ == me
            &&& g1.target == mt
            &&& g1.goto_state == g0.goto_state
            &&& g1.last_spawn == g0.last_spawn
            &&& if clear {
                g1.level == g0.level + 1 && g1.sequence == 0
            } else {
                g1.level == g0.level && g1.sequence == g0.sequence
            }
        },
        WordV::Word(w) => {
            &&& g1.target == mt
            &&& g1.level == g0.level
            &&& g1.goto_state == g0.goto_state
            &&& if now - g0.last_spawn >= SPAWN_PERIOD_SECS || g0.enemies@.len() == 0 {
                &&& g1.sequence == g0.sequence + 1
                &&& g1.last_spawn == now
                &&& g1.enemies@.len() == me.len() + 1
                &&& g1.enemies@.take(me.len() as int) == me
                &&& spawned_enemy(g1.enemies@.last(), w, width, g0.font_size as int)
            } else {
                &&& g1.sequence == g0.sequence
                &&& g1.last_spawn == g0.last_spawn
                &&& g1.enemies@ == me
            }
        },
    }
}

/// A fresh enemy: somewhere in the spawn band, just above the visible area,
/// at base speed, carrying the word to type.
pub open spec fn spawned_enemy(e: Enemy, w: Seq<char>, width: int, font: int) -> bool {
    &&& in_spawn_band(e.pos_x as int, width)
    &&& e.pos_y == -UNITS_PER_PIXEL
    &&& e.speed == ENEMY_BASE_SPEED
    &&& e.word@ == w
    &&& e.font_size == font
}

/// What one typed character does: with a target set, its first letter is
/// consumed when it matches and the character is ignored otherwise; with no
/// target, the first enemy whose word starts with the character leaves the
/// enemy list, loses that letter, and becomes the target. A target whose
/// word runs out is destroyed.
pub open spec fn typed_rel<P: WordProducer>(g0: Game<P>, g1: Game<P>, ch: char) -> bool {
    match g0.target {
        Option::Some(t) => {
            if t.word@.len() > 0 && t.word@[0] == ch {
                &&& g1.enemies@ == g0.enemies@
                &&& if t.word@.len() == 1 {
                    g1.target is None
                } else {
                    g1.target is Some && stripped_from(t, g1.target->0)
                }
            } else {
                g1.enemies@ == g0.enemies@ && g1.target == g0.target
            }
        },
        Option::None => match first_match(g0.enemies@, ch, 0) {
            Option::None => g1.enemies@ == g0.enemies@ && g1.target == g0.target,
            Option::Some(i) => {
                &&& g1.enemies@ == g0.enemies@.remove(i)
                &&& if g0.enemies@[i].word@.len() == 1 {
                    g1.target is None
                } else {
                    g1.target is Some && stripped_from(g0.enemies@[i], g1.target->0)
                }
            },
        },
    }
}

impl<P: WordProducer> Game<P> {
    pub open spec fn wf(self) -> bool {
        &&& forall|i: int| 0 <= i < self.enemies@.len() ==> wf_enemy(#[trigger] self.enemies@[i])
        &&& match self.target {
            Option::Some(t) => wf_enemy(t),
            Option::None => true,
        }
    }

    /// A fresh game at level zero: one player, no enemies, no target.
    pub fn new(name: String, word_producer: P, font_size: u32, now: u64) -> (g: Game<P>)
        ensures
            g.goto_state is None,
            g.level == 0,
            g.sequence == 0,
            g.last_spawn == now,
            g.enemies@.len() == 0,
            g.target is None,
            g.producer == word_producer,
            g.font_size == font_size,
            g.players@.len() == 1,
            g.players@[0].name@ == name@,
            g.wf(),
    {
        Game {
            goto_state: Option::None,
            level: 0,
            last_spawn: now,
            players: vec![
                Player {
                    pos_x: 300 * UNITS_PER_PIXEL,
                    pos_y: 700 * UNITS_PER_PIXEL,
                    name,
                    font_size,
                },
            ],
            enemies: Vec::new(),
            target: Option::None,
            sequence: 0,
            producer: word_producer,
            font_size,
        }
    }

    /// One frame: moves everything down, then asks the word source what
    /// comes next and spawns, advances the level, or requests Victory.
    pub fn update(&mut self, width: i64, now: u64)
        requires
            old(self).wf(),
            1 <= width <= COORD_LIMIT,
            now >= old(self).last_spawn,
            old(self).sequence < usize::MAX,
            old(self).level < usize::MAX,
        ensures
            final(self).players == old(self).players,
            final(self).font_size == old(self).font_size,
            final(self).producer == old(self).producer,
            game_step(*old(self), *final(self), width as int, now as int),
            final(self).wf(),
    {
        let ghost g0 = *self;
        let level = self.level;
        let mut i: usize = 0;
        while i < self.enemies.len()
            invariant
                g0.wf(),
                level == g0.level,
                self.enemies@.len() == g0.enemies@.len(),
                0 <= i <= self.enemies@.len(),
                forall|k: int|
                    i <= k < self.enemies@.len() ==> #[trigger] self.enemies@[k] == g0.enemies@[k],
                forall|k: int|
                    0 <= k < i ==> #[trigger] self.enemies@[k] == advanced_enemy(
                        g0.enemies@[k],
                        level as int,
                    ),
                self.goto_state == g0.goto_state,
                self.level == g0.level,
                self.sequence == g0.sequence,
                self.last_spawn == g0.last_spawn,
                self.players == g0.players,
                self.target == g0.target,
                self.producer == g0.producer,
                self.font_size == g0.font_size,
            decreases self.enemies@.len() - i,
        {
            let ghost pre = self.enemies@;
            let mut e = self.enemies.remove(i);
            e.pos_y = advance_position(e.pos_y, e.speed, level);
            self.enemies.insert(i, e);
            proof {
                assert(e == advanced_enemy(g0.enemies@[i as int], level as int));
                assert(self.enemies@ =~= pre.update(
                    i as int,
                    advanced_enemy(g0.enemies@[i as int], level as int),
                ));
            }
            i += 1;
        }
        proof {
            assert(self.enemies@ =~= advanced_seq(g0.enemies@, level as int));
        }
        match self.target.take() {
            Option::Some(mut t) => {
                t.pos_y = advance_position(t.pos_y, t.speed, level);
                self.target = Option::Some(t);
            },
            Option::None => {},
        }
        let res = self.producer.next_word(self.level, self.sequence);
        match res {
            Enemies::GameComplete => {
                if self.enemies.len() == 0 && self.target.is_none() {
                    self.goto_state = Option::Some(States::Victory);
                }
            },
            Enemies::LevelComplete => {
                if self.enemies.len() == 0 && self.target.is_none() {
                    self.level = self.level + 1;
                    self.sequence = 0;
                }
            },
            Enemies::Word(w) => {
                if now - self.last_spawn >= SPAWN_PERIOD_SECS || self.enemies.len() == 0 {
                    let ghost before = self.enemies@;
                    let x = random_enemy_position(width);
                    self.enemies.push(
                        Enemy {
                            pos_x: x,
                            pos_y: -UNITS_PER_PIXEL,
                            speed: ENEMY_BASE_SPEED,
                            word: chars_of(w.as_str()),
                            font_size: self.font_size,
                        },
                    );
                    self.last_spawn = now;
                    self.sequence = self.sequence + 1;
                    proof {
                        assert(self.enemies@.take(before.len() as int) =~= before);
                    }
                }
            },
        }
    }

    /// One typed character, matched against the target or, failing a
    /// target, against the enemy list.
    pub fn text_input_event(&mut self, ch: char)
        requires
            old(self).wf(),
        ensures
            final(self).players == old(self).players,
            final(self).font_size == old(self).font_size,
            final(self).producer == old(self).producer,
            final(self).goto_state == old(self).goto_state,
            final(self).level == old(self).level,
            final(self).sequence == old(self).sequence,
            final(self).last_spawn == old(self).last_spawn,
            typed_rel(*old(self), *final(self), ch),
            final(self).wf(),
    {
        let ghost g0 = *self;
        match self.target.take() {
            Option::Some(mut t) => {
                if t.word.len() > 0 && t.word[0] == ch {
                    t.word.remove(0);
                    if t.word.len() > 0 {
                        self.target = Option::Some(t);
                    }
                } else {
                    self.target = Option::Some(t);
                }
            },
            Option::None => {
                let mut i: usize = 0;
                while i < self.enemies.len()
                    invariant
                        g0.wf(),
                        g0 == *old(self),
                        *self == g0,
                        g0.target is None,
                        0 <= i <= self.enemies@.len(),
                        first_match(g0.enemies@, ch, 0) == first_match(g0.enemies@, ch, i as int),
                    decreases self.enemies@.len() - i,
                {
                    let wlen = self.enemies[i].word.len();
                    if wlen > 0 && self.enemies[i].word[0] == ch {
                        let mut e = self.enemies.remove(i);
                        e.word.remove(0);
                        if e.word.len() > 0 {
                            self.target = Option::Some(e);
                        }
                        return ;
                    }
                    i += 1;
                }
            },
        }
    }

    /// Escape requests the Pause mode instead of quitting outright.
    pub fn key_down_event(&mut self, key: Key)
        ensures
            *final(self) == (if key == Key::Escape {
                (Game { goto_state: Option::Some(States::Pause), ..*old(self) })
            } else {
                *old(self)
            }),
    {
        if key == Key::Escape {
            self.goto_state = Option::Some(States::Pause);
        }
    }

    /// Hands over the pending transition, clearing it.
    pub fn next_state(&mut self) -> (r: Option<States>)
        ensures
            r == old(self).goto_state,
            *final(self) == (Game { goto_state: Option::None, ..*old(self) }),
    {
        self.goto_state.take()
    }
}

/// `pos` moved down by `speed` times `1 + level`, held inside the
/// coordinate range.
fn advance_position(pos: i64, speed: i64, level: usize) -> (r: i64)
    requires
        -COORD_LIMIT <= pos <= COORD_LIMIT,
        0 <= speed <= ENEMY_MAX_SPEED,
    ensures
        r == clamp_coord(pos + clamp_coord(speed * (1 + level as int))),
        -COORD_LIMIT <= r <= COORD_LIMIT,
{
    proof {
        assert(0 <= (speed as int) * (1 + level as int) <= ENEMY_MAX_SPEED * (1 + level as int))
            by (nonlinear_arith)
            requires
                0 <= speed <= ENEMY_MAX_SPEED,
                0 <= level as int,
        ;
    }
    let wide = (speed as i128) * (1 + level as i128);
    let adv = if wide > COORD_LIMIT as i128 {
        COORD_LIMIT
    } else {
        wide as i64
    };
    clamp_exec(pos + adv)
}

} // verus!
