//! The application manager: owns one instance of every mode, forwards each
//! per-frame call to the active one, and switches modes when the active
//! mode requests a transition.

use vstd::prelude::*;
use crate::States;
use crate::Key;
use crate::MouseButton;
use crate::codec::parse_doc;
use crate::color::Color;
use crate::game::{Game, game_step, sample_range, typed_rel};
use crate::geometry::{COORD_LIMIT, ColoredTriangles, Point, UNITS_PER_PIXEL, scale_store};
use crate::paint::{Paint, click_rel, keydown_rel, same_tools};
use crate::ui::{Quit, UI, first_transition};
use crate::wording::WordProducer;

verus! {

/// One mode instance: a menu, the game, the editor, or the quit sentinel.
pub enum Mode<P: WordProducer> {
    Menu(UI),
    Play(Game<P>),
    Edit(Paint),
    Quitting(Quit),
}

/// The transition the mode has pending, if any.
pub open spec fn pending_of<P: WordProducer>(m: Mode<P>) -> Option<States> {
    match m {
        Mode::Menu(u) => u.goto_state,
        Mode::Play(g) => g.goto_state,
        Mode::Edit(_) => Option::None,
        Mode::Quitting(_) => Option::None,
    }
}

/// The mode with its pending transition taken away.
pub open spec fn clear_pending<P: WordProducer>(m: Mode<P>) -> Mode<P> {
    match m {
        Mode::Menu(u) => Mode::Menu(UI { goto_state: Option::None, ..u }),
        Mode::Play(g) => Mode::Play(Game { goto_state: Option::None, ..g }),
        Mode::Edit(p) => Mode::Edit(p),
        Mode::Quitting(q) => Mode::Quitting(q),
    }
}

pub open spec fn mode_wf<P: WordProducer>(m: Mode<P>) -> bool {
    match m {
        Mode::Menu(_) => true,
        Mode::Play(g) => g.wf(),
        Mode::Edit(p) => p.wf(),
        Mode::Quitting(_) => true,
    }
}

/// The next active mode identity: the pending transition if one is set.
pub open spec fn resolved(p: Option<States>, cur: States) -> States {
    match p {
        Option::Some(s) => s,
        Option::None => cur,
    }
}

/// The mode table holds an entry for `s`.
pub open spec fn has_state<P: WordProducer>(tbl: Seq<(States, Mode<P>)>, s: States) -> bool {
    exists|i: int| 0 <= i < tbl.len() && (#[trigger] tbl[i]).0 == s
}

/// How many stars the decorative background holds.
pub const STAR_COUNT: usize = 60;

/// Owns every mode instance and the identity of the active one, routes
/// every call to the active instance, and owns the shared decorative
/// background, which no transition resets.
pub struct Manager<P: WordProducer> {
    /// The decorative starfield, drawn behind every mode.
    pub stars: Vec<Point>,
    /// The decorative large-scale geometry, drawn behind every mode.
    pub planets: ColoredTriangles,
    /// The background clear color.
    pub space: Color,
    /// One entry per mode identity; no identity occurs twice.
    pub states: Vec<(States, Mode<P>)>,
    pub current_state: States,
}

/// The common shape of every forwarded call: only the active entry's mode
/// changes, to `m1` with its pending transition taken away, and the active
/// identity follows that transition.
pub open spec fn dispatch_rel<P: WordProducer>(
    mgr0: Manager<P>,
    mgr1: Manager<P>,
    m1: Mode<P>,
    idx: int,
) -> bool {
    &&& 0 <= idx < mgr0.states@.len()
    &&& mgr0.states@[idx].0 == mgr0.current_state
    &&& mgr1.states@.len() == mgr0.states@.len()
    &&& (forall|k: int|
        0 <= k < mgr0.states@.len() && k != idx ==> mgr1.states@[k] == mgr0.states@[k])
    &&& mgr1.states@[idx].0 == mgr0.states@[idx].0
    &&& mgr1.states@[idx].1 == clear_pending(m1)
    &&& mgr1.current_state == resolved(pending_of(m1), mgr0.current_state)
    &&& mgr1.stars == mgr0.stars
    &&& mgr1.planets == mgr0.planets
    &&& mgr1.space == mgr0.space
}

/// What an update does to the active mode: menus and the editor idle, the
/// game runs one frame, and the quit sentinel asks the front end to exit.
pub open spec fn mode_update_rel<P: WordProducer>(
    m0: Mode<P>,
    m1: Mode<P>,
    width: int,
    now: int,
    quit: bool,
) -> bool {
    match (m0, m1) {
        (Mode::Menu(a), Mode::Menu(b)) => a == b && !quit,
        (Mode::Play(g0), Mode::Play(g1)) => {
            &&& game_step(g0, g1, width, now)
            &&& g1.players == g0.players
            &&& g1.font_size == g0.font_size
            &&& g1.producer == g0.producer
            &&& !quit
        },
        (Mode::Edit(a), Mode::Edit(b)) => a == b && !quit,
        (Mode::Quitting(a), Mode::Quitting(b)) => a == b && quit,
        _ => false,
    }
}

/// What a typed character does: only the game reads it.
pub open spec fn mode_text_rel<P: WordProducer>(m0: Mode<P>, m1: Mode<P>, ch: char) -> bool {
    match (m0, m1) {
        (Mode::Play(g0), Mode::Play(g1)) => {
            &&& typed_rel(g0, g1, ch)
            &&& g1.players == g0.players
            &&& g1.font_size == g0.font_size
            &&& g1.producer == g0.producer
            &&& g1.goto_state == g0.goto_state
            &&& g1.level == g0.level
            &&& g1.sequence == g0.sequence
            &&& g1.last_spawn == g0.last_spawn
        },
        (Mode::Menu(a), Mode::Menu(b)) => a == b,
        (Mode::Edit(a), Mode::Edit(b)) => a == b,
        (Mode::Quitting(a), Mode::Quitting(b)) => a == b,
        _ => false,
    }
}

/// What a key press does: a menu picks its first matching transition, the
/// game routes Escape to Pause, the editor runs its key command.
pub open spec fn mode_key_rel<P: WordProducer>(
    m0: Mode<P>,
    m1: Mode<P>,
    key: Key,
    width: int,
    height: int,
    saved: Option<Seq<char>>,
) -> bool {
    match (m0, m1) {
        (Mode::Menu(a), Mode::Menu(b)) => {
            &&& b.options == a.options
            &&& b.goto_state == (match first_transition(a.options@, key, 0) {
                Option::Some(st) => Option::Some(st),
                Option::None => a.goto_state,
            })
            &&& saved is None
        },
        (Mode::Play(g0), Mode::Play(g1)) => {
            &&& g1 == (if key == Key::Escape {
                (Game { goto_state: Option::Some(States::Pause), ..g0 })
            } else {
                g0
            })
            &&& saved is None
        },
        (Mode::Edit(a), Mode::Edit(b)) => {
            &&& Paint::frame_eq(a, b)
            &&& keydown_rel(a, b, key, width, height, saved)
        },
        (Mode::Quitting(a), Mode::Quitting(b)) => a == b && saved is None,
        _ => false,
    }
}

/// What a mouse click does: only the editor reads it.
pub open spec fn mode_click_rel<P: WordProducer>(
    m0: Mode<P>,
    m1: Mode<P>,
    button: MouseButton,
    x: int,
    y: int,
) -> bool {
    match (m0, m1) {
        (Mode::Edit(a), Mode::Edit(b)) => {
            &&& Paint::frame_eq(a, b)
            &&& same_tools(a, b)
            &&& click_rel(a, b, button, x, y)
        },
        (Mode::Menu(a), Mode::Menu(b)) => a == b,
        (Mode::Play(a), Mode::Play(b)) => a == b,
        (Mode::Quitting(a), Mode::Quitting(b)) => a == b,
        _ => false,
    }
}

/// What a cursor move does: only the editor follows it.
pub open spec fn mode_motion_rel<P: WordProducer>(m0: Mode<P>, m1: Mode<P>, x: int, y: int) -> bool {
    match (m0, m1) {
        (Mode::Edit(a), Mode::Edit(b)) => {
            &&& b.m_pos == (crate::geometry::Point {
                x: crate::geometry::clamp_coord(x - a.margin) as i64,
                y: crate::geometry::clamp_coord(y - a.margin) as i64,
            })
            &&& b.ct == a.ct
            &&& b.poly == a.poly
            &&& same_tools(a, b)
            &&& b.write_absolute == a.write_absolute
            &&& b.margin == a.margin
            &&& b.filename == a.filename
        },
        (Mode::Menu(a), Mode::Menu(b)) => a == b,
        (Mode::Play(a), Mode::Play(b)) => a == b,
        (Mode::Quitting(a), Mode::Quitting(b)) => a == b,
        _ => false,
    }
}

/// What the game needs of one frame's inputs before it can run.
pub open spec fn update_pre<P: WordProducer>(m: Mode<P>, now: int) -> bool {
    match m {
        Mode::Play(g) => now >= g.last_spawn && g.sequence < usize::MAX && g.level < usize::MAX,
        _ => true,
    }
}

/// What the editor needs of the drawing area before a key command.
pub open spec fn keydown_pre<P: WordProducer>(m: Mode<P>, width: int, height: int) -> bool {
    match m {
        Mode::Edit(p) => 0 < width - 2 * p.margin <= COORD_LIMIT && 0 < height - 2 * p.margin
            <= COORD_LIMIT,
        _ => true,
    }
}

impl<P: WordProducer> Manager<P> {
    pub open spec fn wf(self) -> bool {
        &&& forall|i: int, j: int|
            0 <= i < j < self.states@.len() ==> (#[trigger] self.states@[i]).0 != (
            #[trigger] self.states@[j]).0
        &&& forall|i: int| 0 <= i < self.states@.len() ==> mode_wf((#[trigger] self.states@[i]).1)
    }

    /// A manager over the given mode table, starting in `initial_state`.
    /// The table must hold every identity a transition can reach; looking
    /// up a missing one is a construction bug, not a runtime condition.
    /// The shared background is built here: `STAR_COUNT` stars drawn by
    /// chance over the screen, and the large-scale geometry read from
    /// `background` — given normalized, it is scaled up to the screen —
    /// under the fixed space color. `None` when `background` is malformed.
    pub fn new(
        initial_state: States,
        states: Vec<(States, Mode<P>)>,
        width: i64,
        height: i64,
        background: &str,
    ) -> (r: Option<Manager<P>>)
        requires
            forall|i: int, j: int|
                0 <= i < j < states@.len() ==> (#[trigger] states@[i]).0 != (
                #[trigger] states@[j]).0,
            forall|i: int| 0 <= i < states@.len() ==> mode_wf((#[trigger] states@[i]).1),
            1 <= width <= COORD_LIMIT,
            1 <= height <= COORD_LIMIT,
        ensures
            match parse_doc(background@) {
                Option::None => r is None,
                Option::Some(v) => match r {
                    Option::None => false,
                    Option::Some(m) => {
                        &&& m.states == states
                        &&& m.current_state == initial_state
                        &&& m.stars@.len() == STAR_COUNT
                        &&& (forall|j: int|
                            0 <= j < m.stars@.len() ==> 0 <= (#[trigger] m.stars@[j]).x < width && 0
                                <= m.stars@[j].y < height)
                        &&& m.planets@ == scale_store(
                            v,
                            width as int,
                            UNITS_PER_PIXEL as int,
                            height as int,
                            UNITS_PER_PIXEL as int,
                        )
                        &&& m.space == (Color { r: 22, g: 2, b: 33 })
                        &&& m.wf()
                    },
                },
            },
    {
        let mut planets = match ColoredTriangles::from_text(background) {
            Option::Some(ct) => ct,
            Option::None => {
                return Option::None;
            },
        };
        let ghost v0 = planets@;
        planets.scale(width, UNITS_PER_PIXEL, height, UNITS_PER_PIXEL);
        proof {
            crate::geometry::lemma_scaled_rel_store(
                v0,
                planets@,
                width as int,
                UNITS_PER_PIXEL as int,
                height as int,
                UNITS_PER_PIXEL as int,
            );
        }
        let mut stars: Vec<Point> = Vec::new();
        let mut k: usize = 0;
        while k < STAR_COUNT
            invariant
                1 <= width <= COORD_LIMIT,
                1 <= height <= COORD_LIMIT,
                stars@.len() == k,
                0 <= k <= STAR_COUNT,
                forall|j: int|
                    0 <= j < stars@.len() ==> 0 <= (#[trigger] stars@[j]).x < width && 0
                        <= stars@[j].y < height,
            decreases STAR_COUNT - k,
        {
            stars.push(Point { x: sample_range(0, width), y: sample_range(0, height) });
            k += 1;
        }
        Option::Some(
            Manager {
                stars,
                planets,
                space: Color { r: 22, g: 2, b: 33 },
                states,
                current_state: initial_state,
            },
        )
    }

    fn find_current(&self) -> (idx: usize)
        requires
            self.wf(),
            has_state(self.states@, self.current_state),
        ensures
            idx < self.states@.len(),
            self.states@[idx as int].0 == self.current_state,
    {
        let mut i: usize = 0;
        while i < self.states.len()
            invariant
                has_state(self.states@, self.current_state),
                0 <= i <= self.states@.len(),
                forall|j: int| 0 <= j < i ==> (#[trigger] self.states@[j]).0 != self.current_state,
            decreases self.states@.len() - i,
        {
            if self.states[i].0 == self.current_state {
                return i;
            }
            i += 1;
        }
        proof {
            assert(false);
        }
        vstd::pervasive::unreached()
    }

    /// Takes the pending transition of `entry`'s mode and reinstalls the
    /// entry, then switches the active identity if a transition was set.
    fn poll_and_restore(&mut self, idx: usize, entry: (States, Mode<P>))
        requires
            idx <= old(self).states@.len(),
        ensures
            final(self).states@ == old(self).states@.insert(
                idx as int,
                (entry.0, clear_pending(entry.1)),
            ),
            final(self).current_state == resolved(pending_of(entry.1), old(self).current_state),
            final(self).stars == old(self).stars,
            final(self).planets == old(self).planets,
            final(self).space == old(self).space,
    {
        let (st, mut m) = entry;
        let ns = match &mut m {
            Mode::Menu(u) => u.next_state(),
            Mode::Play(g) => g.next_state(),
            Mode::Edit(p) => p.next_state(),
            Mode::Quitting(q) => q.next_state(),
        };
        self.states.insert(idx, (st, m));
        match ns {
            Option::Some(n) => {
                self.current_state = n;
            },
            Option::None => {},
        }
    }

    /// One frame of the active mode, then the transition poll; `true` asks
    /// the front end to end the process.
    pub fn update(&mut self, width: i64, now: u64) -> (quit: bool)
        requires
            old(self).wf(),
            has_state(old(self).states@, old(self).current_state),
            1 <= width <= COORD_LIMIT,
            forall|i: int|
                0 <= i < old(self).states@.len() && (#[trigger] old(self).states@[i]).0 == old(
                    self,
                ).current_state ==> update_pre(old(self).states@[i].1, now as int),
        ensures
            exists|idx: int, m1: Mode<P>|
                #[trigger] dispatch_rel(*old(self), *final(self), m1, idx) && mode_update_rel(
                    old(self).states@[idx].1,
                    m1,
                    width as int,
                    now as int,
                    quit,
                ),
            final(self).wf(),
    {
        let idx = self.find_current();
        let mut entry = self.states.remove(idx);
        let quit = match &mut entry.1 {
            Mode::Menu(_) => false,
            Mode::Play(g) => {
                g.update(width, now);
                false
            },
            Mode::Edit(_) => false,
            Mode::Quitting(_) => true,
        };
        let ghost m1 = entry.1;
        self.poll_and_restore(idx, entry);
        proof {
            assert(self.states@ =~= old(self).states@.update(
                idx as int,
                (old(self).states@[idx as int].0, clear_pending(m1)),
            ));
            assert(dispatch_rel(*old(self), *self, m1, idx as int));
        }
        quit
    }

    /// A typed character for the active mode, then the transition poll.
    pub fn text_input_event(&mut self, ch: char)
        requires
            old(self).wf(),
            has_state(old(self).states@, old(self).current_state),
        ensures
            exists|idx: int, m1: Mode<P>|
                #[trigger] dispatch_rel(*old(self), *final(self), m1, idx) && mode_text_rel(
                    old(self).states@[idx].1,
                    m1,
                    ch,
                ),
            final(self).wf(),
    {
        let idx = self.find_current();
        let mut entry = self.states.remove(idx);
        match &mut entry.1 {
            Mode::Play(g) => g.text_input_event(ch),
            _ => {},
        }
        let ghost m1 = entry.1;
        self.poll_and_restore(idx, entry);
        proof {
            assert(self.states@ =~= old(self).states@.update(
                idx as int,
                (old(self).states@[idx as int].0, clear_pending(m1)),
            ));
            assert(dispatch_rel(*old(self), *self, m1, idx as int));
        }
    }

    /// A key press for the active mode, then the transition poll; the
    /// editor may hand back serialized geometry to save.
    pub fn key_down_event(&mut self, key: Key, width: i64, height: i64) -> (saved: Option<String>)
        requires
            old(self).wf(),
            has_state(old(self).states@, old(self).current_state),
            forall|i: int|
                0 <= i < old(self).states@.len() && (#[trigger] old(self).states@[i]).0 == old(
                    self,
                ).current_state ==> keydown_pre(old(self).states@[i].1, width as int, height as int),
        ensures
            exists|idx: int, m1: Mode<P>|
                #[trigger] dispatch_rel(*old(self), *final(self), m1, idx) && mode_key_rel(
                    old(self).states@[idx].1,
                    m1,
                    key,
                    width as int,
                    height as int,
                    match saved {
                        Option::Some(s) => Option::Some(s@),
                        Option::None => Option::None,
                    },
                ),
            final(self).wf(),
    {
        let idx = self.find_current();
        let mut entry = self.states.remove(idx);
        let saved = match &mut entry.1 {
            Mode::Menu(u) => {
                u.key_down_event(key);
                Option::None
            },
            Mode::Play(g) => {
                g.key_down_event(key);
                Option::None
            },
            Mode::Edit(p) => p.key_down_event(key, width, height),
            Mode::Quitting(_) => Option::None,
        };
        let ghost m1 = entry.1;
        self.poll_and_restore(idx, entry);
        proof {
            assert(self.states@ =~= old(self).states@.update(
                idx as int,
                (old(self).states@[idx as int].0, clear_pending(m1)),
            ));
            assert(dispatch_rel(*old(self), *self, m1, idx as int));
        }
        saved
    }

    /// A cursor move for the active mode, then the transition poll.
    pub fn mouse_motion_event(&mut self, x: i64, y: i64)
        requires
            old(self).wf(),
            has_state(old(self).states@, old(self).current_state),
            -COORD_LIMIT <= x <= COORD_LIMIT,
            -COORD_LIMIT <= y <= COORD_LIMIT,
        ensures
            exists|idx: int, m1: Mode<P>|
                #[trigger] dispatch_rel(*old(self), *final(self), m1, idx) && mode_motion_rel(
                    old(self).states@[idx].1,
                    m1,
                    x as int,
                    y as int,
                ),
            final(self).wf(),
    {
        let idx = self.find_current();
        let mut entry = self.states.remove(idx);
        match &mut entry.1 {
            Mode::Edit(p) => p.mouse_motion_event(x, y),
            _ => {},
        }
        let ghost m1 = entry.1;
        self.poll_and_restore(idx, entry);
        proof {
            assert(self.states@ =~= old(self).states@.update(
                idx as int,
                (old(self).states@[idx as int].0, clear_pending(m1)),
            ));
            assert(dispatch_rel(*old(self), *self, m1, idx as int));
        }
    }

    /// A mouse click for the active mode, then the transition poll.
    pub fn mouse_button_down_event(&mut self, button: MouseButton, x: i64, y: i64)
        requires
            old(self).wf(),
            has_state(old(self).states@, old(self).current_state),
            -COORD_LIMIT <= x <= COORD_LIMIT,
            -COORD_LIMIT <= y <= COORD_LIMIT,
        ensures
            exists|idx: int, m1: Mode<P>|
                #[trigger] dispatch_rel(*old(self), *final(self), m1, idx) && mode_click_rel(
                    old(self).states@[idx].1,
                    m1,
                    button,
                    x as int,
                    y as int,
                ),
            final(self).wf(),
    {
        let idx = self.find_current();
        let mut entry = self.states.remove(idx);
        match &mut entry.1 {
            Mode::Edit(p) => p.mouse_button_down_event(button, x, y),
            _ => {},
        }
        let ghost m1 = entry.1;
        self.poll_and_restore(idx, entry);
        proof {
            assert(self.states@ =~= old(self).states@.update(
                idx as int,
                (old(self).states@[idx as int].0, clear_pending(m1)),
            ));
            assert(dispatch_rel(*old(self), *self, m1, idx as int));
        }
    }

    /// The substrate asks to quit: the active mode's answer is handed on —
    /// a menu intercepts and signals that the process must not quit, every
    /// other mode lets it proceed — and the transition poll still runs.
    pub fn quit_event(&mut self) -> (r: bool)
        requires
            old(self).wf(),
            has_state(old(self).states@, old(self).current_state),
        ensures
            exists|idx: int, m1: Mode<P>|
                #[trigger] dispatch_rel(*old(self), *final(self), m1, idx) && m1 == old(
                    self,
                ).states@[idx].1 && r == (m1 is Menu),
            final(self).wf(),
    {
        let idx = self.find_current();
        let mut entry = self.states.remove(idx);
        let r = match &entry.1 {
            Mode::Menu(u) => u.quit_event(),
            _ => false,
        };
        let ghost m1 = entry.1;
        self.poll_and_restore(idx, entry);
        proof {
            assert(self.states@ =~= old(self).states@.update(
                idx as int,
                (old(self).states@[idx as int].0, clear_pending(m1)),
            ));
            assert(dispatch_rel(*old(self), *self, m1, idx as int));
        }
        r
    }
}

} // verus!
