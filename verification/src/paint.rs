//! The editor mode: builds triangles from clicks, with snapping, color
//! cycling, collision-guided deletion, panning and zooming, and saving in
//! the triangle text format.

use vstd::prelude::*;
use crate::States;
use crate::Key;
use crate::MouseButton;
use crate::codec::{parse_doc, render_store};
use crate::color::{color_of_hex, valid_hex_color};
use crate::geometry::{
    COORD_LIMIT,
    ColoredTriangles,
    Point,
    StoreV,
    clamp_coord,
    clamp_exec,
    entry_at,
    entry_lt,
    in_bounds,
    scale_store,
    scaled_rel,
    spec_add_color,
    sqdist,
    store_tri_contains,
    translated_rel,
    tri_index_lt,
};
use crate::geometry::UNITS_PER_PIXEL;

verus! {

/// Snap distance a fresh editor starts with: ten pixels.
pub const DEFAULT_SNAP_DIST: i64 = 10 * UNITS_PER_PIXEL;

/// The store after the given hex colors are added in order.
pub open spec fn spec_add_colors(s: StoreV, cs: Seq<Seq<char>>) -> StoreV
    decreases cs.len(),
{
    if cs.len() == 0 {
        s
    } else {
        spec_add_colors(spec_add_color(s, color_of_hex(cs[0])), cs.drop_first())
    }
}

/// What snapping a click does: when some stored point lies within the snap
/// distance, the click lands on the closest stored point, earliest in
/// encounter order among ties; otherwise it stays where it was.
pub open spec fn snapped_ok(s: StoreV, raw: Point, snap: int, q: Point) -> bool {
    ||| (q == raw && (forall|c: int, i: int|
        0 <= c < s.triangles.len() && 0 <= i < s.triangles[c].len() ==> sqdist(
            #[trigger] s.triangles[c][i],
            raw,
        ) > snap * snap))
    ||| (exists|c: int, i: int|
        {
            &&& 0 <= c < s.triangles.len()
            &&& 0 <= i < s.triangles[c].len()
            &&& q == s.triangles[c][i]
            &&& sqdist(s.triangles[c][i], raw) <= snap * snap
            &&& forall|c2: int, i2: int|
                0 <= c2 < s.triangles.len() && 0 <= i2 < s.triangles[c2].len() ==> !entry_lt(
                    s,
                    #[trigger] entry_at(s, raw, c2, i2),
                    entry_at(s, raw, c, i),
                )
        })
}

/// Where a click at `raw` lands: on the nearest stored point when snapping
/// is on and one lies within the snap distance, else on `raw` itself.
pub fn snap_point(ct: &ColoredTriangles, raw: Point, snap_dist: i64, use_snap: bool) -> (q: Point)
    requires
        ct@.wf(),
        in_bounds(raw),
        -COORD_LIMIT <= snap_dist <= COORD_LIMIT,
    ensures
        in_bounds(q),
        use_snap ==> snapped_ok(ct@, raw, snap_dist as int, q),
        !use_snap ==> q == raw,
{
    if !use_snap {
        return raw;
    }
    proof {
        assert(snap_dist * snap_dist <= COORD_LIMIT * COORD_LIMIT && -(COORD_LIMIT * COORD_LIMIT)
            <= snap_dist * snap_dist) by (nonlinear_arith)
            requires
                -COORD_LIMIT <= snap_dist <= COORD_LIMIT,
        ;
    }
    let near = ct.nearest(1, raw);
    if near.len() == 0 {
        proof {
            assert forall|c: int, i: int|
                0 <= c < ct@.triangles.len() && 0 <= i < ct@.triangles[c].len() implies sqdist(
                #[trigger] ct@.triangles[c][i],
                raw,
            ) > snap_dist * snap_dist by {
                crate::geometry::lemma_total_points_zero(ct@.triangles, c);
            }
        }
        return raw;
    }
    let (c, i, d) = (near[0].0, near[0].1, near[0].2);
    if d <= snap_dist * snap_dist {
        let q = ct.triangles[c][i];
        proof {
            let e0 = near@[0];
            assert forall|c2: int, i2: int|
                0 <= c2 < ct@.triangles.len() && 0 <= i2 < ct@.triangles[c2].len() implies !entry_lt(
                ct@,
                #[trigger] entry_at(ct@, raw, c2, i2),
                entry_at(ct@, raw, c as int, i as int),
            ) by {
                let e = entry_at(ct@, raw, c2, i2);
                crate::geometry::lemma_sqdist_fits(ct@.triangles[c2][i2], raw);
                if e != e0 {
                    assert(!(exists|j: int| 0 <= j < near@.len() && near@[j] == e) ==> entry_lt(
                        ct@,
                        e0,
                        e,
                    ));
                }
            }
            assert(snapped_ok(ct@, raw, snap_dist as int, q));
        }
        q
    } else {
        proof {
            let e0 = near@[0];
            assert forall|c2: int, i2: int|
                0 <= c2 < ct@.triangles.len() && 0 <= i2 < ct@.triangles[c2].len() implies sqdist(
                #[trigger] ct@.triangles[c2][i2],
                raw,
            ) > snap_dist * snap_dist by {
                let e = entry_at(ct@, raw, c2, i2);
                crate::geometry::lemma_sqdist_fits(ct@.triangles[c2][i2], raw);
                if e != e0 {
                    assert(!(exists|j: int| 0 <= j < near@.len() && near@[j] == e) ==> entry_lt(
                        ct@,
                        e0,
                        e,
                    ));
                }
            }
        }
        raw
    }
}

/// The editor: the store being edited, the triangle under construction,
/// and the cursor, snapping and output settings.
pub struct Paint {
    /// The colored triangles being edited.
    pub ct: ColoredTriangles,
    /// Index of the color new triangles are drawn in.
    pub cur_color: usize,
    /// The triangle under construction: up to two buffered corners.
    pub poly: Vec<Point>,
    /// The cursor, in workspace units with the margin removed.
    pub m_pos: Point,
    /// Whether saving writes coordinates as they are, without normalizing.
    pub write_absolute: bool,
    /// Margin of the drawing area, in workspace units.
    pub margin: i64,
    /// How close a click must be to a stored point to snap to it.
    pub snap_dist: i64,
    pub use_snap: bool,
    pub wireframe: bool,
    /// Where the store is saved.
    pub filename: String,
}

impl Paint {
    pub open spec fn wf(self) -> bool {
        &&& self.ct@.wf()
        &&& self.cur_color < self.ct@.colors.len()
        &&& self.poly@.len() <= 2
        &&& forall|j: int| 0 <= j < self.poly@.len() ==> in_bounds(#[trigger] self.poly@[j])
        &&& in_bounds(self.m_pos)
        &&& -COORD_LIMIT <= self.snap_dist <= COORD_LIMIT
        &&& 0 <= self.margin <= COORD_LIMIT
    }

    /// Fields a click or key never touches.
    pub open spec fn frame_eq(p0: Paint, p1: Paint) -> bool {
        &&& p1.m_pos == p0.m_pos
        &&& p1.write_absolute == p0.write_absolute
        &&& p1.margin == p0.margin
        &&& p1.filename == p0.filename
    }

    /// An editor over the store read from `data`, scaled up to the drawing
    /// area unless the data is absolute, with the given colors added;
    /// `None` when `data` is malformed.
    pub fn new(
        margin: i64,
        colors: Vec<String>,
        filename: String,
        data: &str,
        read_absolute: bool,
        write_absolute: bool,
        width: i64,
        height: i64,
    ) -> (r: Option<Paint>)
        requires
            colors@.len() > 0,
            forall|j: int| 0 <= j < colors@.len() ==> valid_hex_color(#[trigger] colors@[j]@),
            0 <= margin <= COORD_LIMIT,
            0 < width - 2 * margin <= COORD_LIMIT,
            0 < height - 2 * margin <= COORD_LIMIT,
        ensures
            match parse_doc(data@) {
                Option::None => r is None,
                Option::Some(v0) => match r {
                    Option::None => false,
                    Option::Some(p) => {
                        &&& p.ct@ == spec_add_colors(
                            (if read_absolute {
                                v0
                            } else {
                                scale_store(
                                    v0,
                                    width - 2 * margin,
                                    UNITS_PER_PIXEL as int,
                                    height - 2 * margin,
                                    UNITS_PER_PIXEL as int,
                                )
                            }),
                            colors@.map_values(|c: String| c@),
                        )
                        &&& p.cur_color == 0
                        &&& p.poly@.len() == 0
                        &&& p.m_pos == (Point { x: 0, y: 0 })
                        &&& p.snap_dist == DEFAULT_SNAP_DIST
                        &&& p.use_snap == true
                        &&& p.wireframe == false
                        &&& p.write_absolute == write_absolute
                        &&& p.margin == margin
                        &&& p.filename == filename
                        &&& p.wf()
                    },
                },
            },
    {
        let mut ct = match ColoredTriangles::from_text(data) {
            Option::Some(ct) => ct,
            Option::None => {
                return Option::None;
            },
        };
        let ghost v0 = ct@;
        if !read_absolute {
            ct.scale(width - 2 * margin, UNITS_PER_PIXEL, height - 2 * margin, UNITS_PER_PIXEL);
            proof {
                let sc = scale_store(
                    v0,
                    width - 2 * margin,
                    UNITS_PER_PIXEL as int,
                    height - 2 * margin,
                    UNITS_PER_PIXEL as int,
                );
                assert forall|c: int| 0 <= c < v0.triangles.len() implies ct@.triangles[c]
                    =~= sc.triangles[c] by {}
                assert(ct@.triangles =~= sc.triangles);
                assert(ct@ =~= sc);
            }
        }
        let ghost v1 = ct@;
        let mut i: usize = 0;
        proof {
            assert(colors@.map_values(|c: String| c@).skip(0) =~= colors@.map_values(
                |c: String| c@,
            ));
        }
        while i < colors.len()
            invariant
                forall|j: int| 0 <= j < colors@.len() ==> valid_hex_color(#[trigger] colors@[j]@),
                0 <= i <= colors@.len(),
                ct@.wf(),
                i > 0 ==> ct@.colors.len() >= 1,
                spec_add_colors(v1, colors@.map_values(|c: String| c@)) == spec_add_colors(
                    ct@,
                    colors@.map_values(|c: String| c@).skip(i as int),
                ),
            decreases colors@.len() - i,
        {
            let ghost cs = colors@.map_values(|c: String| c@);
            ct.add_color(colors[i].as_str());
            proof {
                assert(cs.skip(i as int)[0] == colors@[i as int]@);
                assert(cs.skip(i as int).drop_first() =~= cs.skip(i as int + 1));
            }
            i += 1;
        }
        proof {
            assert(colors@.map_values(|c: String| c@).skip(colors@.len() as int) =~= Seq::<
                Seq<char>,
            >::empty());
        }
        Option::Some(
            Paint {
                ct,
                cur_color: 0,
                poly: Vec::new(),
                m_pos: Point { x: 0, y: 0 },
                write_absolute,
                margin,
                snap_dist: DEFAULT_SNAP_DIST,
                use_snap: true,
                wireframe: false,
                filename,
            },
        )
    }

    /// Follows the cursor, removing the margin and holding the position
    /// inside the coordinate range.
    pub fn mouse_motion_event(&mut self, x: i64, y: i64)
        requires
            old(self).wf(),
            -COORD_LIMIT <= x <= COORD_LIMIT,
            -COORD_LIMIT <= y <= COORD_LIMIT,
        ensures
            final(self).m_pos == (Point {
                x: clamp_coord(x - old(self).margin) as i64,
                y: clamp_coord(y - old(self).margin) as i64,
            }),
            final(self).ct == old(self).ct,
            final(self).poly == old(self).poly,
            final(self).cur_color == old(self).cur_color,
            final(self).snap_dist == old(self).snap_dist,
            final(self).use_snap == old(self).use_snap,
            final(self).wireframe == old(self).wireframe,
            final(self).write_absolute == old(self).write_absolute,
            final(self).margin == old(self).margin,
            final(self).filename == old(self).filename,
            final(self).wf(),
    {
        self.m_pos = Point { x: clamp_exec(x - self.margin), y: clamp_exec(y - self.margin) };
    }

    /// A click: the left button appends a corner, snapped to the nearest
    /// stored point when within reach; the third corner commits the
    /// triangle to the store under the current color and empties the
    /// working polygon. Other buttons change nothing.
    pub fn mouse_button_down_event(&mut self, button: MouseButton, x: i64, y: i64)
        requires
            old(self).wf(),
            -COORD_LIMIT <= x <= COORD_LIMIT,
            -COORD_LIMIT <= y <= COORD_LIMIT,
        ensures
            Paint::frame_eq(*old(self), *final(self)),
            final(self).cur_color == old(self).cur_color,
            final(self).snap_dist == old(self).snap_dist,
            final(self).use_snap == old(self).use_snap,
            final(self).wireframe == old(self).wireframe,
            click_rel(*old(self), *final(self), button, x as int, y as int),
            final(self).wf(),
    {
        let add = match button {
            MouseButton::Left => true,
            _ => false,
        };
        if !add || self.poly.len() > 2 {
            proof {
                assert(click_rel(*old(self), *self, button, x as int, y as int));
            }
            return ;
        }
        let raw = Point { x: clamp_exec(x - self.margin), y: clamp_exec(y - self.margin) };
        let q = snap_point(&self.ct, raw, self.snap_dist, self.use_snap);
        if self.poly.len() < 2 {
            self.poly.push(q);
            proof {
                let raws = Point {
                    x: clamp_coord(x as int - old(self).margin as int) as i64,
                    y: clamp_coord(y as int - old(self).margin as int) as i64,
                };
                assert(raw == raws);
                assert(click_landing(*old(self), *self, q, raws));
                assert(click_rel(*old(self), *self, button, x as int, y as int));
            }
        } else {
            let ghost row0 = self.ct@.triangles[self.cur_color as int];
            let mut row = self.ct.triangles.remove(self.cur_color);
            row.push(self.poly[0]);
            row.push(self.poly[1]);
            row.push(q);
            self.ct.triangles.insert(self.cur_color, row);
            self.poly = Vec::new();
            proof {
                let cur = old(self).cur_color as int;
                assert(row@ =~= row0 + old(self).poly@ + seq![q]);
                assert(self.ct@.triangles =~= old(self).ct@.triangles.update(cur, row@));
                assert(self.poly@ =~= Seq::<Point>::empty());
                let raws = Point {
                    x: clamp_coord(x as int - old(self).margin as int) as i64,
                    y: clamp_coord(y as int - old(self).margin as int) as i64,
                };
                assert(raw == raws);
                assert(click_landing(*old(self), *self, q, raws));
                assert(click_rel(*old(self), *self, button, x as int, y as int));
                assert(row@.len() % 3 == 0) by {
                    assert(row0.len() % 3 == 0);
                }
                assert forall|a: int, b: int|
                    0 <= a < self.ct@.triangles.len() && 0 <= b < self.ct@.triangles[a].len() implies in_bounds(
                    #[trigger] self.ct@.triangles[a][b],
                ) by {
                    if a == cur && b >= row0.len() {
                        assert(self.ct@.triangles[a][b] == (old(self).poly@ + seq![q])[b - row0.len()]);
                    }
                }
            }
        }
    }

    /// A key command: Escape cancels the working polygon or, with nothing
    /// in progress, hands back the serialized store to save and exit,
    /// normalized to the drawing area unless absolute output was asked
    /// for; N cycles the color, S toggles snapping, W toggles wireframe,
    /// X deletes the triangle under the cursor, the plus and minus keys
    /// grow and shrink the snap distance, H/J/K/L pan by it, and I/O zoom
    /// by five fourths.
    pub fn key_down_event(&mut self, key: Key, width: i64, height: i64) -> (saved: Option<String>)
        requires
            old(self).wf(),
            0 < width - 2 * old(self).margin <= COORD_LIMIT,
            0 < height - 2 * old(self).margin <= COORD_LIMIT,
        ensures
            Paint::frame_eq(*old(self), *final(self)),
            keydown_rel(
                *old(self),
                *final(self),
                key,
                width as int,
                height as int,
                match saved {
                    Option::Some(s) => Option::Some(s@),
                    Option::None => Option::None,
                },
            ),
            final(self).wf(),
    {
        match key {
            Key::Escape => {
                if self.poly.len() > 0 {
                    self.poly = Vec::new();
                    proof {
                        assert(self.poly@ =~= Seq::<Point>::empty());
                    }
                    Option::None
                } else {
                    if !self.write_absolute {
                        self.ct.scale(
                            UNITS_PER_PIXEL,
                            width - 2 * self.margin,
                            UNITS_PER_PIXEL,
                            height - 2 * self.margin,
                        );
                        proof {
                            crate::geometry::lemma_scaled_rel_store(
                                old(self).ct@,
                                self.ct@,
                                UNITS_PER_PIXEL as int,
                                width as int - 2 * old(self).margin,
                                UNITS_PER_PIXEL as int,
                                height as int - 2 * old(self).margin,
                            );
                        }
                    }
                    Option::Some(self.ct.to_text())
                }
            },
            Key::N => {
                let n = self.ct.colors.len();
                assert(self.cur_color < n);
                self.cur_color = (self.cur_color + 1) % n;
                Option::None
            },
            Key::S => {
                self.use_snap = !self.use_snap;
                Option::None
            },
            Key::W => {
                self.wireframe = !self.wireframe;
                Option::None
            },
            Key::X => {
                match self.ct.colliding(self.m_pos) {
                    Option::Some((c, t)) => {
                        proof {
                            assert(first_hit(old(self).ct@, c as int, t as int, old(self).m_pos));
                        }
                        self.ct.remove_triangle(c, t);
                        proof {
                            assert(removed_tri(old(self).ct@, self.ct@, c as int, t as int));
                        }
                    },
                    Option::None => {
                        proof {
                            assert forall|c: int, t: int| !first_hit(
                                old(self).ct@,
                                c,
                                t,
                                old(self).m_pos,
                            ) by {}
                        }
                    },
                }
                Option::None
            },
            Key::Equals => {
                self.snap_dist = clamp_exec(self.snap_dist + 1);
                Option::None
            },
            Key::Subtract => {
                self.snap_dist = clamp_exec(self.snap_dist - 1);
                Option::None
            },
            Key::H => {
                let d = self.snap_dist;
                self.ct.translate(-d, 0);
                Option::None
            },
            Key::J => {
                self.ct.translate(0, self.snap_dist);
                Option::None
            },
            Key::K => {
                let d = self.snap_dist;
                self.ct.translate(0, -d);
                Option::None
            },
            Key::L => {
                self.ct.translate(self.snap_dist, 0);
                Option::None
            },
            Key::I => {
                self.ct.scale(5, 4, 5, 4);
                Option::None
            },
            Key::O => {
                self.ct.scale(4, 5, 4, 5);
                Option::None
            },
            _ => Option::None,
        }
    }

    /// Hands over the pending transition; the editor never requests one.
    pub fn next_state(&mut self) -> (r: Option<States>)
        ensures
            r is None,
            *final(self) == *old(self),
    {
        Option::None
    }
}

/// Where one accepted click lands and what it does: the landing point `q`
/// is the click snapped when snapping is on; a first or second corner is
/// buffered, a third commits the triangle under the current color.
pub open spec fn click_landing(p0: Paint, p1: Paint, q: Point, raw: Point) -> bool {
    &&& (if p0.use_snap {
        snapped_ok(p0.ct@, raw, p0.snap_dist as int, q)
    } else {
        q == raw
    })
    &&& if p0.poly@.len() < 2 {
        p1.ct == p0.ct && p1.poly@ == p0.poly@.push(q)
    } else {
        &&& p1.poly@.len() == 0
        &&& p1.ct@.colors == p0.ct@.colors
        &&& p1.ct@.triangles == p0.ct@.triangles.update(
            p0.cur_color as int,
            p0.ct@.triangles[p0.cur_color as int] + p0.poly@ + seq![q],
        )
    }
}

/// The editing tools: current color, snap setting and distance, wireframe.
pub open spec fn same_tools(p0: Paint, p1: Paint) -> bool {
    &&& p1.cur_color == p0.cur_color
    &&& p1.snap_dist == p0.snap_dist
    &&& p1.use_snap == p0.use_snap
    &&& p1.wireframe == p0.wireframe
}

/// The document being edited: the store and the working polygon.
pub open spec fn same_doc(p0: Paint, p1: Paint) -> bool {
    p1.ct == p0.ct && p1.poly == p0.poly
}

/// Triangle `t` of color `c` is the first one containing `p` in scan
/// order.
pub open spec fn first_hit(s: StoreV, c: int, t: int, p: Point) -> bool {
    &&& 0 <= c < s.triangles.len()
    &&& 0 <= t && 3 * t + 3 <= s.triangles[c].len()
    &&& store_tri_contains(s, c, t, p)
    &&& forall|c2: int, t2: int|
        0 <= c2 < s.triangles.len() && 0 <= t2 && 3 * t2 + 3 <= s.triangles[c2].len()
            && tri_index_lt(c2, t2, c, t) ==> !store_tri_contains(s, c2, t2, p)
}

/// `b` is `a` with triangle `t` of color `c` removed.
pub open spec fn removed_tri(a: StoreV, b: StoreV, c: int, t: int) -> bool {
    &&& b.colors == a.colors
    &&& b.triangles.len() == a.triangles.len()
    &&& b.triangles[c] == a.triangles[c].take(3 * t) + a.triangles[c].skip(3 * t + 3)
    &&& forall|k: int| 0 <= k < a.triangles.len() && k != c ==> b.triangles[k] == a.triangles[k]
}

/// What one key command does.
pub open spec fn keydown_rel(
    p0: Paint,
    p1: Paint,
    key: Key,
    width: int,
    height: int,
    saved: Option<Seq<char>>,
) -> bool {
    match key {
        Key::Escape => if p0.poly@.len() > 0 {
            p1.ct == p0.ct && p1.poly@.len() == 0 && same_tools(p0, p1) && saved is None
        } else {
            &&& p1.poly == p0.poly
            &&& (if p0.write_absolute {
                p1.ct == p0.ct
            } else {
                p1.ct@ == scale_store(
                    p0.ct@,
                    UNITS_PER_PIXEL as int,
                    width - 2 * p0.margin,
                    UNITS_PER_PIXEL as int,
                    height - 2 * p0.margin,
                )
            })
            &&& saved == Option::Some(render_store(p1.ct@))
            &&& same_tools(p0, p1)
        },
        Key::N => {
            &&& same_doc(p0, p1)
            &&& p1.cur_color == (p0.cur_color + 1) % (p0.ct@.colors.len() as int)
            &&& p1.snap_dist == p0.snap_dist
            &&& p1.use_snap == p0.use_snap
            &&& p1.wireframe == p0.wireframe
            &&& saved is None
        },
        Key::S => {
            &&& same_doc(p0, p1)
            &&& p1.use_snap == !p0.use_snap
            &&& p1.cur_color == p0.cur_color
            &&& p1.snap_dist == p0.snap_dist
            &&& p1.wireframe == p0.wireframe
            &&& saved is None
        },
        Key::W => {
            &&& same_doc(p0, p1)
            &&& p1.wireframe == !p0.wireframe
            &&& p1.cur_color == p0.cur_color
            &&& p1.snap_dist == p0.snap_dist
            &&& p1.use_snap == p0.use_snap
            &&& saved is None
        },
        Key::X => {
            &&& p1.poly == p0.poly
            &&& same_tools(p0, p1)
            &&& saved is None
            &&& if exists|c: int, t: int| #[trigger] first_hit(p0.ct@, c, t, p0.m_pos) {
                exists|c: int, t: int|
                    #[trigger] first_hit(p0.ct@, c, t, p0.m_pos) && removed_tri(p0.ct@, p1.ct@, c, t)
            } else {
                p1.ct == p0.ct
            }
        },
        Key::Equals => {
            &&& same_doc(p0, p1)
            &&& p1.snap_dist == clamp_coord(p0.snap_dist + 1)
            &&& p1.cur_color == p0.cur_color
            &&& p1.use_snap == p0.use_snap
            &&& p1.wireframe == p0.wireframe
            &&& saved is None
        },
        Key::Subtract => {
            &&& same_doc(p0, p1)
            &&& p1.snap_dist == clamp_coord(p0.snap_dist - 1)
            &&& p1.cur_color == p0.cur_color
            &&& p1.use_snap == p0.use_snap
            &&& p1.wireframe == p0.wireframe
            &&& saved is None
        },
        Key::H => pan_case(p0, p1, -p0.snap_dist as int, 0, saved),
        Key::J => pan_case(p0, p1, 0, p0.snap_dist as int, saved),
        Key::K => pan_case(p0, p1, 0, -p0.snap_dist as int, saved),
        Key::L => pan_case(p0, p1, p0.snap_dist as int, 0, saved),
        Key::I => zoom_case(p0, p1, 5, 4, saved),
        Key::O => zoom_case(p0, p1, 4, 5, saved),
        _ => same_doc(p0, p1) && same_tools(p0, p1) && saved is None,
    }
}

/// A pan: the whole store shifted by the snap distance.
pub open spec fn pan_case(p0: Paint, p1: Paint, dx: int, dy: int, saved: Option<Seq<char>>) -> bool {
    &&& translated_rel(p0.ct@, p1.ct@, dx, dy)
    &&& p1.poly == p0.poly
    &&& same_tools(p0, p1)
    &&& saved is None
}

/// A zoom: the whole store scaled uniformly by `n / d`.
pub open spec fn zoom_case(p0: Paint, p1: Paint, n: int, d: int, saved: Option<Seq<char>>) -> bool {
    &&& scaled_rel(p0.ct@, p1.ct@, n, d, n, d)
    &&& p1.poly == p0.poly
    &&& same_tools(p0, p1)
    &&& saved is None
}

/// What a click does to the working polygon and the store.
pub open spec fn click_rel(p0: Paint, p1: Paint, button: MouseButton, x: int, y: int) -> bool {
    let raw = Point {
        x: clamp_coord(x - p0.margin) as i64,
        y: clamp_coord(y - p0.margin) as i64,
    };
    if button != MouseButton::Left || p0.poly@.len() > 2 {
        p1.ct == p0.ct && p1.poly == p0.poly
    } else {
        exists|q: Point| #[trigger] click_landing(p0, p1, q, raw)
    }
}

} // verus!
