//! The triangle file format: one line per color, the color packed as an
//! unsigned 24-bit integer, then the coordinate pairs, comma-separated per
//! point and space-separated between points. Coordinates are written in
//! pixels with up to two fractional digits, which the unit grid of
//! `UNITS_PER_PIXEL` represents exactly.

use vstd::prelude::*;
use crate::color::Color;
use crate::geometry::{COORD_LIMIT, ColoredTriangles, Point, StoreV, contains_color, in_bounds};
use crate::text::{chars_of, string_from_chars};

verus! {

pub open spec fn is_digit(c: char) -> bool {
    '0' <= c && c <= '9'
}

pub open spec fn digit_val(c: char) -> int {
    c as int - '0' as int
}

pub open spec fn digit_char(d: int) -> char {
    if d == 0 {
        '0'
    } else if d == 1 {
        '1'
    } else if d == 2 {
        '2'
    } else if d == 3 {
        '3'
    } else if d == 4 {
        '4'
    } else if d == 5 {
        '5'
    } else if d == 6 {
        '6'
    } else if d == 7 {
        '7'
    } else if d == 8 {
        '8'
    } else {
        '9'
    }
}

pub open spec fn all_digits(s: Seq<char>) -> bool {
    forall|j: int| 0 <= j < s.len() ==> is_digit(#[trigger] s[j])
}

/// The decimal digits of `n`, most significant first.
pub open spec fn dec_digits(n: nat) -> Seq<char>
    decreases n,
{
    if n < 10 {
        seq![digit_char(n as int)]
    } else {
        dec_digits(n / 10) + seq![digit_char((n % 10) as int)]
    }
}

/// The number written by a digit string, most significant first.
pub open spec fn dec_val(s: Seq<char>) -> int
    decreases s.len(),
{
    if s.len() == 0 {
        0
    } else {
        dec_val(s.drop_last()) * 10 + digit_val(s.last())
    }
}

/// Printing a number and reading the digits back restores it: the digits
/// are digits, there is at least one, and their value is the number.
pub proof fn lemma_dec_digits_val(n: nat)
    ensures
        all_digits(dec_digits(n)),
        dec_digits(n).len() >= 1,
        dec_val(dec_digits(n)) == n,
    decreases n,
{
    if n < 10 {
        let s = dec_digits(n);
        assert(s.drop_last() =~= Seq::<char>::empty());
        assert(dec_val(Seq::<char>::empty()) == 0);
        assert(dec_val(s) == digit_val(digit_char(n as int)));
    } else {
        lemma_dec_digits_val(n / 10);
        let a = dec_digits(n / 10);
        let s = dec_digits(n);
        assert(s.drop_last() =~= a);
        assert(s.last() == digit_char((n % 10) as int));
        assert(digit_val(digit_char((n % 10) as int)) == n % 10);
        assert(dec_val(s) == (n / 10) * 10 + n % 10);
    }
}

/// The value of a fractional part, in units: the first digit counts
/// ten units (a tenth of a pixel), the second one unit.
pub open spec fn frac_val(fr: Seq<char>) -> int {
    (if fr.len() >= 1 {
        digit_val(fr[0]) * 10
    } else {
        0
    }) + (if fr.len() >= 2 {
        digit_val(fr[1])
    } else {
        0
    })
}

/// A representable fractional part: digits only, and zero beyond the
/// second digit, since a unit is a hundredth of a pixel.
pub open spec fn frac_ok(fr: Seq<char>) -> bool {
    all_digits(fr) && (forall|j: int| 2 <= j < fr.len() ==> fr[j] == '0')
}

/// The fractional digits of a magnitude's sub-pixel part, shortest form:
/// nothing for a whole pixel, one digit for whole tenths, else two.
pub open spec fn frac_chars(f: int) -> Seq<char> {
    if f == 0 {
        Seq::empty()
    } else if f % 10 == 0 {
        seq!['.', digit_char(f / 10)]
    } else {
        seq!['.', digit_char(f / 10), digit_char(f % 10)]
    }
}

/// The text of a coordinate of `v` units: its magnitude in pixels, with a
/// minus sign when negative and up to two fractional digits.
pub open spec fn coord_chars(v: int) -> Seq<char> {
    if v < 0 {
        seq!['-'] + dec_digits(((-v) / 100) as nat) + frac_chars((-v) % 100)
    } else {
        dec_digits((v / 100) as nat) + frac_chars(v % 100)
    }
}

/// The first position of `c` in `s` at `from` or later.
pub open spec fn char_pos(s: Seq<char>, c: char, from: int) -> Option<int>
    decreases s.len() - from,
{
    if from >= s.len() {
        Option::None
    } else if s[from] == c {
        Option::Some(from)
    } else {
        char_pos(s, c, from + 1)
    }
}

/// Where the first `c` is: if everything before `k` differs from `c` and
/// `k` is the end or holds `c`, the first occurrence is at `k` or nowhere.
pub proof fn lemma_char_pos_exact(s: Seq<char>, c: char, from: int, k: int)
    requires
        0 <= from <= k <= s.len(),
        forall|j: int| from <= j < k ==> s[j] != c,
        k == s.len() || s[k] == c,
    ensures
        char_pos(s, c, from) == (if k == s.len() {
            Option::<int>::None
        } else {
            Option::<int>::Some(k)
        }),
    decreases k - from,
{
    if from < k {
        lemma_char_pos_exact(s, c, from + 1, k);
    }
}

proof fn lemma_char_pos_bounds(s: Seq<char>, c: char, from: int)
    requires
        0 <= from,
    ensures
        char_pos(s, c, from) matches Option::Some(p) ==> from <= p < s.len() && s[p] == c,
    decreases s.len() - from,
{
    if from < s.len() && s[from] != c {
        lemma_char_pos_bounds(s, c, from + 1);
    }
}

/// A coordinate token, read in pixels: an optional minus sign, decimal
/// digits, and an optional fractional part that must be representable on
/// the unit grid — digits beyond the second must be zero. The value in
/// units must stay within the coordinate range.
pub open spec fn parse_coord(s: Seq<char>) -> Option<int> {
    let neg = s.len() > 0 && s[0] == '-';
    let t = if neg {
        s.drop_first()
    } else {
        s
    };
    let ip = match char_pos(t, '.', 0) {
        Option::Some(dp) => t.take(dp),
        Option::None => t,
    };
    let fr = match char_pos(t, '.', 0) {
        Option::Some(dp) => t.skip(dp + 1),
        Option::None => Seq::empty(),
    };
    if ip.len() > 0 && all_digits(ip) && frac_ok(fr) && dec_val(ip) * 100 + frac_val(fr)
        <= COORD_LIMIT {
        Option::Some(
            if neg {
                -(dec_val(ip) * 100 + frac_val(fr))
            } else {
                dec_val(ip) * 100 + frac_val(fr)
            },
        )
    } else {
        Option::None
    }
}

/// A point token: two coordinate tokens joined by a comma.
pub open spec fn parse_point_tok(s: Seq<char>) -> Option<Point> {
    match char_pos(s, ',', 0) {
        Option::None => Option::None,
        Option::Some(p) => match (parse_coord(s.take(p)), parse_coord(s.skip(p + 1))) {
            (Option::Some(x), Option::Some(y)) => Option::Some(
                Point { x: x as i64, y: y as i64 },
            ),
            _ => Option::None,
        },
    }
}

/// A nonempty run of point tokens separated by single blanks.
pub open spec fn parse_points(s: Seq<char>) -> Option<Seq<Point>>
    decreases s.len(),
    via parse_points_decreases
{
    match char_pos(s, ' ', 0) {
        Option::None => match parse_point_tok(s) {
            Option::None => Option::None,
            Option::Some(p) => Option::Some(seq![p]),
        },
        Option::Some(sp) => match parse_point_tok(s.take(sp)) {
            Option::None => Option::None,
            Option::Some(p) => match parse_points(s.skip(sp + 1)) {
                Option::None => Option::None,
                Option::Some(r) => Option::Some(seq![p] + r),
            },
        },
    }
}

#[via_fn]
proof fn parse_points_decreases(s: Seq<char>) {
    lemma_char_pos_bounds(s, ' ', 0);
}

/// One line: the color as a decimal unsigned 32-bit integer, a blank, then
/// the points, holding a whole number of triangles; the color keeps its low
/// 24 bits.
pub open spec fn parse_line(s: Seq<char>) -> Option<(Color, Seq<Point>)> {
    match char_pos(s, ' ', 0) {
        Option::None => Option::None,
        Option::Some(sp) => {
            let cs = s.take(sp);
            if cs.len() > 0 && all_digits(cs) && dec_val(cs) <= u32::MAX {
                let col = Color::spec_from_rgb_u32(dec_val(cs) as u32);
                let rest = s.skip(sp + 1);
                if rest.len() == 0 {
                    Option::Some((col, Seq::empty()))
                } else {
                    match parse_points(rest) {
                        Option::None => Option::None,
                        Option::Some(pts) => if pts.len() % 3 == 0 {
                            Option::Some((col, pts))
                        } else {
                            Option::None
                        },
                    }
                }
            } else {
                Option::None
            }
        },
    }
}

pub open spec fn empty_store() -> StoreV {
    StoreV { colors: Seq::empty(), triangles: Seq::empty() }
}

/// Folding one parsed line into the store: a repeated color gains the
/// points, a new color is appended with them.
pub open spec fn merge_line(v: StoreV, c: Color, pts: Seq<Point>) -> StoreV {
    if exists|i: int| 0 <= i < v.colors.len() && v.colors[i] == c {
        let i = choose|i: int| 0 <= i < v.colors.len() && v.colors[i] == c;
        StoreV { colors: v.colors, triangles: v.triangles.update(i, v.triangles[i] + pts) }
    } else {
        StoreV { colors: v.colors.push(c), triangles: v.triangles.push(pts) }
    }
}

/// The whole document, read line by line from `s` into `acc`: every line
/// ends with a line break or ends the text.
pub open spec fn parse_doc_from(s: Seq<char>, acc: StoreV) -> Option<StoreV>
    decreases s.len(),
    via parse_doc_from_decreases
{
    if s.len() == 0 {
        Option::Some(acc)
    } else {
        match char_pos(s, '\n', 0) {
            Option::Some(p) => match parse_line(s.take(p)) {
                Option::None => Option::None,
                Option::Some((c, pts)) => parse_doc_from(s.skip(p + 1), merge_line(acc, c, pts)),
            },
            Option::None => match parse_line(s) {
                Option::None => Option::None,
                Option::Some((c, pts)) => Option::Some(merge_line(acc, c, pts)),
            },
        }
    }
}

/// What the text `s` describes: the store read from its lines, or `None`
/// when any line is malformed.
pub open spec fn parse_doc(s: Seq<char>) -> Option<StoreV> {
    parse_doc_from(s, empty_store())
}

#[via_fn]
proof fn parse_doc_from_decreases(s: Seq<char>, acc: StoreV) {
    lemma_char_pos_bounds(s, '\n', 0);
}

/// The text of one point: its two coordinates joined by a comma.
pub open spec fn point_tok(p: Point) -> Seq<char> {
    coord_chars(p.x as int) + seq![','] + coord_chars(p.y as int)
}

/// The texts of the points, joined by single blanks.
pub open spec fn join_points(pts: Seq<Point>) -> Seq<char>
    decreases pts.len(),
{
    if pts.len() == 0 {
        Seq::empty()
    } else if pts.len() == 1 {
        point_tok(pts[0])
    } else {
        point_tok(pts[0]) + seq![' '] + join_points(pts.drop_first())
    }
}

/// The line of one color: its packed value, a blank, its points, a line
/// break.
pub open spec fn render_line(c: Color, pts: Seq<Point>) -> Seq<char> {
    dec_digits(c.spec_rgb_u32() as nat) + seq![' '] + join_points(pts) + seq!['\n']
}

/// The lines of the first `i` colors, in order.
pub open spec fn render_upto(v: StoreV, i: int) -> Seq<char>
    decreases i,
{
    if i <= 0 {
        Seq::empty()
    } else {
        render_upto(v, i - 1) + render_line(v.colors[i - 1], v.triangles[i - 1])
    }
}

/// The text of the whole store: one line per color, in stored order.
pub open spec fn render_store(v: StoreV) -> Seq<char> {
    render_upto(v, v.colors.len() as int)
}

proof fn lemma_dec_val_nonneg(s: Seq<char>)
    requires
        all_digits(s),
    ensures
        0 <= dec_val(s),
    decreases s.len(),
{
    if s.len() > 0 {
        assert(all_digits(s.drop_last()));
        lemma_dec_val_nonneg(s.drop_last());
        assert(0 <= dec_val(s.drop_last()) * 10) by (nonlinear_arith)
            requires
                0 <= dec_val(s.drop_last()),
        ;
    }
}

fn is_digit_exec(c: char) -> (r: bool)
    ensures
        r == is_digit(c),
{
    let u = c as u32;
    u >= '0' as u32 && u <= '9' as u32
}

fn copy_range(v: &Vec<char>, a: usize, b: usize) -> (r: Vec<char>)
    requires
        a <= b <= v@.len(),
    ensures
        r@ == v@.subrange(a as int, b as int),
{
    let mut r: Vec<char> = Vec::new();
    let mut k = a;
    while k < b
        invariant
            a <= k <= b <= v@.len(),
            r@ == v@.subrange(a as int, k as int),
        decreases b - k,
    {
        r.push(v[k]);
        proof {
            assert(r@ =~= v@.subrange(a as int, k as int + 1));
        }
        k += 1;
    }
    r
}

fn find_char(v: &Vec<char>, c: char, from: usize) -> (r: Option<usize>)
    ensures
        match r {
            Option::Some(p) => from <= p < v@.len() && char_pos(v@, c, from as int)
                == Option::Some(p as int),
            Option::None => char_pos(v@, c, from as int) is None,
        },
{
    let mut k = from;
    while k < v.len()
        invariant
            from <= k,
            k <= v@.len() || k == from,
            char_pos(v@, c, from as int) == char_pos(v@, c, k as int),
        decreases v@.len() - k,
    {
        if v[k] == c {
            return Option::Some(k);
        }
        k += 1;
    }
    Option::None
}

fn parse_u64_bounded(v: &Vec<char>, max: u64) -> (r: Option<u64>)
    requires
        max <= u32::MAX as u64,
    ensures
        match r {
            Option::Some(x) => v@.len() > 0 && all_digits(v@) && dec_val(v@) == x && x <= max,
            Option::None => !(v@.len() > 0 && all_digits(v@) && dec_val(v@) <= max),
        },
{
    if v.len() == 0 {
        return Option::None;
    }
    let mut acc: u64 = 0;
    let mut over = false;
    let mut k: usize = 0;
    proof {
        assert(v@.take(0) =~= Seq::<char>::empty());
    }
    while k < v.len()
        invariant
            max <= u32::MAX as u64,
            0 <= k <= v@.len(),
            forall|j: int| 0 <= j < k ==> is_digit(#[trigger] v@[j]),
            !over ==> acc == dec_val(v@.take(k as int)) && acc <= max,
            over ==> dec_val(v@.take(k as int)) > max,
        decreases v@.len() - k,
    {
        let c = v[k];
        if !is_digit_exec(c) {
            return Option::None;
        }
        let d = (c as u32 - '0' as u32) as u64;
        proof {
            assert(v@.take(k as int + 1).drop_last() =~= v@.take(k as int));
            assert(v@.take(k as int + 1).last() == v@[k as int]);
            assert(dec_val(v@.take(k as int + 1)) == dec_val(v@.take(k as int)) * 10 + digit_val(
                v@[k as int],
            ));
        }
        if over {
            proof {
                assert(dec_val(v@.take(k as int)) * 10 >= dec_val(v@.take(k as int)))
                    by (nonlinear_arith)
                    requires
                        dec_val(v@.take(k as int)) > 0,
                ;
            }
        } else {
            let next = acc * 10 + d;
            if next > max {
                over = true;
            } else {
                acc = next;
            }
        }
        k += 1;
    }
    proof {
        assert(v@.take(v@.len() as int) =~= v@);
    }
    if over {
        Option::None
    } else {
        Option::Some(acc)
    }
}

fn parse_coord_exec(v: &Vec<char>) -> (r: Option<i64>)
    ensures
        match r {
            Option::Some(x) => parse_coord(v@) == Option::Some(x as int) && -COORD_LIMIT <= x
                <= COORD_LIMIT,
            Option::None => parse_coord(v@) is None,
        },
{
    let neg = v.len() > 0 && v[0] == '-';
    let t = if neg {
        copy_range(v, 1, v.len())
    } else {
        copy_range(v, 0, v.len())
    };
    proof {
        if neg {
            assert(t@ =~= v@.drop_first());
        } else {
            assert(t@ =~= v@);
        }
    }
    let n = t.len();
    let (ip, fr) = match find_char(&t, '.', 0) {
        Option::Some(dp) => (copy_range(&t, 0, dp), copy_range(&t, dp + 1, n)),
        Option::None => (copy_range(&t, 0, n), Vec::new()),
    };
    proof {
        match char_pos(t@, '.', 0) {
            Option::Some(dp) => {
                assert(ip@ =~= t@.take(dp));
                assert(fr@ =~= t@.skip(dp + 1));
            },
            Option::None => {
                assert(ip@ =~= t@);
                assert(fr@ =~= Seq::<char>::empty());
            },
        }
        if all_digits(ip@) {
            lemma_dec_val_nonneg(ip@);
        }
    }
    let mut f: u64 = 0;
    let mut k: usize = 0;
    while k < fr.len()
        invariant
            neg == (v@.len() > 0 && v@[0] == '-'),
            t@ == (if neg {
                v@.drop_first()
            } else {
                v@
            }),
            fr@ == (match char_pos(t@, '.', 0) {
                Option::Some(dp) => t@.skip(dp + 1),
                Option::None => Seq::<char>::empty(),
            }),
            0 <= k <= fr@.len(),
            forall|j: int| 0 <= j < k ==> is_digit(#[trigger] fr@[j]),
            forall|j: int| 2 <= j < k ==> fr@[j] == '0',
            f == (if k >= 1 {
                digit_val(fr@[0]) * 10
            } else {
                0
            }) + (if k >= 2 {
                digit_val(fr@[1])
            } else {
                0
            }),
        decreases fr@.len() - k,
    {
        let c = fr[k];
        if !is_digit_exec(c) {
            proof {
                assert(!frac_ok(fr@));
            }
            return Option::None;
        }
        let d = (c as u32 - '0' as u32) as u64;
        if k == 0 {
            f = d * 10;
        } else if k == 1 {
            f = f + d;
        } else if d != 0 {
            proof {
                assert(fr@[k as int] != '0');
                assert(!frac_ok(fr@));
            }
            return Option::None;
        }
        k += 1;
    }
    proof {
        assert(frac_ok(fr@));
        assert(f == frac_val(fr@));
        assert(0 <= frac_val(fr@) <= 99);
    }
    match parse_u64_bounded(&ip, (COORD_LIMIT / 100) as u64) {
        Option::Some(x) => {
            let total = x * 100 + f;
            if total > COORD_LIMIT as u64 {
                return Option::None;
            }
            let sx = total as i64;
            Option::Some(
                if neg {
                    -sx
                } else {
                    sx
                },
            )
        },
        Option::None => Option::None,
    }
}

fn parse_point_exec(v: &Vec<char>) -> (r: Option<Point>)
    ensures
        match r {
            Option::Some(p) => parse_point_tok(v@) == Option::Some(p) && in_bounds(p),
            Option::None => parse_point_tok(v@) is None,
        },
{
    let n = v.len();
    let cp = match find_char(v, ',', 0) {
        Option::Some(cp) => cp,
        Option::None => {
            return Option::None;
        },
    };
    let xs = copy_range(v, 0, cp);
    let ys = copy_range(v, cp + 1, n);
    proof {
        assert(xs@ =~= v@.take(cp as int));
        assert(ys@ =~= v@.skip(cp as int + 1));
    }
    let x = match parse_coord_exec(&xs) {
        Option::Some(x) => x,
        Option::None => {
            return Option::None;
        },
    };
    let y = match parse_coord_exec(&ys) {
        Option::Some(y) => y,
        Option::None => {
            return Option::None;
        },
    };
    Option::Some(Point { x, y })
}

fn parse_points_exec(v: &Vec<char>) -> (r: Option<Vec<Point>>)
    ensures
        match r {
            Option::Some(pts) => parse_points(v@) == Option::Some(pts@) && (forall|j: int|
                0 <= j < pts@.len() ==> in_bounds(#[trigger] pts@[j])),
            Option::None => parse_points(v@) is None,
        },
{
    let mut pts: Vec<Point> = Vec::new();
    let mut rest = copy_range(v, 0, v.len());
    proof {
        assert(rest@ =~= v@);
    }
    loop
        invariant
            forall|j: int| 0 <= j < pts@.len() ==> in_bounds(#[trigger] pts@[j]),
            match parse_points(rest@) {
                Option::Some(r2) => parse_points(v@) == Option::Some(pts@ + r2),
                Option::None => parse_points(v@) is None,
            },
        decreases rest@.len(),
    {
        let ghost old_pts = pts@;
        match find_char(&rest, ' ', 0) {
            Option::Some(sp) => {
                let tok = copy_range(&rest, 0, sp);
                proof {
                    assert(tok@ =~= rest@.take(sp as int));
                }
                match parse_point_exec(&tok) {
                    Option::Some(p) => {
                        pts.push(p);
                        let next = copy_range(&rest, sp + 1, rest.len());
                        proof {
                            assert(next@ =~= rest@.skip(sp as int + 1));
                            if parse_points(next@) is Some {
                                let r2 = parse_points(next@)->0;
                                assert(parse_points(rest@) == Option::Some(seq![p] + r2));
                                assert(old_pts + (seq![p] + r2) =~= pts@ + r2);
                            }
                        }
                        rest = next;
                    },
                    Option::None => {
                        return Option::None;
                    },
                }
            },
            Option::None => {
                match parse_point_exec(&rest) {
                    Option::Some(p) => {
                        pts.push(p);
                        proof {
                            assert(parse_points(rest@) == Option::Some(seq![p]));
                            assert(old_pts + seq![p] =~= pts@);
                        }
                        return Option::Some(pts);
                    },
                    Option::None => {
                        return Option::None;
                    },
                }
            },
        }
    }
}

fn parse_line_exec(v: &Vec<char>) -> (r: Option<(Color, Vec<Point>)>)
    ensures
        match r {
            Option::Some((c, pts)) => parse_line(v@) == Option::Some((c, pts@)) && pts@.len() % 3
                == 0 && (forall|j: int| 0 <= j < pts@.len() ==> in_bounds(#[trigger] pts@[j])),
            Option::None => parse_line(v@) is None,
        },
{
    let n = v.len();
    let sp = match find_char(v, ' ', 0) {
        Option::Some(sp) => sp,
        Option::None => {
            return Option::None;
        },
    };
    let cs = copy_range(v, 0, sp);
    proof {
        assert(cs@ =~= v@.take(sp as int));
    }
    let cv = match parse_u64_bounded(&cs, 0xFFFF_FFFF) {
        Option::Some(x) => x,
        Option::None => {
            return Option::None;
        },
    };
    let col = Color::from_rgb_u32(cv as u32);
    let rest = copy_range(v, sp + 1, n);
    proof {
        assert(rest@ =~= v@.skip(sp as int + 1));
    }
    if rest.len() == 0 {
        let pts: Vec<Point> = Vec::new();
        proof {
            assert(pts@ =~= Seq::<Point>::empty());
        }
        return Option::Some((col, pts));
    }
    match parse_points_exec(&rest) {
        Option::Some(pts) => if pts.len() % 3 == 0 {
            Option::Some((col, pts))
        } else {
            Option::None
        },
        Option::None => Option::None,
    }
}

fn merge_into(ct: &mut ColoredTriangles, col: Color, pts: Vec<Point>)
    requires
        old(ct)@.wf(),
        pts@.len() % 3 == 0,
        forall|j: int| 0 <= j < pts@.len() ==> in_bounds(#[trigger] pts@[j]),
    ensures
        final(ct)@ == merge_line(old(ct)@, col, pts@),
        final(ct)@.wf(),
{
    let ghost v0 = ct@;
    let mut i: usize = 0;
    while i < ct.colors.len()
        invariant
            *ct == *old(ct),
            v0 == ct@,
            v0.wf(),
            pts@.len() % 3 == 0,
            forall|j: int| 0 <= j < pts@.len() ==> in_bounds(#[trigger] pts@[j]),
            0 <= i <= ct.colors@.len(),
            forall|j: int| 0 <= j < i ==> v0.colors[j] != col,
        decreases ct.colors@.len() - i,
    {
        if ct.colors[i] == col {
            let mut row = ct.triangles.remove(i);
            let mut pts2 = pts;
            row.append(&mut pts2);
            ct.triangles.insert(i, row);
            proof {
                assert(exists|k: int| 0 <= k < v0.colors.len() && v0.colors[k] == col);
                let k = choose|k: int| 0 <= k < v0.colors.len() && v0.colors[k] == col;
                assert(k == i);
                assert(ct@.triangles =~= v0.triangles.update(i as int, v0.triangles[i as int] + pts@));
                assert(ct@ =~= merge_line(v0, col, pts@));
                assert(ct@.triangles[i as int].len() % 3 == 0) by {
                    assert(v0.triangles[i as int].len() % 3 == 0);
                }
                assert forall|a: int, b: int|
                    0 <= a < ct@.triangles.len() && 0 <= b < ct@.triangles[a].len() implies in_bounds(
                    #[trigger] ct@.triangles[a][b],
                ) by {
                    if a == i && b >= v0.triangles[a].len() {
                        assert(ct@.triangles[a][b] == pts@[b - v0.triangles[a].len()]);
                    }
                }
            }
            return ;
        }
        i += 1;
    }
    proof {
        assert(!(exists|k: int| 0 <= k < v0.colors.len() && v0.colors[k] == col));
    }
    ct.colors.push(col);
    ct.triangles.push(pts);
    proof {
        assert(ct@.triangles =~= v0.triangles.push(pts@));
        assert(ct@ =~= merge_line(v0, col, pts@));
    }
}

impl ColoredTriangles {
    /// Reads a store from its text form, line by line, merging lines that
    /// repeat a color; `None` when any line is malformed.
    pub fn from_text(s: &str) -> (r: Option<ColoredTriangles>)
        ensures
            match parse_doc(s@) {
                Option::None => r is None,
                Option::Some(v) => match r {
                    Option::Some(ct) => ct@ == v && v.wf(),
                    Option::None => false,
                },
            },
    {
        let v = chars_of(s);
        let mut ct = ColoredTriangles::new();
        let mut rest = copy_range(&v, 0, v.len());
        proof {
            assert(rest@ =~= s@);
            assert(ct@ =~= empty_store());
        }
        loop
            invariant
                ct@.wf(),
                parse_doc(s@) == parse_doc_from(rest@, ct@),
            decreases rest@.len(),
        {
            if rest.len() == 0 {
                return Option::Some(ct);
            }
            match find_char(&rest, '\n', 0) {
                Option::Some(p) => {
                    let seg = copy_range(&rest, 0, p);
                    proof {
                        assert(seg@ =~= rest@.take(p as int));
                    }
                    match parse_line_exec(&seg) {
                        Option::Some((col, pts)) => {
                            merge_into(&mut ct, col, pts);
                            let next = copy_range(&rest, p + 1, rest.len());
                            proof {
                                assert(next@ =~= rest@.skip(p as int + 1));
                            }
                            rest = next;
                        },
                        Option::None => {
                            return Option::None;
                        },
                    }
                },
                Option::None => {
                    match parse_line_exec(&rest) {
                        Option::Some((col, pts)) => {
                            merge_into(&mut ct, col, pts);
                            return Option::Some(ct);
                        },
                        Option::None => {
                            return Option::None;
                        },
                    }
                },
            }
        }
    }
}

proof fn lemma_num_chars(x: int)
    ensures
        coord_chars(x).len() >= 1,
        forall|j: int|
            0 <= j < coord_chars(x).len() ==> (is_digit(#[trigger] coord_chars(x)[j])
                || coord_chars(x)[j] == '-' || coord_chars(x)[j] == '.'),
{
    let m = if x < 0 {
        -x
    } else {
        x
    };
    lemma_dec_digits_val((m / 100) as nat);
    let f = m % 100;
    assert(0 <= f / 10 <= 9 && 0 <= f % 10 <= 9);
    assert(is_digit(digit_char(f / 10)) && is_digit(digit_char(f % 10)));
}

/// Writing a coordinate's magnitude and reading the token back restores the
/// value: the integral digits give the pixels, the fractional digits the
/// sub-pixel units.
proof fn lemma_parse_coord_chars(x: int)
    requires
        -COORD_LIMIT <= x <= COORD_LIMIT,
    ensures
        parse_coord(coord_chars(x)) == Option::Some(x),
{
    let s = coord_chars(x);
    lemma_num_chars(x);
    let m = if x < 0 {
        -x
    } else {
        x
    };
    lemma_dec_digits_val((m / 100) as nat);
    let d = dec_digits((m / 100) as nat);
    let f = m % 100;
    let fc = frac_chars(f);
    let t = d + fc;
    if x < 0 {
        assert(s[0] == '-');
        assert(s.drop_first() =~= t);
    } else {
        assert(!is_digit('-'));
        assert(s == t);
        assert(s[0] != '-');
    }
    assert(forall|j: int| 0 <= j < d.len() ==> #[trigger] d[j] != '.');
    assert(0 <= f / 10 <= 9 && 0 <= f % 10 <= 9);
    assert(digit_val(digit_char(f / 10)) == f / 10);
    assert(digit_val(digit_char(f % 10)) == f % 10);
    if f == 0 {
        assert(t == d);
        lemma_char_pos_exact(t, '.', 0, t.len() as int);
        assert(char_pos(t, '.', 0) is None);
        assert(frac_ok(Seq::<char>::empty()) && frac_val(Seq::<char>::empty()) == 0);
        assert(dec_val(d) * 100 + 0 == m);
    } else {
        assert(forall|j: int| 0 <= j < d.len() ==> #[trigger] t[j] == d[j]);
        assert(t[d.len() as int] == '.');
        lemma_char_pos_exact(t, '.', 0, d.len() as int);
        assert(t.take(d.len() as int) =~= d);
        let fr = t.skip(d.len() as int + 1);
        if f % 10 == 0 {
            assert(fr =~= seq![digit_char(f / 10)]);
            assert(frac_ok(fr));
            assert(frac_val(fr) == (f / 10) * 10);
            assert((f / 10) * 10 == f);
        } else {
            assert(fr =~= seq![digit_char(f / 10), digit_char(f % 10)]);
            assert(frac_ok(fr));
            assert(frac_val(fr) == (f / 10) * 10 + f % 10);
        }
        assert(dec_val(d) * 100 + f == m);
    }
    assert(parse_coord(s) == Option::Some(x));
}

proof fn lemma_parse_point_tok(p: Point)
    requires
        in_bounds(p),
    ensures
        parse_point_tok(point_tok(p)) == Option::Some(p),
        point_tok(p).len() >= 1,
        forall|j: int|
            0 <= j < point_tok(p).len() ==> #[trigger] point_tok(p)[j] != ' ' && point_tok(p)[j]
                != '\n',
{
    let a = coord_chars(p.x as int);
    let b = coord_chars(p.y as int);
    let s = point_tok(p);
    lemma_num_chars(p.x as int);
    lemma_num_chars(p.y as int);
    assert(forall|j: int| 0 <= j < a.len() ==> #[trigger] s[j] == a[j]);
    assert(s[a.len() as int] == ',');
    assert(forall|j: int| 0 <= j < a.len() ==> #[trigger] a[j] != ',');
    lemma_char_pos_exact(s, ',', 0, a.len() as int);
    assert(s.take(a.len() as int) =~= a);
    assert(s.skip(a.len() as int + 1) =~= b);
    lemma_parse_coord_chars(p.x as int);
    lemma_parse_coord_chars(p.y as int);
    assert(parse_point_tok(s) == Option::Some(Point { x: p.x, y: p.y }));
    assert(Point { x: p.x, y: p.y } == p);
}

proof fn lemma_parse_join(pts: Seq<Point>)
    requires
        pts.len() >= 1,
        forall|j: int| 0 <= j < pts.len() ==> in_bounds(#[trigger] pts[j]),
    ensures
        parse_points(join_points(pts)) == Option::Some(pts),
        forall|j: int| 0 <= j < join_points(pts).len() ==> #[trigger] join_points(pts)[j] != '\n',
    decreases pts.len(),
{
    let s = join_points(pts);
    lemma_parse_point_tok(pts[0]);
    let a = point_tok(pts[0]);
    if pts.len() == 1 {
        assert(s == a);
        lemma_char_pos_exact(s, ' ', 0, s.len() as int);
        assert(parse_points(s) == Option::Some(seq![pts[0]]));
        assert(seq![pts[0]] =~= pts);
    } else {
        let rest = pts.drop_first();
        assert(forall|j: int| 0 <= j < rest.len() ==> in_bounds(#[trigger] rest[j]));
        lemma_parse_join(rest);
        assert(s == a + seq![' '] + join_points(rest));
        assert(forall|j: int| 0 <= j < a.len() ==> #[trigger] s[j] == a[j]);
        assert(s[a.len() as int] == ' ');
        lemma_char_pos_exact(s, ' ', 0, a.len() as int);
        assert(s.take(a.len() as int) =~= a);
        assert(s.skip(a.len() as int + 1) =~= join_points(rest));
        assert(parse_points(s) == Option::Some(seq![pts[0]] + rest));
        assert(seq![pts[0]] + rest =~= pts);
    }
}

proof fn lemma_parse_render_line(c: Color, pts: Seq<Point>)
    requires
        pts.len() % 3 == 0,
        forall|j: int| 0 <= j < pts.len() ==> in_bounds(#[trigger] pts[j]),
    ensures
        parse_line(render_line(c, pts).drop_last()) == Option::Some((c, pts)),
        render_line(c, pts).last() == '\n',
        render_line(c, pts).len() >= 1,
        forall|j: int|
            0 <= j < render_line(c, pts).len() - 1 ==> #[trigger] render_line(c, pts)[j] != '\n',
{
    let rgb = c.spec_rgb_u32();
    lemma_dec_digits_val(rgb as nat);
    let d = dec_digits(rgb as nat);
    let jn = join_points(pts);
    let line = render_line(c, pts);
    let body = line.drop_last();
    assert(body =~= d + seq![' '] + jn);
    if pts.len() >= 1 {
        lemma_parse_join(pts);
    }
    assert(forall|j: int| 0 <= j < d.len() ==> #[trigger] body[j] == d[j]);
    assert(forall|j: int| 0 <= j < d.len() ==> #[trigger] d[j] != ' ');
    assert(body[d.len() as int] == ' ');
    lemma_char_pos_exact(body, ' ', 0, d.len() as int);
    assert(body.take(d.len() as int) =~= d);
    assert(dec_val(d) == rgb && rgb <= 0xFFFFFF);
    crate::color::lemma_rgb_u32_round_trip(c);
    assert(Color::spec_from_rgb_u32(dec_val(d) as u32) == c);
    assert(body.skip(d.len() as int + 1) =~= jn);
    if pts.len() == 0 {
        assert(jn.len() == 0);
        assert(parse_line(body) == Option::Some((c, Seq::<Point>::empty())));
        assert(Seq::<Point>::empty() =~= pts);
    } else {
        assert(parse_line(body) == Option::Some((c, pts)));
    }
}

/// The lines of the colors from `i` on.
spec fn render_from(v: StoreV, i: int) -> Seq<char>
    decreases v.colors.len() - i,
{
    if i < 0 || i >= v.colors.len() {
        Seq::empty()
    } else {
        render_line(v.colors[i], v.triangles[i]) + render_from(v, i + 1)
    }
}

spec fn prefix_store(v: StoreV, i: int) -> StoreV {
    StoreV { colors: v.colors.take(i), triangles: v.triangles.take(i) }
}

proof fn lemma_upto_from(v: StoreV, i: int)
    requires
        0 <= i <= v.colors.len(),
    ensures
        render_store(v) == render_upto(v, i) + render_from(v, i),
    decreases v.colors.len() - i,
{
    if i == v.colors.len() {
        assert(render_upto(v, i) + render_from(v, i) =~= render_upto(v, i));
    } else {
        lemma_upto_from(v, i + 1);
        assert(render_upto(v, i + 1) == render_upto(v, i) + render_line(
            v.colors[i],
            v.triangles[i],
        ));
        assert(render_upto(v, i) + (render_line(v.colors[i], v.triangles[i]) + render_from(
            v,
            i + 1,
        )) =~= (render_upto(v, i) + render_line(v.colors[i], v.triangles[i])) + render_from(
            v,
            i + 1,
        ));
    }
}

proof fn lemma_parse_render_from(v: StoreV, i: int)
    requires
        v.wf(),
        0 <= i <= v.colors.len(),
    ensures
        parse_doc_from(render_from(v, i), prefix_store(v, i)) == Option::Some(v),
    decreases v.colors.len() - i,
{
    if i == v.colors.len() {
        assert(render_from(v, i).len() == 0);
        assert(prefix_store(v, i).colors =~= v.colors);
        assert(prefix_store(v, i).triangles =~= v.triangles);
        assert(prefix_store(v, i) =~= v);
    } else {
        let c = v.colors[i];
        let pts = v.triangles[i];
        let line = render_line(c, pts);
        let rest = render_from(v, i + 1);
        let s = render_from(v, i);
        assert(s == line + rest);
        lemma_parse_render_line(c, pts);
        let body = line.drop_last();
        assert(forall|j: int| 0 <= j < body.len() ==> #[trigger] s[j] == body[j]);
        assert(s[body.len() as int] == '\n');
        assert(forall|j: int| 0 <= j < body.len() ==> #[trigger] body[j] != '\n');
        lemma_char_pos_exact(s, '\n', 0, body.len() as int);
        assert(s.take(body.len() as int) =~= body);
        assert(s.skip(body.len() as int + 1) =~= rest);
        assert(!contains_color(prefix_store(v, i).colors, c)) by {
            assert(forall|k: int|
                0 <= k < i ==> #[trigger] prefix_store(v, i).colors[k] == v.colors[k]
                    && v.colors[k] != c);
        }
        assert(merge_line(prefix_store(v, i), c, pts) =~= prefix_store(v, i + 1)) by {
            assert(v.colors.take(i).push(c) =~= v.colors.take(i + 1));
            assert(v.triangles.take(i).push(pts) =~= v.triangles.take(i + 1));
        }
        lemma_parse_render_from(v, i + 1);
        assert(parse_doc_from(s, prefix_store(v, i)) == parse_doc_from(
            rest,
            merge_line(prefix_store(v, i), c, pts),
        ));
    }
}

/// The round-trip law of the file format: writing any well-formed store and
/// reading the text back restores the store exactly, so a second write
/// yields the same text again.
pub proof fn lemma_round_trip(v: StoreV)
    requires
        v.wf(),
    ensures
        parse_doc(render_store(v)) == Option::Some(v),
{
    lemma_upto_from(v, 0);
    assert(render_upto(v, 0) + render_from(v, 0) =~= render_from(v, 0));
    lemma_parse_render_from(v, 0);
    assert(prefix_store(v, 0).colors =~= empty_store().colors);
    assert(prefix_store(v, 0).triangles =~= empty_store().triangles);
    assert(prefix_store(v, 0) =~= empty_store());
}

fn digit_char_exec(d: u64) -> (r: char)
    requires
        d < 10,
    ensures
        r == digit_char(d as int),
{
    match d {
        0 => '0',
        1 => '1',
        2 => '2',
        3 => '3',
        4 => '4',
        5 => '5',
        6 => '6',
        7 => '7',
        8 => '8',
        _ => '9',
    }
}

fn push_u64_digits(n: u64, out: &mut Vec<char>)
    ensures
        final(out)@ == old(out)@ + dec_digits(n as nat),
    decreases n,
{
    if n < 10 {
        out.push(digit_char_exec(n));
        proof {
            assert(out@ =~= old(out)@ + dec_digits(n as nat));
        }
    } else {
        proof {
            assert(n / 10 < n) by (nonlinear_arith)
                requires
                    n >= 10,
            ;
        }
        push_u64_digits(n / 10, out);
        out.push(digit_char_exec(n % 10));
        proof {
            assert(out@ =~= old(out)@ + dec_digits(n as nat));
        }
    }
}

fn push_coord_chars(v: i64, out: &mut Vec<char>)
    requires
        -COORD_LIMIT <= v <= COORD_LIMIT,
    ensures
        final(out)@ == old(out)@ + coord_chars(v as int),
{
    let m = if v < 0 {
        out.push('-');
        -v
    } else {
        v
    };
    push_u64_digits((m / 100) as u64, out);
    let f = m % 100;
    if f != 0 {
        out.push('.');
        out.push(digit_char_exec((f / 10) as u64));
        if f % 10 != 0 {
            out.push(digit_char_exec((f % 10) as u64));
        }
    }
    proof {
        assert(out@ =~= old(out)@ + coord_chars(v as int));
    }
}

/// `join_points` of one more point: the blank goes between tokens only.
proof fn lemma_join_points_take(pts: Seq<Point>, j: int)
    requires
        0 <= j < pts.len(),
    ensures
        join_points(pts.take(j + 1)) == (if j == 0 {
            point_tok(pts[0])
        } else {
            join_points(pts.take(j)) + seq![' '] + point_tok(pts[j])
        }),
    decreases j,
{
    if j == 0 {
        assert(pts.take(1) =~= seq![pts[0]]);
        assert(join_points(seq![pts[0]]) == point_tok(pts[0]));
    } else {
        lemma_join_points_take(pts.drop_first(), j - 1);
        let t = pts.take(j + 1);
        assert(t.drop_first() =~= pts.drop_first().take(j));
        assert(pts.take(j).drop_first() =~= pts.drop_first().take(j - 1));
        assert(t[0] == pts[0]);
        assert(join_points(t) == point_tok(pts[0]) + seq![' '] + join_points(
            pts.drop_first().take(j),
        ));
        if j == 1 {
            assert(pts.drop_first().take(1) =~= seq![pts.drop_first()[0]]);
            assert(pts.take(1) =~= seq![pts[0]]);
            assert(join_points(pts.take(j)) + seq![' '] + point_tok(pts[j]) =~= point_tok(pts[0])
                + seq![' '] + join_points(pts.drop_first().take(j)));
        } else {
            assert(join_points(pts.take(j)) == point_tok(pts[0]) + seq![' '] + join_points(
                pts.drop_first().take(j - 1),
            ));
            assert(join_points(pts.take(j)) + seq![' '] + point_tok(pts[j]) =~= point_tok(pts[0])
                + seq![' '] + (join_points(pts.drop_first().take(j - 1)) + seq![' '] + point_tok(
                pts.drop_first()[j - 1],
            )));
        }
    }
}

impl ColoredTriangles {
    /// Writes the store in its text form: one line per color, the packed
    /// color value and then the space-separated coordinate pairs.
    pub fn to_text(&self) -> (r: String)
        requires
            self@.wf(),
        ensures
            r@ == render_store(self@),
    {
        let mut out: Vec<char> = Vec::new();
        let mut c: usize = 0;
        proof {
            assert(out@ =~= render_upto(self@, 0));
        }
        while c < self.colors.len()
            invariant
                self@.wf(),
                self.colors@.len() == self@.colors.len(),
                0 <= c <= self@.colors.len(),
                out@ == render_upto(self@, c as int),
            decreases self@.colors.len() - c,
        {
            let ghost base = out@;
            let col = self.colors[c].to_rgb_u32();
            push_u64_digits(col as u64, &mut out);
            out.push(' ');
            let row = &self.triangles[c];
            let ghost line_start = base + dec_digits(col as nat) + seq![' '];
            proof {
                assert(out@ =~= line_start + join_points(row@.take(0)));
                assert(join_points(row@.take(0)) =~= Seq::<char>::empty());
                assert(out@ =~= line_start);
            }
            let mut j: usize = 0;
            while j < row.len()
                invariant
                    self@.wf(),
                    0 <= c < self@.triangles.len(),
                    row == &self.triangles[c as int],
                    row@ == self@.triangles[c as int],
                    0 <= j <= row@.len(),
                    out@ == line_start + join_points(row@.take(j as int)),
                decreases row@.len() - j,
            {
                let ghost pre = out@;
                if j > 0 {
                    out.push(' ');
                }
                let p = row[j];
                assert(in_bounds(p));
                push_coord_chars(p.x, &mut out);
                out.push(',');
                push_coord_chars(p.y, &mut out);
                proof {
                    lemma_join_points_take(row@, j as int);
                    if j == 0 {
                        assert(out@ =~= line_start + join_points(row@.take(j as int + 1)));
                    } else {
                        assert(out@ =~= pre + seq![' '] + point_tok(row@[j as int]));
                        assert(out@ =~= line_start + join_points(row@.take(j as int + 1)));
                    }
                }
                j += 1;
            }
            out.push('\n');
            proof {
                assert(row@.take(row@.len() as int) =~= row@);
                assert(out@ =~= base + render_line(self@.colors[c as int], self@.triangles[c as int]));
                assert(out@ =~= render_upto(self@, c as int + 1));
            }
            c += 1;
        }
        string_from_chars(&out)
    }
}

} // verus!
