//! Grid-to-screen projection for orthogonal and isometric maps.
//!
//! Grid positions and screen positions are fixed-point vectors. Tile
//! dimensions are whole pixels. The screen's vertical axis points up, the
//! grid's points down: every projection flips the sign of `y`.
//!
//! A projection is defined where its result fits the coordinate range. The
//! functions named `checked_` test that and give `None` where it does not.

use crate::fixed::{
    fits, half_toward_zero, half_toward_zero_i128, lemma_round_div_bound,
    lemma_round_div_multiple, lemma_round_div_nearest, lemma_round_div_unique, narrow, round_div,
    round_div_i128, Vec2, Vec3, UNIT,
};
use crate::map::{MapInfo, Orientation, TiledMap};
use vstd::prelude::*;

verus! {

/// Screen `x` of a grid position on an orthogonal map.
pub open spec fn ortho_x(x: int, tile_width: int) -> int {
    tile_width * x
}

/// Screen `y` of a grid position on an orthogonal map.
pub open spec fn ortho_y(y: int, tile_height: int) -> int {
    -(tile_height * y)
}

/// Screen `x` of a grid position on an isometric map; a half step is
/// dropped.
pub open spec fn iso_x(x: int, y: int, tile_width: int) -> int {
    half_toward_zero((x - y) * tile_width)
}

/// Screen `y` of a grid position on an isometric map; a half step is
/// dropped.
pub open spec fn iso_y(x: int, y: int, tile_height: int) -> int {
    -half_toward_zero((x + y) * tile_height)
}

/// The grid cell, in whole cells, whose centre is nearest to the grid
/// position that an isometric map shows at `pos`: column, then row.
pub open spec fn iso_cell(pos: Vec2, tile_width: u32, tile_height: u32) -> (int, int) {
    let den = tile_width * tile_height * UNIT;
    (
        round_div(pos.x * tile_height - pos.y * tile_width, den),
        round_div(-(pos.y * tile_width) - pos.x * tile_height, den),
    )
}

/// The whole cell nearest to a grid position: column, then row.
pub open spec fn nearest_cell(pos: Vec2) -> (int, int) {
    (round_div(pos.x as int, UNIT as int), round_div(pos.y as int, UNIT as int))
}

/// The vector with the given coordinates, where they fit.
pub open spec fn vec2(x: int, y: int) -> Vec2 {
    Vec2 { x: x as i64, y: y as i64 }
}

/// Whether a grid position can be projected onto an orthogonal map: the
/// screen position fits the coordinate range.
pub open spec fn can_project_ortho(pos: Vec2, tile_width: u32, tile_height: u32) -> bool {
    fits(ortho_x(pos.x as int, tile_width as int)) && fits(
        ortho_y(pos.y as int, tile_height as int),
    )
}

/// What [`TiledMap::project_ortho`] returns.
pub open spec fn project_ortho_spec(pos: Vec2, tile_width: u32, tile_height: u32) -> Vec2 {
    vec2(ortho_x(pos.x as int, tile_width as int), ortho_y(pos.y as int, tile_height as int))
}

/// Whether a screen position can be taken back to the grid of an orthogonal
/// map: the tiles have a size, and the grid position fits the coordinate
/// range.
pub open spec fn can_unproject_ortho(pos: Vec2, tile_width: u32, tile_height: u32) -> bool {
    &&& tile_width > 0
    &&& tile_height > 0
    &&& fits(round_div(pos.x as int, tile_width as int))
    &&& fits(round_div(-pos.y, tile_height as int))
}

/// What [`TiledMap::unproject_ortho`] returns.
pub open spec fn unproject_ortho_spec(pos: Vec2, tile_width: u32, tile_height: u32) -> Vec2 {
    vec2(round_div(pos.x as int, tile_width as int), round_div(-pos.y, tile_height as int))
}

/// Whether a grid position can be projected onto an isometric map: the
/// screen position fits the coordinate range.
pub open spec fn can_project_iso(pos: Vec2, tile_width: u32, tile_height: u32) -> bool {
    fits(iso_x(pos.x as int, pos.y as int, tile_width as int)) && fits(
        iso_y(pos.x as int, pos.y as int, tile_height as int),
    )
}

/// What [`TiledMap::project_iso`] returns.
pub open spec fn project_iso_spec(pos: Vec2, tile_width: u32, tile_height: u32) -> Vec2 {
    vec2(
        iso_x(pos.x as int, pos.y as int, tile_width as int),
        iso_y(pos.x as int, pos.y as int, tile_height as int),
    )
}

/// Whether a screen position can be taken back to the grid of an isometric
/// map: the tiles have a size, and the cell fits the coordinate range.
pub open spec fn can_unproject_iso(pos: Vec2, tile_width: u32, tile_height: u32) -> bool {
    &&& tile_width > 0
    &&& tile_height > 0
    &&& fits(iso_cell(pos, tile_width, tile_height).0 * UNIT)
    &&& fits(iso_cell(pos, tile_width, tile_height).1 * UNIT)
}

/// What [`TiledMap::unproject_iso`] returns.
pub open spec fn unproject_iso_spec(pos: Vec2, tile_width: u32, tile_height: u32) -> Vec2 {
    let cell = iso_cell(pos, tile_width, tile_height);
    vec2(cell.0 * UNIT, cell.1 * UNIT)
}

/// Whether the whole cell nearest to a grid position fits the coordinate
/// range.
pub open spec fn can_snap(pos: Vec2) -> bool {
    fits(nearest_cell(pos).0 * UNIT) && fits(nearest_cell(pos).1 * UNIT)
}

/// The grid position snapped to the nearest whole cell.
pub open spec fn snapped(pos: Vec2) -> Vec2 {
    vec2(nearest_cell(pos).0 * UNIT, nearest_cell(pos).1 * UNIT)
}

/// Whether neither coordinate lies exactly halfway between two whole cells.
pub open spec fn off_halves(pos: Vec2) -> bool {
    pos.x % UNIT != UNIT / 2 && pos.y % UNIT != UNIT / 2
}

/// Half the extent of the grid, in fixed-point cells: column, then row.
pub open spec fn half_extent(info: MapInfo) -> (int, int) {
    (info.width * (UNIT / 2), info.height * (UNIT / 2))
}

/// The screen position of the middle of the grid, on a map of an
/// orientation that can be projected.
pub open spec fn projected_half_extent(info: MapInfo) -> (int, int) {
    let half = half_extent(info);
    if info.orientation == Orientation::Orthogonal {
        (ortho_x(half.0, info.tile_width as int), ortho_y(half.1, info.tile_height as int))
    } else {
        (iso_x(half.0, half.1, info.tile_width as int), iso_y(half.0, half.1, info.tile_height as int))
    }
}

/// Whether maps of this orientation can be projected.
pub open spec fn supported(orientation: Orientation) -> bool {
    orientation == Orientation::Orthogonal || orientation == Orientation::Isometric
}

/// Number of world units that one projected unit takes when a map is centred.
pub const CENTER_SCALE: i64 = 4;

/// Where a centred map goes, before the range is looked at: `x`, then `y`.
pub open spec fn center_xy(info: MapInfo, origin: Vec3) -> (int, int) {
    let c = projected_half_extent(info);
    (origin.x - c.0 * CENTER_SCALE, origin.y - c.1 * CENTER_SCALE)
}

/// Whether the map can be centred at `origin`: its orientation can be
/// projected, and the placement fits the coordinate range.
pub open spec fn can_center(info: MapInfo, origin: Vec3) -> bool {
    &&& supported(info.orientation)
    &&& fits(center_xy(info, origin).0)
    &&& fits(center_xy(info, origin).1)
}

/// What [`TiledMap::center`] returns.
pub open spec fn center_spec(info: MapInfo, origin: Vec3) -> Vec3 {
    Vec3 {
        x: center_xy(info, origin).0 as i64,
        y: center_xy(info, origin).1 as i64,
        z: origin.z,
    }
}

/// Projecting a grid position onto an orthogonal map and back gives the
/// position itself, for tiles of positive size, wherever the screen
/// position fits the coordinate range.
pub proof fn lemma_ortho_round_trip(pos: Vec2, tile_width: u32, tile_height: u32)
    requires
        tile_width > 0,
        tile_height > 0,
        can_project_ortho(pos, tile_width, tile_height),
    ensures
        can_unproject_ortho(
            project_ortho_spec(pos, tile_width, tile_height),
            tile_width,
            tile_height,
        ),
        unproject_ortho_spec(
            project_ortho_spec(pos, tile_width, tile_height),
            tile_width,
            tile_height,
        ) == pos,
{
    let screen = project_ortho_spec(pos, tile_width, tile_height);
    assert(screen.x == tile_width * pos.x);
    assert(screen.y == -(tile_height * pos.y));
    assert(tile_width * pos.x == pos.x * tile_width) by (nonlinear_arith);
    assert(tile_height * pos.y == pos.y * tile_height) by (nonlinear_arith);
    lemma_round_div_multiple(pos.x as int, tile_width as int);
    lemma_round_div_multiple(pos.y as int, tile_height as int);
}

/// What a dropped half step leaves: at most one, on the side of `n`.
proof fn lemma_half_toward_zero(n: int)
    ensures
        -1 <= n - 2 * half_toward_zero(n) <= 1,
        n - 2 * half_toward_zero(n) > 0 ==> n > 0,
        n - 2 * half_toward_zero(n) < 0 ==> n < 0,
        half_toward_zero(-n) == -half_toward_zero(n),
{
}

/// One axis of the isometric round trip. `v` is the coordinate that comes
/// back, `o` the other one: the diamond takes their difference and their
/// sum, drops half steps, and the inverse adds the two up again. Unless `v`
/// lies exactly halfway between two cells, the nearest cell of the sum is
/// the nearest cell of `v`.
proof fn lemma_iso_axis(v: int, o: int, w: int, h: int)
    requires
        w > 0,
        h > 0,
        v % 65536 != 32768,
    ensures
        round_div(
            half_toward_zero((v - o) * w) * h + half_toward_zero((v + o) * h) * w,
            w * h * 65536,
        ) == round_div(v, 65536),
{
    let a = (v - o) * w;
    let b = (v + o) * h;
    let sa = half_toward_zero(a);
    let sb = half_toward_zero(b);
    let e1 = a - 2 * sa;
    let e2 = b - 2 * sb;
    lemma_half_toward_zero(a);
    lemma_half_toward_zero(b);
    let k = round_div(v, 65536);
    lemma_round_div_nearest(v, 65536);
    let r = v - k * 65536;
    assert(-65534 <= 2 * r <= 65534);
    let n = sa * h + sb * w;
    let p = w * h;
    let d = p * 65536;
    assert(p >= 1) by (nonlinear_arith)
        requires
            p == w * h,
            w > 0,
            h > 0,
    ;
    assert(w * h * 65536 == d);
    let e = e1 * h + e2 * w;
    assert(2 * n == 2 * v * p - e) by (nonlinear_arith)
        requires
            n == sa * h + sb * w,
            2 * sa == (v - o) * w - e1,
            2 * sb == (v + o) * h - e2,
            p == w * h,
            e == e1 * h + e2 * w,
    ;
    assert(2 * (n - k * d) == p * (2 * r) - e) by (nonlinear_arith)
        requires
            2 * n == 2 * v * p - e,
            d == p * 65536,
            r == v - k * 65536,
    ;
    assert(-(p * 65534) <= p * (2 * r) <= p * 65534) by (nonlinear_arith)
        requires
            p >= 1,
            -65534 <= 2 * r <= 65534,
    ;
    assert(-(w + h) <= e <= w + h) by (nonlinear_arith)
        requires
            e == e1 * h + e2 * w,
            -1 <= e1 <= 1,
            -1 <= e2 <= 1,
            w > 0,
            h > 0,
    ;
    if p >= 2 {
        assert(w + h <= p + 1) by (nonlinear_arith)
            requires
                p == w * h,
                w >= 1,
                h >= 1,
        ;
        assert(-d < 2 * (n - k * d) < d);
        lemma_round_div_unique(n, d, k);
    } else {
        assert(w == 1 && h == 1) by (nonlinear_arith)
            requires
                w * h == 1,
                w >= 1,
                h >= 1,
        ;
        assert(a == v - o && b == v + o) by (nonlinear_arith)
            requires
                a == (v - o) * w,
                b == (v + o) * h,
                w == 1,
                h == 1,
        ;
        assert(e == e1 + e2 && n == sa + sb && d == 65536) by (nonlinear_arith)
            requires
                e == e1 * h + e2 * w,
                n == sa * h + sb * w,
                d == p * 65536,
                p == w * h,
                w == 1,
                h == 1,
        ;
        assert(2 * (n - k * d) == 2 * r - e);
        assert(2 * n == 2 * v - e);
        if 2 * r - e == d {
            // Both halves were dropped on the negative side: `v` is
            // negative, and so is the sum.
            assert(e1 == -1 && e2 == -1);
            assert(v < 0);
            assert(n < 0);
        }
        if 2 * r - e == -d {
            assert(e1 == 1 && e2 == 1);
            assert(v > 0);
            assert(n >= 0);
        }
        lemma_round_div_unique(n, d, k);
    }
}

/// Projecting a grid position onto an isometric map and back gives the
/// nearest whole cell, for tiles of positive size, wherever the screen
/// position fits the coordinate range and the grid position does not lie
/// exactly halfway between two cells. The way back is defined exactly
/// where that cell fits.
pub proof fn lemma_iso_round_trip_snaps(pos: Vec2, tile_width: u32, tile_height: u32)
    requires
        tile_width > 0,
        tile_height > 0,
        can_project_iso(pos, tile_width, tile_height),
        off_halves(pos),
    ensures
        iso_cell(project_iso_spec(pos, tile_width, tile_height), tile_width, tile_height)
            == nearest_cell(pos),
        can_unproject_iso(
            project_iso_spec(pos, tile_width, tile_height),
            tile_width,
            tile_height,
        ) == can_snap(pos),
        unproject_iso_spec(project_iso_spec(pos, tile_width, tile_height), tile_width, tile_height)
            == snapped(pos),
{
    let w = tile_width as int;
    let h = tile_height as int;
    let x = pos.x as int;
    let y = pos.y as int;
    let screen = project_iso_spec(pos, tile_width, tile_height);
    let sa = half_toward_zero((x - y) * w);
    let sb = half_toward_zero((x + y) * h);
    assert(screen.x == sa);
    assert(screen.y == -sb);
    lemma_iso_axis(x, y, w, h);
    lemma_iso_axis(y, x, w, h);
    lemma_half_toward_zero((x - y) * w);
    assert((y - x) * w == -((x - y) * w)) by (nonlinear_arith);
    assert((y + x) * h == (x + y) * h) by (nonlinear_arith);
    assert(screen.x * tile_height - screen.y * tile_width == sa * h + sb * w) by (nonlinear_arith)
        requires
            screen.x == sa,
            screen.y == -sb,
            tile_height == h,
            tile_width == w,
    ;
    assert(-(screen.y * tile_width) - screen.x * tile_height == (-sa) * h + sb * w)
        by (nonlinear_arith)
        requires
            screen.x == sa,
            screen.y == -sb,
            tile_height == h,
            tile_width == w,
    ;
    assert(tile_width * tile_height * UNIT == w * h * 65536) by (nonlinear_arith)
        requires
            tile_width == w,
            tile_height == h,
            UNIT == 65536,
    ;
}

/// Projecting a whole grid cell onto an isometric map and back gives the
/// cell itself, for tiles of positive size, wherever the screen position
/// fits the coordinate range.
pub proof fn lemma_iso_round_trip(pos: Vec2, tile_width: u32, tile_height: u32)
    requires
        tile_width > 0,
        tile_height > 0,
        pos.is_whole(),
        can_project_iso(pos, tile_width, tile_height),
    ensures
        can_unproject_iso(
            project_iso_spec(pos, tile_width, tile_height),
            tile_width,
            tile_height,
        ),
        unproject_iso_spec(project_iso_spec(pos, tile_width, tile_height), tile_width, tile_height)
            == pos,
{
    let cx = pos.x / UNIT;
    let cy = pos.y / UNIT;
    assert(pos.x == cx * UNIT && pos.y == cy * UNIT);
    lemma_iso_round_trip_snaps(pos, tile_width, tile_height);
    lemma_round_div_multiple(cx, UNIT as int);
    lemma_round_div_multiple(cy, UNIT as int);
}

/// Product of a coordinate difference or sum and a tile dimension.
fn scaled(a: i128, b: u32) -> (r: i128)
    requires
        -0x2_0000_0000_0000_0000 <= a <= 0x2_0000_0000_0000_0000,
    ensures
        r == a * b,
        -0x2_0000_0000_0000_0000_0000_0000 <= r <= 0x2_0000_0000_0000_0000_0000_0000,
{
    assert(-0x2_0000_0000_0000_0000_0000_0000 <= a * b <= 0x2_0000_0000_0000_0000_0000_0000)
        by (nonlinear_arith)
        requires
            -0x2_0000_0000_0000_0000 <= a <= 0x2_0000_0000_0000_0000,
            0 <= b <= 0xffff_ffff,
    ;
    a * (b as i128)
}

/// The vector of two wide results, if both fit.
fn narrow2(x: i128, y: i128) -> (v: Option<Vec2>)
    ensures
        fits(x as int) && fits(y as int) ==> v == Some(vec2(x as int, y as int)),
        !(fits(x as int) && fits(y as int)) ==> v is None,
{
    match (narrow(x), narrow(y)) {
        (Some(x), Some(y)) => Some(Vec2 { x, y }),
        _ => None,
    }
}

/// The orthogonal projection, before the range is looked at.
fn ortho_wide(pos: Vec2, tile_width: u32, tile_height: u32) -> (screen: (i128, i128))
    ensures
        screen.0 == ortho_x(pos.x as int, tile_width as int),
        screen.1 == ortho_y(pos.y as int, tile_height as int),
{
    let x: i128 = scaled(pos.x as i128, tile_width);
    let y: i128 = scaled(pos.y as i128, tile_height);
    proof {
        assert(pos.x * tile_width == tile_width * pos.x) by (nonlinear_arith);
        assert(pos.y * tile_height == tile_height * pos.y) by (nonlinear_arith);
    }
    (x, -y)
}

/// The inverse of the orthogonal projection, before the range is looked at.
fn unortho_wide(pos: Vec2, tile_width: u32, tile_height: u32) -> (grid: (i128, i128))
    requires
        tile_width > 0,
        tile_height > 0,
    ensures
        grid.0 == round_div(pos.x as int, tile_width as int),
        grid.1 == round_div(-pos.y, tile_height as int),
{
    (
        round_div_i128(pos.x as i128, tile_width as i128),
        round_div_i128(-(pos.y as i128), tile_height as i128),
    )
}

/// The isometric projection, before the range is looked at.
fn iso_wide(pos: Vec2, tile_width: u32, tile_height: u32) -> (screen: (i128, i128))
    ensures
        screen.0 == iso_x(pos.x as int, pos.y as int, tile_width as int),
        screen.1 == iso_y(pos.x as int, pos.y as int, tile_height as int),
{
    let dx: i128 = scaled(pos.x as i128 - pos.y as i128, tile_width);
    let dy: i128 = scaled(pos.x as i128 + pos.y as i128, tile_height);
    (half_toward_zero_i128(dx), -half_toward_zero_i128(dy))
}

/// The inverse of the isometric projection, before the range is looked at.
fn uniso_wide(pos: Vec2, tile_width: u32, tile_height: u32) -> (grid: (i128, i128))
    requires
        tile_width > 0,
        tile_height > 0,
    ensures
        grid.0 == iso_cell(pos, tile_width, tile_height).0 * UNIT,
        grid.1 == iso_cell(pos, tile_width, tile_height).1 * UNIT,
{
    let xh: i128 = scaled(pos.x as i128, tile_height);
    let yw: i128 = scaled(pos.y as i128, tile_width);
    assert(0 < tile_width * tile_height <= 0xffff_ffff * 0xffff_ffff) by (nonlinear_arith)
        requires
            0 < tile_width <= 0xffff_ffff,
            0 < tile_height <= 0xffff_ffff,
    ;
    let area: i128 = (tile_width as i128) * (tile_height as i128);
    assert(0 < area * UNIT <= 0xffff_ffff * 0xffff_ffff * 65536) by (nonlinear_arith)
        requires
            0 < area <= 0xffff_ffff * 0xffff_ffff,
            UNIT == 65536,
    ;
    let den: i128 = area * (UNIT as i128);
    let col: i128 = round_div_i128(xh - yw, den);
    let row: i128 = round_div_i128(-yw - xh, den);
    proof {
        lemma_round_div_bound((xh - yw) as int, den as int);
        lemma_round_div_bound((-yw - xh) as int, den as int);
    }
    (col * (UNIT as i128), row * (UNIT as i128))
}

/// Where a centred map goes, before the range is looked at.
fn center_wide(info: &MapInfo, origin: Vec3) -> (placed: (i128, i128))
    requires
        supported(info.orientation),
    ensures
        placed.0 == center_xy(*info, origin).0,
        placed.1 == center_xy(*info, origin).1,
{
    let half: i128 = (UNIT / 2) as i128;
    assert(info.width * half == info.width * 32768 && info.height * half == info.height * 32768)
        by (nonlinear_arith)
        requires
            half == 32768,
    ;
    let half_x: i128 = (info.width as i128) * half;
    let half_y: i128 = (info.height as i128) * half;
    let scale: i128 = CENTER_SCALE as i128;
    let (cx, cy): (i128, i128) = match info.orientation {
        Orientation::Orthogonal => {
            let x: i128 = scaled(half_x, info.tile_width);
            let y: i128 = scaled(half_y, info.tile_height);
            proof {
                assert(half_x * info.tile_width == info.tile_width * half_x) by (nonlinear_arith);
                assert(half_y * info.tile_height == info.tile_height * half_y)
                    by (nonlinear_arith);
            }
            (x, -y)
        },
        _ => {
            let dx: i128 = scaled(half_x - half_y, info.tile_width);
            let dy: i128 = scaled(half_x + half_y, info.tile_height);
            (half_toward_zero_i128(dx), -half_toward_zero_i128(dy))
        },
    };
    assert(cx * scale == cx * 4 && cy * scale == cy * 4) by (nonlinear_arith)
        requires
            scale == 4,
    ;
    (origin.x as i128 - cx * scale, origin.y as i128 - cy * scale)
}

impl TiledMap {
    /// Screen position of a grid position on an orthogonal map:
    /// `x` times the tile width, and minus `y` times the tile height.
    pub fn project_ortho(pos: Vec2, tile_width: u32, tile_height: u32) -> (screen: Vec2)
        requires
            can_project_ortho(pos, tile_width, tile_height),
        ensures
            screen == project_ortho_spec(pos, tile_width, tile_height),
            screen.x == tile_width * pos.x,
            screen.y == -(tile_height * pos.y),
    {
        let (x, y): (i128, i128) = ortho_wide(pos, tile_width, tile_height);
        Vec2 { x: x as i64, y: y as i64 }
    }

    /// [`TiledMap::project_ortho`] where the screen position fits the
    /// coordinate range, and nothing where it does not.
    pub fn checked_project_ortho(pos: Vec2, tile_width: u32, tile_height: u32) -> (screen: Option<
        Vec2,
    >)
        ensures
            can_project_ortho(pos, tile_width, tile_height) ==> screen == Some(
                project_ortho_spec(pos, tile_width, tile_height),
            ),
            !can_project_ortho(pos, tile_width, tile_height) ==> screen is None,
    {
        let (x, y): (i128, i128) = ortho_wide(pos, tile_width, tile_height);
        narrow2(x, y)
    }

    /// Grid position that an orthogonal map shows at a screen position:
    /// `x` divided by the tile width, and minus `y` divided by the tile
    /// height, each rounded to the nearest fixed-point step.
    pub fn unproject_ortho(pos: Vec2, tile_width: u32, tile_height: u32) -> (grid: Vec2)
        requires
            can_unproject_ortho(pos, tile_width, tile_height),
        ensures
            grid == unproject_ortho_spec(pos, tile_width, tile_height),
            grid.x == round_div(pos.x as int, tile_width as int),
            grid.y == round_div(-pos.y, tile_height as int),
    {
        let (x, y): (i128, i128) = unortho_wide(pos, tile_width, tile_height);
        Vec2 { x: x as i64, y: y as i64 }
    }

    /// [`TiledMap::unproject_ortho`] where the tiles have a size and the
    /// grid position fits the coordinate range, and nothing elsewhere.
    pub fn checked_unproject_ortho(pos: Vec2, tile_width: u32, tile_height: u32) -> (grid: Option<
        Vec2,
    >)
        ensures
            can_unproject_ortho(pos, tile_width, tile_height) ==> grid == Some(
                unproject_ortho_spec(pos, tile_width, tile_height),
            ),
            !can_unproject_ortho(pos, tile_width, tile_height) ==> grid is None,
    {
        if tile_width == 0 || tile_height == 0 {
            return None;
        }
        let (x, y): (i128, i128) = unortho_wide(pos, tile_width, tile_height);
        narrow2(x, y)
    }

    /// Screen position of a grid position on an isometric map: the diamond
    /// projection `((x - y) * tile_width / 2, -((x + y) * tile_height / 2))`.
    /// Where a half is no whole fixed-point step, the half step is dropped.
    pub fn project_iso(pos: Vec2, tile_width: u32, tile_height: u32) -> (screen: Vec2)
        requires
            can_project_iso(pos, tile_width, tile_height),
        ensures
            screen == project_iso_spec(pos, tile_width, tile_height),
            screen.x == half_toward_zero((pos.x - pos.y) * tile_width),
            screen.y == -half_toward_zero((pos.x + pos.y) * tile_height),
    {
        let (x, y): (i128, i128) = iso_wide(pos, tile_width, tile_height);
        Vec2 { x: x as i64, y: y as i64 }
    }

    /// [`TiledMap::project_iso`] where the screen position fits the
    /// coordinate range, and nothing where it does not.
    pub fn checked_project_iso(pos: Vec2, tile_width: u32, tile_height: u32) -> (screen: Option<
        Vec2,
    >)
        ensures
            can_project_iso(pos, tile_width, tile_height) ==> screen == Some(
                project_iso_spec(pos, tile_width, tile_height),
            ),
            !can_project_iso(pos, tile_width, tile_height) ==> screen is None,
    {
        let (x, y): (i128, i128) = iso_wide(pos, tile_width, tile_height);
        narrow2(x, y)
    }

    /// Grid cell that an isometric map shows at a screen position: the
    /// inverse of the diamond projection, rounded to the nearest whole cell.
    pub fn unproject_iso(pos: Vec2, tile_width: u32, tile_height: u32) -> (grid: Vec2)
        requires
            can_unproject_iso(pos, tile_width, tile_height),
        ensures
            grid == unproject_iso_spec(pos, tile_width, tile_height),
            grid.x == iso_cell(pos, tile_width, tile_height).0 * UNIT,
            grid.y == iso_cell(pos, tile_width, tile_height).1 * UNIT,
            grid.is_whole(),
    {
        let (x, y): (i128, i128) = uniso_wide(pos, tile_width, tile_height);
        proof {
            let cell = iso_cell(pos, tile_width, tile_height);
            assert((cell.0 * 65536) % 65536 == 0 && (cell.1 * 65536) % 65536 == 0);
        }
        Vec2 { x: x as i64, y: y as i64 }
    }

    /// [`TiledMap::unproject_iso`] where the tiles have a size and the cell
    /// fits the coordinate range, and nothing elsewhere.
    pub fn checked_unproject_iso(pos: Vec2, tile_width: u32, tile_height: u32) -> (grid: Option<
        Vec2,
    >)
        ensures
            can_unproject_iso(pos, tile_width, tile_height) ==> grid == Some(
                unproject_iso_spec(pos, tile_width, tile_height),
            ),
            !can_unproject_iso(pos, tile_width, tile_height) ==> grid is None,
    {
        if tile_width == 0 || tile_height == 0 {
            return None;
        }
        let (x, y): (i128, i128) = uniso_wide(pos, tile_width, tile_height);
        narrow2(x, y)
    }

    /// Where to put the map so that the middle of its grid, not its first
    /// cell, lies at `origin`: `origin` minus four times the projection of
    /// half the grid's extent. `z` is kept. Only orthogonal and isometric
    /// maps can be centred.
    pub fn center(&self, origin: Vec3) -> (placed: Vec3)
        requires
            can_center(self.map, origin),
        ensures
            placed == center_spec(self.map, origin),
    {
        let (x, y): (i128, i128) = center_wide(&self.map, origin);
        Vec3 { x: x as i64, y: y as i64, z: origin.z }
    }

    /// [`TiledMap::center`] where the map is orthogonal or isometric and
    /// the placement fits the coordinate range, and nothing elsewhere.
    pub fn checked_center(&self, origin: Vec3) -> (placed: Option<Vec3>)
        ensures
            can_center(self.map, origin) ==> placed == Some(center_spec(self.map, origin)),
            !can_center(self.map, origin) ==> placed is None,
    {
        match self.map.orientation {
            Orientation::Orthogonal | Orientation::Isometric => {},
            _ => {
                return None;
            },
        }
        let (x, y): (i128, i128) = center_wide(&self.map, origin);
        match narrow2(x, y) {
            Some(v) => Some(Vec3 { x: v.x, y: v.y, z: origin.z }),
            None => None,
        }
    }
}

} // verus!
