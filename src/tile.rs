//! Tile kinds and the markup of one tile: a square, two quarter-circle arcs and eight
//! circles, all at fixed offsets scaled by the tile's size.
use vstd::prelude::*;

use crate::text::{decimal, push_decimal};

verus! {

/// The three tile sizes, largest placed first.
#[derive(Clone, Copy, Debug, PartialEq, Eq, Structural)]
pub enum Tile {
    Small,
    Medium,
    Large,
}

/// Side length of a tile, in grid cells.
pub open spec fn scale_of(t: Tile) -> nat {
    match t {
        Tile::Small => 1,
        Tile::Medium => 2,
        Tile::Large => 4,
    }
}

/// Fill colour of the tile's square and of its large circles.
pub open spec fn background_of(t: Tile) -> Seq<char> {
    match t {
        Tile::Medium => "black"@,
        _ => "white"@,
    }
}

/// Fill colour of the tile's arcs and of its small circles.
pub open spec fn accent_of(t: Tile) -> Seq<char> {
    match t {
        Tile::Medium => "white"@,
        _ => "black"@,
    }
}

/// A filled square of side `size` with its top-left corner at (`x`, `y`).
pub open spec fn rect_svg(size: nat, x: nat, y: nat, fill: Seq<char>) -> Seq<char> {
    "<rect width=\""@ + decimal(size) + "\" height=\""@ + decimal(size) + "\" x=\""@ + decimal(x)
        + "\" y=\""@ + decimal(y) + "\" fill=\""@ + fill + "\"/>"@
}

/// A filled quarter-circle: a line from (`mx`, `my`) to (`lx`, `ly`), then an arc of
/// radius `r` to (`ex`, `ey`).
pub open spec fn path_svg(
    mx: nat,
    my: nat,
    lx: nat,
    ly: nat,
    r: nat,
    ex: nat,
    ey: nat,
    fill: Seq<char>,
) -> Seq<char> {
    "<path d=\"M "@ + decimal(mx) + " "@ + decimal(my) + " L "@ + decimal(lx) + " "@ + decimal(ly)
        + " A "@ + decimal(r) + " "@ + decimal(r) + " 0 0 1 "@ + decimal(ex) + " "@ + decimal(ey)
        + "\" fill=\""@ + fill + "\"/>"@
}

/// A filled circle of radius `r` centred on (`cx`, `cy`).
pub open spec fn circle_svg(cx: nat, cy: nat, r: nat, fill: Seq<char>) -> Seq<char> {
    "<circle cx=\""@ + decimal(cx) + "\" cy=\""@ + decimal(cy) + "\" r=\""@ + decimal(r)
        + "\" fill=\""@ + fill + "\"/>"@
}

/// The two quarter-circle arcs of a tile whose base offset is (`x`, `y`); `flip` mirrors
/// which corners they join.
pub open spec fn arcs_svg(t: Tile, x: nat, y: nat, flip: bool) -> Seq<char> {
    let s = scale_of(t);
    if flip {
        path_svg(8 * s + x, 2 * s + y, 8 * s + x, 6 * s + y, 4 * s, 4 * s + x, 2 * s + y, accent_of(t))
            + path_svg(2 * s + x, 8 * s + y, 2 * s + x, 4 * s + y, 4 * s, 6 * s + x, 8 * s + y, accent_of(t))
    } else {
        path_svg(2 * s + x, 2 * s + y, 6 * s + x, 2 * s + y, 4 * s, 2 * s + x, 6 * s + y, accent_of(t))
            + path_svg(8 * s + x, 8 * s + y, 4 * s + x, 8 * s + y, 4 * s, 8 * s + x, 4 * s + y, accent_of(t))
    }
}

#[verifier::opaque]
/// The markup of one tile: its square, its two arcs, four small accent circles and four
/// large background circles, all placed from the base offset (`x`, `y`).
pub open spec fn tile_svg(t: Tile, x: nat, y: nat, flip: bool) -> Seq<char> {
    let s = scale_of(t);
    let (x2, x5, x8) = (2 * s + x, 5 * s + x, 8 * s + x);
    let (y2, y5, y8) = (2 * s + y, 5 * s + y, 8 * s + y);
    rect_svg(6 * s, x2, y2, background_of(t)) + arcs_svg(t, x, y, flip)
        + circle_svg(x2, y5, s, accent_of(t)) + circle_svg(x8, y5, s, accent_of(t))
        + circle_svg(x5, y2, s, accent_of(t)) + circle_svg(x5, y8, s, accent_of(t))
        + circle_svg(x2, y2, 2 * s, background_of(t)) + circle_svg(x8, y8, 2 * s, background_of(t))
        + circle_svg(x2, y8, 2 * s, background_of(t)) + circle_svg(x8, y2, 2 * s, background_of(t))
}

impl Tile {
    pub fn scale_factor(&self) -> (r: usize)
        ensures
            r == scale_of(*self),
    {
        match self {
            Tile::Small => 1,
            Tile::Medium => 2,
            Tile::Large => 4,
        }
    }

    pub fn background(&self) -> (r: &'static str)
        ensures
            r@ == background_of(*self),
    {
        match self {
            Tile::Medium => "black",
            _ => "white",
        }
    }

    pub fn accent(&self) -> (r: &'static str)
        ensures
            r@ == accent_of(*self),
    {
        match self {
            Tile::Medium => "white",
            _ => "black",
        }
    }
}

fn rect_string(size: usize, x: usize, y: usize, fill: &str) -> (r: String)
    ensures
        r@ == rect_svg(size as nat, x as nat, y as nat, fill@),
{
    let mut s = String::from_str("<rect width=\"");
    push_decimal(&mut s, size);
    s.append("\" height=\"");
    push_decimal(&mut s, size);
    s.append("\" x=\"");
    push_decimal(&mut s, x);
    s.append("\" y=\"");
    push_decimal(&mut s, y);
    s.append("\" fill=\"");
    s.append(fill);
    s.append("\"/>");
    s
}

fn path_string(
    mx: usize,
    my: usize,
    lx: usize,
    ly: usize,
    r: usize,
    ex: usize,
    ey: usize,
    fill: &str,
) -> (res: String)
    ensures
        res@ == path_svg(
            mx as nat,
            my as nat,
            lx as nat,
            ly as nat,
            r as nat,
            ex as nat,
            ey as nat,
            fill@,
        ),
{
    let mut s = String::from_str("<path d=\"M ");
    push_decimal(&mut s, mx);
    s.append(" ");
    push_decimal(&mut s, my);
    s.append(" L ");
    push_decimal(&mut s, lx);
    s.append(" ");
    push_decimal(&mut s, ly);
    s.append(" A ");
    push_decimal(&mut s, r);
    s.append(" ");
    push_decimal(&mut s, r);
    s.append(" 0 0 1 ");
    push_decimal(&mut s, ex);
    s.append(" ");
    push_decimal(&mut s, ey);
    s.append("\" fill=\"");
    s.append(fill);
    s.append("\"/>");
    s
}

fn circle_string(cx: usize, cy: usize, r: usize, fill: &str) -> (res: String)
    ensures
        res@ == circle_svg(cx as nat, cy as nat, r as nat, fill@),
{
    let mut s = String::from_str("<circle cx=\"");
    push_decimal(&mut s, cx);
    s.append("\" cy=\"");
    push_decimal(&mut s, cy);
    s.append("\" r=\"");
    push_decimal(&mut s, r);
    s.append("\" fill=\"");
    s.append(fill);
    s.append("\"/>");
    s
}

fn arcs_string(t: Tile, x: usize, y: usize, flip: bool) -> (r: String)
    requires
        x + 32 <= usize::MAX,
        y + 32 <= usize::MAX,
    ensures
        r@ == arcs_svg(t, x as nat, y as nat, flip),
{
    let s = t.scale_factor();
    let mut out = if flip {
        path_string(8 * s + x, 2 * s + y, 8 * s + x, 6 * s + y, 4 * s, 4 * s + x, 2 * s + y, t.accent())
    } else {
        path_string(2 * s + x, 2 * s + y, 6 * s + x, 2 * s + y, 4 * s, 2 * s + x, 6 * s + y, t.accent())
    };
    let second = if flip {
        path_string(2 * s + x, 8 * s + y, 2 * s + x, 4 * s + y, 4 * s, 6 * s + x, 8 * s + y, t.accent())
    } else {
        path_string(8 * s + x, 8 * s + y, 4 * s + x, 8 * s + y, 4 * s, 8 * s + x, 4 * s + y, t.accent())
    };
    out.append(second.as_str());
    out
}

/// The markup of tile `t` drawn from the base offset (`x_offset`, `y_offset`), mirrored
/// when `should_flip` holds.
pub fn get_tile_svg_string(t: Tile, x_offset: usize, y_offset: usize, should_flip: bool) -> (r:
    String)
    requires
        x_offset + 32 <= usize::MAX,
        y_offset + 32 <= usize::MAX,
    ensures
        r@ == tile_svg(t, x_offset as nat, y_offset as nat, should_flip),
{
    reveal(tile_svg);
    let s = t.scale_factor();
    let x2 = 2 * s + x_offset;
    let x5 = 5 * s + x_offset;
    let x8 = 8 * s + x_offset;
    let y2 = 2 * s + y_offset;
    let y5 = 5 * s + y_offset;
    let y8 = 8 * s + y_offset;
    let accent = t.accent();
    let background = t.background();
    let mut out = rect_string(6 * s, x2, y2, background);
    out.append(arcs_string(t, x_offset, y_offset, should_flip).as_str());
    out.append(circle_string(x2, y5, s, accent).as_str());
    out.append(circle_string(x8, y5, s, accent).as_str());
    out.append(circle_string(x5, y2, s, accent).as_str());
    out.append(circle_string(x5, y8, s, accent).as_str());
    out.append(circle_string(x2, y2, 2 * s, background).as_str());
    out.append(circle_string(x8, y8, 2 * s, background).as_str());
    out.append(circle_string(x2, y8, 2 * s, background).as_str());
    out.append(circle_string(x8, y2, 2 * s, background).as_str());
    out
}

} // verus!
