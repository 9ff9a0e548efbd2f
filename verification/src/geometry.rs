use vstd::prelude::*;

verus! {

/// A physical touch position on the input surface, in the same
/// coordinate space as the key rectangles.
#[derive(Clone, Copy, PartialEq, Eq, Structural, Debug)]
pub struct TouchPos {
    pub x: u16,
    pub y: u16,
}

/// An axis-aligned rectangle on the input surface.
#[derive(Clone, Copy, PartialEq, Eq, Structural, Debug)]
pub struct Rect {
    pub left: u32,
    pub top: u32,
    pub width: u32,
    pub height: u32,
}

/// A point lies in a rectangle when it is at or right of the left edge,
/// strictly left of the right edge, and likewise vertically. The right
/// and bottom edges are excluded, so adjacent rectangles that share an
/// edge never both contain the same point.
pub open spec fn rect_contains_spec(r: Rect, x: int, y: int) -> bool {
    &&& r.left <= x < r.left + r.width
    &&& r.top <= y < r.top + r.height
}

pub fn rect_contains(r: &Rect, p: TouchPos) -> (hit: bool)
    ensures
        hit == rect_contains_spec(*r, p.x as int, p.y as int),
{
    let x: u64 = p.x as u64;
    let y: u64 = p.y as u64;
    x >= r.left as u64 && x < r.left as u64 + r.width as u64 && y >= r.top as u64 && y < r.top
        as u64 + r.height as u64
}

/// The height of the display in the coordinate space that key
/// rectangles are stored in; key construction rotates its inputs into
/// this space.
pub const DISPLAY_SHORT_SIDE: u32 = 1404;

/// One named rectangular key region. `is_pressed` is the per-key state
/// of the edge emitter: it records whether the last evaluation saw the
/// key touched, and is mutated only by the diff step.
#[derive(Clone, Copy, PartialEq, Debug)]
pub struct Key {
    pub name: &'static str,
    pub bounds: Rect,
    pub is_black: bool,
    pub is_pressed: bool,
}

impl Key {
    /// Builds a key from layout coordinates: `x` runs along the long
    /// edge of the keyboard, `y` away from it, and the stored bounds
    /// are rotated into the display's portrait coordinate space.
    pub fn new(name: &'static str, x: u32, y: u32, w: u32, h: u32, is_black: bool) -> (k: Key)
        requires
            y + h <= DISPLAY_SHORT_SIDE,
        ensures
            k.name == name,
            k.bounds.left == DISPLAY_SHORT_SIDE - y - h,
            k.bounds.top == x,
            k.bounds.width == h,
            k.bounds.height == w,
            k.is_black == is_black,
            !k.is_pressed,
    {
        Key {
            name,
            bounds: Rect { left: DISPLAY_SHORT_SIDE - y - h, top: x, width: h, height: w },
            is_black,
            is_pressed: false,
        }
    }
}

/// One rectangle to paint: filled for black keys, an outline for white
/// keys.
#[derive(Clone, Copy, PartialEq, Eq, Structural, Debug)]
pub struct DrawCmd {
    pub left: u32,
    pub top: u32,
    pub width: u32,
    pub height: u32,
    pub filled: bool,
}

pub open spec fn draw_cmd_of(k: Key) -> DrawCmd {
    DrawCmd {
        left: k.bounds.left,
        top: k.bounds.top,
        width: k.bounds.width,
        height: k.bounds.height,
        filled: k.is_black,
    }
}

/// Computes the list of rectangles to paint for a layout, one per key
/// in declaration order. The caller hands each command to the screen.
pub fn draw_keys(keys: &[Key]) -> (cmds: Vec<DrawCmd>)
    ensures
        cmds@.len() == keys@.len(),
        forall|i: int| 0 <= i < keys@.len() ==> cmds@[i] == draw_cmd_of(keys@[i]),
{
    let mut cmds: Vec<DrawCmd> = Vec::new();
    let mut j: usize = 0;
    while j < keys.len()
        invariant
            j <= keys@.len(),
            cmds@.len() == j,
            forall|i: int| 0 <= i < j ==> cmds@[i] == draw_cmd_of(keys@[i]),
        decreases keys@.len() - j,
    {
        let k = keys[j];
        cmds.push(
            DrawCmd {
                left: k.bounds.left,
                top: k.bounds.top,
                width: k.bounds.width,
                height: k.bounds.height,
                filled: k.is_black,
            },
        );
        j += 1;
    }
    cmds
}

} // verus!
