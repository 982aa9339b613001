//! Screen geometry for the presentation layer: a cell position and a
//! rectangle with padding. Pure arithmetic on cell coordinates; nothing
//! here touches a terminal.

use vstd::prelude::*;

use crate::text::{chars_of, spec_decimal, string_from_chars, u16_string};

verus! {

/// A cell position on the screen grid.
#[derive(Clone)]
pub struct Point {
    pub x: u16,
    pub y: u16,
}

impl Point {
    /// The point at `(x, y)`; both must fit the grid's coordinate range.
    pub fn new(x: usize, y: usize) -> (r: Point)
        requires
            x <= u16::MAX,
            y <= u16::MAX,
        ensures
            r.x == x && r.y == y,
    {
        Point { x: x as u16, y: y as u16 }
    }

    /// The index of this point in a row-major cell buffer of the given
    /// width.
    pub fn buf_addr(&self, screen_width: u16) -> (r: usize)
        requires
            self.y * screen_width + self.x <= u16::MAX,
        ensures
            r == self.y * screen_width + self.x,
    {
        (self.y * screen_width + self.x) as usize
    }

    /// Moves this point by `(x, y)`.
    pub fn set(&mut self, x: u16, y: u16) -> (r: &Self)
        requires
            old(self).x + x <= u16::MAX,
            old(self).y + y <= u16::MAX,
        ensures
            final(self).x == old(self).x + x,
            final(self).y == old(self).y + y,
            *r == *final(self),
    {
        self.x = self.x + x;
        self.y = self.y + y;
        self
    }

    /// The point `(x, y)` away from this one.
    pub fn add(&self, x: u16, y: u16) -> (r: Point)
        requires
            self.x + x <= u16::MAX,
            self.y + y <= u16::MAX,
        ensures
            r.x == self.x + x,
            r.y == self.y + y,
    {
        Point::new((self.x + x) as usize, (self.y + y) as usize)
    }
}

/// Inner padding of a rectangle, one width per edge.
struct RectPadd {
    top: u16,
    right: u16,
    bottom: u16,
    left: u16,
}

impl RectPadd {
    /// The padding's rendering: the four widths, comma-separated.
    spec fn spec_render(&self) -> Seq<char> {
        spec_decimal(self.top as int) + ", "@ + spec_decimal(self.right as int) + ", "@
            + spec_decimal(self.bottom as int) + ", "@ + spec_decimal(self.left as int)
    }

    fn render(&self) -> (r: String)
        ensures
            r@ == self.spec_render(),
    {
        let mut v = chars_of(u16_string(self.top).as_str());
        let mut sep1 = chars_of(", ");
        v.append(&mut sep1);
        let mut right = chars_of(u16_string(self.right).as_str());
        v.append(&mut right);
        let mut sep2 = chars_of(", ");
        v.append(&mut sep2);
        let mut bottom = chars_of(u16_string(self.bottom).as_str());
        v.append(&mut bottom);
        let mut sep3 = chars_of(", ");
        v.append(&mut sep3);
        let mut left = chars_of(u16_string(self.left).as_str());
        v.append(&mut left);
        string_from_chars(&v)
    }
}

impl RectPadd {
    /// No padding on any edge.
    fn none() -> (r: Self)
        ensures
            r.top == 0 && r.right == 0 && r.bottom == 0 && r.left == 0,
    {
        RectPadd { top: 0, right: 0, bottom: 0, left: 0 }
    }
}

/// A rectangle on the screen grid, with inner padding.
pub struct Rect {
    x: u16,
    y: u16,
    width: u16,
    height: u16,
    padding: RectPadd,
}

impl Rect {
    pub closed spec fn spec_x(&self) -> u16 {
        self.x
    }

    pub closed spec fn spec_y(&self) -> u16 {
        self.y
    }

    pub closed spec fn spec_width(&self) -> u16 {
        self.width
    }

    pub closed spec fn spec_height(&self) -> u16 {
        self.height
    }

    pub closed spec fn pad_top(&self) -> u16 {
        self.padding.top
    }

    pub closed spec fn pad_right(&self) -> u16 {
        self.padding.right
    }

    pub closed spec fn pad_bottom(&self) -> u16 {
        self.padding.bottom
    }

    pub closed spec fn pad_left(&self) -> u16 {
        self.padding.left
    }

    /// The rectangle anchored at `(x, y)` with the given size and no
    /// padding.
    pub fn new(x: u16, y: u16, width: u16, height: u16) -> (r: Self)
        ensures
            r.spec_x() == x && r.spec_y() == y,
            r.spec_width() == width && r.spec_height() == height,
            r.pad_top() == 0 && r.pad_right() == 0 && r.pad_bottom() == 0 && r.pad_left() == 0,
    {
        Rect { x, y, width, height, padding: RectPadd::none() }
    }

    /// Sets each padding edge that is given; the others keep their width.
    pub fn set_padding(
        &mut self,
        top: Option<u16>,
        right: Option<u16>,
        bottom: Option<u16>,
        left: Option<u16>,
    )
        ensures
            final(self).spec_x() == old(self).spec_x() && final(self).spec_y() == old(self).spec_y(),
            final(self).spec_width() == old(self).spec_width(),
            final(self).spec_height() == old(self).spec_height(),
            final(self).pad_top() == (if top is Some {
                top->0
            } else {
                old(self).pad_top()
            }),
            final(self).pad_right() == (if right is Some {
                right->0
            } else {
                old(self).pad_right()
            }),
            final(self).pad_bottom() == (if bottom is Some {
                bottom->0
            } else {
                old(self).pad_bottom()
            }),
            final(self).pad_left() == (if left is Some {
                left->0
            } else {
                old(self).pad_left()
            }),
    {
        if let Some(top) = top {
            self.padding.top = top;
        }
        if let Some(right) = right {
            self.padding.right = right;
        }
        if let Some(bottom) = bottom {
            self.padding.bottom = bottom;
        }
        if let Some(left) = left {
            self.padding.left = left;
        }
    }

    /// The rectangle's anchor: its top-left corner.
    pub fn anchor(&self) -> (r: Point)
        ensures
            r.x == self.spec_x() && r.y == self.spec_y(),
    {
        Point::new(self.x as usize, self.y as usize)
    }

    /// Moves the rectangle's anchor.
    pub fn set_anchor(&mut self, x: u16, y: u16)
        ensures
            final(self).spec_x() == x && final(self).spec_y() == y,
            final(self).spec_width() == old(self).spec_width(),
            final(self).spec_height() == old(self).spec_height(),
            final(self).pad_top() == old(self).pad_top() && final(self).pad_right() == old(
                self,
            ).pad_right(),
            final(self).pad_bottom() == old(self).pad_bottom() && final(self).pad_left() == old(
                self,
            ).pad_left(),
    {
        self.x = x;
        self.y = y;
    }

    /// Resizes the rectangle.
    pub fn set_dimensions(&mut self, w: u16, h: u16)
        ensures
            final(self).spec_width() == w && final(self).spec_height() == h,
            final(self).spec_x() == old(self).spec_x() && final(self).spec_y() == old(self).spec_y(),
            final(self).pad_top() == old(self).pad_top() && final(self).pad_right() == old(
                self,
            ).pad_right(),
            final(self).pad_bottom() == old(self).pad_bottom() && final(self).pad_left() == old(
                self,
            ).pad_left(),
    {
        self.width = w;
        self.height = h;
    }

    pub fn top_left(&self) -> (r: Point)
        ensures
            r.x == self.spec_x() && r.y == self.spec_y(),
    {
        Point::new(self.x as usize, self.y as usize)
    }

    pub fn top_left_padded(&self) -> (r: Point)
        requires
            self.spec_x() + self.pad_left() <= u16::MAX,
            self.spec_y() + self.pad_top() <= u16::MAX,
        ensures
            r.x == self.spec_x() + self.pad_left(),
            r.y == self.spec_y() + self.pad_top(),
    {
        let x = (self.x + self.padding.left) as usize;
        let y = (self.y + self.padding.top) as usize;
        Point::new(x, y)
    }

    pub fn top_right(&self) -> (r: Point)
        requires
            self.spec_x() + self.spec_width() <= u16::MAX,
        ensures
            r.x == self.spec_x() + self.spec_width(),
            r.y == self.spec_y(),
    {
        let x = self.x + self.width;
        Point::new(x as usize, self.y as usize)
    }

    pub fn top_right_padded(&self) -> (r: Point)
        requires
            self.pad_right() <= self.spec_width(),
            self.spec_y() + self.pad_top() <= u16::MAX,
        ensures
            r.x == self.spec_width() - self.pad_right(),
            r.y == self.spec_y() + self.pad_top(),
    {
        let x = (self.width - self.padding.right) as usize;
        let y = (self.y + self.padding.top) as usize;
        Point::new(x, y)
    }

    pub fn bottom_left(&self) -> (r: Point)
        requires
            self.spec_y() + self.spec_height() <= u16::MAX,
        ensures
            r.x == self.spec_x(),
            r.y == self.spec_y() + self.spec_height(),
    {
        let y = self.y + self.height;
        Point::new(self.x as usize, y as usize)
    }

    pub fn bottom_left_padded(&self) -> (r: Point)
        requires
            self.spec_x() + self.pad_left() <= u16::MAX,
            self.pad_bottom() <= self.spec_y() + self.spec_height(),
            self.spec_y() + self.spec_height() <= u16::MAX,
        ensures
            r.x == self.spec_x() + self.pad_left(),
            r.y == self.spec_y() + self.spec_height() - self.pad_bottom(),
    {
        let x = (self.x + self.padding.left) as usize;
        let y = (self.y + self.height - self.padding.bottom) as usize;
        Point::new(x, y)
    }

    pub fn bottom_right(&self) -> (r: Point)
        requires
            self.spec_x() + self.spec_width() <= u16::MAX,
            self.spec_y() + self.spec_height() <= u16::MAX,
        ensures
            r.x == self.spec_x() + self.spec_width(),
            r.y == self.spec_y() + self.spec_height(),
    {
        let x = self.x + self.width;
        let y = self.y + self.height;
        Point::new(x as usize, y as usize)
    }

    pub fn width(&self) -> (r: u16)
        ensures
            r == self.spec_width(),
    {
        self.width
    }

    pub fn height(&self) -> (r: u16)
        ensures
            r == self.spec_height(),
    {
        self.height
    }

    /// The point `(x, y)` away from the rectangle's anchor.
    pub fn point(&self, x: u16, y: u16) -> (r: Point)
        requires
            self.spec_x() + x <= u16::MAX,
            self.spec_y() + y <= u16::MAX,
        ensures
            r.x == self.spec_x() + x,
            r.y == self.spec_y() + y,
    {
        let x = self.x + x;
        let y = self.y + y;
        Point::new(x as usize, y as usize)
    }
}

impl Default for Rect {
    fn default() -> (r: Self)
        ensures
            r.spec_x() == 0 && r.spec_y() == 0,
            r.spec_width() == 0 && r.spec_height() == 0,
            r.pad_top() == 0 && r.pad_right() == 0 && r.pad_bottom() == 0 && r.pad_left() == 0,
    {
        Rect { x: 0, y: 0, width: 0, height: 0, padding: RectPadd::none() }
    }
}

/// A peek into a value's fields, one line of text per fact, for the
/// presentation layer's debug pane.
pub trait GhiDebug {
    fn debug(&self) -> Vec<String>;
}

impl GhiDebug for Rect {
    fn debug(&self) -> Vec<String> {
        let mut out: Vec<String> = Vec::new();
        out.push(label_value("x: ", u16_string(self.x)));
        out.push(label_value("y: ", u16_string(self.y)));
        out.push(label_value("width: ", u16_string(self.width)));
        out.push(label_value("height: ", u16_string(self.height)));
        out.push(label_value("padding: ", self.padding.render()));
        out
    }
}

/// The label followed by the value.
fn label_value(label: &str, value: String) -> (r: String)
    ensures
        r@ == label@ + value@,
{
    let mut v = chars_of(label);
    let mut rest = chars_of(value.as_str());
    v.append(&mut rest);
    string_from_chars(&v)
}

} // verus!
