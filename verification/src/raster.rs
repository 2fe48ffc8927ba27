//! A frame buffer of RGB pixels with its origin at the bottom left, and
//! line drawing on it.

use vstd::prelude::*;

verus! {

/// The buffers of a rasterizer.
#[derive(Debug, Clone, Copy, PartialEq, Eq, Structural)]
pub enum Buffers {
    Color,
    Depth,
    All,
}

/// What a list of indices describes.
#[derive(Debug, Clone, Copy, PartialEq, Eq, Structural)]
pub enum Primitive {
    Line,
    Triangle,
}

/// The handle of a list of positions.
#[derive(Debug, Clone, Copy)]
pub struct PosBufId(pub u32);

/// The handle of a list of indices.
#[derive(Debug, Clone, Copy)]
pub struct IndBufId(pub u32);

/// A colour: red, green and blue.
#[derive(Debug, Clone, Copy, PartialEq, Eq, Structural)]
pub struct Rgb(pub u8, pub u8, pub u8);

impl Default for Rgb {
    fn default() -> (r: Rgb)
        ensures
            r == Rgb(0, 0, 0),
    {
        Rgb(0, 0, 0)
    }
}

/// The greatest distance from the origin, along either axis, at which a line
/// may begin or end.
pub const MAX_COORDINATE: i32 = 0x2000_0000;

/// A line between two pixels: the pixels, and the line's extent along both
/// axes, with its direction as its sign.
#[derive(Debug, Clone, Copy)]
pub struct Segment {
    pub x1: i32,
    pub y1: i32,
    pub x2: i32,
    pub y2: i32,
    pub dx: i32,
    pub dy: i32,
}

impl Segment {
    /// No coordinate and no extent is farther from zero than
    /// `MAX_COORDINATE`.
    pub open spec fn in_range(self) -> bool {
        &&& -MAX_COORDINATE <= self.x1 <= MAX_COORDINATE
        &&& -MAX_COORDINATE <= self.y1 <= MAX_COORDINATE
        &&& -MAX_COORDINATE <= self.x2 <= MAX_COORDINATE
        &&& -MAX_COORDINATE <= self.y2 <= MAX_COORDINATE
        &&& -MAX_COORDINATE <= self.dx <= MAX_COORDINATE
        &&& -MAX_COORDINATE <= self.dy <= MAX_COORDINATE
    }

    /// Whether the line rises along the axis that it is walked along: both
    /// extents have the same sign, and neither is zero.
    pub open spec fn rises(self) -> bool {
        (self.dx < 0 && self.dy < 0) || (self.dx > 0 && self.dy > 0)
    }
}

/// The absolute value of `v`.
pub open spec fn magnitude(v: int) -> int {
    if v < 0 {
        -v
    } else {
        v
    }
}

/// The buffer with the pixel in column `x` of row `y`, counted from the
/// bottom, set to `color`; the buffer itself where there is no such pixel.
pub open spec fn plot(buf: Seq<Rgb>, width: int, height: int, x: int, y: int, color: Rgb) -> Seq<
    Rgb,
> {
    if 0 <= x < width && 0 <= y < height {
        buf.update((height - 1 - y) * width + x, color)
    } else {
        buf
    }
}

/// The buffer after a line that is wider than high has been walked from
/// column `x` to column `xe`: each step moves one column on, and one row up
/// or down when the error term `p` is not negative; the pixel reached is set.
pub open spec fn walk_columns(
    buf: Seq<Rgb>,
    width: int,
    height: int,
    x: int,
    y: int,
    xe: int,
    p: int,
    dx1: int,
    dy1: int,
    rises: bool,
    color: Rgb,
) -> Seq<Rgb>
    decreases xe - x,
{
    if x >= xe {
        buf
    } else {
        let y2 = if p < 0 {
            y
        } else if rises {
            y + 1
        } else {
            y - 1
        };
        let p_next = if p < 0 {
            p + 2 * dy1
        } else {
            p + 2 * (dy1 - dx1)
        };
        walk_columns(
            plot(buf, width, height, x + 1, y2, color),
            width,
            height,
            x + 1,
            y2,
            xe,
            p_next,
            dx1,
            dy1,
            rises,
            color,
        )
    }
}

/// The buffer after a line that is higher than wide has been walked from
/// row `y` to row `ye`: each step moves one row on, and one column right or
/// left when the error term `p` is positive; the pixel reached is set.
pub open spec fn walk_rows(
    buf: Seq<Rgb>,
    width: int,
    height: int,
    x: int,
    y: int,
    ye: int,
    p: int,
    dx1: int,
    dy1: int,
    rises: bool,
    color: Rgb,
) -> Seq<Rgb>
    decreases ye - y,
{
    if y >= ye {
        buf
    } else {
        let x2 = if p <= 0 {
            x
        } else if rises {
            x + 1
        } else {
            x - 1
        };
        let p_next = if p <= 0 {
            p + 2 * dx1
        } else {
            p + 2 * (dx1 - dy1)
        };
        walk_rows(
            plot(buf, width, height, x2, y + 1, color),
            width,
            height,
            x2,
            y + 1,
            ye,
            p_next,
            dx1,
            dy1,
            rises,
            color,
        )
    }
}

/// The buffer with the line `s` drawn in `color`. A line that is at least as
/// wide as high is walked column by column, from the end that lies to the
/// left as its extent says; any other line row by row, from the end that
/// lies below. The pixel at the starting end is set first.
pub open spec fn with_line(buf: Seq<Rgb>, width: int, height: int, s: Segment, color: Rgb) -> Seq<
    Rgb,
> {
    let dx1 = magnitude(s.dx as int);
    let dy1 = magnitude(s.dy as int);
    if dy1 <= dx1 {
        let (x, y, xe) = if s.dx >= 0 {
            (s.x1 as int, s.y1 as int, s.x2 as int)
        } else {
            (s.x2 as int, s.y2 as int, s.x1 as int)
        };
        walk_columns(
            plot(buf, width, height, x, y, color),
            width,
            height,
            x,
            y,
            xe,
            2 * dy1 - dx1,
            dx1,
            dy1,
            s.rises(),
            color,
        )
    } else {
        let (x, y, ye) = if s.dy >= 0 {
            (s.x1 as int, s.y1 as int, s.y2 as int)
        } else {
            (s.x2 as int, s.y2 as int, s.y1 as int)
        };
        walk_rows(
            plot(buf, width, height, x, y, color),
            width,
            height,
            x,
            y,
            ye,
            2 * dx1 - dy1,
            dx1,
            dy1,
            s.rises(),
            color,
        )
    }
}

/// The bytes of the first `n` pixels: red, green and blue of each.
pub open spec fn pixel_bytes(buf: Seq<Rgb>, n: nat) -> Seq<u8>
    decreases n,
{
    if n == 0 {
        Seq::<u8>::empty()
    } else {
        pixel_bytes(buf, (n - 1) as nat).push(buf[n - 1].0).push(buf[n - 1].1).push(buf[n - 1].2)
    }
}

/// What a `Rasterizer` holds: the pixels row by row from the top, the size
/// of the frame, and the next handle to give out.
pub struct RasterizerState {
    pub frame_buf: Seq<Rgb>,
    pub width: u32,
    pub height: u32,
    pub next_id: u32,
}

impl RasterizerState {
    /// The frame buffer holds one pixel for every place of the frame.
    pub open spec fn wf(self) -> bool {
        self.frame_buf.len() == self.width * self.height && self.width * self.height <= u32::MAX
    }
}

/// A frame buffer to draw on.
pub struct Rasterizer {
    frame_buf: Vec<Rgb>,
    width: u32,
    height: u32,
    next_id: u32,
}

impl View for Rasterizer {
    type V = RasterizerState;

    closed spec fn view(&self) -> RasterizerState {
        RasterizerState {
            frame_buf: self.frame_buf@,
            width: self.width,
            height: self.height,
            next_id: self.next_id,
        }
    }
}

impl Rasterizer {
    /// A black frame of the given size.
    pub fn new(width: u32, height: u32) -> (r: Rasterizer)
        requires
            width * height <= u32::MAX,
        ensures
            r@.wf(),
            r@ == (RasterizerState {
                frame_buf: Seq::new((width * height) as nat, |i: int| Rgb(0, 0, 0)),
                width,
                height,
                next_id: 0,
            }),
    {
        let frame_buf: Vec<Rgb> = vec![Rgb(0, 0, 0); (width * height) as usize];
        assert(frame_buf@ =~= Seq::new((width * height) as nat, |i: int| Rgb(0, 0, 0)));
        Rasterizer { frame_buf, width, height, next_id: 0 }
    }

    /// A handle for a list of positions: the next number.
    pub fn load_positions(&mut self) -> (id: PosBufId)
        requires
            old(self)@.next_id < u32::MAX,
        ensures
            id.0 == old(self)@.next_id,
            final(self)@ == (RasterizerState {
                next_id: (old(self)@.next_id + 1) as u32,
                ..old(self)@
            }),
    {
        let id = self.next_id;
        self.next_id = id + 1;
        PosBufId(id)
    }

    /// A handle for a list of indices: the next number.
    pub fn load_indices(&mut self) -> (id: IndBufId)
        requires
            old(self)@.next_id < u32::MAX,
        ensures
            id.0 == old(self)@.next_id,
            final(self)@ == (RasterizerState {
                next_id: (old(self)@.next_id + 1) as u32,
                ..old(self)@
            }),
    {
        let id = self.next_id;
        self.next_id = id + 1;
        IndBufId(id)
    }

    /// The place in the frame buffer of the pixel in column `x` of row `y`,
    /// counted from the bottom.
    pub fn get_index(&self, x: u32, y: u32) -> (i: u32)
        requires
            self@.wf(),
            x < self@.width,
            y < self@.height,
        ensures
            i == (self@.height - 1 - y) * self@.width + x,
            i < self@.frame_buf.len(),
    {
        proof {
            lemma_index_in_frame(self.width as int, self.height as int, x as int, y as int);
        }
        (self.height - 1 - y) * self.width + x
    }

    /// Sets the pixel in column `x` of row `y`, counted from the bottom, if
    /// the frame has such a pixel.
    pub fn set_pixel(&mut self, x: i32, y: i32, color: Rgb)
        requires
            old(self)@.wf(),
        ensures
            final(self)@.wf(),
            final(self)@ == (RasterizerState {
                frame_buf: plot(
                    old(self)@.frame_buf,
                    old(self)@.width as int,
                    old(self)@.height as int,
                    x as int,
                    y as int,
                    color,
                ),
                ..old(self)@
            }),
    {
        if x < 0 || y < 0 {
            return ;
        }
        if x as u32 >= self.width || y as u32 >= self.height {
            return ;
        }
        let ind = self.get_index(x as u32, y as u32);
        self.frame_buf[ind as usize] = color;
    }

    /// Draws the line `s` in `line_color`.
    pub fn draw_line(&mut self, s: Segment, line_color: Rgb)
        requires
            old(self)@.wf(),
            s.in_range(),
        ensures
            final(self)@.wf(),
            final(self)@ == (RasterizerState {
                frame_buf: with_line(
                    old(self)@.frame_buf,
                    old(self)@.width as int,
                    old(self)@.height as int,
                    s,
                    line_color,
                ),
                ..old(self)@
            }),
    {
        let dx = s.dx;
        let dy = s.dy;
        let dx1: i32 = if dx < 0 { -dx } else { dx };
        let dy1: i32 = if dy < 0 { -dy } else { dy };
        let rises = (dx < 0 && dy < 0) || (dx > 0 && dy > 0);
        let ghost target = with_line(
            self@.frame_buf,
            self@.width as int,
            self@.height as int,
            s,
            line_color,
        );
        let ghost w = self.width as int;
        let ghost h = self.height as int;

        if dy1 <= dx1 {
            let mut px: i32 = 2 * dy1 - dx1;
            let (start_x, start_y, xe) = if dx >= 0 {
                (s.x1, s.y1, s.x2)
            } else {
                (s.x2, s.y2, s.x1)
            };
            let mut x: i32 = start_x;
            let mut y: i32 = start_y;
            self.set_pixel(x, y, line_color);
            while x < xe
                invariant
                    self@.wf(),
                    self@.width == w,
                    self@.height == h,
                    self@.next_id == old(self)@.next_id,
                    0 <= dy1 <= dx1 <= MAX_COORDINATE,
                    -MAX_COORDINATE <= xe <= MAX_COORDINATE,
                    -MAX_COORDINATE <= x,
                    x <= xe || x == start_x,
                    -2 * dx1 <= px <= 2 * dy1,
                    -MAX_COORDINATE - (x - start_x) <= y <= MAX_COORDINATE + (x - start_x),
                    -MAX_COORDINATE <= start_x <= x,
                    target == walk_columns(
                        self@.frame_buf,
                        w,
                        h,
                        x as int,
                        y as int,
                        xe as int,
                        px as int,
                        dx1 as int,
                        dy1 as int,
                        rises,
                        line_color,
                    ),
                decreases xe - x,
            {
                x += 1;
                if px < 0 {
                    px += 2 * dy1;
                } else {
                    if rises {
                        y += 1;
                    } else {
                        y -= 1;
                    }
                    px += 2 * (dy1 - dx1);
                }
                self.set_pixel(x, y, line_color);
            }
        } else {
            let mut py: i32 = 2 * dx1 - dy1;
            let (start_x, start_y, ye) = if dy >= 0 {
                (s.x1, s.y1, s.y2)
            } else {
                (s.x2, s.y2, s.y1)
            };
            let mut x: i32 = start_x;
            let mut y: i32 = start_y;
            self.set_pixel(x, y, line_color);
            while y < ye
                invariant
                    self@.wf(),
                    self@.width == w,
                    self@.height == h,
                    self@.next_id == old(self)@.next_id,
                    0 <= dx1 < dy1 <= MAX_COORDINATE,
                    -MAX_COORDINATE <= ye <= MAX_COORDINATE,
                    -MAX_COORDINATE <= start_y <= y,
                    y <= ye || y == start_y,
                    -2 * dy1 <= py <= 2 * dx1,
                    -MAX_COORDINATE - (y - start_y) <= x <= MAX_COORDINATE + (y - start_y),
                    target == walk_rows(
                        self@.frame_buf,
                        w,
                        h,
                        x as int,
                        y as int,
                        ye as int,
                        py as int,
                        dx1 as int,
                        dy1 as int,
                        rises,
                        line_color,
                    ),
                decreases ye - y,
            {
                y += 1;
                if py <= 0 {
                    py += 2 * dx1;
                } else {
                    if rises {
                        x += 1;
                    } else {
                        x -= 1;
                    }
                    py += 2 * (dx1 - dy1);
                }
                self.set_pixel(x, y, line_color);
            }
        }
    }

    /// Draws the outline of a triangle: the side from the third corner to
    /// the first in the first colour, the side from the third to the second
    /// in the second, and the side from the second to the first in the third.
    pub fn rasterize_wireframe(&mut self, ca: Segment, cb: Segment, ba: Segment, color: [Rgb; 3])
        requires
            old(self)@.wf(),
            ca.in_range(),
            cb.in_range(),
            ba.in_range(),
        ensures
            final(self)@.wf(),
            final(self)@ == (RasterizerState {
                frame_buf: with_line(
                    with_line(
                        with_line(
                            old(self)@.frame_buf,
                            old(self)@.width as int,
                            old(self)@.height as int,
                            ca,
                            color[0],
                        ),
                        old(self)@.width as int,
                        old(self)@.height as int,
                        cb,
                        color[1],
                    ),
                    old(self)@.width as int,
                    old(self)@.height as int,
                    ba,
                    color[2],
                ),
                ..old(self)@
            }),
    {
        self.draw_line(ca, color[0]);
        self.draw_line(cb, color[1]);
        self.draw_line(ba, color[2]);
    }

    /// Clears the colour buffer to black, if `buff` names it.
    pub fn clear(&mut self, buff: Buffers)
        requires
            old(self)@.wf(),
        ensures
            final(self)@.wf(),
            final(self)@ == (RasterizerState {
                frame_buf: if buff == Buffers::Depth {
                    old(self)@.frame_buf
                } else {
                    Seq::new(old(self)@.frame_buf.len(), |i: int| Rgb(0, 0, 0))
                },
                ..old(self)@
            }),
    {
        match buff {
            Buffers::Depth => {},
            Buffers::Color | Buffers::All => {
                let n = self.frame_buf.len();
                let mut i: usize = 0;
                while i < n
                    invariant
                        i <= n,
                        n == self.frame_buf@.len(),
                        self.width == old(self).width,
                        self.height == old(self).height,
                        self.next_id == old(self).next_id,
                        forall|j: int| 0 <= j < i ==> self.frame_buf@[j] == Rgb(0, 0, 0),
                    decreases n - i,
                {
                    self.frame_buf[i] = Rgb(0, 0, 0);
                    i += 1;
                }
                assert(self.frame_buf@ =~= Seq::new(
                    old(self)@.frame_buf.len(),
                    |i: int| Rgb(0, 0, 0),
                ));
            },
        }
    }

    /// The frame as bytes: red, green and blue of every pixel, row by row
    /// from the top.
    pub fn data(&self) -> (bytes: Vec<u8>)
        ensures
            bytes@ == pixel_bytes(self@.frame_buf, self@.frame_buf.len()),
    {
        let mut bytes: Vec<u8> = Vec::new();
        let n = self.frame_buf.len();
        let mut i: usize = 0;
        while i < n
            invariant
                i <= n,
                n == self.frame_buf@.len(),
                bytes@ == pixel_bytes(self@.frame_buf, i as nat),
            decreases n - i,
        {
            let pixel = self.frame_buf[i];
            bytes.push(pixel.0);
            bytes.push(pixel.1);
            bytes.push(pixel.2);
            i += 1;
        }
        bytes
    }
}

/// The place of a pixel of the frame lies in the frame buffer.
proof fn lemma_index_in_frame(width: int, height: int, x: int, y: int)
    requires
        0 <= x < width,
        0 <= y < height,
    ensures
        0 <= (height - 1 - y) * width + x < width * height,
        0 <= (height - 1 - y) * width,
{
    let row = height - 1 - y;
    assert(0 <= row * width) by (nonlinear_arith)
        requires
            0 <= row,
            0 <= width,
    ;
    assert(row * width + width <= height * width) by (nonlinear_arith)
        requires
            row + 1 <= height,
            0 <= width,
    ;
    assert(height * width == width * height) by (nonlinear_arith);
}

} // verus!
