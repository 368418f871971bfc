//! Drawing thick lines and the detected quadrilateral onto a canvas.
use vstd::prelude::*;
use crate::canvas::{CANVAS_LEN, IMAGE_HEIGHT, IMAGE_WIDTH, in_image, pixel_index, lemma_pixel_index_bounds, lemma_pixel_index_distinct};

verus! {

/// Absolute value.
pub open spec fn abs(v: int) -> int {
    if v < 0 {
        -v
    } else {
        v
    }
}

/// The unit step that the line walk takes from `from` towards `to`.
pub open spec fn step_toward(from: int, to: int) -> int {
    if from < to {
        1
    } else {
        -1
    }
}

/// The points that the integer line walk (Bresenham) visits from `(x, y)`
/// with error term `err` towards `(x2, y2)`, taking at most `fuel` steps.
pub open spec fn walk(
    x: int,
    y: int,
    err: int,
    x2: int,
    y2: int,
    dx: int,
    dy: int,
    sx: int,
    sy: int,
    fuel: nat,
) -> Seq<(int, int)>
    decreases fuel,
{
    if (x == x2 && y == y2) || fuel == 0 {
        seq![(x, y)]
    } else {
        let e2 = 2 * err;
        let x_moves = e2 > -dy;
        let y_moves = e2 < dx;
        let nx = if x_moves {
            x + sx
        } else {
            x
        };
        let ny = if y_moves {
            y + sy
        } else {
            y
        };
        let nerr = err - (if x_moves {
            dy
        } else {
            0
        }) + (if y_moves {
            dx
        } else {
            0
        });
        seq![(x, y)] + walk(nx, ny, nerr, x2, y2, dx, dy, sx, sy, (fuel - 1) as nat)
    }
}

/// The points of the line from `(x1, y1)` to `(x2, y2)`, in the order in
/// which the line walk visits them.
pub open spec fn line_points(x1: int, y1: int, x2: int, y2: int) -> Seq<(int, int)> {
    let dx = abs(x2 - x1);
    let dy = abs(y2 - y1);
    walk(x1, y1, dx - dy, x2, y2, dx, dy, step_toward(x1, x2), step_toward(y1, y2), (dx + dy) as nat)
}

/// Half of a line thickness, as `(thickness as i32) / 2` computes it.
pub open spec fn half_thickness(thickness: u32) -> int {
    if thickness <= 0x7fff_ffff {
        (thickness / 2) as int
    } else {
        -((0x1_0000_0000 - thickness) / 2)
    }
}

/// Whether `(x, y)` lies in the square of radius `r` around `p`.
pub open spec fn near(p: (int, int), x: int, y: int, r: int) -> bool {
    p.0 - r <= x <= p.0 + r && p.1 - r <= y <= p.1 + r
}

/// Whether `(x, y)` lies in the square of radius `r` around some point of `path`.
pub open spec fn covered(path: Seq<(int, int)>, x: int, y: int, r: int) -> bool {
    exists|t: int| 0 <= t < path.len() && near(#[trigger] path[t], x, y, r)
}

/// The byte that painting with `color` leaves in channel `c` of a pixel.
pub open spec fn color_byte(color: (u8, u8, u8), c: int) -> u8 {
    if c == 0 {
        color.2
    } else if c == 1 {
        color.1
    } else {
        color.0
    }
}

proof fn lemma_covered_push(path: Seq<(int, int)>, p: (int, int), x: int, y: int, r: int)
    ensures
        covered(path.push(p), x, y, r) == (covered(path, x, y, r) || near(p, x, y, r)),
{
    let longer = path.push(p);
    if covered(path, x, y, r) {
        let t = choose|t: int| 0 <= t < path.len() && near(#[trigger] path[t], x, y, r);
        assert(longer[t] == path[t]);
    }
    if near(p, x, y, r) {
        assert(longer[path.len() as int] == p);
    }
    if covered(longer, x, y, r) {
        let t = choose|t: int| 0 <= t < longer.len() && near(#[trigger] longer[t], x, y, r);
        if t < path.len() {
            assert(longer[t] == path[t]);
        }
    }
}

/// Paints channel values of one pixel, if it lies on the canvas.
fn paint_pixel(pixels: &mut [u8], px: i64, py: i64, color: (u8, u8, u8))
    requires
        in_image(px as int, py as int) ==> pixel_index(px as int, py as int, 2) < old(pixels)@.len(),
    ensures
        final(pixels)@.len() == old(pixels)@.len(),
        forall|a: int, b: int, c: int|
            in_image(a, b) && 0 <= c < 3 && pixel_index(a, b, c) < old(pixels)@.len() ==> #[trigger] final(pixels)@[pixel_index(a, b, c)] == if a
                == px && b == py {
                color_byte(color, c)
            } else {
                old(pixels)@[pixel_index(a, b, c)]
            },
        forall|k: int|
            CANVAS_LEN <= k < final(pixels)@.len() ==> #[trigger] final(pixels)@[k] == old(
                pixels,
            )@[k],
{
    if px >= 0 && py >= 0 && px < IMAGE_WIDTH as i64 && py < IMAGE_HEIGHT as i64 {
        let offset = ((py * IMAGE_WIDTH as i64 + px) * 3) as usize;
        proof {
            lemma_pixel_index_bounds(px as int, py as int, 0);
            lemma_pixel_index_bounds(px as int, py as int, 2);
        }
        pixels[offset] = color.2;
        pixels[offset + 1] = color.1;
        pixels[offset + 2] = color.0;
        assert forall|a: int, b: int, c: int| in_image(a, b) && 0 <= c < 3 && pixel_index(a, b, c) < old(pixels)@.len() implies #[trigger] pixels@[pixel_index(a, b, c)]
            == if a == px && b == py {
            color_byte(color, c)
        } else {
            old(pixels)@[pixel_index(a, b, c)]
        } by {
            lemma_pixel_index_bounds(a, b, c);
            if pixel_index(a, b, c) == offset {
                lemma_pixel_index_distinct(a, b, c, px as int, py as int, 0);
            } else if pixel_index(a, b, c) == offset + 1 {
                lemma_pixel_index_distinct(a, b, c, px as int, py as int, 1);
            } else if pixel_index(a, b, c) == offset + 2 {
                lemma_pixel_index_distinct(a, b, c, px as int, py as int, 2);
            }
        }
    }
}

/// Paints the square of radius `r` around `(x, y)`, clipped to the canvas.
fn paint_block(pixels: &mut [u8], x: i64, y: i64, r: i64, color: (u8, u8, u8))
    requires
        forall|a: int, b: int|
            in_image(a, b) && near((x as int, y as int), a, b, r as int) ==> #[trigger] pixel_index(
                a,
                b,
                2,
            ) < old(pixels)@.len(),
        -0x8000_0000 <= x < 0x8000_0000,
        -0x8000_0000 <= y < 0x8000_0000,
        -0x4000_0000 <= r <= 0x4000_0000,
    ensures
        final(pixels)@.len() == old(pixels)@.len(),
        forall|a: int, b: int, c: int|
            in_image(a, b) && 0 <= c < 3 && pixel_index(a, b, c) < old(pixels)@.len() ==> #[trigger] final(pixels)@[pixel_index(a, b, c)] == if near(
                (x as int, y as int),
                a,
                b,
                r as int,
            ) {
                color_byte(color, c)
            } else {
                old(pixels)@[pixel_index(a, b, c)]
            },
        forall|k: int|
            CANVAS_LEN <= k < final(pixels)@.len() ==> #[trigger] final(pixels)@[k] == old(
                pixels,
            )@[k],
{
    let mut ddx: i64 = -r;
    while ddx <= r
        invariant
            pixels@.len() == old(pixels)@.len(),
            forall|a: int, b: int|
                in_image(a, b) && near((x as int, y as int), a, b, r as int) ==> #[trigger] pixel_index(
                    a,
                    b,
                    2,
                ) < old(pixels)@.len(),
            -0x8000_0000 <= x < 0x8000_0000,
            -0x8000_0000 <= y < 0x8000_0000,
            -0x4000_0000 <= r <= 0x4000_0000,
            r >= 0 ==> -r <= ddx <= r + 1,
            r < 0 ==> ddx == -r,
            forall|a: int, b: int, c: int|
                in_image(a, b) && 0 <= c < 3 && pixel_index(a, b, c) < old(pixels)@.len() ==> #[trigger] pixels@[pixel_index(a, b, c)] == if -r
                    <= a - x < ddx && -r <= b - y <= r {
                    color_byte(color, c)
                } else {
                    old(pixels)@[pixel_index(a, b, c)]
                },
            forall|k: int|
                CANVAS_LEN <= k < pixels@.len() ==> #[trigger] pixels@[k] == old(pixels)@[k],
        decreases r + 1 - ddx,
    {
        let mut ddy: i64 = -r;
        while ddy <= r
            invariant
                pixels@.len() == old(pixels)@.len(),
                forall|a: int, b: int|
                    in_image(a, b) && near((x as int, y as int), a, b, r as int) ==> #[trigger] pixel_index(
                        a,
                        b,
                        2,
                    ) < old(pixels)@.len(),
                -0x8000_0000 <= x < 0x8000_0000,
                -0x8000_0000 <= y < 0x8000_0000,
                0 <= r <= 0x4000_0000,
                -r <= ddx <= r,
                -r <= ddy <= r + 1,
                forall|a: int, b: int, c: int|
                    in_image(a, b) && 0 <= c < 3 && pixel_index(a, b, c) < old(pixels)@.len() ==> #[trigger] pixels@[pixel_index(a, b, c)] == if (-r
                        <= a - x < ddx && -r <= b - y <= r) || (a - x == ddx && -r <= b - y < ddy) {
                        color_byte(color, c)
                    } else {
                        old(pixels)@[pixel_index(a, b, c)]
                    },
                forall|k: int|
                    CANVAS_LEN <= k < pixels@.len() ==> #[trigger] pixels@[k] == old(pixels)@[k],
            decreases r + 1 - ddy,
        {
            paint_pixel(pixels, x + ddx, y + ddy, color);
            ddy = ddy + 1;
        }
        ddx = ddx + 1;
    }
}

/// One step of the line walk moves at least one coordinate, and never past
/// the end point.
proof fn lemma_walk_step(dx: int, dy: int, i: int, j: int, err: int)
    requires
        0 <= i <= dx,
        0 <= j <= dy,
        !(i == dx && j == dy),
        err == dx + dx * j - dy - dy * i,
    ensures
        2 * err > -dy ==> i < dx,
        2 * err < dx ==> j < dy,
        2 * err > -dy || 2 * err < dx,
{
    if i == dx {
        assert(dx * j <= dx * (dy - 1)) by (nonlinear_arith)
            requires
                0 <= dx,
                j <= dy - 1,
        ;
        assert(dx * (dy - 1) == dx * dy - dx) by (nonlinear_arith);
        assert(dy * i == dx * dy) by (nonlinear_arith)
            requires
                i == dx,
        ;
    }
    if j == dy {
        assert(dy * i <= dy * (dx - 1)) by (nonlinear_arith)
            requires
                0 <= dy,
                i <= dx - 1,
        ;
        assert(dy * (dx - 1) == dx * dy - dy) by (nonlinear_arith);
        assert(dx * j == dx * dy) by (nonlinear_arith)
            requires
                j == dy,
        ;
    }
}

/// Half of a line thickness, as `(thickness as i32) / 2` computes it.
fn half_thickness_of(thickness: u32) -> (r: i64)
    ensures
        r == half_thickness(thickness),
        -0x4000_0000 <= r <= 0x4000_0000,
{
    if thickness <= 0x7fff_ffff {
        (thickness / 2) as i64
    } else {
        -(((0x1_0000_0000u64 - thickness as u64) / 2) as i64)
    }
}

/// Draws a line of the given thickness from `(x1, y1)` to `(x2, y2)` with the
/// integer line walk, painting the square of radius `thickness / 2` around
/// every point it visits; what falls outside the canvas is clipped.
pub fn draw_thick_line_rgb(
    pixels: &mut [u8],
    x1: i32,
    y1: i32,
    x2: i32,
    y2: i32,
    color: (u8, u8, u8),
    thickness: u32,
)
    requires
        forall|a: int, b: int|
            in_image(a, b) && covered(
                line_points(x1 as int, y1 as int, x2 as int, y2 as int),
                a,
                b,
                half_thickness(thickness),
            ) ==> #[trigger] pixel_index(a, b, 2) < old(pixels)@.len(),
    ensures
        final(pixels)@.len() == old(pixels)@.len(),
        forall|a: int, b: int, c: int|
            in_image(a, b) && 0 <= c < 3 && pixel_index(a, b, c) < old(pixels)@.len() ==> #[trigger] final(pixels)@[pixel_index(a, b, c)] == if covered(
                line_points(x1 as int, y1 as int, x2 as int, y2 as int),
                a,
                b,
                half_thickness(thickness),
            ) {
                color_byte(color, c)
            } else {
                old(pixels)@[pixel_index(a, b, c)]
            },
        forall|k: int|
            CANVAS_LEN <= k < final(pixels)@.len() ==> #[trigger] final(pixels)@[k] == old(
                pixels,
            )@[k],
{
    let mut x: i64 = x1 as i64;
    let mut y: i64 = y1 as i64;
    let tx: i64 = x2 as i64;
    let ty: i64 = y2 as i64;
    let dx: i64 = if x1 < x2 {
        tx - x
    } else {
        x - tx
    };
    let dy: i64 = if y1 < y2 {
        ty - y
    } else {
        y - ty
    };
    let x_inc: i64 = if x1 < x2 {
        1
    } else {
        -1
    };
    let y_inc: i64 = if y1 < y2 {
        1
    } else {
        -1
    };
    let mut error: i64 = dx - dy;
    let half_thick = half_thickness_of(thickness);
    let ghost path = line_points(x1 as int, y1 as int, x2 as int, y2 as int);
    let ghost mut visited: Seq<(int, int)> = Seq::empty();
    let ghost mut i: int = 0;
    let ghost mut j: int = 0;
    loop
        invariant_except_break
            path == visited + walk(
                x as int,
                y as int,
                error as int,
                x2 as int,
                y2 as int,
                dx as int,
                dy as int,
                x_inc as int,
                y_inc as int,
                (dx + dy - visited.len()) as nat,
            ),
            visited.len() <= i + j,
        invariant
            pixels@.len() == old(pixels)@.len(),
            forall|a: int, b: int|
                in_image(a, b) && covered(
                    line_points(x1 as int, y1 as int, x2 as int, y2 as int),
                    a,
                    b,
                    half_thickness(thickness),
                ) ==> #[trigger] pixel_index(a, b, 2) < old(pixels)@.len(),
            path == line_points(x1 as int, y1 as int, x2 as int, y2 as int),
            dx == abs(x2 - x1),
            dy == abs(y2 - y1),
            x_inc == step_toward(x1 as int, x2 as int),
            y_inc == step_toward(y1 as int, y2 as int),
            tx == x2,
            ty == y2,
            half_thick == half_thickness(thickness),
            -0x4000_0000 <= half_thick <= 0x4000_0000,
            0 <= i <= dx,
            0 <= j <= dy,
            x == if x1 < x2 {
                x1 + i
            } else {
                x1 - i
            },
            y == if y1 < y2 {
                y1 + j
            } else {
                y1 - j
            },
            error == dx + dx * j - dy - dy * i,
            -3 * dy <= 2 * error <= 3 * dx,
            forall|a: int, b: int, c: int|
                in_image(a, b) && 0 <= c < 3 && pixel_index(a, b, c) < old(pixels)@.len() ==> #[trigger] pixels@[pixel_index(a, b, c)] == if covered(
                    visited,
                    a,
                    b,
                    half_thick as int,
                ) {
                    color_byte(color, c)
                } else {
                    old(pixels)@[pixel_index(a, b, c)]
                },
            forall|k: int|
                CANVAS_LEN <= k < pixels@.len() ==> #[trigger] pixels@[k] == old(pixels)@[k],
        ensures
            visited == path,
        decreases (dx - i) + (dy - j),
    {
        let ghost before = pixels@;
        let ghost fuel: int = dx + dy - visited.len();
        proof {
            let w = walk(
                x as int,
                y as int,
                error as int,
                x2 as int,
                y2 as int,
                dx as int,
                dy as int,
                x_inc as int,
                y_inc as int,
                fuel as nat,
            );
            assert(w[0] == (x as int, y as int));
            assert(path[visited.len() as int] == (x as int, y as int));
            assert forall|a: int, b: int|
                in_image(a, b) && near((x as int, y as int), a, b, half_thick as int) implies #[trigger] pixel_index(
                a,
                b,
                2,
            ) < old(pixels)@.len() by {
                assert(near(path[visited.len() as int], a, b, half_thickness(thickness)));
                assert(covered(path, a, b, half_thickness(thickness)));
            }
        }
        paint_block(pixels, x, y, half_thick, color);
        proof {
            let p = (x as int, y as int);
            assert forall|a: int, b: int, c: int| in_image(a, b) && 0 <= c < 3 && pixel_index(a, b, c) < old(pixels)@.len() implies #[trigger] pixels@[pixel_index(a, b, c)]
                == if covered(visited.push(p), a, b, half_thick as int) {
                color_byte(color, c)
            } else {
                old(pixels)@[pixel_index(a, b, c)]
            } by {
                lemma_covered_push(visited, p, a, b, half_thick as int);
                assert(before[pixel_index(a, b, c)] == if covered(visited, a, b, half_thick as int) {
                    color_byte(color, c)
                } else {
                    old(pixels)@[pixel_index(a, b, c)]
                });
            }
            visited = visited.push(p);
        }
        if x == tx && y == ty {
            assert(visited =~= path);
            break;
        }
        proof {
            lemma_walk_step(dx as int, dy as int, i, j, error as int);
        }
        let ghost (px, py, perr) = (x as int, y as int, error as int);
        let error2 = error * 2;
        if error2 > -dy {
            error = error - dy;
            x = x + x_inc;
            proof {
                assert(dy * (i + 1) == dy * i + dy) by (nonlinear_arith);
                i = i + 1;
            }
        }
        if error2 < dx {
            error = error + dx;
            y = y + y_inc;
            proof {
                assert(dx * (j + 1) == dx * j + dx) by (nonlinear_arith);
                j = j + 1;
            }
        }
        proof {
            let rest = walk(
                x as int,
                y as int,
                error as int,
                x2 as int,
                y2 as int,
                dx as int,
                dy as int,
                x_inc as int,
                y_inc as int,
                (fuel - 1) as nat,
            );
            assert(walk(
                px,
                py,
                perr,
                x2 as int,
                y2 as int,
                dx as int,
                dy as int,
                x_inc as int,
                y_inc as int,
                fuel as nat,
            ) == seq![(px, py)] + rest);
            assert(path =~= visited + rest);
        }
    }
}

/// The colour of the quadrilateral, as (red, green, blue).
pub open spec fn green() -> (u8, u8, u8) {
    (0, 255, 0)
}

/// A `u32` read as an `i32` with the same bits, as `as i32` does.
pub open spec fn wrap_i32(v: u32) -> int {
    if v <= 0x7fff_ffff {
        v as int
    } else {
        v - 0x1_0000_0000
    }
}

/// The points of the edge from corner `i` to the next corner, cyclically.
pub open spec fn edge_points(points: Seq<(u32, u32)>, i: int) -> Seq<(int, int)> {
    let p = points[i];
    let q = points[(i + 1) % 4];
    line_points(wrap_i32(p.0), wrap_i32(p.1), wrap_i32(q.0), wrap_i32(q.1))
}

/// Whether pixel `(x, y)` lies on one of the first `n` edges drawn with
/// thickness two.
pub open spec fn on_edges(points: Seq<(u32, u32)>, n: int, x: int, y: int) -> bool {
    exists|i: int| 0 <= i < n && covered(#[trigger] edge_points(points, i), x, y, 1)
}

/// Whether pixel `(x, y)` lies on the outline of the quadrilateral through
/// the first four points.
pub open spec fn on_quadrilateral(points: Seq<(u32, u32)>, x: int, y: int) -> bool {
    on_edges(points, 4, x, y)
}

fn wrapping_i32(v: u32) -> (r: i32)
    ensures
        r == wrap_i32(v),
{
    if v <= 0x7fff_ffff {
        v as i32
    } else {
        (v as i64 - 0x1_0000_0000i64) as i32
    }
}

/// Draws the outline of the quadrilateral through the first four points in
/// green, with lines two pixels thick.
pub fn draw_green_rectangle(rgb_pixels: &mut [u8], points: &[(u32, u32)]) -> (res: Result<(), String>)
    requires
        forall|a: int, b: int|
            in_image(a, b) && on_quadrilateral(points@, a, b) ==> #[trigger] pixel_index(a, b, 2)
                < old(rgb_pixels)@.len(),
        points@.len() >= 4,
    ensures
        res is Ok,
        final(rgb_pixels)@.len() == old(rgb_pixels)@.len(),
        forall|a: int, b: int, c: int|
            in_image(a, b) && 0 <= c < 3 && pixel_index(a, b, c) < old(rgb_pixels)@.len() ==> #[trigger] final(rgb_pixels)@[pixel_index(a, b, c)]
                == if on_quadrilateral(points@, a, b) {
                color_byte(green(), c)
            } else {
                old(rgb_pixels)@[pixel_index(a, b, c)]
            },
        forall|k: int|
            CANVAS_LEN <= k < final(rgb_pixels)@.len() ==> #[trigger] final(rgb_pixels)@[k] == old(
                rgb_pixels,
            )@[k],
{
    let green: (u8, u8, u8) = (0, 255, 0);
    let line_thickness = 2u32;
    let mut i: usize = 0;
    while i < 4
        invariant
            0 <= i <= 4,
            points@.len() >= 4,
            green == crate::draw::green(),
            line_thickness == 2,
            rgb_pixels@.len() == old(rgb_pixels)@.len(),
            forall|a: int, b: int|
                in_image(a, b) && on_quadrilateral(points@, a, b) ==> #[trigger] pixel_index(a, b, 2)
                    < old(rgb_pixels)@.len(),
            forall|a: int, b: int, c: int|
                in_image(a, b) && 0 <= c < 3 && pixel_index(a, b, c) < old(rgb_pixels)@.len() ==> #[trigger] rgb_pixels@[pixel_index(a, b, c)] == if on_edges(
                    points@,
                    i as int,
                    a,
                    b,
                ) {
                    color_byte(green, c)
                } else {
                    old(rgb_pixels)@[pixel_index(a, b, c)]
                },
            forall|k: int|
                CANVAS_LEN <= k < rgb_pixels@.len() ==> #[trigger] rgb_pixels@[k] == old(rgb_pixels)@[k],
        decreases 4 - i,
    {
        let (x1, y1) = points[i];
        let (x2, y2) = points[(i + 1) % 4];
        let ghost before = rgb_pixels@;
        let from_x = wrapping_i32(x1);
        let from_y = wrapping_i32(y1);
        let to_x = wrapping_i32(x2);
        let to_y = wrapping_i32(y2);
        assert forall|a: int, b: int|
            in_image(a, b) && covered(
                line_points(from_x as int, from_y as int, to_x as int, to_y as int),
                a,
                b,
                half_thickness(line_thickness),
            ) implies #[trigger] pixel_index(a, b, 2) < rgb_pixels@.len() by {
            assert(edge_points(points@, i as int) == line_points(from_x as int, from_y as int, to_x as int, to_y as int));
            assert(on_edges(points@, 4, a, b));
        }
        draw_thick_line_rgb(
            rgb_pixels,
            from_x,
            from_y,
            to_x,
            to_y,
            green,
            line_thickness,
        );
        assert forall|a: int, b: int, c: int| in_image(a, b) && 0 <= c < 3 && pixel_index(a, b, c) < old(rgb_pixels)@.len() implies #[trigger] rgb_pixels@[pixel_index(a, b, c)]
            == if on_edges(points@, i + 1, a, b) {
            color_byte(green, c)
        } else {
            old(rgb_pixels)@[pixel_index(a, b, c)]
        } by {
            let e = edge_points(points@, i as int);
            assert(before[pixel_index(a, b, c)] == if on_edges(points@, i as int, a, b) {
                color_byte(green, c)
            } else {
                old(rgb_pixels)@[pixel_index(a, b, c)]
            });
            if covered(e, a, b, 1) {
                assert(on_edges(points@, i + 1, a, b));
            }
            if on_edges(points@, i + 1, a, b) && !covered(e, a, b, 1) {
                let k = choose|k: int| 0 <= k < i + 1 && covered(#[trigger] edge_points(points@, k), a, b, 1);
                assert(k != i);
                assert(on_edges(points@, i as int, a, b));
            }
            if on_edges(points@, i as int, a, b) {
                let k = choose|k: int| 0 <= k < i && covered(#[trigger] edge_points(points@, k), a, b, 1);
                assert(on_edges(points@, i + 1, a, b));
            }
        }
        i = i + 1;
    }
    Ok(())
}

proof fn lemma_walk_reaches_end(
    x1: int,
    y1: int,
    x2: int,
    y2: int,
    i: int,
    j: int,
    err: int,
    fuel: nat,
)
    requires
        0 <= i <= abs(x2 - x1),
        0 <= j <= abs(y2 - y1),
        err == abs(x2 - x1) + abs(x2 - x1) * j - abs(y2 - y1) - abs(y2 - y1) * i,
        fuel >= (abs(x2 - x1) - i) + (abs(y2 - y1) - j),
    ensures
        ({
            let w = walk(
                if x1 < x2 {
                    x1 + i
                } else {
                    x1 - i
                },
                if y1 < y2 {
                    y1 + j
                } else {
                    y1 - j
                },
                err,
                x2,
                y2,
                abs(x2 - x1),
                abs(y2 - y1),
                step_toward(x1, x2),
                step_toward(y1, y2),
                fuel,
            );
            w.len() >= 1 && w.last() == (x2, y2)
        }),
    decreases fuel,
{
    let dx = abs(x2 - x1);
    let dy = abs(y2 - y1);
    let x = if x1 < x2 {
        x1 + i
    } else {
        x1 - i
    };
    let y = if y1 < y2 {
        y1 + j
    } else {
        y1 - j
    };
    if i == dx && j == dy {
        assert(x == x2 && y == y2);
    } else {
        assert(!(x == x2 && y == y2));
        lemma_walk_step(dx, dy, i, j, err);
        let e2 = 2 * err;
        let ni = if e2 > -dy {
            i + 1
        } else {
            i
        };
        let nj = if e2 < dx {
            j + 1
        } else {
            j
        };
        let nerr = err - (if e2 > -dy {
            dy
        } else {
            0
        }) + (if e2 < dx {
            dx
        } else {
            0
        });
        assert(dy * (i + 1) == dy * i + dy) by (nonlinear_arith);
        assert(dx * (j + 1) == dx * j + dx) by (nonlinear_arith);
        assert(nerr == dx + dx * nj - dy - dy * ni);
        lemma_walk_reaches_end(x1, y1, x2, y2, ni, nj, nerr, (fuel - 1) as nat);
    }
}

/// The line walk starts at its first end point and stops at its second.
pub proof fn law_line_endpoints(x1: int, y1: int, x2: int, y2: int)
    ensures
        line_points(x1, y1, x2, y2).len() >= 1,
        line_points(x1, y1, x2, y2)[0] == (x1, y1),
        line_points(x1, y1, x2, y2).last() == (x2, y2),
{
    let dx = abs(x2 - x1);
    let dy = abs(y2 - y1);
    assert(dx * 0 == 0 && dy * 0 == 0) by (nonlinear_arith);
    lemma_walk_reaches_end(x1, y1, x2, y2, 0, 0, dx - dy, (dx + dy) as nat);
    assert(x1 == if x1 < x2 {
        x1 + 0
    } else {
        x1 - 0
    });
}

/// Every corner of the quadrilateral that lies on the canvas is drawn.
pub proof fn law_corners_are_drawn(points: Seq<(u32, u32)>, i: int)
    requires
        points.len() >= 4,
        0 <= i < 4,
    ensures
        on_quadrilateral(points, wrap_i32(points[i].0), wrap_i32(points[i].1)),
{
    let p = points[i];
    let q = points[(i + 1) % 4];
    law_line_endpoints(wrap_i32(p.0), wrap_i32(p.1), wrap_i32(q.0), wrap_i32(q.1));
    let e = edge_points(points, i);
    assert(near(e[0], wrap_i32(p.0), wrap_i32(p.1), 1));
    assert(covered(e, wrap_i32(p.0), wrap_i32(p.1), 1));
}

/// Whether `p` lies in the box spanned by the end points and within
/// `dx + dy` of the segment, measured as `|dx * row - dy * column|` from the
/// start (at most the square root of two pixels off the ideal line).
pub open spec fn close_to_segment(x1: int, y1: int, x2: int, y2: int, p: (int, int)) -> bool {
    let dx = abs(x2 - x1);
    let dy = abs(y2 - y1);
    &&& (if x1 < x2 { x1 <= p.0 <= x2 } else { x2 <= p.0 <= x1 })
    &&& (if y1 < y2 { y1 <= p.1 <= y2 } else { y2 <= p.1 <= y1 })
    &&& abs(dx * abs(p.1 - y1) - dy * abs(p.0 - x1)) <= dx + dy
}

/// The line walk from `(x1, y1)` towards `(x2, y2)` after `i` steps in x and
/// `j` steps in y, with error term `err`.
pub open spec fn walk_after(
    x1: int,
    y1: int,
    x2: int,
    y2: int,
    i: int,
    j: int,
    err: int,
    fuel: nat,
) -> Seq<(int, int)> {
    walk(
        if x1 < x2 {
            x1 + i
        } else {
            x1 - i
        },
        if y1 < y2 {
            y1 + j
        } else {
            y1 - j
        },
        err,
        x2,
        y2,
        abs(x2 - x1),
        abs(y2 - y1),
        step_toward(x1, x2),
        step_toward(y1, y2),
        fuel,
    )
}

proof fn lemma_walk_close(
    x1: int,
    y1: int,
    x2: int,
    y2: int,
    i: int,
    j: int,
    err: int,
    fuel: nat,
)
    requires
        0 <= i <= abs(x2 - x1),
        0 <= j <= abs(y2 - y1),
        err == abs(x2 - x1) + abs(x2 - x1) * j - abs(y2 - y1) - abs(y2 - y1) * i,
        -3 * abs(y2 - y1) <= 2 * err <= 3 * abs(x2 - x1),
    ensures
        forall|t: int|
            0 <= t < walk_after(x1, y1, x2, y2, i, j, err, fuel).len() ==> close_to_segment(
                x1,
                y1,
                x2,
                y2,
                #[trigger] walk_after(x1, y1, x2, y2, i, j, err, fuel)[t],
            ),
    decreases fuel,
{
    let dx = abs(x2 - x1);
    let dy = abs(y2 - y1);
    let x = if x1 < x2 {
        x1 + i
    } else {
        x1 - i
    };
    let y = if y1 < y2 {
        y1 + j
    } else {
        y1 - j
    };
    assert(abs(x - x1) == i && abs(y - y1) == j);
    assert(close_to_segment(x1, y1, x2, y2, (x, y)));
    let w = walk(x, y, err, x2, y2, dx, dy, step_toward(x1, x2), step_toward(y1, y2), fuel);
    if !((x == x2 && y == y2) || fuel == 0) {
        assert(!(i == dx && j == dy));
        lemma_walk_step(dx, dy, i, j, err);
        let e2 = 2 * err;
        let ni = if e2 > -dy {
            i + 1
        } else {
            i
        };
        let nj = if e2 < dx {
            j + 1
        } else {
            j
        };
        let nerr = err - (if e2 > -dy {
            dy
        } else {
            0
        }) + (if e2 < dx {
            dx
        } else {
            0
        });
        assert(dy * (i + 1) == dy * i + dy) by (nonlinear_arith);
        assert(dx * (j + 1) == dx * j + dx) by (nonlinear_arith);
        assert(nerr == dx + dx * nj - dy - dy * ni);
        lemma_walk_close(x1, y1, x2, y2, ni, nj, nerr, (fuel - 1) as nat);
        let rest = walk_after(x1, y1, x2, y2, ni, nj, nerr, (fuel - 1) as nat);
        assert(w == seq![(x, y)] + rest);
        assert forall|t: int| 0 <= t < w.len() implies close_to_segment(x1, y1, x2, y2, #[trigger] w[t]) by {
            if t > 0 {
                assert(w[t] == rest[t - 1]);
            }
        }
    }
}

/// Every point of the line walk lies between the end points and close to
/// the segment that joins them.
pub proof fn law_line_stays_close(x1: int, y1: int, x2: int, y2: int)
    ensures
        forall|t: int|
            0 <= t < line_points(x1, y1, x2, y2).len() ==> close_to_segment(
                x1,
                y1,
                x2,
                y2,
                #[trigger] line_points(x1, y1, x2, y2)[t],
            ),
{
    let dx = abs(x2 - x1);
    let dy = abs(y2 - y1);
    assert(dx * 0 == 0 && dy * 0 == 0) by (nonlinear_arith);
    lemma_walk_close(x1, y1, x2, y2, 0, 0, dx - dy, (dx + dy) as nat);
    assert(line_points(x1, y1, x2, y2) == walk_after(x1, y1, x2, y2, 0, 0, dx - dy, (dx + dy) as nat));
}

} // verus!
