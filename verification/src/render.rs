//! Filling an image: the background gradient, the list of pixels to render, and
//! the storing of rendered pixels in whatever order they arrive.

use vstd::prelude::*;
use crate::buffer::{lemma_pixels_apart, pixel_at, pixel_offset, with_pixel, Buffer, Point, Rgb};

verus! {

/// The background colour of column `x` of row `y` in an image of the given
/// size: red grows from left to right, blue from top to bottom.
pub open spec fn gradient(x: int, y: int, width: int, height: int) -> (u8, u8, u8) {
    ((x * 256 / width) as u8, 0u8, (y * 256 / height) as u8)
}

fn gradient_step(position: u32, extent: u32) -> (level: u8)
    requires
        position < extent,
    ensures
        level == (position * 256 / (extent as int)) as u8,
        position * 256 / (extent as int) < 256,
{
    assert(position * 256 / (extent as int) < 256) by (nonlinear_arith)
        requires
            0 <= position < extent,
    ;
    ((position as u64 * 256) / (extent as u64)) as u8
}

/// Paints the gradient over every pixel of the image. Bytes behind the image
/// stay as they are.
pub fn background(buffer: &mut Buffer)
    requires
        old(buffer).holds_image(),
    ensures
        final(buffer).spec_width() == old(buffer).spec_width(),
        final(buffer).spec_height() == old(buffer).spec_height(),
        final(buffer)@.len() == old(buffer)@.len(),
        forall|x: int, y: int|
            0 <= x < old(buffer).spec_width() && 0 <= y < old(buffer).spec_height()
                ==> #[trigger] final(buffer).pixel(x, y) == gradient(
                x,
                y,
                old(buffer).spec_width() as int,
                old(buffer).spec_height() as int,
            ),
        forall|i: int|
            3 * old(buffer).spec_width() * old(buffer).spec_height() <= i < old(buffer)@.len()
                ==> final(buffer)@[i] == old(buffer)@[i],
{
    let width: u32 = *buffer.width();
    let height: u32 = *buffer.height();
    let mut x: u32 = 0;
    while x < width
        invariant
            x <= width,
            buffer.holds_image(),
            buffer.spec_width() == width,
            buffer.spec_height() == height,
            old(buffer).spec_width() == width,
            old(buffer).spec_height() == height,
            buffer@.len() == old(buffer)@.len(),
            forall|a: int, b: int|
                0 <= a < x && 0 <= b < height ==> #[trigger] buffer.pixel(a, b) == gradient(
                    a,
                    b,
                    width as int,
                    height as int,
                ),
            forall|i: int|
                3 * width * height <= i < buffer@.len() ==> buffer@[i] == old(buffer)@[i],
        decreases width - x,
    {
        let mut y: u32 = 0;
        while y < height
            invariant
                x < width,
                y <= height,
                buffer.holds_image(),
                buffer.spec_width() == width,
                buffer.spec_height() == height,
                buffer@.len() == old(buffer)@.len(),
                forall|a: int, b: int|
                    0 <= a < x && 0 <= b < height ==> #[trigger] buffer.pixel(a, b) == gradient(
                        a,
                        b,
                        width as int,
                        height as int,
                    ),
                forall|b: int|
                    0 <= b < y ==> #[trigger] buffer.pixel(x as int, b) == gradient(
                        x as int,
                        b,
                        width as int,
                        height as int,
                    ),
                forall|i: int|
                    3 * width * height <= i < buffer@.len() ==> buffer@[i] == old(buffer)@[i],
            decreases height - y,
        {
            let ghost before = *buffer;
            let point = Point(x, y);
            let color = Rgb::new(gradient_step(x, width), 0, gradient_step(y, height));
            proof {
                before.lemma_image_has_pixel(point);
                lemma_pixels_apart(width as int, height as int, x as int, y as int, 0, 0);
            }
            buffer.set(&point, &color);
            proof {
                assert forall|a: int, b: int|
                    0 <= a < width && 0 <= b < height && (a != x || b != y) implies (
                #[trigger] buffer.pixel(a, b)) == before.pixel(a, b) by {
                    lemma_pixels_apart(width as int, height as int, a, b, x as int, y as int);
                }
            }
            y += 1;
        }
        x += 1;
    }
}

/// Where the pixel in column `x` of row `y` stands in the list of pixels.
pub open spec fn task_index(x: int, y: int, height: int) -> int {
    x * height + y
}

/// Every pixel of an image of the given size, column after column, each
/// column from top to bottom: one rendering task for each.
pub fn pixels(width: u32, height: u32) -> (all: Vec<Point>)
    requires
        width * height <= usize::MAX,
    ensures
        all@.len() == width * height,
        forall|x: int, y: int|
            0 <= x < width && 0 <= y < height ==> all@[#[trigger] task_index(x, y, height as int)].0
                == x && all@[task_index(x, y, height as int)].1 == y,
{
    let mut all: Vec<Point> = Vec::new();
    let mut x: u32 = 0;
    while x < width
        invariant
            x <= width,
            all@.len() == x * height,
            forall|a: int, b: int|
                0 <= a < x && 0 <= b < height ==> all@[#[trigger] task_index(a, b, height as int)].0
                    == a && all@[task_index(a, b, height as int)].1 == b,
        decreases width - x,
    {
        let mut y: u32 = 0;
        while y < height
            invariant
                x < width,
                y <= height,
                all@.len() == x * height + y,
                forall|a: int, b: int|
                    0 <= a < x && 0 <= b < height ==> all@[#[trigger] task_index(
                        a,
                        b,
                        height as int,
                    )].0 == a && all@[task_index(a, b, height as int)].1 == b,
                forall|b: int|
                    0 <= b < y ==> all@[#[trigger] task_index(x as int, b, height as int)].0 == x
                        && all@[task_index(x as int, b, height as int)].1 == b,
            decreases height - y,
        {
            proof {
                assert forall|a: int, b: int| 0 <= a < x && 0 <= b < height implies 0
                    <= #[trigger] task_index(a, b, height as int) < x * height by {
                    assert(0 <= a * height && a * height + height <= x * height)
                        by (nonlinear_arith)
                        requires
                            0 <= a < x,
                            0 <= height,
                    ;
                }
            }
            all.push(Point(x, y));
            y += 1;
        }
        proof {
            assert((x + 1) * height == x * height + height) by (nonlinear_arith);
        }
        x += 1;
    }
    all
}

/// The bytes of an image after the rendered pixels were stored one after
/// another, each given by its column, its row and its colour.
pub open spec fn drawn(bytes: Seq<u8>, width: int, rendered: Seq<(u32, u32, Rgb)>) -> Seq<u8>
    decreases rendered.len(),
{
    if rendered.len() == 0 {
        bytes
    } else {
        with_pixel(
            drawn(bytes, width, rendered.drop_last()),
            pixel_offset(rendered.last().0 as int, rendered.last().1 as int, width),
            rendered.last().2@,
        )
    }
}

/// Every rendered pixel lies inside an image of the given size.
pub open spec fn all_inside(rendered: Seq<(u32, u32, Rgb)>, width: int, height: int) -> bool {
    forall|k: int|
        0 <= k < rendered.len() ==> (#[trigger] rendered[k]).0 < width && rendered[k].1 < height
}

/// Storing pixels that lie inside the image keeps the number of bytes.
pub proof fn lemma_drawn_len(
    bytes: Seq<u8>,
    width: int,
    height: int,
    rendered: Seq<(u32, u32, Rgb)>,
)
    requires
        all_inside(rendered, width, height),
        3 * width * height <= bytes.len(),
    ensures
        drawn(bytes, width, rendered).len() == bytes.len(),
    decreases rendered.len(),
{
    if rendered.len() > 0 {
        lemma_drawn_len(bytes, width, height, rendered.drop_last());
        let last = rendered.last();
        lemma_pixels_apart(width, height, last.0 as int, last.1 as int, 0, 0);
    }
}

/// A rendered pixel that no later one overwrites is what the image shows at
/// its position.
pub proof fn lemma_drawn_shows(
    bytes: Seq<u8>,
    width: int,
    height: int,
    rendered: Seq<(u32, u32, Rgb)>,
    k: int,
)
    requires
        all_inside(rendered, width, height),
        3 * width * height <= bytes.len(),
        0 <= k < rendered.len(),
        forall|j: int|
            k < j < rendered.len() ==> (#[trigger] rendered[j]).0 != rendered[k].0 || rendered[j].1
                != rendered[k].1,
    ensures
        pixel_at(
            drawn(bytes, width, rendered),
            pixel_offset(rendered[k].0 as int, rendered[k].1 as int, width),
        ) == rendered[k].2@,
    decreases rendered.len(),
{
    let earlier = rendered.drop_last();
    let last = rendered.last();
    lemma_drawn_len(bytes, width, height, earlier);
    lemma_pixels_apart(
        width,
        height,
        rendered[k].0 as int,
        rendered[k].1 as int,
        last.0 as int,
        last.1 as int,
    );
    lemma_pixels_apart(
        width,
        height,
        last.0 as int,
        last.1 as int,
        rendered[k].0 as int,
        rendered[k].1 as int,
    );
    if k < rendered.len() - 1 {
        assert(earlier[k] == rendered[k]);
        assert forall|j: int| k < j < earlier.len() implies (#[trigger] earlier[j]).0
            != earlier[k].0 || earlier[j].1 != earlier[k].1 by {
            assert(earlier[j] == rendered[j]);
        }
        lemma_drawn_shows(bytes, width, height, earlier, k);
        assert(rendered[rendered.len() - 1].0 != rendered[k].0 || rendered[rendered.len() - 1].1
            != rendered[k].1);
    }
}

/// A position inside the image that no rendered pixel names keeps the colour
/// it had.
pub proof fn lemma_drawn_keeps(
    bytes: Seq<u8>,
    width: int,
    height: int,
    rendered: Seq<(u32, u32, Rgb)>,
    x: int,
    y: int,
)
    requires
        all_inside(rendered, width, height),
        3 * width * height <= bytes.len(),
        0 <= x < width,
        0 <= y < height,
        forall|j: int|
            0 <= j < rendered.len() ==> (#[trigger] rendered[j]).0 != x || rendered[j].1 != y,
    ensures
        pixel_at(drawn(bytes, width, rendered), pixel_offset(x, y, width)) == pixel_at(
            bytes,
            pixel_offset(x, y, width),
        ),
    decreases rendered.len(),
{
    if rendered.len() > 0 {
        let earlier = rendered.drop_last();
        let last = rendered.last();
        lemma_drawn_len(bytes, width, height, earlier);
        assert forall|j: int| 0 <= j < earlier.len() implies (#[trigger] earlier[j]).0 != x
            || earlier[j].1 != y by {
            assert(earlier[j] == rendered[j]);
        }
        lemma_drawn_keeps(bytes, width, height, earlier, x, y);
        assert(rendered[rendered.len() - 1].0 != x || rendered[rendered.len() - 1].1 != y);
        lemma_pixels_apart(width, height, x, y, last.0 as int, last.1 as int);
        lemma_pixels_apart(width, height, last.0 as int, last.1 as int, x, y);
    }
}

/// No position occurs twice among the rendered pixels.
pub open spec fn each_once(rendered: Seq<(u32, u32, Rgb)>) -> bool {
    forall|i: int, j: int|
        0 <= i < j < rendered.len() ==> (#[trigger] rendered[i]).0 != (#[trigger] rendered[j]).0
            || rendered[i].1 != rendered[j].1
}

/// The finished image does not depend on the order in which the rendered
/// pixels arrive: where every pixel is rendered at most once, two orders of the
/// same rendered pixels leave the same colour at every position of the image.
pub proof fn lemma_draw_ignores_order(
    bytes: Seq<u8>,
    width: int,
    height: int,
    a: Seq<(u32, u32, Rgb)>,
    b: Seq<(u32, u32, Rgb)>,
)
    requires
        3 * width * height <= bytes.len(),
        all_inside(a, width, height),
        all_inside(b, width, height),
        each_once(a),
        each_once(b),
        a.to_multiset() == b.to_multiset(),
    ensures
        forall|x: int, y: int|
            0 <= x < width && 0 <= y < height ==> pixel_at(
                drawn(bytes, width, a),
                #[trigger] pixel_offset(x, y, width),
            ) == pixel_at(drawn(bytes, width, b), pixel_offset(x, y, width)),
{
    a.to_multiset_ensures();
    b.to_multiset_ensures();
    assert forall|x: int, y: int| 0 <= x < width && 0 <= y < height implies pixel_at(
        drawn(bytes, width, a),
        #[trigger] pixel_offset(x, y, width),
    ) == pixel_at(drawn(bytes, width, b), pixel_offset(x, y, width)) by {
        if exists|k: int| 0 <= k < a.len() && (#[trigger] a[k]).0 == x && a[k].1 == y {
            let k = choose|k: int| 0 <= k < a.len() && (#[trigger] a[k]).0 == x && a[k].1 == y;
            assert(a.contains(a[k]));
            assert(b.to_multiset().count(a[k]) > 0);
            let m = choose|m: int| 0 <= m < b.len() && b[m] == a[k];
            lemma_drawn_shows(bytes, width, height, a, k);
            lemma_drawn_shows(bytes, width, height, b, m);
        } else {
            assert forall|m: int| 0 <= m < b.len() implies (#[trigger] b[m]).0 != x || b[m].1
                != y by {
                assert(b.contains(b[m]));
                assert(a.to_multiset().count(b[m]) > 0);
                let k = choose|k: int| 0 <= k < a.len() && a[k] == b[m];
                assert(a[k].0 != x || a[k].1 != y);
            }
            lemma_drawn_keeps(bytes, width, height, a, x, y);
            lemma_drawn_keeps(bytes, width, height, b, x, y);
        }
    }
}

/// Some rendered pixel lies in column `x` of row `y`.
pub open spec fn renders(rendered: Seq<(u32, u32, Rgb)>, x: int, y: int) -> bool {
    exists|k: int| 0 <= k < rendered.len() && (#[trigger] rendered[k]).0 == x && rendered[k].1 == y
}

/// Every pixel of an image of the given size was rendered, once, and nothing
/// else.
pub open spec fn is_whole_image(rendered: Seq<(u32, u32, Rgb)>, width: int, height: int) -> bool {
    &&& all_inside(rendered, width, height)
    &&& each_once(rendered)
    &&& forall|x: int, y: int|
        0 <= x < width && 0 <= y < height ==> #[trigger] renders(rendered, x, y)
}

/// Inside an image every pixel has a place of its own in the list of pixels.
pub proof fn lemma_tasks_apart(width: int, height: int, x1: int, y1: int, x2: int, y2: int)
    requires
        0 <= x1 < width,
        0 <= y1 < height,
        0 <= x2 < width,
        0 <= y2 < height,
    ensures
        0 <= task_index(x1, y1, height) < width * height,
        (x1 != x2 || y1 != y2) ==> task_index(x1, y1, height) != task_index(x2, y2, height),
{
    assert(0 <= x1 * height && x1 * height + height <= width * height) by (nonlinear_arith)
        requires
            0 <= x1 < width,
            0 <= height,
    ;
    if x1 < x2 {
        assert(x1 * height + height <= x2 * height) by (nonlinear_arith)
            requires
                x1 < x2,
                0 <= height,
        ;
    } else if x2 < x1 {
        assert(x2 * height + height <= x1 * height) by (nonlinear_arith)
            requires
                x2 < x1,
                0 <= height,
        ;
    }
}

/// Tells whether the rendered pixels are those of the whole image, each once:
/// whether every task has handed in its pixel.
pub fn is_complete(rendered: &Vec<(u32, u32, Rgb)>, width: u32, height: u32) -> (complete: bool)
    requires
        width * height <= usize::MAX,
    ensures
        complete == is_whole_image(rendered@, width as int, height as int),
{
    assert(0 <= width * height) by (nonlinear_arith)
        requires
            0 <= width,
            0 <= height,
    ;
    let size: usize = (width as usize) * (height as usize);
    let mut seen: Vec<bool> = Vec::new();
    let mut i: usize = 0;
    while i < size
        invariant
            i <= size,
            seen@.len() == i,
            forall|j: int| 0 <= j < i ==> !seen@[j],
        decreases size - i,
    {
        seen.push(false);
        i += 1;
    }
    proof {
        assert forall|x: int, y: int| 0 <= x < width && 0 <= y < height implies !seen@[
        #[trigger] task_index(x, y, height as int)] by {
            lemma_tasks_apart(width as int, height as int, x, y, 0, 0);
        }
    }
    let mut k: usize = 0;
    while k < rendered.len()
        invariant
            k <= rendered@.len(),
            size == width * height,
            seen@.len() == size,
            all_inside(rendered@.take(k as int), width as int, height as int),
            each_once(rendered@.take(k as int)),
            forall|x: int, y: int|
                0 <= x < width && 0 <= y < height ==> seen@[#[trigger] task_index(
                    x,
                    y,
                    height as int,
                )] == renders(rendered@.take(k as int), x, y),
        decreases rendered@.len() - k,
    {
        let x: u32 = rendered[k].0;
        let y: u32 = rendered[k].1;
        let ghost earlier = rendered@.take(k as int);
        let ghost now = rendered@.take(k + 1);
        if x >= width || y >= height {
            return false;
        }
        proof {
            lemma_tasks_apart(width as int, height as int, x as int, y as int, 0, 0);
        }
        let place: usize = (x as usize) * (height as usize) + (y as usize);
        if seen[place] {
            proof {
                assert(renders(earlier, x as int, y as int));
                let j = choose|j: int|
                    0 <= j < earlier.len() && (#[trigger] earlier[j]).0 == x && earlier[j].1 == y;
                assert(rendered@[j] == earlier[j]);
                assert(rendered@[j].0 == rendered@[k as int].0 && rendered@[j].1 == rendered@[k as int].1);
            }
            return false;
        }
        let ghost seen_before = seen@;
        seen.set(place, true);
        proof {
            assert forall|j: int| 0 <= j < now.len() implies (#[trigger] now[j]).0 < width
                && now[j].1 < height by {
                if j < k {
                    assert(now[j] == earlier[j]);
                }
            }
            assert forall|i: int, j: int| 0 <= i < j < now.len() implies (#[trigger] now[i]).0 != (
            #[trigger] now[j]).0 || now[i].1 != now[j].1 by {
                assert(now[i] == earlier[i]);
                if j < k {
                    assert(now[j] == earlier[j]);
                } else {
                    if now[i].0 == x && now[i].1 == y {
                        assert(renders(earlier, x as int, y as int));
                    }
                }
            }
            assert forall|a: int, b: int| 0 <= a < width && 0 <= b < height implies seen@[
            #[trigger] task_index(a, b, height as int)] == renders(now, a, b) by {
                lemma_tasks_apart(width as int, height as int, a, b, x as int, y as int);
                if a == x && b == y {
                    assert(now[k as int].0 == a && now[k as int].1 == b);
                } else {
                    if renders(earlier, a, b) {
                        let j = choose|j: int|
                            0 <= j < earlier.len() && (#[trigger] earlier[j]).0 == a
                                && earlier[j].1 == b;
                        assert(now[j] == earlier[j]);
                    }
                    if renders(now, a, b) {
                        let j = choose|j: int|
                            0 <= j < now.len() && (#[trigger] now[j]).0 == a && now[j].1 == b;
                        assert(j < k);
                        assert(now[j] == earlier[j]);
                    }
                }
            }
        }
        k += 1;
    }
    assert(rendered@.take(k as int) =~= rendered@);
    let mut x: u32 = 0;
    while x < width
        invariant
            x <= width,
            size == width * height,
            seen@.len() == size,
            all_inside(rendered@, width as int, height as int),
            each_once(rendered@),
            forall|a: int, b: int|
                0 <= a < width && 0 <= b < height ==> seen@[#[trigger] task_index(
                    a,
                    b,
                    height as int,
                )] == renders(rendered@, a, b),
            forall|a: int, b: int| 0 <= a < x && 0 <= b < height ==> renders(rendered@, a, b),
        decreases width - x,
    {
        let mut y: u32 = 0;
        while y < height
            invariant
                x < width,
                y <= height,
                size == width * height,
                seen@.len() == size,
                forall|a: int, b: int|
                    0 <= a < width && 0 <= b < height ==> seen@[#[trigger] task_index(
                        a,
                        b,
                        height as int,
                    )] == renders(rendered@, a, b),
                forall|a: int, b: int| 0 <= a < x && 0 <= b < height ==> renders(rendered@, a, b),
                forall|b: int| 0 <= b < y ==> renders(rendered@, x as int, b),
            decreases height - y,
        {
            proof {
                lemma_tasks_apart(width as int, height as int, x as int, y as int, 0, 0);
            }
            let place: usize = (x as usize) * (height as usize) + (y as usize);
            if !seen[place] {
                assert(seen@[task_index(x as int, y as int, height as int)] == renders(
                    rendered@,
                    x as int,
                    y as int,
                ));
                return false;
            }
            assert(seen@[task_index(x as int, y as int, height as int)] == renders(
                rendered@,
                x as int,
                y as int,
            ));
            y += 1;
        }
        x += 1;
    }
    true
}

/// Where every pixel was rendered once, the finished image shows at every
/// position the colour that was rendered for it, whatever was there before.
pub proof fn lemma_whole_image_shows(
    bytes: Seq<u8>,
    width: int,
    height: int,
    rendered: Seq<(u32, u32, Rgb)>,
)
    requires
        3 * width * height <= bytes.len(),
        is_whole_image(rendered, width, height),
    ensures
        forall|k: int|
            0 <= k < rendered.len() ==> pixel_at(
                drawn(bytes, width, rendered),
                pixel_offset((#[trigger] rendered[k]).0 as int, rendered[k].1 as int, width),
            ) == rendered[k].2@,
{
    assert forall|k: int| 0 <= k < rendered.len() implies pixel_at(
        drawn(bytes, width, rendered),
        pixel_offset((#[trigger] rendered[k]).0 as int, rendered[k].1 as int, width),
    ) == rendered[k].2@ by {
        lemma_drawn_shows(bytes, width, height, rendered, k);
    }
}

/// Stores the rendered pixels in the buffer, in the order in which they are
/// given.
pub fn draw(buffer: &mut Buffer, rendered: &Vec<(u32, u32, Rgb)>)
    requires
        old(buffer).holds_image(),
        all_inside(rendered@, old(buffer).spec_width() as int, old(buffer).spec_height() as int),
    ensures
        final(buffer).spec_width() == old(buffer).spec_width(),
        final(buffer).spec_height() == old(buffer).spec_height(),
        final(buffer)@ == drawn(old(buffer)@, old(buffer).spec_width() as int, rendered@),
{
    let mut k: usize = 0;
    while k < rendered.len()
        invariant
            k <= rendered@.len(),
            buffer.holds_image(),
            buffer.spec_width() == old(buffer).spec_width(),
            buffer.spec_height() == old(buffer).spec_height(),
            all_inside(rendered@, buffer.spec_width() as int, buffer.spec_height() as int),
            buffer@ == drawn(old(buffer)@, old(buffer).spec_width() as int, rendered@.take(k as int)),
        decreases rendered@.len() - k,
    {
        let point = Point(rendered[k].0, rendered[k].1);
        let color = rendered[k].2;
        proof {
            buffer.lemma_image_has_pixel(point);
            assert(rendered@.take(k + 1).drop_last() =~= rendered@.take(k as int));
        }
        buffer.set(&point, &color);
        k += 1;
    }
    assert(rendered@.take(k as int) =~= rendered@);
}

} // verus!
