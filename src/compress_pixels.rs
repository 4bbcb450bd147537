use vstd::prelude::*;
use crate::array2::{Array2, lemma_index_in_bounds, lemma_split_index, row_major_index};

verus! {

/// One pixel with 8-bit-range red, green and blue channels.
#[derive(Clone, Copy, Debug, PartialEq, Eq, Structural)]
pub struct Rgb {
    pub red: u16,
    pub green: u16,
    pub blue: u16,
}

/// `n` rounded down to an even number.
pub open spec fn even_down(n: int) -> int {
    n - n % 2
}

/// Width of the image trimmed to an even number of columns (the last column is
/// dropped when the width is odd).
pub fn even_width(img_array: Array2<Rgb>) -> (r: usize)
    ensures
        r == even_down(img_array.spec_width() as int),
{
    let w = img_array.width();
    if w % 2 != 0 {
        w - 1
    } else {
        w
    }
}

/// Height of the image trimmed to an even number of rows (the last row is
/// dropped when the height is odd).
pub fn even_height(img_array: Array2<Rgb>) -> (r: usize)
    ensures
        r == even_down(img_array.spec_height() as int),
{
    let h = img_array.height();
    if h % 2 != 0 {
        h - 1
    } else {
        h
    }
}

/// The top-left `width` x `height` part of `image`.
pub fn even_array2(image: Array2<Rgb>, width: usize, height: usize) -> (r: Array2<Rgb>)
    requires
        image.wf(),
        width <= image.spec_width(),
        height <= image.spec_height(),
    ensures
        r.wf(),
        r.spec_width() == width,
        r.spec_height() == height,
        forall|x: int, y: int|
            0 <= x < width && 0 <= y < height ==> #[trigger] r.at(x, y) == image.at(x, y),
{
    proof {
        assert(width * height <= image.spec_width() * image.spec_height()) by (nonlinear_arith)
            requires
                width <= image.spec_width(),
                height <= image.spec_height(),
        ;
    }
    let n = width * height;
    let mut temp_data: Vec<Rgb> = Vec::with_capacity(n);
    let mut k: usize = 0;
    while k < n
        invariant
            image.wf(),
            width <= image.spec_width(),
            height <= image.spec_height(),
            n == width * height,
            k <= n,
            temp_data@.len() == k,
            forall|j: int|
                0 <= j < k ==> #[trigger] temp_data@[j] == image.at(
                    j % width as int,
                    j / width as int,
                ),
        decreases n - k,
    {
        proof {
            lemma_split_index(k as int, width as int, height as int);
        }
        let x = k % width;
        let y = k / width;
        let pixel = image.get(x, y).unwrap();
        temp_data.push(*pixel);
        k = k + 1;
    }
    let r = Array2::from_row_major(width, height, &temp_data);
    assert forall|x: int, y: int| 0 <= x < width && 0 <= y < height implies #[trigger] r.at(x, y)
        == image.at(x, y) by {
        let j = row_major_index(x, y, width as int);
        lemma_index_in_bounds(x, y, width as int, height as int);
        vstd::arithmetic::div_mod::lemma_fundamental_div_mod_converse(j, width as int, y, x);
    }
    r
}

} // verus!
