use vstd::prelude::*;
use crate::array2::{Array2, lemma_index_in_bounds, row_major_index};

verus! {

/// Position in the codeword sequence of the block whose top-left corner is (x, y).
pub open spec fn block_index(x: int, y: int, width: int) -> int {
    (y / 2) * (width / 2) + x / 2
}

/// Top-left corner of the `k`-th block in row-major block order: block rows from
/// the top, and within a row, blocks from the left.
pub open spec fn block_origin(k: int, width: int) -> (int, int) {
    (2 * (k % (width / 2)), 2 * (k / (width / 2)))
}

/// Number of 2x2 blocks (and of codewords) of a `width` x `height` image.
pub open spec fn block_count(width: int, height: int) -> int {
    (width / 2) * (height / 2)
}

/// True iff a codeword sequence of length `n_words` can describe a
/// `width` x `height` image.
pub open spec fn layout_ok(width: int, height: int, n_words: int) -> bool {
    width % 2 == 0 && height % 2 == 0 && n_words == block_count(width, height)
}

/// The `k`-th block of row-major block order lies inside the image, and the
/// codeword index computed from its corner is `k`: compression and
/// decompression visit the blocks in the same order.
pub proof fn lemma_block_order(k: int, width: int, height: int)
    requires
        width >= 0,
        height >= 0,
        width % 2 == 0,
        height % 2 == 0,
        0 <= k < block_count(width, height),
    ensures
        0 <= block_origin(k, width).0 && block_origin(k, width).0 + 1 < width,
        0 <= block_origin(k, width).1 && block_origin(k, width).1 + 1 < height,
        block_origin(k, width).0 % 2 == 0,
        block_origin(k, width).1 % 2 == 0,
        block_index(block_origin(k, width).0, block_origin(k, width).1, width) == k,
{
    let bw = width / 2;
    let bh = height / 2;
    crate::array2::lemma_split_index(k, bw, bh);
    let (x, y) = block_origin(k, width);
    assert(x / 2 == k % bw);
    assert(y / 2 == k / bw);
    vstd::arithmetic::mul::lemma_mul_is_commutative(k / bw, bw);
}

/// Codeword index of the block whose top-left corner is (x, y).
pub fn codeword_index(x: usize, y: usize, width: usize, height: usize) -> (r: usize)
    requires
        x < width,
        y < height,
        width * height <= usize::MAX,
    ensures
        r == block_index(x as int, y as int, width as int),
{
    proof {
        lemma_index_in_bounds(x as int, y as int, width as int, height as int);
        assert((y as int / 2) * (width as int / 2) <= y * width) by (nonlinear_arith)
            requires
                y >= 0,
                width >= 0,
        ;
    }
    (y / 2) * (width / 2) + x / 2
}

/// Top-left corners of all 2x2 blocks of a `width` x `height` image, in
/// row-major block order.
pub fn block_origins(width: usize, height: usize) -> (v: Vec<(usize, usize)>)
    requires
        width % 2 == 0,
        height % 2 == 0,
        width * height <= usize::MAX,
    ensures
        v@.len() == block_count(width as int, height as int),
        forall|k: int|
            0 <= k < v@.len() ==> {
                let (x, y) = #[trigger] v@[k];
                &&& (x as int, y as int) == block_origin(k, width as int)
                &&& x + 1 < width && y + 1 < height
                &&& block_index(x as int, y as int, width as int) == k
            },
{
    let bw = width / 2;
    let bh = height / 2;
    proof {
        assert(bw * bh <= width * height) by (nonlinear_arith)
            requires
                bw * 2 <= width,
                bh * 2 <= height,
                bw >= 0,
                bh >= 0,
        ;
    }
    let n = bw * bh;
    let mut v: Vec<(usize, usize)> = Vec::with_capacity(n);
    let mut k: usize = 0;
    while k < n
        invariant
            width % 2 == 0,
            height % 2 == 0,
            bw == width / 2,
            bh == height / 2,
            n == bw * bh,
            k <= n,
            v@.len() == k,
            forall|j: int|
                0 <= j < k ==> {
                    let (x, y) = #[trigger] v@[j];
                    &&& (x as int, y as int) == block_origin(j, width as int)
                    &&& x + 1 < width && y + 1 < height
                    &&& block_index(x as int, y as int, width as int) == j
                },
        decreases n - k,
    {
        proof {
            lemma_block_order(k as int, width as int, height as int);
        }
        let x = 2 * (k % bw);
        let y = 2 * (k / bw);
        v.push((x, y));
        k = k + 1;
    }
    v
}

/// True iff `n_words` codewords describe a `width` x `height` image: both
/// dimensions even and one codeword per 2x2 block.
pub fn valid_layout(width: usize, height: usize, n_words: usize) -> (r: bool)
    ensures
        r == layout_ok(width as int, height as int, n_words as int),
{
    if width % 2 != 0 || height % 2 != 0 {
        return false;
    }
    let bw = width / 2;
    let bh = height / 2;
    match bw.checked_mul(bh) {
        Some(count) => count == n_words,
        None => false,
    }
}

/// The four values of the 2x2 block of `img` whose top-left corner is (x, y),
/// at offsets (0, 0), (1, 0), (0, 1) and (1, 1).
pub fn get_block<T: Clone>(img: &Array2<T>, x: usize, y: usize) -> (r: (T, T, T, T))
    requires
        img.wf(),
        x + 1 < img.spec_width(),
        y + 1 < img.spec_height(),
    ensures
        cloned(img.at(x as int, y as int), r.0),
        cloned(img.at(x + 1, y as int), r.1),
        cloned(img.at(x as int, y + 1), r.2),
        cloned(img.at(x + 1, y + 1), r.3),
{
    proof {
        img.lemma_dims_fit();
    }
    let top_left = img.get(x, y).unwrap().clone();
    let top_right = img.get(x + 1, y).unwrap().clone();
    let bottom_left = img.get(x, y + 1).unwrap().clone();
    let bottom_right = img.get(x + 1, y + 1).unwrap().clone();
    (top_left, top_right, bottom_left, bottom_right)
}

/// Writes the four values of one 2x2 block into `img` at top-left corner (x, y),
/// at offsets (0, 0), (1, 0), (0, 1) and (1, 1).
pub fn put_block<T: Clone>(
    img: &mut Array2<T>,
    x: usize,
    y: usize,
    top_left: T,
    top_right: T,
    bottom_left: T,
    bottom_right: T,
)
    requires
        old(img).wf(),
        x + 1 < old(img).spec_width(),
        y + 1 < old(img).spec_height(),
    ensures
        final(img).wf(),
        final(img).spec_width() == old(img).spec_width(),
        final(img).spec_height() == old(img).spec_height(),
        final(img).cells() == old(img).cells().update(
            row_major_index(x as int, y as int, old(img).spec_width() as int),
            top_left,
        ).update(row_major_index(x + 1, y as int, old(img).spec_width() as int), top_right).update(
            row_major_index(x as int, y + 1, old(img).spec_width() as int),
            bottom_left,
        ).update(row_major_index(x + 1, y + 1, old(img).spec_width() as int), bottom_right),
{
    proof {
        img.lemma_dims_fit();
    }
    img.set(x, y, top_left);
    img.set(x + 1, y, top_right);
    img.set(x, y + 1, bottom_left);
    img.set(x + 1, y + 1, bottom_right);
}

} // verus!
