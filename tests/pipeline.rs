use rpeg::array2::Array2;
use rpeg::blocks::{block_origins, codeword_index, get_block, put_block, valid_layout};
use rpeg::compress_pixels::{even_array2, even_height, even_width, Rgb};

fn px(v: u16) -> Rgb {
    Rgb { red: v, green: v, blue: v }
}

#[test]
fn odd_dimensions_are_trimmed() {
    let pixels: Vec<Rgb> = (0..15).map(px).collect();
    let img = Array2::from_row_major(5, 3, &pixels);
    let w = even_width(img.clone());
    let h = even_height(img.clone());
    assert_eq!((w, h), (4, 2));
    let trimmed = even_array2(img, w, h);
    assert_eq!((trimmed.width(), trimmed.height()), (4, 2));
    assert_eq!(trimmed.get(3, 1), Some(&px(8)));
    assert_eq!(trimmed.get(4, 0), None);
    let origins = block_origins(w, h);
    assert_eq!(origins, vec![(0, 0), (2, 0)]);
}

#[test]
fn even_dimensions_are_kept() {
    let img = Array2::new(4, 6, px(0));
    assert_eq!(even_width(img.clone()), 4);
    assert_eq!(even_height(img), 6);
    let tiny = Array2::new(1, 1, px(0));
    assert_eq!(even_width(tiny.clone()), 0);
    assert_eq!(even_height(tiny), 0);
}

#[test]
fn block_order_is_row_major() {
    let origins = block_origins(6, 4);
    assert_eq!(origins, vec![(0, 0), (2, 0), (4, 0), (0, 2), (2, 2), (4, 2)]);
    for (k, &(x, y)) in origins.iter().enumerate() {
        assert_eq!(codeword_index(x, y, 6, 4), k);
    }
    assert!(block_origins(0, 4).is_empty());
}

#[test]
fn codeword_index_formula() {
    assert_eq!(codeword_index(4, 2, 6, 4), 5);
    assert_eq!(codeword_index(5, 3, 6, 4), 5);
    assert_eq!(codeword_index(0, 0, 2, 2), 0);
}

#[test]
fn layout_checks() {
    assert!(valid_layout(4, 2, 2));
    assert!(valid_layout(0, 0, 0));
    assert!(!valid_layout(4, 2, 3));
    assert!(!valid_layout(5, 2, 2));
    assert!(!valid_layout(4, 3, 2));
}

#[test]
fn blocks_read_and_write_four_cells() {
    let mut g = Array2::new(4, 2, 0u32);
    put_block(&mut g, 2, 0, 1, 2, 3, 4);
    assert_eq!(get_block(&g, 2, 0), (1, 2, 3, 4));
    assert_eq!(g.get(3, 1), Some(&4));
    assert_eq!(g.get(1, 0), Some(&0));
    assert_eq!(get_block(&g, 0, 0), (0, 0, 0, 0));
}
