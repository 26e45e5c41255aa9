use goldy_doom::render::{palette_to_rgba8, RenderMode};

#[test]
fn palette_to_rgba8_appends_alpha() {
    assert_eq!(palette_to_rgba8(&[1, 2, 3, 4, 5, 6]), vec![1, 2, 3, 255, 4, 5, 6, 255]);
}

#[test]
fn palette_to_rgba8_drops_partial_triplet() {
    assert_eq!(palette_to_rgba8(&[9, 8, 7, 6, 5]), vec![9, 8, 7, 255]);
    assert_eq!(palette_to_rgba8(&[]), Vec::<u8>::new());
}

#[test]
fn default_render_mode_is_raster() {
    assert_eq!(RenderMode::default_mode(), RenderMode::Raster);
}

use goldy_doom::render::{padded_triangle_indices, palette_rows};

#[test]
fn palette_rows_counts_whole_rows() {
    assert_eq!(palette_rows(0), 1);
    assert_eq!(palette_rows(768), 1);
    assert_eq!(palette_rows(768 * 14), 14);
    assert_eq!(palette_rows(768 * 2 + 5), 2);
}

#[test]
fn padded_indices_repeat_last_triangle() {
    let (empty, n0) = padded_triangle_indices(&[]);
    assert!(empty.is_empty());
    assert_eq!(n0, 0);
    let (p, n) = padded_triangle_indices(&[0, 1, 2, 2, 3, 0]);
    assert_eq!(n, 64);
    assert_eq!(p.len(), 64 * 3);
    assert_eq!(&p[..6], &[0, 1, 2, 2, 3, 0]);
    for t in 2..64 {
        assert_eq!(&p[t * 3..t * 3 + 3], &[2, 3, 0]);
    }
    let full: Vec<u32> = (0..192).collect();
    let (q, m) = padded_triangle_indices(&full);
    assert_eq!(m, 64);
    assert_eq!(q, full);
    // Stray indices past the last whole triangle stay, and the padding repeats the last
    // whole triangle after them.
    let (r, k) = padded_triangle_indices(&[4, 5, 6, 7]);
    assert_eq!(k, 64);
    assert_eq!(&r[..7], &[4, 5, 6, 7, 4, 5, 6]);
    assert_eq!(r.len(), 4 + 63 * 3);
}

use goldy_doom::render::{push_poly_indices, push_quad_indices};

#[test]
fn quad_and_fan_indices() {
    let mut idx = Vec::new();
    push_quad_indices(&mut idx, 4);
    assert_eq!(idx, vec![0, 1, 3, 1, 2, 3]);
    push_poly_indices(&mut idx, 9, 5);
    assert_eq!(&idx[6..], &[4, 5, 6, 4, 6, 7, 4, 7, 8]);
    push_poly_indices(&mut idx, 11, 2);
    push_poly_indices(&mut idx, 12, 1);
    assert_eq!(idx.len(), 15);
    push_quad_indices(&mut idx, 16);
    assert_eq!(&idx[15..], &[12, 13, 15, 13, 14, 15]);
    assert!(idx.iter().all(|&i| i < 16));
}
