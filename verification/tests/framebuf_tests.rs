use image::{ImageBuffer, Rgba};
use robo_sim4::framebuf::{apply_light, fill_square, try_fill_square, FrameBuf};

fn frame(w: u32, h: u32) -> FrameBuf {
    FrameBuf { image: ImageBuffer::from_pixel(w, h, Rgba([1, 2, 3, 4])) }
}

fn count(fb: &FrameBuf, color: [u8; 4]) -> usize {
    fb.image.pixels().filter(|p| p.0 == color).count()
}

#[test]
fn filling_paints_exactly_the_square() {
    let mut fb = frame(10, 8);
    fill_square(&mut fb, 2, 3, 4, [255, 0, 0, 255]);
    for x in 0..10 {
        for y in 0..8 {
            let inside = (2..6).contains(&x) && (3..7).contains(&y);
            let want = if inside { [255, 0, 0, 255] } else { [1, 2, 3, 4] };
            assert_eq!(fb.image.get_pixel(x, y).0, want, "pixel {:?}", (x, y));
        }
    }
    assert_eq!(fb.image.dimensions(), (10, 8));
}

#[test]
fn filling_twice_is_filling_once() {
    let mut fb = frame(5, 5);
    fill_square(&mut fb, 0, 0, 5, [9, 9, 9, 9]);
    fill_square(&mut fb, 0, 0, 5, [9, 9, 9, 9]);
    assert_eq!(count(&fb, [9, 9, 9, 9]), 25);
}

#[test]
fn a_square_that_does_not_fit_is_not_drawn() {
    let mut fb = frame(4, 4);
    assert!(!try_fill_square(&mut fb, 3, 0, 2, [0, 0, 0, 0]));
    assert_eq!(count(&fb, [1, 2, 3, 4]), 16);
    assert!(!try_fill_square(&mut fb, 0, 4, 1, [0, 0, 0, 0]));
    assert_eq!(count(&fb, [1, 2, 3, 4]), 16);
}

#[test]
fn a_square_at_the_edge_is_drawn() {
    let mut fb = frame(4, 4);
    assert!(try_fill_square(&mut fb, 2, 2, 2, [7, 7, 7, 7]));
    assert_eq!(count(&fb, [7, 7, 7, 7]), 4);
    assert_eq!(fb.image.get_pixel(3, 3).0, [7, 7, 7, 7]);
}

#[test]
fn an_empty_square_draws_nothing_anywhere() {
    let mut fb = frame(4, 4);
    assert!(try_fill_square(&mut fb, 100, 100, 0, [7, 7, 7, 7]));
    assert_eq!(count(&fb, [1, 2, 3, 4]), 16);
}

#[test]
fn light_replaces_colour_but_keeps_alpha() {
    let mut col = [10, 20, 30, 40];
    apply_light(&mut col, &[200, 100, 50, 1]);
    assert_eq!(col, [200, 100, 50, 40]);
}
