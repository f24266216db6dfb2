use vanrijn::colour::ColourRgbU8;
use vanrijn::image::ImageRgbU8;

#[test]
fn get_pixel_data_returns_correct_values() {
    let mut target = ImageRgbU8::new(4, 3);
    for i in 0..3 {
        for j in 0..4 {
            target.set_colour(
                i,
                j,
                ColourRgbU8 {
                    values: [i as u8, j as u8, i as u8],
                },
            )
        }
    }
    for i in 0..3 {
        for j in 0..4 {
            let index = (i * 4 + j) * 3;
            assert!(target.get_pixel_data()[index] == i as u8);
            assert!(target.get_pixel_data()[index + 1] == j as u8);
            assert!(target.get_pixel_data()[index + 2] == i as u8);
        }
    }
}

#[test]
fn new_image_is_black() {
    let target = ImageRgbU8::new(5, 2);
    assert_eq!(target.get_width(), 5);
    assert_eq!(target.get_height(), 2);
    assert_eq!(target.get_pixel_data(), vec![0u8; 30]);
}

#[test]
fn get_colour_returns_set_colour() {
    let mut target = ImageRgbU8::new(3, 3);
    target.set_colour(1, 2, ColourRgbU8 { values: [10, 20, 30] });
    assert_eq!(target.get_colour(1, 2).values, [10, 20, 30]);
    assert_eq!(target.get_colour(2, 1).values, [0, 0, 0]);
}

#[test]
fn num_channels_is_three() {
    assert_eq!(ImageRgbU8::num_channels(), 3);
}

#[test]
fn update_copies_tile_image_into_place() {
    let mut image = ImageRgbU8::new(4, 4);
    let mut tile = ImageRgbU8::new(2, 1);
    tile.set_colour(0, 0, ColourRgbU8 { values: [1, 2, 3] });
    tile.set_colour(0, 1, ColourRgbU8 { values: [4, 5, 6] });
    image.update(3, 1, &tile);
    assert_eq!(image.get_colour(3, 1).values, [1, 2, 3]);
    assert_eq!(image.get_colour(3, 2).values, [4, 5, 6]);
    assert_eq!(image.get_colour(3, 0).values, [0, 0, 0]);
    assert_eq!(image.get_colour(3, 3).values, [0, 0, 0]);
    assert_eq!(image.get_colour(2, 1).values, [0, 0, 0]);
}
