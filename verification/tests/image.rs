use ssim::image::{Image, PixelsNode};

const BUF: [u8; 331] = [
    255, 216, 255, 224, 0, 16, 74, 70, 73, 70, 0, 1, 2, 0, 0, 1, 0, 1, 0, 0, 255, 192, 0, 11, 8,
    0, 3, 0, 3, 1, 1, 17, 0, 255, 219, 0, 67, 0, 8, 6, 6, 7, 6, 5, 8, 7, 7, 7, 9, 9, 8, 10, 12,
    20, 13, 12, 11, 11, 12, 25, 18, 19, 15, 20, 29, 26, 31, 30, 29, 26, 28, 28, 32, 36, 46, 39,
    32, 34, 44, 35, 28, 28, 40, 55, 41, 44, 48, 49, 52, 52, 52, 31, 39, 57, 61, 56, 50, 60, 46,
    51, 52, 50, 255, 196, 0, 31, 0, 0, 1, 5, 1, 1, 1, 1, 1, 1, 0, 0, 0, 0, 0, 0, 0, 0, 1, 2, 3,
    4, 5, 6, 7, 8, 9, 10, 11, 255, 196, 0, 181, 16, 0, 2, 1, 3, 3, 2, 4, 3, 5, 5, 4, 4, 0, 0, 1,
    125, 1, 2, 3, 0, 4, 17, 5, 18, 33, 49, 65, 6, 19, 81, 97, 7, 34, 113, 20, 50, 129, 145, 161,
    8, 35, 66, 177, 193, 21, 82, 209, 240, 36, 51, 98, 114, 130, 9, 10, 22, 23, 24, 25, 26, 37,
    38, 39, 40, 41, 42, 52, 53, 54, 55, 56, 57, 58, 67, 68, 69, 70, 71, 72, 73, 74, 83, 84, 85,
    86, 87, 88, 89, 90, 99, 100, 101, 102, 103, 104, 105, 106, 115, 116, 117, 118, 119, 120, 121,
    122, 131, 132, 133, 134, 135, 136, 137, 138, 146, 147, 148, 149, 150, 151, 152, 153, 154, 162,
    163, 164, 165, 166, 167, 168, 169, 170, 178, 179, 180, 181, 182, 183, 184, 185, 186, 194, 195,
    196, 197, 198, 199, 200, 201, 202, 210, 211, 212, 213, 214, 215, 216, 217, 218, 225, 226, 227,
    228, 229, 230, 231, 232, 233, 234, 241, 242, 243, 244, 245, 246, 247, 248, 249, 250, 255, 218,
    0, 8, 1, 1, 0, 0, 63, 0, 74, 255, 217,
];

struct Images {
    img_x: Image,
    img_y: Image,
}

fn init_buf(width: usize, height: usize) -> Images {
    let buf = BUF.to_vec();
    let img_x = Image::from_buf(&buf, width, height).unwrap();
    let img_y = Image::from_buf(&buf, width, height).unwrap();

    Images { img_x, img_y }
}

#[test]
fn from_buf() {
    let w: usize = 3;
    let h: usize = 3;
    let expected = Image {
        pixels: PixelsNode::new(vec![vec![127, 127, 127], vec![127, 127, 127], vec![
            127, 127, 127,
        ]]),
    };

    let buf = BUF.to_vec();

    let img = Image::from_buf(&buf, w, h).unwrap();

    assert!(img == expected);
}

#[test]
fn imgx_imgy_equals() {
    let img = init_buf(3, 3);

    assert!(img.img_x == img.img_y);
}

#[test]
fn length_x() {
    let width: usize = 3;
    let height: usize = 3;
    let img = init_buf(width, height);

    assert!(img.img_x.length() == width * height);
}

#[test]
fn length_y() {
    let width: usize = 3;
    let height: usize = 3;
    let img = init_buf(width, height);

    assert!(img.img_y.length() == width * height);
}

#[test]
fn from_buf_rejects_garbage() {
    let buf = vec![1u8, 2, 3, 4, 5];
    let r = Image::from_buf(&buf, 3, 3);
    assert!(matches!(r, Err(ssim::SsimError::DecodeError)));
}

#[test]
fn from_buf_rejects_zero_dimensions() {
    let buf = BUF.to_vec();
    let r = Image::from_buf(&buf, 0, 3);
    assert!(matches!(r, Err(ssim::SsimError::EmptyImage)));
}

fn grid_2x3() -> Image {
    Image { pixels: PixelsNode::new(vec![vec![0, 0, 0], vec![0, 0, 0]]) }
}

#[test]
fn reshape_roundtrip() {
    let base = grid_2x3();
    let buf = vec![10u8, 20, 30, 40, 50, 60];
    let img = base.from_pixels_vec(&buf).unwrap();
    assert!(img.flattened().unwrap() == buf);
}

#[test]
fn reshape_columns() {
    let base = grid_2x3();
    let buf = vec![10u8, 20, 30, 40, 50, 60];
    let img = base.from_pixels_vec(&buf).unwrap();
    let expected = Image { pixels: PixelsNode::new(vec![vec![10, 20, 30], vec![40, 50, 60]]) };
    assert!(img == expected);
}

#[test]
fn sum_pixels_totals_all_samples() {
    let base = grid_2x3();
    let buf = vec![10u8, 20, 30, 40, 50, 60];
    let img = base.from_pixels_vec(&buf).unwrap();
    assert!(img.sum_pixels().unwrap() == 210u128);
}

#[test]
fn reshape_rejects_wrong_length() {
    let base = grid_2x3();
    let buf = vec![10u8, 20, 30, 40, 50];
    let r = base.from_pixels_vec(&buf);
    assert!(matches!(r, Err(ssim::SsimError::ShapeMismatch)));
}

#[test]
fn pixels_returns_storage() {
    let img = Image { pixels: PixelsNode::new(vec![vec![1, 2], vec![3, 4]]) };
    let pix = img.pixels().unwrap();
    assert!(pix == &vec![vec![1u8, 2], vec![3u8, 4]]);
}

#[test]
fn windows_of_three_by_three() {
    let img = Image {
        pixels: PixelsNode::new(vec![vec![1, 2, 3], vec![4, 5, 6], vec![7, 8, 9]]),
    };
    let subs = img.sub_pixels(2).unwrap();
    assert!(subs.len() == 4);
    // origin row varies fastest: (0,0), (0,1), (1,0), (1,1)
    assert!(subs[0] == PixelsNode::new(vec![vec![1, 2], vec![4, 5]]));
    assert!(subs[1] == PixelsNode::new(vec![vec![2, 3], vec![5, 6]]));
    assert!(subs[2] == PixelsNode::new(vec![vec![4, 5], vec![7, 8]]));
    assert!(subs[3] == PixelsNode::new(vec![vec![5, 6], vec![8, 9]]));
}

#[test]
fn window_size_above_width_is_rejected() {
    let img = Image {
        pixels: PixelsNode::new(vec![vec![1, 2, 3], vec![4, 5, 6], vec![7, 8, 9]]),
    };
    let r = img.sub_pixels(4);
    assert!(matches!(r, Err(ssim::SsimError::InvalidWindowSize)));
}

#[test]
fn window_size_above_height_yields_no_windows() {
    // three columns of two samples: width 3, height 2
    let img = Image { pixels: PixelsNode::new(vec![vec![1, 2], vec![3, 4], vec![5, 6]]) };
    let subs = img.sub_pixels(3).unwrap();
    assert!(subs.len() == 0);
}

#[test]
fn whole_image_is_its_only_full_window() {
    let img = Image {
        pixels: PixelsNode::new(vec![vec![1, 2, 3], vec![4, 5, 6], vec![7, 8, 9]]),
    };
    let subs = img.sub_pixels(3).unwrap();
    assert!(subs.len() == 1);
    assert!(Image { pixels: PixelsNode::new(vec![vec![1, 2, 3], vec![4, 5, 6], vec![7, 8, 9]]) }
        == Image { pixels: subs.into_iter().next().unwrap() });
}
