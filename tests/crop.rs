use imagecrop::crop::{CropError, ImageCrop, Point};

fn solid(width: u32, height: u32, pixel: [u8; 4]) -> Vec<u8> {
    let mut bytes = Vec::new();
    for _ in 0..(width * height) {
        bytes.extend_from_slice(&pixel);
    }
    bytes
}

fn set_pixel(bytes: &mut Vec<u8>, width: u32, x: u32, y: u32, pixel: [u8; 4]) {
    let i = (4 * (y * width + x)) as usize;
    bytes[i..i + 4].copy_from_slice(&pixel);
}

fn single_pixel_image() -> ImageCrop {
    let mut bytes = solid(4, 4, [0, 0, 0, 0]);
    set_pixel(&mut bytes, 4, 1, 2, [10, 20, 30, 255]);
    ImageCrop::from_buffer(4, 4, bytes).unwrap()
}

#[test]
fn single_pixel_corners() {
    let c = single_pixel_image();
    assert_eq!(c.top_left_corner(), Ok(Point { x: 1, y: 2 }));
    assert_eq!(c.bottom_right_corner(), Ok(Point { x: 2, y: 3 }));
    assert_eq!(
        c.calculate_corners(),
        Ok((Point { x: 1, y: 2 }, Point { x: 2, y: 3 }))
    );
}

#[test]
fn single_pixel_auto_crop() {
    let mut c = single_pixel_image();
    let (w, h, img) = c.auto_crop().unwrap();
    assert_eq!((w, h), (1, 1));
    assert_eq!(img.width(), 1);
    assert_eq!(img.height(), 1);
    assert_eq!(img.data, vec![10, 20, 30, 255]);
    assert_eq!(img.get_pixel(0, 0), [10, 20, 30, 255]);
    // the image held is not changed
    assert_eq!(c.original.width, 4);
    assert_eq!(c.original.get_pixel(1, 2), [10, 20, 30, 255]);
}

#[test]
fn all_background_has_no_content() {
    let mut bytes = solid(10, 10, [255, 255, 255, 255]);
    for y in 0..10 {
        for x in 0..10 {
            if (x + y) % 2 == 0 {
                set_pixel(&mut bytes, 10, x, y, [12, 34, 56, 0]);
            }
        }
    }
    let mut c = ImageCrop::from_buffer(10, 10, bytes).unwrap();
    assert_eq!(c.top_left_corner(), Err(CropError::NoContentFound));
    assert_eq!(c.bottom_right_corner(), Err(CropError::NoContentFound));
    assert_eq!(c.calculate_corners(), Err(CropError::NoContentFound));
    assert!(matches!(c.auto_crop(), Err(CropError::NoContentFound)));
}

#[test]
fn empty_image_has_no_content() {
    let mut c = ImageCrop::from_buffer(0, 0, Vec::new()).unwrap();
    assert!(matches!(c.auto_crop(), Err(CropError::NoContentFound)));
}

#[test]
fn saturated_channel_counts_as_background() {
    // a pixel with any colour channel at 255 is not content
    let mut bytes = solid(3, 3, [0, 0, 0, 0]);
    set_pixel(&mut bytes, 3, 0, 0, [255, 10, 10, 255]);
    set_pixel(&mut bytes, 3, 2, 2, [10, 255, 10, 255]);
    set_pixel(&mut bytes, 3, 2, 0, [10, 10, 255, 255]);
    set_pixel(&mut bytes, 3, 1, 1, [254, 254, 254, 1]);
    let mut c = ImageCrop::from_buffer(3, 3, bytes).unwrap();
    let (w, h, img) = c.auto_crop().unwrap();
    assert_eq!((w, h), (1, 1));
    assert_eq!(img.data, vec![254, 254, 254, 1]);
}

#[test]
fn from_buffer_round_trip() {
    let bytes: Vec<u8> = (0..24).collect();
    let c = ImageCrop::from_buffer(3, 2, bytes.clone()).unwrap();
    assert_eq!(c.original.width(), 3);
    assert_eq!(c.original.height(), 2);
    for y in 0..2u32 {
        for x in 0..3u32 {
            let i = (4 * (y * 3 + x)) as usize;
            let expected = [bytes[i], bytes[i + 1], bytes[i + 2], bytes[i + 3]];
            assert_eq!(c.original.get_pixel(x, y), expected);
        }
    }
}

#[test]
fn from_buffer_length_mismatch() {
    assert!(matches!(ImageCrop::from_buffer(2, 2, vec![0; 15]), Err(CropError::Construct)));
    assert!(matches!(ImageCrop::from_buffer(2, 2, vec![0; 17]), Err(CropError::Construct)));
    assert!(matches!(ImageCrop::from_buffer(2, 2, Vec::new()), Err(CropError::Construct)));
    assert!(ImageCrop::from_buffer(2, 2, vec![0; 16]).is_ok());
    assert!(matches!(
        ImageCrop::from_buffer(u32::MAX, u32::MAX, vec![0; 16]),
        Err(CropError::Construct)
    ));
}

fn scattered_image() -> ImageCrop {
    // 6 x 5, content at (1, 3), (4, 1) and (2, 2); white elsewhere
    let mut bytes = solid(6, 5, [255, 255, 255, 255]);
    set_pixel(&mut bytes, 6, 1, 3, [1, 2, 3, 4]);
    set_pixel(&mut bytes, 6, 4, 1, [5, 6, 7, 8]);
    set_pixel(&mut bytes, 6, 2, 2, [9, 10, 11, 12]);
    ImageCrop::from_buffer(6, 5, bytes).unwrap()
}

#[test]
fn corners_enclose_all_content_tightly() {
    let c = scattered_image();
    let (tl, br) = c.calculate_corners().unwrap();
    assert_eq!(tl, Point { x: 1, y: 1 });
    assert_eq!(br, Point { x: 5, y: 4 });
}

#[test]
fn auto_crop_copies_the_box() {
    let mut c = scattered_image();
    let (w, h, img) = c.auto_crop().unwrap();
    assert_eq!((w, h), (4, 3));
    assert_eq!(img.data.len(), 48);
    assert_eq!(img.get_pixel(0, 2), [1, 2, 3, 4]);
    assert_eq!(img.get_pixel(3, 0), [5, 6, 7, 8]);
    assert_eq!(img.get_pixel(1, 1), [9, 10, 11, 12]);
    assert_eq!(img.get_pixel(0, 0), [255, 255, 255, 255]);
    assert_eq!(img.get_pixel(3, 2), [255, 255, 255, 255]);
}

#[test]
fn auto_crop_twice_changes_nothing() {
    let mut c = scattered_image();
    let (w, h, img) = c.auto_crop().unwrap();
    let mut again = ImageCrop::from_buffer(w, h, img.data.clone()).unwrap();
    let (w2, h2, img2) = again.auto_crop().unwrap();
    assert_eq!((w2, h2), (w, h));
    assert_eq!(img2.data, img.data);
}

#[test]
fn content_filling_the_image_keeps_it_whole() {
    let bytes: Vec<u8> = (0..32).map(|b| b as u8 + 1).collect();
    let mut c = ImageCrop::from_buffer(4, 2, bytes.clone()).unwrap();
    assert_eq!(c.calculate_corners(), Ok((Point { x: 0, y: 0 }, Point { x: 4, y: 2 })));
    let (w, h, img) = c.auto_crop().unwrap();
    assert_eq!((w, h), (4, 2));
    assert_eq!(img.data, bytes);
}

#[test]
fn pixel_grid_crop_takes_the_rectangle() {
    let bytes: Vec<u8> = (0..36).collect();
    let c = ImageCrop::from_buffer(3, 3, bytes).unwrap();
    let sub = c.original.crop(1, 1, 2, 1);
    assert_eq!(sub.width(), 2);
    assert_eq!(sub.height(), 1);
    assert_eq!(sub.data, vec![16, 17, 18, 19, 20, 21, 22, 23]);
}

#[test]
fn crop_of_zero_height_grid_is_empty() {
    let c = ImageCrop::from_buffer(1 << 30, 0, Vec::new()).unwrap();
    let sub = c.original.crop(5, 0, 7, 0);
    assert_eq!(sub.width(), 7);
    assert_eq!(sub.height(), 0);
    assert!(sub.data.is_empty());
}

#[test]
fn scans_give_each_bound() {
    let c = scattered_image();
    assert_eq!(c.top_left_corner_x(), Some(1));
    assert_eq!(c.top_left_corner_y(), Some(1));
    assert_eq!(c.bottom_right_corner_x(), Some(5));
    assert_eq!(c.bottom_right_corner_y(), Some(4));
    let empty = ImageCrop::from_buffer(2, 2, vec![255; 16]).unwrap();
    assert_eq!(empty.top_left_corner_x(), None);
    assert_eq!(empty.top_left_corner_y(), None);
    assert_eq!(empty.bottom_right_corner_x(), None);
    assert_eq!(empty.bottom_right_corner_y(), None);
}
