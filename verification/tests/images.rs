use corrmatch::error::CorrMatchError;
use corrmatch::image::check_contiguous;
use corrmatch::image::pyramid::ImagePyramid;
use corrmatch::image::required_len;
use corrmatch::image::ImageView;
use corrmatch::image::OwnedImage;
use corrmatch::template::Template;

#[test]
fn view_needs_last_row_only_up_to_width() {
    // 3 rows of width 2 with stride 4 reach 2 * 4 + 2 = 10 elements.
    let data = [7u8; 10];
    let view = ImageView::new(&data, 2, 3, 4).unwrap();
    assert_eq!(view.width(), 2);
    assert_eq!(view.height(), 3);
    assert_eq!(view.stride(), 4);

    let short = [7u8; 9];
    let err = ImageView::new(&short, 2, 3, 4).err().unwrap();
    assert_eq!(err, CorrMatchError::BufferTooSmall { needed: 10, got: 9 });
}

#[test]
fn view_rejects_shape_that_overflows() {
    let data = [0u8; 4];
    let err = ImageView::new(&data, 2, usize::MAX, usize::MAX).err().unwrap();
    assert_eq!(
        err,
        CorrMatchError::InvalidDimensions {
            width: 2,
            height: usize::MAX,
        }
    );
}

#[test]
fn view_checks_dimensions_before_stride() {
    let data = [0u8; 4];
    let err = ImageView::new(&data, 0, 1, 0).err().unwrap();
    assert_eq!(err, CorrMatchError::InvalidDimensions { width: 0, height: 1 });
}

#[test]
fn view_get_and_row_follow_stride() {
    let data: Vec<u8> = (0u8..12).collect();
    let view = ImageView::new(&data, 3, 3, 4).unwrap();
    assert_eq!(view.get(0, 0).copied(), Some(0));
    assert_eq!(view.get(2, 1).copied(), Some(6));
    assert_eq!(view.get(2, 2).copied(), Some(10));
    assert!(view.get(3, 0).is_none());
    assert!(view.get(0, 3).is_none());
    assert_eq!(view.row(1).unwrap(), &[4u8, 5, 6]);
    assert_eq!(view.row(2).unwrap(), &[8u8, 9, 10]);
    assert!(view.row(3).is_none());
}

#[test]
fn roi_keeps_parent_stride_and_buffer() {
    let data: Vec<u8> = (0u8..20).collect();
    let view = ImageView::new(&data, 4, 4, 5).unwrap();
    let roi = view.roi(1, 2, 3, 2).unwrap();
    assert_eq!(roi.stride(), 5);
    assert_eq!(roi.as_slice(), &data[11..]);
    assert_eq!(roi.row(0).unwrap(), &[11u8, 12, 13]);
    assert_eq!(roi.row(1).unwrap(), &[16u8, 17, 18]);

    let inner = roi.roi(1, 1, 2, 1).unwrap();
    assert_eq!(inner.get(0, 0).copied(), Some(17));
    assert_eq!(inner.get(1, 0).copied(), Some(18));
}

#[test]
fn roi_whole_image_is_accepted() {
    let data: Vec<u8> = (0u8..16).collect();
    let view = ImageView::from_slice(&data, 4, 4).unwrap();
    let roi = view.roi(0, 0, 4, 4).unwrap();
    assert_eq!(roi.width(), 4);
    assert_eq!(roi.height(), 4);
    assert_eq!(roi.row(3).unwrap(), &[12u8, 13, 14, 15]);
}

#[test]
fn roi_rejects_empty_and_overflowing_regions() {
    let data: Vec<u8> = (0u8..16).collect();
    let view = ImageView::from_slice(&data, 4, 4).unwrap();

    let err = view.roi(1, 1, 0, 2).err().unwrap();
    assert_eq!(err, CorrMatchError::InvalidDimensions { width: 0, height: 2 });

    let err = view.roi(4, 0, 1, 1).err().unwrap();
    assert_eq!(
        err,
        CorrMatchError::RoiOutOfBounds {
            x: 4,
            y: 0,
            width: 1,
            height: 1,
            img_width: 4,
            img_height: 4,
        }
    );

    let err = view.roi(1, 1, usize::MAX, 1).err().unwrap();
    assert_eq!(
        err,
        CorrMatchError::RoiOutOfBounds {
            x: 1,
            y: 1,
            width: usize::MAX,
            height: 1,
            img_width: 4,
            img_height: 4,
        }
    );

    let err = view.roi(0, 2, 4, 3).err().unwrap();
    assert_eq!(
        err,
        CorrMatchError::RoiOutOfBounds {
            x: 0,
            y: 2,
            width: 4,
            height: 3,
            img_width: 4,
            img_height: 4,
        }
    );
}

#[test]
fn owned_image_wants_exactly_width_times_height() {
    let img = OwnedImage::new(vec![1u8, 2, 3, 4, 5, 6], 3, 2).unwrap();
    assert_eq!(img.width(), 3);
    assert_eq!(img.height(), 2);
    assert_eq!(img.stride(), 3);
    assert_eq!(img.data(), &[1u8, 2, 3, 4, 5, 6]);
    assert_eq!(img.view().row(1).unwrap(), &[4u8, 5, 6]);

    let err = OwnedImage::new(vec![0u8; 5], 3, 2).err().unwrap();
    assert_eq!(err, CorrMatchError::BufferTooSmall { needed: 6, got: 5 });

    let err = OwnedImage::new(vec![0u8; 7], 3, 2).err().unwrap();
    assert_eq!(err, CorrMatchError::InvalidDimensions { width: 3, height: 2 });

    let err = OwnedImage::new(vec![0u8; 4], 0, 2).err().unwrap();
    assert_eq!(err, CorrMatchError::InvalidDimensions { width: 0, height: 2 });

    let err = OwnedImage::new(vec![0u8; 4], usize::MAX, 2).err().unwrap();
    assert_eq!(
        err,
        CorrMatchError::InvalidDimensions {
            width: usize::MAX,
            height: 2,
        }
    );
}

#[test]
fn owned_image_from_view_drops_padding() {
    let data: Vec<u8> = (0u8..12).collect();
    let view = ImageView::new(&data, 3, 3, 4).unwrap();
    let img = OwnedImage::from_view(view).unwrap();
    assert_eq!(img.width(), 3);
    assert_eq!(img.height(), 3);
    assert_eq!(img.data(), &[0u8, 1, 2, 4, 5, 6, 8, 9, 10]);
}

#[test]
fn template_is_a_contiguous_image() {
    let tpl = Template::new(vec![9u8, 8, 7, 6], 2, 2).unwrap();
    assert_eq!(tpl.width(), 2);
    assert_eq!(tpl.height(), 2);
    assert_eq!(tpl.view().row(1).unwrap(), &[7u8, 6]);

    let err = Template::new(vec![0u8; 3], 2, 2).err().unwrap();
    assert_eq!(err, CorrMatchError::BufferTooSmall { needed: 4, got: 3 });
}

#[test]
fn pyramid_box_filter_rounds_half_up() {
    // (a + b + c + d + 2) / 4 per block.
    let data = vec![
        0u8, 1, 255, 255, //
        0, 0, 255, 254, //
        10, 20, 3, 3, //
        30, 41, 3, 4,
    ];
    let view = ImageView::from_slice(&data, 4, 4).unwrap();
    let pyramid = ImagePyramid::build_u8(view, 2).unwrap();
    assert_eq!(pyramid.levels().len(), 2);
    let level1 = pyramid.level(1).unwrap();
    // (0+1+0+0+2)/4 = 0, (255+255+255+254+2)/4 = 255,
    // (10+20+30+41+2)/4 = 25, (3+3+3+4+2)/4 = 3.
    assert_eq!(level1.row(0).unwrap(), &[0u8, 255]);
    assert_eq!(level1.row(1).unwrap(), &[25u8, 3]);
}

#[test]
fn pyramid_discards_odd_trailing_row_and_column() {
    let mut data = Vec::new();
    for y in 0..3u8 {
        for x in 0..5u8 {
            data.push(10 * y + x);
        }
    }
    let view = ImageView::from_slice(&data, 5, 3).unwrap();
    let pyramid = ImagePyramid::build_u8(view, 10).unwrap();
    assert_eq!(pyramid.levels().len(), 2);
    let level1 = pyramid.level(1).unwrap();
    assert_eq!(level1.width(), 2);
    assert_eq!(level1.height(), 1);
    // Blocks {0,1,10,11} and {2,3,12,13}.
    assert_eq!(level1.row(0).unwrap(), &[6u8, 8]);
    assert!(pyramid.level(2).is_none());
}

#[test]
fn pyramid_always_has_the_base_level() {
    let data: Vec<u8> = (0u8..16).collect();
    let view = ImageView::from_slice(&data, 4, 4).unwrap();

    let zero = ImagePyramid::build_u8(view, 0).unwrap();
    assert_eq!(zero.levels().len(), 1);
    assert_eq!(zero.level(0).unwrap().as_slice(), data.as_slice());

    let one = ImagePyramid::build_u8(view, 1).unwrap();
    assert_eq!(one.levels().len(), 1);

    let two = ImagePyramid::build_u8(view, 2).unwrap();
    assert_eq!(two.levels().len(), 2);
}

#[test]
fn pyramid_stops_when_a_side_is_below_two() {
    let data = vec![5u8; 8];
    let thin = ImageView::from_slice(&data, 8, 1).unwrap();
    let pyramid = ImagePyramid::build_u8(thin, 5).unwrap();
    assert_eq!(pyramid.levels().len(), 1);

    let data = vec![5u8; 16];
    let flat = ImageView::from_slice(&data, 8, 2).unwrap();
    let pyramid = ImagePyramid::build_u8(flat, 5).unwrap();
    assert_eq!(pyramid.levels().len(), 2);
    assert_eq!(pyramid.level(1).unwrap().width(), 4);
    assert_eq!(pyramid.level(1).unwrap().height(), 1);
}

#[test]
fn pyramid_levels_halve_each_other() {
    let width = 13usize;
    let height = 9usize;
    let mut data = Vec::new();
    for y in 0..height {
        for x in 0..width {
            data.push(((x * 31 + y * 17 + x * y) & 0xff) as u8);
        }
    }
    let view = ImageView::from_slice(&data, width, height).unwrap();
    let pyramid = ImagePyramid::build_u8(view, 8).unwrap();
    let levels = pyramid.levels();
    assert_eq!(levels.len(), 4);
    for k in 0..levels.len() - 1 {
        let fine = levels[k].view();
        let coarse = levels[k + 1].view();
        assert_eq!(coarse.width(), fine.width() / 2);
        assert_eq!(coarse.height(), fine.height() / 2);
        for y in 0..coarse.height() {
            for x in 0..coarse.width() {
                let a = *fine.get(2 * x, 2 * y).unwrap() as u16;
                let b = *fine.get(2 * x + 1, 2 * y).unwrap() as u16;
                let c = *fine.get(2 * x, 2 * y + 1).unwrap() as u16;
                let d = *fine.get(2 * x + 1, 2 * y + 1).unwrap() as u16;
                let expected = ((a + b + c + d + 2) / 4) as u8;
                assert_eq!(*coarse.get(x, y).unwrap(), expected);
            }
        }
    }
    let copied = pyramid.into_levels();
    assert_eq!(copied[0].data(), data.as_slice());
}

#[test]
fn pyramid_of_padded_view_copies_pixels_only() {
    let data: Vec<u8> = (0u8..24).collect();
    let view = ImageView::new(&data, 4, 4, 6).unwrap();
    let pyramid = ImagePyramid::build_u8(view, 2).unwrap();
    let base = pyramid.level(0).unwrap();
    assert_eq!(base.stride(), 4);
    assert_eq!(base.row(1).unwrap(), &[6u8, 7, 8, 9]);
    let level1 = pyramid.level(1).unwrap();
    // Blocks {0,1,6,7}, {2,3,8,9}, {12,13,18,19}, {14,15,20,21}.
    assert_eq!(level1.row(0).unwrap(), &[4u8, 6]);
    assert_eq!(level1.row(1).unwrap(), &[16u8, 18]);
}

#[test]
fn contiguous_buffers_hold_exactly_the_pixels() {
    assert_eq!(check_contiguous(6, 3, 2), Ok(6));
    assert_eq!(
        check_contiguous(5, 3, 2),
        Err(CorrMatchError::BufferTooSmall { needed: 6, got: 5 })
    );
    assert_eq!(
        check_contiguous(7, 3, 2),
        Err(CorrMatchError::InvalidDimensions { width: 3, height: 2 })
    );
    assert_eq!(
        check_contiguous(0, 0, 0),
        Err(CorrMatchError::InvalidDimensions { width: 0, height: 0 })
    );
}

#[test]
fn required_length_counts_full_rows_but_the_last() {
    assert_eq!(required_len(4, 4, 4), Ok(16));
    assert_eq!(required_len(2, 3, 10), Ok(22));
    assert_eq!(required_len(5, 1, 1000), Ok(5));
    assert_eq!(
        required_len(4, 1, 3),
        Err(CorrMatchError::InvalidStride { width: 4, stride: 3 })
    );
    assert_eq!(
        required_len(usize::MAX, 2, usize::MAX),
        Err(CorrMatchError::InvalidDimensions {
            width: usize::MAX,
            height: 2,
        })
    );
}
