use corrmatch::error::CorrMatchError;
use corrmatch::image::pyramid::ImagePyramid;
use corrmatch::image::ImageView;

#[test]
fn image_view_rejects_invalid_dimensions() {
    let data = [0u8; 4];

    let err = ImageView::from_slice(&data, 0, 1).err().unwrap();
    assert_eq!(
        err,
        CorrMatchError::InvalidDimensions {
            width: 0,
            height: 1,
        }
    );

    let err = ImageView::from_slice(&data, 1, 0).err().unwrap();
    assert_eq!(
        err,
        CorrMatchError::InvalidDimensions {
            width: 1,
            height: 0,
        }
    );
}

#[test]
fn image_view_rejects_invalid_stride() {
    let data = [0u8; 8];

    let err = ImageView::new(&data, 4, 1, 3).err().unwrap();
    assert_eq!(
        err,
        CorrMatchError::InvalidStride {
            width: 4,
            stride: 3,
        }
    );
}

#[test]
fn image_view_rejects_small_buffer() {
    let data = [0u8; 3];

    let err = ImageView::new(&data, 2, 2, 2).err().unwrap();
    assert_eq!(err, CorrMatchError::BufferTooSmall { needed: 4, got: 3 });
}

#[test]
fn image_view_roi_matches_expected_values() {
    let data: Vec<u8> = (0u8..16).collect();
    let view = ImageView::from_slice(&data, 4, 4).unwrap();
    assert_eq!(view.stride(), 4);
    assert_eq!(view.as_slice(), data.as_slice());

    let roi = view.roi(1, 1, 2, 2).unwrap();
    assert_eq!(roi.width(), 2);
    assert_eq!(roi.height(), 2);
    assert_eq!(roi.stride(), 4);
    assert_eq!(roi.row(0).unwrap(), &[5u8, 6u8]);
    assert_eq!(roi.row(1).unwrap(), &[9u8, 10u8]);
    assert_eq!(roi.get(0, 0).copied(), Some(5u8));
    assert!(roi.get(2, 0).is_none());

    let err = view.roi(3, 3, 2, 2).err().unwrap();
    assert_eq!(
        err,
        CorrMatchError::RoiOutOfBounds {
            x: 3,
            y: 3,
            width: 2,
            height: 2,
            img_width: 4,
            img_height: 4,
        }
    );
}

#[test]
fn image_pyramid_downsamples_by_two() {
    let data: Vec<u8> = (0u8..16).collect();
    let view = ImageView::from_slice(&data, 4, 4).unwrap();

    let pyramid = ImagePyramid::build_u8(view, 10).unwrap();
    assert_eq!(pyramid.levels().len(), 3);

    let level1 = pyramid.level(1).unwrap();
    assert_eq!(level1.width(), 2);
    assert_eq!(level1.height(), 2);
    assert_eq!(level1.row(0).unwrap(), &[3u8, 5u8]);
    assert_eq!(level1.row(1).unwrap(), &[11u8, 13u8]);

    let level2 = pyramid.level(2).unwrap();
    assert_eq!(level2.width(), 1);
    assert_eq!(level2.height(), 1);
}
