use blurhash::{
    component_cells, encode, encode_ac, encode_dc, quantise_maximum, size_flag, validate,
    EncodingError,
};

const ALPHABET: &str =
    "0123456789ABCDEFGHIJKLMNOPQRSTUVWXYZabcdefghijklmnopqrstuvwxyz#$%*+,-.:;=?@[]^_{|}~";

// Quantised coefficients of the 2x2 red, green, blue, white image on a 4x3 grid.
fn four_colour_ac() -> Vec<[u8; 3]> {
    vec![
        [18, 9, 18],
        [9, 0, 9],
        [18, 9, 18],
        [18, 18, 9],
        [18, 9, 9],
        [18, 0, 9],
        [18, 9, 9],
        [9, 9, 0],
        [18, 9, 0],
        [18, 9, 9],
        [18, 9, 0],
    ]
}

// Quantised coefficients of a 4x4 red image on a 4x3 grid.
fn solid_red_ac() -> Vec<[u8; 3]> {
    vec![
        [18, 9, 9],
        [9, 9, 9],
        [18, 9, 9],
        [18, 9, 9],
        [14, 9, 9],
        [9, 9, 9],
        [14, 9, 9],
        [9, 9, 9],
        [9, 9, 9],
        [9, 9, 9],
        [9, 9, 9],
    ]
}

#[test]
fn test_encode_invalid_components() {
    let pixels = vec![0u8; 16]; // 2x2 RGBA image
    let result = validate(&pixels, 0, 1, 2, 2);
    assert!(matches!(result, Err(EncodingError::ComponentsNumberInvalid)));
    let result = encode(0, 1, 0, [0, 0, 0], &vec![]);
    assert!(matches!(result, Err(EncodingError::ComponentsNumberInvalid)));

    let result = validate(&pixels, 10, 1, 2, 2);
    assert!(matches!(result, Err(EncodingError::ComponentsNumberInvalid)));
    let result = encode(10, 1, 0, [0, 0, 0], &vec![]);
    assert!(matches!(result, Err(EncodingError::ComponentsNumberInvalid)));
}

#[test]
fn test_encode_invalid_pixel_count() {
    let pixels = vec![0u8; 15]; // Invalid size for RGBA
    let result = validate(&pixels, 4, 3, 2, 2);
    assert!(matches!(result, Err(EncodingError::BytesPerPixelMismatch)));
}

#[test]
fn test_encode_valid_image() {
    let pixels: Vec<u8> = vec![
        255, 0, 0, 255, // Red pixel
        0, 255, 0, 255, // Green pixel
        0, 0, 255, 255, // Blue pixel
        255, 255, 255, 255, // White pixel
    ];
    assert_eq!(validate(&pixels, 4, 3, 2, 2), Ok(()));

    let result = encode(4, 3, 82, [188, 188, 188], &four_colour_ac());
    assert!(result.is_ok());
    let hash = result.unwrap();
    assert!(!hash.is_empty());
    assert!(hash.chars().all(|c| ALPHABET.contains(c)));
    assert_eq!(hash.len(), 28);
    assert_eq!(hash, "L~Lqe9|ldL|l~h|c_X|cfH|T|c|T");
}

#[test]
fn test_encode_solid_color() {
    let pixels = image::ImageBuffer::from_pixel(4, 4, image::Rgba([255u8, 0, 0, 255])).into_raw();
    assert_eq!(validate(&pixels, 4, 3, 4, 4), Ok(()));
    let result = encode(4, 3, 82, [255, 0, 0], &solid_red_ac());
    assert!(result.is_ok());
    assert_eq!(result.unwrap(), "L~TI:j|cfQ|c|c$5fQ$5fQfQfQfQ");
}

#[test]
fn validate_short_buffer_is_mismatch() {
    for (w, h) in [(1usize, 1usize), (2, 2), (3, 5)] {
        let pixels = vec![0u8; w * h * 4 - 1];
        assert_eq!(validate(&pixels, 4, 3, w, h), Err(EncodingError::BytesPerPixelMismatch));
    }
}

#[test]
fn validate_out_of_range_components() {
    let pixels = vec![0u8; 16];
    assert_eq!(validate(&pixels, 1, 0, 2, 2), Err(EncodingError::ComponentsNumberInvalid));
    assert_eq!(validate(&pixels, 1, 10, 2, 2), Err(EncodingError::ComponentsNumberInvalid));
    assert_eq!(validate(&pixels, 9, 9, 2, 2), Ok(()));
    assert_eq!(validate(&pixels, 1, 1, 2, 2), Ok(()));
}

#[test]
fn validate_components_checked_before_buffer() {
    let pixels = vec![0u8; 3];
    assert_eq!(validate(&pixels, 0, 3, 2, 2), Err(EncodingError::ComponentsNumberInvalid));
}

#[test]
fn validate_rejects_empty_image() {
    let pixels: Vec<u8> = vec![];
    assert_eq!(validate(&pixels, 4, 3, 0, 0), Err(EncodingError::BytesPerPixelMismatch));
    assert_eq!(validate(&pixels, 4, 3, 0, 5), Err(EncodingError::BytesPerPixelMismatch));
    assert_eq!(validate(&pixels, 4, 3, 5, 0), Err(EncodingError::BytesPerPixelMismatch));
}

#[test]
fn validate_overflowing_dimensions_is_mismatch() {
    let pixels = vec![0u8; 16];
    assert_eq!(
        validate(&pixels, 4, 3, usize::MAX, 2),
        Err(EncodingError::BytesPerPixelMismatch)
    );
    assert_eq!(
        validate(&pixels, 4, 3, usize::MAX / 4 + 1, 1),
        Err(EncodingError::BytesPerPixelMismatch)
    );
}

#[test]
fn component_cells_row_major() {
    let cells = component_cells(3, 2);
    assert_eq!(cells, vec![(0, 0), (1, 0), (2, 0), (0, 1), (1, 1), (2, 1)]);
    assert_eq!(component_cells(1, 1), vec![(0, 0)]);
    assert_eq!(component_cells(9, 9).len(), 81);
}

#[test]
fn size_flag_values() {
    assert_eq!(size_flag(1, 1), 0);
    assert_eq!(size_flag(4, 3), 21);
    assert_eq!(size_flag(9, 9), 80);
}

#[test]
fn quantise_maximum_limits_to_82() {
    assert_eq!(quantise_maximum(0), 0);
    assert_eq!(quantise_maximum(5), 5);
    assert_eq!(quantise_maximum(82), 82);
    assert_eq!(quantise_maximum(83), 82);
    assert_eq!(quantise_maximum(usize::MAX), 82);
}

#[test]
fn encode_dc_packs_bytes() {
    assert_eq!(encode_dc([255, 0, 0]), 16711680);
    assert_eq!(encode_dc([1, 2, 3]), 65536 + 2 * 256 + 3);
    assert_eq!(encode_dc([255, 255, 255]), 16777215);
    assert_eq!(encode_dc([0, 0, 0]), 0);
}

#[test]
fn encode_ac_packs_indices() {
    assert_eq!(encode_ac([9, 9, 9]), 3429);
    assert_eq!(encode_ac([18, 18, 18]), 6858);
    assert_eq!(encode_ac([0, 0, 0]), 0);
    assert_eq!(encode_ac([1, 2, 3]), 361 + 38 + 3);
}

#[test]
fn encode_single_cell_grid_has_zero_max_flag() {
    let hash = encode(1, 1, 40, [255, 255, 255], &vec![]).unwrap();
    assert_eq!(hash, "00TSUA");
}

#[test]
fn encode_length_for_every_grid() {
    for cx in 1..=9usize {
        for cy in 1..=9usize {
            let ac = vec![[3u8, 17, 0]; cx * cy - 1];
            let hash = encode(cx, cy, 7, [10, 20, 30], &ac).unwrap();
            assert_eq!(hash.len(), 6 + 2 * (cx * cy - 1));
            assert!(hash.chars().all(|c| ALPHABET.contains(c)));
            assert_eq!(hash.chars().next().unwrap(), ALPHABET.chars().nth((cx - 1) + (cy - 1) * 9).unwrap());
        }
    }
}

#[test]
fn encode_is_deterministic() {
    let a = encode(4, 3, 82, [188, 188, 188], &four_colour_ac()).unwrap();
    let b = encode(4, 3, 82, [188, 188, 188], &four_colour_ac()).unwrap();
    assert_eq!(a, b);
}

#[test]
fn encode_middle_indices_give_repeated_field() {
    for n in [1usize, 3, 8] {
        let ac = vec![[9u8, 9, 9]; n];
        let hash = encode(n + 1, 1, 0, [0, 0, 0], &ac).unwrap();
        assert_eq!(&hash[6..], "fQ".repeat(n));
    }
}
