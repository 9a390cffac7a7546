use term_palette::median_cut::{
    dedupe, distinct_pixels, refine_palette, settle, MAX_QUANTIZER_BYTES, SAMPLING_QUALITY,
};
use term_palette::{
    generate_color_thief, quantize, Backend, Options, PaletteError, PixelBuffer, Quantization,
    QuantizeFault, Rgb,
};

fn buffer_of(width: u32, height: u32, pixels: &[(u8, u8, u8)]) -> PixelBuffer {
    let mut data = Vec::new();
    for &(r, g, b) in pixels {
        data.push(r);
        data.push(g);
        data.push(b);
    }
    PixelBuffer::new(width, height, data).unwrap()
}

fn gradient() -> PixelBuffer {
    let mut pixels = Vec::new();
    for y in 0..16u32 {
        for x in 0..16u32 {
            pixels.push(((16 * x) as u8, (16 * y) as u8, 128u8));
        }
    }
    buffer_of(16, 16, &pixels)
}

fn has_duplicates(palette: &[Rgb]) -> bool {
    for i in 0..palette.len() {
        for j in 0..i {
            if palette[i] == palette[j] {
                return true;
            }
        }
    }
    false
}

#[test]
fn two_colors_in_two_by_two_image() {
    let buffer = buffer_of(2, 2, &[(255, 0, 0), (255, 0, 0), (0, 0, 255), (0, 0, 255)]);
    let palette = generate_color_thief(&buffer, 2).unwrap();
    assert_eq!(palette, vec![Rgb::new(255, 0, 0), Rgb::new(0, 0, 255)]);
    let hex: Vec<String> = palette.iter().map(|c| c.to_hex_string(true)).collect();
    assert_eq!(hex, vec!["#FF0000".to_string(), "#0000FF".to_string()]);
}

#[test]
fn solid_image_yields_one_color() {
    let buffer = buffer_of(4, 4, &[(128, 128, 128); 16]);
    let palette = generate_color_thief(&buffer, 8).unwrap();
    assert_eq!(palette, vec![Rgb::new(128, 128, 128)]);
}

#[test]
fn solid_image_yields_one_color_whatever_the_request() {
    let buffer = buffer_of(4, 4, &[(9, 200, 31); 16]);
    for colors in [1u8, 2, 8, 254, 255] {
        assert_eq!(generate_color_thief(&buffer, colors).unwrap(), vec![Rgb::new(9, 200, 31)]);
    }
}

#[test]
fn fewer_colors_than_requested_come_back_as_they_are() {
    let buffer = buffer_of(
        3,
        2,
        &[(1, 2, 3), (250, 250, 250), (1, 2, 3), (40, 50, 60), (250, 250, 250), (40, 50, 60)],
    );
    let palette = generate_color_thief(&buffer, 8).unwrap();
    assert_eq!(palette, vec![Rgb::new(1, 2, 3), Rgb::new(250, 250, 250), Rgb::new(40, 50, 60)]);
    let exact = generate_color_thief(&buffer, 3).unwrap();
    assert_eq!(exact, palette);
}

#[test]
fn gradient_is_cut_into_eight_colors() {
    let palette = generate_color_thief(&gradient(), 8).unwrap();
    assert_eq!(
        palette,
        vec![
            Rgb::new(212, 36, 132),
            Rgb::new(28, 220, 132),
            Rgb::new(156, 212, 132),
            Rgb::new(92, 156, 132),
            Rgb::new(140, 108, 132),
            Rgb::new(116, 132, 132),
            Rgb::new(4, 4, 132),
            Rgb::new(164, 84, 132),
        ]
    );
}

#[test]
fn gradient_is_cut_into_three_colors() {
    let palette = generate_color_thief(&gradient(), 3).unwrap();
    assert_eq!(
        palette,
        vec![Rgb::new(180, 68, 132), Rgb::new(23, 176, 132), Rgb::new(156, 212, 132)]
    );
}

#[test]
fn palette_never_exceeds_the_request() {
    let buffer = gradient();
    for colors in 1u8..=40 {
        let palette = generate_color_thief(&buffer, colors).unwrap();
        assert!(!palette.is_empty());
        assert!(palette.len() <= colors as usize, "{} colors for {}", palette.len(), colors);
        assert!(!has_duplicates(&palette));
    }
    let palette = generate_color_thief(&buffer, 255).unwrap();
    assert!(palette.len() <= 255);
    assert!(!has_duplicates(&palette));
}

#[test]
fn equal_inputs_give_equal_palettes() {
    let first = generate_color_thief(&gradient(), 8).unwrap();
    let second = generate_color_thief(&gradient(), 8).unwrap();
    assert_eq!(first, second);
}

#[test]
fn zero_colors_are_refused() {
    let buffer = buffer_of(1, 1, &[(1, 1, 1)]);
    assert_eq!(generate_color_thief(&buffer, 0), Err(PaletteError::InvalidColorCount));
    assert_eq!(generate_color_thief(&gradient(), 0), Err(PaletteError::InvalidColorCount));
}

#[test]
fn oversized_image_is_refused_where_the_quantizer_is_needed() {
    let pixels: usize = MAX_QUANTIZER_BYTES / 3 + 1;
    let mut data = vec![0u8; 3 * pixels];
    data[0] = 1;
    data[3] = 2;
    let buffer = PixelBuffer::new(pixels as u32, 1, data).unwrap();
    assert_eq!(generate_color_thief(&buffer, 2), Err(PaletteError::Oversized));
    assert_eq!(
        generate_color_thief(&buffer, 3),
        Ok(vec![Rgb::new(1, 0, 0), Rgb::new(2, 0, 0), Rgb::new(0, 0, 0)])
    );
}

#[test]
fn buffer_with_a_zero_dimension_is_invalid() {
    assert!(matches!(PixelBuffer::new(0, 4, Vec::new()), Err(PaletteError::InvalidInput)));
    assert!(matches!(PixelBuffer::new(4, 0, Vec::new()), Err(PaletteError::InvalidInput)));
    assert!(matches!(PixelBuffer::new(0, 0, Vec::new()), Err(PaletteError::InvalidInput)));
    assert!(matches!(PixelBuffer::new(0, 1, vec![1, 2, 3]), Err(PaletteError::InvalidInput)));
}

#[test]
fn buffer_of_the_wrong_length_is_invalid() {
    assert!(matches!(PixelBuffer::new(2, 2, vec![0; 11]), Err(PaletteError::InvalidInput)));
    assert!(matches!(PixelBuffer::new(2, 2, vec![0; 13]), Err(PaletteError::InvalidInput)));
    assert!(matches!(PixelBuffer::new(1, 1, Vec::new()), Err(PaletteError::InvalidInput)));
    assert!(matches!(
        PixelBuffer::new(u32::MAX, u32::MAX, vec![0; 3]),
        Err(PaletteError::InvalidInput)
    ));
}

#[test]
fn buffer_keeps_its_pixels() {
    let buffer = PixelBuffer::new(2, 1, vec![1, 2, 3, 4, 5, 6]).unwrap();
    assert_eq!(buffer.width(), 2);
    assert_eq!(buffer.height(), 1);
    assert_eq!(buffer.pixel_count(), 2);
    assert_eq!(buffer.pixel(0), Rgb::new(1, 2, 3));
    assert_eq!(buffer.pixel(1), Rgb::new(4, 5, 6));
    assert_eq!(buffer.as_bytes(), &vec![1, 2, 3, 4, 5, 6]);
}

#[test]
fn distinct_pixels_stop_behind_the_limit() {
    let buffer = buffer_of(5, 1, &[(1, 1, 1), (2, 2, 2), (1, 1, 1), (3, 3, 3), (4, 4, 4)]);
    let all = vec![Rgb::new(1, 1, 1), Rgb::new(2, 2, 2), Rgb::new(3, 3, 3), Rgb::new(4, 4, 4)];
    assert_eq!(distinct_pixels(&buffer, 4), all);
    assert_eq!(distinct_pixels(&buffer, 255), all);
    assert_eq!(distinct_pixels(&buffer, 3), all);
    assert_eq!(distinct_pixels(&buffer, 2), all[..3].to_vec());
    assert_eq!(distinct_pixels(&buffer, 0), all[..1].to_vec());
}

#[test]
fn dedupe_keeps_first_occurrences() {
    let a = Rgb::new(1, 2, 3);
    let b = Rgb::new(3, 2, 1);
    let c = Rgb::new(1, 2, 4);
    assert_eq!(dedupe(&vec![a, b, a, c, b, a]), vec![a, b, c]);
    assert_eq!(dedupe(&Vec::new()), Vec::<Rgb>::new());
}

#[test]
fn refined_palette_is_unique_and_cut() {
    let a = Rgb::new(136, 132, 132);
    let b = Rgb::new(132, 132, 132);
    let c = Rgb::new(0, 0, 0);
    let found = vec![b, a, a, a, c, a];
    assert_eq!(refine_palette(&found, 8), vec![b, a, c]);
    assert_eq!(refine_palette(&found, 3), vec![b, a, c]);
    assert_eq!(refine_palette(&found, 2), vec![b, a]);
    assert_eq!(refine_palette(&found, 1), vec![b]);
    assert_eq!(refine_palette(&found, 0), Vec::<Rgb>::new());
}

#[test]
fn quantizer_faults_become_errors() {
    assert_eq!(
        settle(Err(QuantizeFault::InvalidVBox), 8),
        Err(PaletteError::Quantizer(QuantizeFault::InvalidVBox))
    );
    assert_eq!(
        settle(Err(QuantizeFault::VBoxCutFailed), 8),
        Err(PaletteError::Quantizer(QuantizeFault::VBoxCutFailed))
    );
    let a = Rgb::new(5, 6, 7);
    assert_eq!(settle(Ok(vec![a, a]), 8), Ok(vec![a]));
}

#[test]
fn median_cut_backend_quantizes_at_once() {
    let options = Options { colors: 8, backend: Backend::ColorThief, ..Options::new() };
    match quantize(&gradient(), &options) {
        Ok(Quantization::Palette(palette)) => {
            assert_eq!(palette, generate_color_thief(&gradient(), 8).unwrap())
        }
        other => panic!("unexpected {:?}", other),
    }
    let none = Options { colors: 0, backend: Backend::ColorThief, ..Options::new() };
    assert!(matches!(quantize(&gradient(), &none), Err(PaletteError::InvalidColorCount)));
}

#[test]
fn k_means_backend_asks_for_clusters() {
    let options = Options { colors: 6, backend: Backend::Okolors, ..Options::new() };
    assert!(matches!(
        quantize(&gradient(), &options),
        Ok(Quantization::Clustering { clusters: 6 })
    ));
    let none = Options { colors: 0, backend: Backend::Okolors, ..Options::new() };
    assert!(matches!(quantize(&gradient(), &none), Err(PaletteError::InvalidColorCount)));
}

#[test]
fn hex_strings_in_both_cases() {
    assert_eq!(Rgb::new(255, 0, 171).to_hex_string(true), "#FF00AB");
    assert_eq!(Rgb::new(255, 0, 171).to_hex_string(false), "#ff00ab");
    assert_eq!(Rgb::new(0, 9, 16).to_hex_string(true), "#000910");
    assert_eq!(Rgb::new(18, 52, 86).to_hex_string(false), "#123456");
    assert_eq!(Rgb::new(205, 239, 1).to_hex_string(false), "#cdef01");
}

#[test]
fn hex_string_is_what_pastel_prints() {
    for (r, g, b) in [(0u8, 0u8, 0u8), (255, 255, 255), (18, 171, 205), (1, 2, 3)] {
        let ours = Rgb::new(r, g, b).to_hex_string(false);
        assert_eq!(ours, pastel::Color::from_rgb(r, g, b).to_rgb_hex_string(true));
    }
}

#[test]
fn sampling_settings() {
    assert_eq!(SAMPLING_QUALITY, 5);
    assert_eq!(MAX_QUANTIZER_BYTES, 360_000_000);
}

#[test]
fn errors_in_words() {
    assert_eq!(
        PaletteError::InvalidInput.message(),
        "the image is empty or does not match its dimensions"
    );
    assert_eq!(PaletteError::InvalidColorCount.message(), "at least one color must be asked for");
    assert_eq!(
        PaletteError::Oversized.message(),
        "the image has too many pixels for the median-cut quantizer"
    );
    assert_eq!(PaletteError::Quantizer(QuantizeFault::InvalidVBox).message(), "an invalid VBox");
    assert_eq!(
        PaletteError::Quantizer(QuantizeFault::VBoxCutFailed).message(),
        "failed to cut a VBox"
    );
}
