use wallrus::palette::{
    extract_colors_from_image, format_of_file, sample_colors, save_palette_image, PaletteError,
};
use wallrus::codec::PaletteFormat;
use wallrus::raster::{palette_image, Color, RgbImage};

fn rgb(red: u8, green: u8, blue: u8) -> Color {
    Color { red, green, blue }
}

/// An image whose pixel at `(x, y)` is `(x, y, 7)`.
fn coordinate_image(width: u32, height: u32) -> RgbImage {
    let mut data = Vec::new();
    for y in 0..height {
        for x in 0..width {
            data.push(x as u8);
            data.push(y as u8);
            data.push(7);
        }
    }
    RgbImage::from_raw(width, height, data).expect("buffer fits the dimensions")
}

fn sampled_positions(width: u32, height: u32) -> Vec<(u8, u8)> {
    let colors = sample_colors(&coordinate_image(width, height)).expect("image has pixels");
    colors.iter().map(|c| (c.red, c.green)).collect()
}

fn encode(width: u32, height: u32, data: &[u8], format: image::ImageFormat) -> Vec<u8> {
    let mut file = std::io::Cursor::new(Vec::new());
    image::write_buffer_with_format(
        &mut file,
        data,
        width,
        height,
        image::ExtendedColorType::Rgb8,
        format,
    )
    .expect("encoding succeeds");
    file.into_inner()
}

#[test]
fn one_by_four_image_yields_its_rows() {
    let colors = [rgb(255, 0, 0), rgb(0, 255, 0), rgb(0, 0, 255), rgb(10, 20, 30)];
    let image = palette_image(&colors);
    assert_eq!(image.width(), 1);
    assert_eq!(image.height(), 4);
    assert_eq!(sample_colors(&image), Ok(colors));
}

#[test]
fn palette_image_is_twelve_bytes_in_row_order() {
    let colors = [rgb(1, 2, 3), rgb(4, 5, 6), rgb(7, 8, 9), rgb(10, 11, 12)];
    assert_eq!(palette_image(&colors).into_raw(), vec![1, 2, 3, 4, 5, 6, 7, 8, 9, 10, 11, 12]);
}

#[test]
fn get_pixel_reads_row_major_rgb() {
    let image = coordinate_image(3, 2);
    assert_eq!(image.get_pixel(2, 1), rgb(2, 1, 7));
    assert_eq!(image.get_pixel(0, 0), rgb(0, 0, 7));
}

#[test]
fn bands_are_sampled_at_their_centres() {
    assert_eq!(sampled_positions(1, 4), vec![(0, 0), (0, 1), (0, 2), (0, 3)]);
    assert_eq!(sampled_positions(2, 8), vec![(1, 1), (1, 3), (1, 5), (1, 7)]);
    assert_eq!(sampled_positions(5, 16), vec![(2, 2), (2, 6), (2, 10), (2, 14)]);
    assert_eq!(sampled_positions(100, 40), vec![(50, 5), (50, 15), (50, 25), (50, 35)]);
}

#[test]
fn heights_not_divisible_by_four_stay_inside_the_image() {
    assert_eq!(sampled_positions(1, 1), vec![(0, 0), (0, 0), (0, 0), (0, 0)]);
    assert_eq!(sampled_positions(1, 3), vec![(0, 0), (0, 0), (0, 0), (0, 0)]);
    assert_eq!(sampled_positions(1, 5), vec![(0, 0), (0, 1), (0, 2), (0, 3)]);
    assert_eq!(sampled_positions(3, 7), vec![(1, 0), (1, 1), (1, 2), (1, 3)]);
    assert_eq!(sampled_positions(4, 9), vec![(2, 1), (2, 3), (2, 5), (2, 7)]);
    for height in 1..=64u32 {
        for (_, row) in sampled_positions(2, height) {
            assert!((row as u32) < height);
        }
    }
}

#[test]
fn image_without_pixels_is_invalid() {
    let no_columns = RgbImage::from_raw(0, 4, Vec::new()).expect("empty buffer fits");
    assert_eq!(sample_colors(&no_columns), Err(PaletteError::InvalidImage));
    let no_rows = RgbImage::from_raw(4, 0, Vec::new()).expect("empty buffer fits");
    assert_eq!(sample_colors(&no_rows), Err(PaletteError::InvalidImage));
    let nothing = RgbImage::from_raw(0, 0, vec![1, 2, 3]).expect("any buffer fits");
    assert_eq!(sample_colors(&nothing), Err(PaletteError::InvalidImage));
}

#[test]
fn from_raw_wants_three_bytes_per_pixel() {
    assert!(RgbImage::from_raw(1, 4, vec![0; 12]).is_some());
    assert!(RgbImage::from_raw(1, 4, vec![0; 13]).is_some());
    assert!(RgbImage::from_raw(1, 4, vec![0; 11]).is_none());
    assert!(RgbImage::from_raw(u32::MAX, u32::MAX, vec![0; 16]).is_none());
}

#[test]
fn saved_palette_reads_back_the_same_colors() {
    let colors = [rgb(255, 128, 0), rgb(0, 0, 0), rgb(17, 34, 51), rgb(255, 255, 255)];
    let saved = save_palette_image(&colors, "/home/u/.local/share/palettes", 1_700_000_000)
        .expect("a 1x4 image encodes");
    assert_eq!(saved.directory, "/home/u/.local/share/palettes/custom");
    assert_eq!(saved.path, "/home/u/.local/share/palettes/custom/palette_1700000000.png");
    assert_eq!(&saved.contents[..8], b"\x89PNG\r\n\x1a\n");
    assert_eq!(extract_colors_from_image("palette_1700000000.png", &saved.contents), Ok(colors));
}

#[test]
fn saved_palette_is_a_one_by_four_png() {
    let colors = [rgb(9, 8, 7), rgb(6, 5, 4), rgb(3, 2, 1), rgb(0, 255, 254)];
    let saved = save_palette_image(&colors, "palettes", 5).expect("a 1x4 image encodes");
    let decoded = image::load_from_memory_with_format(&saved.contents, image::ImageFormat::Png)
        .expect("the file is a PNG")
        .into_rgb8();
    assert_eq!(decoded.dimensions(), (1, 4));
    assert_eq!(decoded.into_raw(), vec![9, 8, 7, 6, 5, 4, 3, 2, 1, 0, 255, 254]);
}

#[test]
fn larger_png_is_sampled_band_by_band() {
    let mut data = Vec::new();
    for y in 0..8u8 {
        for x in 0..2u8 {
            data.extend_from_slice(&[x * 100, y * 10, 200]);
        }
    }
    let file = encode(2, 8, &data, image::ImageFormat::Png);
    assert_eq!(
        extract_colors_from_image("preview.PNG", &file),
        Ok([rgb(100, 10, 200), rgb(100, 30, 200), rgb(100, 50, 200), rgb(100, 70, 200)])
    );
}

#[test]
fn webp_and_jpeg_files_are_decoded_by_their_own_decoders() {
    let mut data = Vec::new();
    for _ in 0..16 * 16 {
        data.extend_from_slice(&[200, 100, 50]);
    }
    let webp = encode(16, 16, &data, image::ImageFormat::WebP);
    let solid = rgb(200, 100, 50);
    assert_eq!(extract_colors_from_image("a.webp", &webp), Ok([solid, solid, solid, solid]));
    assert_eq!(extract_colors_from_image("a.jpg", &webp), Err(PaletteError::InvalidImage));

    let jpeg = encode(16, 16, &data, image::ImageFormat::Jpeg);
    for name in ["a.jpg", "a.jpeg", "a.JPG"] {
        let colors = extract_colors_from_image(name, &jpeg).expect("the file is a JPEG");
        for color in colors {
            assert!(color.red.abs_diff(200) <= 4, "{:?}", color);
            assert!(color.green.abs_diff(100) <= 4, "{:?}", color);
            assert!(color.blue.abs_diff(50) <= 4, "{:?}", color);
        }
    }
    assert_eq!(extract_colors_from_image("a.png", &jpeg), Err(PaletteError::InvalidImage));
}

#[test]
fn pictures_with_other_pixel_formats_are_converted_to_rgb() {
    let mut file = std::io::Cursor::new(Vec::new());
    image::write_buffer_with_format(
        &mut file,
        &[10, 255, 20, 255, 30, 255, 40, 255],
        1,
        4,
        image::ExtendedColorType::La8,
        image::ImageFormat::Png,
    )
    .expect("encoding succeeds");
    assert_eq!(
        extract_colors_from_image("grey.png", file.get_ref()),
        Ok([rgb(10, 10, 10), rgb(20, 20, 20), rgb(30, 30, 30), rgb(40, 40, 40)])
    );
}

#[test]
fn format_follows_the_name_not_the_contents() {
    let file = encode(1, 4, &[0; 12], image::ImageFormat::Png);
    assert!(extract_colors_from_image("a.png", &file).is_ok());
    assert_eq!(extract_colors_from_image("a.jpg", &file), Err(PaletteError::InvalidImage));
    assert_eq!(extract_colors_from_image("a.webp", &file), Err(PaletteError::InvalidImage));
}

#[test]
fn undecodable_or_unnamed_input_is_invalid() {
    assert_eq!(extract_colors_from_image("a.png", b"not an image"), Err(PaletteError::InvalidImage));
    assert_eq!(extract_colors_from_image("a.png", b""), Err(PaletteError::InvalidImage));
    let file = encode(1, 4, &[0; 12], image::ImageFormat::Png);
    assert_eq!(extract_colors_from_image("a.txt", &file), Err(PaletteError::InvalidImage));
    assert_eq!(extract_colors_from_image("png", &file), Err(PaletteError::InvalidImage));
}

#[test]
fn format_of_file_follows_the_decoder() {
    assert_eq!(format_of_file("a.png"), Some(PaletteFormat::Png));
    assert_eq!(format_of_file("a.apng"), Some(PaletteFormat::Png));
    assert_eq!(format_of_file("a.jpg"), Some(PaletteFormat::Jpeg));
    assert_eq!(format_of_file("a.JPEG"), Some(PaletteFormat::Jpeg));
    assert_eq!(format_of_file("a.jfif"), Some(PaletteFormat::Jpeg));
    assert_eq!(format_of_file("a.WebP"), Some(PaletteFormat::WebP));
    assert_eq!(format_of_file("a.txt"), None);
    assert_eq!(format_of_file("a."), None);
    assert_eq!(format_of_file("a"), None);
    assert_eq!(format_of_file(".png"), None);
}

#[test]
fn every_extension_the_decoder_knows_is_decoded() {
    let mut data = Vec::new();
    for _ in 0..16 * 16 {
        data.extend_from_slice(&[200, 100, 50]);
    }
    let jpeg = encode(16, 16, &data, image::ImageFormat::Jpeg);
    let colors = extract_colors_from_image("x.jfif", &jpeg).expect("a .jfif file is a JPEG");
    for color in colors {
        assert!(color.red.abs_diff(200) <= 4 && color.green.abs_diff(100) <= 4, "{:?}", color);
    }
    let rows = [rgb(1, 2, 3), rgb(4, 5, 6), rgb(7, 8, 9), rgb(10, 11, 12)];
    let png = encode(1, 4, &[1, 2, 3, 4, 5, 6, 7, 8, 9, 10, 11, 12], image::ImageFormat::Png);
    assert_eq!(extract_colors_from_image("x.apng", &png), Ok(rows));
    assert_eq!(extract_colors_from_image("x.APNG", &png), Ok(rows));
    assert_eq!(extract_colors_from_image("x.png", &png), Ok(rows));
}

#[test]
fn formats_without_a_decoder_are_invalid() {
    let png = encode(1, 4, &[0; 12], image::ImageFormat::Png);
    for name in ["x.gif", "x.bmp", "x.tiff", "x.avif", "x.unknown"] {
        assert_eq!(extract_colors_from_image(name, &png), Err(PaletteError::InvalidImage));
    }
}
