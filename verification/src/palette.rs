//! Palette images: sampling four colours from an image file, writing a
//! palette as a 1x4 image, and the rules for user palettes on disk.

use vstd::prelude::*;
use vstd::string::StringExecFns;
use vstd::string::StrSliceExecFns;
use crate::codec::{decode_rgb8, decoded_rgb8, decoder_format, encode_png, image_error_text};
use crate::codec::{image_format, png_encoding};
use crate::codec::PaletteFormat;
use crate::paths::{extension_of, file_extension, join_path, joined_path, last_dot_before};
use crate::paths::{components_of, lemma_joined_path_steps, lemma_joined_path_within};
use crate::paths::{lemma_parent_step_shows, lemma_path_within_transitive, parent_step, SEPARATOR};
use crate::paths::{parent_path, path_parent, path_stays_within, stays_within};
use crate::raster::{palette_image, pixel_at, sampled_from, sample_column, sample_row};
use crate::raster::{lemma_one_by_four_sampled, lemma_sample_row_in_bounds, Color, RgbImage};
use crate::text::{char_to_uppercase, decimal_of, lemma_decimal_has_digits_only, lowercase_of};
use crate::text::{str_eq, texts_of};
use crate::text::{to_lowercase, u64_to_decimal, uppercase_of};

verus! {

/// The category name used for user-saved palettes.
pub const CUSTOM_CATEGORY: &'static str = "Custom";

/// The category of image files that lie directly in a palette root.
pub const UNCATEGORIZED: &'static str = "Uncategorized";

/// Why a palette operation failed.
#[derive(Clone, Debug, PartialEq, Eq)]
pub enum PaletteError {
    /// The image could not be decoded or has no pixels.
    InvalidImage,
    /// The file system refused an operation; `cause` is its own description.
    IoError { cause: String },
    /// The path lies outside the user palette root.
    PermissionDenied,
}

impl PaletteError {
    /// The message for the user.
    pub open spec fn spec_message(self) -> Seq<char> {
        match self {
            PaletteError::InvalidImage => "Failed to load image"@,
            PaletteError::IoError { cause } => cause@,
            PaletteError::PermissionDenied => "Cannot delete bundled palettes"@,
        }
    }

    /// Writes the message for the user.
    pub fn message(&self) -> (text: String)
        ensures
            text@ == self.spec_message(),
    {
        match self {
            PaletteError::InvalidImage => String::from_str("Failed to load image"),
            PaletteError::IoError { cause } => cause.clone(),
            PaletteError::PermissionDenied => String::from_str("Cannot delete bundled palettes"),
        }
    }
}

/// Whether a lowercase extension is one of the recognised image extensions.
pub open spec fn is_image_extension_text(lowered: Seq<char>) -> bool {
    lowered == "png"@ || lowered == "jpg"@ || lowered == "jpeg"@ || lowered == "webp"@
}

/// Whether a file name has one of the recognised image extensions, in any
/// letter case.
pub open spec fn is_image_name(name: Seq<char>) -> bool {
    match extension_of(name) {
        Some(ext) => is_image_extension_text(lowercase_of(ext)),
        None => false,
    }
}

/// Looks a lowercase extension up in the list of recognised image
/// extensions.
pub fn is_image_extension(lowered: &str) -> (image: bool)
    ensures
        image == is_image_extension_text(lowered@),
{
    str_eq(lowered, "png") || str_eq(lowered, "jpg") || str_eq(lowered, "jpeg") || str_eq(
        lowered,
        "webp",
    )
}

/// Whether a file name has one of the recognised image extensions.
pub fn is_image_file(name: &str) -> (image: bool)
    ensures
        image == is_image_name(name@),
{
    match file_extension(name) {
        Some(ext) => {
            let lowered = to_lowercase(ext.as_str());
            is_image_extension(lowered.as_str())
        },
        None => false,
    }
}

/// A text with its first scalar value replaced by its uppercase mapping.
pub open spec fn capitalized(text: Seq<char>) -> Seq<char> {
    if text.len() == 0 {
        text
    } else {
        uppercase_of(text[0]) + text.subrange(1, text.len() as int)
    }
}

/// Capitalises the first scalar value of a text.
pub fn capitalize_first(s: &str) -> (capital: String)
    ensures
        capital@ == capitalized(s@),
{
    let len = s.unicode_len();
    if len == 0 {
        String::from_str(s)
    } else {
        let mut capital = char_to_uppercase(s.get_char(0));
        capital.append(s.substring_char(1, len));
        capital
    }
}

/// Whether the given category name is the user-saved custom category.
pub fn is_custom_category(name: &str) -> (custom: bool)
    ensures
        custom == (name@ == CUSTOM_CATEGORY@),
{
    str_eq(name, CUSTOM_CATEGORY)
}

/// Samples the four palette colours from an image: one per horizontal band,
/// at the centre column.
pub fn sample_colors(image: &RgbImage) -> (colors: Result<[Color; 4], PaletteError>)
    ensures
        image.spec_width() == 0 || image.spec_height() == 0 ==> colors == Err::<
            [Color; 4],
            PaletteError,
        >(PaletteError::InvalidImage),
        image.spec_width() > 0 && image.spec_height() > 0 ==> colors is Ok && colors->Ok_0@
            == image.sampled(),
{
    let width = image.width();
    let height = image.height();
    if width == 0 || height == 0 {
        return Err(PaletteError::InvalidImage);
    }
    let cx = width / 2;
    let band_height = height / 4;
    let black = Color { red: 0, green: 0, blue: 0 };
    let mut colors: [Color; 4] = [black, black, black, black];
    let mut band: u32 = 0;
    while band < 4
        invariant
            0 <= band <= 4,
            width == image.spec_width(),
            height == image.spec_height(),
            width > 0,
            height > 0,
            cx == sample_column(width as int),
            band_height == height / 4,
            forall|k: int|
                0 <= k < band ==> colors@[k] == image.pixel(
                    sample_column(width as int),
                    sample_row(height as int, k),
                ),
        decreases 4 - band,
    {
        proof {
            lemma_sample_row_in_bounds(height as int, band as int);
            assert(band_height * band <= band_height * 3) by (nonlinear_arith)
                requires
                    band_height >= 0,
                    0 <= band <= 3,
            ;
        }
        let centre = band_height * band + band_height / 2;
        let cy = if centre < height - 1 {
            centre
        } else {
            height - 1
        };
        colors[band as usize] = image.get_pixel(cx, cy);
        band += 1;
    }
    assert(colors@ =~= image.sampled());
    Ok(colors)
}

/// The format a file is decoded as: the one the decoder reads its
/// extension as.
pub open spec fn format_of_name(name: Seq<char>) -> Option<PaletteFormat> {
    match extension_of(name) {
        Some(ext) => decoder_format(ext),
        None => None,
    }
}

/// Finds the format a file is decoded as, by its name.
pub fn format_of_file(name: &str) -> (format: Option<PaletteFormat>)
    ensures
        format == format_of_name(name@),
{
    match file_extension(name) {
        Some(ext) => image_format(ext.as_str()),
        None => None,
    }
}

/// What `extract_colors_from_image` owes for a file of the given name and
/// contents: the colours sampled from the decoded picture, or `InvalidImage`
/// where the decoder knows no format for the name, the bytes do not decode,
/// or the picture has no pixels.
pub open spec fn extracted_colors(file_name: Seq<char>, bytes: Seq<u8>) -> Result<
    Seq<Color>,
    PaletteError,
> {
    match format_of_name(file_name) {
        None => Err(PaletteError::InvalidImage),
        Some(format) => match decoded_rgb8(format, bytes) {
            None => Err(PaletteError::InvalidImage),
            Some((width, height, data)) => if width == 0 || height == 0 {
                Err(PaletteError::InvalidImage)
            } else {
                Ok(sampled_from(data, width as int, height as int))
            },
        },
    }
}

/// Extracts the four palette colours from the contents of an image file.
///
/// The decoder picks the format by the file's extension. The canonical
/// palette image is one pixel wide and four tall; a larger image is cut into
/// four horizontal bands and the centre pixel of each band is taken.
pub fn extract_colors_from_image(file_name: &str, bytes: &[u8]) -> (colors: Result<
    [Color; 4],
    PaletteError,
>)
    ensures
        match extracted_colors(file_name@, bytes@) {
            Ok(expected) => colors is Ok && colors->Ok_0@ == expected,
            Err(error) => colors == Err::<[Color; 4], PaletteError>(error),
        },
{
    let format = match format_of_file(file_name) {
        Some(format) => format,
        None => {
            return Err(PaletteError::InvalidImage);
        },
    };
    let (width, height, data) = match decode_rgb8(format, bytes) {
        Ok(parts) => parts,
        Err(_) => {
            return Err(PaletteError::InvalidImage);
        },
    };
    match RgbImage::from_raw(width, height, data) {
        Some(image) => sample_colors(&image),
        None => Err(PaletteError::InvalidImage),
    }
}

/// The file name of a palette saved at the given time, in seconds since the
/// Unix epoch.
pub open spec fn palette_file_name_of(unix_seconds: u64) -> Seq<char> {
    "palette_"@ + decimal_of(unix_seconds as nat) + ".png"@
}

/// Names the file for a palette saved at the given time.
pub fn palette_file_name(unix_seconds: u64) -> (name: String)
    ensures
        name@ == palette_file_name_of(unix_seconds),
{
    let mut name = String::from_str("palette_");
    let digits = u64_to_decimal(unix_seconds);
    name.append(digits.as_str());
    name.append(".png");
    name
}

/// The user palette root inside the per-user data directory.
pub open spec fn user_palettes_path(data_dir: Seq<char>) -> Seq<char> {
    joined_path(data_dir, "palettes"@)
}

/// Locates the user palette root inside the per-user data directory.
pub fn user_palettes_dir(data_dir: &str) -> (dir: String)
    ensures
        dir@ == user_palettes_path(data_dir@),
{
    join_path(data_dir, "palettes")
}

/// The folder of user-saved palettes inside the user palette root: its name
/// is the custom category's name in lowercase.
pub open spec fn custom_palettes_path(user_dir: Seq<char>) -> Seq<char> {
    joined_path(user_dir, lowercase_of(CUSTOM_CATEGORY@))
}

/// Locates the folder of user-saved palettes inside the user palette root.
pub fn custom_palettes_dir(user_dir: &str) -> (dir: String)
    ensures
        dir@ == custom_palettes_path(user_dir@),
{
    let folder = to_lowercase(CUSTOM_CATEGORY);
    join_path(user_dir, folder.as_str())
}

/// A palette image ready to be written: the folder to create if it is
/// missing, the file's path inside it, and the file's contents.
#[derive(Clone, Debug, PartialEq, Eq)]
pub struct SavedPalette {
    pub directory: String,
    pub path: String,
    pub contents: Vec<u8>,
}

/// The twelve bytes of the canonical palette raster for four colours.
pub open spec fn palette_bytes(colors: Seq<Color>) -> Seq<u8> {
    Seq::new(
        12,
        |at: int|
            if at % 3 == 0 {
                colors[at / 3].red
            } else if at % 3 == 1 {
                colors[at / 3].green
            } else {
                colors[at / 3].blue
            },
    )
}

/// Prepares four colours for saving as a user palette: a PNG image one pixel
/// wide and four tall, colour `i` in row `i`, in the custom folder of the user
/// palette root, named after the time of saving.
///
/// Fails with `IoError` exactly where the PNG encoder does; the error's
/// cause then ends in the encoder's own words.
pub fn save_palette_image(colors: &[Color; 4], user_dir: &str, unix_seconds: u64) -> (saved: Result<
    SavedPalette,
    PaletteError,
>)
    ensures
        match png_encoding(1, 4, palette_bytes(colors@)) {
            Some(file) => saved matches Ok(palette) && palette.directory@ == custom_palettes_path(
                user_dir@,
            ) && palette.path@ == joined_path(
                custom_palettes_path(user_dir@),
                palette_file_name_of(unix_seconds),
            ) && palette.contents@ == file,
            None => saved matches Err(PaletteError::IoError { cause })
                && "Failed to save palette image: "@.is_prefix_of(cause@),
        },
{
    let image = palette_image(colors);
    let data = image.into_raw();
    assert(data@ =~= palette_bytes(colors@)) by {
        assert forall|at: int| 0 <= at < 12 implies data@[at] == palette_bytes(colors@)[at] by {
            let row = at / 3;
            assert(image.pixel(0, row) == colors@[row]);
        }
    }
    match encode_png(1, 4, data.as_slice()) {
        Ok(contents) => {
            let directory = custom_palettes_dir(user_dir);
            let name = palette_file_name(unix_seconds);
            let path = join_path(directory.as_str(), name.as_str());
            Ok(SavedPalette { directory, path, contents })
        },
        Err(error) => {
            let mut cause = String::from_str("Failed to save palette image: ");
            let ghost prefix = cause@;
            let text = image_error_text(&error);
            cause.append(text.as_str());
            assert(prefix.is_prefix_of(cause@)) by {
                assert(cause@.subrange(0, prefix.len() as int) =~= prefix);
            }
            Err(PaletteError::IoError { cause })
        },
    }
}

/// A place where the bundled palettes may be, and whether a directory was
/// found there.
#[derive(Clone, Debug, PartialEq, Eq)]
pub struct RootCandidate {
    pub path: String,
    pub is_dir: bool,
}

/// Picks the bundled palette root: the first candidate that is a directory.
/// With no such candidate there are no bundled palettes.
pub fn bundled_palettes_dir(candidates: &Vec<RootCandidate>) -> (dir: Option<String>)
    ensures
        match dir {
            Some(path) => exists|i: int|
                0 <= i < candidates@.len() && (#[trigger] candidates@[i]).is_dir && path@
                    == candidates@[i].path@ && forall|j: int|
                    0 <= j < i ==> !(#[trigger] candidates@[j]).is_dir,
            None => forall|i: int| 0 <= i < candidates@.len() ==> !(#[trigger] candidates@[i]).is_dir,
        },
{
    let mut i: usize = 0;
    while i < candidates.len()
        invariant
            0 <= i <= candidates@.len(),
            forall|j: int| 0 <= j < i ==> !(#[trigger] candidates@[j]).is_dir,
        decreases candidates@.len() - i,
    {
        if candidates[i].is_dir {
            return Some(candidates[i].path.clone());
        }
        i += 1;
    }
    None
}

/// The path `levels` parents above `path`, if it has that many.
pub open spec fn ancestor_path(path: Seq<char>, levels: nat) -> Option<Seq<char>>
    decreases levels,
{
    if levels == 0 {
        Some(path)
    } else {
        match parent_path(path) {
            Some(parent) => ancestor_path(parent, (levels - 1) as nat),
            None => None,
        }
    }
}

/// The development location of the bundled palettes: `data/palettes` three
/// levels above the executable.
pub open spec fn development_root(exe: Seq<char>) -> Option<Seq<char>> {
    match ancestor_path(exe, 3) {
        Some(project) => Some(joined_path(joined_path(project, "data"@), "palettes"@)),
        None => None,
    }
}

/// The installed location of the bundled palettes relative to the
/// executable: `share/wallrus/palettes` two levels above it.
pub open spec fn installed_root(exe: Seq<char>) -> Option<Seq<char>> {
    match ancestor_path(exe, 2) {
        Some(prefix) => Some(
            joined_path(joined_path(joined_path(prefix, "share"@), "wallrus"@), "palettes"@),
        ),
        None => None,
    }
}

/// A sequence of at most one text.
pub open spec fn optional_path(path: Option<Seq<char>>) -> Seq<Seq<char>> {
    match path {
        Some(p) => seq![p],
        None => Seq::empty(),
    }
}

/// The places to look for the bundled palettes, in order: next to a
/// development build, under the installation prefix, system-wide, and inside
/// a sandboxed installation. The first two need the executable's path.
pub open spec fn bundled_candidate_paths(exe: Option<Seq<char>>) -> Seq<Seq<char>> {
    let relative = match exe {
        Some(e) => optional_path(development_root(e)) + optional_path(installed_root(e)),
        None => Seq::empty(),
    };
    relative + seq!["/usr/share/wallrus/palettes"@, "/app/share/wallrus/palettes"@]
}

fn ancestor(path: &str, levels: u8) -> (found: Option<String>)
    ensures
        found matches Some(p) ==> ancestor_path(path@, levels as nat) == Some(p@),
        found is None ==> ancestor_path(path@, levels as nat) is None,
    decreases levels,
{
    if levels == 0 {
        Some(String::from_str(path))
    } else {
        match path_parent(path) {
            Some(parent) => ancestor(parent.as_str(), levels - 1),
            None => None,
        }
    }
}

/// Lists the places to look for the bundled palettes, in order, given the
/// path of the running executable where it is known.
pub fn bundled_palette_candidates(exe: Option<&str>) -> (paths: Vec<String>)
    ensures
        texts_of(paths@) == bundled_candidate_paths(
            match exe {
                Some(e) => Some(e@),
                None => None,
            },
        ),
{
    let mut paths: Vec<String> = Vec::new();
    if let Some(e) = exe {
        if let Some(project) = ancestor(e, 3) {
            let data = join_path(project.as_str(), "data");
            paths.push(join_path(data.as_str(), "palettes"));
        }
        assert(texts_of(paths@) =~= optional_path(development_root(e@)));
        if let Some(prefix) = ancestor(e, 2) {
            let share = join_path(prefix.as_str(), "share");
            let wallrus = join_path(share.as_str(), "wallrus");
            paths.push(join_path(wallrus.as_str(), "palettes"));
        }
        assert(texts_of(paths@) =~= optional_path(development_root(e@)) + optional_path(
            installed_root(e@),
        ));
    }
    let ghost relative = texts_of(paths@);
    paths.push(String::from_str("/usr/share/wallrus/palettes"));
    paths.push(String::from_str("/app/share/wallrus/palettes"));
    assert(texts_of(paths@) =~= relative + seq![
        "/usr/share/wallrus/palettes"@,
        "/app/share/wallrus/palettes"@,
    ]);
    paths
}

/// Every file that the decoder knows by its extension and that decodes to a
/// picture with at least one pixel yields four colours: colour `i` is the
/// pixel at the centre column and at the sample row of band `i`, which lies
/// inside the picture whatever its height.
pub proof fn lemma_decodable_file_yields_four_colours(
    file_name: Seq<char>,
    bytes: Seq<u8>,
    format: PaletteFormat,
    width: u32,
    height: u32,
    data: Seq<u8>,
)
    requires
        format_of_name(file_name) == Some(format),
        decoded_rgb8(format, bytes) == Some((width, height, data)),
        width >= 1,
        height >= 1,
    ensures
        extracted_colors(file_name, bytes) is Ok,
        extracted_colors(file_name, bytes)->Ok_0.len() == 4,
        forall|i: int|
            0 <= i < 4 ==> 0 <= sample_row(height as int, i) < height && #[trigger] extracted_colors(
                file_name,
                bytes,
            )->Ok_0[i] == pixel_at(
                data,
                width as int,
                sample_column(width as int),
                sample_row(height as int, i),
            ),
{
    lemma_sample_row_in_bounds(height as int, 0);
    lemma_sample_row_in_bounds(height as int, 1);
    lemma_sample_row_in_bounds(height as int, 2);
    lemma_sample_row_in_bounds(height as int, 3);
}

/// A file that decodes to a picture one pixel wide and four tall yields
/// exactly the picture's four pixels, in row order.
pub proof fn lemma_one_by_four_file_yields_rows(
    file_name: Seq<char>,
    bytes: Seq<u8>,
    format: PaletteFormat,
    data: Seq<u8>,
)
    requires
        format_of_name(file_name) == Some(format),
        decoded_rgb8(format, bytes) == Some((1u32, 4u32, data)),
    ensures
        extracted_colors(file_name, bytes) == Ok::<Seq<Color>, PaletteError>(
            seq![
                pixel_at(data, 1, 0, 0),
                pixel_at(data, 1, 0, 1),
                pixel_at(data, 1, 0, 2),
                pixel_at(data, 1, 0, 3),
            ],
        ),
{
    lemma_one_by_four_sampled(data);
}

/// Four colours laid out as a palette raster are sampled back unchanged.
pub proof fn lemma_palette_bytes_sample_back(colors: Seq<Color>)
    requires
        colors.len() == 4,
    ensures
        sampled_from(palette_bytes(colors), 1, 4) == colors,
{
    let sampled = sampled_from(palette_bytes(colors), 1, 4);
    assert forall|band: int| 0 <= band < 4 implies sampled[band] == colors[band] by {
        assert(sample_row(4, band) == band);
        assert(sample_column(1) == 0);
        assert(3 * (band * 1 + 0) == 3 * band);
    }
    assert(sampled =~= colors);
}

/// A palette file name has the extension `png`.
pub proof fn lemma_palette_file_name_extension(unix_seconds: u64)
    ensures
        extension_of(palette_file_name_of(unix_seconds)) == Some("png"@),
{
    reveal_strlit(".png");
    reveal_strlit("png");
    reveal_strlit("palette_");
    let name = palette_file_name_of(unix_seconds);
    let n = name.len() as int;
    assert(name[n - 1] == 'g' && name[n - 2] == 'n' && name[n - 3] == 'p' && name[n - 4] == '.');
    assert(last_dot_before(name, n) == n - 4) by {
        reveal_with_fuel(last_dot_before, 5);
    }
    assert(name.len() >= 12);
    assert(name != seq!['.', '.']);
    assert(name.subrange(n - 3, n) =~= "png"@);
}

/// Saving and reading back gives the colours that were saved, wherever the
/// outside code does what is expected of it on this file: the decoder reads
/// the extension `png` as PNG, and decoding the encoded raster gives the
/// raster back.
pub proof fn lemma_saved_palette_reads_back(colors: Seq<Color>, unix_seconds: u64, file: Seq<u8>)
    requires
        colors.len() == 4,
        decoder_format("png"@) == Some(PaletteFormat::Png),
        png_encoding(1, 4, palette_bytes(colors)) == Some(file),
        decoded_rgb8(PaletteFormat::Png, file) == Some((1u32, 4u32, palette_bytes(colors))),
    ensures
        extracted_colors(palette_file_name_of(unix_seconds), file) == Ok::<
            Seq<Color>,
            PaletteError,
        >(colors),
{
    lemma_palette_file_name_extension(unix_seconds);
    lemma_palette_bytes_sample_back(colors);
}

/// A palette file name never steps up to a parent directory.
pub proof fn lemma_palette_file_name_is_plain(unix_seconds: u64)
    ensures
        palette_file_name_of(unix_seconds)[0] != SEPARATOR,
        !components_of(palette_file_name_of(unix_seconds)).contains(parent_step()),
{
    reveal_strlit("palette_");
    reveal_strlit(".png");
    let name = palette_file_name_of(unix_seconds);
    let digits = decimal_of(unix_seconds as nat);
    assert(name[0] == 'p');
    if components_of(name).contains(parent_step()) {
        lemma_parent_step_shows(name);
        let i = choose|i: int|
            0 <= i && i + 1 < name.len() && name[i] == '.' && #[trigger] name[i + 1] == '.';
        if 8 <= i < 8 + digits.len() {
            assert(name[i] == digits[i - 8]);
            lemma_decimal_has_digits_only(unix_seconds as nat, i - 8);
        } else if i >= 8 + digits.len() {
            assert(name[i] == ".png"@[i - 8 - digits.len()]);
            assert(name[i + 1] == ".png"@[i + 1 - 8 - digits.len()]);
        } else {
            assert(name[i] == "palette_"@[i]);
        }
    }
}

/// A saved palette may be deleted again: its path stays within the user
/// palette root, wherever the root's own path does not step up to a parent
/// directory and the lowercase name of the custom folder is a plain name.
pub proof fn lemma_saved_palette_is_inside_user_root(user_dir: Seq<char>, unix_seconds: u64)
    requires
        !components_of(user_dir).contains(parent_step()),
        lowercase_of(CUSTOM_CATEGORY@).len() == 0 || lowercase_of(CUSTOM_CATEGORY@)[0]
            != SEPARATOR,
        !components_of(lowercase_of(CUSTOM_CATEGORY@)).contains(parent_step()),
    ensures
        stays_within(
            joined_path(custom_palettes_path(user_dir), palette_file_name_of(unix_seconds)),
            user_dir,
        ),
{
    let folder = custom_palettes_path(user_dir);
    let name = palette_file_name_of(unix_seconds);
    lemma_palette_file_name_is_plain(unix_seconds);
    lemma_joined_path_within(user_dir, lowercase_of(CUSTOM_CATEGORY@));
    lemma_joined_path_within(folder, name);
    lemma_path_within_transitive(joined_path(folder, name), folder, user_dir);
    lemma_joined_path_steps(user_dir, lowercase_of(CUSTOM_CATEGORY@));
    lemma_joined_path_steps(folder, name);
}

/// Decides whether a palette image may be deleted. Only files inside the
/// user palette root may: the path must begin with the root's components and
/// must not step up to a parent directory anywhere. For any other path the
/// answer is `PermissionDenied`, and the caller removes nothing. The caller
/// hands over paths with symbolic links resolved.
pub fn delete_palette_image(path: &str, user_dir: &str) -> (verdict: Result<(), PaletteError>)
    ensures
        stays_within(path@, user_dir@) ==> verdict == Ok::<(), PaletteError>(()),
        !stays_within(path@, user_dir@) ==> verdict == Err::<(), PaletteError>(
            PaletteError::PermissionDenied,
        ),
{
    if path_stays_within(path, user_dir) {
        Ok(())
    } else {
        Err(PaletteError::PermissionDenied)
    }
}

} // verus!
