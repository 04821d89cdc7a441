use wallrus::palette::{
    bundled_palette_candidates, bundled_palettes_dir, capitalize_first, custom_palettes_dir,
    delete_palette_image, is_custom_category, is_image_extension, is_image_file,
    palette_file_name, user_palettes_dir, PaletteError, RootCandidate, CUSTOM_CATEGORY,
};
use wallrus::paths::{
    file_extension, join_path, path_components, path_starts_with, path_stays_within,
};
use wallrus::text::{bytes_le_slices, chars_of, str_eq, str_le, u64_to_decimal};

fn candidate(path: &str, is_dir: bool) -> RootCandidate {
    RootCandidate { path: path.to_string(), is_dir }
}

#[test]
fn capitalize_first_uppercases_the_first_letter_only() {
    assert_eq!(capitalize_first("warm"), "Warm");
    assert_eq!(capitalize_first("custom"), "Custom");
    assert_eq!(capitalize_first("Warm"), "Warm");
    assert_eq!(capitalize_first("wARM tones"), "WARM tones");
    assert_eq!(capitalize_first("x"), "X");
    assert_eq!(capitalize_first(""), "");
    assert_eq!(capitalize_first("1st"), "1st");
}

#[test]
fn capitalize_first_follows_unicode() {
    assert_eq!(capitalize_first("élan"), "Élan");
    assert_eq!(capitalize_first("ßen"), "SSen");
}

#[test]
fn custom_category_is_matched_exactly() {
    assert_eq!(CUSTOM_CATEGORY, "Custom");
    assert!(is_custom_category("Custom"));
    assert!(!is_custom_category("custom"));
    assert!(!is_custom_category("Custom "));
    assert!(!is_custom_category(""));
    assert!(is_custom_category(&capitalize_first("custom")));
}

#[test]
fn image_files_are_known_by_extension_in_any_case() {
    assert!(is_image_file("a.png"));
    assert!(is_image_file("a.jpg"));
    assert!(is_image_file("a.jpeg"));
    assert!(is_image_file("a.webp"));
    assert!(is_image_file("A.PNG"));
    assert!(is_image_file("photo.JpEg"));
    assert!(is_image_file("archive.tar.png"));
    assert!(!is_image_file("a.gif"));
    assert!(!is_image_file("a.jfif"));
    assert!(!is_image_file("a.apng"));
    assert!(!is_image_file("a.png.txt"));
    assert!(!is_image_file("png"));
    assert!(!is_image_file(".png"));
    assert!(!is_image_file("a."));
    assert!(!is_image_file(""));
    assert!(!is_image_file(".."));
}

#[test]
fn image_extensions_are_looked_up_in_lowercase() {
    assert!(is_image_extension("png"));
    assert!(is_image_extension("jpg"));
    assert!(is_image_extension("jpeg"));
    assert!(is_image_extension("webp"));
    assert!(!is_image_extension("PNG"));
    assert!(!is_image_extension("jfif"));
    assert!(!is_image_extension("apng"));
    assert!(!is_image_extension(""));
}

#[test]
fn file_extension_is_what_follows_the_last_dot() {
    assert_eq!(file_extension("a.png"), Some("png".to_string()));
    assert_eq!(file_extension("a.b.c"), Some("c".to_string()));
    assert_eq!(file_extension("a."), Some(String::new()));
    assert_eq!(file_extension("..."), Some(String::new()));
    assert_eq!(file_extension(".hidden.txt"), Some("txt".to_string()));
    assert_eq!(file_extension("ä.ö"), Some("ö".to_string()));
    assert_eq!(file_extension("a"), None);
    assert_eq!(file_extension(".hidden"), None);
    assert_eq!(file_extension(".."), None);
    assert_eq!(file_extension("."), None);
    assert_eq!(file_extension(""), None);
}

#[test]
fn file_extension_agrees_with_std_on_file_names() {
    for name in ["a.png", "a", ".a", "..", "...", "a.", "a..b", ".a.b", "", "x.tar.gz"] {
        let expected = std::path::Path::new(name)
            .extension()
            .map(|e| e.to_string_lossy().into_owned());
        assert_eq!(file_extension(name), expected, "{}", name);
    }
}

#[test]
fn join_path_puts_one_separator_between() {
    assert_eq!(join_path("/a", "b"), "/a/b");
    assert_eq!(join_path("/a/", "b"), "/a/b");
    assert_eq!(join_path("", "b"), "b");
    assert_eq!(join_path("/", "b"), "/b");
    assert_eq!(join_path("a", ""), "a/");
    assert_eq!(join_path("/a", "/b"), "/b");
    assert_eq!(join_path("a/b", "c/d"), "a/b/c/d");
}

#[test]
fn join_path_agrees_with_std() {
    for base in ["", "/", "a", "/a", "a/", "/a/b", "a//"] {
        for part in ["", "b", "/b", "b/c", ".", ".."] {
            let expected = std::path::Path::new(base).join(part).to_string_lossy().into_owned();
            assert_eq!(join_path(base, part), expected, "{:?} {:?}", base, part);
        }
    }
}

#[test]
fn user_directories_lie_under_the_data_directory() {
    assert_eq!(user_palettes_dir("/home/u/.local/share"), "/home/u/.local/share/palettes");
    assert_eq!(custom_palettes_dir("/home/u/.local/share/palettes"), "/home/u/.local/share/palettes/custom");
}

#[test]
fn palette_file_name_embeds_the_seconds() {
    assert_eq!(palette_file_name(0), "palette_0.png");
    assert_eq!(palette_file_name(7), "palette_7.png");
    assert_eq!(palette_file_name(1_700_000_000), "palette_1700000000.png");
    assert_eq!(palette_file_name(u64::MAX), "palette_18446744073709551615.png");
    assert!(is_image_file(&palette_file_name(42)));
}

#[test]
fn decimal_numerals_have_no_leading_zeros() {
    assert_eq!(u64_to_decimal(0), "0");
    assert_eq!(u64_to_decimal(9), "9");
    assert_eq!(u64_to_decimal(10), "10");
    assert_eq!(u64_to_decimal(1005), "1005");
    assert_eq!(u64_to_decimal(u64::MAX), u64::MAX.to_string());
}

#[test]
fn names_are_ordered_like_their_bytes() {
    let names = ["", "a", "A", "a.png", "b.png", "B.png", "ab", "a b", "é", "z", "10", "9", "日本"];
    for a in names {
        for b in names {
            assert_eq!(str_le(a, b), a.as_bytes() <= b.as_bytes(), "{:?} {:?}", a, b);
            assert_eq!(str_eq(a, b), a == b, "{:?} {:?}", a, b);
            assert_eq!(bytes_le_slices(a.as_bytes(), b.as_bytes()), a <= b);
        }
    }
}

#[test]
fn byte_sequences_compare_lexicographically() {
    assert!(bytes_le_slices(b"", b""));
    assert!(bytes_le_slices(b"", b"a"));
    assert!(!bytes_le_slices(b"a", b""));
    assert!(bytes_le_slices(b"ab", b"abc"));
    assert!(bytes_le_slices(b"abc", b"abd"));
    assert!(!bytes_le_slices(b"b", b"abc"));
    assert!(bytes_le_slices(&[0x7f], &[0x80]));
    assert!(!bytes_le_slices(&[0xff], &[0x00, 0xff]));
}

#[test]
fn chars_of_keeps_every_scalar_value() {
    assert_eq!(chars_of("aé日"), vec!['a', 'é', '日']);
    assert_eq!(chars_of(""), Vec::<char>::new());
}

#[test]
fn first_existing_candidate_is_the_bundled_root() {
    let candidates = vec![
        candidate("/proj/data/palettes", false),
        candidate("/usr/local/share/wallrus/palettes", true),
        candidate("/usr/share/wallrus/palettes", true),
    ];
    assert_eq!(
        bundled_palettes_dir(&candidates),
        Some("/usr/local/share/wallrus/palettes".to_string())
    );
}

#[test]
fn no_existing_candidate_means_no_bundled_root() {
    assert_eq!(bundled_palettes_dir(&Vec::new()), None);
    assert_eq!(bundled_palettes_dir(&vec![candidate("/a", false), candidate("/b", false)]), None);
}

#[test]
fn candidates_are_probed_in_the_documented_order() {
    assert_eq!(
        bundled_palette_candidates(Some("/home/u/proj/target/debug/wallrus")),
        vec![
            "/home/u/proj/data/palettes",
            "/home/u/proj/target/share/wallrus/palettes",
            "/usr/share/wallrus/palettes",
            "/app/share/wallrus/palettes",
        ]
    );
    assert_eq!(
        bundled_palette_candidates(Some("/usr/bin/wallrus")),
        vec![
            "/data/palettes",
            "/usr/share/wallrus/palettes",
            "/usr/share/wallrus/palettes",
            "/app/share/wallrus/palettes",
        ]
    );
}

#[test]
fn candidates_without_an_executable_path_are_the_fixed_ones() {
    let fixed = vec!["/usr/share/wallrus/palettes", "/app/share/wallrus/palettes"];
    assert_eq!(bundled_palette_candidates(None), fixed);
    assert_eq!(bundled_palette_candidates(Some("/")), fixed);
    assert_eq!(
        bundled_palette_candidates(Some("/bin/wallrus")),
        vec![
            "/share/wallrus/palettes",
            "/usr/share/wallrus/palettes",
            "/app/share/wallrus/palettes",
        ]
    );
}

#[test]
fn deletion_is_allowed_inside_the_user_root_only() {
    let root = "/home/u/.local/share/palettes";
    assert_eq!(delete_palette_image("/home/u/.local/share/palettes/custom/p.png", root), Ok(()));
    assert_eq!(delete_palette_image("/home/u/.local/share/palettes/p.png", root), Ok(()));
    assert_eq!(
        delete_palette_image("/usr/share/wallrus/palettes/warm/a.png", root),
        Err(PaletteError::PermissionDenied)
    );
    assert_eq!(delete_palette_image("custom/p.png", root), Err(PaletteError::PermissionDenied));
    assert_eq!(delete_palette_image("", root), Err(PaletteError::PermissionDenied));
}

#[test]
fn a_path_that_only_shares_leading_text_is_outside() {
    let root = "/home/u/.local/share/palettes";
    assert_eq!(
        delete_palette_image("/home/u/.local/share/palettes2/p.png", root),
        Err(PaletteError::PermissionDenied)
    );
    assert_eq!(
        delete_palette_image("/home/u/.local/share/palettes.bak", root),
        Err(PaletteError::PermissionDenied)
    );
}

#[test]
fn paths_split_into_their_components() {
    assert_eq!(path_components("/a/b"), vec!["/", "a", "b"]);
    assert_eq!(path_components("a/b"), vec!["a", "b"]);
    assert_eq!(path_components("/a//b/./c/"), vec!["/", "a", "b", "c"]);
    assert_eq!(path_components("./a"), vec![".", "a"]);
    assert_eq!(path_components("."), vec!["."]);
    assert_eq!(path_components("a/../b"), vec!["a", "..", "b"]);
    assert_eq!(path_components(".a/.b"), vec![".a", ".b"]);
    assert_eq!(path_components("/"), vec!["/"]);
    assert_eq!(path_components(""), Vec::<String>::new());
    assert_eq!(path_components("dé/日本"), vec!["dé", "日本"]);
}

#[test]
fn components_agree_with_std() {
    let paths = [
        "", "/", "//", ".", "..", "./", "./.", "/.", "/..", "a", "a/", "/a", "/a/", "a/b", "a//b",
        "a/./b", "./a", "../a", "a/..", "/a/b/c", "/a/b/../c", ".a", "a.", "...", "a/.../b",
        "/home/u/.local/share/palettes", "/home/u/.local/share/palettes/custom/p.png", ".//a",
        "/./a", "a/.", "é/ü",
    ];
    for path in paths {
        let expected: Vec<String> = std::path::Path::new(path)
            .components()
            .map(|c| c.as_os_str().to_string_lossy().into_owned())
            .collect();
        assert_eq!(path_components(path), expected, "{:?}", path);
    }
}

#[test]
fn containment_agrees_with_std() {
    let paths = [
        "", "/", "//", ".", "..", "./", "/.", "a", "a/", "/a", "/a/", "a/b", "a//b", "a/./b",
        "./a", "./a/b", "../a", "a/..", "/a/b", "/a/b/", "/a/b/c", "/a/bc", "/ab", "/a/b/../c",
        "/home/u/.local/share/palettes", "/home/u/.local/share/palettes/custom/p.png",
        "/home/u/.local/share/palettes2/p.png", "/home/u/.local/share/palettes/../../x",
        "home/u/.local/share/palettes/p.png", "/home/u/.local/share//palettes/./p.png",
    ];
    for path in paths {
        for base in paths {
            assert_eq!(
                path_starts_with(path, base),
                std::path::Path::new(path).starts_with(base),
                "{:?} under {:?}",
                path,
                base
            );
        }
    }
}

#[test]
fn only_whole_components_count_for_containment() {
    assert!(path_starts_with("/etc/passwd", "/etc"));
    assert!(path_starts_with("/etc/passwd", "/etc/"));
    assert!(path_starts_with("/etc/passwd", "/etc/passwd"));
    assert!(path_starts_with("/etc/passwd", "/"));
    assert!(path_starts_with("/etc//passwd", "/etc"));
    assert!(path_starts_with("etc/passwd", ""));
    assert!(!path_starts_with("/etc/passwd", "/e"));
    assert!(!path_starts_with("/etc/passwd", "/etc/passwd.txt"));
    assert!(!path_starts_with("/etc/foo.rs", "/etc/foo"));
    assert!(!path_starts_with("/etc", "/etc/passwd"));
    assert!(!path_starts_with("etc/passwd", "/etc"));
}

#[test]
fn palette_errors_have_messages() {
    assert_eq!(PaletteError::InvalidImage.message(), "Failed to load image");
    assert_eq!(PaletteError::PermissionDenied.message(), "Cannot delete bundled palettes");
    let error = PaletteError::IoError { cause: "Failed to delete palette: gone".to_string() };
    assert_eq!(error.message(), "Failed to delete palette: gone");
}

#[test]
fn a_path_that_steps_up_is_outside() {
    let root = "/home/u/.local/share/palettes";
    for path in [
        "/home/u/.local/share/palettes/../x.png",
        "/home/u/.local/share/palettes/custom/../../x.png",
        "/home/u/.local/share/palettes/custom/../p.png",
        "/home/u/.local/share/palettes/..",
        "/home/u/.local/share/palettes/a/b/../../../../etc/passwd",
    ] {
        assert_eq!(delete_palette_image(path, root), Err(PaletteError::PermissionDenied), "{}", path);
        assert!(path_starts_with(path, root));
        assert!(!path_stays_within(path, root));
    }
    assert_eq!(delete_palette_image("/home/u/.local/share/palettes/..png", root), Ok(()));
    assert_eq!(delete_palette_image("/home/u/.local/share/palettes/a..b/c.png", root), Ok(()));
    assert_eq!(delete_palette_image("/home/u/.local/share/palettes/./c.png", root), Ok(()));
}

#[test]
fn staying_within_needs_the_base_in_front_and_no_step_up() {
    assert!(path_stays_within("/a/b/c", "/a/b"));
    assert!(path_stays_within("/a/b", "/a/b"));
    assert!(path_stays_within("a/b", ""));
    assert!(!path_stays_within("/a/bc", "/a/b"));
    assert!(!path_stays_within("/a", "/a/b"));
    assert!(!path_stays_within("/a/b/../c", "/a/b"));
    assert!(!path_stays_within("/a/../a/b/c", "/a/../a/b"));
    assert!(!path_stays_within("../a", ""));
}
