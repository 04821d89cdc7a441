use wallrus::catalog::{
    collect_categorized_images, insert_image, list_palette_categories, Category, DirEntry,
    EntryKind, PaletteFile, PlacedImage, RootEntry,
};

fn entry(dir: &str, name: &str, kind: EntryKind) -> DirEntry {
    DirEntry { name: name.to_string(), path: format!("{}/{}", dir, name), kind }
}

fn loose(root: &str, name: &str) -> RootEntry {
    RootEntry { entry: entry(root, name, EntryKind::File), children: Vec::new() }
}

fn folder(root: &str, name: &str, files: &[&str]) -> RootEntry {
    let dir = format!("{}/{}", root, name);
    RootEntry {
        entry: entry(root, name, EntryKind::Directory),
        children: files.iter().map(|f| entry(&dir, f, EntryKind::File)).collect(),
    }
}

fn names(catalog: &[Category]) -> Vec<&str> {
    catalog.iter().map(|c| c.name.as_str()).collect()
}

fn paths(category: &Category) -> Vec<&str> {
    category.images.iter().map(|f| f.path.as_str()).collect()
}

fn file(name: &str, path: &str) -> PaletteFile {
    PaletteFile { name: name.to_string(), path: path.to_string() }
}

#[test]
fn two_roots_are_merged_into_sorted_categories() {
    let bundled = vec![folder("/b", "warm", &["b.png", "a.png"]), loose("/b", "c.png")];
    let user = vec![folder("/u", "custom", &["d.png"])];
    let catalog = list_palette_categories(&bundled, &user);
    assert_eq!(names(&catalog), vec!["Custom", "Uncategorized", "Warm"]);
    assert_eq!(paths(&catalog[0]), vec!["/u/custom/d.png"]);
    assert_eq!(paths(&catalog[1]), vec!["/b/c.png"]);
    assert_eq!(paths(&catalog[2]), vec!["/b/warm/a.png", "/b/warm/b.png"]);
    assert_eq!(catalog[2].images[0], file("a.png", "/b/warm/a.png"));
}

#[test]
fn same_category_in_both_roots_is_one_category() {
    let bundled = vec![folder("/b", "warm", &["m.png", "c.png"]), loose("/b", "z.jpg")];
    let user = vec![folder("/u", "Warm", &["x.png", "a.png"]), loose("/u", "b.webp")];
    let catalog = list_palette_categories(&bundled, &user);
    assert_eq!(names(&catalog), vec!["Uncategorized", "Warm"]);
    assert_eq!(paths(&catalog[0]), vec!["/u/b.webp", "/b/z.jpg"]);
    assert_eq!(
        paths(&catalog[1]),
        vec!["/u/Warm/a.png", "/b/warm/c.png", "/b/warm/m.png", "/u/Warm/x.png"]
    );
}

#[test]
fn files_of_the_same_name_keep_the_order_of_the_roots() {
    let bundled = vec![folder("/b", "warm", &["a.png"])];
    let user = vec![folder("/u", "warm", &["a.png"])];
    let catalog = list_palette_categories(&bundled, &user);
    assert_eq!(paths(&catalog[0]), vec!["/b/warm/a.png", "/u/warm/a.png"]);
    let swapped = list_palette_categories(&user, &bundled);
    assert_eq!(paths(&swapped[0]), vec!["/u/warm/a.png", "/b/warm/a.png"]);
}

#[test]
fn listing_does_not_depend_on_enumeration_order() {
    let one = vec![
        folder("/b", "warm", &["b.png", "a.png", "c.png"]),
        loose("/b", "y.png"),
        folder("/b", "cool", &["k.jpg", "j.jpg"]),
        loose("/b", "x.png"),
    ];
    let other = vec![
        loose("/b", "x.png"),
        folder("/b", "cool", &["j.jpg", "k.jpg"]),
        loose("/b", "y.png"),
        folder("/b", "warm", &["c.png", "b.png", "a.png"]),
    ];
    let user = vec![folder("/u", "custom", &["q.png", "p.png"])];
    let first = list_palette_categories(&one, &user);
    assert_eq!(first, list_palette_categories(&other, &user));
    assert_eq!(first, list_palette_categories(&one, &user));
    assert_eq!(names(&first), vec!["Cool", "Custom", "Uncategorized", "Warm"]);
    assert_eq!(paths(&first[2]), vec!["/b/x.png", "/b/y.png"]);
}

#[test]
fn names_sort_by_bytes_not_by_alphabet() {
    let bundled = vec![
        folder("/b", "Zeta", &["b.png", "B.png", "10.png", "9.png", "a.png"]),
        folder("/b", "alpha", &["x.png"]),
        folder("/b", "élan", &["x.png"]),
    ];
    let catalog = list_palette_categories(&bundled, &Vec::new());
    assert_eq!(names(&catalog), vec!["Alpha", "Zeta", "Élan"]);
    assert_eq!(
        paths(&catalog[1]),
        vec!["/b/Zeta/10.png", "/b/Zeta/9.png", "/b/Zeta/B.png", "/b/Zeta/a.png", "/b/Zeta/b.png"]
    );
}

#[test]
fn only_regular_image_files_are_listed() {
    let dir = "/b/warm";
    let bundled = vec![
        RootEntry {
            entry: entry("/b", "warm", EntryKind::Directory),
            children: vec![
                entry(dir, "a.png", EntryKind::File),
                entry(dir, "notes.txt", EntryKind::File),
                entry(dir, "nested.png", EntryKind::Directory),
                entry(dir, "socket.png", EntryKind::Other),
                entry(dir, "B.JPG", EntryKind::File),
            ],
        },
        loose("/b", "readme.md"),
        RootEntry { entry: entry("/b", "broken.png", EntryKind::Other), children: Vec::new() },
    ];
    let catalog = list_palette_categories(&bundled, &Vec::new());
    assert_eq!(names(&catalog), vec!["Warm"]);
    assert_eq!(paths(&catalog[0]), vec!["/b/warm/B.JPG", "/b/warm/a.png"]);
}

#[test]
fn folders_without_images_are_no_categories() {
    let bundled = vec![folder("/b", "empty", &[]), folder("/b", "texts", &["a.txt"])];
    assert_eq!(list_palette_categories(&bundled, &Vec::new()), Vec::new());
    assert_eq!(list_palette_categories(&Vec::new(), &Vec::new()), Vec::new());
}

#[test]
fn children_of_a_file_entry_are_ignored() {
    let odd = RootEntry {
        entry: entry("/b", "c.png", EntryKind::File),
        children: vec![entry("/b/c.png", "inner.png", EntryKind::File)],
    };
    let catalog = list_palette_categories(&vec![odd], &Vec::new());
    assert_eq!(names(&catalog), vec!["Uncategorized"]);
    assert_eq!(paths(&catalog[0]), vec!["/b/c.png"]);
}

#[test]
fn a_folder_named_uncategorized_shares_the_loose_files_category() {
    let bundled = vec![loose("/b", "b.png"), folder("/b", "uncategorized", &["a.png"])];
    let catalog = list_palette_categories(&bundled, &Vec::new());
    assert_eq!(names(&catalog), vec!["Uncategorized"]);
    assert_eq!(paths(&catalog[0]), vec!["/b/uncategorized/a.png", "/b/b.png"]);
}

#[test]
fn collect_appends_in_listing_order() {
    let root = vec![folder("/b", "warm", &["b.png", "x.txt", "a.png"]), loose("/b", "c.png")];
    let mut found = vec![PlacedImage {
        category: "Earlier".to_string(),
        file: file("e.png", "/e/e.png"),
    }];
    collect_categorized_images(&root, &mut found);
    let seen: Vec<(&str, &str)> =
        found.iter().map(|p| (p.category.as_str(), p.file.path.as_str())).collect();
    assert_eq!(
        seen,
        vec![
            ("Earlier", "/e/e.png"),
            ("Warm", "/b/warm/b.png"),
            ("Warm", "/b/warm/a.png"),
            ("Uncategorized", "/b/c.png"),
        ]
    );
}

#[test]
fn insert_image_goes_behind_equal_names() {
    let mut images = vec![file("a", "1"), file("b", "2"), file("b", "3"), file("d", "4")];
    insert_image(&mut images, file("b", "new"));
    insert_image(&mut images, file("c", "c"));
    insert_image(&mut images, file("", "first"));
    insert_image(&mut images, file("e", "last"));
    let order: Vec<&str> = images.iter().map(|f| f.path.as_str()).collect();
    assert_eq!(order, vec!["first", "1", "2", "3", "new", "c", "4", "last"]);
}
