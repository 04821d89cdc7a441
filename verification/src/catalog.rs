//! The palette catalogue: what a scan of the palette roots found, grouped
//! into categories that are sorted by name, each with its images sorted by
//! file name.

use vstd::prelude::*;
use vstd::string::StringExecFns;
use crate::palette::{capitalize_first, capitalized, is_image_file, is_image_name, UNCATEGORIZED};
use crate::text::{lex_le, lex_lt, str_le};
use crate::text::{lemma_lex_le_antisymmetric, lemma_lex_le_reflexive};
use crate::text::{lemma_lex_le_total, lemma_lex_le_transitive};

verus! {

/// The mathematical model of a palette image: file name and path as text.
pub struct FileModel {
    pub name: Seq<char>,
    pub path: Seq<char>,
}

/// A palette image of the catalogue.
#[derive(Clone, Debug, PartialEq, Eq)]
pub struct PaletteFile {
    pub name: String,
    pub path: String,
}

impl View for PaletteFile {
    type V = FileModel;

    open spec fn view(&self) -> FileModel {
        FileModel { name: self.name@, path: self.path@ }
    }
}

/// The models of a sequence of palette images.
pub open spec fn files_of(images: Seq<PaletteFile>) -> Seq<FileModel> {
    images.map_values(|file: PaletteFile| file@)
}

/// Where a file of the given name goes into `sorted`, looking from position
/// `from` on: before the first file whose name comes strictly after it, so
/// behind every file of the same name.
pub open spec fn insertion_point(sorted: Seq<FileModel>, name: Seq<char>, from: int) -> int
    decreases sorted.len() - from,
{
    if from < 0 || from >= sorted.len() {
        sorted.len() as int
    } else if !lex_le(sorted[from].name, name) {
        from
    } else {
        insertion_point(sorted, name, from + 1)
    }
}

/// `sorted` with `file` put in at its insertion point.
pub open spec fn insert_by_name(sorted: Seq<FileModel>, file: FileModel) -> Seq<FileModel> {
    sorted.insert(insertion_point(sorted, file.name, 0), file)
}

/// The files sorted by name; files of the same name keep their order.
pub open spec fn sorted_by_name(files: Seq<FileModel>) -> Seq<FileModel>
    decreases files.len(),
{
    if files.len() == 0 {
        files
    } else {
        insert_by_name(sorted_by_name(files.drop_last()), files.last())
    }
}

/// Whether the names of the files never go down from one file to a later one.
pub open spec fn names_ascend(files: Seq<FileModel>) -> bool {
    forall|i: int, j: int| 0 <= i < j < files.len() ==> lex_le(files[i].name, files[j].name)
}

/// The insertion point lies inside the sequence, every file before it is
/// ordered before or with the name, and the file at it strictly after.
pub proof fn lemma_insertion_point(sorted: Seq<FileModel>, name: Seq<char>, from: int)
    requires
        0 <= from <= sorted.len(),
    ensures
        from <= insertion_point(sorted, name, from) <= sorted.len(),
        forall|i: int|
            from <= i < insertion_point(sorted, name, from) ==> lex_le(
                #[trigger] sorted[i].name,
                name,
            ),
        insertion_point(sorted, name, from) < sorted.len() ==> !lex_le(
            sorted[insertion_point(sorted, name, from)].name,
            name,
        ),
    decreases sorted.len() - from,
{
    if from < sorted.len() && lex_le(sorted[from].name, name) {
        lemma_insertion_point(sorted, name, from + 1);
    }
}

/// Inserting a file by name keeps ascending names ascending.
pub proof fn lemma_insert_keeps_order(sorted: Seq<FileModel>, file: FileModel)
    requires
        names_ascend(sorted),
    ensures
        names_ascend(insert_by_name(sorted, file)),
{
    let at = insertion_point(sorted, file.name, 0);
    lemma_insertion_point(sorted, file.name, 0);
    let result = insert_by_name(sorted, file);
    assert forall|i: int, j: int| 0 <= i < j < result.len() implies lex_le(
        result[i].name,
        result[j].name,
    ) by {
        if j == at {
            assert(result[i] == sorted[i]);
        } else if i == at {
            // sorted[at] comes strictly after the file, and sorted[j - 1] not before sorted[at]
            assert(result[j] == sorted[j - 1]);
            lemma_lex_le_total(sorted[at].name, file.name);
            if j - 1 > at {
                lemma_lex_le_transitive(file.name, sorted[at].name, sorted[j - 1].name);
            }
        } else {
            let a = if i < at {
                i
            } else {
                i - 1
            };
            let b = if j < at {
                j
            } else {
                j - 1
            };
            assert(result[i] == sorted[a] && result[j] == sorted[b]);
        }
    }
}

/// Sorting by name gives ascending names.
pub proof fn lemma_sorted_names_ascend(files: Seq<FileModel>)
    ensures
        names_ascend(sorted_by_name(files)),
    decreases files.len(),
{
    if files.len() > 0 {
        lemma_sorted_names_ascend(files.drop_last());
        lemma_insert_keeps_order(sorted_by_name(files.drop_last()), files.last());
    }
}

/// Sorting by name neither adds nor drops a file: the result holds each file
/// as many times as the input.
pub proof fn lemma_sorted_is_permutation(files: Seq<FileModel>)
    ensures
        sorted_by_name(files).to_multiset() == files.to_multiset(),
        sorted_by_name(files).len() == files.len(),
    decreases files.len(),
{
    broadcast use vstd::seq_lib::group_to_multiset_ensures;

    if files.len() > 0 {
        let rest = files.drop_last();
        let last = files.last();
        lemma_sorted_is_permutation(rest);
        let sorted = sorted_by_name(rest);
        let at = insertion_point(sorted, last.name, 0);
        lemma_insertion_point(sorted, last.name, 0);
        let result = sorted.insert(at, last);
        assert(result.remove(at) =~= sorted);
        assert(result.to_multiset().remove(last) =~= sorted.to_multiset());
        assert(rest.push(last) =~= files);
        assert(files.to_multiset() =~= rest.to_multiset().insert(last));
        assert(result.to_multiset().count(last) > 0) by {
            assert(result[at] == last);
            assert(result.contains(last));
        }
        assert(result.to_multiset() =~= sorted.to_multiset().insert(last));
    }
}

/// Puts a palette image into a list that is sorted by name, behind the images
/// of the same name.
pub fn insert_image(images: &mut Vec<PaletteFile>, file: PaletteFile)
    ensures
        files_of(final(images)@) == insert_by_name(files_of(old(images)@), file@),
{
    let ghost before = files_of(images@);
    let mut at: usize = 0;
    while at < images.len() && str_le(images[at].name.as_str(), file.name.as_str())
        invariant
            0 <= at <= images@.len(),
            files_of(images@) == before,
            insertion_point(before, file@.name, 0) == insertion_point(before, file@.name, at as int),
        decreases images@.len() - at,
    {
        at += 1;
    }
    images.insert(at, file);
    assert(files_of(images@) =~= before.insert(at as int, file@));
}

/// What kind of thing a directory entry is, symbolic links followed.
#[derive(Clone, Copy, Debug, PartialEq, Eq, Structural)]
pub enum EntryKind {
    File,
    Directory,
    Other,
}

/// One entry of a directory listing: its file name, its full path, and what
/// it is.
#[derive(Clone, Debug, PartialEq, Eq)]
pub struct DirEntry {
    pub name: String,
    pub path: String,
    pub kind: EntryKind,
}

/// An entry found directly in a palette root, with the listing of its own
/// entries if it is a directory that could be read (empty otherwise).
#[derive(Clone, Debug, PartialEq, Eq)]
pub struct RootEntry {
    pub entry: DirEntry,
    pub children: Vec<DirEntry>,
}

/// The mathematical model of an image with the category it was found under.
pub struct Placement {
    pub category: Seq<char>,
    pub file: FileModel,
}

/// An image with the category it was found under.
#[derive(Clone, Debug, PartialEq, Eq)]
pub struct PlacedImage {
    pub category: String,
    pub file: PaletteFile,
}

impl View for PlacedImage {
    type V = Placement;

    open spec fn view(&self) -> Placement {
        Placement { category: self.category@, file: self.file@ }
    }
}

/// The models of a sequence of placed images.
pub open spec fn placements_of(placed: Seq<PlacedImage>) -> Seq<Placement> {
    placed.map_values(|image: PlacedImage| image@)
}

/// Whether a directory entry is a regular file with an image extension.
pub open spec fn is_image_entry(entry: DirEntry) -> bool {
    entry.kind == EntryKind::File && is_image_name(entry.name@)
}

/// What the items of a listing give, one after another.
pub open spec fn gathered<T>(items: Seq<T>, found: spec_fn(T) -> Seq<Placement>) -> Seq<Placement>
    decreases items.len(),
{
    if items.len() == 0 {
        Seq::empty()
    } else {
        gathered(items.drop_last(), found) + found(items.last())
    }
}

/// What one entry of a folder gives: itself, placed in the folder's category,
/// if it is an image file.
pub open spec fn child_placements(category: Seq<char>, child: DirEntry) -> Seq<Placement> {
    if is_image_entry(child) {
        seq![Placement { category, file: FileModel { name: child.name@, path: child.path@ } }]
    } else {
        Seq::empty()
    }
}

/// The images among the entries of a folder, in listing order, each placed
/// in the given category.
pub open spec fn folder_placements(category: Seq<char>, children: Seq<DirEntry>) -> Seq<Placement> {
    gathered(children, |child: DirEntry| child_placements(category, child))
}

/// What one entry of a palette root contributes: a folder gives its images
/// under the folder's capitalised name, a loose image file gives itself
/// under "Uncategorized", anything else gives nothing.
pub open spec fn entry_placements(node: RootEntry) -> Seq<Placement> {
    match node.entry.kind {
        EntryKind::Directory => folder_placements(capitalized(node.entry.name@), node.children@),
        EntryKind::File => if is_image_name(node.entry.name@) {
            seq![
                Placement {
                    category: UNCATEGORIZED@,
                    file: FileModel { name: node.entry.name@, path: node.entry.path@ },
                },
            ]
        } else {
            Seq::empty()
        },
        EntryKind::Other => Seq::empty(),
    }
}

/// All images of a palette root with their categories, in listing order.
pub open spec fn root_placements(root: Seq<RootEntry>) -> Seq<Placement> {
    gathered(root, |node: RootEntry| entry_placements(node))
}

fn placed(category: &String, entry: &DirEntry) -> (image: PlacedImage)
    ensures
        image@ == (Placement {
            category: category@,
            file: FileModel { name: entry.name@, path: entry.path@ },
        }),
{
    PlacedImage {
        category: category.clone(),
        file: PaletteFile { name: entry.name.clone(), path: entry.path.clone() },
    }
}

/// Goes through the listing of one palette root and appends every image it
/// holds, with its category, to `found`.
///
/// Subfolders become categories, named by the folder's name with its first
/// letter capitalised. Image files directly in the root go into
/// "Uncategorized".
pub fn collect_categorized_images(root: &Vec<RootEntry>, found: &mut Vec<PlacedImage>)
    ensures
        placements_of(final(found)@) == placements_of(old(found)@) + root_placements(root@),
{
    let ghost start = placements_of(found@);
    let mut i: usize = 0;
    while i < root.len()
        invariant
            0 <= i <= root@.len(),
            placements_of(found@) == start + root_placements(root@.take(i as int)),
        decreases root@.len() - i,
    {
        let node = &root[i];
        let ghost before = placements_of(found@);
        proof {
            assert(root@.take(i + 1).drop_last() =~= root@.take(i as int));
            assert(root@.take(i + 1).last() == root@[i as int]);
        }
        match node.entry.kind {
            EntryKind::Directory => {
                let category = capitalize_first(node.entry.name.as_str());
                let mut j: usize = 0;
                while j < node.children.len()
                    invariant
                        0 <= j <= node.children@.len(),
                        category@ == capitalized(node.entry.name@),
                        placements_of(found@) == before + folder_placements(
                            category@,
                            node.children@.take(j as int),
                        ),
                    decreases node.children@.len() - j,
                {
                    let child = &node.children[j];
                    proof {
                        assert(node.children@.take(j + 1).drop_last() =~= node.children@.take(
                            j as int,
                        ));
                        assert(node.children@.take(j + 1).last() == node.children@[j as int]);
                    }
                    let is_image = match child.kind {
                        EntryKind::File => is_image_file(child.name.as_str()),
                        _ => false,
                    };
                    if is_image {
                        let ghost so_far = placements_of(found@);
                        let image = placed(&category, child);
                        found.push(image);
                        assert(placements_of(found@) =~= so_far.push(image@));
                    }
                    j += 1;
                }
                assert(node.children@.take(j as int) =~= node.children@);
            },
            EntryKind::File => {
                if is_image_file(node.entry.name.as_str()) {
                    let category = String::from_str(UNCATEGORIZED);
                    let image = placed(&category, &node.entry);
                    found.push(image);
                    assert(placements_of(found@) =~= before + seq![image@]);
                }
            },
            EntryKind::Other => {},
        }
        i += 1;
    }
    assert(root@.take(i as int) =~= root@);
}

/// A named group of palette images.
#[derive(Clone, Debug, PartialEq, Eq)]
pub struct Category {
    pub name: String,
    pub images: Vec<PaletteFile>,
}

/// The catalogue: categories in ascending order of their names, each with
/// its images in ascending order of their file names.
pub type PaletteCategories = Vec<Category>;

/// The files that the placements put into one category, in their order.
pub open spec fn files_in(placements: Seq<Placement>, category: Seq<char>) -> Seq<FileModel>
    decreases placements.len(),
{
    if placements.len() == 0 {
        Seq::empty()
    } else {
        let before = files_in(placements.drop_last(), category);
        if placements.last().category == category {
            before.push(placements.last().file)
        } else {
            before
        }
    }
}

/// Whether the catalogue has a category of the given name.
pub open spec fn has_category(catalog: Seq<Category>, name: Seq<char>) -> bool {
    exists|i: int| 0 <= i < catalog.len() && (#[trigger] catalog[i]).name@ == name
}

/// Whether `catalog` is the catalogue of the given placements: its category
/// names ascend strictly, every placement's category is there, no category
/// is empty, and each holds exactly the files placed in it, sorted by name
/// with files of the same name in placement order.
pub open spec fn is_catalog_of(catalog: Seq<Category>, placements: Seq<Placement>) -> bool {
    &&& forall|i: int, j: int|
        #![trigger catalog[i], catalog[j]]
        0 <= i < j < catalog.len() ==> lex_lt(catalog[i].name@, catalog[j].name@)
    &&& forall|k: int|
        0 <= k < placements.len() ==> has_category(catalog, (#[trigger] placements[k]).category)
    &&& forall|i: int|
        #![trigger catalog[i]]
        0 <= i < catalog.len() ==> catalog[i].images@.len() > 0 && files_of(catalog[i].images@)
            == sorted_by_name(files_in(placements, catalog[i].name@))
}

proof fn lemma_files_in_push(placements: Seq<Placement>, last: Placement, category: Seq<char>)
    ensures
        files_in(placements.push(last), category) == if last.category == category {
            files_in(placements, category).push(last.file)
        } else {
            files_in(placements, category)
        },
{
    assert(placements.push(last).drop_last() =~= placements);
}

proof fn lemma_sorted_push(files: Seq<FileModel>, last: FileModel)
    ensures
        sorted_by_name(files.push(last)) == insert_by_name(sorted_by_name(files), last),
{
    assert(files.push(last).drop_last() =~= files);
}

proof fn lemma_files_in_absent(placements: Seq<Placement>, category: Seq<char>)
    requires
        forall|k: int| 0 <= k < placements.len() ==> (#[trigger] placements[k]).category != category,
    ensures
        files_in(placements, category) == Seq::<FileModel>::empty(),
    decreases placements.len(),
{
    if placements.len() > 0 {
        let rest = placements.drop_last();
        assert forall|k: int| 0 <= k < rest.len() implies (#[trigger] rest[k]).category
            != category by {
            assert(rest[k] == placements[k]);
        }
        lemma_files_in_absent(rest, category);
        assert(placements.last() == placements[placements.len() - 1]);
    }
}

/// A name strictly before another differs from it.
proof fn lemma_lex_lt_differs(a: Seq<char>, b: Seq<char>)
    requires
        lex_lt(a, b),
    ensures
        a != b,
{
    lemma_lex_le_reflexive(a);
}

/// Putting one more image into the category it names keeps a catalogue a
/// catalogue.
proof fn lemma_category_extended(
    before: Seq<Category>,
    after: Seq<Category>,
    placements: Seq<Placement>,
    image: Placement,
    at: int,
)
    requires
        is_catalog_of(before, placements),
        0 <= at < before.len(),
        before[at].name@ == image.category,
        after.len() == before.len(),
        forall|i: int| 0 <= i < before.len() && i != at ==> after[i] == before[i],
        after[at].name@ == before[at].name@,
        files_of(after[at].images@) == insert_by_name(files_of(before[at].images@), image.file),
    ensures
        is_catalog_of(after, placements.push(image)),
{
    let extended = placements.push(image);
    assert forall|i: int, j: int|
        #![trigger after[i], after[j]]
        0 <= i < j < after.len() implies lex_lt(after[i].name@, after[j].name@) by {
        assert(lex_lt(before[i].name@, before[j].name@));
    }
    assert forall|k: int| 0 <= k < extended.len() implies has_category(
        after,
        (#[trigger] extended[k]).category,
    ) by {
        if k < placements.len() {
            assert(extended[k] == placements[k]);
            let w = choose|w: int|
                0 <= w < before.len() && (#[trigger] before[w]).name@ == placements[k].category;
            assert(after[w].name@ == extended[k].category);
        } else {
            assert(after[at].name@ == extended[k].category);
        }
    }
    assert forall|i: int|
        #![trigger after[i]]
        0 <= i < after.len() implies after[i].images@.len() > 0 && files_of(after[i].images@)
        == sorted_by_name(files_in(extended, after[i].name@)) by {
        lemma_files_in_push(placements, image, after[i].name@);
        if i == at {
            lemma_sorted_push(files_in(placements, image.category), image.file);
            assert(files_of(after[i].images@).len() == after[i].images@.len());
        } else {
            assert(after[i] == before[i]);
            if i < at {
                lemma_lex_lt_differs(before[i].name@, before[at].name@);
            } else {
                lemma_lex_lt_differs(before[at].name@, before[i].name@);
            }
        }
    }
}

/// Where a new name belongs in a catalogue: behind the names before it and
/// in front of all others, none of which is the same name.
proof fn lemma_new_category_place(before: Seq<Category>, category: Seq<char>, at: int)
    requires
        forall|i: int, j: int|
            #![trigger before[i], before[j]]
            0 <= i < j < before.len() ==> lex_lt(before[i].name@, before[j].name@),
        0 <= at <= before.len(),
        forall|j: int| 0 <= j < at ==> lex_lt((#[trigger] before[j]).name@, category),
        at < before.len() ==> lex_lt(category, before[at].name@),
    ensures
        forall|j: int| at <= j < before.len() ==> lex_lt(category, (#[trigger] before[j]).name@),
        forall|j: int| 0 <= j < before.len() ==> (#[trigger] before[j]).name@ != category,
{
    assert forall|j: int| at <= j < before.len() implies lex_lt(
        category,
        (#[trigger] before[j]).name@,
    ) by {
        if j > at && lex_le(before[j].name@, category) {
            assert(lex_lt(before[at].name@, before[j].name@));
            lemma_lex_le_total(before[at].name@, category);
            lemma_lex_le_transitive(before[j].name@, category, before[at].name@);
        }
    }
    assert forall|j: int| 0 <= j < before.len() implies (#[trigger] before[j]).name@
        != category by {
        if j < at {
            lemma_lex_lt_differs(before[j].name@, category);
        } else {
            lemma_lex_lt_differs(category, before[j].name@);
        }
    }
}

/// Putting an image of a new category into a catalogue, as a category of its
/// own where its name belongs, keeps the catalogue a catalogue.
proof fn lemma_category_added(
    before: Seq<Category>,
    after: Seq<Category>,
    placements: Seq<Placement>,
    image: Placement,
    at: int,
)
    requires
        is_catalog_of(before, placements),
        0 <= at <= before.len(),
        forall|j: int| 0 <= j < at ==> lex_lt((#[trigger] before[j]).name@, image.category),
        at < before.len() ==> lex_lt(image.category, before[at].name@),
        after.len() == before.len() + 1,
        forall|i: int| 0 <= i < at ==> after[i] == before[i],
        forall|i: int| at < i < after.len() ==> after[i] == before[i - 1],
        after[at].name@ == image.category,
        files_of(after[at].images@) == seq![image.file],
    ensures
        is_catalog_of(after, placements.push(image)),
{
    let category = image.category;
    let extended = placements.push(image);
    lemma_new_category_place(before, category, at);
    assert forall|i: int, j: int|
        #![trigger after[i], after[j]]
        0 <= i < j < after.len() implies lex_lt(after[i].name@, after[j].name@) by {
        if j == at {
            assert(after[i] == before[i]);
        } else if i == at {
            assert(after[j] == before[j - 1]);
        } else {
            let a = if i < at {
                i
            } else {
                i - 1
            };
            let b = if j < at {
                j
            } else {
                j - 1
            };
            assert(after[i] == before[a] && after[j] == before[b]);
            assert(lex_lt(before[a].name@, before[b].name@));
        }
    }
    assert forall|k: int| 0 <= k < extended.len() implies has_category(
        after,
        (#[trigger] extended[k]).category,
    ) by {
        if k < placements.len() {
            assert(extended[k] == placements[k]);
            let w = choose|w: int|
                0 <= w < before.len() && (#[trigger] before[w]).name@ == placements[k].category;
            let v = if w < at {
                w
            } else {
                w + 1
            };
            assert(after[v] == before[w]);
        } else {
            assert(after[at].name@ == extended[k].category);
        }
    }
    assert forall|k: int| 0 <= k < placements.len() implies (#[trigger] placements[k]).category
        != category by {
        let w = choose|w: int|
            0 <= w < before.len() && (#[trigger] before[w]).name@ == placements[k].category;
        assert(before[w].name@ != category);
    }
    lemma_files_in_absent(placements, category);
    assert forall|i: int|
        #![trigger after[i]]
        0 <= i < after.len() implies after[i].images@.len() > 0 && files_of(after[i].images@)
        == sorted_by_name(files_in(extended, after[i].name@)) by {
        lemma_files_in_push(placements, image, after[i].name@);
        if i == at {
            lemma_sorted_push(Seq::<FileModel>::empty(), image.file);
            assert(files_of(after[i].images@).len() == after[i].images@.len());
            assert(Seq::<FileModel>::empty().push(image.file) =~= seq![image.file]);
            assert(insert_by_name(Seq::<FileModel>::empty(), image.file) =~= seq![image.file]);
        } else {
            let a = if i < at {
                i
            } else {
                i - 1
            };
            assert(after[i] == before[a]);
        }
    }
}

fn add_to_catalog(
    catalog: &mut Vec<Category>,
    image: &PlacedImage,
    Ghost(placements): Ghost<Seq<Placement>>,
)
    requires
        is_catalog_of(old(catalog)@, placements),
    ensures
        is_catalog_of(final(catalog)@, placements.push(image@)),
{
    let ghost before = catalog@;
    let ghost category = image.category@;
    let mut at: usize = 0;
    while at < catalog.len() && !str_le(image.category.as_str(), catalog[at].name.as_str())
        invariant
            0 <= at <= catalog@.len(),
            catalog@ == before,
            category == image.category@,
            forall|j: int| 0 <= j < at ==> lex_lt((#[trigger] before[j]).name@, category),
        decreases catalog@.len() - at,
    {
        at += 1;
    }
    let file = PaletteFile { name: image.file.name.clone(), path: image.file.path.clone() };
    assert(file@ == image@.file);
    let known = at < catalog.len() && str_le(catalog[at].name.as_str(), image.category.as_str());
    if known {
        proof {
            lemma_lex_le_antisymmetric(before[at as int].name@, category);
        }
        let mut group = catalog.remove(at);
        insert_image(&mut group.images, file);
        catalog.insert(at, group);
        proof {
            lemma_category_extended(before, catalog@, placements, image@, at as int);
        }
    } else {
        let mut images: Vec<PaletteFile> = Vec::new();
        images.push(file);
        let group = Category { name: image.category.clone(), images };
        assert(files_of(group.images@) =~= seq![image@.file]);
        catalog.insert(at, group);
        proof {
            lemma_category_added(before, catalog@, placements, image@, at as int);
        }
    }
}

/// Lists all palette images by category.
///
/// Takes the listings of the bundled palette root and of the user palette
/// root (an absent or unreadable root is an empty listing). Images from both
/// are merged: categories are sorted by name, and the images within each by
/// file name.
pub fn list_palette_categories(bundled: &Vec<RootEntry>, user: &Vec<RootEntry>) -> (catalog:
    PaletteCategories)
    ensures
        is_catalog_of(catalog@, root_placements(bundled@) + root_placements(user@)),
{
    let mut found: Vec<PlacedImage> = Vec::new();
    collect_categorized_images(bundled, &mut found);
    collect_categorized_images(user, &mut found);
    let ghost all = placements_of(found@);
    assert(all =~= root_placements(bundled@) + root_placements(user@));
    let mut catalog: Vec<Category> = Vec::new();
    let mut k: usize = 0;
    while k < found.len()
        invariant
            0 <= k <= found@.len(),
            all == placements_of(found@),
            is_catalog_of(catalog@, all.take(k as int)),
        decreases found@.len() - k,
    {
        add_to_catalog(&mut catalog, &found[k], Ghost(all.take(k as int)));
        assert(all.take(k as int).push(found@[k as int]@) =~= all.take(k + 1));
        k += 1;
    }
    assert(all.take(k as int) =~= all);
    catalog
}

/// A category that is not empty has a placement that names it.
proof fn lemma_category_is_placed(catalog: Seq<Category>, placements: Seq<Placement>, i: int)
    requires
        is_catalog_of(catalog, placements),
        0 <= i < catalog.len(),
    ensures
        exists|k: int| 0 <= k < placements.len() && (#[trigger] placements[k]).category == catalog[i].name@,
{
    let name = catalog[i].name@;
    if forall|k: int| 0 <= k < placements.len() ==> (#[trigger] placements[k]).category != name {
        lemma_files_in_absent(placements, name);
        lemma_sorted_is_permutation(files_in(placements, name));
        assert(files_of(catalog[i].images@).len() == catalog[i].images@.len());
        assert(false);
    }
}

/// Two names are the same or one is strictly before the other.
proof fn lemma_lex_trichotomy(a: Seq<char>, b: Seq<char>)
    ensures
        a == b || lex_lt(a, b) || lex_lt(b, a),
{
    if lex_le(a, b) && lex_le(b, a) {
        lemma_lex_le_antisymmetric(a, b);
    }
}

/// In two catalogues of the same placements, a category of the first that
/// stands behind `n` agreeing categories cannot come strictly before the
/// second's category at that place.
proof fn lemma_no_earlier_name(
    first: Seq<Category>,
    second: Seq<Category>,
    placements: Seq<Placement>,
    n: int,
)
    requires
        is_catalog_of(first, placements),
        is_catalog_of(second, placements),
        0 <= n < first.len(),
        n <= second.len(),
        forall|i: int| 0 <= i < n ==> (#[trigger] first[i]).name@ == second[i].name@,
    ensures
        n < second.len(),
        !lex_lt(first[n].name@, second[n].name@),
{
    let name = first[n].name@;
    lemma_category_is_placed(first, placements, n);
    let k = choose|k: int| 0 <= k < placements.len() && (#[trigger] placements[k]).category == name;
    assert(has_category(second, placements[k].category));
    let w = choose|w: int| 0 <= w < second.len() && (#[trigger] second[w]).name@ == name;
    if w < n {
        assert(first[w].name@ == second[w].name@);
        assert(lex_lt(first[w].name@, first[n].name@));
        lemma_lex_lt_differs(first[w].name@, first[n].name@);
    } else if w > n {
        assert(lex_lt(second[n].name@, second[w].name@));
        lemma_lex_le_total(first[n].name@, second[n].name@);
    } else {
        lemma_lex_le_reflexive(name);
    }
}

proof fn lemma_names_agree(
    first: Seq<Category>,
    second: Seq<Category>,
    placements: Seq<Placement>,
    n: int,
)
    requires
        is_catalog_of(first, placements),
        is_catalog_of(second, placements),
        0 <= n <= first.len(),
    ensures
        n <= second.len(),
        forall|i: int| 0 <= i < n ==> (#[trigger] first[i]).name@ == second[i].name@,
    decreases n,
{
    if n > 0 {
        lemma_names_agree(first, second, placements, n - 1);
        lemma_no_earlier_name(first, second, placements, n - 1);
        lemma_no_earlier_name(second, first, placements, n - 1);
        lemma_lex_trichotomy(first[n - 1].name@, second[n - 1].name@);
    }
}

/// A set of placements has one catalogue: two catalogues of the same
/// placements have the same categories in the same order, and each category
/// the same images in the same order.
pub proof fn lemma_catalog_is_unique(
    first: Seq<Category>,
    second: Seq<Category>,
    placements: Seq<Placement>,
)
    requires
        is_catalog_of(first, placements),
        is_catalog_of(second, placements),
    ensures
        first.len() == second.len(),
        forall|i: int|
            0 <= i < first.len() ==> (#[trigger] first[i]).name@ == second[i].name@ && files_of(
                first[i].images@,
            ) == files_of(second[i].images@),
{
    lemma_names_agree(first, second, placements, first.len() as int);
    lemma_names_agree(second, first, placements, second.len() as int);
}

/// Whether no two of the files have the same name.
pub open spec fn names_differ(files: Seq<FileModel>) -> bool {
    forall|i: int, j: int| 0 <= i < j < files.len() ==> files[i].name != files[j].name
}

/// Whether no category is given two files of the same name.
pub open spec fn placed_names_differ(placements: Seq<Placement>) -> bool {
    forall|i: int, j: int|
        0 <= i < j < placements.len() && placements[i].category == placements[j].category
            ==> placements[i].file.name != placements[j].file.name
}

/// Every file that the placements put into a category comes from a
/// placement in that category.
proof fn lemma_files_in_come_from(placements: Seq<Placement>, category: Seq<char>, at: int)
    requires
        0 <= at < files_in(placements, category).len(),
    ensures
        exists|k: int|
            0 <= k < placements.len() && (#[trigger] placements[k]) == (Placement {
                category,
                file: files_in(placements, category)[at],
            }),
    decreases placements.len(),
{
    let rest = placements.drop_last();
    let last = placements.last();
    if last.category == category && at == files_in(rest, category).len() {
        assert(placements[placements.len() - 1] == last);
    } else {
        lemma_files_in_come_from(rest, category, at);
        let k = choose|k: int|
            0 <= k < rest.len() && (#[trigger] rest[k]) == (Placement {
                category,
                file: files_in(rest, category)[at],
            });
        assert(placements[k] == rest[k]);
    }
}

/// Where no category is given two files of the same name, the files placed
/// in one category all differ in name.
proof fn lemma_files_in_names_differ(placements: Seq<Placement>, category: Seq<char>)
    requires
        placed_names_differ(placements),
    ensures
        names_differ(files_in(placements, category)),
    decreases placements.len(),
{
    if placements.len() > 0 {
        let rest = placements.drop_last();
        let last = placements.last();
        assert forall|i: int, j: int|
            0 <= i < j < rest.len() && rest[i].category == rest[j].category implies rest[i].file.name
            != rest[j].file.name by {
            assert(rest[i] == placements[i] && rest[j] == placements[j]);
        }
        lemma_files_in_names_differ(rest, category);
        let files = files_in(placements, category);
        if last.category == category {
            let earlier = files_in(rest, category);
            assert forall|i: int, j: int| 0 <= i < j < files.len() implies files[i].name
                != files[j].name by {
                if j == earlier.len() {
                    lemma_files_in_come_from(rest, category, i);
                    let k = choose|k: int|
                        0 <= k < rest.len() && (#[trigger] rest[k]) == (Placement {
                            category,
                            file: earlier[i],
                        });
                    assert(placements[k] == rest[k]);
                    assert(placements[placements.len() - 1] == last);
                }
            }
        }
    }
}

/// How often a file is placed in a category is how often its placement
/// occurs.
proof fn lemma_files_in_count(placements: Seq<Placement>, category: Seq<char>, file: FileModel)
    ensures
        files_in(placements, category).to_multiset().count(file) == placements.to_multiset().count(
            Placement { category, file },
        ),
    decreases placements.len(),
{
    broadcast use vstd::seq_lib::group_to_multiset_ensures;

    if placements.len() == 0 {
        assert(placements.to_multiset().len() == 0);
        assert(files_in(placements, category).to_multiset().len() == 0);
    } else {
        let rest = placements.drop_last();
        let last = placements.last();
        lemma_files_in_count(rest, category, file);
        assert(rest.push(last) =~= placements);
        assert(placements.to_multiset() =~= rest.to_multiset().insert(last));
        if last.category == category {
            assert(files_in(placements, category).to_multiset() =~= files_in(
                rest,
                category,
            ).to_multiset().insert(last.file));
        }
    }
}

/// Sequences that hold the same elements equally often hold the same
/// elements, and are equally long.
proof fn lemma_same_members<T>(one: Seq<T>, two: Seq<T>, member: T)
    requires
        one.to_multiset() == two.to_multiset(),
    ensures
        one.contains(member) == two.contains(member),
        one.len() == two.len(),
{
    vstd::seq_lib::to_multiset_contains(one, member);
    vstd::seq_lib::to_multiset_contains(two, member);
    vstd::seq_lib::to_multiset_len(one);
    vstd::seq_lib::to_multiset_len(two);
}

/// Sorting keeps names that all differ all different.
proof fn lemma_sorted_names_differ(files: Seq<FileModel>)
    requires
        names_differ(files),
    ensures
        names_differ(sorted_by_name(files)),
{
    broadcast use vstd::seq_lib::group_to_multiset_ensures;

    let sorted = sorted_by_name(files);
    lemma_sorted_is_permutation(files);
    assert(files.no_duplicates());
    files.lemma_multiset_has_no_duplicates();
    sorted.lemma_multiset_has_no_duplicates_conv();
    assert forall|i: int, j: int| 0 <= i < j < sorted.len() implies sorted[i].name
        != sorted[j].name by {
        if sorted[i].name == sorted[j].name {
            assert(sorted.contains(sorted[i]) && sorted.contains(sorted[j]));
            lemma_same_members(sorted, files, sorted[i]);
            lemma_same_members(sorted, files, sorted[j]);
            let a = choose|a: int| 0 <= a < files.len() && files[a] == sorted[i];
            let b = choose|b: int| 0 <= b < files.len() && files[b] == sorted[j];
            assert(a == b);
        }
    }
}

/// Files whose names all differ have one ascending order: two ascending
/// sequences that hold the same files are the same sequence.
proof fn lemma_ascending_order_is_unique(first: Seq<FileModel>, second: Seq<FileModel>)
    requires
        names_ascend(first),
        names_ascend(second),
        names_differ(first),
        first.to_multiset() == second.to_multiset(),
    ensures
        first == second,
    decreases first.len(),
{
    broadcast use vstd::seq_lib::group_to_multiset_ensures;

    vstd::seq_lib::to_multiset_len(first);
    vstd::seq_lib::to_multiset_len(second);
    if first.len() == 0 {
        assert(first =~= second);
    } else {
        let n = first.len() - 1;
        assert(second.contains(second[n]));
        lemma_same_members(second, first, second[n]);
        let k = choose|k: int| 0 <= k < first.len() && first[k] == second[n];
        assert(first.contains(first[n]));
        lemma_same_members(first, second, first[n]);
        let m = choose|m: int| 0 <= m < second.len() && second[m] == first[n];
        if m < n {
            assert(lex_le(second[m].name, second[n].name));
        } else {
            lemma_lex_le_reflexive(first[n].name);
        }
        if k < n {
            assert(lex_le(first[k].name, first[n].name));
            lemma_lex_le_antisymmetric(first[k].name, first[n].name);
        }
        assert(first[n] == second[n]);
        let head = first.drop_last();
        let other = second.drop_last();
        assert(head.push(first[n]) =~= first);
        assert(other.push(second[n]) =~= second);
        assert(head.to_multiset() =~= other.to_multiset()) by {
            assert(first.to_multiset() =~= head.to_multiset().insert(first[n]));
            assert(second.to_multiset() =~= other.to_multiset().insert(first[n]));
            assert forall|x: FileModel| head.to_multiset().count(x) == other.to_multiset().count(
                x,
            ) by {
                assert(head.to_multiset().insert(first[n]).count(x) == other.to_multiset().insert(
                    first[n],
                ).count(x));
            }
        }
        lemma_ascending_order_is_unique(head, other);
    }
}

/// The catalogue does not depend on the order in which the images were
/// found: where no category is given two files of the same name, placements
/// that differ only in their order have the same catalogue.
pub proof fn lemma_catalog_ignores_order(
    first: Seq<Category>,
    first_found: Seq<Placement>,
    second: Seq<Category>,
    second_found: Seq<Placement>,
)
    requires
        is_catalog_of(first, first_found),
        is_catalog_of(second, second_found),
        first_found.to_multiset() == second_found.to_multiset(),
        placed_names_differ(first_found),
    ensures
        first.len() == second.len(),
        forall|i: int|
            0 <= i < first.len() ==> (#[trigger] first[i]).name@ == second[i].name@ && files_of(
                first[i].images@,
            ) == files_of(second[i].images@),
{
    broadcast use vstd::seq_lib::group_to_multiset_ensures;

    assert forall|k: int| 0 <= k < second_found.len() implies has_category(
        first,
        (#[trigger] second_found[k]).category,
    ) by {
        assert(second_found.contains(second_found[k]));
        lemma_same_members(second_found, first_found, second_found[k]);
        let j = choose|j: int| 0 <= j < first_found.len() && first_found[j] == second_found[k];
        assert(has_category(first, first_found[j].category));
    }
    assert forall|i: int|
        #![trigger first[i]]
        0 <= i < first.len() implies files_of(first[i].images@) == sorted_by_name(
        files_in(second_found, first[i].name@),
    ) by {
        let name = first[i].name@;
        let one = files_in(first_found, name);
        let two = files_in(second_found, name);
        assert(one.to_multiset() =~= two.to_multiset()) by {
            assert forall|file: FileModel| one.to_multiset().count(file) == two.to_multiset().count(
                file,
            ) by {
                lemma_files_in_count(first_found, name, file);
                lemma_files_in_count(second_found, name, file);
            }
        }
        lemma_files_in_names_differ(first_found, name);
        lemma_sorted_names_differ(one);
        lemma_sorted_names_ascend(one);
        lemma_sorted_names_ascend(two);
        lemma_sorted_is_permutation(one);
        lemma_sorted_is_permutation(two);
        lemma_ascending_order_is_unique(sorted_by_name(one), sorted_by_name(two));
    }
    assert(is_catalog_of(first, second_found));
    lemma_catalog_is_unique(first, second, second_found);
}

/// How often the items of a listing give a placement.
pub open spec fn gathered_count<T>(
    items: Seq<T>,
    found: spec_fn(T) -> Seq<Placement>,
    placement: Placement,
) -> nat
    decreases items.len(),
{
    if items.len() == 0 {
        0
    } else {
        gathered_count(items.drop_last(), found, placement) + found(
            items.last(),
        ).to_multiset().count(placement)
    }
}

proof fn lemma_gathered_count<T>(
    items: Seq<T>,
    found: spec_fn(T) -> Seq<Placement>,
    placement: Placement,
)
    ensures
        gathered(items, found).to_multiset().count(placement) == gathered_count(
            items,
            found,
            placement,
        ),
    decreases items.len(),
{
    if items.len() == 0 {
        vstd::seq_lib::to_multiset_len(gathered(items, found));
    } else {
        lemma_gathered_count(items.drop_last(), found, placement);
        vstd::seq_lib::lemma_multiset_commutative(
            gathered(items.drop_last(), found),
            found(items.last()),
        );
    }
}

proof fn lemma_gathered_count_remove<T>(
    items: Seq<T>,
    found: spec_fn(T) -> Seq<Placement>,
    placement: Placement,
    at: int,
)
    requires
        0 <= at < items.len(),
    ensures
        gathered_count(items, found, placement) == gathered_count(
            items.remove(at),
            found,
            placement,
        ) + found(items[at]).to_multiset().count(placement),
    decreases items.len(),
{
    if at == items.len() - 1 {
        assert(items.remove(at) =~= items.drop_last());
    } else {
        let shorter = items.remove(at);
        assert(shorter.drop_last() =~= items.drop_last().remove(at));
        assert(shorter.last() == items.last());
        lemma_gathered_count_remove(items.drop_last(), found, placement, at);
    }
}

proof fn lemma_gathered_count_ignores_order<T>(
    first: Seq<T>,
    second: Seq<T>,
    found: spec_fn(T) -> Seq<Placement>,
    placement: Placement,
)
    requires
        first.to_multiset() == second.to_multiset(),
    ensures
        gathered_count(first, found, placement) == gathered_count(second, found, placement),
    decreases first.len(),
{
    vstd::seq_lib::to_multiset_len(first);
    vstd::seq_lib::to_multiset_len(second);
    if first.len() > 0 {
        let n = first.len() - 1;
        assert(first.contains(first[n]));
        lemma_same_members(first, second, first[n]);
        let at = choose|at: int| 0 <= at < second.len() && second[at] == first[n];
        vstd::seq_lib::to_multiset_remove(first, n);
        vstd::seq_lib::to_multiset_remove(second, at);
        assert(first.remove(n) =~= first.drop_last());
        lemma_gathered_count_ignores_order(first.drop_last(), second.remove(at), found, placement);
        lemma_gathered_count_remove(second, found, placement, at);
    }
}

/// What a listing gives depends, up to order, only on which items it holds.
proof fn lemma_gathered_ignores_order<T>(
    first: Seq<T>,
    second: Seq<T>,
    found: spec_fn(T) -> Seq<Placement>,
)
    requires
        first.to_multiset() == second.to_multiset(),
    ensures
        gathered(first, found).to_multiset() == gathered(second, found).to_multiset(),
{
    assert forall|placement: Placement|
        gathered(first, found).to_multiset().count(placement) == gathered(
            second,
            found,
        ).to_multiset().count(placement) by {
        lemma_gathered_count(first, found, placement);
        lemma_gathered_count(second, found, placement);
        lemma_gathered_count_ignores_order(first, second, found, placement);
    }
    assert(gathered(first, found).to_multiset() =~= gathered(second, found).to_multiset());
}

/// The images found in a folder do not depend, up to order, on the order in
/// which the folder's entries were listed.
pub proof fn lemma_folder_ignores_enumeration_order(
    category: Seq<char>,
    first: Seq<DirEntry>,
    second: Seq<DirEntry>,
)
    requires
        first.to_multiset() == second.to_multiset(),
    ensures
        folder_placements(category, first).to_multiset() == folder_placements(
            category,
            second,
        ).to_multiset(),
{
    lemma_gathered_ignores_order(
        first,
        second,
        |child: DirEntry| child_placements(category, child),
    );
}

/// The images found in a palette root do not depend, up to order, on the
/// order in which the root's entries were listed.
pub proof fn lemma_root_ignores_enumeration_order(first: Seq<RootEntry>, second: Seq<RootEntry>)
    requires
        first.to_multiset() == second.to_multiset(),
    ensures
        root_placements(first).to_multiset() == root_placements(second).to_multiset(),
{
    lemma_gathered_ignores_order(first, second, |node: RootEntry| entry_placements(node));
}

/// Whether two entries of a palette root are the same entry with the same
/// entries inside, listed in any order.
pub open spec fn same_folder(first: RootEntry, second: RootEntry) -> bool {
    first.entry == second.entry && first.children@.to_multiset() == second.children@.to_multiset()
}

/// Whether two listings hold, place by place, the same entries with the same
/// entries inside.
pub open spec fn folders_match(first: Seq<RootEntry>, second: Seq<RootEntry>) -> bool {
    first.len() == second.len() && forall|i: int|
        0 <= i < first.len() ==> same_folder(#[trigger] first[i], second[i])
}

/// Whether two listings of a palette root differ in enumeration order only:
/// the entries of the first, put into some other order, match those of the
/// second, each folder holding the same entries in any order.
pub open spec fn same_listing(first: Seq<RootEntry>, second: Seq<RootEntry>) -> bool {
    exists|reordered: Seq<RootEntry>|
        first.to_multiset() == #[trigger] reordered.to_multiset() && folders_match(
            reordered,
            second,
        )
}

proof fn lemma_same_folder_placements(first: RootEntry, second: RootEntry)
    requires
        same_folder(first, second),
    ensures
        entry_placements(first).to_multiset() == entry_placements(second).to_multiset(),
{
    if first.entry.kind == EntryKind::Directory {
        lemma_folder_ignores_enumeration_order(
            capitalized(first.entry.name@),
            first.children@,
            second.children@,
        );
    }
}

proof fn lemma_matching_folders_count(
    first: Seq<RootEntry>,
    second: Seq<RootEntry>,
    placement: Placement,
)
    requires
        folders_match(first, second),
    ensures
        gathered_count(first, |node: RootEntry| entry_placements(node), placement)
            == gathered_count(second, |node: RootEntry| entry_placements(node), placement),
    decreases first.len(),
{
    if first.len() > 0 {
        let n = first.len() - 1;
        assert(same_folder(first[n], second[n]));
        lemma_same_folder_placements(first[n], second[n]);
        assert forall|i: int| 0 <= i < n implies same_folder(
            #[trigger] first.drop_last()[i],
            second.drop_last()[i],
        ) by {
            assert(same_folder(first[i], second[i]));
        }
        lemma_matching_folders_count(first.drop_last(), second.drop_last(), placement);
    }
}

/// Listings that differ in enumeration order only yield the same images in
/// the same categories, up to order.
pub proof fn lemma_same_listing_placements(first: Seq<RootEntry>, second: Seq<RootEntry>)
    requires
        same_listing(first, second),
    ensures
        root_placements(first).to_multiset() == root_placements(second).to_multiset(),
{
    let reordered = choose|reordered: Seq<RootEntry>|
        first.to_multiset() == #[trigger] reordered.to_multiset() && folders_match(
            reordered,
            second,
        );
    lemma_root_ignores_enumeration_order(first, reordered);
    let found = |node: RootEntry| entry_placements(node);
    assert forall|placement: Placement|
        root_placements(reordered).to_multiset().count(placement) == root_placements(
            second,
        ).to_multiset().count(placement) by {
        lemma_gathered_count(reordered, found, placement);
        lemma_gathered_count(second, found, placement);
        lemma_matching_folders_count(reordered, second, placement);
    }
    assert(root_placements(reordered).to_multiset() =~= root_placements(second).to_multiset());
}

/// The catalogue does not depend on the order in which the palette roots and
/// the folders in them were listed: where no category is given two files of
/// the same name, listings that differ in enumeration order only have the
/// same catalogue.
pub proof fn lemma_listing_ignores_enumeration_order(
    bundled: Seq<RootEntry>,
    user: Seq<RootEntry>,
    catalog: Seq<Category>,
    bundled_again: Seq<RootEntry>,
    user_again: Seq<RootEntry>,
    catalog_again: Seq<Category>,
)
    requires
        same_listing(bundled, bundled_again),
        same_listing(user, user_again),
        is_catalog_of(catalog, root_placements(bundled) + root_placements(user)),
        is_catalog_of(catalog_again, root_placements(bundled_again) + root_placements(user_again)),
        placed_names_differ(root_placements(bundled) + root_placements(user)),
    ensures
        catalog.len() == catalog_again.len(),
        forall|i: int|
            0 <= i < catalog.len() ==> (#[trigger] catalog[i]).name@ == catalog_again[i].name@
                && files_of(catalog[i].images@) == files_of(catalog_again[i].images@),
{
    lemma_same_listing_placements(bundled, bundled_again);
    lemma_same_listing_placements(user, user_again);
    vstd::seq_lib::lemma_multiset_commutative(root_placements(bundled), root_placements(user));
    vstd::seq_lib::lemma_multiset_commutative(
        root_placements(bundled_again),
        root_placements(user_again),
    );
    lemma_catalog_ignores_order(
        catalog,
        root_placements(bundled) + root_placements(user),
        catalog_again,
        root_placements(bundled_again) + root_placements(user_again),
    );
}

/// In a catalogue the images of every category are in ascending order of
/// their file names, and they are exactly the files placed in the category.
pub proof fn lemma_catalog_images_sorted(catalog: Seq<Category>, placements: Seq<Placement>, i: int)
    requires
        is_catalog_of(catalog, placements),
        0 <= i < catalog.len(),
    ensures
        names_ascend(files_of(catalog[i].images@)),
        files_of(catalog[i].images@).to_multiset() == files_in(
            placements,
            catalog[i].name@,
        ).to_multiset(),
{
    lemma_sorted_names_ascend(files_in(placements, catalog[i].name@));
    lemma_sorted_is_permutation(files_in(placements, catalog[i].name@));
}

} // verus!
