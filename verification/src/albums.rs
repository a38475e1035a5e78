//! Logical albums: a virtual folder tree holding references to image paths.
//!
//! Folders nest freely and do not correspond to directories on disk. Items store the
//! absolute path of a file plus a snapshot taken when the item was added. Lookups by
//! id walk the tree in pre-order (a folder before its children, siblings in order).

use vstd::prelude::*;
use crate::strs::{trim, trimmed, str_eq, eq_ignore_ascii_case, eq_ascii_ci, path_extension, spec_extension,
    to_lowercase, spec_lowercase, path_file_name, spec_file_name};

verus! {

/// One image referenced by an album (path plus snapshot; the file is not copied).
pub struct AlbumItem {
    pub path: String,
    pub name: String,
    pub width: u32,
    pub height: u32,
    pub format: String,
    pub mtime: u64,
    pub added: u64,
}

/// An album folder (arbitrarily nested).
pub struct AlbumFolder {
    pub id: String,
    pub name: String,
    pub children: Vec<AlbumFolder>,
    pub items: Vec<AlbumItem>,
}

/// The whole album file.
pub struct AlbumFile {
    pub version: u32,
    pub folders: Vec<AlbumFolder>,
}

/// Abstract item.
pub struct ItemModel {
    pub path: Seq<char>,
    pub name: Seq<char>,
    pub width: u32,
    pub height: u32,
    pub format: Seq<char>,
    pub mtime: u64,
    pub added: u64,
}

impl AlbumItem {
    /// Abstract value of the item.
    pub open spec fn model(&self) -> ItemModel {
        ItemModel {
            path: self.path@,
            name: self.name@,
            width: self.width,
            height: self.height,
            format: self.format@,
            mtime: self.mtime,
            added: self.added,
        }
    }
}

/// Abstract values of a sequence of items.
pub open spec fn item_models(items: Seq<AlbumItem>) -> Seq<ItemModel> {
    Seq::new(items.len(), |i: int| items[i].model())
}

/// Abstract folder: its id, name, child folders and items.
pub struct FolderModel {
    pub id: Seq<char>,
    pub name: Seq<char>,
    pub children: Seq<FolderModel>,
    pub items: Seq<ItemModel>,
}

impl AlbumFolder {
    /// Abstract value of the folder and its whole subtree.
    pub open spec fn model(&self) -> FolderModel
        decreases self,
    {
        FolderModel {
            id: self.id@,
            name: self.name@,
            children: Seq::new(self.children@.len(), |i: int|
                if 0 <= i < self.children@.len() { self.children@[i].model() } else { arbitrary() }),
            items: item_models(self.items@),
        }
    }
}

/// Abstract values of a sequence of folders.
pub open spec fn models(fs: Seq<AlbumFolder>) -> Seq<FolderModel> {
    Seq::new(fs.len(), |i: int| fs[i].model())
}

/// Pre-order search for `id` among `fs[start..]` and their subtrees: the index path
/// of the first folder found.
pub open spec fn find_from(fs: Seq<FolderModel>, id: Seq<char>, start: int) -> Option<Seq<int>>
    decreases fs, fs.len() - start,
{
    if start < 0 || start >= fs.len() {
        None
    } else if fs[start].id == id {
        Some(seq![start])
    } else {
        match find_from(fs[start].children, id, 0) {
            Some(p) => Some(seq![start] + p),
            None => find_from(fs, id, start + 1),
        }
    }
}

/// Pre-order search for `id` in the forest `fs`.
pub open spec fn find(fs: Seq<FolderModel>, id: Seq<char>) -> Option<Seq<int>> {
    find_from(fs, id, 0)
}

/// `p` designates a folder of the forest `fs`.
pub open spec fn valid_path(fs: Seq<FolderModel>, p: Seq<int>) -> bool
    decreases p.len(),
{
    &&& p.len() >= 1
    &&& 0 <= p[0] < fs.len()
    &&& (p.len() == 1 || valid_path(fs[p[0]].children, p.drop_first()))
}

/// The folder at path `p`.
pub open spec fn at(fs: Seq<FolderModel>, p: Seq<int>) -> FolderModel
    decreases p.len(),
{
    if p.len() <= 1 {
        fs[p[0]]
    } else {
        at(fs[p[0]].children, p.drop_first())
    }
}

/// The forest with the folder at path `p` replaced by `m`.
pub open spec fn set_at(fs: Seq<FolderModel>, p: Seq<int>, m: FolderModel) -> Seq<FolderModel>
    decreases p.len(),
{
    if p.len() <= 1 {
        fs.update(p[0], m)
    } else {
        fs.update(p[0], FolderModel {
            children: set_at(fs[p[0]].children, p.drop_first(), m),
            ..fs[p[0]]
        })
    }
}

/// Index path as integers.
pub open spec fn int_path(p: Seq<usize>) -> Seq<int> {
    p.map_values(|x: usize| x as int)
}

/// The abstract children of a folder are the abstract values of its children.
pub proof fn lemma_model_children(f: AlbumFolder)
    ensures
        f.model().children == models(f.children@),
        f.model().id == f.id@,
        f.model().name == f.name@,
        f.model().items == item_models(f.items@),
{
    assert(f.model().children =~= models(f.children@));
}

/// Finds the index path of the first folder (pre-order) whose id is `id`.
pub fn find_path(fs: &Vec<AlbumFolder>, id: &String) -> (r: Option<Vec<usize>>)
    ensures
        find(models(fs@), id@) is None ==> r is None,
        find(models(fs@), id@) matches Some(p) ==> r matches Some(v) && int_path(v@) == p,
    decreases fs@,
{
    let ghost ms = models(fs@);
    let mut i: usize = 0;
    while i < fs.len()
        invariant
            ms == models(fs@),
            i <= fs@.len(),
            find(ms, id@) == find_from(ms, id@, i as int),
        decreases fs@.len() - i,
    {
        proof { lemma_model_children(fs@[i as int]); }
        if fs[i].id == *id {
            let mut v: Vec<usize> = Vec::new();
            v.push(i);
            assert(int_path(v@) =~= seq![i as int]);
            return Some(v);
        }
        proof {
            assert(decreases_to!(fs@ => fs@[i as int].children@));
        }
        match find_path(&fs[i].children, id) {
            Some(sub) => {
                let mut v: Vec<usize> = Vec::new();
                v.push(i);
                let mut k: usize = 0;
                while k < sub.len()
                    invariant
                        k <= sub@.len(),
                        v@.len() == k + 1,
                        v@[0] == i,
                        forall|j: int| 0 <= j < k ==> v@[j + 1] == sub@[j],
                    decreases sub@.len() - k,
                {
                    v.push(sub[k]);
                    k = k + 1;
                }
                assert(int_path(v@) =~= seq![i as int] + int_path(sub@));
                return Some(v);
            },
            None => {},
        }
        i = i + 1;
    }
    None
}

proof fn lemma_models_update(fs: Seq<AlbumFolder>, i: int, f: AlbumFolder)
    requires
        0 <= i < fs.len(),
    ensures
        models(fs.update(i, f)) == models(fs).update(i, f.model()),
{
    assert(models(fs.update(i, f)) =~= models(fs).update(i, f.model()));
}

/// Replaces the folder at `path[depth..]` by `new` and returns the folder that was there.
fn replace_at(fs: &mut Vec<AlbumFolder>, path: &Vec<usize>, depth: usize, new: AlbumFolder) -> (prev: AlbumFolder)
    requires
        depth < path@.len(),
        valid_path(models(old(fs)@), int_path(path@).skip(depth as int)),
    ensures
        models(final(fs)@) == set_at(models(old(fs)@), int_path(path@).skip(depth as int), new.model()),
        prev.model() == at(models(old(fs)@), int_path(path@).skip(depth as int)),
    decreases path@.len() - depth,
{
    let ghost p = int_path(path@).skip(depth as int);
    let i = path[depth];
    assert(p[0] == i as int);
    proof { lemma_model_children(old(fs)@[i as int]); }
    if depth == path.len() - 1 {
        let mut tmp = new;
        std::mem::swap(&mut fs[i], &mut tmp);
        proof { lemma_models_update(old(fs)@, i as int, new); }
        tmp
    } else {
        assert(p.drop_first() =~= int_path(path@).skip(depth + 1));
        let prev = replace_at(&mut fs[i].children, path, depth + 1, new);
        proof {
            let f = fs@[i as int];
            lemma_model_children(f);
            lemma_models_update(old(fs)@, i as int, f);
            assert(f.id == old(fs)@[i as int].id);
            assert(f.model() =~= (FolderModel {
                children: set_at(models(old(fs)@)[i as int].children, p.drop_first(), new.model()),
                ..models(old(fs)@)[i as int]
            }));
            assert(fs@ == old(fs)@.update(i as int, f));
        }
        prev
    }
}

/// What `find` returns is a path to a folder with that id.
pub proof fn lemma_find_from_valid(fs: Seq<FolderModel>, id: Seq<char>, start: int)
    ensures
        find_from(fs, id, start) matches Some(p) ==> valid_path(fs, p) && at(fs, p).id == id,
    decreases fs, fs.len() - start,
{
    if 0 <= start < fs.len() && fs[start].id != id {
        lemma_find_from_valid(fs[start].children, id, 0);
        lemma_find_from_valid(fs, id, start + 1);
        match find_from(fs[start].children, id, 0) {
            Some(q) => {
                let p = seq![start] + q;
                assert(p.drop_first() =~= q);
            },
            None => {},
        }
    }
}

/// Replacing a folder keeps its path valid and puts the new folder there.
pub proof fn lemma_set_at_valid(fs: Seq<FolderModel>, p: Seq<int>, m: FolderModel)
    requires
        valid_path(fs, p),
    ensures
        valid_path(set_at(fs, p, m), p),
        at(set_at(fs, p, m), p) == m,
    decreases p.len(),
{
    if p.len() > 1 {
        lemma_set_at_valid(fs[p[0]].children, p.drop_first(), m);
    }
}

/// Replacing the same folder twice keeps only the second replacement.
pub proof fn lemma_set_at_twice(fs: Seq<FolderModel>, p: Seq<int>, m1: FolderModel, m2: FolderModel)
    requires
        valid_path(fs, p),
    ensures
        set_at(set_at(fs, p, m1), p, m2) == set_at(fs, p, m2),
    decreases p.len(),
{
    if p.len() > 1 {
        lemma_set_at_twice(fs[p[0]].children, p.drop_first(), m1, m2);
        assert(set_at(set_at(fs, p, m1), p, m2) =~= set_at(fs, p, m2));
    } else {
        assert(set_at(set_at(fs, p, m1), p, m2) =~= set_at(fs, p, m2));
    }
}

/// Replacing a folder by itself changes nothing.
pub proof fn lemma_set_at_same(fs: Seq<FolderModel>, p: Seq<int>)
    requires
        valid_path(fs, p),
    ensures
        set_at(fs, p, at(fs, p)) == fs,
    decreases p.len(),
{
    if p.len() > 1 {
        lemma_set_at_same(fs[p[0]].children, p.drop_first());
        assert(set_at(fs, p, at(fs, p)) =~= fs);
    } else {
        assert(set_at(fs, p, at(fs, p)) =~= fs);
    }
}

/// An empty folder (placeholder while a folder is being edited).
fn placeholder() -> (f: AlbumFolder)
    ensures
        f.id@ == Seq::<char>::empty(),
        f.name@ == Seq::<char>::empty(),
        f.children@.len() == 0,
        f.items@.len() == 0,
        f.model() == new_folder_model(Seq::empty(), Seq::empty()),
{
    let f = AlbumFolder { id: String::new(), name: String::new(), children: Vec::new(), items: Vec::new() };
    proof {
        lemma_model_children(f);
        assert(f.model().children =~= Seq::<FolderModel>::empty());
        assert(f.model().items =~= Seq::<ItemModel>::empty());
        assert(f.id@ =~= Seq::<char>::empty());
        assert(f.name@ =~= Seq::<char>::empty());
    }
    f
}

/// Takes the folder at `path` out of the forest, leaving a placeholder.
fn take_at(fs: &mut Vec<AlbumFolder>, path: &Vec<usize>) -> (f: AlbumFolder)
    requires
        valid_path(models(old(fs)@), int_path(path@)),
    ensures
        f.model() == at(models(old(fs)@), int_path(path@)),
        valid_path(models(final(fs)@), int_path(path@)),
        forall|m: FolderModel| set_at(models(final(fs)@), int_path(path@), m)
            == #[trigger] set_at(models(old(fs)@), int_path(path@), m),
{
    let ph = placeholder();
    let ghost phm = ph.model();
    assert(int_path(path@).skip(0) =~= int_path(path@));
    let f = replace_at(fs, path, 0, ph);
    proof {
        lemma_set_at_valid(models(old(fs)@), int_path(path@), phm);
        assert forall|m: FolderModel| set_at(models(fs@), int_path(path@), m)
            == #[trigger] set_at(models(old(fs)@), int_path(path@), m) by {
            lemma_set_at_twice(models(old(fs)@), int_path(path@), phm, m);
        }
    }
    f
}

/// Puts `f` at `path`.
fn put_at(fs: &mut Vec<AlbumFolder>, path: &Vec<usize>, f: AlbumFolder)
    requires
        valid_path(models(old(fs)@), int_path(path@)),
    ensures
        models(final(fs)@) == set_at(models(old(fs)@), int_path(path@), f.model()),
{
    assert(int_path(path@).skip(0) =~= int_path(path@));
    let _ = replace_at(fs, path, 0, f);
}

/// Album operation failures.
#[derive(Debug, PartialEq, Eq, Structural)]
pub enum AlbumError {
    /// The folder name is empty (after trimming).
    EmptyName,
    /// The parent folder does not exist.
    ParentNotFound,
    /// The folder does not exist.
    NotFound,
    /// The source folder does not exist.
    SourceNotFound,
    /// The target folder does not exist.
    TargetNotFound,
    /// A folder cannot move into itself or its descendants.
    MoveIntoSelf,
    /// The new parent folder does not exist.
    TargetParentNotFound,
    /// Imported file has an unsupported version.
    IncompatibleVersion(u32),
}

/// A new empty folder.
pub open spec fn new_folder_model(id: Seq<char>, name: Seq<char>) -> FolderModel {
    FolderModel { id: id, name: name, children: Seq::empty(), items: Seq::empty() }
}

/// Creates folder `name` (trimmed) with id `new_id` under `parent_id`, or at the top
/// level when `parent_id` is `None`.
pub fn album_create_folder(
    file: &mut AlbumFile,
    parent_id: Option<String>,
    name: String,
    new_id: String,
) -> (r: Result<(), AlbumError>)
    ensures
        final(file).version == old(file).version,
        r is Err ==> models(final(file).folders@) == models(old(file).folders@),
        trimmed(name@).len() == 0 <==> r == Err::<(), AlbumError>(AlbumError::EmptyName),
        trimmed(name@).len() > 0 ==> match parent_id {
            None => r is Ok && models(final(file).folders@)
                == models(old(file).folders@).push(new_folder_model(new_id@, trimmed(name@))),
            Some(pid) => match find(models(old(file).folders@), pid@) {
                None => r == Err::<(), AlbumError>(AlbumError::ParentNotFound),
                Some(p) => r is Ok && models(final(file).folders@) == set_at(models(old(file).folders@), p,
                    FolderModel {
                        children: at(models(old(file).folders@), p).children.push(new_folder_model(new_id@, trimmed(name@))),
                        ..at(models(old(file).folders@), p)
                    }),
            },
        },
{
    let name = trim(name.as_str());
    if name.as_str().is_empty() {
        return Err(AlbumError::EmptyName);
    }
    let folder = AlbumFolder { id: new_id, name, children: Vec::new(), items: Vec::new() };
    proof {
        lemma_model_children(folder);
        assert(folder.model().children =~= Seq::<FolderModel>::empty());
        assert(folder.model().items =~= Seq::<ItemModel>::empty());
        assert(folder.model() == new_folder_model(folder.id@, folder.name@));
    }
    match parent_id {
        Some(pid) => {
            match find_path(&file.folders, &pid) {
                None => Err(AlbumError::ParentNotFound),
                Some(path) => {
                    proof { lemma_find_from_valid(models(file.folders@), pid@, 0); }
                    let ghost ms = models(file.folders@);
                    let mut parent = take_at(&mut file.folders, &path);
                    let ghost pm = parent.model();
                    let ghost fm = folder.model();
                    let ghost pold = parent;
                    parent.children.push(folder);
                    proof {
                        lemma_model_children(pold);
                        lemma_model_children(parent);
                        assert(models(parent.children@) =~= models(pold.children@).push(fm));
                        assert(parent.model() == FolderModel { children: pm.children.push(fm), ..pm });
                    }
                    put_at(&mut file.folders, &path, parent);
                    Ok(())
                },
            }
        },
        None => {
            let ghost old_fs = file.folders@;
            file.folders.push(folder);
            assert(models(file.folders@) =~= models(old_fs).push(folder.model()));
            Ok(())
        },
    }
}

/// Renames folder `id` to `name` (trimmed).
pub fn album_rename_folder(file: &mut AlbumFile, id: &String, name: String) -> (r: Result<(), AlbumError>)
    ensures
        final(file).version == old(file).version,
        r is Err ==> models(final(file).folders@) == models(old(file).folders@),
        trimmed(name@).len() == 0 <==> r == Err::<(), AlbumError>(AlbumError::EmptyName),
        trimmed(name@).len() > 0 ==> match find(models(old(file).folders@), id@) {
            None => r == Err::<(), AlbumError>(AlbumError::NotFound),
            Some(p) => r is Ok && models(final(file).folders@) == set_at(models(old(file).folders@), p,
                FolderModel { name: trimmed(name@), ..at(models(old(file).folders@), p) }),
        },
{
    let name = trim(name.as_str());
    if name.as_str().is_empty() {
        return Err(AlbumError::EmptyName);
    }
    match find_path(&file.folders, id) {
        None => Err(AlbumError::NotFound),
        Some(path) => {
            proof { lemma_find_from_valid(models(file.folders@), id@, 0); }
            let mut f = take_at(&mut file.folders, &path);
            let ghost fm = f.model();
            let ghost fold = f;
            f.name = name;
            proof {
                lemma_model_children(fold);
                lemma_model_children(f);
                assert(f.model() == FolderModel { name: f.name@, ..fm });
            }
            put_at(&mut file.folders, &path, f);
            Ok(())
        },
    }
}

/// Extensions accepted into albums.
pub open spec fn supported_ext(e: Seq<char>) -> bool {
    ||| e == "png"@
    ||| e == "jpg"@
    ||| e == "jpeg"@
    ||| e == "gif"@
    ||| e == "bmp"@
    ||| e == "webp"@
    ||| e == "avif"@
    ||| e == "tif"@
    ||| e == "tiff"@
    ||| e == "ico"@
    ||| e == "psd"@
    ||| e == "jxl"@
}

/// Whether `ext` (lower case, without dot) is a supported image extension.
pub fn is_supported_ext(ext: &str) -> (r: bool)
    ensures
        r == supported_ext(ext@),
{
    str_eq(ext, "png") || str_eq(ext, "jpg") || str_eq(ext, "jpeg") || str_eq(ext, "gif")
        || str_eq(ext, "bmp") || str_eq(ext, "webp") || str_eq(ext, "avif") || str_eq(ext, "tif")
        || str_eq(ext, "tiff") || str_eq(ext, "ico") || str_eq(ext, "psd") || str_eq(ext, "jxl")
}

/// Lower-cased extension of a path, empty when it has none.
pub open spec fn ext_key(p: Seq<char>) -> Seq<char> {
    match spec_extension(p) {
        Some(e) => spec_lowercase(e),
        None => Seq::empty(),
    }
}

/// Stored format name for an extension (`tif` is stored as `tiff`).
pub open spec fn norm_format(e: Seq<char>) -> Seq<char> {
    if e == "tif"@ { "tiff"@ } else { e }
}

/// File name of a path, empty when it has none.
pub open spec fn name_key(p: Seq<char>) -> Seq<char> {
    match spec_file_name(p) {
        Some(n) => n,
        None => Seq::empty(),
    }
}

/// Some item refers to path `p` (ASCII case ignored).
pub open spec fn has_path(items: Seq<ItemModel>, p: Seq<char>) -> bool {
    exists|k: int| 0 <= k < items.len() && eq_ascii_ci(items[k].path, p)
}

/// Items after adding `paths` in order: paths with an unsupported extension or
/// already present (ASCII case ignored) are skipped.
pub open spec fn add_items_spec(
    items: Seq<ItemModel>,
    paths: Seq<Seq<char>>,
    snaps: Seq<(u32, u32, u64)>,
    added: u64,
) -> Seq<ItemModel>
    decreases paths.len(),
{
    if paths.len() == 0 {
        items
    } else {
        let prev = add_items_spec(items, paths.drop_last(), snaps.drop_last(), added);
        let p = paths.last();
        let e = ext_key(p);
        if !supported_ext(e) || has_path(prev, p) {
            prev
        } else {
            prev.push(ItemModel {
                path: p,
                name: name_key(p),
                width: snaps.last().0,
                height: snaps.last().1,
                format: norm_format(e),
                mtime: snaps.last().2,
                added: added,
            })
        }
    }
}

fn items_have_path(items: &Vec<AlbumItem>, p: &str) -> (r: bool)
    ensures
        r == has_path(item_models(items@), p@),
{
    let mut i: usize = 0;
    while i < items.len()
        invariant
            i <= items@.len(),
            forall|k: int| 0 <= k < i ==> !eq_ascii_ci(items@[k].path@, p@),
        decreases items@.len() - i,
    {
        if eq_ignore_ascii_case(items[i].path.as_str(), p) {
            assert(item_models(items@)[i as int].path == items@[i as int].path@);
            return true;
        }
        i = i + 1;
    }
    proof {
        assert forall|k: int| 0 <= k < item_models(items@).len() implies !eq_ascii_ci(item_models(items@)[k].path, p@) by {
            assert(item_models(items@)[k].path == items@[k].path@);
        }
    }
    false
}

fn lower_ext(p: &str) -> (r: String)
    ensures
        r@ == ext_key(p@),
{
    match path_extension(p) {
        Some(e) => to_lowercase(e.as_str()),
        None => String::new(),
    }
}

fn file_name_or_empty(p: &str) -> (r: String)
    ensures
        r@ == name_key(p@),
{
    match path_file_name(p) {
        Some(n) => n,
        None => String::new(),
    }
}

/// Adds images to folder `folder_id`; `snapshots[i]` is (width, height, mtime) of
/// `paths[i]`, `added` the time of adding. Unsupported extensions and paths already
/// in the folder (ASCII case ignored) are skipped.
pub fn album_add_items(
    file: &mut AlbumFile,
    folder_id: &String,
    paths: Vec<String>,
    snapshots: Vec<(u32, u32, u64)>,
    added: u64,
) -> (r: Result<(), AlbumError>)
    requires
        paths@.len() == snapshots@.len(),
    ensures
        final(file).version == old(file).version,
        match find(models(old(file).folders@), folder_id@) {
            None => r == Err::<(), AlbumError>(AlbumError::NotFound)
                && models(final(file).folders@) == models(old(file).folders@),
            Some(p) => r is Ok && models(final(file).folders@) == set_at(models(old(file).folders@), p,
                FolderModel {
                    items: add_items_spec(at(models(old(file).folders@), p).items,
                        paths@.map_values(|s: String| s@), snapshots@, added),
                    ..at(models(old(file).folders@), p)
                }),
        },
{
    let path = match find_path(&file.folders, folder_id) {
        None => return Err(AlbumError::NotFound),
        Some(path) => path,
    };
    proof { lemma_find_from_valid(models(file.folders@), folder_id@, 0); }
    let mut f = take_at(&mut file.folders, &path);
    let ghost fm = f.model();
    let ghost fold = f;
    proof { lemma_model_children(fold); }
    let ghost ps = paths@.map_values(|s: String| s@);
    let mut i: usize = 0;
    while i < paths.len()
        invariant
            i <= paths@.len() == snapshots@.len(),
            ps == paths@.map_values(|s: String| s@),
            f.id == fold.id,
            f.name == fold.name,
            f.children == fold.children,
            item_models(f.items@) == add_items_spec(fm.items, ps.take(i as int), snapshots@.take(i as int), added),
        decreases paths@.len() - i,
    {
        let ghost before = f.items@;
        let p = &paths[i];
        let e = lower_ext(p.as_str());
        assert(ps.take(i + 1).drop_last() =~= ps.take(i as int));
        assert(snapshots@.take(i + 1).drop_last() =~= snapshots@.take(i as int));
        assert(ps.take(i + 1).last() == p@);
        if is_supported_ext(e.as_str()) && !items_have_path(&f.items, p.as_str()) {
            let (w, h, mtime) = snapshots[i];
            let fmt = if str_eq(e.as_str(), "tif") {
                let t = String::from_str("tiff");
                t
            } else {
                e
            };
            let item = AlbumItem {
                path: p.clone(),
                name: file_name_or_empty(p.as_str()),
                width: w,
                height: h,
                format: fmt,
                mtime,
                added,
            };
            f.items.push(item);
            assert(item_models(f.items@) =~= item_models(before).push(item.model()));
        }
        i = i + 1;
    }
    assert(ps.take(paths@.len() as int) =~= ps);
    assert(snapshots@.take(paths@.len() as int) =~= snapshots@);
    proof {
        lemma_model_children(f);
        assert(f.model() == FolderModel { items: item_models(f.items@), ..fm });
    }
    put_at(&mut file.folders, &path, f);
    Ok(())
}

/// Some path of `ps` names item path `p` (ASCII case ignored).
pub open spec fn path_listed(ps: Seq<Seq<char>>, p: Seq<char>) -> bool {
    exists|k: int| 0 <= k < ps.len() && eq_ascii_ci(ps[k], p)
}

/// Items whose path is not listed in `ps`, in order.
pub open spec fn keep_unlisted(items: Seq<ItemModel>, ps: Seq<Seq<char>>) -> Seq<ItemModel>
    decreases items.len(),
{
    if items.len() == 0 {
        items
    } else {
        let prev = keep_unlisted(items.drop_last(), ps);
        if path_listed(ps, items.last().path) { prev } else { prev.push(items.last()) }
    }
}

/// Items whose path is listed in `ps`, in order.
pub open spec fn take_listed(items: Seq<ItemModel>, ps: Seq<Seq<char>>) -> Seq<ItemModel>
    decreases items.len(),
{
    if items.len() == 0 {
        items
    } else {
        let prev = take_listed(items.drop_last(), ps);
        if path_listed(ps, items.last().path) { prev.push(items.last()) } else { prev }
    }
}

fn listed(ps: &Vec<String>, p: &str) -> (r: bool)
    ensures
        r == path_listed(ps@.map_values(|s: String| s@), p@),
{
    let ghost pv = ps@.map_values(|s: String| s@);
    let mut k: usize = 0;
    while k < ps.len()
        invariant
            k <= ps@.len(),
            pv == ps@.map_values(|s: String| s@),
            forall|j: int| 0 <= j < k ==> !eq_ascii_ci(#[trigger] pv[j], p@),
        decreases ps@.len() - k,
    {
        if eq_ignore_ascii_case(ps[k].as_str(), p) {
            // `eq_ascii_ci` is symmetric
            assert(eq_ascii_ci(pv[k as int], p@));
            return true;
        }
        k = k + 1;
    }
    false
}

/// Splits `items` into (unlisted, listed) parts, keeping the order of each.
fn split_listed(items: Vec<AlbumItem>, ps: &Vec<String>) -> (r: (Vec<AlbumItem>, Vec<AlbumItem>))
    ensures
        item_models(r.0@) == keep_unlisted(item_models(items@), ps@.map_values(|s: String| s@)),
        item_models(r.1@) == take_listed(item_models(items@), ps@.map_values(|s: String| s@)),
{
    let ghost pv = ps@.map_values(|s: String| s@);
    let ghost all = items@;
    let n = items.len();
    let mut rest = items;
    let mut rev: Vec<AlbumItem> = Vec::new();
    while rest.len() > 0
        invariant
            rev@.len() + rest@.len() == all.len(),
            forall|k: int| 0 <= k < rest@.len() ==> rest@[k] == all[k],
            forall|k: int| 0 <= k < rev@.len() ==> rev@[k] == all[all.len() - 1 - k],
        decreases rest@.len(),
    {
        let it = rest.pop().unwrap();
        rev.push(it);
    }
    let mut kept: Vec<AlbumItem> = Vec::new();
    let mut moved: Vec<AlbumItem> = Vec::new();
    let mut i: usize = 0;
    while rev.len() > 0
        invariant
            i + rev@.len() == all.len(),
            all.len() == n,
            forall|k: int| 0 <= k < rev@.len() ==> rev@[k] == all[all.len() - 1 - k],
            pv == ps@.map_values(|s: String| s@),
            item_models(kept@) == keep_unlisted(item_models(all).take(i as int), pv),
            item_models(moved@) == take_listed(item_models(all).take(i as int), pv),
        decreases rev@.len(),
    {
        let it = rev.pop().unwrap();
        let ghost im = item_models(all).take(i + 1);
        assert(im.drop_last() =~= item_models(all).take(i as int));
        assert(im.last() == it.model());
        let ghost k0 = kept@;
        let ghost m0 = moved@;
        if listed(ps, it.path.as_str()) {
            moved.push(it);
            assert(item_models(moved@) =~= item_models(m0).push(it.model()));
        } else {
            kept.push(it);
            assert(item_models(kept@) =~= item_models(k0).push(it.model()));
        }
        i = i + 1;
    }
    assert(item_models(all).take(all.len() as int) =~= item_models(all));
    (kept, moved)
}

/// Removes from folder `folder_id` the items whose path is listed in `paths`
/// (ASCII case ignored).
pub fn album_remove_items(file: &mut AlbumFile, folder_id: &String, paths: &Vec<String>) -> (r: Result<(), AlbumError>)
    ensures
        final(file).version == old(file).version,
        match find(models(old(file).folders@), folder_id@) {
            None => r == Err::<(), AlbumError>(AlbumError::NotFound)
                && models(final(file).folders@) == models(old(file).folders@),
            Some(p) => r is Ok && models(final(file).folders@) == set_at(models(old(file).folders@), p,
                FolderModel {
                    items: keep_unlisted(at(models(old(file).folders@), p).items,
                        paths@.map_values(|s: String| s@)),
                    ..at(models(old(file).folders@), p)
                }),
        },
{
    let path = match find_path(&file.folders, folder_id) {
        None => return Err(AlbumError::NotFound),
        Some(path) => path,
    };
    proof { lemma_find_from_valid(models(file.folders@), folder_id@, 0); }
    let mut f = take_at(&mut file.folders, &path);
    let ghost fm = f.model();
    let ghost fold = f;
    proof { lemma_model_children(fold); }
    let mut items: Vec<AlbumItem> = Vec::new();
    std::mem::swap(&mut items, &mut f.items);
    let (kept, _moved) = split_listed(items, paths);
    f.items = kept;
    proof {
        lemma_model_children(f);
        assert(f.model() == FolderModel { items: item_models(f.items@), ..fm });
    }
    put_at(&mut file.folders, &path, f);
    Ok(())
}

/// Replacing a folder by one with the same id and children leaves every search result
/// unchanged.
pub proof fn lemma_find_same_shape(fs: Seq<FolderModel>, p: Seq<int>, m: FolderModel, id: Seq<char>, start: int)
    requires
        valid_path(fs, p),
        m.id == at(fs, p).id,
        m.children == at(fs, p).children,
    ensures
        find_from(set_at(fs, p, m), id, start) == find_from(fs, id, start),
    decreases fs, fs.len() - start,
{
    let fs2 = set_at(fs, p, m);
    if 0 <= start < fs.len() {
        if start == p[0] && p.len() > 1 {
            lemma_find_same_shape(fs[start].children, p.drop_first(), m, id, 0);
        }
        assert(fs2[start].id == fs[start].id);
        assert(find_from(fs2[start].children, id, 0) == find_from(fs[start].children, id, 0));
        lemma_find_same_shape(fs, p, m, id, start + 1);
    }
}

/// Items `moved` appended in order, skipping those whose path is already present.
pub open spec fn append_new(items: Seq<ItemModel>, moved: Seq<ItemModel>) -> Seq<ItemModel>
    decreases moved.len(),
{
    if moved.len() == 0 {
        items
    } else {
        let prev = append_new(items, moved.drop_last());
        if has_path(prev, moved.last().path) { prev } else { prev.push(moved.last()) }
    }
}

/// The folder tree after moving the listed items of the folder at `ps` to the folder
/// found for `to` (searched after the removal).
pub open spec fn move_items_spec(fs: Seq<FolderModel>, ps: Seq<int>, to: Seq<char>, pv: Seq<Seq<char>>) -> Seq<FolderModel> {
    let src = at(fs, ps);
    let mid = set_at(fs, ps, FolderModel { items: keep_unlisted(src.items, pv), ..src });
    let pd = find(mid, to)->0;
    let dst = at(mid, pd);
    set_at(mid, pd, FolderModel { items: append_new(dst.items, take_listed(src.items, pv)), ..dst })
}

/// Moves the listed items (ASCII case ignored) from folder `from` to folder `to`,
/// skipping those already present in `to`. Nothing changes when `from == to`.
pub fn album_move_items(file: &mut AlbumFile, from: &String, to: &String, paths: &Vec<String>) -> (r: Result<(), AlbumError>)
    ensures
        final(file).version == old(file).version,
        r is Err ==> models(final(file).folders@) == models(old(file).folders@),
        from@ == to@ ==> r is Ok && models(final(file).folders@) == models(old(file).folders@),
        from@ != to@ ==> match (find(models(old(file).folders@), from@), find(models(old(file).folders@), to@)) {
            (None, _) => r == Err::<(), AlbumError>(AlbumError::SourceNotFound),
            (Some(_), None) => r == Err::<(), AlbumError>(AlbumError::TargetNotFound),
            (Some(ps), Some(_)) => r is Ok && models(final(file).folders@)
                == move_items_spec(models(old(file).folders@), ps, to@, paths@.map_values(|s: String| s@)),
        },
{
    if str_eq(from.as_str(), to.as_str()) {
        return Ok(());
    }
    let ps = match find_path(&file.folders, from) {
        None => return Err(AlbumError::SourceNotFound),
        Some(p) => p,
    };
    let pd = match find_path(&file.folders, to) {
        None => return Err(AlbumError::TargetNotFound),
        Some(p) => p,
    };
    let ghost ms = models(file.folders@);
    let ghost pv = paths@.map_values(|s: String| s@);
    proof {
        lemma_find_from_valid(ms, from@, 0);
        lemma_find_from_valid(ms, to@, 0);
    }
    let mut src = take_at(&mut file.folders, &ps);
    let ghost sm = src.model();
    let ghost sold = src;
    proof { lemma_model_children(sold); }
    let mut items: Vec<AlbumItem> = Vec::new();
    std::mem::swap(&mut items, &mut src.items);
    let (kept, moved) = split_listed(items, paths);
    src.items = kept;
    proof {
        lemma_model_children(src);
        assert(src.model() == FolderModel { items: keep_unlisted(sm.items, pv), ..sm });
    }
    put_at(&mut file.folders, &ps, src);
    let ghost mid = models(file.folders@);
    proof {
        lemma_find_same_shape(ms, int_path(ps@), FolderModel { items: keep_unlisted(sm.items, pv), ..sm }, to@, 0);
        lemma_find_from_valid(mid, to@, 0);
    }
    let mut dst = take_at(&mut file.folders, &pd);
    let ghost dm = dst.model();
    let ghost dold = dst;
    proof { lemma_model_children(dold); }
    let ghost mv = item_models(moved@);
    let mut rest = moved;
    let mut rev: Vec<AlbumItem> = Vec::new();
    let ghost all = rest@;
    let n = rest.len();
    while rest.len() > 0
        invariant
            rev@.len() + rest@.len() == all.len(),
            forall|k: int| 0 <= k < rest@.len() ==> rest@[k] == all[k],
            forall|k: int| 0 <= k < rev@.len() ==> rev@[k] == all[all.len() - 1 - k],
        decreases rest@.len(),
    {
        let it = rest.pop().unwrap();
        rev.push(it);
    }
    let mut i: usize = 0;
    while rev.len() > 0
        invariant
            i + rev@.len() == all.len(),
            all.len() == n,
            mv == item_models(all),
            forall|k: int| 0 <= k < rev@.len() ==> rev@[k] == all[all.len() - 1 - k],
            dst.id == dold.id,
            dst.name == dold.name,
            dst.children == dold.children,
            item_models(dst.items@) == append_new(dm.items, mv.take(i as int)),
        decreases rev@.len(),
    {
        let it = rev.pop().unwrap();
        assert(mv.take(i + 1).drop_last() =~= mv.take(i as int));
        assert(mv.take(i + 1).last() == it.model());
        if !items_have_path(&dst.items, it.path.as_str()) {
            let ghost before = dst.items@;
            dst.items.push(it);
            assert(item_models(dst.items@) =~= item_models(before).push(it.model()));
        }
        i = i + 1;
    }
    assert(mv.take(all.len() as int) =~= mv);
    proof {
        lemma_model_children(dst);
        assert(dst.model() == FolderModel { items: item_models(dst.items@), ..dm });
    }
    put_at(&mut file.folders, &pd, dst);
    Ok(())
}

/// Every folder id of the forest replaced, everything else kept: `a` and `b` have the
/// same shape, names and items.
pub open spec fn same_but_ids(a: Seq<FolderModel>, b: Seq<FolderModel>) -> bool
    decreases a,
{
    &&& a.len() == b.len()
    &&& forall|i: int| 0 <= i < a.len() ==> {
        &&& (#[trigger] a[i]).name == b[i].name
        &&& a[i].items == b[i].items
        &&& same_but_ids(a[i].children, b[i].children)
    }
}

/// Ids of the folders `fs[..end]` and of their subtrees, in pre-order.
pub open spec fn ids_to(fs: Seq<FolderModel>, end: int) -> Seq<Seq<char>>
    decreases fs, end,
{
    if end <= 0 || end > fs.len() {
        Seq::empty()
    } else {
        ids_to(fs, end - 1) + seq![fs[end - 1].id] + ids_to(fs[end - 1].children, fs[end - 1].children.len() as int)
    }
}

/// Ids of every folder of the forest, in pre-order.
pub open spec fn preorder_ids(fs: Seq<FolderModel>) -> Seq<Seq<char>> {
    ids_to(fs, fs.len() as int)
}

/// Views of a sequence of strings.
pub open spec fn string_views(v: Seq<String>) -> Seq<Seq<char>> {
    Seq::new(v.len(), |i: int| v[i]@)
}

/// `ids_to` reads only the folders before `end`.
pub proof fn lemma_ids_to_prefix(a: Seq<FolderModel>, b: Seq<FolderModel>, end: int)
    requires
        0 <= end <= a.len(),
        end <= b.len(),
        forall|j: int| 0 <= j < end ==> a[j] == b[j],
    ensures
        ids_to(a, end) == ids_to(b, end),
    decreases end,
{
    if end > 0 {
        lemma_ids_to_prefix(a, b, end - 1);
    }
}

/// A longer prefix has at least as many ids.
pub proof fn lemma_ids_to_grows(fs: Seq<FolderModel>, i: int, j: int)
    requires
        0 <= i <= j <= fs.len(),
    ensures
        ids_to(fs, i).len() <= ids_to(fs, j).len(),
    decreases j - i,
{
    if i < j {
        lemma_ids_to_grows(fs, i, j - 1);
    }
}

/// Appends the ids of `fs` and of their subtrees to `out`, in pre-order.
fn collect_ids(fs: &Vec<AlbumFolder>, out: &mut Vec<String>)
    ensures
        string_views(final(out)@) == string_views(old(out)@) + preorder_ids(models(fs@)),
    decreases fs@,
{
    let n = fs.len();
    let mut i: usize = 0;
    while i < n
        invariant
            i <= n == fs@.len(),
            string_views(out@) == string_views(old(out)@) + ids_to(models(fs@), i as int),
        decreases n - i,
    {
        let ghost mid = out@;
        out.push(fs[i].id.clone());
        assert(string_views(out@) =~= string_views(mid).push(fs@[i as int].id@));
        proof {
            assert(decreases_to!(fs@ => fs@[i as int]));
            assert(decreases_to!(fs@[i as int] => fs@[i as int].children));
            assert(decreases_to!(fs@[i as int].children => fs@[i as int].children@));
        }
        collect_ids(&fs[i].children, out);
        proof {
            lemma_model_children(fs@[i as int]);
            let ms = models(fs@);
            assert(ms[i as int] == fs@[i as int].model());
            assert(ids_to(ms, i + 1) == ids_to(ms, i as int) + seq![ms[i as int].id]
                + ids_to(ms[i as int].children, ms[i as int].children.len() as int));
            assert(string_views(out@) =~= string_views(old(out)@) + ids_to(ms, i + 1));
        }
        i = i + 1;
    }
}

/// Gives the folders of `fs` and of their subtrees the ids `ids[pos..]` in pre-order;
/// returns the position after the last id used.
fn assign_from(folders: &mut Vec<AlbumFolder>, ids: &Vec<String>, pos: usize) -> (end: usize)
    requires
        pos + preorder_ids(models(old(folders)@)).len() <= ids@.len(),
    ensures
        end == pos + preorder_ids(models(old(folders)@)).len(),
        same_but_ids(models(final(folders)@), models(old(folders)@)),
        preorder_ids(models(final(folders)@)) == string_views(ids@).subrange(pos as int, end as int),
    decreases old(folders)@,
{
    let ghost orig = old(folders)@;
    let ghost sv = string_views(ids@);
    let total: usize = ids.len();
    let n = folders.len();
    let mut cur: usize = pos;
    let mut i: usize = 0;
    while i < n
        invariant
            i <= n == folders@.len() == orig.len(),
            orig == old(folders)@,
            sv == string_views(ids@),
            total == ids@.len(),
            pos + ids_to(models(orig), n as int).len() <= ids@.len(),
            cur == pos + ids_to(models(orig), i as int).len(),
            ids_to(models(folders@), i as int) == sv.subrange(pos as int, cur as int),
            forall|j: int| i <= j < n ==> folders@[j] == orig[j],
            forall|j: int| 0 <= j < i ==> {
                &&& (#[trigger] folders@[j]).model().name == orig[j].model().name
                &&& folders@[j].model().items == orig[j].model().items
                &&& same_but_ids(folders@[j].model().children, orig[j].model().children)
            },
        decreases n - i,
    {
        let ghost before = folders@;
        proof {
            lemma_ids_to_grows(models(orig), i + 1, n as int);
            lemma_model_children(orig[i as int]);
            assert(models(orig)[i as int] == orig[i as int].model());
            assert(ids_to(models(orig), i + 1).len() >= ids_to(models(orig), i as int).len() + 1);
        }
        folders[i].id = ids[cur].clone();
        proof {
            assert(decreases_to!(old(folders)@ => old(folders)@[i as int]));
            assert(decreases_to!(old(folders)@[i as int] => old(folders)@[i as int].children));
            assert(decreases_to!(old(folders)@[i as int].children => old(folders)@[i as int].children@));
            assert(folders@[i as int].children == orig[i as int].children);
        }
        let end = assign_from(&mut folders[i].children, ids, cur + 1);
        proof {
            lemma_model_children(folders@[i as int]);
            assert forall|j: int| 0 <= j < n && j != i implies folders@[j] == before[j] by {}
            let ms = models(folders@);
            lemma_ids_to_prefix(ms, models(before), i as int);
            assert(ms[i as int] == folders@[i as int].model());
            assert(ids_to(ms, i + 1) == ids_to(ms, i as int) + seq![ms[i as int].id]
                + ids_to(ms[i as int].children, ms[i as int].children.len() as int));
            assert(ids_to(ms, i + 1) =~= sv.subrange(pos as int, end as int));
        }
        cur = end;
        i = i + 1;
    }
    proof {
        let a = models(folders@);
        let b = models(orig);
        assert forall|j: int| 0 <= j < a.len() implies {
            &&& (#[trigger] a[j]).name == b[j].name
            &&& a[j].items == b[j].items
            &&& same_but_ids(a[j].children, b[j].children)
        } by {
            assert(a[j] == folders@[j].model());
            assert(b[j] == orig[j].model());
        }
    }
    cur
}

/// Gives every folder of the forest, in pre-order, the next id of `ids`; names, items
/// and shape are kept. `ids` holds one id per folder.
pub fn assign_ids(folders: &mut Vec<AlbumFolder>, ids: &Vec<String>)
    requires
        ids@.len() == preorder_ids(models(old(folders)@)).len(),
    ensures
        same_but_ids(models(final(folders)@), models(old(folders)@)),
        preorder_ids(models(final(folders)@)) == string_views(ids@),
{
    let end = assign_from(folders, ids, 0);
    assert(string_views(ids@).subrange(0, end as int) =~= string_views(ids@));
}

/// Number of folders of the forest, subtrees included.
pub fn folder_count(folders: &Vec<AlbumFolder>) -> (r: usize)
    ensures
        r == preorder_ids(models(folders@)).len(),
{
    let mut all: Vec<String> = Vec::new();
    collect_ids(folders, &mut all);
    assert(string_views(all@) =~= preorder_ids(models(folders@)));
    all.len()
}

/// Gives every folder a fresh id from `next_id`, in pre-order (merge import): the
/// new ids, read in pre-order, are the values `next_id` returned, one call per folder.
pub fn reassign_ids<G: FnMut() -> String>(folders: &mut Vec<AlbumFolder>, next_id: &mut G)
    requires
        call_requires(*old(next_id), ()),
    ensures
        same_but_ids(models(final(folders)@), models(old(folders)@)),
        exists|ids: Seq<String>| {
            &&& ids.len() == preorder_ids(models(old(folders)@)).len()
            &&& forall|k: int| 0 <= k < ids.len() ==> call_ensures(*old(next_id), (), #[trigger] ids[k])
            &&& preorder_ids(models(final(folders)@)) == string_views(ids)
        },
{
    let n = folder_count(folders);
    let ghost g0 = *next_id;
    let mut ids: Vec<String> = Vec::new();
    let mut k: usize = 0;
    while k < n
        invariant
            k <= n,
            ids@.len() == k,
            *next_id == g0,
            g0 == *old(next_id),
            call_requires(g0, ()),
            forall|j: int| 0 <= j < k ==> call_ensures(g0, (), #[trigger] ids@[j]),
        decreases n - k,
    {
        let id = next_id();
        ids.push(id);
        k = k + 1;
    }
    assign_ids(folders, &ids);
}

/// `fs` without the top-level folders whose id is `id`.
pub open spec fn drop_id(fs: Seq<FolderModel>, id: Seq<char>) -> Seq<FolderModel>
    decreases fs.len(),
{
    if fs.len() == 0 {
        fs
    } else {
        let prev = drop_id(fs.drop_last(), id);
        if fs.last().id == id { prev } else { prev.push(fs.last()) }
    }
}

/// Deletion of folder `id`: when some top-level folder has that id, every such
/// top-level folder is removed; otherwise the deletion goes into the first child
/// forest (in order) where it removes something. The flag tells whether anything
/// was removed.
pub open spec fn remove_in(fs: Seq<FolderModel>, id: Seq<char>) -> (Seq<FolderModel>, bool)
    decreases fs, fs.len() + 1,
{
    if exists|i: int| 0 <= i < fs.len() && fs[i].id == id {
        (drop_id(fs, id), true)
    } else {
        remove_any(fs, id, 0)
    }
}

/// Deletion of folder `id` inside the subtrees of `fs[start..]`.
pub open spec fn remove_any(fs: Seq<FolderModel>, id: Seq<char>, start: int) -> (Seq<FolderModel>, bool)
    decreases fs, fs.len() - start,
{
    if start < 0 || start >= fs.len() {
        (fs, false)
    } else {
        let (c, hit) = remove_in(fs[start].children, id);
        if hit {
            (fs.update(start, FolderModel { children: c, ..fs[start] }), true)
        } else {
            remove_any(fs, id, start + 1)
        }
    }
}

/// A deletion that removes nothing leaves the forest unchanged.
pub proof fn lemma_remove_miss(fs: Seq<FolderModel>, id: Seq<char>)
    ensures
        !remove_in(fs, id).1 ==> remove_in(fs, id).0 == fs,
    decreases fs, fs.len() + 2,
{
    if !(exists|i: int| 0 <= i < fs.len() && fs[i].id == id) {
        lemma_remove_any_miss(fs, id, 0);
    }
}

/// A deletion inside the subtrees that removes nothing leaves the forest unchanged.
pub proof fn lemma_remove_any_miss(fs: Seq<FolderModel>, id: Seq<char>, start: int)
    requires
        0 <= start,
    ensures
        !remove_any(fs, id, start).1 ==> remove_any(fs, id, start).0 == fs,
    decreases fs, fs.len() + 1 - start,
{
    if start < fs.len() {
        lemma_remove_miss(fs[start].children, id);
        lemma_remove_any_miss(fs, id, start + 1);
    }
}

fn has_top_id(fs: &Vec<AlbumFolder>, id: &String) -> (r: bool)
    ensures
        r == exists|i: int| 0 <= i < fs@.len() && models(fs@)[i].id == id@,
{
    let mut i: usize = 0;
    while i < fs.len()
        invariant
            i <= fs@.len(),
            forall|j: int| 0 <= j < i ==> models(fs@)[j].id != id@,
        decreases fs@.len() - i,
    {
        proof { lemma_model_children(fs@[i as int]); }
        if fs[i].id == *id {
            assert(models(fs@)[i as int].id == id@);
            return true;
        }
        i = i + 1;
    }
    false
}

/// Removes folder `id` (with its subtree) as `remove_in` describes; returns whether
/// something was removed.
fn remove_folder(folders: &mut Vec<AlbumFolder>, id: &String) -> (hit: bool)
    ensures
        (models(final(folders)@), hit) == remove_in(models(old(folders)@), id@),
    decreases old(folders)@,
{
    let ghost orig = old(folders)@;
    let ghost ms = models(orig);
    if has_top_id(folders, id) {
        let mut rest: Vec<AlbumFolder> = Vec::new();
        std::mem::swap(&mut rest, folders);
        let n = rest.len();
        let mut rev: Vec<AlbumFolder> = Vec::new();
        while rest.len() > 0
            invariant
                rev@.len() + rest@.len() == orig.len(),
                forall|k: int| 0 <= k < rest@.len() ==> rest@[k] == orig[k],
                forall|k: int| 0 <= k < rev@.len() ==> rev@[k] == orig[orig.len() - 1 - k],
            decreases rest@.len(),
        {
            let f = rest.pop().unwrap();
            rev.push(f);
        }
        let mut kept: Vec<AlbumFolder> = Vec::new();
        let mut i: usize = 0;
        while rev.len() > 0
            invariant
                i + rev@.len() == orig.len(),
                orig.len() == n,
                ms == models(orig),
                forall|k: int| 0 <= k < rev@.len() ==> rev@[k] == orig[orig.len() - 1 - k],
                models(kept@) == drop_id(ms.take(i as int), id@),
            decreases rev@.len(),
        {
            let f = rev.pop().unwrap();
            assert(ms.take(i + 1).drop_last() =~= ms.take(i as int));
            assert(ms.take(i + 1).last() == f.model());
            proof { lemma_model_children(f); }
            if f.id == *id {
            } else {
                let ghost k0 = kept@;
                kept.push(f);
                assert(models(kept@) =~= models(k0).push(f.model()));
            }
            i = i + 1;
        }
        assert(ms.take(orig.len() as int) =~= ms);
        *folders = kept;
        return true;
    }
    let n = folders.len();
    let mut i: usize = 0;
    while i < n
        invariant
            i <= n == folders@.len() == orig.len(),
            orig == old(folders)@,
            ms == models(orig),
            !(exists|j: int| 0 <= j < ms.len() && ms[j].id == id@),
            models(folders@) == ms,
            forall|j: int| i <= j < n ==> folders@[j] == orig[j],
            remove_in(ms, id@) == remove_any(ms, id@, i as int),
        decreases n - i,
    {
        proof {
            assert(decreases_to!(old(folders)@ => old(folders)@[i as int]));
            assert(decreases_to!(old(folders)@[i as int] => old(folders)@[i as int].children));
            assert(decreases_to!(old(folders)@[i as int].children => old(folders)@[i as int].children@));
            lemma_model_children(orig[i as int]);
        }
        let ghost before = folders@;
        let hit = remove_folder(&mut folders[i].children, id);
        proof {
            lemma_model_children(folders@[i as int]);
            lemma_models_update(before, i as int, folders@[i as int]);
            assert(folders@ == before.update(i as int, folders@[i as int]));
            lemma_remove_miss(ms[i as int].children, id@);
        }
        if hit {
            proof {
                assert(folders@[i as int].model() == FolderModel {
                    children: remove_in(ms[i as int].children, id@).0,
                    ..ms[i as int]
                });
            }
            return true;
        }
        proof {
            assert(folders@[i as int].model() == ms[i as int]);
            assert(models(folders@) =~= ms);
        }
        i = i + 1;
    }
    false
}

/// Deletes folder `id` with its subtree (only the logical organisation; no file is
/// touched).
pub fn album_delete_folder(file: &mut AlbumFile, id: &String) -> (r: Result<(), AlbumError>)
    ensures
        final(file).version == old(file).version,
        models(final(file).folders@) == remove_in(models(old(file).folders@), id@).0,
        remove_in(models(old(file).folders@), id@).1 <==> r is Ok,
        r is Err ==> r == Err::<(), AlbumError>(AlbumError::NotFound),
{
    if !remove_folder(&mut file.folders, id) {
        return Err(AlbumError::NotFound);
    }
    Ok(())
}

/// First top-level index at or after `start` whose id is `id`.
pub open spec fn first_pos(fs: Seq<FolderModel>, id: Seq<char>, start: int) -> Option<int>
    decreases fs.len() - start,
{
    if start < 0 || start >= fs.len() {
        None
    } else if fs[start].id == id {
        Some(start)
    } else {
        first_pos(fs, id, start + 1)
    }
}

/// Taking folder `id` out of the forest: the first top-level folder with that id, else
/// the first hit inside the child forests, in order. Returns the rest and the folder.
pub open spec fn take_in(fs: Seq<FolderModel>, id: Seq<char>) -> (Seq<FolderModel>, Option<FolderModel>)
    decreases fs, fs.len() + 1,
{
    match first_pos(fs, id, 0) {
        Some(p) => (fs.remove(p), Some(fs[p])),
        None => take_any(fs, id, 0),
    }
}

/// Taking folder `id` out of the subtrees of `fs[start..]`.
pub open spec fn take_any(fs: Seq<FolderModel>, id: Seq<char>, start: int) -> (Seq<FolderModel>, Option<FolderModel>)
    decreases fs, fs.len() - start,
{
    if start < 0 || start >= fs.len() {
        (fs, None)
    } else {
        let (c, hit) = take_in(fs[start].children, id);
        if hit is Some {
            (fs.update(start, FolderModel { children: c, ..fs[start] }), hit)
        } else {
            take_any(fs, id, start + 1)
        }
    }
}

/// Taking a folder that does not exist leaves the forest unchanged.
pub proof fn lemma_take_miss(fs: Seq<FolderModel>, id: Seq<char>)
    ensures
        take_in(fs, id).1 is None ==> take_in(fs, id).0 == fs,
    decreases fs, fs.len() + 2,
{
    if first_pos(fs, id, 0) is None {
        lemma_take_any_miss(fs, id, 0);
    }
}

/// Taking inside the subtrees a folder that does not exist changes nothing.
pub proof fn lemma_take_any_miss(fs: Seq<FolderModel>, id: Seq<char>, start: int)
    requires
        0 <= start,
    ensures
        take_any(fs, id, start).1 is None ==> take_any(fs, id, start).0 == fs,
    decreases fs, fs.len() + 1 - start,
{
    if start < fs.len() {
        lemma_take_miss(fs[start].children, id);
        lemma_take_any_miss(fs, id, start + 1);
    }
}

/// What `first_pos` returns is an index at or after `start` with that id.
pub proof fn lemma_first_pos(fs: Seq<FolderModel>, id: Seq<char>, start: int)
    ensures
        first_pos(fs, id, start) matches Some(p) ==> start <= p < fs.len() && fs[p].id == id,
    decreases fs.len() - start,
{
    if 0 <= start < fs.len() && fs[start].id != id {
        lemma_first_pos(fs, id, start + 1);
    }
}

fn find_top(fs: &Vec<AlbumFolder>, id: &String) -> (r: Option<usize>)
    ensures
        r is None <==> first_pos(models(fs@), id@, 0) is None,
        r matches Some(p) ==> p < fs@.len() && first_pos(models(fs@), id@, 0) == Some(p as int),
{
    let ghost ms = models(fs@);
    let mut i: usize = 0;
    while i < fs.len()
        invariant
            i <= fs@.len(),
            ms == models(fs@),
            first_pos(ms, id@, 0) == first_pos(ms, id@, i as int),
        decreases fs@.len() - i,
    {
        proof { lemma_model_children(fs@[i as int]); }
        if fs[i].id == *id {
            return Some(i);
        }
        i = i + 1;
    }
    None
}

/// Takes folder `id` (with its subtree) out of the forest, as `take_in` describes.
fn take_folder(folders: &mut Vec<AlbumFolder>, id: &String) -> (r: Option<AlbumFolder>)
    ensures
        models(final(folders)@) == take_in(models(old(folders)@), id@).0,
        r is None <==> take_in(models(old(folders)@), id@).1 is None,
        r matches Some(f) ==> take_in(models(old(folders)@), id@).1 == Some(f.model()),
    decreases old(folders)@,
{
    let ghost orig = old(folders)@;
    let ghost ms = models(orig);
    match find_top(folders, id) {
        Some(pos) => {
            let f = folders.remove(pos);
            proof {
                assert(models(folders@) =~= ms.remove(pos as int));
            }
            return Some(f);
        },
        None => {},
    }
    let n = folders.len();
    let mut i: usize = 0;
    while i < n
        invariant
            i <= n == folders@.len() == orig.len(),
            orig == old(folders)@,
            ms == models(orig),
            first_pos(ms, id@, 0) is None,
            models(folders@) == ms,
            forall|j: int| i <= j < n ==> folders@[j] == orig[j],
            take_in(ms, id@) == take_any(ms, id@, i as int),
        decreases n - i,
    {
        proof {
            assert(decreases_to!(old(folders)@ => old(folders)@[i as int]));
            assert(decreases_to!(old(folders)@[i as int] => old(folders)@[i as int].children));
            assert(decreases_to!(old(folders)@[i as int].children => old(folders)@[i as int].children@));
            lemma_model_children(orig[i as int]);
        }
        let ghost before = folders@;
        let hit = take_folder(&mut folders[i].children, id);
        proof {
            lemma_model_children(folders@[i as int]);
            lemma_models_update(before, i as int, folders@[i as int]);
            assert(folders@ == before.update(i as int, folders@[i as int]));
            lemma_take_miss(ms[i as int].children, id@);
        }
        if hit.is_some() {
            proof {
                assert(folders@[i as int].model() == FolderModel {
                    children: take_in(ms[i as int].children, id@).0,
                    ..ms[i as int]
                });
            }
            return hit;
        }
        proof {
            assert(folders@[i as int].model() == ms[i as int]);
            assert(models(folders@) =~= ms);
        }
        i = i + 1;
    }
    None
}

/// The subtree `f` contains a folder with id `id` (itself included).
pub open spec fn subtree_has(f: FolderModel, id: Seq<char>) -> bool
    decreases f, 0int,
{
    f.id == id || forest_has(f.children, id, 0)
}

/// Some subtree of `fs[start..]` contains a folder with id `id`.
pub open spec fn forest_has(fs: Seq<FolderModel>, id: Seq<char>, start: int) -> bool
    decreases fs, fs.len() - start,
{
    if start < 0 || start >= fs.len() {
        false
    } else {
        subtree_has(fs[start], id) || forest_has(fs, id, start + 1)
    }
}

/// Whether the subtree of `f` contains a folder with id `id` (itself included).
pub fn contains_id(f: &AlbumFolder, id: &String) -> (r: bool)
    ensures
        r == subtree_has(f.model(), id@),
    decreases f,
{
    proof { lemma_model_children(*f); }
    if f.id == *id {
        return true;
    }
    let ghost cs = models(f.children@);
    let mut i: usize = 0;
    while i < f.children.len()
        invariant
            i <= f.children@.len(),
            cs == models(f.children@),
            cs == f.model().children,
            forest_has(cs, id@, 0) == forest_has(cs, id@, i as int),
        decreases f.children@.len() - i,
    {
        proof {
            assert(decreases_to!(*f => f.children));
            assert(decreases_to!(f.children => f.children@));
            assert(decreases_to!(f.children@ => f.children@[i as int]));
        }
        if contains_id(&f.children[i], id) {
            return true;
        }
        i = i + 1;
    }
    false
}

/// Moves folder `id` (with its subtree) under `parent_id`, or to the top level when it
/// is `None`. Moving a folder into itself or one of its descendants is refused. On an
/// error the tree is left as it is after taking the folder out (callers discard it).
pub fn album_move_folder(file: &mut AlbumFile, id: &String, parent_id: Option<String>) -> (r: Result<(), AlbumError>)
    ensures
        final(file).version == old(file).version,
        ({
            let (rest, node) = take_in(models(old(file).folders@), id@);
            match node {
                None => r == Err::<(), AlbumError>(AlbumError::NotFound)
                    && models(final(file).folders@) == models(old(file).folders@),
                Some(n) => match parent_id {
                    None => r is Ok && models(final(file).folders@) == rest.push(n),
                    Some(pid) => if pid@ == id@ || subtree_has(n, pid@) {
                        r == Err::<(), AlbumError>(AlbumError::MoveIntoSelf) && models(final(file).folders@) == rest
                    } else {
                        match find(rest, pid@) {
                            None => r == Err::<(), AlbumError>(AlbumError::TargetParentNotFound)
                                && models(final(file).folders@) == rest,
                            Some(pp) => r is Ok && models(final(file).folders@) == set_at(rest, pp,
                                FolderModel { children: at(rest, pp).children.push(n), ..at(rest, pp) }),
                        }
                    },
                },
            }
        }),
{
    proof { lemma_take_miss(models(file.folders@), id@); }
    let node = match take_folder(&mut file.folders, id) {
        None => return Err(AlbumError::NotFound),
        Some(n) => n,
    };
    match parent_id {
        Some(pid) => {
            if str_eq(pid.as_str(), id.as_str()) || contains_id(&node, &pid) {
                return Err(AlbumError::MoveIntoSelf);
            }
            match find_path(&file.folders, &pid) {
                None => Err(AlbumError::TargetParentNotFound),
                Some(path) => {
                    proof { lemma_find_from_valid(models(file.folders@), pid@, 0); }
                    let mut parent = take_at(&mut file.folders, &path);
                    let ghost pm = parent.model();
                    let ghost nm = node.model();
                    let ghost pold = parent;
                    parent.children.push(node);
                    proof {
                        lemma_model_children(pold);
                        lemma_model_children(parent);
                        assert(models(parent.children@) =~= models(pold.children@).push(nm));
                        assert(parent.model() == FolderModel { children: pm.children.push(nm), ..pm });
                    }
                    put_at(&mut file.folders, &path, parent);
                    Ok(())
                },
            }
        },
        None => {
            let ghost before = file.folders@;
            file.folders.push(node);
            assert(models(file.folders@) =~= models(before).push(node.model()));
            Ok(())
        },
    }
}

/// Display name of folder `id` (pre-order search), or `id` itself when absent.
pub open spec fn folder_name_spec(fs: Seq<FolderModel>, id: Seq<char>) -> Seq<char> {
    match find(fs, id) {
        Some(p) => at(fs, p).name,
        None => id,
    }
}

fn name_at(fs: &Vec<AlbumFolder>, path: &Vec<usize>, depth: usize) -> (r: String)
    requires
        depth < path@.len(),
        valid_path(models(fs@), int_path(path@).skip(depth as int)),
    ensures
        r@ == at(models(fs@), int_path(path@).skip(depth as int)).name,
    decreases path@.len() - depth,
{
    let ghost p = int_path(path@).skip(depth as int);
    let i = path[depth];
    assert(p[0] == i as int);
    proof { lemma_model_children(fs@[i as int]); }
    if depth == path.len() - 1 {
        fs[i].name.clone()
    } else {
        assert(p.drop_first() =~= int_path(path@).skip(depth + 1));
        name_at(&fs[i].children, path, depth + 1)
    }
}

/// Display name of folder `id`, falling back to the id itself.
pub fn folder_name_or(file: &AlbumFile, id: &String) -> (r: String)
    ensures
        r@ == folder_name_spec(models(file.folders@), id@),
{
    match find_path(&file.folders, id) {
        Some(path) => {
            proof { lemma_find_from_valid(models(file.folders@), id@, 0); }
            assert(int_path(path@).skip(0) =~= int_path(path@));
            name_at(&file.folders, &path, 0)
        },
        None => id.clone(),
    }
}

/// How an import combines with the current albums.
#[derive(Debug, Clone, Copy, PartialEq, Eq, Structural)]
pub enum ImportMode {
    /// The imported file replaces the current organisation.
    Replace,
    /// The imported top-level folders are appended, every folder with a new id.
    Merge,
}

/// Import mode named by `mode`: "merge" merges, anything else replaces.
pub fn import_mode(mode: &str) -> (r: ImportMode)
    ensures
        r == (if mode@ == "merge"@ { ImportMode::Merge } else { ImportMode::Replace }),
{
    if str_eq(mode, "merge") { ImportMode::Merge } else { ImportMode::Replace }
}

/// Imports `imported` into `current`: version must be 1; merge appends its folders
/// after giving each, in pre-order, a new id drawn from `next_id` (one call per folder),
/// replace takes it whole.
pub fn albums_import<G: FnMut() -> String>(
    current: AlbumFile,
    imported: AlbumFile,
    mode: ImportMode,
    next_id: &mut G,
) -> (r: Result<AlbumFile, AlbumError>)
    requires
        call_requires(*old(next_id), ()),
    ensures
        imported.version != 1 <==> r == Err::<AlbumFile, AlbumError>(AlbumError::IncompatibleVersion(imported.version)),
        imported.version == 1 && mode == ImportMode::Replace ==> (r matches Ok(f)
            && f.version == imported.version && models(f.folders@) == models(imported.folders@)),
        imported.version == 1 && mode == ImportMode::Merge ==> (r matches Ok(f)
            && f.version == current.version
            && models(f.folders@).len() == current.folders@.len() + imported.folders@.len()
            && models(f.folders@).take(current.folders@.len() as int) == models(current.folders@)
            && same_but_ids(models(f.folders@).skip(current.folders@.len() as int), models(imported.folders@))
            && exists|ids: Seq<String>| {
                &&& ids.len() == preorder_ids(models(imported.folders@)).len()
                &&& forall|k: int| 0 <= k < ids.len() ==> call_ensures(*old(next_id), (), #[trigger] ids[k])
                &&& preorder_ids(models(f.folders@).skip(current.folders@.len() as int)) == string_views(ids)
            }),
{
    if imported.version != 1 {
        return Err(AlbumError::IncompatibleVersion(imported.version));
    }
    match mode {
        ImportMode::Merge => {
            let mut cur = current;
            let mut folders = imported.folders;
            let ghost fresh_before = folders@;
            reassign_ids(&mut folders, next_id);
            let ghost base = cur.folders@;
            let ghost added = folders@;
            let n = folders.len();
            let mut rev: Vec<AlbumFolder> = Vec::new();
            while folders.len() > 0
                invariant
                    rev@.len() + folders@.len() == added.len(),
                    forall|k: int| 0 <= k < folders@.len() ==> folders@[k] == added[k],
                    forall|k: int| 0 <= k < rev@.len() ==> rev@[k] == added[added.len() - 1 - k],
                decreases folders@.len(),
            {
                let f = folders.pop().unwrap();
                rev.push(f);
            }
            let mut k: usize = 0;
            while rev.len() > 0
                invariant
                    k + rev@.len() == added.len(),
                    added.len() == n,
                    forall|j: int| 0 <= j < rev@.len() ==> rev@[j] == added[added.len() - 1 - j],
                    cur.folders@ == base + added.take(k as int),
                    cur.version == current.version,
                decreases rev@.len(),
            {
                let f = rev.pop().unwrap();
                cur.folders.push(f);
                k = k + 1;
                assert(cur.folders@ =~= base + added.take(k as int));
            }
            assert(added.take(added.len() as int) =~= added);
            assert(models(cur.folders@).take(base.len() as int) =~= models(base));
            assert(models(cur.folders@).skip(base.len() as int) =~= models(added));
            Ok(cur)
        },
        ImportMode::Replace => Ok(imported),
    }
}

/// Text of an album error.
pub open spec fn album_error_text(e: AlbumError) -> Seq<char> {
    match e {
        AlbumError::EmptyName => "相册名称不能为空"@,
        AlbumError::ParentNotFound => "父相册不存在"@,
        AlbumError::NotFound => "相册不存在"@,
        AlbumError::SourceNotFound => "源相册不存在"@,
        AlbumError::TargetNotFound => "目标相册不存在"@,
        AlbumError::MoveIntoSelf => "不能移动到自身或其子相册内"@,
        AlbumError::TargetParentNotFound => "目标父相册不存在"@,
        AlbumError::IncompatibleVersion(v) => "不兼容的版本: "@ + crate::text::decimal(v as nat),
    }
}

impl AlbumError {
    /// Message shown to the user.
    pub fn message(&self) -> (r: String)
        ensures
            r@ == album_error_text(*self),
    {
        match self {
            AlbumError::EmptyName => String::from_str("相册名称不能为空"),
            AlbumError::ParentNotFound => String::from_str("父相册不存在"),
            AlbumError::NotFound => String::from_str("相册不存在"),
            AlbumError::SourceNotFound => String::from_str("源相册不存在"),
            AlbumError::TargetNotFound => String::from_str("目标相册不存在"),
            AlbumError::MoveIntoSelf => String::from_str("不能移动到自身或其子相册内"),
            AlbumError::TargetParentNotFound => String::from_str("目标父相册不存在"),
            AlbumError::IncompatibleVersion(v) => {
                let mut s = String::from_str("不兼容的版本: ");
                crate::text::push_decimal(&mut s, *v as u64);
                s
            },
        }
    }
}

/// No two items of `items` refer to the same path (ASCII case ignored).
pub open spec fn no_dup_paths(items: Seq<ItemModel>) -> bool {
    forall|a: int, b: int| 0 <= a < b < items.len() ==> !eq_ascii_ci(items[a].path, items[b].path)
}

/// Adding items never creates a second entry for a path already in the folder: a folder
/// without duplicate paths keeps none.
pub proof fn law_add_items_no_duplicates(items: Seq<ItemModel>, paths: Seq<Seq<char>>, snaps: Seq<(u32, u32, u64)>, added: u64)
    requires
        no_dup_paths(items),
        paths.len() == snaps.len(),
    ensures
        no_dup_paths(add_items_spec(items, paths, snaps, added)),
    decreases paths.len(),
{
    if paths.len() > 0 {
        law_add_items_no_duplicates(items, paths.drop_last(), snaps.drop_last(), added);
        let prev = add_items_spec(items, paths.drop_last(), snaps.drop_last(), added);
        let p = paths.last();
        if supported_ext(ext_key(p)) && !has_path(prev, p) {
            let next = add_items_spec(items, paths, snaps, added);
            assert forall|a: int, b: int| 0 <= a < b < next.len() implies !eq_ascii_ci(next[a].path, next[b].path) by {
                if b == prev.len() {
                    assert(next[b].path == p);
                    assert(next[a] == prev[a]);
                    if eq_ascii_ci(next[a].path, p) {
                        assert(has_path(prev, p));
                    }
                } else {
                    assert(next[a] == prev[a] && next[b] == prev[b]);
                }
            }
        }
    }
}

/// Adding items keeps every item already in the folder, in front and in order.
pub proof fn law_add_items_keeps_existing(items: Seq<ItemModel>, paths: Seq<Seq<char>>, snaps: Seq<(u32, u32, u64)>, added: u64)
    ensures
        add_items_spec(items, paths, snaps, added).len() >= items.len(),
        add_items_spec(items, paths, snaps, added).take(items.len() as int) == items,
    decreases paths.len(),
{
    if paths.len() > 0 {
        law_add_items_keeps_existing(items, paths.drop_last(), snaps.drop_last(), added);
        let prev = add_items_spec(items, paths.drop_last(), snaps.drop_last(), added);
        assert(prev.push(ItemModel { path: seq![], name: seq![], width: 0, height: 0, format: seq![], mtime: 0, added: 0 })
            .take(items.len() as int) =~= prev.take(items.len() as int));
        let next = add_items_spec(items, paths, snaps, added);
        assert(next.take(items.len() as int) =~= prev.take(items.len() as int));
    }
}

/// Removing items leaves none whose path is listed, and keeps every other item.
pub proof fn law_remove_items(items: Seq<ItemModel>, ps: Seq<Seq<char>>)
    ensures
        forall|k: int| 0 <= k < keep_unlisted(items, ps).len() ==> !path_listed(ps, #[trigger] keep_unlisted(items, ps)[k].path),
        forall|k: int| 0 <= k < items.len() && !path_listed(ps, items[k].path)
            ==> keep_unlisted(items, ps).contains(#[trigger] items[k]),
    decreases items.len(),
{
    if items.len() > 0 {
        law_remove_items(items.drop_last(), ps);
        let prev = keep_unlisted(items.drop_last(), ps);
        let next = keep_unlisted(items, ps);
        assert forall|k: int| 0 <= k < next.len() implies !path_listed(ps, #[trigger] next[k].path) by {
            if k < prev.len() {
                assert(next[k] == prev[k]);
            }
        }
        assert forall|k: int| 0 <= k < items.len() && !path_listed(ps, items[k].path)
            implies next.contains(#[trigger] items[k]) by {
            if k < items.len() - 1 {
                assert(items.drop_last()[k] == items[k]);
                let j = choose|j: int| 0 <= j < prev.len() && prev[j] == items[k];
                assert(next[j] == prev[j]);
            } else {
                assert(next[next.len() - 1] == items[k]);
            }
        }
    }
}

proof fn lemma_append_new_has(items: Seq<ItemModel>, moved: Seq<ItemModel>)
    ensures
        forall|k: int| 0 <= k < moved.len() ==> has_path(append_new(items, moved), #[trigger] moved[k].path),
        forall|k: int| 0 <= k < items.len() ==> append_new(items, moved)[k] == items[k],
        append_new(items, moved).len() >= items.len(),
    decreases moved.len(),
{
    if moved.len() > 0 {
        lemma_append_new_has(items, moved.drop_last());
        let prev = append_new(items, moved.drop_last());
        let next = append_new(items, moved);
        assert forall|k: int| 0 <= k < moved.len() implies has_path(next, #[trigger] moved[k].path) by {
            if k < moved.len() - 1 {
                assert(moved.drop_last()[k] == moved[k]);
                assert(has_path(prev, moved[k].path));
                let j = choose|j: int| 0 <= j < prev.len() && eq_ascii_ci(prev[j].path, moved[k].path);
                assert(next[j] == prev[j]);
            } else if !has_path(prev, moved.last().path) {
                assert(next[next.len() - 1] == moved.last());
                assert(eq_ascii_ci(next[next.len() - 1].path, moved.last().path));
            }
        }
    }
}

/// Moving items: the source keeps no listed item, and the destination afterwards refers
/// to the path of every item that was moved (either already or by the new entry).
pub proof fn law_move_items(src: Seq<ItemModel>, dst: Seq<ItemModel>, ps: Seq<Seq<char>>)
    ensures
        forall|k: int| 0 <= k < keep_unlisted(src, ps).len() ==> !path_listed(ps, #[trigger] keep_unlisted(src, ps)[k].path),
        forall|k: int| 0 <= k < take_listed(src, ps).len()
            ==> has_path(append_new(dst, take_listed(src, ps)), #[trigger] take_listed(src, ps)[k].path),
        forall|k: int| 0 <= k < dst.len() ==> append_new(dst, take_listed(src, ps))[k] == dst[k],
{
    law_remove_items(src, ps);
    lemma_append_new_has(dst, take_listed(src, ps));
}

/// A folder created at the top level under an id not yet used is found by that id, at
/// the end of the top level, with its name and no content.
pub proof fn law_create_then_find(fs: Seq<FolderModel>, id: Seq<char>, name: Seq<char>)
    requires
        find(fs, id) is None,
    ensures
        find(fs.push(new_folder_model(id, name)), id) == Some(seq![fs.len() as int]),
        at(fs.push(new_folder_model(id, name)), seq![fs.len() as int]) == new_folder_model(id, name),
{
    let fs2 = fs.push(new_folder_model(id, name));
    lemma_find_prefix(fs, new_folder_model(id, name), id, 0);
}

proof fn lemma_find_prefix(fs: Seq<FolderModel>, m: FolderModel, id: Seq<char>, start: int)
    requires
        0 <= start <= fs.len(),
        find_from(fs, id, start) is None,
        m.id == id,
    ensures
        find_from(fs.push(m), id, start) == Some(seq![fs.len() as int]),
    decreases fs.len() - start,
{
    let fs2 = fs.push(m);
    if start < fs.len() {
        assert(fs2[start] == fs[start]);
        lemma_find_prefix(fs, m, id, start + 1);
    }
}

/// Renaming (or editing the items of) a folder keeps its id and children, so every
/// search by id gives the same result afterwards.
pub proof fn law_edit_keeps_search(fs: Seq<FolderModel>, p: Seq<int>, m: FolderModel, id: Seq<char>)
    requires
        valid_path(fs, p),
        m.id == at(fs, p).id,
        m.children == at(fs, p).children,
    ensures
        find(set_at(fs, p, m), id) == find(fs, id),
        at(set_at(fs, p, m), p) == m,
{
    lemma_find_same_shape(fs, p, m, id, 0);
    lemma_set_at_valid(fs, p, m);
}

/// Deleting a folder whose id is used at the top level leaves no top-level folder with
/// that id and keeps every other top-level folder in order.
pub proof fn law_delete_top(fs: Seq<FolderModel>, id: Seq<char>)
    ensures
        forall|k: int| 0 <= k < drop_id(fs, id).len() ==> (#[trigger] drop_id(fs, id)[k]).id != id,
        forall|k: int| 0 <= k < fs.len() && fs[k].id != id ==> drop_id(fs, id).contains(#[trigger] fs[k]),
    decreases fs.len(),
{
    if fs.len() > 0 {
        law_delete_top(fs.drop_last(), id);
        let prev = drop_id(fs.drop_last(), id);
        let next = drop_id(fs, id);
        assert forall|k: int| 0 <= k < next.len() implies (#[trigger] next[k]).id != id by {
            if k < prev.len() {
                assert(next[k] == prev[k]);
            }
        }
        assert forall|k: int| 0 <= k < fs.len() && fs[k].id != id implies next.contains(#[trigger] fs[k]) by {
            if k < fs.len() - 1 {
                assert(fs.drop_last()[k] == fs[k]);
                let j = choose|j: int| 0 <= j < prev.len() && prev[j] == fs[k];
                assert(next[j] == prev[j]);
            } else {
                assert(next[next.len() - 1] == fs[k]);
            }
        }
    }
}

/// A folder moved under a new parent arrives whole (same id, name, items and subtree)
/// as the last child of that parent.
pub proof fn law_move_folder_arrives(rest: Seq<FolderModel>, pp: Seq<int>, n: FolderModel)
    requires
        valid_path(rest, pp),
    ensures
        ({
            let after = set_at(rest, pp, FolderModel { children: at(rest, pp).children.push(n), ..at(rest, pp) });
            at(after, pp).children.last() == n
        }),
{
    lemma_set_at_valid(rest, pp, FolderModel { children: at(rest, pp).children.push(n), ..at(rest, pp) });
}

/// The extensions accepted into albums are exactly png, jpg, jpeg, gif, bmp, webp,
/// avif, tif, tiff, ico, psd and jxl (lower case): adding one path that is not yet in the
/// folder appends exactly one item for it when its lower-cased extension is one of them,
/// and changes nothing otherwise.
pub proof fn law_add_one_item(items: Seq<ItemModel>, p: Seq<char>, snap: (u32, u32, u64), added: u64)
    requires
        !has_path(items, p),
    ensures
        ({
            let e = ext_key(p);
            let accepted = e == "png"@ || e == "jpg"@ || e == "jpeg"@ || e == "gif"@ || e == "bmp"@
                || e == "webp"@ || e == "avif"@ || e == "tif"@ || e == "tiff"@ || e == "ico"@
                || e == "psd"@ || e == "jxl"@;
            let r = add_items_spec(items, seq![p], seq![snap], added);
            &&& accepted ==> r.len() == items.len() + 1 && r.take(items.len() as int) == items
                && r.last().path == p && r.last().width == snap.0 && r.last().height == snap.1
                && r.last().mtime == snap.2 && r.last().added == added
            &&& !accepted ==> r == items
        }),
{
    let paths = seq![p];
    let snaps = seq![snap];
    assert(paths.drop_last() =~= Seq::<Seq<char>>::empty());
    assert(snaps.drop_last() =~= Seq::<(u32, u32, u64)>::empty());
    assert(add_items_spec(items, paths.drop_last(), snaps.drop_last(), added) == items);
    let r = add_items_spec(items, paths, snaps, added);
    if supported_ext(ext_key(p)) {
        assert(r.take(items.len() as int) =~= items);
    }
}

} // verus!
