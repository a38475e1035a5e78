use jietu_viewer::albums::{
    album_add_items, album_create_folder, album_delete_folder, album_move_folder, album_move_items,
    album_remove_items, album_rename_folder, albums_import, assign_ids, contains_id, folder_count,
    folder_name_or, import_mode, is_supported_ext, reassign_ids, AlbumError, AlbumFile, ImportMode,
};

fn s(x: &str) -> String {
    x.to_string()
}

fn sample() -> AlbumFile {
    let mut f = AlbumFile { version: 1, folders: Vec::new() };
    album_create_folder(&mut f, None, s("  旅行 "), s("t")).unwrap();
    album_create_folder(&mut f, Some(s("t")), s("2024"), s("t24")).unwrap();
    album_create_folder(&mut f, None, s("家庭"), s("fam")).unwrap();
    f
}

#[test]
fn create_and_rename() {
    let mut f = sample();
    assert_eq!(f.folders.len(), 2);
    assert_eq!(f.folders[0].name, "旅行");
    assert_eq!(f.folders[0].children[0].id, "t24");
    assert_eq!(album_create_folder(&mut f, None, s("   "), s("x")), Err(AlbumError::EmptyName));
    assert_eq!(album_create_folder(&mut f, Some(s("none")), s("a"), s("x")), Err(AlbumError::ParentNotFound));
    album_rename_folder(&mut f, &s("t24"), s(" 二〇二四 ")).unwrap();
    assert_eq!(folder_name_or(&f, &s("t24")), "二〇二四");
    assert_eq!(folder_name_or(&f, &s("zzz")), "zzz");
    assert_eq!(album_rename_folder(&mut f, &s("zzz"), s("a")), Err(AlbumError::NotFound));
}

#[test]
fn add_remove_and_move_items() {
    let mut f = sample();
    let paths = vec![s("C:/a/One.JPG"), s("C:/a/two.txt"), s("C:/a/three.tif"), s("c:/a/one.jpg")];
    let snaps = vec![(10, 20, 5), (1, 1, 1), (30, 40, 6), (10, 20, 5)];
    album_add_items(&mut f, &s("t24"), paths, snaps, 1000).unwrap();
    let items = &f.folders[0].children[0].items;
    assert_eq!(items.len(), 2, "unsupported skipped, duplicate (ignoring ASCII case) skipped");
    assert_eq!(items[0].name, "One.JPG");
    assert_eq!(items[0].format, "jpg");
    assert_eq!(items[1].format, "tiff");
    assert_eq!((items[1].width, items[1].height, items[1].mtime, items[1].added), (30, 40, 6, 1000));

    album_move_items(&mut f, &s("t24"), &s("fam"), &vec![s("c:/A/one.jpg")]).unwrap();
    assert_eq!(f.folders[0].children[0].items.len(), 1);
    assert_eq!(f.folders[1].items.len(), 1);
    assert_eq!(f.folders[1].items[0].path, "C:/a/One.JPG");
    assert_eq!(album_move_items(&mut f, &s("nope"), &s("fam"), &vec![]), Err(AlbumError::SourceNotFound));

    album_remove_items(&mut f, &s("fam"), &vec![s("C:/A/ONE.jpg")]).unwrap();
    assert!(f.folders[1].items.is_empty());
    assert_eq!(album_remove_items(&mut f, &s("nope"), &vec![]), Err(AlbumError::NotFound));
}

#[test]
fn move_and_delete_folders() {
    let mut f = sample();
    assert_eq!(album_move_folder(&mut f, &s("t"), Some(s("t24"))), Err(AlbumError::MoveIntoSelf));
    let mut f = sample();
    album_move_folder(&mut f, &s("t24"), Some(s("fam"))).unwrap();
    assert!(f.folders[0].children.is_empty());
    assert_eq!(f.folders[1].children[0].id, "t24");
    assert!(contains_id(&f.folders[1], &s("t24")));
    album_move_folder(&mut f, &s("t24"), None).unwrap();
    assert_eq!(f.folders.len(), 3);
    album_delete_folder(&mut f, &s("t")).unwrap();
    assert_eq!(f.folders.len(), 2);
    assert_eq!(album_delete_folder(&mut f, &s("t")), Err(AlbumError::NotFound));
}

#[test]
fn import_modes() {
    assert_eq!(import_mode("merge"), ImportMode::Merge);
    assert_eq!(import_mode("replace"), ImportMode::Replace);
    let mut n = 0;
    let mut next = || {
        n += 1;
        format!("id{}", n)
    };
    let bad = AlbumFile { version: 2, folders: Vec::new() };
    match albums_import(sample(), bad, ImportMode::Merge, &mut next) {
        Err(e) => {
            assert_eq!(e, AlbumError::IncompatibleVersion(2));
            assert_eq!(e.message(), "不兼容的版本: 2");
        }
        Ok(_) => panic!("version 2 is refused"),
    }
    let merged = albums_import(sample(), sample(), ImportMode::Merge, &mut next).unwrap();
    assert_eq!(merged.folders.len(), 4);
    assert_ne!(merged.folders[2].id, "t", "merged folders get fresh ids");
    let replaced = albums_import(sample(), AlbumFile { version: 1, folders: Vec::new() }, ImportMode::Replace, &mut next).unwrap();
    assert!(replaced.folders.is_empty());
    assert!(is_supported_ext("jxl") && !is_supported_ext("JPG"));
}

#[test]
fn ids_are_given_in_pre_order() {
    let mut f = sample();
    assert_eq!(folder_count(&f.folders), 3);
    assign_ids(&mut f.folders, &vec![s("a"), s("b"), s("c")]);
    assert_eq!(f.folders[0].id, "a");
    assert_eq!(f.folders[0].children[0].id, "b");
    assert_eq!(f.folders[1].id, "c");
    assert_eq!(f.folders[0].name, "旅行");
    assert_eq!(f.folders[0].children[0].name, "2024");
    let n = std::cell::Cell::new(0);
    let mut next = || {
        n.set(n.get() + 1);
        format!("n{}", n.get())
    };
    reassign_ids(&mut f.folders, &mut next);
    assert_eq!(f.folders[0].id, "n1");
    assert_eq!(f.folders[0].children[0].id, "n2");
    assert_eq!(f.folders[1].id, "n3");
    assert_eq!(n.get(), 3, "one call per folder");
    let merged = albums_import(sample(), sample(), ImportMode::Merge, &mut next).unwrap();
    assert_eq!(merged.folders[0].id, "t");
    assert_eq!(merged.folders[2].id, "n4");
    assert_eq!(merged.folders[2].children[0].id, "n5");
    assert_eq!(merged.folders[3].id, "n6");
}
