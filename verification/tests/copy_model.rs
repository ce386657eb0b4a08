//! Tree-copy behavior on the filesystem model, mirroring the worker's
//! materialization of a handler tree.

use noctiforge_worker::fsmodel::FsModel;

fn p(parts: &[&str]) -> Vec<String> {
    parts.iter().map(|s| s.to_string()).collect()
}

#[test]
fn test_copy_dir_all_simple() {
    let mut fs = FsModel::new();
    let src = p(&["src"]);
    let dst = p(&["dst"]);

    fs.create_dir_all(&src);
    fs.write(&p(&["src", "test.txt"]), b"hello".to_vec());

    let result = fs.copy_dir_all(&src, &dst);
    assert!(result.is_ok());

    assert!(fs.contains_path(&dst));
    assert!(fs.contains_path(&p(&["dst", "test.txt"])));

    let content = fs.read(&p(&["dst", "test.txt"])).unwrap();
    assert_eq!(content, b"hello".to_vec());
}

#[test]
fn test_copy_dir_all_nested() {
    let mut fs = FsModel::new();
    let src = p(&["src"]);

    fs.create_dir_all(&p(&["src", "subdir"]));
    fs.write(&p(&["src", "file1.txt"]), b"content1".to_vec());
    fs.write(&p(&["src", "file2.txt"]), b"content2".to_vec());
    fs.write(&p(&["src", "subdir", "file3.txt"]), b"content3".to_vec());

    let dst = p(&["dst"]);
    let result = fs.copy_dir_all(&src, &dst);
    assert!(result.is_ok());

    assert!(fs.contains_path(&dst));
    assert!(fs.contains_path(&p(&["dst", "file1.txt"])));
    assert!(fs.contains_path(&p(&["dst", "file2.txt"])));
    assert!(fs.contains_path(&p(&["dst", "subdir"])));
    assert!(fs.contains_path(&p(&["dst", "subdir", "file3.txt"])));

    assert_eq!(fs.read(&p(&["dst", "file1.txt"])).unwrap(), b"content1".to_vec());
    assert_eq!(fs.read(&p(&["dst", "subdir", "file3.txt"])).unwrap(), b"content3".to_vec());
}

#[test]
fn test_copy_dir_all_empty_directory() {
    let mut fs = FsModel::new();
    let src = p(&["empty_src"]);
    let dst = p(&["empty_dst"]);

    fs.create_dir_all(&src);

    let result = fs.copy_dir_all(&src, &dst);
    assert!(result.is_ok());
    assert!(fs.contains_path(&dst));
}

#[test]
fn test_copy_dir_all_nonexistent_source() {
    let mut fs = FsModel::new();
    let src = p(&["nonexistent"]);
    let dst = p(&["dst"]);

    let result = fs.copy_dir_all(&src, &dst);
    assert!(result.is_err());
}

#[test]
fn test_copy_preserves_directory_structure() {
    let mut fs = FsModel::new();
    let src = p(&["src"]);

    fs.create_dir_all(&p(&["src", "a", "b", "c"]));
    fs.write(&p(&["src", "a", "b", "c", "deep.txt"]), b"deep content".to_vec());
    fs.write(&p(&["src", "a", "shallow.txt"]), b"shallow".to_vec());

    let dst = p(&["dst"]);
    fs.copy_dir_all(&src, &dst).unwrap();

    assert!(fs.contains_path(&p(&["dst", "a"])));
    assert!(fs.contains_path(&p(&["dst", "a", "b"])));
    assert!(fs.contains_path(&p(&["dst", "a", "b", "c"])));
    assert!(fs.contains_path(&p(&["dst", "a", "b", "c", "deep.txt"])));
    assert!(fs.contains_path(&p(&["dst", "a", "shallow.txt"])));
}

#[test]
fn test_copy_multiple_files_same_directory() {
    let mut fs = FsModel::new();
    let src = p(&["src"]);
    fs.create_dir_all(&src);

    for i in 0..10 {
        fs.write(&p(&["src", &format!("file{}.txt", i)]), format!("content{}", i).into_bytes());
    }

    let dst = p(&["dst"]);
    fs.copy_dir_all(&src, &dst).unwrap();

    for i in 0..10 {
        let file_path = p(&["dst", &format!("file{}.txt", i)]);
        assert!(fs.contains_path(&file_path));
        let content = fs.read(&file_path).unwrap();
        assert_eq!(content, format!("content{}", i).into_bytes());
    }
}

#[test]
fn test_copy_dir_all_creates_intermediate_directories() {
    let mut fs = FsModel::new();
    let src = p(&["src"]);
    let dst = p(&["deeply", "nested", "dst"]);

    fs.create_dir_all(&src);
    fs.write(&p(&["src", "file.txt"]), b"test".to_vec());

    let result = fs.copy_dir_all(&src, &dst);
    assert!(result.is_ok());
    assert!(fs.contains_path(&p(&["deeply"])));
    assert!(fs.contains_path(&p(&["deeply", "nested"])));
    assert!(fs.contains_path(&dst));
    assert!(fs.contains_path(&p(&["deeply", "nested", "dst", "file.txt"])));
}

#[test]
fn test_copy_dir_all_overwrites_existing_files() {
    let mut fs = FsModel::new();
    let src = p(&["src"]);
    let dst = p(&["dst"]);

    fs.create_dir_all(&src);
    fs.write(&p(&["src", "file.txt"]), b"new content".to_vec());

    fs.create_dir_all(&dst);
    fs.write(&p(&["dst", "file.txt"]), b"old content".to_vec());

    fs.copy_dir_all(&src, &dst).unwrap();

    let content = fs.read(&p(&["dst", "file.txt"])).unwrap();
    assert_eq!(content, b"new content".to_vec());
}

#[test]
fn test_copy_dir_all_with_binary_files() {
    let mut fs = FsModel::new();
    let src = p(&["src"]);
    let dst = p(&["dst"]);

    fs.create_dir_all(&src);
    let binary_data: Vec<u8> = vec![0, 1, 2, 255, 254, 253];
    fs.write(&p(&["src", "binary.bin"]), binary_data.clone());

    fs.copy_dir_all(&src, &dst).unwrap();

    let copied_data = fs.read(&p(&["dst", "binary.bin"])).unwrap();
    assert_eq!(copied_data, binary_data);
}

#[test]
fn test_copy_dir_all_preserves_empty_subdirs() {
    let mut fs = FsModel::new();
    let src = p(&["src"]);

    fs.create_dir_all(&p(&["src", "empty1"]));
    fs.create_dir_all(&p(&["src", "empty2", "nested"]));
    fs.write(&p(&["src", "file.txt"]), b"data".to_vec());

    let dst = p(&["dst"]);
    fs.copy_dir_all(&src, &dst).unwrap();

    assert!(fs.contains_path(&p(&["dst", "empty1"])));
    assert!(fs.contains_path(&p(&["dst", "empty2"])));
    assert!(fs.contains_path(&p(&["dst", "empty2", "nested"])));
    assert!(fs.contains_path(&p(&["dst", "file.txt"])));
}

#[test]
fn copy_into_empty_source_creates_empty_destination_only() {
    // an empty artifact directory still yields a valid, empty target
    let mut fs = FsModel::new();
    fs.create_dir_all(&p(&["art"]));
    fs.copy_dir_all(&p(&["art"]), &p(&["app"])).unwrap();
    assert!(fs.contains_path(&p(&["app"])));
    assert!(fs.is_dir(&p(&["app"])));
    assert!(!fs.contains_path(&p(&["app", "anything"])));
}

#[test]
fn remove_subtree_removes_everything_below() {
    let mut fs = FsModel::new();
    fs.create_dir_all(&p(&["a", "b"]));
    fs.write(&p(&["a", "b", "f.txt"]), b"x".to_vec());
    fs.write(&p(&["keep.txt"]), b"y".to_vec());
    fs.remove_subtree(&p(&["a"]));
    assert!(!fs.contains_path(&p(&["a"])));
    assert!(!fs.contains_path(&p(&["a", "b"])));
    assert!(!fs.contains_path(&p(&["a", "b", "f.txt"])));
    assert!(fs.contains_path(&p(&["keep.txt"])));
}
