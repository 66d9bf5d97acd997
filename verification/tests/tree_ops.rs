use hdfs_gui_lib::download::mirror_entries;
use hdfs_gui_lib::files::HdfsFile;
use hdfs_gui_lib::modelfs::ModelEntry;
use hdfs_gui_lib::modelfs::ModelFs;
use hdfs_gui_lib::mutate::set_permission_recursive;
use hdfs_gui_lib::mutate::trash_delete_one;
use hdfs_gui_lib::mutate::trash_delete_plan;
use hdfs_gui_lib::walk::walk_tree;
use hdfs_gui_lib::walk::DirectoryTreeWalker;
use hdfs_gui_lib::walk::TreeNode;
use hdfs_gui_lib::walk::WalkStep;
use std::collections::HashSet;

fn file(name: &str, content: &[u8]) -> TreeNode {
    TreeNode {
        name: name.to_string(),
        isdir: false,
        content: content.to_vec(),
        children: Vec::new(),
    }
}

fn dir(name: &str, children: Vec<TreeNode>) -> TreeNode {
    TreeNode { name: name.to_string(), isdir: true, content: Vec::new(), children }
}

/// A tree with 4 files and 2 directories under the root.
fn sample_tree() -> TreeNode {
    dir(
        "root",
        vec![
            file("a.txt", b"alpha"),
            dir("sub", vec![file("b.bin", b"beta"), dir("deep", vec![file("c", b"gamma")])]),
            file("d.log", b"delta"),
        ],
    )
}

#[test]
fn walk_yields_every_file_and_directory_once() {
    let tree = sample_tree();
    let entries = walk_tree(&tree, "/data/root");
    // 4 files + 2 directories
    assert_eq!(entries.len(), 6);
    let paths: Vec<&str> = entries.iter().map(|e| e.path.as_str()).collect();
    let unique: HashSet<&str> = paths.iter().copied().collect();
    assert_eq!(unique.len(), 6);
    assert!(unique.contains("/data/root/a.txt"));
    assert!(unique.contains("/data/root/sub"));
    assert!(unique.contains("/data/root/sub/b.bin"));
    assert!(unique.contains("/data/root/sub/deep"));
    assert!(unique.contains("/data/root/sub/deep/c"));
    assert!(unique.contains("/data/root/d.log"));
}

#[test]
fn walk_lists_every_entrys_parent_directory() {
    let tree = sample_tree();
    let entries = walk_tree(&tree, "/data/root");
    let dirs: HashSet<String> = entries
        .iter()
        .filter(|e| e.isdir)
        .map(|e| e.path.clone())
        .collect();
    for e in &entries {
        let parent = hdfs_gui_lib::paths::parent_path_of(&e.path);
        assert!(parent == "/data/root" || dirs.contains(&parent), "parent {} missing", parent);
    }
}

fn listing_for(entries: &[ModelEntry], dirpath: &str) -> Vec<HdfsFile> {
    entries
        .iter()
        .filter(|e| hdfs_gui_lib::paths::parent_path_of(&e.path) == dirpath)
        .map(|e| {
            HdfsFile::from_status(
                &e.path,
                "owner".to_string(),
                "group".to_string(),
                e.isdir,
                0o644,
                0,
                0,
                e.content.len(),
            )
        })
        .collect()
}

#[test]
fn worklist_walker_drains_a_tree_through_listings() {
    let tree = sample_tree();
    let flat = walk_tree(&tree, "/data/root");
    let mut walker = DirectoryTreeWalker::new("/data/root", true);
    let mut yielded: Vec<String> = Vec::new();
    loop {
        match walker.poll() {
            WalkStep::Yield(e) => yielded.push(e.path),
            WalkStep::NeedListing(d) => {
                let page = listing_for(&flat, &d);
                walker.supply(page);
            }
            WalkStep::Done => break,
        }
    }
    assert_eq!(yielded.len(), 6);
    let unique: HashSet<&String> = yielded.iter().collect();
    assert_eq!(unique.len(), 6);
}

#[test]
fn walker_stays_done_once_exhausted() {
    let mut walker = DirectoryTreeWalker::new("/empty", true);
    match walker.poll() {
        WalkStep::NeedListing(d) => {
            assert_eq!(d, "/empty");
            walker.supply(Vec::new());
        }
        _ => panic!("expected a listing request"),
    }
    for _ in 0..3 {
        assert!(matches!(walker.poll(), WalkStep::Done));
    }
}

#[test]
fn non_recursive_walker_stops_at_immediate_children() {
    let tree = sample_tree();
    let flat = walk_tree(&tree, "/data/root");
    let mut walker = DirectoryTreeWalker::new("/data/root", false);
    let mut yielded: Vec<String> = Vec::new();
    loop {
        match walker.poll() {
            WalkStep::Yield(e) => yielded.push(e.path),
            WalkStep::NeedListing(d) => walker.supply(listing_for(&flat, &d)),
            WalkStep::Done => break,
        }
    }
    assert_eq!(yielded.len(), 3);
}

#[test]
fn folder_download_mirrors_contents_and_structure() {
    let tree = sample_tree();
    let entries = walk_tree(&tree, "/data/root");
    let mut local = ModelFs::new();
    mirror_entries(&mut local, &entries, "/tmp/out", "/data/root");
    let c = local.entry_at("/tmp/out/a.txt").expect("file mirrored");
    assert!(!c.isdir);
    assert_eq!(c.content, b"alpha".to_vec());
    let c = local.entry_at("/tmp/out/sub/deep/c").expect("nested file mirrored");
    assert_eq!(c.content, b"gamma".to_vec());
    let d = local.entry_at("/tmp/out/sub").expect("directory mirrored");
    assert!(d.isdir);
    let d = local.entry_at("/tmp/out/sub/deep").expect("nested directory mirrored");
    assert!(d.isdir);
}

#[test]
fn folder_download_on_clean_target_is_idempotent() {
    let tree = sample_tree();
    let entries = walk_tree(&tree, "/data/root");
    let mut first = ModelFs::new();
    mirror_entries(&mut first, &entries, "/tmp/out", "/data/root");
    let mut second = ModelFs::new();
    mirror_entries(&mut second, &entries, "/tmp/out", "/data/root");
    assert_eq!(first.entries.len(), second.entries.len());
    for (a, b) in first.entries.iter().zip(second.entries.iter()) {
        assert_eq!(a.path, b.path);
        assert_eq!(a.isdir, b.isdir);
        assert_eq!(a.content, b.content);
    }
}

fn seeded_fs() -> ModelFs {
    let mut fs = ModelFs::new();
    fs.mkdirs("/a/b", 0o755);
    fs.upsert_file("/a/b/c.txt", b"payload".to_vec(), 0o644);
    fs.upsert_file("/a/other.txt", b"other".to_vec(), 0o644);
    fs
}

#[test]
fn trash_delete_moves_the_entry_under_the_users_trash() {
    let mut fs = seeded_fs();
    trash_delete_one(&mut fs, "u", "/a/b/c.txt").unwrap();
    assert!(fs.entry_at("/a/b/c.txt").is_none());
    let moved = fs.entry_at("/user/u/.Trash/Current/a/b/c.txt").expect("entry in trash");
    assert_eq!(moved.content, b"payload".to_vec());
    assert!(!moved.isdir);
    // untouched sibling
    assert!(fs.entry_at("/a/other.txt").is_some());
}

#[test]
fn trash_delete_of_missing_path_fails_and_changes_nothing() {
    let mut fs = seeded_fs();
    let before = fs.entries.len();
    assert!(trash_delete_one(&mut fs, "u", "/no/such/file").is_err());
    assert_eq!(fs.entries.len(), before);
}

#[test]
fn trash_delete_plan_names_every_step() {
    let paths = vec!["/a/b/c.txt".to_string(), "/x".to_string()];
    let plan = trash_delete_plan("u", &paths);
    assert_eq!(plan.len(), 2);
    assert_eq!(plan[0].from, "/a/b/c.txt");
    assert_eq!(plan[0].to, "/user/u/.Trash/Current/a/b/c.txt");
    assert_eq!(plan[0].mkdir_parent, "/user/u/.Trash/Current/a/b");
    assert_eq!(plan[1].from, "/x");
    assert_eq!(plan[1].to, "/user/u/.Trash/Current/x");
    assert_eq!(plan[1].mkdir_parent, "/user/u/.Trash/Current");
}

#[test]
fn recursive_permission_set_reaches_nested_descendants() {
    let mut fs = ModelFs::new();
    fs.mkdirs("/a/b/c", 0o755);
    fs.upsert_file("/a/b/c/file1", b"1".to_vec(), 0o600);
    fs.upsert_file("/a/b/deepless", b"2".to_vec(), 0o600);
    fs.upsert_file("/outside", b"3".to_vec(), 0o600);
    set_permission_recursive(&mut fs, "/a/b", 0o640);
    assert_eq!(fs.entry_at("/a/b").unwrap().permission, 0o640);
    assert_eq!(fs.entry_at("/a/b/c").unwrap().permission, 0o640);
    assert_eq!(fs.entry_at("/a/b/c/file1").unwrap().permission, 0o640);
    assert_eq!(fs.entry_at("/a/b/deepless").unwrap().permission, 0o640);
    // entries outside the subtree keep their bits
    assert_eq!(fs.entry_at("/outside").unwrap().permission, 0o600);
    assert_eq!(fs.entry_at("/a").unwrap().permission, 0o755);
}

#[test]
fn model_fs_rename_and_permission_errors() {
    let mut fs = ModelFs::new();
    fs.upsert_file("/f", b"x".to_vec(), 0o644);
    assert!(fs.rename_entry("/missing", "/elsewhere").is_err());
    assert!(fs.set_permission_entry("/missing", 0o600).is_err());
    fs.rename_entry("/f", "/g").unwrap();
    assert!(fs.entry_at("/f").is_none());
    assert_eq!(fs.entry_at("/g").unwrap().content, b"x".to_vec());
}
