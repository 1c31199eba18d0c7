use rustymedia::local::Object;
use rustymedia::root::{Node, Root};
use rustymedia::Type;

fn sample_root() -> Root {
    let mut root = Root::new();
    root.add(Object::new_root("Local".to_string(), "/media".to_string()));
    root.add(Object::new_root("Videos".to_string(), "/srv/v".to_string()));
    root
}

#[test]
fn test_lookup_keeps_id() {
    // Looking an id up yields an object carrying that very id.
    let root = sample_root();
    for id in ["Local/clip.mkv", "Local/shows/ep 1.mkv", "Videos/a/b/c.mp4"] {
        match root.lookup(id, false).unwrap() {
            Node::Item(o) => assert_eq!(o.id(), id),
            Node::VirtualRoot => panic!("expected an item"),
        }
    }
    assert!(matches!(root.lookup("0", true).unwrap(), Node::VirtualRoot));
}

#[test]
fn test_lookup_never_escapes_root() {
    // `..` segments vanish, so the resolved path stays below the root.
    let root = sample_root();
    match root.lookup("Local/../../etc/passwd", false).unwrap() {
        Node::Item(o) => {
            assert_eq!(o.id(), "Local/etc/passwd");
            assert_eq!(o.path, "/media/etc/passwd");
        }
        Node::VirtualRoot => panic!("expected an item"),
    }
}

#[test]
fn test_lookup_unknown_root() {
    let root = sample_root();
    assert!(matches!(
        root.lookup("Nowhere/clip.mkv", false),
        Err(rustymedia::error::Error::NotFound(_))
    ));
}

#[test]
fn test_parent_ids() {
    let root = sample_root();
    match root.lookup("Local/shows/ep 1.mkv", false).unwrap() {
        Node::Item(o) => assert_eq!(o.parent_id(), "Local/shows"),
        Node::VirtualRoot => panic!("expected an item"),
    }
    let top = Object::new_root("Local".to_string(), "/media".to_string());
    assert_eq!(top.parent_id(), "0");
    assert_eq!(root.parent_id(), "-1");
    assert_eq!(root.id(), "0");
    assert_eq!(root.title(), "Rusty Media");
    assert!(root.is_dir());
}

#[test]
fn test_file_types() {
    let root = Object::new_root("Local".to_string(), "/media".to_string());
    let entries = vec![
        ("clip.mkv".to_string(), false),
        ("clip.avi".to_string(), false),
        ("photo.jpg".to_string(), false),
        ("subs.srt".to_string(), false),
        ("notes.txt".to_string(), false),
        ("season 1".to_string(), true),
        (".hidden".to_string(), false),
    ];
    let children = root.children_from_entries(&entries);
    let types: Vec<Type> = children.iter().map(|o| o.file_type()).collect();
    assert_eq!(
        types,
        vec![
            Type::Video,
            Type::Video,
            Type::Image,
            Type::Subtitles,
            Type::Other,
            Type::Directory,
            Type::Other
        ]
    );
    assert_eq!(children[5].dlna_class(), "object.container.storageFolder");
    assert_eq!(children[0].dlna_class(), "object.item.videoItem");
    assert_eq!(children[2].dlna_class(), "object.item.imageItem.photo");
    assert_eq!(children[4].dlna_class(), "object.item");
}

#[test]
fn test_titles_and_prefix() {
    let root = Object::new_root("Local".to_string(), "/media".to_string());
    let children = root.children_from_entries(&vec![("ep 1.mkv".to_string(), false)]);
    assert_eq!(children[0].title(), "ep 1.mkv");
    assert_eq!(children[0].id(), "Local/ep 1.mkv");
    assert_eq!(children[0].prefix(), "Local/ep 1");
    // A dot in an earlier segment does not count as an extension.
    let nested = children[0].children_from_entries(&vec![("raw".to_string(), false)]);
    assert_eq!(nested[0].id(), "Local/ep 1.mkv/raw");
    assert_eq!(nested[0].prefix(), "Local/ep 1.mkv/raw");
}

#[test]
fn test_duplicate_root_name_replaces() {
    let mut root = Root::new();
    root.add(Object::new_root("Local".to_string(), "/media".to_string()));
    root.add(Object::new_root("Videos".to_string(), "/srv/v".to_string()));
    // Registering a name again replaces the earlier mapping in place.
    root.add(Object::new_root("Local".to_string(), "/elsewhere".to_string()));
    let children = root.children();
    assert_eq!(children.len(), 2);
    assert_eq!(children[0].id(), "Local");
    assert_eq!(children[0].path, "/elsewhere");
    assert_eq!(children[1].id(), "Videos");
    match root.lookup("Local/clip.mkv", false).unwrap() {
        Node::Item(o) => assert_eq!(o.path, "/elsewhere/clip.mkv"),
        Node::VirtualRoot => panic!("expected an item"),
    }
}

#[test]
fn test_root_title_is_registered_name() {
    // The root object's title is the registered name, even when the path's
    // last segment differs.
    let top = Object::new_root("Movies".to_string(), "/srv/videos".to_string());
    assert_eq!(top.title(), "Movies");
    // Below the root, titles come from the path.
    let children = top.children_from_entries(&vec![("clip.mkv".to_string(), false)]);
    assert_eq!(children[0].title(), "clip.mkv");
}

#[test]
fn test_empty_root_set() {
    let root = Root::new();
    assert!(root.is_empty());
    assert!(!sample_root().is_empty());
    assert_eq!(sample_root().children().len(), 2);
}
