use kmrebind::device_discovery::{first_by_path, is_likely_keyboard, PathComponent};
use std::path::{Component, PathBuf};
use kmrebind::error::Error;
use kmrebind::options::RunOptions;
use kmrebind::util::should_shutdown;
use std::sync::atomic::{AtomicBool, Ordering};
use std::sync::Arc;

fn path(p: &str) -> Vec<PathComponent> {
    std::path::Path::new(p)
        .components()
        .map(|c| match c {
            Component::RootDir => PathComponent::RootDir,
            Component::CurDir => PathComponent::CurDir,
            Component::ParentDir => PathComponent::ParentDir,
            Component::Normal(n) => PathComponent::Normal(n.to_string_lossy().as_bytes().to_vec()),
            Component::Prefix(_) => panic!("no prefixes on Unix"),
        })
        .collect()
}

#[test]
fn error_messages() {
    assert_eq!(
        Error::DeviceNotFound("/dev/x".to_string()).message(),
        "Device path does not exist: /dev/x"
    );
    assert_eq!(
        Error::OpenDevice { path: "/dev/x".to_string(), source: "denied".to_string() }.message(),
        "Failed to open /dev/x: denied"
    );
    assert_eq!(Error::InvalidKeys.message(), "No valid keys specified");
    assert_eq!(
        Error::NoKeyboards.message(),
        "No keyboard devices found. Check: groups (input), udev rules, --device /dev/input/eventX"
    );
    assert_eq!(Error::UInputFailed("x".to_string()).message(), "UInput failed: x");
    assert_eq!(Error::GrabFailed("busy".to_string()).message(), "Failed to grab device: busy");
    assert_eq!(
        Error::SignalHandler("e".to_string()).message(),
        "Could not set signal handlers: e"
    );
}

#[test]
fn error_hints() {
    let readme = Some("See README.md for udev rules and input group.");
    assert_eq!(Error::NoKeyboards.hint(), readme);
    assert_eq!(Error::DeviceNotFound(String::new()).hint(), readme);
    assert_eq!(Error::OpenDevice { path: String::new(), source: String::new() }.hint(), readme);
    assert_eq!(
        Error::UInputFailed(String::new()).hint(),
        Some("Make sure you have permissions to /dev/uinput")
    );
    assert_eq!(Error::InvalidKeys.hint(), None);
    assert_eq!(Error::GrabFailed(String::new()).hint(), None);
    assert_eq!(Error::SignalHandler(String::new()).hint(), None);
}

#[test]
fn run_options_default() {
    let o = RunOptions::default();
    assert_eq!(o.keys, vec!["KEY_DOT".to_string(), "KEY_SLASH".to_string()]);
    assert!(o.device_path.is_none());
    assert!(!o.dry_run);
    assert!(!o.verbose);
    let keys = o.mapped_keys().unwrap();
    assert_eq!(keys.len(), 2);
    assert!(keys.contains(&52) && keys.contains(&53));
}

#[test]
fn run_options_without_valid_keys() {
    let o = RunOptions {
        keys: vec!["NOT_A_REAL_KEY_NAME_XYZ".to_string()],
        device_path: None,
        dry_run: false,
        verbose: false,
    };
    assert!(matches!(o.mapped_keys(), Err(Error::InvalidKeys)));
    let o = RunOptions { keys: vec![], device_path: None, dry_run: true, verbose: true };
    assert!(matches!(o.mapped_keys(), Err(Error::InvalidKeys)));
}

#[test]
fn keyboard_detection() {
    assert!(!is_likely_keyboard(None));
    assert!(!is_likely_keyboard(Some(&[])));
    assert!(!is_likely_keyboard(Some(&[0x110, 0x111])));
    assert!(is_likely_keyboard(Some(&[0x110, 1])));
    assert!(is_likely_keyboard(Some(&[15])));
    assert!(is_likely_keyboard(Some(&[18])));
    assert!(!is_likely_keyboard(Some(&[52, 53, 57])));
}

#[test]
fn first_keyboard_by_path() {
    assert_eq!(first_by_path(&[]), None);
    let paths = vec![path("/dev/input/event3"), path("/dev/input/event10"), path("/dev/input/event2")];
    assert_eq!(first_by_path(&paths), Some(1));
    let paths = vec![path("/dev/input/event3"), path("/dev/input/event2"), path("/dev/input/event2")];
    assert_eq!(first_by_path(&paths), Some(1));
    let paths = vec![path("/a/b"), path("/a-c")];
    assert_eq!(first_by_path(&paths), Some(0));
    let mut sorted = vec![std::path::PathBuf::from("/a/b"), std::path::PathBuf::from("/a-c")];
    sorted.sort();
    assert_eq!(sorted[0], std::path::PathBuf::from("/a/b"));
}

/// The first path agrees with the first of std's stable sort of the paths,
/// also where the root, `.` and `..` meet named components.
#[test]
fn first_by_path_agrees_with_std_order() {
    let names = [
        "./a", "-b", "/x", "a", "../a", ".", "..", "/", "!z", "/-", "/a/./b", "a/b", "a-b",
        "/dev/input/event2", "/dev/input/event10", "$", "a/../b",
    ];
    for i in 0..names.len() {
        for j in 0..names.len() {
            for k in 0..names.len() {
                let list = [names[i], names[j], names[k]];
                let bufs: Vec<PathBuf> = list.iter().map(PathBuf::from).collect();
                let mut indexed: Vec<(usize, &PathBuf)> = bufs.iter().enumerate().collect();
                indexed.sort_by(|x, y| x.1.cmp(y.1));
                let expected = indexed[0].0;
                let comps: Vec<Vec<PathComponent>> = list.iter().map(|p| path(p)).collect();
                assert_eq!(first_by_path(&comps), Some(expected), "{:?}", list);
            }
        }
    }
}

#[test]
fn shutdown_flag() {
    let flag = Arc::new(AtomicBool::new(false));
    assert!(!should_shutdown(&flag));
    flag.store(true, Ordering::Relaxed);
    assert!(should_shutdown(&flag));
}

#[test]
fn run_options_clone() {
    let o = RunOptions::default();
    let c = o.clone();
    assert_eq!(c.keys, o.keys);
    assert_eq!(c.device_path, o.device_path);
}
