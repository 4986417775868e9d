use iscsi_lib::auto_format::{
    first_disk, is_formatted, parse_attached_device, raw_device, split_words, AutoFormat,
    AutoFormatState, FormatStep,
};

#[test]
fn device_is_the_first_disk_word() {
    assert_eq!(
        parse_attached_device("/dev/disk4  \t...\n").as_deref(),
        Some("/dev/disk4")
    );
    assert_eq!(
        parse_attached_device("attached\t /dev/rdisk1 /dev/disk12s1\n/dev/disk3").as_deref(),
        Some("/dev/disk12s1")
    );
    // Unicode white space separates words, too.
    assert_eq!(
        parse_attached_device("x\u{3000}/dev/disk5\u{a0}y").as_deref(),
        Some("/dev/disk5")
    );
    assert_eq!(parse_attached_device("x/dev/disk5").as_deref(), None);
    assert_eq!(parse_attached_device("/dev/dis").as_deref(), None);
    assert_eq!(parse_attached_device("").as_deref(), None);
}

#[test]
fn words_are_what_white_space_separates() {
    assert_eq!(split_words("  a\tbc\u{2003}d\n"), ["a", "bc", "d"]);
    assert_eq!(split_words(" \n"), Vec::<String>::new());
    let words = vec!["disk".to_string(), "/dev/disk7".to_string(), "/dev/disk8".to_string()];
    assert_eq!(first_disk(&words).as_deref(), Some("/dev/disk7"));
    assert_eq!(first_disk(&vec!["/dev/rdisk7".to_string()]), None);
}

#[test]
fn white_space_is_what_unicode_says() {
    let white = |c: char| {
        matches!(c as u32, 0x09..=0x0D | 0x20 | 0x85 | 0xA0 | 0x1680 | 0x2000..=0x200A
            | 0x2028 | 0x2029 | 0x202F | 0x205F | 0x3000)
    };
    for c in '\0'..=char::MAX {
        assert_eq!(c.is_whitespace(), white(c));
    }
    assert_eq!(split_words("a\u{2007}b\u{200b}c"), ["a", "b\u{200b}c"]);
}

#[test]
fn filesystems_are_recognized() {
    assert!(is_formatted(Some("   Partition Type: Apple_HFS\n")));
    assert!(is_formatted(Some("Apple_APFS")));
    assert!(is_formatted(Some("File System Personality\nType (Bundle): hfs")));
    assert!(!is_formatted(Some("Apple_HF")));
    assert!(!is_formatted(Some("")));
    assert!(!is_formatted(None));
}

#[test]
fn raw_device_has_an_r() {
    assert_eq!(raw_device("/dev/disk4"), "/dev/rdisk4");
    assert_eq!(raw_device("/dev/disk12s1"), "/dev/rdisk12s1");
}

#[test]
fn empty_disk_is_formatted_and_mounted() {
    let mut run = AutoFormat::new();
    assert!(matches!(run.on_look(false), FormatStep::Wait));
    assert!(matches!(run.on_look(true), FormatStep::Attach));
    match run.on_attached(Some("/dev/disk4\n")) {
        FormatStep::Inspect(dev) => assert_eq!(dev, "/dev/disk4"),
        _ => panic!("a disk was attached"),
    }
    match run.on_inspected(Some("nothing there")) {
        FormatStep::Format(raw) => assert_eq!(raw, "/dev/rdisk4"),
        _ => panic!("the disk is empty"),
    }
    assert!(matches!(run.on_formatted(true), FormatStep::Mount));
    assert!(matches!(run.on_formatted(false), FormatStep::Stop));
}

#[test]
fn formatted_disk_is_kept() {
    let mut run = AutoFormat::new();
    run.on_attached(Some("/dev/disk4\n"));
    assert!(matches!(
        run.on_inspected(Some("Apple_HFS")),
        FormatStep::Mount
    ));
}

#[test]
fn looking_ends_after_a_hundred_times() {
    let mut run = AutoFormat::new();
    for _ in 0..99 {
        assert!(matches!(run.on_look(false), FormatStep::Wait));
    }
    assert!(matches!(run.on_look(false), FormatStep::Stop));
}

#[test]
fn failed_attach_stops() {
    let mut run = AutoFormat::new();
    assert!(matches!(run.on_attached(None), FormatStep::Stop));
    assert!(matches!(run.on_attached(Some("no disk")), FormatStep::Stop));
    assert!(run.device.is_none());
}

#[test]
fn disk_is_detached_once() {
    let mut state = AutoFormatState::new();
    assert_eq!(state.detach(), None);
    state.attach("/dev/disk4".to_string());
    assert_eq!(state.detach().as_deref(), Some("/dev/disk4"));
    assert_eq!(state.detach(), None);
}
