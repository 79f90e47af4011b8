use webwallpaper::display::{
    ensure_primary, find_display_by_index, find_primary_display, index_list,
    select_target_displays, Display, TargetError,
};

#[test]
fn test_display_creation() {
    let display = Display::new(0, 0, 0, 1920, 1080, 0, 0, 1920, 1040, true);
    assert_eq!(display.index, 0);
    assert_eq!(display.width, 1920);
    assert_eq!(display.height, 1080);
    assert!(display.is_primary);
}

#[test]
fn test_display_formatting() {
    let display = Display::new(0, 0, 0, 1920, 1080, 0, 0, 1920, 1040, true);
    let formatted = display.to_string();
    assert!(formatted.contains("Display 0"));
    assert!(formatted.contains("1920x1080"));
    assert!(formatted.contains("[Primary]"));
}

#[test]
fn test_find_display() {
    let displays = vec![
        Display::new(0, 0, 0, 1920, 1080, 0, 0, 1920, 1040, true),
        Display::new(1, 1920, 0, 1920, 1080, 1920, 0, 1920, 1080, false),
    ];

    let found = find_display_by_index(&displays, 1);
    assert!(found.is_some());
    assert_eq!(found.unwrap().index, 1);

    let not_found = find_display_by_index(&displays, 99);
    assert!(not_found.is_none());
}

fn two_displays() -> Vec<Display> {
    vec![
        Display::new(0, 0, 0, 1920, 1080, 0, 0, 1920, 1040, false),
        Display::new(1, -1280, -24, 1280, 1024, -1280, 0, 1280, 1000, true),
    ]
}

#[test]
fn display_text_exact() {
    let ds = two_displays();
    assert_eq!(ds[0].to_string(), "Display 0: 1920x1080 at (0, 0)");
    assert_eq!(ds[1].to_string(), "Display 1: 1280x1024 at (-1280, -24) [Primary]");
    let extreme = Display::new(7, i32::MIN, i32::MAX, 1, 2, 0, 0, 0, 0, false);
    assert_eq!(extreme.to_string(), "Display 7: 1x2 at (-2147483648, 2147483647)");
}

#[test]
fn rects() {
    let d = &two_displays()[1];
    assert_eq!(d.full_rect(), (-1280, -24, 1280, 1024));
    assert_eq!(d.work_rect(), (-1280, 0, 1280, 1000));
}

#[test]
fn primary_lookup() {
    let ds = two_displays();
    assert_eq!(find_primary_display(&ds).unwrap().index, 1);
    assert!(find_primary_display(&ds[..1]).is_none());
    assert!(find_primary_display(&[]).is_none());
}

#[test]
fn primary_is_ensured() {
    let mut ds = vec![
        Display::new(0, 0, 0, 10, 10, 0, 0, 10, 10, false),
        Display::new(1, 10, 0, 10, 10, 10, 0, 10, 10, false),
    ];
    ensure_primary(&mut ds);
    assert!(ds[0].is_primary);
    assert!(!ds[1].is_primary);
    let mut kept = two_displays();
    ensure_primary(&mut kept);
    assert!(!kept[0].is_primary);
    assert!(kept[1].is_primary);
    let mut none: Vec<Display> = Vec::new();
    ensure_primary(&mut none);
    assert!(none.is_empty());
}

#[test]
fn targets_are_selected() {
    let ds = two_displays();
    let one = select_target_displays(&ds, Some(1)).unwrap();
    assert_eq!(one.len(), 1);
    assert_eq!(one[0].index, 1);
    let all = select_target_displays(&ds, None).unwrap();
    assert_eq!(all.len(), 2);
    match select_target_displays(&ds, Some(99)) {
        Err(e) => {
            assert_eq!(
                e,
                TargetError::DisplayNotFound { requested: 99, available: vec![0, 1] }
            );
            assert_eq!(e.message(), "Display 99 does not exist (available: 0, 1)");
        }
        Ok(_) => panic!("display 99 does not exist"),
    }
    let empty: Vec<Display> = Vec::new();
    match select_target_displays(&empty, None) {
        Err(e) => {
            assert_eq!(e, TargetError::NoDisplays);
            assert_eq!(e.message(), "No displays found");
        }
        Ok(_) => panic!("no displays"),
    }
    assert_eq!(index_list(&[]), "");
    assert_eq!(index_list(&[3]), "3");
    assert_eq!(index_list(&[0, 10, 2]), "0, 10, 2");
}
