use hop::ewmh::{
    activate_message, blur_region, desktop_message, desktop_switch, first_cardinal,
    get_window_list, is_skip_window_type, parse_net_wm_icon, parse_wm_class, window_name, Atoms,
    ALL_DESKTOPS,
};
use hop::frames::FrameSearch;

fn atoms() -> Atoms {
    Atoms::from_replies(&(1..=11).collect()).unwrap()
}

#[test]
fn atoms_keep_the_order_of_their_names() {
    let names = Atoms::names();
    let a = atoms();
    assert_eq!(names.len(), 11);
    assert_eq!(names[0], "_NET_CLIENT_LIST_STACKING");
    assert_eq!(a.net_client_list_stacking, 1);
    assert_eq!(names[4], "_NET_WM_WINDOW_TYPE_DOCK");
    assert_eq!(a.wt_dock, 5);
    assert_eq!(names[10], "_NET_WM_ICON");
    assert_eq!(a.net_wm_icon, 11);
    assert!(Atoms::from_replies(&vec![1, 2, 3]).is_none());
}

#[test]
fn the_stacking_list_is_preferred() {
    assert_eq!(atoms().window_list_atom(), 1);
    assert_eq!(Atoms { net_client_list_stacking: 0, ..atoms() }.window_list_atom(), 2);
}

#[test]
fn the_topmost_window_comes_first() {
    assert_eq!(get_window_list(32, &vec![3, 1, 2]), [2, 1, 3]);
    assert!(get_window_list(8, &vec![3, 1, 2]).is_empty());
}

#[test]
fn panels_are_skipped() {
    let a = atoms();
    for t in [a.wt_desktop, a.wt_dock, a.wt_toolbar, a.wt_splash, a.wt_notification] {
        assert!(is_skip_window_type(&[99, t], &a));
    }
    assert!(!is_skip_window_type(&[99, a.net_wm_name], &a));
    assert!(!is_skip_window_type(&[], &a));
}

#[test]
fn names_fall_back() {
    let b = |s: &str| Some(s.as_bytes().to_vec());
    assert_eq!(window_name(&b("Größe"), &b("other")), "Größe");
    assert_eq!(window_name(&b(""), &b("other")), "other");
    assert_eq!(window_name(&None, &b("other")), "other");
    assert_eq!(window_name(&None, &None), "");
    // Bytes that are not UTF-8 are replaced.
    assert_eq!(window_name(&Some(vec![b'a', 0xff, b'b']), &None), "a\u{fffd}b");
}

#[test]
fn the_class_is_the_second_part() {
    assert_eq!(parse_wm_class(b"navigator\0Firefox\0").as_deref(), Some("Firefox"));
    assert_eq!(parse_wm_class(b"navigator\0Firefox").as_deref(), Some("Firefox"));
    assert_eq!(parse_wm_class(b"navigator\0\0").as_deref(), Some("navigator"));
    assert_eq!(parse_wm_class(b"navigator").as_deref(), Some("navigator"));
    assert_eq!(parse_wm_class(b"\0Firefox\0").as_deref(), Some("Firefox"));
    assert_eq!(parse_wm_class(b"a\0b\xff\0").as_deref(), Some("b\u{fffd}"));
    assert!(parse_wm_class(b"").is_none());
    assert!(parse_wm_class(b"\0\0").is_none());
}

fn block(w: u32, h: u32) -> Vec<u32> {
    let mut b = vec![w, h];
    b.extend((0..w * h).map(|i| w * 1000 + i));
    b
}

#[test]
fn the_closest_icon_is_used() {
    let data = [block(1, 2), block(4, 1), block(2, 2), block(4, 2)].concat();
    let (w, h, px) = parse_net_wm_icon(&data, 2).unwrap();
    assert_eq!((w, h), (2, 2));
    assert_eq!(px, [2000, 2001, 2002, 2003]);
    // The first of two icons of the same width.
    assert_eq!(parse_net_wm_icon(&data, 9).unwrap().1, 1);
    // Of two that are as far off, the wider one.
    assert_eq!(parse_net_wm_icon(&[block(1, 1), block(3, 1)].concat(), 2).unwrap().0, 3);
}

#[test]
fn broken_icon_data_ends_the_list() {
    let mut data = block(2, 1);
    data.extend([100_000, 100_000, 1, 2]);
    assert_eq!(parse_net_wm_icon(&data, 64).unwrap().0, 2);
    assert!(parse_net_wm_icon(&[u32::MAX, u32::MAX, 1], 64).is_none());
    assert!(parse_net_wm_icon(&[5], 64).is_none());
    assert!(parse_net_wm_icon(&[], 64).is_none());
    assert_eq!(parse_net_wm_icon(&[0, 7], 64), Some((0, 7, vec![])));
}

#[test]
fn desktops_are_switched_when_needed() {
    assert_eq!(desktop_switch(Some(2), Some(1)), Some(2));
    assert_eq!(desktop_switch(Some(2), Some(2)), None);
    assert_eq!(desktop_switch(Some(ALL_DESKTOPS), Some(1)), None);
    assert_eq!(desktop_switch(Some(2), None), None);
    assert_eq!(desktop_switch(None, Some(1)), None);
    assert_eq!(first_cardinal(32, &vec![7, 8]), Some(7));
    assert_eq!(first_cardinal(8, &vec![7, 8]), None);
    assert_eq!(first_cardinal(32, &vec![]), None);
    assert_eq!(activate_message(0), [2, 0, 0, 0, 0]);
    assert_eq!(desktop_message(3, 9), [3, 9, 0, 0, 0]);
}

#[test]
fn blur_regions_are_flat() {
    assert_eq!(blur_region(&vec![(1, -2, 3, 4), (5, 6, 7, 8)]), [1, 0xffff_fffe, 3, 4, 5, 6, 7, 8]);
    assert!(blur_region(&vec![]).is_empty());
}

/// Walks a tree that is given as parents by window number.
fn search(clients: Vec<u32>, parents: &[u32]) -> (Vec<u32>, u32) {
    let root = 1;
    let mut s = FrameSearch::new(&clients, root);
    loop {
        let replies: Vec<Option<u32>> = s
            .queries()
            .into_iter()
            .map(|q| q.and_then(|w| parents.get(w as usize).copied()))
            .collect();
        if !s.advance(&replies) {
            break;
        }
    }
    (s.frames(), s.rounds)
}

#[test]
fn frames_are_children_of_the_root() {
    // 2 is a frame; 3 and 4 nest in it; 5 is its own parent; 9 is unknown; 6 has no parent.
    let parents = [0, 0, 1, 2, 3, 5, 0];
    assert_eq!(search(vec![2, 3, 4, 5, 6, 9], &parents), (vec![2, 2, 2, 5, 6, 9], 3));
    assert_eq!(search(vec![], &parents).0, Vec::<u32>::new());
}

#[test]
fn the_walk_gives_up_on_cycles() {
    // 2 and 3 are each other's parent.
    let (frames, rounds) = search(vec![2], &[0, 0, 3, 2]);
    assert_eq!(frames, [2]);
    assert_eq!(rounds, 32);
}
