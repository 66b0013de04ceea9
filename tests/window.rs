use xtabbie::search::{mru_order, Climb, Query, Reply, TitleSearch, ToplevelClimb, MAX_CLIMB};
use xtabbie::window::{deduplicate, title_from_net_wm_name, title_from_wm_name};

fn strings(v: &[&str]) -> Vec<String> {
    v.iter().map(|s| s.to_string()).collect()
}

#[test]
fn dedup_keeps_first_occurrence() {
    let titles = strings(&["A", "B", "A", "C"]);
    let kept = deduplicate(&titles, &vec![true; 4]);
    assert_eq!(kept, vec![0, 1, 3]);
    let order: Vec<&str> = kept.iter().map(|&i| titles[i].as_str()).collect();
    assert_eq!(order, vec!["A", "B", "C"]);
}

#[test]
fn dedup_skips_unmanaged_windows() {
    let titles = strings(&["A", "A", "B", "A"]);
    assert_eq!(deduplicate(&titles, &vec![false, true, false, true]), vec![1]);
    assert_eq!(deduplicate(&vec![], &vec![]), Vec::<usize>::new());
}

#[test]
fn net_wm_name_titles() {
    assert_eq!(title_from_net_wm_name(b"Terminal"), Some("Terminal".to_string()));
    assert_eq!(title_from_net_wm_name("caf\u{e9}".as_bytes()), Some("caf\u{e9}".to_string()));
    assert_eq!(title_from_net_wm_name(b""), None);
    assert_eq!(title_from_net_wm_name(b"  \t "), None);
    assert_eq!(title_from_net_wm_name(&[0x66, 0xff]), None);
}

#[test]
fn wm_name_falls_back_to_latin1() {
    assert_eq!(title_from_wm_name(b"xterm"), Some("xterm".to_string()));
    assert_eq!(title_from_wm_name(&[0x63, 0x61, 0x66, 0xe9]), Some("caf\u{e9}".to_string()));
    assert_eq!(title_from_wm_name(b""), None);
    assert_eq!(title_from_wm_name(b"   "), None);
    assert_eq!(title_from_wm_name(&[0xa0, 0x20]), None);
}

/// A small window tree: (window, viewable, title, children).
fn tree() -> Vec<(u32, bool, Option<&'static str>, Option<Vec<u32>>)> {
    vec![
        (1, false, None, Some(vec![2, 3, 4])),
        (2, true, None, Some(vec![5])),
        (5, false, Some("hidden"), Some(vec![])),
        (3, true, Some("found"), Some(vec![])),
        (4, true, Some("later"), Some(vec![])),
    ]
}

fn run(
    search: &mut TitleSearch,
    nodes: &[(u32, bool, Option<&'static str>, Option<Vec<u32>>)],
    asked: &mut Vec<u32>,
) -> Option<(u32, String)> {
    let find = |w: u32| nodes.iter().find(|n| n.0 == w).cloned();
    let mut q = search.start();
    loop {
        q = match q {
            Query::Viewable(w) => {
                asked.push(w);
                search.answer(Reply::Viewable(find(w).map(|n| n.1).unwrap_or(false)))
            }
            Query::Title(w) => {
                search.answer(Reply::Title(find(w).and_then(|n| n.2).map(|t| t.to_string())))
            }
            Query::Children(w) => search.answer(Reply::Children(find(w).and_then(|n| n.3))),
            Query::Found(w, t) => return Some((w, t)),
            Query::NotFound => return None,
        };
    }
}

#[test]
fn search_finds_first_titled_viewable_descendant() {
    let mut asked = Vec::new();
    let mut s = TitleSearch::new(1);
    assert_eq!(run(&mut s, &tree(), &mut asked), Some((3, "found".to_string())));
    assert_eq!(asked, vec![1, 2, 5, 3]);
}

#[test]
fn search_top_level_itself_qualifies() {
    let nodes = vec![(7, true, Some("top"), Some(vec![8]))];
    let mut asked = Vec::new();
    let mut s = TitleSearch::new(7);
    assert_eq!(run(&mut s, &nodes, &mut asked), Some((7, "top".to_string())));
    assert_eq!(asked, vec![7]);
}

#[test]
fn search_failed_queries_mean_nothing_found() {
    let mut asked = Vec::new();
    let mut s = TitleSearch::new(99);
    assert_eq!(run(&mut s, &[], &mut asked), None);
    assert_eq!(asked, vec![99]);
}

#[test]
fn search_stops_at_depth_limit() {
    // A chain 0 -> 1 -> ... -> 12 where only window 12 has a title.
    let mut nodes = Vec::new();
    for w in 0..12u32 {
        nodes.push((w, false, None, Some(vec![w + 1])));
    }
    nodes.push((12, true, Some("deep"), Some(vec![])));
    let mut asked = Vec::new();
    let mut s = TitleSearch::new(0);
    assert_eq!(run(&mut s, &nodes, &mut asked), None);
    assert_eq!(asked, (0..=10).collect::<Vec<u32>>());

    // Within the limit the same kind of chain is found.
    let mut nodes = Vec::new();
    for w in 0..10u32 {
        nodes.push((w, false, None, Some(vec![w + 1])));
    }
    nodes.push((10, true, Some("ten"), Some(vec![])));
    let mut s = TitleSearch::new(0);
    assert_eq!(run(&mut s, &nodes, &mut Vec::new()), Some((10, "ten".to_string())));
}

#[test]
fn search_wrong_reply_ends_it() {
    let mut s = TitleSearch::new(1);
    assert!(matches!(s.start(), Query::Viewable(1)));
    assert!(matches!(s.answer(Reply::Title(None)), Query::NotFound));
    assert!(matches!(s.start(), Query::NotFound));
}

#[test]
fn climb_stops_below_root() {
    // 5 -> 4 -> 3 -> root 1
    let (mut c, step) = ToplevelClimb::new(5, 1);
    assert_eq!(step, Climb::Parent(5));
    assert_eq!(c.parent(Some(4)), Climb::Parent(4));
    assert_eq!(c.parent(Some(3)), Climb::Parent(3));
    assert_eq!(c.parent(Some(1)), Climb::Done(3));
}

#[test]
fn climb_failures_fall_back_to_window() {
    let (mut c, _) = ToplevelClimb::new(5, 1);
    assert_eq!(c.parent(Some(4)), Climb::Parent(4));
    assert_eq!(c.parent(None), Climb::Done(5));

    let (mut c, _) = ToplevelClimb::new(7, 1);
    assert_eq!(c.parent(Some(0)), Climb::Done(7));

    // A parent chain that never reaches the root: after the last lookup the
    // climb gives up at the window it started from.
    let (mut c, _) = ToplevelClimb::new(100, 1);
    let mut asked = 1;
    let mut step = c.parent(Some(101));
    while let Climb::Parent(w) = step {
        asked += 1;
        step = c.parent(Some(w + 1));
    }
    assert_eq!(step, Climb::Done(100));
    assert_eq!(asked, MAX_CLIMB);
}

#[test]
fn unicode_white_space_is_blank() {
    assert_eq!(title_from_net_wm_name("\u{3000}\u{2003}\u{a0}".as_bytes()), None);
    assert_eq!(
        title_from_net_wm_name("\u{3000}x\u{2028}".as_bytes()),
        Some("\u{3000}x\u{2028}".to_string())
    );
}

#[test]
fn mru_order_reverses_stacking() {
    assert_eq!(mru_order(&vec![1, 2, 3]), vec![3, 2, 1]);
    assert_eq!(mru_order(&vec![]), Vec::<u32>::new());
}
