use pane_group::layout::{layout_children, layout_handle};
use pane_group::render::PaneFrame;
use pane_group::resize::compute_resize;
use pane_group::{Axis, Bounds, Member, PaneAxis, PaneGroup, PaneId, Point, Size, SplitDirection};

fn rect(x: i64, y: i64, w: i64, h: i64) -> Bounds {
    Bounds { origin: Point { x, y }, size: Size { width: w, height: h } }
}

fn pt(x: i64, y: i64) -> Point {
    Point { x, y }
}

fn two_panes() -> PaneAxis {
    PaneAxis::new(Axis::Horizontal, vec![Member::Pane(PaneId(0)), Member::Pane(PaneId(1))])
}

#[test]
fn equal_halves_of_800_by_600() {
    let mut a = two_panes();
    let layout = a.prepaint(rect(0, 0, 800, 600), None);
    assert_eq!(layout.children[0].bounds, rect(0, 0, 400, 600));
    assert_eq!(layout.children[1].bounds, rect(400, 0, 400, 600));
    assert_eq!(a.bounding_boxes, vec![Some(rect(0, 0, 400, 600)), Some(rect(400, 0, 400, 600))]);
    assert!(layout.children[0].handle.is_some());
    assert!(layout.children[1].handle.is_none());
}

#[test]
fn drag_grows_first_child_by_100() {
    let mut a = two_panes();
    let mut layout = a.prepaint(rect(0, 0, 800, 600), None);
    assert!(a.handle_mouse_down(&mut layout, pt(400, 300), 1));
    assert_eq!(layout.dragged_handle, Some(0));
    assert!(a.handle_mouse_move(&layout, pt(500, 300)));
    assert_eq!(a.flexes, vec![1250, 750]);
    let layout = a.prepaint(rect(0, 0, 800, 600), None);
    assert_eq!(layout.children[0].bounds, rect(0, 0, 500, 600));
    assert_eq!(layout.children[1].bounds, rect(500, 0, 300, 600));
}

#[test]
fn huge_drag_stops_at_minimum_width() {
    let mut flexes = vec![1000, 1000];
    compute_resize(&mut flexes, pt(1_000_000, 0), 0, Axis::Horizontal, pt(0, 0), Size { width: 800, height: 600 });
    assert_eq!(flexes, vec![1800, 200]);
    let rects = layout_children(Axis::Horizontal, &flexes, rect(0, 0, 800, 600));
    assert_eq!(rects[0].size.width, 720);
    assert_eq!(rects[1].size.width, 80);
}

#[test]
fn huge_backward_drag_stops_at_minimum_width() {
    let mut flexes = vec![1000, 1000];
    compute_resize(&mut flexes, pt(-1_000_000, 0), 0, Axis::Horizontal, pt(0, 0), Size { width: 800, height: 600 });
    assert_eq!(flexes, vec![200, 1800]);
    assert_eq!(flexes.iter().sum::<u64>(), 2000);
}

#[test]
fn vertical_minimum_is_100() {
    let mut flexes = vec![1000, 1000];
    compute_resize(&mut flexes, pt(0, 5000), 0, Axis::Vertical, pt(0, 0), Size { width: 800, height: 1000 });
    assert_eq!(flexes, vec![1800, 200]);
    let rects = layout_children(Axis::Vertical, &flexes, rect(0, 0, 800, 1000));
    assert_eq!(rects[1].size.height, 100);
}

#[test]
fn drag_ripples_into_following_siblings() {
    let mut flexes = vec![1000, 1000, 1000];
    compute_resize(&mut flexes, pt(800, 0), 0, Axis::Horizontal, pt(0, 0), Size { width: 900, height: 600 });
    assert_eq!(flexes, vec![1733, 1000, 267]);
    assert_eq!(flexes.iter().sum::<u64>(), 3000);
}

#[test]
fn drag_refused_when_child_already_too_small() {
    let mut flexes = vec![150, 1850];
    compute_resize(&mut flexes, pt(400, 0), 0, Axis::Horizontal, pt(0, 0), Size { width: 800, height: 600 });
    assert_eq!(flexes, vec![150, 1850]);
}

#[test]
fn drag_in_empty_container_changes_nothing() {
    let mut flexes = vec![1000, 1000];
    compute_resize(&mut flexes, pt(400, 0), 0, Axis::Horizontal, pt(0, 0), Size { width: 0, height: 0 });
    assert_eq!(flexes, vec![1000, 1000]);
}

#[test]
fn double_click_resets_weights() {
    let mut a = two_panes();
    a.flexes = vec![1400, 600];
    let mut layout = a.prepaint(rect(0, 0, 800, 600), None);
    assert!(a.handle_mouse_down(&mut layout, pt(561, 10), 2));
    assert_eq!(a.flexes, vec![1000, 1000]);
}

#[test]
fn press_away_from_handles_grabs_nothing() {
    let mut a = two_panes();
    let mut layout = a.prepaint(rect(0, 0, 800, 600), None);
    assert!(!a.handle_mouse_down(&mut layout, pt(100, 10), 2));
    assert_eq!(layout.dragged_handle, None);
    assert!(!a.handle_mouse_move(&layout, pt(500, 10)));
    assert_eq!(a.flexes, vec![1000, 1000]);
    assert_eq!(layout.handle_at(&pt(398, 0)), Some(0));
    assert_eq!(layout.handle_at(&pt(402, 0)), None);
    let mut layout = layout;
    layout.dragged_handle = Some(0);
    layout.handle_mouse_up();
    assert_eq!(layout.dragged_handle, None);
}

#[test]
fn uniform_layout_tiles_exactly() {
    for n in [1usize, 2, 3, 5] {
        let flexes = vec![1000u64; n];
        let width = 600i64;
        let rects = layout_children(Axis::Horizontal, &flexes, rect(10, 20, width, 300));
        let mut x = 10;
        for r in &rects {
            assert_eq!(r.origin.x, x);
            assert_eq!(r.size.width, width / n as i64);
            assert_eq!(r.origin.y, 20);
            assert_eq!(r.size.height, 300);
            x += r.size.width;
        }
        assert_eq!(x, 10 + width);
    }
}

#[test]
fn uneven_share_rounds_each_child() {
    let rects = layout_children(Axis::Horizontal, &vec![1000, 1000, 1000], rect(0, 0, 800, 100));
    assert_eq!(rects[0], rect(0, 0, 267, 100));
    assert_eq!(rects[1], rect(267, 0, 267, 100));
    assert_eq!(rects[2], rect(534, 0, 267, 100));
}

#[test]
fn vertical_layout_stacks_downwards() {
    let rects = layout_children(Axis::Vertical, &vec![500, 1500], rect(0, 0, 800, 600));
    assert_eq!(rects[0], rect(0, 0, 800, 150));
    assert_eq!(rects[1], rect(0, 150, 800, 450));
}

#[test]
fn handle_straddles_trailing_edge() {
    let h = layout_handle(Axis::Horizontal, rect(0, 0, 400, 600));
    assert_eq!(h.hitbox, rect(398, 0, 4, 600));
    assert_eq!(h.divider_bounds, rect(400, 0, 1, 600));
    let v = layout_handle(Axis::Vertical, rect(0, 0, 800, 300));
    assert_eq!(v.hitbox, rect(0, 298, 800, 4));
    assert_eq!(v.divider_bounds, rect(0, 300, 800, 1));
}

fn laid_out_group() -> PaneGroup {
    let mut g = PaneGroup::new(PaneId(0));
    g.split(&PaneId(0), &PaneId(1), SplitDirection::Right).unwrap();
    g.split(&PaneId(1), &PaneId(2), SplitDirection::Down).unwrap();
    assert!(g.root.check_fits(rect(0, 0, 800, 600)));
    g.layout(rect(0, 0, 800, 600));
    g
}

#[test]
fn per_level_prepaint_matches_whole_tree_layout() {
    let mut g = PaneGroup::new(PaneId(0));
    g.split(&PaneId(0), &PaneId(1), SplitDirection::Right).unwrap();
    g.split(&PaneId(1), &PaneId(2), SplitDirection::Down).unwrap();
    if let Member::Axis(root) = &mut g.root {
        let layout = root.prepaint(rect(0, 0, 800, 600), None);
        let inner_bounds = layout.children[1].bounds;
        if let Member::Axis(inner) = &mut root.members[1] {
            inner.prepaint(inner_bounds, None);
        }
    }
    let whole = laid_out_group();
    for p in 0..3 {
        assert_eq!(g.bounding_box_for_pane(&PaneId(p)), whole.bounding_box_for_pane(&PaneId(p)));
    }
}

#[test]
fn layout_that_overflows_coordinates_is_detected() {
    let mut g = PaneGroup::new(PaneId(0));
    g.split(&PaneId(0), &PaneId(1), SplitDirection::Right).unwrap();
    assert!(!g.root.check_fits(rect(i64::MAX - 10, 0, 10, 10)));
    assert!(!g.root.check_fits(rect(0, 0, -1, 10)));
    assert!(g.root.check_fits(rect(-100, -100, 10, 10)));
    assert!(PaneGroup::new(PaneId(0)).root.check_fits(rect(i64::MAX, 0, 0, 0)));
}

#[test]
fn bounding_boxes_and_hit_testing() {
    let g = laid_out_group();
    assert_eq!(g.bounding_box_for_pane(&PaneId(0)), Some(rect(0, 0, 400, 600)));
    assert_eq!(g.bounding_box_for_pane(&PaneId(2)), Some(rect(400, 300, 400, 300)));
    assert_eq!(g.bounding_box_for_pane(&PaneId(7)), None);
    assert_eq!(g.pane_at_pixel_position(&pt(10, 10)), Some(PaneId(0)));
    assert_eq!(g.pane_at_pixel_position(&pt(500, 100)), Some(PaneId(1)));
    assert_eq!(g.pane_at_pixel_position(&pt(500, 400)), Some(PaneId(2)));
    assert_eq!(g.pane_at_pixel_position(&pt(900, 400)), None);
}

#[test]
fn bare_pane_has_no_box_but_holds_every_point() {
    let g = PaneGroup::new(PaneId(4));
    assert_eq!(g.bounding_box_for_pane(&PaneId(4)), None);
    assert_eq!(g.pane_at_pixel_position(&pt(-5, 99999)), Some(PaneId(4)));
}

#[test]
fn stale_boxes_after_split_hide_panes() {
    let mut g = laid_out_group();
    g.split(&PaneId(0), &PaneId(3), SplitDirection::Right).unwrap();
    assert_eq!(g.bounding_box_for_pane(&PaneId(0)), None);
    assert_eq!(g.pane_at_pixel_position(&pt(10, 10)), None);
}

#[test]
fn directional_lookup() {
    let g = laid_out_group();
    assert_eq!(g.find_pane_in_direction(&PaneId(0), None, SplitDirection::Right), Some(PaneId(2)));
    assert_eq!(g.find_pane_in_direction(&PaneId(0), Some(pt(100, 100)), SplitDirection::Right), Some(PaneId(1)));
    assert_eq!(g.find_pane_in_direction(&PaneId(0), Some(pt(900, 100)), SplitDirection::Right), Some(PaneId(2)));
    assert_eq!(g.find_pane_in_direction(&PaneId(2), None, SplitDirection::Up), Some(PaneId(1)));
    assert_eq!(g.find_pane_in_direction(&PaneId(2), None, SplitDirection::Left), Some(PaneId(0)));
    assert_eq!(g.find_pane_in_direction(&PaneId(0), None, SplitDirection::Left), None);
    assert_eq!(g.find_pane_in_direction(&PaneId(1), None, SplitDirection::Down), Some(PaneId(2)));
}

#[test]
fn swap_in_direction() {
    let mut g = laid_out_group();
    g.swap_pane_in_direction(&PaneId(2), None, SplitDirection::Left);
    assert_eq!(g.panes(), vec![PaneId(2), PaneId(1), PaneId(0)]);
    g.swap_pane_in_direction(&PaneId(1), None, SplitDirection::Up);
    assert_eq!(g.panes(), vec![PaneId(2), PaneId(1), PaneId(0)]);
}

#[test]
fn edges_and_strips() {
    let r = rect(10, 20, 100, 50);
    assert_eq!(SplitDirection::Up.edge(r), 20);
    assert_eq!(SplitDirection::Down.edge(r), 70);
    assert_eq!(SplitDirection::Left.edge(r), 10);
    assert_eq!(SplitDirection::Right.edge(r), 110);
    assert_eq!(SplitDirection::Up.along_edge(r, 5), rect(10, 20, 100, 5));
    assert_eq!(SplitDirection::Down.along_edge(r, 5), rect(10, 65, 100, 5));
    assert_eq!(SplitDirection::Left.along_edge(r, 5), rect(10, 20, 5, 50));
    assert_eq!(SplitDirection::Right.along_edge(r, 5), rect(105, 70, 5, 50));
    assert!(r.contains(&pt(10, 20)));
    assert!(!r.contains(&pt(110, 20)));
    assert_eq!(r.center(), pt(60, 45));
}

#[test]
fn render_lists_each_pane_with_its_rectangle() {
    let g = laid_out_group();
    let frames = g.render(Some(PaneId(1)));
    assert_eq!(
        frames,
        vec![
            PaneFrame { pane: PaneId(0), bounds: Some(rect(0, 0, 400, 600)), placeholder: false },
            PaneFrame { pane: PaneId(1), bounds: Some(rect(400, 0, 400, 300)), placeholder: true },
            PaneFrame { pane: PaneId(2), bounds: Some(rect(400, 300, 400, 300)), placeholder: false },
        ]
    );
    let bare = PaneGroup::new(PaneId(5));
    assert_eq!(bare.render(None), vec![PaneFrame { pane: PaneId(5), bounds: None, placeholder: false }]);
}

#[test]
fn drag_refused_when_child_exactly_at_minimum() {
    let mut flexes = vec![200, 1800];
    let applied =
        compute_resize(&mut flexes, pt(700, 0), 0, Axis::Horizontal, pt(0, 0), Size { width: 800, height: 600 });
    assert!(!applied);
    assert_eq!(flexes, vec![200, 1800]);
}

#[test]
fn drag_applied_just_above_minimum() {
    let mut flexes = vec![201, 1799];
    let applied =
        compute_resize(&mut flexes, pt(400, 0), 0, Axis::Horizontal, pt(0, 0), Size { width: 800, height: 600 });
    assert!(applied);
    assert_eq!(flexes, vec![1000, 1000]);
}

#[test]
fn refused_move_reports_no_step() {
    let mut a = two_panes();
    a.flexes = vec![200, 1800];
    let mut layout = a.prepaint(rect(0, 0, 800, 600), None);
    assert!(a.handle_mouse_down(&mut layout, pt(80, 10), 1));
    assert_eq!(layout.dragged_handle, Some(0));
    assert!(!a.handle_mouse_move(&layout, pt(600, 10)));
    assert_eq!(a.flexes, vec![200, 1800]);
}

#[test]
fn along_edge_takes_any_length() {
    let r = rect(10, 20, 100, 50);
    assert_eq!(SplitDirection::Up.along_edge(r, -5), rect(10, 20, 100, -5));
    assert_eq!(SplitDirection::Right.along_edge(r, 0), rect(110, 70, 0, 50));
}
