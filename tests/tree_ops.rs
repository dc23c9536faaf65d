use pane_group::{Axis, Member, PaneAxis, PaneGroup, PaneId, PaneNotFound, SplitDirection, FLEX_UNIT};

const P0: PaneId = PaneId(0);
const P1: PaneId = PaneId(1);
const P2: PaneId = PaneId(2);
const P3: PaneId = PaneId(3);

fn root_axis(g: &PaneGroup) -> &PaneAxis {
    match &g.root {
        Member::Axis(a) => a,
        Member::Pane(_) => panic!("root is a bare pane"),
    }
}

fn leaf(m: &Member) -> PaneId {
    match m {
        Member::Pane(p) => *p,
        Member::Axis(_) => panic!("not a leaf"),
    }
}

#[test]
fn split_remove_scenario() {
    let mut g = PaneGroup::new(P0);
    assert_eq!(g.split(&P0, &P1, SplitDirection::Right), Ok(()));
    {
        let a = root_axis(&g);
        assert_eq!(a.axis, Axis::Horizontal);
        assert_eq!(a.members.len(), 2);
        assert_eq!(leaf(&a.members[0]), P0);
        assert_eq!(leaf(&a.members[1]), P1);
        assert_eq!(a.flexes, vec![FLEX_UNIT, FLEX_UNIT]);
    }
    assert_eq!(g.split(&P1, &P2, SplitDirection::Down), Ok(()));
    {
        let a = root_axis(&g);
        assert_eq!(a.members.len(), 2);
        assert_eq!(leaf(&a.members[0]), P0);
        match &a.members[1] {
            Member::Axis(inner) => {
                assert_eq!(inner.axis, Axis::Vertical);
                assert_eq!(leaf(&inner.members[0]), P1);
                assert_eq!(leaf(&inner.members[1]), P2);
            }
            Member::Pane(_) => panic!("expected a nested axis"),
        }
    }
    assert_eq!(g.remove(&P1), Ok(true));
    {
        let a = root_axis(&g);
        assert_eq!(a.axis, Axis::Horizontal);
        assert_eq!(leaf(&a.members[0]), P0);
        assert_eq!(leaf(&a.members[1]), P2);
        assert_eq!(a.flexes, vec![1000, 1000]);
    }
    assert_eq!(g.panes(), vec![P0, P2]);
}

#[test]
fn split_along_axis_inserts_before_or_after() {
    let mut g = PaneGroup::new(P0);
    g.split(&P0, &P1, SplitDirection::Right).unwrap();
    g.split(&P1, &P2, SplitDirection::Left).unwrap();
    assert_eq!(g.panes(), vec![P0, P2, P1]);
    assert_eq!(root_axis(&g).flexes, vec![1000, 1000, 1000]);
    g.split(&P0, &P3, SplitDirection::Right).unwrap();
    assert_eq!(g.panes(), vec![P0, P3, P2, P1]);
    assert_eq!(root_axis(&g).members.len(), 4);
    assert_eq!(root_axis(&g).bounding_boxes, vec![None, None, None, None]);
}

#[test]
fn split_up_puts_new_pane_first() {
    let mut g = PaneGroup::new(P0);
    g.split(&P0, &P1, SplitDirection::Up).unwrap();
    let a = root_axis(&g);
    assert_eq!(a.axis, Axis::Vertical);
    assert_eq!(g.panes(), vec![P1, P0]);
}

#[test]
fn split_of_absent_pane_fails() {
    let mut g = PaneGroup::new(P0);
    assert_eq!(g.split(&P1, &P2, SplitDirection::Right), Err(PaneNotFound));
    g.split(&P0, &P1, SplitDirection::Right).unwrap();
    assert_eq!(g.split(&P3, &P2, SplitDirection::Down), Err(PaneNotFound));
    assert_eq!(g.panes(), vec![P0, P1]);
}

#[test]
fn remove_from_single_pane_is_refused() {
    let mut g = PaneGroup::new(P0);
    assert_eq!(g.remove(&P0), Ok(false));
    assert_eq!(g.remove(&P1), Ok(false));
    assert_eq!(g.panes(), vec![P0]);
}

#[test]
fn remove_of_absent_pane_fails() {
    let mut g = PaneGroup::new(P0);
    g.split(&P0, &P1, SplitDirection::Right).unwrap();
    assert_eq!(g.remove(&P2), Err(PaneNotFound));
    assert_eq!(g.panes(), vec![P0, P1]);
}

#[test]
fn remove_last_sibling_collapses_to_bare_pane() {
    let mut g = PaneGroup::new(P0);
    g.split(&P0, &P1, SplitDirection::Right).unwrap();
    assert_eq!(g.remove(&P0), Ok(true));
    assert_eq!(leaf(&g.root), P1);
}

#[test]
fn remove_collapse_lifts_nested_axis() {
    let mut g = PaneGroup::new(P0);
    g.split(&P0, &P1, SplitDirection::Right).unwrap();
    g.split(&P1, &P2, SplitDirection::Down).unwrap();
    assert_eq!(g.remove(&P0), Ok(true));
    let a = root_axis(&g);
    assert_eq!(a.axis, Axis::Vertical);
    assert_eq!(g.panes(), vec![P1, P2]);
}

#[test]
fn every_axis_keeps_two_members_and_unit_average() {
    let mut g = PaneGroup::new(P0);
    g.split(&P0, &P1, SplitDirection::Right).unwrap();
    g.split(&P1, &P2, SplitDirection::Down).unwrap();
    g.split(&P2, &P3, SplitDirection::Down).unwrap();
    g.remove(&P1).unwrap();
    g.remove(&P2).unwrap();
    fn check(m: &Member) {
        if let Member::Axis(a) = m {
            assert!(a.members.len() >= 2);
            let sum: u64 = a.flexes.iter().sum();
            assert_eq!(sum, a.members.len() as u64 * FLEX_UNIT);
            for c in &a.members {
                check(c);
            }
        }
    }
    check(&g.root);
    assert_eq!(g.panes(), vec![P0, P3]);
}

#[test]
fn split_then_remove_restores_shape() {
    let mut g = PaneGroup::new(P0);
    g.split(&P0, &P1, SplitDirection::Right).unwrap();
    g.split(&P1, &P2, SplitDirection::Down).unwrap();
    g.split(&P2, &P3, SplitDirection::Left).unwrap();
    assert_eq!(g.panes(), vec![P0, P1, P3, P2]);
    g.remove(&P3).unwrap();
    assert_eq!(g.panes(), vec![P0, P1, P2]);
    let a = root_axis(&g);
    assert_eq!(a.axis, Axis::Horizontal);
    match &a.members[1] {
        Member::Axis(inner) => {
            assert_eq!(inner.axis, Axis::Vertical);
            assert_eq!(inner.members.len(), 2);
        }
        Member::Pane(_) => panic!("expected a nested axis"),
    }
}

#[test]
fn swap_twice_restores() {
    let mut g = PaneGroup::new(P0);
    g.split(&P0, &P1, SplitDirection::Right).unwrap();
    g.split(&P1, &P2, SplitDirection::Down).unwrap();
    g.swap(&P0, &P2);
    assert_eq!(g.panes(), vec![P2, P1, P0]);
    g.swap(&P0, &P2);
    assert_eq!(g.panes(), vec![P0, P1, P2]);
}

#[test]
fn swap_on_bare_pane_or_absent_pane_does_nothing() {
    let mut g = PaneGroup::new(P0);
    g.swap(&P0, &P1);
    assert_eq!(g.panes(), vec![P0]);
    g.split(&P0, &P1, SplitDirection::Right).unwrap();
    g.swap(&P2, &P3);
    assert_eq!(g.panes(), vec![P0, P1]);
    g.swap(&P0, &P3);
    assert_eq!(g.panes(), vec![P0, P1]);
    g.swap(&P3, &P1);
    assert_eq!(g.panes(), vec![P0, P1]);
    g.swap(&P1, &P0);
    assert_eq!(g.panes(), vec![P1, P0]);
}

#[test]
fn first_pane_descends_into_first_member() {
    let mut g = PaneGroup::new(P0);
    assert_eq!(g.first_pane(), P0);
    g.split(&P0, &P1, SplitDirection::Left).unwrap();
    g.split(&P1, &P2, SplitDirection::Up).unwrap();
    assert_eq!(g.first_pane(), P2);
}

#[test]
fn pane_cycling_wraps_around() {
    let mut g = PaneGroup::new(P0);
    g.split(&P0, &P1, SplitDirection::Right).unwrap();
    g.split(&P1, &P2, SplitDirection::Right).unwrap();
    assert_eq!(g.next_pane(&P0), Some(P1));
    assert_eq!(g.next_pane(&P2), Some(P0));
    assert_eq!(g.previous_pane(&P0), Some(P2));
    assert_eq!(g.previous_pane(&P1), Some(P0));
    assert_eq!(g.next_pane(&P3), None);
    assert_eq!(g.pane_at_index(1), Some(P1));
    assert_eq!(g.pane_at_index(3), None);
}

#[test]
fn axis_constructors() {
    let a = PaneAxis::new(Axis::Vertical, vec![Member::Pane(P0), Member::Pane(P1), Member::Pane(P2)]);
    assert_eq!(a.flexes, vec![1000, 1000, 1000]);
    assert_eq!(a.bounding_boxes, vec![None, None, None]);
    let b = PaneAxis::load(Axis::Horizontal, vec![Member::Pane(P0), Member::Pane(P1)], Some(vec![1500, 500]));
    assert_eq!(b.flexes, vec![1500, 500]);
    let c = PaneAxis::load(Axis::Horizontal, vec![Member::Pane(P0), Member::Pane(P1)], None);
    assert_eq!(c.flexes, vec![1000, 1000]);
    let m = Member::new_axis(P0, P1, SplitDirection::Left);
    assert!(m.contains(&P1));
    assert!(!m.contains(&P2));
    let mut v = Vec::new();
    m.collect_panes(&mut v);
    assert_eq!(v, vec![P1, P0]);
}

#[test]
fn split_direction_basics() {
    assert_eq!(
        SplitDirection::all(),
        [SplitDirection::Up, SplitDirection::Down, SplitDirection::Left, SplitDirection::Right]
    );
    assert_eq!(SplitDirection::Up.axis(), Axis::Vertical);
    assert_eq!(SplitDirection::Right.axis(), Axis::Horizontal);
    assert!(!SplitDirection::Up.increasing());
    assert!(!SplitDirection::Left.increasing());
    assert!(SplitDirection::Down.increasing());
    assert!(SplitDirection::Right.increasing());
    assert_eq!(SplitDirection::Left.as_str(), "left");
    assert_eq!(SplitDirection::Down.as_str(), "down");
}
