use kernel_model::sketch::{
    ArcSweep, BoundaryTopology, Circle, ConstraintState, Sketch, SketchError, WalkStep,
};

/// Four points joined into a closed quadrilateral by four segments.
fn quad() -> (Sketch, [usize; 4]) {
    let mut s = Sketch::new();
    let p0 = s.add_point();
    let p1 = s.add_point();
    let p2 = s.add_point();
    let p3 = s.add_point();
    s.add_segment(p0, p1);
    s.add_segment(p1, p2);
    s.add_segment(p2, p3);
    s.add_segment(p3, p0);
    (s, [p0, p1, p2, p3])
}

fn walk(r: Result<BoundaryTopology, SketchError>) -> Vec<WalkStep> {
    match r {
        Ok(BoundaryTopology::Walk(w)) => w,
        other => panic!("expected a walk, got {:?}", other),
    }
}

fn line(from: usize, to: usize, edge: usize, forward: bool) -> WalkStep {
    WalkStep { from, to, edge, forward, arc: None }
}

#[test]
fn quadrilateral_profile_walks_its_four_segments_in_order() {
    let (s, [p0, p1, p2, p3]) = quad();
    let w = walk(s.profile());
    assert_eq!(
        w,
        vec![line(p0, p1, 0, true), line(p1, p2, 1, true), line(p2, p3, 2, true), line(p3, p0, 3, true)]
    );
}

#[test]
fn segments_entered_backwards_are_walked_backwards() {
    // The second and fourth segments are stored against the walking direction.
    let mut s = Sketch::new();
    let a = s.add_point();
    let b = s.add_point();
    let c = s.add_point();
    s.add_segment(a, b);
    s.add_segment(c, b);
    s.add_segment(a, c);
    let w = walk(s.profile());
    assert_eq!(w, vec![line(a, b, 0, true), line(b, c, 1, false), line(c, a, 2, false)]);
}

#[test]
fn two_arcs_close_a_circle_and_sweep_the_same_way() {
    // Top half CCW a→b, bottom half stored CW a→b: walked b→a it is swept CCW too.
    let mut s = Sketch::new();
    let a = s.add_point();
    let b = s.add_point();
    let c = s.add_point();
    s.add_arc(a, b, c, true);
    s.add_arc(a, b, c, false);
    let w = walk(s.profile());
    assert_eq!(
        w,
        vec![
            WalkStep { from: a, to: b, edge: 0, forward: true, arc: Some(ArcSweep { center: c, ccw: true }) },
            WalkStep { from: b, to: a, edge: 1, forward: false, arc: Some(ArcSweep { center: c, ccw: true }) },
        ]
    );
}

#[test]
fn arcs_are_numbered_after_the_segments() {
    let mut s = Sketch::new();
    let a = s.add_point();
    let b = s.add_point();
    let c = s.add_point();
    s.add_arc(b, a, c, false);
    s.add_segment(a, b);
    let w = walk(s.profile());
    assert_eq!(
        w,
        vec![
            line(a, b, 0, true),
            WalkStep { from: b, to: a, edge: 1, forward: true, arc: Some(ArcSweep { center: c, ccw: false }) },
        ]
    );
}

#[test]
fn open_chain_is_not_a_closed_profile() {
    let mut s = Sketch::new();
    let a = s.add_point();
    let b = s.add_point();
    let c = s.add_point();
    let d = s.add_point();
    s.add_segment(a, b);
    s.add_segment(b, c);
    s.add_segment(c, d);
    assert_eq!(s.profile().err(), Some(SketchError::NotClosed));
    let scan = s.all_loops();
    assert_eq!((scan.failure, scan.walks.len()), (Some(SketchError::NotClosed), 0));
}

#[test]
fn a_branch_point_is_not_a_closed_profile() {
    let (mut s, [p0, _, p2, _]) = quad();
    s.add_segment(p0, p2);
    assert_eq!(s.profile().err(), Some(SketchError::NotClosed));
}

#[test]
fn two_disjoint_loops_are_two_loops_but_no_single_profile() {
    // An outer square and an inner square: a washer.
    let (mut s, _) = quad();
    let h: Vec<usize> = (0..4).map(|_| s.add_point()).collect();
    for i in 0..4 {
        s.add_segment(h[i], h[(i + 1) % 4]);
    }
    assert_eq!(s.profile().err(), Some(SketchError::NotClosed));
    let scan = s.all_loops();
    assert_eq!(scan.failure, None);
    assert_eq!(scan.walks.len(), 2);
    let seeds: Vec<usize> = scan.walks.iter().map(|w| w[0].edge).collect();
    assert_eq!(seeds, vec![0, 4]);
    let mut crossed: Vec<usize> = scan.walks.iter().flatten().map(|st| st.edge).collect();
    crossed.sort();
    assert_eq!(crossed, (0..8).collect::<Vec<usize>>());
}

#[test]
fn a_single_loop_is_the_profile_and_the_only_loop() {
    let (s, _) = quad();
    let scan = s.all_loops();
    assert_eq!(scan.failure, None);
    assert_eq!(scan.walks.len(), 1);
    assert_eq!(scan.walks[0], walk(s.profile()));
}

#[test]
fn too_few_edges_or_points_is_degenerate() {
    let mut s = Sketch::new();
    let a = s.add_point();
    let b = s.add_point();
    s.add_segment(a, b);
    assert_eq!(s.profile().err(), Some(SketchError::Degenerate));
    let empty = Sketch::new();
    assert_eq!(empty.profile().err(), Some(SketchError::Degenerate));
    assert_eq!(empty.all_loops().failure, Some(SketchError::Degenerate));
}

#[test]
fn out_of_range_indices_are_refused() {
    let mut s = Sketch::new();
    let a = s.add_point();
    let b = s.add_point();
    s.add_arc(a, b, 7, true);
    s.add_arc(a, b, 0, false);
    assert_eq!(s.profile().err(), Some(SketchError::NotClosed));
    let mut t = Sketch::new();
    let a = t.add_point();
    t.add_point();
    t.add_segment(a, 5);
    t.add_segment(5, a);
    assert_eq!(t.profile().err(), Some(SketchError::NotClosed));
    // With fewer than two points the sketch is degenerate before any index check.
    let mut u = Sketch::new();
    let a = u.add_point();
    u.add_segment(a, 5);
    u.add_segment(5, a);
    assert_eq!(u.profile().err(), Some(SketchError::Degenerate));
}

#[test]
fn a_standalone_circle_is_a_profile_only_alone() {
    let mut s = Sketch::new();
    let c = s.add_point();
    let r = s.add_point();
    s.add_circle(c, r);
    match s.profile() {
        Ok(BoundaryTopology::Circle(k)) => assert_eq!(k, Circle { center: c, radius_point: r }),
        other => panic!("expected the circle, got {:?}", other),
    }
    s.add_segment(c, r);
    assert_eq!(s.profile().err(), Some(SketchError::NotClosed));
    let mut t = Sketch::new();
    let c = t.add_point();
    t.add_circle(c, 3);
    assert_eq!(t.profile().err(), Some(SketchError::NotClosed));
}

#[test]
fn all_loops_keeps_the_circles_before_a_bad_one() {
    let mut s = Sketch::new();
    let c = s.add_point();
    let r = s.add_point();
    s.add_circle(c, r);
    s.add_circle(c, 9);
    s.add_circle(r, c);
    let scan = s.all_loops();
    assert_eq!(scan.circles, vec![Circle { center: c, radius_point: r }]);
    assert_eq!(scan.failure, Some(SketchError::NotClosed));
}

#[test]
fn circles_alone_are_loops_without_failure() {
    let mut s = Sketch::new();
    let c = s.add_point();
    let r = s.add_point();
    s.add_circle(c, r);
    let scan = s.all_loops();
    assert_eq!((scan.circles.len(), scan.walks.len(), scan.failure), (1, 0, None));
}

#[test]
fn dof_analysis_classifies_under_well_and_over_constrained() {
    // The 4 × 2 rectangle: four points (8 DOF). Fully constrained its seven
    // constraints give eight independent Jacobian rows; dropping the height
    // distance leaves seven rows of rank seven; a duplicated width distance
    // adds a ninth, dependent row.
    let (s, _) = quad();
    let well = s.analyze(8, 8);
    let under = s.analyze(7, 7);
    let over = s.analyze(8, 9);
    assert_eq!(
        (well.state, under.state, over.state),
        (ConstraintState::WellConstrained, ConstraintState::UnderConstrained, ConstraintState::OverConstrained)
    );
    assert_eq!((well.dof, well.free_dof, well.redundant), (8, 0, 0));
    assert_eq!((under.free_dof, under.redundant), (1, 0));
    assert_eq!((over.free_dof, over.redundant), (0, 1));
}

#[test]
fn conflicting_distances_on_pinned_points_are_over_constrained() {
    // Two points (4 DOF): Fixed (2 rows) + Horizontal (1) + two Distance rows
    // on the same pair, rank 4, five rows.
    let mut s = Sketch::new();
    s.add_point();
    s.add_point();
    assert_eq!(s.analyze(4, 5).state, ConstraintState::OverConstrained);
    // Rank beyond the rows or the DOF saturates at zero.
    let a = s.analyze(9, 2);
    assert_eq!((a.free_dof, a.redundant, a.state), (0, 0, ConstraintState::WellConstrained));
}

#[test]
fn builders_return_insertion_indices() {
    let mut s = Sketch::new();
    assert_eq!((s.add_point(), s.add_point(), s.add_point()), (0, 1, 2));
    assert_eq!((s.add_segment(0, 1), s.add_segment(1, 2)), (0, 1));
    assert_eq!(s.add_arc(2, 0, 1, true), 0);
    assert_eq!(s.add_circle(0, 1), 0);
    assert_eq!(s.point_count(), 3);
    assert_eq!(s.edges().len(), 3);
}
