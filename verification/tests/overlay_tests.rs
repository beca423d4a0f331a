use fluid_sim::overlay::DebugOverlay;

#[test]
fn label_of_nothing_and_everything() {
    assert_eq!(DebugOverlay::empty().label(), "None");
    assert_eq!(DebugOverlay::all().label(), "All");
}

#[test]
fn label_joins_selected_names_in_order() {
    let mut o = DebugOverlay::smoothing_radius();
    o.toggle(DebugOverlay::cell_query());
    assert_eq!(o.label(), "CellQuery, SmoothingRadius");
    assert_eq!(DebugOverlay::cell_grid().label(), "CellGrid");
    assert_eq!(DebugOverlay::from_bits_truncate(0b1110).label(), "CellGrid, SmoothingRadius, VelocityArrows");
}

#[test]
fn toggle_twice_restores() {
    let mut o = DebugOverlay::from_bits_truncate(0b0101);
    o.toggle(DebugOverlay::cell_grid());
    assert_eq!(o.bits(), 0b0111);
    o.toggle(DebugOverlay::cell_grid());
    assert_eq!(o.bits(), 0b0101);
}

#[test]
fn flags_queries() {
    let o = DebugOverlay::from_bits_truncate(0xff);
    assert!(o.is_all());
    assert_eq!(o.bits(), 15);
    assert!(DebugOverlay::empty().is_empty());
    assert!(o.intersects(DebugOverlay::velocity_arrows()));
    assert!(!DebugOverlay::cell_query().intersects(DebugOverlay::cell_grid()));
}
