use sugo::positions::{CellPosition, MemoryPositionRepository};

fn pos(cell_id: &str, x: f64, y: f64) -> CellPosition<(f64, f64)> {
    CellPosition { cell_id: cell_id.into(), at: (x, y) }
}

fn plain(ps: Vec<CellPosition<(f64, f64)>>) -> Vec<(String, f64, f64)> {
    ps.into_iter().map(|p| (p.cell_id, p.at.0, p.at.1)).collect()
}

fn sorted(ps: Vec<CellPosition<(f64, f64)>>) -> Vec<(String, f64, f64)> {
    let mut v = plain(ps);
    v.sort_by(|a, b| a.0.cmp(&b.0));
    v
}

fn expect(items: &[(&str, f64, f64)]) -> Vec<(String, f64, f64)> {
    items.iter().map(|(c, x, y)| (c.to_string(), *x, *y)).collect()
}

#[test]
fn list_returns_empty_for_unknown_harness() {
    let r: MemoryPositionRepository<(f64, f64)> = MemoryPositionRepository::new();
    assert!(r.list("nope").is_empty());
}

#[test]
fn replace_all_then_list_round_trips() {
    let mut r = MemoryPositionRepository::new();
    r.replace_all("h1", &[pos("c1", 10.0, 20.0), pos("c2", 30.5, 40.5)]).expect("replace ok");
    assert_eq!(sorted(r.list("h1")), expect(&[("c1", 10.0, 20.0), ("c2", 30.5, 40.5)]));
}

#[test]
fn replace_all_drops_positions_of_removed_cells() {
    let mut r = MemoryPositionRepository::new();
    r.replace_all("h1", &[pos("c1", 1.0, 1.0), pos("c2", 2.0, 2.0)]).expect("replace ok");
    r.replace_all("h1", &[pos("c1", 9.0, 9.0)]).expect("replace ok");
    assert_eq!(plain(r.list("h1")), expect(&[("c1", 9.0, 9.0)]));
}

#[test]
fn replace_all_does_not_touch_other_harnesses() {
    let mut r = MemoryPositionRepository::new();
    r.replace_all("h1", &[pos("c1", 1.0, 1.0)]).expect("ok");
    r.replace_all("h2", &[pos("c9", 5.0, 5.0)]).expect("ok");
    assert_eq!(plain(r.list("h2")), expect(&[("c9", 5.0, 5.0)]));
    assert_eq!(plain(r.list("h1")), expect(&[("c1", 1.0, 1.0)]));
}

#[test]
fn upsert_overwrites_named_cells_and_keeps_the_rest() {
    let mut r = MemoryPositionRepository::new();
    r.replace_all("h1", &[pos("c1", 1.0, 1.0), pos("c2", 2.0, 2.0)]).expect("ok");
    r.upsert("h1", &[pos("c2", 77.0, 88.0)]);
    assert_eq!(sorted(r.list("h1")), expect(&[("c1", 1.0, 1.0), ("c2", 77.0, 88.0)]));
}

#[test]
fn clear_removes_only_the_named_harness() {
    let mut r = MemoryPositionRepository::new();
    r.replace_all("h1", &[pos("c1", 1.0, 1.0)]).expect("ok");
    r.replace_all("h2", &[pos("c9", 5.0, 5.0)]).expect("ok");
    r.clear("h1");
    assert!(r.list("h1").is_empty());
    assert_eq!(plain(r.list("h2")), expect(&[("c9", 5.0, 5.0)]));
}

#[test]
fn replace_all_refuses_a_cell_listed_twice_and_writes_nothing() {
    let mut r = MemoryPositionRepository::new();
    r.replace_all("h1", &[pos("c1", 1.0, 1.0)]).expect("ok");
    let err = r.replace_all("h1", &[pos("c2", 2.0, 2.0), pos("c2", 3.0, 3.0)]).expect_err("duplicate refused");
    assert_eq!(err.message(), "storage error: duplicate cell in positions");
    assert_eq!(plain(r.list("h1")), expect(&[("c1", 1.0, 1.0)]));
}

#[test]
fn upsert_takes_the_last_of_repeated_cells_and_adds_new_ones() {
    let mut r = MemoryPositionRepository::new();
    r.replace_all("h1", &[pos("c1", 1.0, 1.0)]).expect("ok");
    r.upsert("h1", &[pos("c2", 2.0, 2.0), pos("c2", 4.0, 4.0), pos("c3", 3.0, 3.0)]);
    assert_eq!(sorted(r.list("h1")), expect(&[("c1", 1.0, 1.0), ("c2", 4.0, 4.0), ("c3", 3.0, 3.0)]));
}
