use monitor::measurements::{Measurement, MeasurementWindow};

#[test]
fn empty_measurements() {
    let w = MeasurementWindow::new_with_look_behind(123);
    assert_eq!(w.values.len(), 0);
    assert_eq!(w.look_behind, 123);
}

#[test]
fn appends_one_value() {
    let mut w = MeasurementWindow::new_with_look_behind(100);

    w.add(Measurement::new(10, 20));
    assert_eq!(
        w.values.into_iter().eq(vec![Measurement::new(10, 20)]),
        true
    );
}

#[test]
fn clears_on_out_of_order() {
    let mut w = MeasurementWindow::new_with_look_behind(100);

    w.add(Measurement::new(10, 20));
    w.add(Measurement::new(20, 30));
    w.add(Measurement::new(19, 100));
    assert_eq!(
        w.values.into_iter().eq(vec![Measurement::new(19, 100)]),
        true
    );
}

#[test]
fn appends_several_values() {
    let mut w = MeasurementWindow::new_with_look_behind(100);

    for x in 1..=20i64 {
        w.add(Measurement::new(x * 10, x));
    }

    assert_eq!(
        w.values.into_iter().eq(vec![
            Measurement::new(100, 10),
            Measurement::new(110, 11),
            Measurement::new(120, 12),
            Measurement::new(130, 13),
            Measurement::new(140, 14),
            Measurement::new(150, 15),
            Measurement::new(160, 16),
            Measurement::new(170, 17),
            Measurement::new(180, 18),
            Measurement::new(190, 19),
            Measurement::new(200, 20),
        ]),
        true
    );
}

#[test]
fn bounded_retention_after_each_insert() {
    let mut w = MeasurementWindow::new_with_look_behind(5);
    for &(x, y) in &[(1, 1), (3, 2), (9, 3)] {
        w.add(Measurement::new(x, y));
        let last_x = w.values.back().unwrap().x;
        for m in w.values.iter() {
            assert!(m.x >= last_x - 5);
        }
    }
    assert_eq!(w.values.into_iter().eq(vec![Measurement::new(9, 3)]), true);
}

#[test]
fn monotone_input_stays_sorted() {
    let mut w = MeasurementWindow::new_with_look_behind(1000);
    for &x in &[1i64, 2, 2, 3, 7, 7] {
        w.add(Measurement::new(x, 0));
        let snap = w.plot_values();
        for pair in snap.windows(2) {
            assert!(pair[0].x <= pair[1].x);
        }
    }
    assert_eq!(w.values.len(), 6);
}

#[test]
fn equal_x_does_not_reset() {
    let mut w = MeasurementWindow::new_with_look_behind(100);
    w.add(Measurement::new(10, 1));
    w.add(Measurement::new(10, 2));
    assert_eq!(
        w.values.into_iter().eq(vec![Measurement::new(10, 1), Measurement::new(10, 2)]),
        true
    );
}

#[test]
fn regression_to_negative_resets() {
    let mut w = MeasurementWindow::new_with_look_behind(7);
    w.add(Measurement::new(5, 1));
    w.add(Measurement::new(-3, 2));
    assert_eq!(w.values.into_iter().eq(vec![Measurement::new(-3, 2)]), true);
}

#[test]
fn zero_look_behind_keeps_only_maximum() {
    let mut w = MeasurementWindow::new_with_look_behind(0);
    for x in 1..=3i64 {
        w.add(Measurement::new(x, x));
    }
    assert_eq!(w.values.into_iter().eq(vec![Measurement::new(3, 3)]), true);
}

#[test]
fn zero_look_behind_keeps_equal_maximum() {
    let mut w = MeasurementWindow::new_with_look_behind(0);
    w.add(Measurement::new(5, 1));
    w.add(Measurement::new(5, 2));
    assert_eq!(
        w.values.into_iter().eq(vec![Measurement::new(5, 1), Measurement::new(5, 2)]),
        true
    );
}

#[test]
fn inserted_measurement_always_present() {
    let mut w = MeasurementWindow::new_with_look_behind(2);
    for &x in &[10i64, 100, 3, 4, 4, 1000] {
        let m = Measurement::new(x, x + 1);
        w.add(m);
        assert_eq!(*w.values.back().unwrap(), m);
    }
}

#[test]
fn plot_values_matches_buffer() {
    let mut w = MeasurementWindow::new_with_look_behind(50);
    w.add(Measurement::new(1, 10));
    w.add(Measurement::new(2, 20));
    let snap = w.plot_values();
    assert_eq!(snap, vec![Measurement::new(1, 10), Measurement::new(2, 20)]);
    assert_eq!(w.values.len(), 2);
}
