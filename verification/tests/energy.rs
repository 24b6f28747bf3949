use duelcore::energy::Energy;

#[test]
fn new_sets_all_components() {
    let e = Energy::new(1, 2, 3, 4, 5, 15);
    assert_eq!(e.red, 1);
    assert_eq!(e.green, 2);
    assert_eq!(e.white, 3);
    assert_eq!(e.blue, 4);
    assert_eq!(e.black, 5);
    assert_eq!(e.total, 15);
}

#[test]
fn colour_constructors_set_total() {
    let r = Energy::red(3);
    assert_eq!(r.red, 3);
    assert_eq!(r.total, 3);
    assert_eq!(r.green, 0);
    let g = Energy::green(2);
    assert_eq!(g.green, 2);
    assert_eq!(g.total, 2);
    let w = Energy::white(4);
    assert_eq!(w.white, 4);
    assert_eq!(w.total, 4);
    let b = Energy::blue(5);
    assert_eq!(b.blue, 5);
    assert_eq!(b.total, 5);
    let k = Energy::black(6);
    assert_eq!(k.black, 6);
    assert_eq!(k.total, 6);
    let n = Energy::neutral(7);
    assert_eq!(n.total, 7);
    assert_eq!(n.red, 0);
}

#[test]
fn validity_requires_no_negative_component() {
    assert!(Energy::new(0, 0, 0, 0, 0, 0).is_valid());
    assert!(Energy::new(1, 2, 3, 4, 5, 15).is_valid());
    assert!(!Energy::red(-1).is_valid());
    assert!(!Energy::new(1, 1, 1, 1, 1, -5).is_valid());
}

#[test]
fn add_is_componentwise() {
    let s = Energy::red(2).add(Energy::blue(3));
    assert_eq!(s.red, 2);
    assert_eq!(s.blue, 3);
    assert_eq!(s.total, 5);
}

#[test]
fn sub_is_componentwise() {
    let d = Energy::new(5, 0, 0, 0, 0, 5).sub(Energy::red(2));
    assert_eq!(d.red, 3);
    assert_eq!(d.total, 3);
    assert!(!Energy::red(1).sub(Energy::red(2)).is_valid());
}

#[test]
fn mul_scales_every_component() {
    let m = Energy::new(1, 2, 0, 0, 1, 4).mul(3);
    assert_eq!(m.red, 3);
    assert_eq!(m.green, 6);
    assert_eq!(m.black, 3);
    assert_eq!(m.total, 12);
}
