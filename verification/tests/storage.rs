use ropes::network::{Point, Stick};
use ropes::order::{ascending_order, random_order};
use ropes::ropes::Ropes;
use ropes::scalar::Scalar;
use ropes::vector::Vector;

fn num(x: f64) -> Scalar {
    Scalar::from_bits(x.to_bits())
}

fn at(x: f64, y: f64) -> Vector<Scalar> {
    Vector::new(num(x), num(y))
}

fn distance(a: Vector<Scalar>, b: Vector<Scalar>) -> Scalar {
    let dx = f64::from_bits(a.x.to_bits()) - f64::from_bits(b.x.to_bits());
    let dy = f64::from_bits(a.y.to_bits()) - f64::from_bits(b.y.to_bits());
    num((dx * dx + dy * dy).sqrt())
}

fn never(_: Vector<Scalar>, _: Vector<Scalar>) -> Scalar {
    panic!("no distance should be measured here")
}

fn pairs(ropes: &Ropes) -> Vec<(usize, usize)> {
    ropes.sticks().iter().map(|stick| stick.points).collect()
}

#[test]
fn a_new_network_is_empty() {
    let ropes = Ropes::new();
    assert!(ropes.keys().is_empty());
    assert!(ropes.sticks().is_empty());
    assert!(ropes.point(0).is_none());
}

#[test]
fn a_new_point_is_free_and_at_rest() {
    let mut ropes = Ropes::new();
    let key = ropes.add_point(at(3.0, 4.0));
    let point = ropes.point(key).unwrap();
    assert_eq!(point.position, at(3.0, 4.0));
    assert_eq!(point.last_position, at(3.0, 4.0));
    assert!(!point.locked);
    assert_eq!(ropes.keys(), vec![key]);
}

#[test]
fn points_get_distinct_keys_listed_ascending() {
    let mut ropes = Ropes::new();
    let a = ropes.add_point(at(0.0, 0.0));
    let b = ropes.add_point(at(1.0, 0.0));
    let c = ropes.add_point(at(2.0, 0.0));
    assert!(a != b && b != c && a != c);
    let mut sorted = vec![a, b, c];
    sorted.sort();
    assert_eq!(ropes.keys(), sorted);
    assert_eq!(ropes.point(b).unwrap().position, at(1.0, 0.0));
}

#[test]
fn point_new_copies_the_position() {
    let point = Point::new(at(-1.5, 2.25));
    assert_eq!(point.position, at(-1.5, 2.25));
    assert_eq!(point.last_position, at(-1.5, 2.25));
    assert!(!point.locked);
}

#[test]
fn stick_new_orders_its_keys() {
    let stick = Stick::new(7, 2, num(5.0));
    assert_eq!(stick.points, (2, 7));
    assert_eq!(stick.length, num(5.0));
    assert!(stick.joins(7, 2));
    assert!(stick.joins(2, 7));
    assert!(!stick.joins(2, 3));
    assert!(!stick.joins(2, 2));
}

#[test]
fn add_stick_measures_the_rest_length_once() {
    let mut ropes = Ropes::new();
    let a = ropes.add_point(at(0.0, 0.0));
    let b = ropes.add_point(at(3.0, 4.0));
    ropes.add_stick(b, a, distance);
    let sticks = ropes.sticks();
    assert_eq!(sticks.len(), 1);
    assert_eq!(sticks[0].points, (a.min(b), a.max(b)));
    assert_eq!(sticks[0].length, num(5.0));
    assert!(ropes.has_stick(a, b));
    assert!(ropes.has_stick(b, a));
}

#[test]
fn add_stick_hands_the_positions_over_in_call_order() {
    let mut ropes = Ropes::new();
    let a = ropes.add_point(at(1.0, 2.0));
    let b = ropes.add_point(at(3.0, 4.0));
    ropes.add_stick(b, a, |first: Vector<Scalar>, second: Vector<Scalar>| {
        assert_eq!(first, at(3.0, 4.0));
        assert_eq!(second, at(1.0, 2.0));
        num(9.0)
    });
    assert_eq!(ropes.sticks()[0].length, num(9.0));
}

#[test]
fn add_stick_ignores_a_dead_key() {
    let mut ropes = Ropes::new();
    let a = ropes.add_point(at(0.0, 0.0));
    ropes.add_stick(a, a + 7, never);
    ropes.add_stick(a + 7, a, never);
    ropes.add_stick(a + 7, a + 8, never);
    assert!(ropes.sticks().is_empty());
    assert!(!ropes.point(a).unwrap().locked);
}

#[test]
fn add_stick_twice_leaves_one_link() {
    let mut ropes = Ropes::new();
    let a = ropes.add_point(at(0.0, 0.0));
    let b = ropes.add_point(at(3.0, 4.0));
    ropes.add_stick(a, b, distance);
    ropes.add_stick(b, a, never);
    ropes.add_stick(a, b, never);
    assert_eq!(pairs(&ropes), vec![(a.min(b), a.max(b))]);
    assert_eq!(ropes.sticks()[0].length, num(5.0));
}

#[test]
fn add_stick_to_itself_toggles_the_lock() {
    let mut ropes = Ropes::new();
    let a = ropes.add_point(at(0.0, 0.0));
    let b = ropes.add_point(at(1.0, 0.0));
    ropes.add_stick(a, a, never);
    assert!(ropes.sticks().is_empty());
    assert!(ropes.point(a).unwrap().locked);
    assert!(!ropes.point(b).unwrap().locked);
    ropes.add_stick(a, a, never);
    assert!(ropes.sticks().is_empty());
    assert!(!ropes.point(a).unwrap().locked);
    ropes.add_stick(a + 9, a + 9, never);
    assert_eq!(ropes.keys().len(), 2);
}

#[test]
fn toggle_locked_flips_and_keeps_the_rest() {
    let mut ropes = Ropes::new();
    let a = ropes.add_point(at(5.0, 6.0));
    ropes.toggle_locked(a);
    let point = ropes.point(a).unwrap();
    assert!(point.locked);
    assert_eq!(point.position, at(5.0, 6.0));
    assert_eq!(point.last_position, at(5.0, 6.0));
    ropes.toggle_locked(a);
    assert!(!ropes.point(a).unwrap().locked);
}

#[test]
fn toggle_locked_ignores_a_dead_key() {
    let mut ropes = Ropes::new();
    let a = ropes.add_point(at(5.0, 6.0));
    ropes.toggle_locked(a + 1);
    assert_eq!(ropes.keys(), vec![a]);
    assert!(!ropes.point(a).unwrap().locked);
}

#[test]
fn remove_point_takes_its_links_along() {
    let mut ropes = Ropes::new();
    let a = ropes.add_point(at(0.0, 0.0));
    let b = ropes.add_point(at(1.0, 0.0));
    let c = ropes.add_point(at(2.0, 0.0));
    let d = ropes.add_point(at(3.0, 0.0));
    ropes.add_stick(a, b, distance);
    ropes.add_stick(b, c, distance);
    ropes.add_stick(c, d, distance);
    ropes.add_stick(d, b, distance);
    ropes.remove_point(b);
    assert!(ropes.point(b).is_none());
    assert_eq!(ropes.keys().len(), 3);
    assert_eq!(pairs(&ropes), vec![(c.min(d), c.max(d))]);
    for stick in ropes.sticks() {
        assert!(stick.points.0 != b && stick.points.1 != b);
    }
}

#[test]
fn remove_point_ignores_a_dead_key() {
    let mut ropes = Ropes::new();
    let a = ropes.add_point(at(0.0, 0.0));
    let b = ropes.add_point(at(1.0, 0.0));
    ropes.add_stick(a, b, distance);
    ropes.remove_point(a + b + 5);
    assert_eq!(ropes.keys().len(), 2);
    assert_eq!(ropes.sticks().len(), 1);
}

#[test]
fn a_key_that_comes_back_names_no_old_link() {
    let mut ropes = Ropes::new();
    let a = ropes.add_point(at(0.0, 0.0));
    let b = ropes.add_point(at(1.0, 0.0));
    ropes.add_stick(a, b, distance);
    ropes.remove_point(a);
    let again = ropes.add_point(at(9.0, 9.0));
    assert!(ropes.sticks().is_empty());
    assert!(!ropes.has_stick(again, b));
    assert_eq!(ropes.point(again).unwrap().position, at(9.0, 9.0));
    assert_eq!(ropes.point(b).unwrap().position, at(1.0, 0.0));
}

#[test]
fn a_clone_goes_its_own_way() {
    let mut ropes = Ropes::new();
    let a = ropes.add_point(at(0.0, 0.0));
    let b = ropes.add_point(at(3.0, 4.0));
    ropes.add_stick(a, b, distance);
    let mut copy = ropes.clone();
    assert_eq!(copy.keys(), ropes.keys());
    assert_eq!(pairs(&copy), pairs(&ropes));
    assert_eq!(copy.point(b).unwrap().position, at(3.0, 4.0));
    copy.toggle_locked(a);
    copy.remove_point(b);
    let c = copy.add_point(at(7.0, 7.0));
    assert!(!ropes.point(a).unwrap().locked);
    assert_eq!(ropes.keys().len(), 2);
    assert_eq!(ropes.sticks().len(), 1);
    assert!(copy.point(a).unwrap().locked);
    assert!(copy.sticks().is_empty());
    assert_eq!(copy.point(c).unwrap().position, at(7.0, 7.0));
    ropes.remove_point(a);
    assert!(copy.point(a).is_some());
}

#[test]
fn ascending_order_counts_up() {
    assert_eq!(ascending_order(0), Vec::<usize>::new());
    assert_eq!(ascending_order(4), vec![0, 1, 2, 3]);
}

#[test]
fn random_order_visits_every_index_once() {
    for count in [0usize, 1, 2, 7, 50] {
        let mut order = random_order(count);
        assert_eq!(order.len(), count);
        order.sort();
        assert_eq!(order, ascending_order(count));
    }
}

#[test]
fn random_order_does_not_stay_ascending() {
    let sorted = ascending_order(20);
    let mut moved = false;
    for _ in 0..10 {
        if random_order(20) != sorted {
            moved = true;
        }
    }
    assert!(moved);
}
