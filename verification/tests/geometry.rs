use raytracer::csg::{action, combine, CsgAction, CsgMode, CsgPick, HitKey, Side};
use raytracer::hit::{select_first_hit, select_last_farthest, select_last_nearest, HitVec, HITVEC_SIZE};
use raytracer::matrix::transposed;

fn key(entering: bool, rank: u64) -> HitKey {
    HitKey { entering, rank }
}

fn pick(side: Side, index: usize, entering: bool) -> CsgPick {
    CsgPick { side, index, entering }
}

// Two overlapping spans along the ray: A from rank 1 to 3, B from rank 2 to 4.
fn spans() -> (Vec<HitKey>, Vec<HitKey>) {
    (vec![key(true, 1), key(false, 3)], vec![key(true, 2), key(false, 4)])
}

#[test]
fn action_table_by_state() {
    assert_eq!(action(CsgMode::Union, key(true, 1), key(true, 2)), CsgAction::AEnter);
    assert_eq!(action(CsgMode::Union, key(true, 3), key(true, 2)), CsgAction::BEnter);
    assert_eq!(action(CsgMode::Intersection, key(false, 1), key(false, 2)), CsgAction::AExit);
    assert_eq!(action(CsgMode::Difference, key(false, 3), key(false, 2)), CsgAction::BEnter);
    assert_eq!(action(CsgMode::Difference, key(false, 3), key(true, 2)), CsgAction::BExit);
    assert_eq!(action(CsgMode::Difference, key(true, 1), key(false, 2)), CsgAction::ADrop);
}

#[test]
fn union_of_overlapping_spans() {
    let (a, b) = spans();
    assert_eq!(combine(CsgMode::Union, &a, &b), vec![pick(Side::Left, 0, true), pick(Side::Right, 1, false)]);
}

#[test]
fn intersection_of_overlapping_spans() {
    let (a, b) = spans();
    assert_eq!(
        combine(CsgMode::Intersection, &a, &b),
        vec![pick(Side::Right, 0, true), pick(Side::Left, 1, false)]
    );
}

#[test]
fn difference_of_overlapping_spans() {
    let (a, b) = spans();
    assert_eq!(
        combine(CsgMode::Difference, &a, &b),
        vec![pick(Side::Left, 0, true), pick(Side::Right, 0, false)]
    );
}

#[test]
fn combining_with_no_hits() {
    let (a, _) = spans();
    let none: Vec<HitKey> = Vec::new();
    let all_of_a = vec![pick(Side::Left, 0, true), pick(Side::Left, 1, false)];
    assert_eq!(combine(CsgMode::Union, &a, &none), all_of_a);
    assert_eq!(combine(CsgMode::Difference, &a, &none), all_of_a);
    assert!(combine(CsgMode::Intersection, &a, &none).is_empty());
    assert_eq!(
        combine(CsgMode::Union, &none, &a),
        vec![pick(Side::Right, 0, true), pick(Side::Right, 1, false)]
    );
    assert!(combine(CsgMode::Difference, &none, &a).is_empty());
}

#[test]
fn hitvec_holds_six_hits_in_order() {
    let mut v: HitVec<u32> = HitVec::new();
    assert!(v.is_empty());
    for i in 0..HITVEC_SIZE as u32 {
        v.push(i * 10);
    }
    assert_eq!(v.len(), 6);
    assert_eq!(*v.get(3), 30);
    assert_eq!(v.into_vec(), vec![0, 10, 20, 30, 40, 50]);
}

#[test]
fn selecting_hits_by_rank() {
    let keys = vec![None, Some(5), Some(3), Some(7), Some(3), None, Some(7)];
    assert_eq!(select_first_hit(&keys), Some(2));
    assert_eq!(select_last_nearest(&keys), Some(4));
    assert_eq!(select_last_farthest(&keys), Some(6));
    let nothing: Vec<Option<u64>> = vec![None, None];
    assert_eq!(select_first_hit(&nothing), None);
    assert_eq!(select_last_farthest(&nothing), None);
    assert_eq!(select_last_nearest(&Vec::new()), None);
}

#[test]
fn transposing_a_matrix() {
    let m = [[1, 2, 3, 4], [5, 6, 7, 8], [9, 10, 11, 12], [13, 14, 15, 16]];
    let t = transposed(&m);
    assert_eq!(t, [[1, 5, 9, 13], [2, 6, 10, 14], [3, 7, 11, 15], [4, 8, 12, 16]]);
    assert_eq!(transposed(&t), m);
}
