use rt_easy::split_vec::SplitVec;

#[test]
fn front_and_back() {
    let v = SplitVec::new(vec![1, 2, 3, 4, 5], 2);
    assert_eq!(v.front(), &[1, 2]);
    assert_eq!(v.back(), &[3, 4, 5]);
    assert_eq!(v.split_at(), 2);
    assert_eq!(v.as_slice(), &[1, 2, 3, 4, 5]);
    let mut joined = v.front().to_vec();
    joined.extend_from_slice(v.back());
    assert_eq!(joined, v.as_slice());
}

#[test]
fn get_tells_the_side() {
    let v = SplitVec::new(vec!['a', 'b', 'c'], 1);
    assert_eq!(v.get(0), Some((&'a', true)));
    assert_eq!(v.get(2), Some((&'c', false)));
    assert_eq!(v.get(3), None);
}

#[test]
fn edge_splits() {
    let v = SplitVec::new(vec![1, 2], 0);
    assert!(v.front().is_empty());
    let v = SplitVec::new(vec![1, 2], 2);
    assert!(v.back().is_empty());
    let v: SplitVec<i32> = SplitVec::new(vec![], 0);
    assert_eq!(v.get(0), None);
}

#[test]
fn mapping_keeps_the_split() {
    let v = SplitVec::new(vec![1, 2, 3], 1).mapped(|x: i32| x * 10);
    assert_eq!(v.as_slice(), &[10, 20, 30]);
    assert_eq!(v.split_at(), 1);
}

#[test]
fn fallible_mapping() {
    let ok = SplitVec::new(vec![1, 2, 3], 2).try_mapped(|x: i32| if x > 0 { Ok(x + 1) } else { Err(x) });
    let ok = ok.unwrap();
    assert_eq!(ok.as_slice(), &[2, 3, 4]);
    assert_eq!(ok.split_at(), 2);
    let err = SplitVec::new(vec![1, -2, -3], 2).try_mapped(|x: i32| if x > 0 { Ok(x) } else { Err(x) });
    assert_eq!(err.err(), Some(-2));
}
