use hogwild::checked_volume;
use hogwild::offset_of;
use hogwild::Hogwild;
use hogwild::HogwildArray;
use hogwild::Tensor;

#[test]
pub fn hogwild_test() {
    let mut a1: Hogwild<usize> = Hogwild::default();
    let mut a2 = a1.clone();

    a1.set(1);
    assert_eq!(a2.get(), 1);
    a2.set(2);
    assert_eq!(a1.get(), 2);
}

#[test]
pub fn hogwild_array_test() {
    let t = Tensor::new(vec![2, 2], vec![0.0f32; 4]).unwrap();
    let mut a1: HogwildArray<f32> = HogwildArray::from_tensor(t);
    let mut a2 = a1.clone();

    let mut a1_view = a1.view_mut();
    assert!(a1_view.set(&vec![0, 0], 1.0));
    let c00 = a1_view.get(&vec![0, 0]).unwrap();

    // Two simultaneously writable views of the underlying buffer.
    assert!(a2.view_mut().set(&vec![1, 1], c00 * 2.0));

    assert_eq!(vec![1.0, 0.0, 0.0, 2.0], a2.as_slice().unwrap());
}

#[test]
pub fn cell_default_is_default_value() {
    let c: Hogwild<usize> = Hogwild::default();
    assert_eq!(c.get(), 0);
    let d: Hogwild<u32> = Hogwild::default();
    assert_eq!(d.get(), 0);
}

#[test]
pub fn cell_new_holds_value() {
    let c: Hogwild<i64> = Hogwild::new(-7);
    assert_eq!(c.get(), -7);
    let c2 = c.clone();
    assert_eq!(c2.get(), -7);
}

#[test]
pub fn clone_aliasing_both_directions() {
    let t = Tensor::new(vec![2, 3], vec![0u64; 6]).unwrap();
    let mut h1 = HogwildArray::from_tensor(t);
    let mut h2 = h1.clone();

    assert!(h1.view_mut().set(&vec![0, 1], 41));
    assert_eq!(h2.view().get(&vec![0, 1]).unwrap(), 41);

    assert!(h2.view_mut().set(&vec![1, 2], 17));
    assert_eq!(h1.view().get(&vec![1, 2]).unwrap(), 17);
}

#[test]
pub fn disjoint_writes_order_independent() {
    // The same set of writes to pairwise distinct coordinates, applied in two
    // different interleavings through independent clones, leaves the same
    // final buffer.
    let writes: Vec<(usize, usize, u64)> = vec![(0, 0, 10), (0, 2, 11), (1, 1, 12), (1, 3, 13)];

    let t1 = Tensor::new(vec![2, 4], vec![0u64; 8]).unwrap();
    let mut f1 = HogwildArray::from_tensor(t1);
    let mut g1 = f1.clone();
    for &(i, j, v) in writes.iter() {
        if i == 0 {
            assert!(f1.view_mut().set(&vec![i, j], v));
        } else {
            assert!(g1.view_mut().set(&vec![i, j], v));
        }
    }

    let t2 = Tensor::new(vec![2, 4], vec![0u64; 8]).unwrap();
    let mut f2 = HogwildArray::from_tensor(t2);
    let mut g2 = f2.clone();
    for &(i, j, v) in writes.iter().rev() {
        if i == 0 {
            assert!(g2.view_mut().set(&vec![i, j], v));
        } else {
            assert!(f2.view_mut().set(&vec![i, j], v));
        }
    }

    let expected = vec![10u64, 0, 11, 0, 0, 12, 0, 13];
    assert_eq!(f1.as_slice().unwrap(), expected);
    assert_eq!(f2.as_slice().unwrap(), expected);
}

#[test]
pub fn overlapping_writes_leave_one_of_the_written_values() {
    let t = Tensor::new(vec![2, 2], vec![0u32; 4]).unwrap();
    let mut h1 = HogwildArray::from_tensor(t);
    let mut h2 = h1.clone();

    for _ in 0..100 {
        assert!(h1.view_mut().set(&vec![1, 0], 0xAAAA_AAAA));
        assert!(h2.view_mut().set(&vec![1, 0], 0x5555_5555));
        let seen = h1.view().get(&vec![1, 0]).unwrap();
        assert!(seen == 0xAAAA_AAAA || seen == 0x5555_5555);
        assert_eq!(seen, 0x5555_5555);
    }
}

#[test]
pub fn teardown_survives_dropped_clones() {
    let t = Tensor::new(vec![3], vec![1u64, 2, 3]).unwrap();
    let a = HogwildArray::from_tensor(t);
    let mut b = a.clone();
    let c = b.clone();

    drop(a);
    assert!(b.view_mut().set(&vec![0], 9));
    drop(b);
    assert_eq!(c.as_slice().unwrap(), vec![9u64, 2, 3]);

    let cell: Hogwild<usize> = Hogwild::new(5);
    let cell2 = cell.clone();
    drop(cell);
    assert_eq!(cell2.get(), 5);
}

#[test]
pub fn from_tensor_keeps_elements() {
    let t = Tensor::new(vec![2, 3], vec![0u64, 1, 2, 3, 4, 5]).unwrap();
    let h = HogwildArray::from_tensor(t);
    assert_eq!(h.as_slice().unwrap(), vec![0u64, 1, 2, 3, 4, 5]);
}

#[test]
pub fn tensor_new_checks_element_count() {
    assert!(Tensor::new(vec![2, 3], vec![0u8; 6]).is_some());
    assert!(Tensor::new(vec![2, 3], vec![0u8; 5]).is_none());
    assert!(Tensor::new(vec![2, 3], vec![0u8; 7]).is_none());
    // A scalar buffer: the empty shape holds exactly one element.
    assert!(Tensor::new(vec![], vec![42u8]).is_some());
    assert!(Tensor::new(vec![], Vec::<u8>::new()).is_none());
    // A zero extent admits no elements at all.
    assert!(Tensor::new(vec![0, 4], Vec::<u8>::new()).is_some());
    // An overflowing volume can never match an element count.
    assert!(Tensor::new(vec![usize::MAX, usize::MAX], vec![0u8; 3]).is_none());
}

#[test]
pub fn tensor_get_reads_row_major() {
    let t = Tensor::new(vec![2, 3], vec![10u64, 11, 12, 13, 14, 15]).unwrap();
    assert_eq!(t.get(&vec![0, 0]).unwrap(), 10);
    assert_eq!(t.get(&vec![0, 2]).unwrap(), 12);
    assert_eq!(t.get(&vec![1, 0]).unwrap(), 13);
    assert_eq!(t.get(&vec![1, 2]).unwrap(), 15);
    assert!(t.get(&vec![2, 0]).is_none());
    assert!(t.get(&vec![0, 3]).is_none());
    assert!(t.get(&vec![0]).is_none());
    assert_eq!(t.len(), 6);
}

#[test]
pub fn view_get_checks_bounds() {
    let t = Tensor::new(vec![2, 2], vec![7u64; 4]).unwrap();
    let h = HogwildArray::from_tensor(t);
    let v = h.view();
    assert_eq!(v.get(&vec![1, 1]).unwrap(), 7);
    assert!(v.get(&vec![2, 0]).is_none());
    assert!(v.get(&vec![0, 2]).is_none());
    assert!(v.get(&vec![0]).is_none());
    assert!(v.get(&vec![0, 0, 0]).is_none());
}

#[test]
pub fn set_reports_out_of_bounds() {
    let t = Tensor::new(vec![2, 2], vec![0u64; 4]).unwrap();
    let mut h = HogwildArray::from_tensor(t);
    let mut v = h.view_mut();
    assert!(!v.set(&vec![2, 0], 1));
    assert!(!v.set(&vec![0, 2], 1));
    assert!(!v.set(&vec![0], 1));
    assert_eq!(h.as_slice().unwrap(), vec![0u64; 4]);
}

#[test]
pub fn subview_selects_fixed_axis() {
    let t = Tensor::new(vec![2, 3], vec![0u64, 1, 2, 3, 4, 5]).unwrap();
    let h = HogwildArray::from_tensor(t);

    let row = h.subview(0, 1).unwrap();
    assert_eq!(row.get(&vec![0]).unwrap(), 3);
    assert_eq!(row.get(&vec![1]).unwrap(), 4);
    assert_eq!(row.get(&vec![2]).unwrap(), 5);
    assert!(row.get(&vec![3]).is_none());

    let col = h.subview(1, 2).unwrap();
    assert_eq!(col.get(&vec![0]).unwrap(), 2);
    assert_eq!(col.get(&vec![1]).unwrap(), 5);

    assert!(h.subview(2, 0).is_none());
    assert!(h.subview(0, 2).is_none());
    assert!(h.subview(1, 3).is_none());
}

#[test]
pub fn subview_mut_aliases_parent_storage() {
    let t = Tensor::new(vec![2, 3], vec![0u64; 6]).unwrap();
    let mut h = HogwildArray::from_tensor(t);
    let other = h.clone();

    let mut row = h.subview_mut(0, 1).unwrap();
    assert!(row.set(&vec![1], 99));
    let mut col = h.subview_mut(1, 0).unwrap();
    assert!(col.set(&vec![0], 88));

    assert_eq!(other.as_slice().unwrap(), vec![88u64, 0, 0, 0, 99, 0]);
    assert_eq!(other.subview(0, 1).unwrap().get(&vec![1]).unwrap(), 99);
}

#[test]
pub fn three_dimensional_subview() {
    // Shape [2, 2, 2]; element at (i, j, k) is 4 * i + 2 * j + k.
    let t = Tensor::new(vec![2, 2, 2], (0u64..8).collect()).unwrap();
    let h = HogwildArray::from_tensor(t);

    let mid = h.subview(1, 1).unwrap();
    assert_eq!(mid.get(&vec![0, 0]).unwrap(), 2);
    assert_eq!(mid.get(&vec![0, 1]).unwrap(), 3);
    assert_eq!(mid.get(&vec![1, 0]).unwrap(), 6);
    assert_eq!(mid.get(&vec![1, 1]).unwrap(), 7);
}

#[test]
pub fn offset_of_is_row_major() {
    assert_eq!(offset_of(&vec![2, 3], &vec![0, 0]), 0);
    assert_eq!(offset_of(&vec![2, 3], &vec![0, 2]), 2);
    assert_eq!(offset_of(&vec![2, 3], &vec![1, 0]), 3);
    assert_eq!(offset_of(&vec![2, 3], &vec![1, 2]), 5);
    assert_eq!(offset_of(&vec![], &vec![]), 0);
}

#[test]
pub fn checked_volume_handles_overflow_and_zero() {
    assert_eq!(checked_volume(&vec![2, 3, 4]), Some(24));
    assert_eq!(checked_volume(&vec![]), Some(1));
    assert_eq!(checked_volume(&vec![usize::MAX, 2]), None);
    assert_eq!(checked_volume(&vec![usize::MAX, 0]), Some(0));
    assert_eq!(checked_volume(&vec![0, usize::MAX, usize::MAX]), Some(0));
}

#[test]
pub fn scalar_array_round_trip() {
    let t = Tensor::new(vec![], vec![123u64]).unwrap();
    let mut h = HogwildArray::from_tensor(t);
    let h2 = h.clone();
    assert_eq!(h.view().get(&vec![]).unwrap(), 123);
    assert!(h.view_mut().set(&vec![], 321));
    assert_eq!(h2.view().get(&vec![]).unwrap(), 321);
    assert_eq!(h2.as_slice().unwrap(), vec![321u64]);
}
