use folds::{from_fn, from_try_fn, Fold};
use std::cell::Cell;
use std::convert::Infallible;

#[test]
fn sum_and_product() {
    let sum = from_fn(0_u32, u32::wrapping_add);
    let prod = from_fn(1_u32, u32::wrapping_mul);
    let mut fold = sum.try_zip(prod);
    let xs = &[1, 2, 3, 4];
    assert_eq!(fold.fold(xs.iter().copied()), (10, 24));
}

#[test]
fn try_sum_and_product() {
    let sum = from_try_fn(0_u32, |x: u32, y: u32| x.checked_add(y).ok_or(()));
    let prod = from_try_fn(1_u32, |x: u32, y: u32| x.checked_mul(y).ok_or(()));
    let mut fold = sum.try_zip(prod);
    let xs = &[1, 2, 3, 4];
    assert_eq!(fold.try_fold(xs.iter().copied()), Ok((10, 24)));
}

#[test]
fn from_fn_folds_from_the_seed() {
    let mut sum = from_fn(7_u32, u32::wrapping_add);
    assert_eq!(sum.init(), 7);
    assert_eq!(sum.try_step(7, 5), Ok(12));
    assert_eq!(sum.fold([1_u32, 2, 3].into_iter()), 13);
    assert_eq!(sum.try_fold([1_u32, 2, 3].into_iter()), Ok(13));
}

#[test]
fn from_fn_wraps_as_its_function_does() {
    let mut sum = from_fn(250_u8, u8::wrapping_add);
    assert_eq!(sum.fold([10_u8].into_iter()), 4);
}

#[test]
fn from_try_fn_reports_the_first_error() {
    let mut evens = from_try_fn(0_u32, |acc: u32, x: u32| {
        if x % 2 == 0 {
            Ok(acc + x)
        } else {
            Err(x)
        }
    });
    assert_eq!(evens.init(), 0);
    assert_eq!(evens.try_step(4, 6), Ok(10));
    assert_eq!(evens.try_step(4, 7), Err(7));
    assert_eq!(evens.try_fold([2_u32, 4, 6].into_iter()), Ok(12));
    assert_eq!(evens.try_fold([2_u32, 3, 4, 5].into_iter()), Err(3));
}

#[test]
fn try_fold_stops_at_the_first_failure() {
    let mut small = from_try_fn(0_u8, |acc: u8, x: u8| acc.checked_add(x).ok_or(x));
    let mut rest = [100_u8, 100, 100, 1, 2].into_iter();
    assert_eq!(small.try_fold(&mut rest), Err(100));
    assert_eq!(rest.next(), Some(1));
    assert_eq!(rest.next(), Some(2));
    assert_eq!(rest.next(), None);
}

#[test]
fn try_fold_takes_each_element_once() {
    let calls = Cell::new(0_u32);
    let mut count = from_try_fn(0_u32, |acc: u32, x: u32| -> Result<u32, ()> {
        calls.set(calls.get() + 1);
        Ok(acc + x)
    });
    assert_eq!(count.try_fold([5_u32, 6, 7].into_iter()), Ok(18));
    assert_eq!(calls.get(), 3);
}

#[test]
fn empty_sequence_gives_the_seed() {
    let mut sum = from_fn(42_u32, u32::wrapping_add);
    assert_eq!(sum.fold(std::iter::empty::<u32>()), 42);
    let mut checked = from_try_fn(9_u32, |x: u32, y: u32| x.checked_add(y).ok_or(()));
    assert_eq!(checked.try_fold(std::iter::empty::<u32>()), Ok(9));
}

#[test]
fn empty_sequence_gives_the_seeds_of_a_pair() {
    let mut pair = from_fn(0_u32, u32::wrapping_add).try_zip(from_fn(1_u32, u32::wrapping_mul));
    assert_eq!(pair.fold(std::iter::empty::<u32>()), (0, 1));
    let mut slots = from_try_fn(3_u32, |x: u32, y: u32| x.checked_add(y).ok_or(()))
        .zip(from_try_fn(4_u32, |x: u32, y: u32| x.checked_mul(y).ok_or(())));
    assert_eq!(slots.fold(std::iter::empty::<u32>()), (Ok(3), Ok(4)));
}

#[test]
fn fusion_gives_what_two_passes_give() {
    let xs = [3_u32, 1, 4, 1, 5, 9, 2, 6];
    let mut sum = from_fn(0_u32, u32::wrapping_add);
    let mut max = from_fn(0_u32, |acc: u32, x: u32| acc.max(x));
    let alone = (sum.fold(xs.iter().copied()), max.fold(xs.iter().copied()));
    let mut fused = sum.try_zip(max);
    assert_eq!(fused.fold(xs.iter().copied()), alone);
    assert_eq!(alone, (31, 9));
}

#[test]
fn second_run_gives_the_same() {
    let xs = [1_u32, 2, 3, 4];
    let mut fold = from_fn(0_u32, u32::wrapping_add).try_zip(from_fn(1_u32, u32::wrapping_mul));
    let first = fold.fold(xs.iter().copied());
    let second = fold.fold(xs.iter().copied());
    assert_eq!(first, (10, 24));
    assert_eq!(second, first);

    let mut checked = from_try_fn(0_u8, |x: u8, y: u8| x.checked_add(y).ok_or(y));
    let ys = [200_u8, 50, 6, 1];
    let first = checked.try_fold(ys.iter().copied());
    let second = checked.try_fold(ys.iter().copied());
    assert_eq!(first, Err(6));
    assert_eq!(second, first);
}

#[test]
fn init_gives_a_fresh_accumulator_each_time() {
    let mut list = from_fn(vec![0_u32], |mut acc: Vec<u32>, x: u32| {
        acc.push(x);
        acc
    });
    let mut first = list.init();
    first.push(99);
    assert_eq!(list.init(), vec![0]);
    assert_eq!(list.fold([1_u32, 2].into_iter()), vec![0, 1, 2]);
    assert_eq!(list.fold([3_u32].into_iter()), vec![0, 3]);
}

#[test]
fn zip_keeps_each_failure_to_its_slot() {
    let sum = from_try_fn(0_u8, |x: u8, y: u8| x.checked_add(y).ok_or(y));
    let prod = from_try_fn(1_u32, |x: u32, y: u8| x.checked_mul(u32::from(y)).ok_or(y));
    let mut both = sum.zip(prod);
    assert_eq!(both.init(), (Ok(0), Ok(1)));
    let xs = [100_u8, 100, 100, 2, 200];
    assert_eq!(
        both.try_fold(xs.iter().copied()),
        Ok((Err(100), Ok(400_000_000)))
    );
    assert_eq!(both.fold(xs.iter().copied()), (Err(100), Ok(400_000_000)));
}

#[test]
fn zip_records_the_first_error_of_a_slot() {
    let odd = from_try_fn(0_u32, |acc: u32, x: u32| {
        if x % 2 == 0 {
            Ok(acc + x)
        } else {
            Err(x)
        }
    });
    let sum = from_try_fn(0_u32, |acc: u32, x: u32| -> Result<u32, ()> { Ok(acc + x) });
    let mut both = odd.zip(sum);
    assert_eq!(both.fold([2_u32, 3, 4, 5, 6].into_iter()), (Err(3), Ok(20)));
}

#[test]
fn zip_slots_can_both_fail() {
    let small = from_try_fn(0_u8, |x: u8, y: u8| x.checked_add(y).ok_or("sum"));
    let tiny = from_try_fn(1_u8, |x: u8, y: u8| x.checked_mul(y).ok_or("product"));
    let mut both = small.zip(tiny);
    assert_eq!(
        both.fold([20_u8, 20, 200, 100].into_iter()),
        (Err("sum"), Err("product"))
    );
}

#[test]
fn zip_step_leaves_a_failed_slot_alone() {
    let left_calls = Cell::new(0_u32);
    let right_calls = Cell::new(0_u32);
    let left = from_try_fn(0_u32, |acc: u32, x: u32| {
        left_calls.set(left_calls.get() + 1);
        if x < 10 {
            Ok(acc + x)
        } else {
            Err(x)
        }
    });
    let right = from_try_fn(0_u32, |acc: u32, x: u32| -> Result<u32, u32> {
        right_calls.set(right_calls.get() + 1);
        Ok(acc + x)
    });
    let mut both = left.zip(right);
    assert_eq!(both.try_step((Ok(1), Ok(2)), 5), Ok((Ok(6), Ok(7))));
    assert_eq!(both.try_step((Err(8), Ok(2)), 5), Ok((Err(8), Ok(7))));
    assert_eq!(both.try_step((Ok(1), Err(9)), 50), Ok((Err(50), Err(9))));
    assert_eq!(left_calls.get(), 2);
    assert_eq!(right_calls.get(), 2);

    left_calls.set(0);
    right_calls.set(0);
    assert_eq!(
        both.fold([1_u32, 20, 3, 30, 4].into_iter()),
        (Err(20), Ok(58))
    );
    assert_eq!(left_calls.get(), 2);
    assert_eq!(right_calls.get(), 5);
}

#[test]
fn try_zip_stops_both_at_the_first_failure() {
    let left_calls = Cell::new(0_u32);
    let right_calls = Cell::new(0_u32);
    let left = from_try_fn(0_u32, |acc: u32, x: u32| {
        left_calls.set(left_calls.get() + 1);
        if x < 10 {
            Ok(acc + x)
        } else {
            Err(x)
        }
    });
    let right = from_try_fn(0_u32, |acc: u32, x: u32| -> Result<u32, u32> {
        right_calls.set(right_calls.get() + 1);
        Ok(acc + x)
    });
    let mut both = left.try_zip(right);
    let mut rest = [1_u32, 2, 30, 4, 50].into_iter();
    assert_eq!(both.try_fold(&mut rest), Err(30));
    assert_eq!(left_calls.get(), 3);
    assert_eq!(right_calls.get(), 2);
    assert_eq!(rest.next(), Some(4));
}

#[test]
fn try_zip_step_goes_left_to_right() {
    let order = Cell::new(0_u32);
    let left = from_try_fn(0_u32, |_: u32, x: u32| {
        order.set(order.get() * 10 + 1);
        if x == 0 {
            Err("left")
        } else {
            Ok(x)
        }
    });
    let right = from_try_fn(0_u32, |_: u32, x: u32| {
        order.set(order.get() * 10 + 2);
        if x < 2 {
            Err("right")
        } else {
            Ok(x)
        }
    });
    let mut both = left.try_zip(right);
    assert_eq!(both.init(), (0, 0));
    assert_eq!(both.try_step((0, 0), 5), Ok((5, 5)));
    assert_eq!(order.get(), 12);
    order.set(0);
    assert_eq!(both.try_step((0, 0), 1), Err("right"));
    assert_eq!(order.get(), 12);
    order.set(0);
    assert_eq!(both.try_step((0, 0), 0), Err("left"));
    assert_eq!(order.get(), 1);
}

#[test]
fn try_zip_fails_with_the_failure_of_the_second() {
    let sum = from_try_fn(0_u32, |x: u32, y: u32| x.checked_add(y).ok_or("sum"));
    let prod = from_try_fn(1_u8, |x: u8, y: u32| {
        u8::try_from(y)
            .ok()
            .and_then(|y| x.checked_mul(y))
            .ok_or("product")
    });
    let mut both = sum.try_zip(prod);
    assert_eq!(both.try_fold([2_u32, 3].into_iter()), Ok((5, 6)));
    assert_eq!(both.try_fold([20_u32, 30, 1].into_iter()), Err("product"));
}

#[test]
fn combinators_nest() {
    let sum = from_fn(0_u32, u32::wrapping_add);
    let prod = from_fn(1_u32, u32::wrapping_mul);
    let max = from_fn(0_u32, |acc: u32, x: u32| acc.max(x));
    let mut three = sum.try_zip(prod).try_zip(max);
    assert_eq!(three.fold([1_u32, 2, 3, 4].into_iter()), ((10, 24), 4));

    let checked = from_try_fn(0_u8, |x: u8, y: u8| x.checked_add(y).ok_or(y));
    let count = from_fn(0_u32, |n: u32, _: u8| n + 1);
    let mut slots = checked.zip(count.zip(from_fn(0_u8, u8::wrapping_add)));
    let inner: (Result<u32, Infallible>, Result<u8, Infallible>) = (Ok(3), Ok(51));
    assert_eq!(
        slots.fold([200_u8, 100, 7].into_iter()),
        (Err(100), Ok(inner))
    );
}

#[test]
fn elements_are_cloned_for_each_fold() {
    let lengths = from_fn(0_usize, |n: usize, s: String| n + s.len());
    let joined = from_fn(String::new(), |mut acc: String, s: String| {
        acc.push_str(&s);
        acc
    });
    let mut both = lengths.try_zip(joined);
    let words = vec!["ab".to_string(), "cde".to_string()];
    assert_eq!(both.fold(words.into_iter()), (5, "abcde".to_string()));
}
