use folds::{from_fn, from_try_fn, Fold, Uninhabited};

struct Longest {
    steps: u32,
}

impl Fold for Longest {
    type Accumulator = usize;
    type Error = String;
    type Element = &'static str;

    fn init(&mut self) -> usize {
        0
    }

    fn try_step(&mut self, acc: usize, elem: &'static str) -> Result<usize, String> {
        self.steps += 1;
        if elem.is_empty() {
            Err(format!("empty word after {}", acc))
        } else {
            Ok(acc.max(elem.len()))
        }
    }
}

enum Never {}

impl Uninhabited for Never {
    fn absurd<A>(self) -> A {
        match self {}
    }
}

struct Count;

impl Fold for Count {
    type Accumulator = u32;
    type Error = Never;
    type Element = &'static str;

    fn init(&mut self) -> u32 {
        0
    }

    fn try_step(&mut self, acc: u32, _: &'static str) -> Result<u32, Never> {
        Ok(acc + 1)
    }
}

#[test]
fn a_fold_of_ones_own_is_driven() {
    let mut longest = Longest { steps: 0 };
    assert_eq!(longest.try_fold(["a", "abc", "ab"].into_iter()), Ok(3));
    assert_eq!(longest.steps, 3);
    assert_eq!(
        longest.try_fold(["ab", "", "abc"].into_iter()),
        Err("empty word after 2".to_string())
    );
    assert_eq!(longest.steps, 5);
}

#[test]
fn a_fold_with_an_error_type_of_ones_own_cannot_fail() {
    let mut count = Count;
    assert_eq!(count.fold(["a", "b", "c"].into_iter()), 3);
    assert_eq!(count.fold(std::iter::empty()), 0);
}

#[test]
fn a_fold_of_ones_own_is_zipped() {
    let lengths = from_fn(0_usize, |n: usize, word: &'static str| n + word.len());
    let mut both = Longest { steps: 0 }.zip(Count.zip(lengths));
    let (longest, rest) = both.fold(["ab", "abcd", "", "abcdef"].into_iter());
    assert_eq!(longest, Err("empty word after 4".to_string()));
    match rest {
        Ok((Ok(count), Ok(length))) => {
            assert_eq!(count, 4);
            assert_eq!(length, 12);
        }
        _ => panic!("a slot that cannot fail has failed"),
    }
}

#[test]
fn a_fold_of_ones_own_is_paired() {
    let words = from_try_fn(0_u32, |n: u32, _: &'static str| -> Result<u32, Never> {
        Ok(n + 1)
    });
    let mut count_twice = Count.try_zip(words);
    assert_eq!(count_twice.fold(["a", "b"].into_iter()), (2, 2));
}
