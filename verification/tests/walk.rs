use mdbx::err::{Error, MDBX_NOTFOUND, MDBX_RESULT_TRUE, MDBX_SUCCESS};
use mdbx::walk::{Call, Kind, Op, Step, Walk};

/// Drives a walk over sorted keys, as a cursor over them would.
fn run(kind: Kind, keys: &[i32], start: i32, end: i32) -> Vec<i32> {
    let mut w = Walk::new(kind);
    let mut pos: Option<usize> = None;
    let mut out = Vec::new();
    loop {
        let c = w.call((start - end).signum());
        let found = match c.op {
            Op::First => if keys.is_empty() { None } else { Some(0) },
            Op::Last => keys.len().checked_sub(1),
            Op::Next => pos.and_then(|p| if p + 1 < keys.len() { Some(p + 1) } else { None }),
            Op::Prev => pos.and_then(|p| p.checked_sub(1)),
            Op::SetLowerbound => keys.iter().position(|k| *k >= start),
            Op::SetUpperbound => keys.iter().rposition(|k| *k <= start),
            Op::SetKey | Op::NextDup => unreachable!(),
        };
        let code = if found.is_some() { MDBX_SUCCESS } else { MDBX_NOTFOUND };
        if found.is_some() {
            pos = found;
        }
        let cmp = found.map(|p| (keys[p] - end).signum()).unwrap_or(0);
        match w.on_result(code, cmp) {
            Step::Yield => out.push(keys[pos.unwrap()]),
            Step::Stop => return out,
            Step::Fail(e) => panic!("{:?}", e),
        }
    }
}

const KEYS: [i32; 5] = [1, 2, 3, 4, 5];

#[test]
fn all_and_rev() {
    assert_eq!(run(Kind::All, &KEYS, 0, 0), vec![1, 2, 3, 4, 5]);
    assert_eq!(run(Kind::Rev, &KEYS, 0, 0), vec![5, 4, 3, 2, 1]);
    assert_eq!(run(Kind::All, &[], 0, 0), Vec::<i32>::new());
}

#[test]
fn ranges_forward() {
    assert_eq!(run(Kind::Range, &KEYS, 2, 4), vec![2, 3]);
    assert_eq!(run(Kind::RangeInclusive, &KEYS, 2, 4), vec![2, 3, 4]);
    assert_eq!(run(Kind::RangeFrom, &KEYS, 3, 0), vec![3, 4, 5]);
    assert_eq!(run(Kind::RangeTo, &KEYS, 0, 3), vec![1, 2]);
    assert_eq!(run(Kind::RangeToInclusive, &KEYS, 0, 3), vec![1, 2, 3]);
    assert_eq!(run(Kind::Range, &KEYS, 3, 3), Vec::<i32>::new());
}

#[test]
fn reversed_ranges_walk_down() {
    assert_eq!(run(Kind::Range, &KEYS, 4, 2), vec![4, 3]);
    assert_eq!(run(Kind::RangeInclusive, &KEYS, 4, 2), vec![4, 3, 2]);
}

#[test]
fn first_call_seeks_then_moves() {
    let mut w = Walk::new(Kind::Dup);
    assert_eq!(w.call(0), Call { op: Op::SetKey, load_start: true });
    assert_eq!(w.on_result(MDBX_SUCCESS, 0), Step::Yield);
    assert_eq!(w.call(0), Call { op: Op::NextDup, load_start: false });
    assert_eq!(w.on_result(MDBX_NOTFOUND, 0), Step::Stop);
    assert!(w.started);
}

#[test]
fn errors_and_true_results() {
    let mut plain = Walk::new(Kind::All);
    plain.call(0);
    assert_eq!(plain.on_result(MDBX_RESULT_TRUE, 0), Step::Fail(Error(MDBX_RESULT_TRUE)));
    let mut ranged = Walk::new(Kind::RangeFrom);
    ranged.call(0);
    assert_eq!(ranged.on_result(MDBX_RESULT_TRUE, 0), Step::Yield);
    assert_eq!(ranged.on_result(-30781, 0), Step::Fail(Error(-30781)));
    assert!(ranged.needs_end_compare() == false);
    assert!(Walk::new(Kind::RangeTo).needs_end_compare());
}
