use std::sync::Arc;

use bosing::quant::TIME_INFINITY;
use bosing::repeat::{copy_place, repeat_inner, stretched_spacing, Repeat};
use bosing::schedule::{
    arrange, measure, Element, ElementCommonBuilder, ElementRef, ElementVariant, Play,
    ScheduleError, ScheduleOptions,
};

fn unit_plateau() -> ElementRef {
    let common = ElementCommonBuilder::new().build().unwrap();
    let p = Play::new(0, 0, 1, false).unwrap();
    Arc::new(Element::new(common, ElementVariant::Play(p)))
}

fn repeat(count: u32, spacing: i64) -> ElementRef {
    let common = ElementCommonBuilder::new().build().unwrap();
    let r = Repeat::new(unit_plateau(), count, spacing).unwrap();
    Arc::new(Element::new(common, ElementVariant::Repeat(r)))
}

fn strict() -> ScheduleOptions {
    ScheduleOptions { time_tolerance: 0, allow_oversize: false }
}

#[test]
fn repeated_plateaus_are_contiguous() {
    let m = measure(repeat(3, 0));
    assert_eq!(m.duration(), 3);
    let a = arrange(&m, 0, 3, &strict()).unwrap();
    let copies = a.try_get_children().unwrap();
    assert_eq!(copies.len(), 3);
    for (i, c) in copies.iter().enumerate() {
        assert_eq!(c.inner_time(), i as i64);
        assert_eq!(c.inner_duration(), 1);
    }
}

#[test]
fn repeat_spacing_adds_to_measure() {
    assert_eq!(measure(repeat(3, 2)).duration(), 7);
    assert_eq!(repeat_inner(3, 1, 2), 7);
    assert_eq!(repeat_inner(0, 1, 2), 0);
    assert_eq!(repeat_inner(1, 5, 100), 5);
}

#[test]
fn excess_duration_stretches_spacing() {
    let m = measure(repeat(3, 0));
    let a = arrange(&m, 0, 5, &strict()).unwrap();
    let copies = a.try_get_children().unwrap();
    let times = copies.iter().map(|c| c.inner_time()).collect::<Vec<_>>();
    assert_eq!(times, vec![0, 2, 4]);
    assert_eq!(stretched_spacing(3, 1, 0, 5), 1);
    assert_eq!(copy_place(3, 1, 0, 5, 2), 4);
}

#[test]
fn empty_repeat_measures_zero() {
    let m = measure(repeat(0, 5));
    assert_eq!(m.duration(), 0);
    let a = arrange(&m, 0, 0, &strict()).unwrap();
    assert_eq!(a.try_get_children().unwrap().len(), 0);
}

#[test]
fn repeat_rejects_infinite_spacing() {
    assert_eq!(
        Repeat::new(unit_plateau(), 2, TIME_INFINITY).unwrap_err(),
        ScheduleError::InvalidQuantity
    );
}
